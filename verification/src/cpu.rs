//! The processor. The submodules hold the core that executes machine code
//! from memory, with its register file and L1 cache. This module holds the
//! four-register core: it runs a list of operations of the arithmetic
//! instruction set, reaching memory through its cache, which covers the low
//! 256 bytes.

pub mod cache;
pub mod regs;
pub mod proc;

use vstd::prelude::*;

use crate::cache::{
    insert_way,
    lemma_addr_line,
    lemma_line_addr,
    line_addr,
    Cache,
    CacheAddr,
    CacheLine,
};
use crate::cfg::Word;
use crate::cpu::proc::{
    accounted,
    bump,
    combine,
    lemma_accounted_none,
    lemma_accounted_trans,
    lemma_bump_bump,
    lemma_bump_zero,
    lemma_word_read_after_write,
    line_readable,
    line_start,
    mem_word,
    tallied,
    write_word,
    AccessCounts,
    Arith,
    Tallies,
};
use crate::machine_code::word_from_bytes;
use crate::mem::{
    eps_wf,
    lemma_read_after_write,
    lemma_write_keeps_routing,
    mem_write,
    wrap_add,
    EndpointView,
    MemoryController,
    Offset,
    PhysAddr,
};
use crate::ops::{Operand, OperandInner, Operation};

verus! {

/// A register of the four-register core: its name, its value, and whether it
/// was written since the highlights were last cleared.
#[derive(Debug)]
pub struct Reg {
    name: String,
    val: Word,
    highlighted: bool,
}

impl Reg {
    fn named(name: &str) -> (r: Reg)
        ensures
            r.name@ == name@,
            r.val == 0,
            !r.highlighted,
    {
        Reg { name: name.to_owned(), val: 0, highlighted: false }
    }
}

/// The registers `r0` to `r3`.
#[derive(Debug)]
pub struct Regs {
    r0: Reg,
    r1: Reg,
    r2: Reg,
    r3: Reg,
}

impl Regs {
    /// The values of `r0` to `r3`.
    pub closed spec fn values(&self) -> Seq<u16> {
        seq![self.r0.val, self.r1.val, self.r2.val, self.r3.val]
    }

    /// Which of `r0` to `r3` were written since the highlights were cleared.
    pub closed spec fn highlights(&self) -> Seq<bool> {
        seq![self.r0.highlighted, self.r1.highlighted, self.r2.highlighted, self.r3.highlighted]
    }

    /// The names of `r0` to `r3`: their numbers.
    pub closed spec fn names(&self) -> Seq<Seq<char>> {
        seq![self.r0.name@, self.r1.name@, self.r2.name@, self.r3.name@]
    }

    /// Four registers named `0` to `3`, all zero and not highlighted.
    pub fn new() -> (r: Regs)
        ensures
            r.values() == seq![0u16, 0u16, 0u16, 0u16],
            r.highlights() == seq![false, false, false, false],
            r.names() == seq![seq!['0'], seq!['1'], seq!['2'], seq!['3']],
    {
        proof {
            reveal_strlit("0");
            reveal_strlit("1");
            reveal_strlit("2");
            reveal_strlit("3");
            assert("0"@ =~= seq!['0']);
            assert("1"@ =~= seq!['1']);
            assert("2"@ =~= seq!['2']);
            assert("3"@ =~= seq!['3']);
        }
        let r = Regs { r0: Reg::named("0"), r1: Reg::named("1"), r2: Reg::named("2"), r3: Reg::named("3") };
        assert(r.names() =~= seq![seq!['0'], seq!['1'], seq!['2'], seq!['3']]);
        r
    }

    /// Clears every highlight.
    pub fn clear_highlights(&mut self)
        ensures
            final(self).values() == old(self).values(),
            final(self).names() == old(self).names(),
            final(self).highlights() == seq![false, false, false, false],
    {
        self.r0.highlighted = false;
        self.r1.highlighted = false;
        self.r2.highlighted = false;
        self.r3.highlighted = false;
    }

    /// The value of register `i`.
    pub fn get(&self, i: usize) -> (v: Word)
        requires
            i < 4,
        ensures
            v == self.values()[i as int],
    {
        if i == 0 {
            self.r0.val
        } else if i == 1 {
            self.r1.val
        } else if i == 2 {
            self.r2.val
        } else {
            self.r3.val
        }
    }

    /// Writes register `i`, which becomes highlighted.
    pub fn set(&mut self, i: usize, v: Word)
        requires
            i < 4,
        ensures
            final(self).values() == old(self).values().update(i as int, v),
            final(self).highlights() == old(self).highlights().update(i as int, true),
            final(self).names() == old(self).names(),
    {
        if i == 0 {
            self.r0.val = v;
            self.r0.highlighted = true;
        } else if i == 1 {
            self.r1.val = v;
            self.r1.highlighted = true;
        } else if i == 2 {
            self.r2.val = v;
            self.r2.highlighted = true;
        } else {
            self.r3.val = v;
            self.r3.highlighted = true;
        }
        assert(self.values() =~= old(self).values().update(i as int, v));
        assert(self.highlights() =~= old(self).highlights().update(i as int, true));
    }

    /// Whether register `i` was written since the highlights were cleared.
    pub fn is_highlighted(&self, i: usize) -> (b: bool)
        requires
            i < 4,
        ensures
            b == self.highlights()[i as int],
    {
        if i == 0 {
            self.r0.highlighted
        } else if i == 1 {
            self.r1.highlighted
        } else if i == 2 {
            self.r2.highlighted
        } else {
            self.r3.highlighted
        }
    }

    /// The name of register `i`.
    pub fn name(&self, i: usize) -> (s: &str)
        requires
            i < 4,
        ensures
            s@ == self.names()[i as int],
    {
        if i == 0 {
            self.r0.name.as_str()
        } else if i == 1 {
            self.r1.name.as_str()
        } else if i == 2 {
            self.r2.name.as_str()
        } else {
            self.r3.name.as_str()
        }
    }
}

/// What a step of the four-register core acts on: its register values and
/// memory.
pub struct CoreState {
    pub regs: Seq<u16>,
    pub mem: Seq<EndpointView>,
}

/// The value of register `n`, if the core has it.
pub open spec fn reg_word(s: CoreState, n: u16) -> Option<u16> {
    if n < 4 {
        Some(s.regs[n as int])
    } else {
        None
    }
}

/// The word an operand names: its literal, or the value of its register.
pub open spec fn named_word(s: CoreState, o: Operand) -> Option<u16> {
    match o.ty {
        OperandInner::Register => reg_word(s, o.word),
        OperandInner::Literal => Some(o.word),
    }
}

/// An address the core reaches through its cache: word aligned, and in the
/// low 256 bytes that the cache covers.
pub open spec fn reachable(a: u16) -> bool {
    a % 2 == 0 && a < 256
}

/// The value of a source operand: the word it names, or for a dereference
/// the word at the address it names.
pub open spec fn source_value(s: CoreState, o: Operand) -> Option<u16> {
    match named_word(s, o) {
        None => None,
        Some(w) => if o.deref {
            if reachable(w) {
                mem_word(s.mem, w)
            } else {
                None
            }
        } else {
            Some(w)
        },
    }
}

/// The effect of `add`, `sub` or `mov` of `src` into `dest`. A literal
/// destination, a register the core lacks, an address out of reach or
/// unmapped, or an overflow has no effect to give (the core stops on it).
pub open spec fn apply(s: CoreState, kind: Arith, dest: Operand, src: Operand) -> Option<CoreState> {
    match source_value(s, src) {
        None => None,
        Some(v) => if dest.deref {
            match named_word(s, dest) {
                None => None,
                Some(a) => if !reachable(a) {
                    None
                } else {
                    match mem_word(s.mem, a) {
                        None => None,
                        Some(d) => match combine(kind, d, v) {
                            None => None,
                            Some(n) => Some(CoreState { regs: s.regs, mem: write_word(s.mem, a, n) }),
                        },
                    }
                },
            }
        } else {
            match dest.ty {
                OperandInner::Register => if dest.word < 4 {
                    match combine(kind, s.regs[dest.word as int], v) {
                        None => None,
                        Some(n) => Some(
                            CoreState { regs: s.regs.update(dest.word as int, n), mem: s.mem },
                        ),
                    }
                } else {
                    None
                },
                OperandInner::Literal => None,
            }
        },
    }
}

/// The arithmetic and the operands of an operation.
pub open spec fn op_parts(op: Operation) -> (Arith, Operand, Operand) {
    match op {
        Operation::Add(d, s) => (Arith::Add, d, s),
        Operation::Sub(d, s) => (Arith::Sub, d, s),
        Operation::Mov(d, s) => (Arith::Mov, d, s),
    }
}

/// The operation `sub dest, src` (`is_sub`) or `add dest, src`.
pub open spec fn sub_or_add(is_sub: bool, dest: Operand, src: Operand) -> Operation {
    if is_sub {
        Operation::Sub(dest, src)
    } else {
        Operation::Add(dest, src)
    }
}

/// `sub` into a dereferenced destination stores the old destination word
/// minus the source value, and faults exactly when that would go below zero;
/// `add` stores their sum and faults exactly when it would pass `u16::MAX`.
/// Registers are left as they are.
pub proof fn lemma_arith_into_memory(s: CoreState, dest: Operand, src: Operand, is_sub: bool)
    requires
        eps_wf(s.mem),
        dest.deref,
        named_word(s, dest) matches Some(a) && reachable(a) && mem_word(s.mem, a) is Some,
        source_value(s, src) is Some,
    ensures
        ({
            let a = named_word(s, dest).unwrap();
            let d = mem_word(s.mem, a).unwrap();
            let v = source_value(s, src).unwrap();
            let ok = if is_sub {
                d >= v
            } else {
                d + v <= u16::MAX
            };
            let r = if is_sub {
                d - v
            } else {
                d + v
            };
            let after = run_op(s, sub_or_add(is_sub, dest, src));
            &&& (after is Some) == ok
            &&& ok ==> mem_word(after.unwrap().mem, a) == Some(r as u16)
            &&& ok ==> after.unwrap().regs == s.regs
        }),
{
    let a = named_word(s, dest).unwrap();
    let d = mem_word(s.mem, a).unwrap();
    let v = source_value(s, src).unwrap();
    if is_sub && d >= v {
        lemma_word_read_after_write(s.mem, a, (d - v) as u16);
    }
    if !is_sub && d + v <= u16::MAX {
        lemma_word_read_after_write(s.mem, a, (d + v) as u16);
    }
}

/// `sub` into a register gives the register's old value minus the source
/// value, and faults exactly when that would go below zero; `add` gives
/// their sum and faults exactly when it would pass `u16::MAX`. Memory and the
/// other registers are left as they are.
pub proof fn lemma_arith_into_register(s: CoreState, dest: Operand, src: Operand, is_sub: bool)
    requires
        s.regs.len() == 4,
        !dest.deref,
        dest.ty == OperandInner::Register,
        dest.word < 4,
        source_value(s, src) is Some,
    ensures
        ({
            let d = s.regs[dest.word as int];
            let v = source_value(s, src).unwrap();
            let ok = if is_sub {
                d >= v
            } else {
                d + v <= u16::MAX
            };
            let r = if is_sub {
                d - v
            } else {
                d + v
            };
            let after = run_op(s, sub_or_add(is_sub, dest, src));
            &&& (after is Some) == ok
            &&& ok ==> after.unwrap().regs[dest.word as int] == r
            &&& ok ==> forall|i: int|
                0 <= i < 4 && i != dest.word ==> after.unwrap().regs[i] == s.regs[i]
            &&& ok ==> after.unwrap().mem == s.mem
        }),
{
}

/// The cache lookups and word stores of `add`, `sub` or `mov` of `src` into
/// `dest`: a lookup for a dereferenced source; for a dereferenced destination
/// a lookup of its old word (but for `mov`), a lookup of its line, and the store.
pub open spec fn apply_accesses(kind: Arith, dest: Operand, src: Operand) -> (int, int) {
    (
        (if src.deref {
            1int
        } else {
            0int
        }) + (if dest.deref {
            if kind == Arith::Mov {
                1int
            } else {
                2int
            }
        } else {
            0int
        }),
        if dest.deref {
            1int
        } else {
            0int
        },
    )
}

/// The cache lookups and word stores of running an operation.
pub open spec fn op_accesses(op: Operation) -> (int, int) {
    apply_accesses(op_parts(op).0, op_parts(op).1, op_parts(op).2)
}

/// The effect of an operation.
pub open spec fn run_op(s: CoreState, op: Operation) -> Option<CoreState> {
    apply(s, op_parts(op).0, op_parts(op).1, op_parts(op).2)
}

/// Every line the cache holds equals the memory it mirrors.
pub open spec fn coherent(c: Cache, mem: Seq<EndpointView>) -> bool {
    forall|s: int, w: int|
        0 <= s < 8 && 0 <= w < 2 && (#[trigger] c.spec_entry(s, w)) is Some ==> mem_word(
            mem,
            line_addr(s, c.spec_entry(s, w)->0.spec_tag()) as u16,
        ) == Some(c.spec_entry(s, w)->0.spec_val())
}

/// A line found in a coherent cache equals memory.
pub proof fn lemma_coherent_lookup(c: Cache, mem: Seq<EndpointView>, a: u8)
    requires
        c.inv(),
        coherent(c, mem),
        c.spec_lookup(a) is Some,
    ensures
        mem_word(mem, line_start(a as u16)) == c.spec_lookup(a),
{
    lemma_addr_line(a);
    let s = CacheAddr(a).spec_index();
    assert(c.sets()[s][0] == c.spec_entry(s, 0));
    assert(c.sets()[s][1] == c.spec_entry(s, 1));
}

/// Inserting a line that equals memory keeps the cache coherent.
pub proof fn lemma_coherent_after_insert(
    old_cache: Cache,
    new_cache: Cache,
    mem: Seq<EndpointView>,
    a: u8,
    line: CacheLine,
)
    requires
        old_cache.inv(),
        new_cache.inv(),
        coherent(old_cache, mem),
        mem_word(mem, line_start(a as u16)) == Some(line),
        exists|victim: int|
            0 <= victim < 2 && new_cache.sets() == old_cache.inserted(a, line, victim),
    ensures
        coherent(new_cache, mem),
{
    let victim = choose|victim: int|
        0 <= victim < 2 && new_cache.sets() == old_cache.inserted(a, line, victim);
    lemma_addr_line(a);
    let idx = CacheAddr(a).spec_index();
    let w0 = insert_way(old_cache.sets()[idx], CacheAddr(a).spec_tag(), victim);
    assert forall|s: int, w: int|
        0 <= s < 8 && 0 <= w < 2 && (#[trigger] new_cache.spec_entry(s, w)) is Some implies mem_word(
        mem,
        line_addr(s, new_cache.spec_entry(s, w)->0.spec_tag()) as u16,
    ) == Some(new_cache.spec_entry(s, w)->0.spec_val()) by {
        if s == idx && w == w0 {
        } else {
            assert(new_cache.spec_entry(s, w) == old_cache.spec_entry(s, w));
        }
    }
}

/// Replacing a cached line with a new word and writing that word to memory
/// keeps the cache coherent.
pub proof fn lemma_coherent_after_write(
    old_cache: Cache,
    new_cache: Cache,
    mem0: Seq<EndpointView>,
    mem1: Seq<EndpointView>,
    a: u16,
    value: u16,
)
    requires
        reachable(a),
        old_cache.inv(),
        new_cache.inv(),
        eps_wf(mem0),
        coherent(old_cache, mem0),
        mem_word(mem0, a) is Some,
        old_cache.spec_lookup(a as u8) is Some,
        exists|victim: int|
            0 <= victim < 2 && new_cache.sets() == #[trigger] old_cache.inserted(a as u8, value, victim),
        mem1 == write_word(mem0, a, value),
    ensures
        coherent(new_cache, mem1),
        new_cache.spec_lookup(a as u8) == Some(value),
        mem_word(mem1, a) == Some(value),
        eps_wf(mem1),
{
    let b = a as u8;
    let victim = choose|victim: int|
        0 <= victim < 2 && new_cache.sets() == old_cache.inserted(b, value, victim);
    lemma_addr_line(b);
    let idx = CacheAddr(b).spec_index();
    let tag = CacheAddr(b).spec_tag();
    let set = old_cache.sets()[idx];
    let w0 = insert_way(set, tag, victim);
    let lo = (value & 0xff) as u8;
    let hi = (value >> 8u16) as u8;
    let a1 = wrap_add(a, 1);
    let m1 = mem_write(mem0, a, lo);
    assert(a1 == a + 1);
    lemma_write_keeps_routing(mem0, a, lo, a1);
    lemma_read_after_write(mem0, a, lo, a1);
    lemma_read_after_write(m1, a1, hi, a);
    lemma_read_after_write(m1, a1, hi, a1);
    lemma_write_keeps_routing(m1, a1, hi, a);
    assert(word_from_bytes(lo, hi) == value) by {
        assert(((((value & 0xff) as u8) as u16) | ((((value >> 8u16) as u8) as u16) << 8u16))
            == value) by (bit_vector);
    }
    assert(mem_word(mem1, a) == Some(value));
    assert(set[0] == old_cache.spec_entry(idx, 0));
    assert(set[1] == old_cache.spec_entry(idx, 1));
    assert forall|s: int, w: int|
        0 <= s < 8 && 0 <= w < 2 && (#[trigger] new_cache.spec_entry(s, w)) is Some implies mem_word(
        mem1,
        line_addr(s, new_cache.spec_entry(s, w)->0.spec_tag()) as u16,
    ) == Some(new_cache.spec_entry(s, w)->0.spec_val()) by {
        if s == idx && w == w0 {
        } else {
            let e = old_cache.spec_entry(s, w);
            assert(new_cache.spec_entry(s, w) == e);
            let t = e->0.spec_tag();
            let l = line_addr(s, t);
            lemma_line_addr(s, t);
            assert(l != a) by {
                if s == idx {
                    assert(t != tag);
                }
            }
            lemma_read_after_write(mem0, a, lo, l as u16);
            lemma_read_after_write(mem0, a, lo, (l + 1) as u16);
            lemma_read_after_write(m1, a1, hi, l as u16);
            lemma_read_after_write(m1, a1, hi, (l + 1) as u16);
            assert(wrap_add(l as u16, 1) == (l + 1) as u16);
        }
    }
}

/// The four-register core: its registers, the memory it reaches, its cache,
/// and the operations it runs, with the position of the next one.
#[derive(Debug)]
pub struct Cpu {
    pub regs: Regs,
    mc: MemoryController,
    pub cache: Cache,
    program: Vec<Operation>,
    next: usize,
    counts: AccessCounts,
}

impl Cpu {
    /// The register values and memory.
    pub open spec fn state(&self) -> CoreState {
        CoreState { regs: self.reg_values(), mem: self.mem_view() }
    }

    /// The cache lookups and inserts the core has counted, and the memory
    /// reads and writes its memory controller has counted.
    pub closed spec fn tallies(&self) -> Tallies {
        (
            self.counts.cache_reads,
            self.counts.cache_writes,
            self.mc.spec_reads(),
            self.mc.spec_writes(),
        )
    }

    /// The operations the core has run, modulo 2^64.
    pub closed spec fn steps(&self) -> u64 {
        self.counts.steps
    }

    /// The values of the registers.
    pub closed spec fn reg_values(&self) -> Seq<u16> {
        self.regs.values()
    }

    /// The registers.
    pub closed spec fn regs_view(&self) -> Regs {
        self.regs
    }

    /// The cache.
    pub closed spec fn cache_view(&self) -> Cache {
        self.cache
    }

    /// The memory endpoints.
    pub closed spec fn mem_view(&self) -> Seq<EndpointView> {
        self.mc@
    }

    /// The operations the core runs.
    pub closed spec fn program_view(&self) -> Seq<Operation> {
        self.program@
    }

    /// The position of the next operation to run.
    pub closed spec fn next_index(&self) -> int {
        self.next as int
    }

    /// The next operation to run, if any is left.
    pub open spec fn pending(&self) -> Option<Operation> {
        if self.next_index() < self.program_view().len() {
            Some(self.program_view()[self.next_index()])
        } else {
            None
        }
    }

    /// Memory and cache are well formed, the cache is coherent and the
    /// position lies within the program.
    pub closed spec fn inv(&self) -> bool {
        &&& self.mc.inv()
        &&& self.cache.inv()
        &&& coherent(self.cache, self.mc@)
        &&& eps_wf(self.mc@)
        &&& self.next <= self.program@.len()
    }

    /// A core over `mc` that runs `program`, its registers zero and its
    /// cache empty.
    pub fn new(mc: MemoryController, program: Vec<Operation>) -> (cpu: Cpu)
        requires
            mc.inv(),
        ensures
            cpu.inv(),
            cpu.state().regs == seq![0u16, 0u16, 0u16, 0u16],
            cpu.state().mem == mc@,
            cpu.program_view() == program@,
            cpu.next_index() == 0,
            forall|s: int, w: int| 0 <= s < 8 && 0 <= w < 2 ==> #[trigger] cpu.cache_view().spec_entry(s, w) is None,
            cpu.tallies() == (0u64, 0u64, mc.spec_reads(), mc.spec_writes()),
            cpu.steps() == 0,
    {
        proof {
            mc.lemma_inv_wf();
        }
        Cpu { regs: Regs::new(), mc, cache: Cache::new(), program, next: 0, counts: AccessCounts::new() }
    }

    /// The core's counts: operations run, cache lookups and cache inserts.
    pub fn counts(&self) -> (c: AccessCounts)
        ensures
            c.steps == self.steps(),
            c.cache_reads == self.tallies().0,
            c.cache_writes == self.tallies().1,
    {
        self.counts
    }

    /// The memory controller.
    pub fn memory(&self) -> (mc: &MemoryController)
        ensures
            mc@ == self.state().mem,
            self.inv() ==> mc.inv(),
            mc.spec_reads() == self.tallies().2,
            mc.spec_writes() == self.tallies().3,
    {
        &self.mc
    }

    /// The core's cache.
    pub fn cache(&self) -> (c: &Cache)
        ensures
            *c == self.cache_view(),
            self.inv() ==> c.inv(),
            self.inv() ==> coherent(*c, self.state().mem),
    {
        &self.cache
    }

    /// The core's registers.
    pub fn registers(&self) -> (r: &Regs)
        ensures
            *r == self.regs_view(),
            r.values() == self.state().regs,
    {
        &self.regs
    }

    /// The value of register `i`, as the state holds it.
    pub fn register(&self, i: usize) -> (v: Word)
        requires
            i < 4,
        ensures
            v == self.state().regs[i as int],
    {
        self.regs.get(i)
    }

    /// Whether register `i` was written since the highlights were cleared.
    pub fn register_highlighted(&self, i: usize) -> (b: bool)
        requires
            i < 4,
        ensures
            b == self.regs_view().highlights()[i as int],
    {
        self.regs.is_highlighted(i)
    }

    /// Sets register `i` to `v` and highlights it; memory, cache and program
    /// are left as they are.
    pub fn set_register(&mut self, i: usize, v: Word)
        requires
            old(self).inv(),
            i < 4,
        ensures
            final(self).inv(),
            final(self).state() == (CoreState {
                regs: old(self).state().regs.update(i as int, v),
                mem: old(self).state().mem,
            }),
            final(self).regs_view().highlights() == old(self).regs_view().highlights().update(
                i as int,
                true,
            ),
            final(self).regs_view().names() == old(self).regs_view().names(),
            final(self).cache_view() == old(self).cache_view(),
            final(self).program_view() == old(self).program_view(),
            final(self).next_index() == old(self).next_index(),
    {
        self.regs.set(i, v);
    }

    /// Clears the highlights of the registers; their values are left as
    /// they are.
    pub fn clear_register_highlights(&mut self)
        requires
            old(self).inv(),
        ensures
            final(self).inv(),
            final(self).state() == old(self).state(),
            final(self).regs_view().highlights() == seq![false, false, false, false],
            final(self).regs_view().names() == old(self).regs_view().names(),
            final(self).cache_view() == old(self).cache_view(),
            final(self).program_view() == old(self).program_view(),
            final(self).next_index() == old(self).next_index(),
    {
        self.regs.clear_highlights();
    }

    /// The operations the core runs.
    pub fn program(&self) -> (p: &Vec<Operation>)
        ensures
            p@ == self.program_view(),
    {
        &self.program
    }

    /// The position of the next operation to run.
    pub fn position(&self) -> (n: usize)
        ensures
            n == self.next_index(),
    {
        self.next
    }

    /// Reads a whole cache line from memory; the address must be the start
    /// of a mapped line.
    fn read_cache_line_from_mem(&mut self, addr: u16) -> (line: CacheLine)
        requires
            old(self).inv(),
            addr % 2 == 0,
            mem_word(old(self).state().mem, addr) is Some,
        ensures
            Some(line) == mem_word(old(self).state().mem, addr),
            final(self).inv(),
            final(self).state() == old(self).state(),
            final(self).regs == old(self).regs,
            final(self).cache == old(self).cache,
            final(self).program == old(self).program,
            final(self).next == old(self).next,
            final(self).counts == old(self).counts,
            final(self).mc.spec_reads() == bump(old(self).mc.spec_reads(), 2),
            final(self).mc.spec_writes() == old(self).mc.spec_writes(),
    {
        let lo = self.mc.read(PhysAddr::new(addr));
        let hi = self.mc.read(PhysAddr::new(addr).plus(Offset::new(1)));
        proof {
            lemma_bump_bump(old(self).mc.spec_reads(), 1, 1);
        }
        (lo as CacheLine) | ((hi as CacheLine) << 8u16)
    }

    /// The cache line that holds `addr`, from the cache or else from memory
    /// (and then cached).
    fn read_cache_line(&mut self, addr: CacheAddr) -> (line: CacheLine)
        requires
            old(self).inv(),
            line_readable(old(self).state().mem, addr.0 as u16),
        ensures
            final(self).inv(),
            final(self).state() == old(self).state(),
            final(self).regs == old(self).regs,
            final(self).program == old(self).program,
            final(self).next == old(self).next,
            final(self).counts.steps == old(self).counts.steps,
            accounted(old(self).tallies(), final(self).tallies(), 1, 0),
            Some(line) == mem_word(old(self).state().mem, line_start(addr.0 as u16)),
            final(self).cache.spec_lookup(addr.0) == Some(line),
    {
        let ghost t0 = self.tallies();
        self.counts.cache_reads = self.counts.cache_reads.wrapping_add(1);
        match self.cache.lookup(addr) {
            Some(line) => {
                proof {
                    lemma_coherent_lookup(self.cache, self.mc@, addr.0);
                    lemma_bump_zero(t0.1);
                    lemma_bump_zero(t0.2);
                    lemma_bump_zero(t0.3);
                    assert(tallied(t0, self.tallies(), 1, 0, 0));
                }
                line
            },
            None => {
                let bits = addr.into_bits() as u16;
                let start = bits - bits % 2;
                let line = self.read_cache_line_from_mem(start);
                let ghost old_cache = self.cache;
                self.counts.cache_writes = self.counts.cache_writes.wrapping_add(1);
                self.cache.insert(addr, line);
                proof {
                    lemma_coherent_after_insert(old_cache, self.cache, self.mc@, addr.0, line);
                    lemma_bump_zero(t0.3);
                    assert(tallied(t0, self.tallies(), 1, 0, 1));
                }
                line
            },
        }
    }

    /// Reads the word at a reachable address through the cache.
    fn read_word(&mut self, addr: u16) -> (w: Word)
        requires
            old(self).inv(),
            reachable(addr),
            mem_word(old(self).state().mem, addr) is Some,
        ensures
            final(self).inv(),
            final(self).state() == old(self).state(),
            final(self).regs == old(self).regs,
            final(self).program == old(self).program,
            final(self).next == old(self).next,
            final(self).counts.steps == old(self).counts.steps,
            accounted(old(self).tallies(), final(self).tallies(), 1, 0),
            Some(w) == mem_word(old(self).state().mem, addr),
    {
        let cache_addr = CacheAddr::from(addr as u8);
        let cache_line = self.read_cache_line(cache_addr);
        let off = cache_addr.offset();
        assert(off == 0);
        let w = (cache_line >> ((off * 8) as u16)) as Word;
        assert(cache_line >> 0u16 == cache_line) by (bit_vector);
        w
    }

    /// Writes a word at a reachable address: through the cache and on to
    /// memory.
    fn write_addr(&mut self, addr: u16, value: Word)
        requires
            old(self).inv(),
            reachable(addr),
            mem_word(old(self).state().mem, addr) is Some,
        ensures
            final(self).inv(),
            final(self).regs == old(self).regs,
            final(self).program == old(self).program,
            final(self).next == old(self).next,
            final(self).counts.steps == old(self).counts.steps,
            accounted(old(self).tallies(), final(self).tallies(), 1, 1),
            final(self).state().mem == write_word(old(self).state().mem, addr, value),
            final(self).cache.spec_lookup(addr as u8) == Some(value),
            mem_word(final(self).state().mem, addr) == Some(value),
    {
        let cache_addr = CacheAddr::from(addr as u8);
        let ghost t0 = self.tallies();
        let line0 = self.read_cache_line(cache_addr);
        let ghost t1 = self.tallies();
        let off = cache_addr.offset();
        let shift = (off * 8) as u16;
        assert(shift == 0);
        let zero_mask: CacheLine = !(0xFFFFu16 << shift);
        let cache_line = (line0 & zero_mask) | (value << shift);
        assert(cache_line == value) by (bit_vector)
            requires
                shift == 0u16,
                zero_mask == !(0xFFFFu16 << shift),
                cache_line == (line0 & zero_mask) | (value << shift),
        ;
        let ghost mid_cache = self.cache;
        let ghost mem0 = self.mc@;
        self.counts.cache_writes = self.counts.cache_writes.wrapping_add(1);
        self.cache.insert(cache_addr, cache_line);
        let lo = (value & 0xff) as u8;
        let hi = (value >> 8u16) as u8;
        self.mc.write(PhysAddr::new(addr), lo);
        proof {
            lemma_read_after_write(mem0, addr, lo, wrap_add(addr, 1));
        }
        self.mc.write(PhysAddr::new(addr).plus(Offset::new(1)), hi);
        proof {
            lemma_coherent_after_write(mid_cache, self.cache, mem0, self.mc@, addr, value);
            lemma_bump_bump(t1.3, 1, 1);
            lemma_bump_zero(t1.0);
            lemma_bump_zero(t1.2);
            assert(tallied(t1, self.tallies(), 0, 1, 0));
            lemma_accounted_trans(t0, t1, self.tallies(), 1, 0, 0, 1);
        }
    }

    /// The word an operand names.
    fn named_word(&self, o: Operand) -> (w: Word)
        requires
            named_word(self.state(), o) is Some,
        ensures
            Some(w) == named_word(self.state(), o),
    {
        match o.ty {
            OperandInner::Register => self.regs.get(o.word as usize),
            OperandInner::Literal => o.word,
        }
    }

    /// The value of a source operand, reading memory through the cache.
    fn source_value(&mut self, o: Operand) -> (w: Word)
        requires
            old(self).inv(),
            source_value(old(self).state(), o) is Some,
        ensures
            final(self).inv(),
            final(self).state() == old(self).state(),
            final(self).regs == old(self).regs,
            final(self).program == old(self).program,
            final(self).next == old(self).next,
            final(self).counts.steps == old(self).counts.steps,
            accounted(old(self).tallies(), final(self).tallies(), if o.deref { 1int } else { 0int }, 0),
            Some(w) == source_value(old(self).state(), o),
    {
        let w = self.named_word(o);
        if o.deref {
            self.read_word(w)
        } else {
            proof {
                lemma_accounted_none(self.tallies());
            }
            w
        }
    }

    /// `add`, `sub` or `mov` of `src` into `dest`.
    fn apply(&mut self, kind: Arith, dest: Operand, src: Operand)
        requires
            old(self).inv(),
            apply(old(self).state(), kind, dest, src) is Some,
        ensures
            final(self).inv(),
            final(self).state() == apply(old(self).state(), kind, dest, src).unwrap(),
            final(self).program == old(self).program,
            final(self).next == old(self).next,
            accounted(old(self).tallies(), final(self).tallies(), apply_accesses(kind, dest, src).0, apply_accesses(kind, dest, src).1),
            final(self).counts.steps == old(self).counts.steps,
            final(self).regs.names() == old(self).regs.names(),
            final(self).regs.highlights() == (if !dest.deref {
                old(self).regs.highlights().update(dest.word as int, true)
            } else {
                old(self).regs.highlights()
            }),
            dest.deref ==> final(self).cache.spec_lookup(
                named_word(old(self).state(), dest).unwrap() as u8,
            ) == mem_word(final(self).state().mem, named_word(old(self).state(), dest).unwrap()),
    {
        let ghost t0 = self.tallies();
        let src_word = self.source_value(src);
        let ghost t1 = self.tallies();
        let ghost rs: int = if src.deref {
            1
        } else {
            0
        };
        if dest.deref {
            let addr = self.named_word(dest);
            let new_word = match kind {
                Arith::Mov => {
                    proof {
                        lemma_accounted_none(t1);
                    }
                    src_word
                },
                Arith::Add => {
                    let dest_word = self.read_word(addr);
                    dest_word + src_word
                },
                Arith::Sub => {
                    let dest_word = self.read_word(addr);
                    dest_word - src_word
                },
            };
            let ghost t2 = self.tallies();
            let ghost r2: int = if kind == Arith::Mov {
                0
            } else {
                1
            };
            self.write_addr(addr, new_word);
            proof {
                lemma_accounted_trans(t0, t1, t2, rs, 0, r2, 0);
                lemma_accounted_trans(t0, t2, self.tallies(), rs + r2, 0, 1, 1);
            }
        } else {
            match dest.ty {
                OperandInner::Register => {
                    let i = dest.word as usize;
                    let cur = self.regs.get(i);
                    let new_word = match kind {
                        Arith::Mov => src_word,
                        Arith::Add => cur + src_word,
                        Arith::Sub => cur - src_word,
                    };
                    self.regs.set(i, new_word);
                },
                OperandInner::Literal => {
                    proof {
                        assert(false);
                    }
                },
            }
        }
    }

    /// Runs the next operation: `None` when none is left. The operation must
    /// not fault (see `next_step_faults`). A written register is highlighted,
    /// and a word written to memory is left in the cache.
    pub fn execute(&mut self) -> (r: Option<()>)
        requires
            old(self).inv(),
            old(self).pending() matches Some(op) ==> run_op(old(self).state(), op) is Some,
        ensures
            final(self).inv(),
            final(self).program_view() == old(self).program_view(),
            final(self).regs_view().names() == old(self).regs_view().names(),
            match old(self).pending() {
                None => r is None && final(self).state() == old(self).state()
                    && final(self).next_index() == old(self).next_index()
                    && final(self).regs_view().highlights() == old(self).regs_view().highlights()
                    && final(self).tallies() == old(self).tallies() && final(self).steps()
                    == old(self).steps(),
                Some(op) => {
                    &&& r is Some
                    &&& final(self).steps() == bump(old(self).steps(), 1)
                    &&& accounted(
                        old(self).tallies(),
                        final(self).tallies(),
                        op_accesses(op).0,
                        op_accesses(op).1,
                    )
                    &&& final(self).next_index() == old(self).next_index() + 1
                    &&& final(self).state() == run_op(old(self).state(), op).unwrap()
                    &&& final(self).regs_view().highlights() == (if !op_parts(op).1.deref {
                        old(self).regs_view().highlights().update(op_parts(op).1.word as int, true)
                    } else {
                        old(self).regs_view().highlights()
                    })
                    &&& op_parts(op).1.deref ==> final(self).cache_view().spec_lookup(
                        named_word(old(self).state(), op_parts(op).1).unwrap() as u8,
                    ) == mem_word(
                        final(self).state().mem,
                        named_word(old(self).state(), op_parts(op).1).unwrap(),
                    )
                },
            },
    {
        if self.next >= self.program.len() {
            return None;
        }
        let op = self.program[self.next];
        self.next = self.next + 1;
        self.counts.steps = self.counts.steps.wrapping_add(1);
        match op {
            Operation::Add(dest, src) => self.apply(Arith::Add, dest, src),
            Operation::Sub(dest, src) => self.apply(Arith::Sub, dest, src),
            Operation::Mov(dest, src) => self.apply(Arith::Mov, dest, src),
        }
        Some(())
    }

    /// Whether the word at `a` and the address after it are both mapped.
    fn word_mapped(&self, a: u16) -> (b: bool)
        requires
            self.inv(),
        ensures
            b == (mem_word(self.state().mem, a) is Some),
    {
        self.mc.is_mapped(PhysAddr::new(a)) && self.mc.is_mapped(
            PhysAddr::new(a).plus(Offset::new(1)),
        )
    }

    /// The word at `a`, read without going through the cache.
    fn peek_word(&self, a: u16) -> (w: Word)
        requires
            self.inv(),
            mem_word(self.state().mem, a) is Some,
        ensures
            Some(w) == mem_word(self.state().mem, a),
    {
        let lo = self.mc.sideband_read(PhysAddr::new(a));
        let hi = self.mc.sideband_read(PhysAddr::new(a).plus(Offset::new(1)));
        (lo as Word) | ((hi as Word) << 8u16)
    }

    /// The word an operand names, if it names one.
    fn peek_named(&self, o: Operand) -> (r: Option<Word>)
        ensures
            r == named_word(self.state(), o),
    {
        match o.ty {
            OperandInner::Register => if o.word < 4 {
                Some(self.regs.get(o.word as usize))
            } else {
                None
            },
            OperandInner::Literal => Some(o.word),
        }
    }

    /// The value of a source operand, read without going through the cache.
    fn peek_source(&self, o: Operand) -> (r: Option<Word>)
        requires
            self.inv(),
        ensures
            r == source_value(self.state(), o),
    {
        match self.peek_named(o) {
            None => None,
            Some(w) => if o.deref {
                if w % 2 == 0 && w < 256 && self.word_mapped(w) {
                    Some(self.peek_word(w))
                } else {
                    None
                }
            } else {
                Some(w)
            },
        }
    }

    /// Whether `add`, `sub` or `mov` of `src` into `dest` can be run.
    fn peek_apply(&self, kind: Arith, dest: Operand, src: Operand) -> (b: bool)
        requires
            self.inv(),
        ensures
            b == (apply(self.state(), kind, dest, src) is Some),
    {
        let v = match self.peek_source(src) {
            Some(v) => v,
            None => {
                return false;
            },
        };
        let d = if dest.deref {
            match self.peek_named(dest) {
                None => {
                    return false;
                },
                Some(a) => {
                    if a % 2 != 0 || a >= 256 || !self.word_mapped(a) {
                        return false;
                    }
                    self.peek_word(a)
                },
            }
        } else {
            match dest.ty {
                OperandInner::Register => {
                    if dest.word >= 4 {
                        return false;
                    }
                    self.regs.get(dest.word as usize)
                },
                OperandInner::Literal => {
                    return false;
                },
            }
        };
        match kind {
            Arith::Add => d <= u16::MAX - v,
            Arith::Sub => d >= v,
            Arith::Mov => true,
        }
    }

    /// Whether the next operation faults, that is, where the core would stop:
    /// it names a register the core lacks or an address that is odd, above
    /// the low 256 bytes or unmapped, or its arithmetic overflows, or its
    /// destination is a literal.
    pub fn next_step_faults(&self) -> (b: bool)
        requires
            self.inv(),
        ensures
            b == (self.pending() matches Some(op) && run_op(self.state(), op) is None),
    {
        if self.next >= self.program.len() {
            return false;
        }
        match self.program[self.next] {
            Operation::Add(d, s) => !self.peek_apply(Arith::Add, d, s),
            Operation::Sub(d, s) => !self.peek_apply(Arith::Sub, d, s),
            Operation::Mov(d, s) => !self.peek_apply(Arith::Mov, d, s),
        }
    }

    /// Stops every memory endpoint.
    pub fn kill(&self)
        requires
            self.inv(),
    {
        self.mc.kill();
    }
}

} // verus!
