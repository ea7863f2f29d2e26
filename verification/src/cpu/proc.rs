//! The core: fetches machine code at the instruction pointer through the L1
//! cache and executes it against the registers and the memory fabric.
//!
//! The cache is write-through: every cached line equals the memory it
//! mirrors, so the architectural effect of an instruction (registers and
//! memory) does not depend on which lines the cache holds or evicts.

use vstd::prelude::*;

use crate::cfg::{CacheLine, Word};
use crate::cpu::cache::{
    insert_way,
    lemma_addr_line,
    lemma_line_addr,
    line_addr,
    set_lookup,
    Cache,
    CacheAddr,
    CacheEntry,
};
use crate::cpu::regs::{initial_value, Regs, StatusRegister};
use crate::isa::{
    spec_consume,
    Mneumonics,
    Operand,
    OperandInner,
    Operation,
    Register,
    NUM_REGISTERS,
};
use crate::machine_code::{word_from_bytes, DecodeError};
use crate::mem::{
    eps_wf,
    lemma_read_after_write,
    mem_read,
    mem_write,
    wrap_add,
    EndpointView,
    MemoryController,
    Offset,
    PhysAddr,
};

verus! {

/// The architectural state of the machine: the register values, by register
/// number, and the memory endpoints.
pub struct MachineState {
    pub regs: Seq<u16>,
    pub mem: Seq<EndpointView>,
}

pub open spec fn reg_val(s: MachineState, r: Register) -> u16 {
    s.regs[r.spec_index() as int]
}

pub open spec fn set_reg(s: MachineState, r: Register, v: u16) -> MachineState {
    MachineState { regs: s.regs.update(r.spec_index() as int, v), mem: s.mem }
}

/// The word at `a` and the address after it, low byte first, where both are mapped.
pub open spec fn mem_word(mem: Seq<EndpointView>, a: u16) -> Option<u16> {
    match (mem_read(mem, a), mem_read(mem, wrap_add(a, 1))) {
        (Some(lo), Some(hi)) => Some(word_from_bytes(lo, hi)),
        _ => None,
    }
}

/// The address of the first byte of the cache line that holds `a`.
pub open spec fn line_start(a: u16) -> u16 {
    (a - a % 2) as u16
}

/// The cache can serve a byte when its whole line is mapped.
pub open spec fn line_readable(mem: Seq<EndpointView>, a: u16) -> bool {
    mem_word(mem, line_start(a)) is Some
}

/// Memory after the two bytes of `v` are written at `a` and the address after it.
pub open spec fn write_word(mem: Seq<EndpointView>, a: u16, v: u16) -> Seq<EndpointView> {
    mem_write(mem_write(mem, a, (v & 0xff) as u8), wrap_add(a, 1), (v >> 8u16) as u8)
}

/// The `n` bytes from `ip` on can be fetched: each line is mapped and the
/// instruction pointer does not pass the top of the address space.
pub open spec fn fetchable(mem: Seq<EndpointView>, ip: u16, n: int) -> bool {
    &&& ip + n <= u16::MAX
    &&& forall|k: int| 0 <= k < n ==> #[trigger] line_readable(mem, (ip + k) as u16)
}

/// The `n` bytes of memory from `ip` on.
pub open spec fn fetch_bytes(mem: Seq<EndpointView>, ip: u16, n: int) -> Seq<u8> {
    Seq::new(n as nat, |k: int| mem_read(mem, (ip + k) as u16).unwrap())
}

/// The instruction at the instruction pointer and its length, when it can be
/// fetched and decoded.
pub open spec fn fetch(s: MachineState) -> Option<(Operation, int)> {
    let ip = reg_val(s, Register::IP);
    if !fetchable(s.mem, ip, 1) {
        None
    } else {
        match Mneumonics::spec_from_index(mem_read(s.mem, ip).unwrap()) {
            None => None,
            Some(m) => {
                let len = 2 + 2 * m.spec_num_args();
                if !fetchable(s.mem, ip, len) {
                    None
                } else {
                    match spec_consume(fetch_bytes(s.mem, ip, len)) {
                        Ok(Some((op, n))) => Some((op, n)),
                        _ => None,
                    }
                }
            },
        }
    }
}

/// The `n` bytes of memory from `ip` on, read one at a time with the address
/// moving forward after each: `None` where one of them is unmapped or the
/// address would pass the top of the address space.
pub open spec fn peek_bytes(mem: Seq<EndpointView>, ip: u16, n: int) -> Option<Seq<u8>> {
    if ip + n <= u16::MAX && forall|k: int| 0 <= k < n ==> (#[trigger] mem_read(mem, (ip + k) as u16)) is Some {
        Some(Seq::new(n as nat, |k: int| mem_read(mem, (ip + k) as u16).unwrap()))
    } else {
        None
    }
}

/// The instruction that starts at `ip` and its length, read byte by byte
/// without going through the cache, when it can be read and decoded.
pub open spec fn decode_at(mem: Seq<EndpointView>, ip: u16) -> Option<(Operation, int)> {
    match peek_bytes(mem, ip, 1) {
        None => None,
        Some(first) => match Mneumonics::spec_from_index(first[0]) {
            None => None,
            Some(m) => match peek_bytes(mem, ip, 2 + 2 * m.spec_num_args()) {
                None => None,
                Some(bytes) => match spec_consume(bytes) {
                    Ok(Some((op, n))) => Some((op, n)),
                    _ => None,
                },
            },
        },
    }
}

/// Up to `max` instructions, one after the other from `ip` on, up to the
/// first that cannot be read or decoded.
pub open spec fn upcoming_ops(mem: Seq<EndpointView>, ip: u16, max: nat) -> Seq<Operation>
    decreases max,
{
    if max == 0 {
        Seq::empty()
    } else {
        match decode_at(mem, ip) {
            None => Seq::empty(),
            Some((op, n)) => seq![op] + upcoming_ops(mem, (ip + n) as u16, (max - 1) as nat),
        }
    }
}

/// The word an operand names: a literal, or the value of a register.
pub open spec fn inner_word(s: MachineState, inner: OperandInner) -> u16 {
    match inner {
        OperandInner::Literal(w) => w,
        OperandInner::Register(r) => reg_val(s, r),
    }
}

/// The value of a source operand: what it names, or for a dereference the
/// word at the (even) address it names.
pub open spec fn operand_value(s: MachineState, o: Operand) -> Option<u16> {
    match o {
        Operand::LValue(inner) => {
            let a = inner_word(s, inner);
            if a % 2 == 0 {
                mem_word(s.mem, a)
            } else {
                None
            }
        },
        Operand::RValue(inner) => Some(inner_word(s, inner)),
    }
}

/// The arithmetic of the two-operand instructions.
#[derive(Clone, Copy, Debug, PartialEq, Eq, Structural)]
pub enum Arith {
    Add,
    Sub,
    Mov,
}

/// The new destination value, or `None` where the arithmetic overflows.
pub open spec fn combine(kind: Arith, d: u16, v: u16) -> Option<u16> {
    match kind {
        Arith::Add => if d + v <= u16::MAX {
            Some((d + v) as u16)
        } else {
            None
        },
        Arith::Sub => if d >= v {
            Some((d - v) as u16)
        } else {
            None
        },
        Arith::Mov => Some(v),
    }
}

/// The effect of `add`, `sub` or `mov` of `src` into `dest`. A literal
/// destination, an odd or unmapped address, or an overflow has no effect to
/// give (the machine stops on it).
pub open spec fn exec_binary(s: MachineState, kind: Arith, dest: Operand, src: Operand) -> Option<
    MachineState,
> {
    match operand_value(s, src) {
        None => None,
        Some(v) => match dest {
            Operand::LValue(inner) => {
                let a = inner_word(s, inner);
                if a % 2 != 0 {
                    None
                } else {
                    match mem_word(s.mem, a) {
                        None => None,
                        Some(d) => match combine(kind, d, v) {
                            None => None,
                            Some(n) => Some(
                                MachineState { regs: s.regs, mem: write_word(s.mem, a, n) },
                            ),
                        },
                    }
                }
            },
            Operand::RValue(OperandInner::Register(r)) => match combine(kind, reg_val(s, r), v) {
                None => None,
                Some(n) => Some(set_reg(s, r, n)),
            },
            Operand::RValue(OperandInner::Literal(_)) => None,
        },
    }
}

/// The effect of `jmp dest`: the instruction pointer takes the operand's value.
pub open spec fn exec_jmp(s: MachineState, dest: Operand) -> Option<MachineState> {
    match operand_value(s, dest) {
        None => None,
        Some(t) => Some(set_reg(s, Register::IP, t)),
    }
}

/// The effect of `cmp a,b`: the zero flag of the status register records
/// whether the two values are equal.
pub open spec fn exec_compare(s: MachineState, a: Operand, b: Operand) -> Option<MachineState> {
    match (operand_value(s, a), operand_value(s, b)) {
        (Some(x), Some(y)) => {
            let st = reg_val(s, Register::ST);
            Some(
                set_reg(
                    s,
                    Register::ST,
                    (st - st % 2 + (if x == y {
                        1int
                    } else {
                        0int
                    })) as u16,
                ),
            )
        },
        _ => None,
    }
}

/// The state after pushing `v` on the stack, which grows downwards: the
/// stack pointer moves down a word and the word is written where it points.
/// `None` where the stack pointer is below 2 or the new top is odd or
/// unmapped.
pub open spec fn push_word(s: MachineState, v: u16) -> Option<MachineState> {
    let sp = reg_val(s, Register::SP);
    if sp < 2 {
        None
    } else {
        let a = (sp - 2) as u16;
        if a % 2 != 0 || mem_word(s.mem, a) is None {
            None
        } else {
            Some(
                set_reg(
                    MachineState { regs: s.regs, mem: write_word(s.mem, a, v) },
                    Register::SP,
                    a,
                ),
            )
        }
    }
}

/// The word on top of the stack and the state after popping it: the stack
/// pointer moves up a word. `None` where the stack pointer is odd, unmapped,
/// or would pass the top of the address space.
pub open spec fn pop_word(s: MachineState) -> Option<(u16, MachineState)> {
    let sp = reg_val(s, Register::SP);
    if sp % 2 != 0 || sp + 2 > u16::MAX {
        None
    } else {
        match mem_word(s.mem, sp) {
            Some(v) => Some((v, set_reg(s, Register::SP, (sp + 2) as u16))),
            None => None,
        }
    }
}

/// The effect of `psh src`: the source's value is pushed on the stack.
pub open spec fn exec_push(s: MachineState, src: Operand) -> Option<MachineState> {
    match operand_value(s, src) {
        Some(v) => push_word(s, v),
        None => None,
    }
}

/// The effect of `pop dest`: the word on top of the stack is popped and
/// moved into the destination.
pub open spec fn exec_pop(s: MachineState, dest: Operand) -> Option<MachineState> {
    match pop_word(s) {
        Some((v, s2)) => exec_binary(s2, Arith::Mov, dest, Operand::RValue(OperandInner::Literal(v))),
        None => None,
    }
}

/// The effect of `cal target`: the address of the next instruction is pushed
/// and the instruction pointer takes the target's value.
pub open spec fn exec_call(s: MachineState, target: Operand) -> Option<MachineState> {
    match operand_value(s, target) {
        Some(t) => match push_word(s, reg_val(s, Register::IP)) {
            Some(s2) => Some(set_reg(s2, Register::IP, t)),
            None => None,
        },
        None => None,
    }
}

/// The effect of `ret`: the instruction pointer takes the word popped from
/// the stack.
pub open spec fn exec_ret(s: MachineState) -> Option<MachineState> {
    match pop_word(s) {
        Some((v, s2)) => Some(set_reg(s2, Register::IP, v)),
        None => None,
    }
}

/// The address of the entry for interrupt `n` in the interrupt table that
/// the `it` register points to: one word per entry.
pub open spec fn table_entry(s: MachineState, n: u16) -> int {
    reg_val(s, Register::IT) + 2 * n
}

/// The effect of `sys n`: like a call to the handler that entry `n` of the
/// interrupt table holds. `None` where the entry lies past the top of the
/// address space or is odd or unmapped.
pub open spec fn exec_sys(s: MachineState, n: Operand) -> Option<MachineState> {
    match operand_value(s, n) {
        Some(k) => {
            let e = table_entry(s, k);
            if e > u16::MAX || e % 2 != 0 {
                None
            } else {
                match mem_word(s.mem, e as u16) {
                    Some(h) => match push_word(s, reg_val(s, Register::IP)) {
                        Some(s2) => Some(set_reg(s2, Register::IP, h)),
                        None => None,
                    },
                    None => None,
                }
            }
        },
        None => None,
    }
}

/// The effect of `jeq target` (`when_zero`) or `jne target`: the
/// instruction pointer takes the target's value where the zero flag of the
/// status register is set, or clear.
pub open spec fn exec_branch(s: MachineState, target: Operand, when_zero: bool) -> Option<
    MachineState,
> {
    match operand_value(s, target) {
        Some(t) => if (reg_val(s, Register::ST) % 2 == 1) == when_zero {
            Some(set_reg(s, Register::IP, t))
        } else {
            Some(s)
        },
        None => None,
    }
}

/// A state the machine can be in: one value per register, and well-formed
/// memory endpoints.
pub open spec fn state_wf(s: MachineState) -> bool {
    s.regs.len() == NUM_REGISTERS && eps_wf(s.mem)
}

/// Reading the word just written at a mapped address gives it back.
pub proof fn lemma_word_read_after_write(mem: Seq<EndpointView>, a: u16, v: u16)
    requires
        eps_wf(mem),
        mem_word(mem, a) is Some,
    ensures
        mem_word(write_word(mem, a, v), a) == Some(v),
        eps_wf(write_word(mem, a, v)),
{
    let lo = (v & 0xff) as u8;
    let hi = (v >> 8u16) as u8;
    let a1 = wrap_add(a, 1);
    let m1 = mem_write(mem, a, lo);
    assert(a1 != a);
    crate::mem::lemma_write_keeps_routing(mem, a, lo, a1);
    lemma_read_after_write(mem, a, lo, a1);
    lemma_read_after_write(m1, a1, hi, a);
    lemma_read_after_write(m1, a1, hi, a1);
    crate::mem::lemma_write_keeps_routing(m1, a1, hi, a);
    assert(word_from_bytes(lo, hi) == v) by {
        assert(((((v & 0xff) as u8) as u16) | ((((v >> 8u16) as u8) as u16) << 8u16)) == v)
            by (bit_vector);
    }
}

/// A pop right after a push gives back the word pushed and leaves every
/// register as it was before the push.
pub proof fn lemma_pop_after_push(s: MachineState, v: u16)
    requires
        state_wf(s),
        push_word(s, v) is Some,
    ensures
        pop_word(push_word(s, v).unwrap()) is Some,
        pop_word(push_word(s, v).unwrap()).unwrap().0 == v,
        pop_word(push_word(s, v).unwrap()).unwrap().1.regs == s.regs,
{
    let sp = reg_val(s, Register::SP);
    let a = (sp - 2) as u16;
    lemma_word_read_after_write(s.mem, a, v);
    let s2 = push_word(s, v).unwrap();
    assert(reg_val(s2, Register::SP) == a);
    assert(s2.regs.update(7, sp) =~= s.regs);
}

/// A return right after a call (whatever the instruction pointer has become
/// in between) resumes where the call would have continued: every register
/// is back to what it was before the call.
pub proof fn lemma_ret_after_call(s: MachineState, target: Operand, ip: u16)
    requires
        state_wf(s),
        exec_call(s, target) is Some,
    ensures
        exec_ret(set_reg(exec_call(s, target).unwrap(), Register::IP, ip)) is Some,
        exec_ret(set_reg(exec_call(s, target).unwrap(), Register::IP, ip)).unwrap().regs == s.regs,
{
    let pushed = push_word(s, reg_val(s, Register::IP)).unwrap();
    lemma_pop_after_push(s, reg_val(s, Register::IP));
    let s2 = set_reg(exec_call(s, target).unwrap(), Register::IP, ip);
    assert(s2.mem == pushed.mem);
    assert(s2.regs.update(4, reg_val(s, Register::IP)).update(7, reg_val(s, Register::SP)) =~= s.regs);
}

/// A return right after a system call resumes after the system call, with
/// every register as it was before it.
pub proof fn lemma_ret_after_sys(s: MachineState, n: Operand, ip: u16)
    requires
        state_wf(s),
        exec_sys(s, n) is Some,
    ensures
        exec_ret(set_reg(exec_sys(s, n).unwrap(), Register::IP, ip)) is Some,
        exec_ret(set_reg(exec_sys(s, n).unwrap(), Register::IP, ip)).unwrap().regs == s.regs,
{
    let pushed = push_word(s, reg_val(s, Register::IP)).unwrap();
    lemma_pop_after_push(s, reg_val(s, Register::IP));
    let s2 = set_reg(exec_sys(s, n).unwrap(), Register::IP, ip);
    assert(s2.mem == pushed.mem);
    assert(s2.regs.update(4, reg_val(s, Register::IP)).update(7, reg_val(s, Register::SP)) =~= s.regs);
}

/// The state once the instruction pointer has moved past an instruction of
/// `len` bytes.
pub open spec fn past(s: MachineState, len: int) -> MachineState {
    set_reg(s, Register::IP, (reg_val(s, Register::IP) + len) as u16)
}

/// `sys n` calls the handler that the interrupt table holds for `n`: the
/// table starts at the address in `$it`, one word per entry, so the new
/// instruction pointer is the word at `$it + 2n` (for every value of `$it`);
/// the address of the next instruction is pushed as the return address.
pub proof fn lemma_sys_calls_the_table_handler(s: MachineState, n: Operand, len: int)
    requires
        state_wf(s),
        fetch(s) == Some((Operation::Sys(n), len)),
        step(s) is Continue,
    ensures
        ({
            let k = operand_value(past(s, len), n).unwrap();
            let t = step(s)->Continue_0;
            &&& reg_val(s, Register::IT) + 2 * k <= u16::MAX
            &&& mem_word(s.mem, (reg_val(s, Register::IT) + 2 * k) as u16) == Some(
                reg_val(t, Register::IP),
            )
            &&& reg_val(t, Register::SP) == reg_val(s, Register::SP) - 2
            &&& reg_val(t, Register::IT) == reg_val(s, Register::IT)
        }),
{
}

/// `sys n` faults when the table entry for `n` lies past the top of the
/// address space.
pub proof fn lemma_sys_entry_out_of_range(s: MachineState, n: Operand, len: int)
    requires
        state_wf(s),
        fetch(s) == Some((Operation::Sys(n), len)),
        operand_value(past(s, len), n) matches Some(k) && reg_val(s, Register::IT) + 2 * k
            > u16::MAX,
    ensures
        step(s) is Fault,
{
}

/// `cmp a, b` sets the zero flag (bit 0 of the status register) exactly when
/// the two values are equal, and leaves memory as it is.
pub proof fn lemma_compare_sets_zero_flag(s: MachineState, a: Operand, b: Operand, len: int)
    requires
        state_wf(s),
        fetch(s) == Some((Operation::Cmp(a, b), len)),
        step(s) is Continue,
    ensures
        ({
            let t = step(s)->Continue_0;
            &&& (reg_val(t, Register::ST) % 2 == 1) == (operand_value(past(s, len), a)
                == operand_value(past(s, len), b))
            &&& t.mem == s.mem
        }),
{
}

/// `jne target` jumps only when the zero flag is clear: with the flag set
/// the instruction pointer moves on to the next instruction, and with it
/// clear it takes the target's value.
pub proof fn lemma_jne_jumps_when_not_equal(s: MachineState, target: Operand, len: int)
    requires
        state_wf(s),
        fetch(s) == Some((Operation::Jne(target), len)),
        step(s) is Continue,
    ensures
        ({
            let t = step(s)->Continue_0;
            &&& reg_val(s, Register::ST) % 2 == 1 ==> t == past(s, len)
            &&& reg_val(s, Register::ST) % 2 == 0 ==> Some(reg_val(t, Register::IP))
                == operand_value(past(s, len), target)
            &&& t.mem == s.mem
        }),
{
}

/// `jeq target` jumps only when the zero flag is set: with the flag clear
/// the instruction pointer moves on to the next instruction, and with it set
/// it takes the target's value.
pub proof fn lemma_jeq_jumps_when_equal(s: MachineState, target: Operand, len: int)
    requires
        state_wf(s),
        fetch(s) == Some((Operation::Jeq(target), len)),
        step(s) is Continue,
    ensures
        ({
            let t = step(s)->Continue_0;
            &&& reg_val(s, Register::ST) % 2 == 0 ==> t == past(s, len)
            &&& reg_val(s, Register::ST) % 2 == 1 ==> Some(reg_val(t, Register::IP))
                == operand_value(past(s, len), target)
            &&& t.mem == s.mem
        }),
{
}

/// `sub` into a dereferenced destination stores the old destination word
/// minus the source value, and faults exactly when that would go below zero;
/// `add` stores their sum and faults exactly when it would pass `u16::MAX`.
pub proof fn lemma_arith_into_memory(s: MachineState, op: Operation, len: int)
    requires
        state_wf(s),
        fetch(s) == Some((op, len)),
        op matches Operation::Sub(Operand::LValue(_), _) || op matches Operation::Add(
            Operand::LValue(_),
            _,
        ),
    ensures
        ({
            let s1 = past(s, len);
            let (dest, src, is_sub) = match op {
                Operation::Sub(d, v) => (d, v, true),
                Operation::Add(d, v) => (d, v, false),
                _ => (Operand::RValue(OperandInner::Literal(0)), Operand::RValue(OperandInner::Literal(0)), false),
            };
            let a = inner_word(s1, dest->LValue_0);
            (a % 2 == 0 && mem_word(s.mem, a) is Some && operand_value(s1, src) is Some) ==> {
                let d = mem_word(s.mem, a).unwrap();
                let v = operand_value(s1, src).unwrap();
                let ok = if is_sub {
                    d >= v
                } else {
                    d + v <= u16::MAX
                };
                let r = if is_sub {
                    d - v
                } else {
                    d + v
                };
                &&& (step(s) is Continue) == ok
                &&& ok ==> mem_word(step(s)->Continue_0.mem, a) == Some(r as u16)
                &&& ok ==> step(s)->Continue_0.regs == s1.regs
            }
        }),
{
    let s1 = past(s, len);
    assert(s1.mem == s.mem);
    match op {
        Operation::Sub(Operand::LValue(inner), src) => {
            let a = inner_word(s1, inner);
            if a % 2 == 0 && mem_word(s.mem, a) is Some && operand_value(s1, src) is Some {
                let d = mem_word(s.mem, a).unwrap();
                let v = operand_value(s1, src).unwrap();
                if d >= v {
                    lemma_word_read_after_write(s.mem, a, (d - v) as u16);
                }
            }
        },
        Operation::Add(Operand::LValue(inner), src) => {
            let a = inner_word(s1, inner);
            if a % 2 == 0 && mem_word(s.mem, a) is Some && operand_value(s1, src) is Some {
                let d = mem_word(s.mem, a).unwrap();
                let v = operand_value(s1, src).unwrap();
                if d + v <= u16::MAX {
                    lemma_word_read_after_write(s.mem, a, (d + v) as u16);
                }
            }
        },
        _ => {},
    }
}

/// `psh v` moves the stack pointer down a word and stores the value there;
/// the other registers stay as they were (but the instruction pointer, which
/// moves past the instruction).
pub proof fn lemma_push_stores_below_the_stack_pointer(s: MachineState, v: Operand, len: int)
    requires
        state_wf(s),
        fetch(s) == Some((Operation::Psh(v), len)),
        step(s) is Continue,
    ensures
        ({
            let t = step(s)->Continue_0;
            let sp = reg_val(s, Register::SP);
            &&& sp >= 2
            &&& reg_val(t, Register::SP) == sp - 2
            &&& mem_word(t.mem, (sp - 2) as u16) == operand_value(past(s, len), v)
            &&& t.regs == past(s, len).regs.update(7, (sp - 2) as u16)
        }),
{
    let s1 = past(s, len);
    let sp = reg_val(s, Register::SP);
    lemma_word_read_after_write(s.mem, (sp - 2) as u16, operand_value(s1, v).unwrap());
}

/// `cal target` pushes the address of the next instruction below the stack
/// pointer and jumps to the target's value.
pub proof fn lemma_call_pushes_the_return_address(s: MachineState, target: Operand, len: int)
    requires
        state_wf(s),
        fetch(s) == Some((Operation::Cal(target), len)),
        step(s) is Continue,
    ensures
        ({
            let t = step(s)->Continue_0;
            let sp = reg_val(s, Register::SP);
            &&& Some(reg_val(t, Register::IP)) == operand_value(past(s, len), target)
            &&& reg_val(t, Register::SP) == sp - 2
            &&& mem_word(t.mem, (sp - 2) as u16) == Some(reg_val(past(s, len), Register::IP))
        }),
{
    let s1 = past(s, len);
    let sp = reg_val(s, Register::SP);
    lemma_word_read_after_write(s.mem, (sp - 2) as u16, reg_val(s1, Register::IP));
}

/// `ret` jumps to the word on top of the stack and moves the stack pointer
/// up a word; memory is left as it is.
pub proof fn lemma_ret_pops_the_return_address(s: MachineState, len: int)
    requires
        state_wf(s),
        fetch(s) == Some((Operation::Ret, len)),
        step(s) is Continue,
    ensures
        ({
            let t = step(s)->Continue_0;
            let sp = reg_val(s, Register::SP);
            &&& mem_word(s.mem, sp) == Some(reg_val(t, Register::IP))
            &&& reg_val(t, Register::SP) == sp + 2
            &&& t.mem == s.mem
        }),
{
}

/// `jmp target` sets the instruction pointer to the target's value and
/// changes nothing else.
pub proof fn lemma_jmp_sets_the_instruction_pointer(s: MachineState, target: Operand, len: int)
    requires
        state_wf(s),
        fetch(s) == Some((Operation::Jmp(target), len)),
        step(s) is Continue,
    ensures
        ({
            let t = step(s)->Continue_0;
            &&& Some(reg_val(t, Register::IP)) == operand_value(past(s, len), target)
            &&& t.regs == s.regs.update(4, reg_val(t, Register::IP))
            &&& t.mem == s.mem
        }),
{
    assert(step(s)->Continue_0.regs =~= s.regs.update(4, reg_val(step(s)->Continue_0, Register::IP)));
}

/// `sub` into a register gives its old value minus the source value and
/// faults exactly when that would go below zero; `add` gives their sum and
/// faults exactly when it would pass `u16::MAX`; `mov` gives the source
/// value. Memory is left as it is.
pub proof fn lemma_arith_into_register(s: MachineState, op: Operation, len: int)
    requires
        state_wf(s),
        fetch(s) == Some((op, len)),
        op matches Operation::Sub(Operand::RValue(OperandInner::Register(_)), _) || op matches Operation::Add(
            Operand::RValue(OperandInner::Register(_)),
            _,
        ) || op matches Operation::Mov(Operand::RValue(OperandInner::Register(_)), _),
    ensures
        ({
            let s1 = past(s, len);
            let (r, src, kind) = match op {
                Operation::Sub(d, v) => (d->RValue_0->Register_0, v, 0int),
                Operation::Add(d, v) => (d->RValue_0->Register_0, v, 1int),
                Operation::Mov(d, v) => (d->RValue_0->Register_0, v, 2int),
                _ => (Register::R0, Operand::RValue(OperandInner::Literal(0)), 2int),
            };
            operand_value(s1, src) is Some ==> {
                let d = reg_val(s1, r);
                let v = operand_value(s1, src).unwrap();
                let ok = if kind == 0 {
                    d >= v
                } else if kind == 1 {
                    d + v <= u16::MAX
                } else {
                    true
                };
                let res = if kind == 0 {
                    d - v
                } else if kind == 1 {
                    d + v
                } else {
                    v as int
                };
                &&& (step(s) is Continue) == ok
                &&& ok ==> step(s)->Continue_0.regs == s1.regs.update(r.spec_index() as int, res as u16)
                &&& ok ==> step(s)->Continue_0.mem == s.mem
            }
        }),
{
}

/// What one step of the machine does.
pub enum Step {
    /// The machine stops on a fault (the step cannot be taken).
    Fault,
    /// An `end` instruction: the machine halts in this state.
    Halt(MachineState),
    /// The machine continues in this state.
    Continue(MachineState),
}

pub open spec fn continue_or_fault(r: Option<MachineState>) -> Step {
    match r {
        Some(s) => Step::Continue(s),
        None => Step::Fault,
    }
}

/// One step: fetch the instruction at the instruction pointer, move the
/// pointer past it, then execute it.
pub open spec fn step(s: MachineState) -> Step {
    match fetch(s) {
        None => Step::Fault,
        Some((op, len)) => {
            let s1 = set_reg(s, Register::IP, (reg_val(s, Register::IP) + len) as u16);
            match op {
                Operation::Add(d, v) => continue_or_fault(exec_binary(s1, Arith::Add, d, v)),
                Operation::Sub(d, v) => continue_or_fault(exec_binary(s1, Arith::Sub, d, v)),
                Operation::Mov(d, v) => continue_or_fault(exec_binary(s1, Arith::Mov, d, v)),
                Operation::Jmp(d) => continue_or_fault(exec_jmp(s1, d)),
                Operation::Cmp(a, b) => continue_or_fault(exec_compare(s1, a, b)),
                Operation::Jeq(t) => continue_or_fault(exec_branch(s1, t, true)),
                Operation::Jne(t) => continue_or_fault(exec_branch(s1, t, false)),
                Operation::Psh(v) => continue_or_fault(exec_push(s1, v)),
                Operation::Pop(d) => continue_or_fault(exec_pop(s1, d)),
                Operation::End => Step::Halt(s1),
                Operation::Cal(t) => continue_or_fault(exec_call(s1, t)),
                Operation::Ret => continue_or_fault(exec_ret(s1)),
                Operation::Sys(n) => continue_or_fault(exec_sys(s1, n)),
            }
        },
    }
}

/// Which registers are highlighted after a step: the instruction pointer,
/// which the fetch moves; the register that an `add`, `sub`, `mov` or `pop`
/// writes, or the status register for `cmp`; and the stack pointer for the
/// instructions that push or pop.
pub open spec fn step_highlights(s: MachineState, hl: Seq<bool>) -> Seq<bool> {
    let h = hl.update(4, true);
    match fetch(s) {
        Some((op, _)) => match op {
            Operation::Add(Operand::RValue(OperandInner::Register(r)), _) => h.update(
                r.spec_index() as int,
                true,
            ),
            Operation::Sub(Operand::RValue(OperandInner::Register(r)), _) => h.update(
                r.spec_index() as int,
                true,
            ),
            Operation::Mov(Operand::RValue(OperandInner::Register(r)), _) => h.update(
                r.spec_index() as int,
                true,
            ),
            Operation::Cmp(_, _) => h.update(5, true),
            Operation::Psh(_) | Operation::Cal(_) | Operation::Ret | Operation::Sys(_) => h.update(
                7,
                true,
            ),
            Operation::Pop(Operand::RValue(OperandInner::Register(r))) => h.update(7, true).update(
                r.spec_index() as int,
                true,
            ),
            Operation::Pop(_) => h.update(7, true),
            _ => h,
        },
        None => h,
    }
}

/// The address a step writes in memory, if it writes memory.
pub open spec fn step_write_addr(s: MachineState) -> Option<u16> {
    match fetch(s) {
        Some((op, len)) => {
            let s1 = set_reg(s, Register::IP, (reg_val(s, Register::IP) + len) as u16);
            match op {
                Operation::Add(Operand::LValue(inner), _) => Some(inner_word(s1, inner)),
                Operation::Sub(Operand::LValue(inner), _) => Some(inner_word(s1, inner)),
                Operation::Mov(Operand::LValue(inner), _) => Some(inner_word(s1, inner)),
                Operation::Psh(_) | Operation::Cal(_) | Operation::Sys(_) => if reg_val(
                    s1,
                    Register::SP,
                ) >= 2 {
                    Some((reg_val(s1, Register::SP) - 2) as u16)
                } else {
                    None
                },
                Operation::Pop(Operand::LValue(inner)) => if reg_val(s1, Register::SP) + 2
                    <= u16::MAX {
                    Some(
                        inner_word(
                            set_reg(s1, Register::SP, (reg_val(s1, Register::SP) + 2) as u16),
                            inner,
                        ),
                    )
                } else {
                    None
                },
                _ => None,
            }
        },
        None => None,
    }
}

/// The state after a step, where the step does not fault.
pub open spec fn next_state(s: MachineState) -> Option<MachineState> {
    match step(s) {
        Step::Halt(t) => Some(t),
        Step::Continue(t) => Some(t),
        Step::Fault => None,
    }
}

/// Whether a step stores to the byte at `b`: the word it stores lies at
/// the address `step_write_addr` gives and the address after it.
pub open spec fn step_writes(s: MachineState, b: u16) -> bool {
    match step_write_addr(s) {
        Some(a) => b == a || b == wrap_add(a, 1),
        None => false,
    }
}

/// Writing a word leaves every other byte as it was.
proof fn lemma_word_write_keeps(mem: Seq<EndpointView>, a: u16, v: u16, b: u16)
    requires
        eps_wf(mem),
        mem_word(mem, a) is Some,
        b != a,
        b != wrap_add(a, 1),
    ensures
        mem_read(write_word(mem, a, v), b) == mem_read(mem, b),
{
    let lo = (v & 0xff) as u8;
    let hi = (v >> 8u16) as u8;
    let a1 = wrap_add(a, 1);
    let m1 = mem_write(mem, a, lo);
    lemma_read_after_write(mem, a, lo, b);
    lemma_read_after_write(mem, a, lo, a1);
    crate::mem::lemma_write_keeps_routing(mem, a, lo, a1);
    lemma_read_after_write(m1, a1, hi, b);
}

/// `add`, `sub` or `mov` changes memory only at the word of a dereferenced
/// destination.
proof fn lemma_binary_writes_only(s: MachineState, kind: Arith, dest: Operand, src: Operand, b: u16)
    requires
        eps_wf(s.mem),
        exec_binary(s, kind, dest, src) is Some,
        dest matches Operand::LValue(inner) ==> b != inner_word(s, inner) && b != wrap_add(
            inner_word(s, inner),
            1,
        ),
    ensures
        mem_read(exec_binary(s, kind, dest, src).unwrap().mem, b) == mem_read(s.mem, b),
{
    if let Operand::LValue(inner) = dest {
        let a = inner_word(s, inner);
        let v = operand_value(s, src).unwrap();
        let d = mem_word(s.mem, a).unwrap();
        let n = combine(kind, d, v).unwrap();
        lemma_word_write_keeps(s.mem, a, n, b);
    }
}

/// A push changes memory only at the new top of the stack.
proof fn lemma_push_writes_only(s: MachineState, v: u16, b: u16)
    requires
        eps_wf(s.mem),
        push_word(s, v) is Some,
        b != (reg_val(s, Register::SP) - 2) as u16,
        b != wrap_add((reg_val(s, Register::SP) - 2) as u16, 1),
    ensures
        mem_read(push_word(s, v).unwrap().mem, b) == mem_read(s.mem, b),
{
    lemma_word_write_keeps(s.mem, (reg_val(s, Register::SP) - 2) as u16, v, b);
}

/// A step that does not fault changes memory only at the word it stores:
/// every other byte keeps its value.
pub proof fn lemma_step_writes_only(s: MachineState, b: u16)
    requires
        state_wf(s),
        next_state(s) is Some,
        !step_writes(s, b),
    ensures
        mem_read(next_state(s).unwrap().mem, b) == mem_read(s.mem, b),
{
    let (op, len) = fetch(s).unwrap();
    let s1 = set_reg(s, Register::IP, (reg_val(s, Register::IP) + len) as u16);
    assert(s1.mem == s.mem);
    match op {
        Operation::Add(d, v) => lemma_binary_writes_only(s1, Arith::Add, d, v, b),
        Operation::Sub(d, v) => lemma_binary_writes_only(s1, Arith::Sub, d, v, b),
        Operation::Mov(d, v) => lemma_binary_writes_only(s1, Arith::Mov, d, v, b),
        Operation::Psh(v) => lemma_push_writes_only(s1, operand_value(s1, v).unwrap(), b),
        Operation::Cal(t) => lemma_push_writes_only(s1, reg_val(s1, Register::IP), b),
        Operation::Sys(n) => lemma_push_writes_only(s1, reg_val(s1, Register::IP), b),
        Operation::Pop(d) => {
            let (v, s2) = pop_word(s1).unwrap();
            assert(s2 == set_reg(s1, Register::SP, (reg_val(s1, Register::SP) + 2) as u16));
            lemma_binary_writes_only(
                s2,
                Arith::Mov,
                d,
                Operand::RValue(OperandInner::Literal(v)),
                b,
            );
        },
        _ => {},
    }
}

/// Every byte that a step does not store to keeps its value.
pub proof fn lemma_step_keeps_unwritten(s: MachineState)
    requires
        state_wf(s),
        next_state(s) is Some,
    ensures
        forall|b: u16|
            !step_writes(s, b) ==> mem_read(#[trigger] next_state(s).unwrap().mem, b) == mem_read(
                s.mem,
                b,
            ),
{
    assert forall|b: u16| !step_writes(s, b) implies mem_read(
        #[trigger] next_state(s).unwrap().mem,
        b,
    ) == mem_read(s.mem, b) by {
        lemma_step_writes_only(s, b);
    }
}

/// Every line the cache holds equals the memory it mirrors.
pub open spec fn coherent(c: Cache, mem: Seq<EndpointView>) -> bool {
    forall|s: int, w: int|
        0 <= s < 8 && 0 <= w < 2 && (#[trigger] c.spec_entry(s, w)) is Some ==> mem_word(
            mem,
            line_addr(s, c.spec_entry(s, w)->0.spec_tag()) as u16,
        ) == Some(c.spec_entry(s, w)->0.spec_val())
}

/// A line found in a coherent cache equals memory.
pub proof fn lemma_coherent_lookup(c: Cache, mem: Seq<EndpointView>, a: u16)
    requires
        c.inv(),
        coherent(c, mem),
        c.spec_lookup(a) is Some,
    ensures
        mem_word(mem, line_start(a)) == c.spec_lookup(a),
{
    lemma_addr_line(a);
    let s = CacheAddr(a).spec_index();
    if c.spec_entry(s, 0) is Some && c.spec_entry(s, 0)->0.spec_tag() == CacheAddr(a).spec_tag() {
        assert(c.sets()[s][0] == c.spec_entry(s, 0));
    } else {
        assert(c.sets()[s][0] == c.spec_entry(s, 0));
        assert(c.sets()[s][1] == c.spec_entry(s, 1));
    }
}

/// How many times the core has used its own parts: instructions executed,
/// and cache lookups and inserts (the memory controller counts the memory
/// reads and writes). Each count wraps around at `u64::MAX`.
#[derive(Clone, Copy, Debug, PartialEq, Eq, Structural)]
pub struct AccessCounts {
    pub steps: u64,
    pub cache_reads: u64,
    pub cache_writes: u64,
}

impl AccessCounts {
    /// No use yet.
    pub fn new() -> (c: AccessCounts)
        ensures
            c == (AccessCounts {
                steps: 0,
                cache_reads: 0,
                cache_writes: 0,
            }),
    {
        AccessCounts { steps: 0, cache_reads: 0, cache_writes: 0 }
    }
}

/// A count `c` advanced by `k`, wrapping around at 2^64 as the counts do.
pub open spec fn bump(c: u64, k: int) -> u64 {
    ((c + k) % 0x1_0000_0000_0000_0000) as u64
}

/// The tallies that the costs of a run are computed from: cache lookups,
/// cache inserts, memory reads and memory writes.
pub type Tallies = (u64, u64, u64, u64);

/// The tallies went from `t0` to `t1` by `reads` cache lookups, `misses` of
/// which missed (each miss reads the two bytes of its line from memory and
/// inserts the line), and `stores` word stores (each inserts its line in the
/// cache and writes its two bytes to memory).
pub open spec fn tallied(t0: Tallies, t1: Tallies, reads: int, stores: int, misses: int) -> bool {
    &&& t1.0 == bump(t0.0, reads)
    &&& t1.1 == bump(t0.1, stores + misses)
    &&& t1.2 == bump(t0.2, 2 * misses)
    &&& t1.3 == bump(t0.3, 2 * stores)
}

/// The tallies went from `t0` to `t1` by `reads` cache lookups and `stores`
/// word stores, however many of the lookups missed (which depends on what
/// the cache held and on its random evictions).
pub open spec fn accounted(t0: Tallies, t1: Tallies, reads: int, stores: int) -> bool {
    exists|misses: int| 0 <= misses <= reads && tallied(t0, t1, reads, stores, misses)
}

/// Advancing by nothing leaves a count as it is.
pub proof fn lemma_bump_zero(c: u64)
    ensures
        bump(c, 0) == c,
{
}

/// Advancing a count twice advances it by the sum.
pub proof fn lemma_bump_bump(c: u64, a: int, b: int)
    requires
        0 <= a,
        0 <= b < 0x1_0000_0000_0000_0000,
    ensures
        bump(bump(c, a), b) == bump(c, a + b),
{
    vstd::arithmetic::div_mod::lemma_add_mod_noop_right(b, c + a, 0x1_0000_0000_0000_0000);
    vstd::arithmetic::div_mod::lemma_mod_bound(b + ((c + a) % 0x1_0000_0000_0000_0000), 0x1_0000_0000_0000_0000);
    vstd::arithmetic::div_mod::lemma_mod_bound(c + a, 0x1_0000_0000_0000_0000);
}

/// No lookup and no store leaves the tallies as they are.
pub proof fn lemma_accounted_none(t: Tallies)
    ensures
        accounted(t, t, 0, 0),
{
    lemma_bump_zero(t.0);
    lemma_bump_zero(t.1);
    lemma_bump_zero(t.2);
    lemma_bump_zero(t.3);
    assert(tallied(t, t, 0, 0, 0));
}

/// Accesses made one after the other add up.
pub proof fn lemma_accounted_trans(
    t0: Tallies,
    t1: Tallies,
    t2: Tallies,
    r1: int,
    s1: int,
    r2: int,
    s2: int,
)
    requires
        0 <= r2 < 0x1000,
        0 <= s2 < 0x1000,
        0 <= s1,
        accounted(t0, t1, r1, s1),
        accounted(t1, t2, r2, s2),
    ensures
        accounted(t0, t2, r1 + r2, s1 + s2),
{
    let m1 = choose|m: int| 0 <= m <= r1 && tallied(t0, t1, r1, s1, m);
    let m2 = choose|m: int| 0 <= m <= r2 && tallied(t1, t2, r2, s2, m);
    lemma_bump_bump(t0.0, r1, r2);
    lemma_bump_bump(t0.1, s1 + m1, s2 + m2);
    lemma_bump_bump(t0.2, 2 * m1, 2 * m2);
    lemma_bump_bump(t0.3, 2 * s1, 2 * s2);
    assert(tallied(t0, t2, r1 + r2, s1 + s2, m1 + m2));
}

/// Cache lookups that reading an operand's value makes: one for a dereference.
pub open spec fn operand_reads(o: Operand) -> int {
    if o is LValue {
        1
    } else {
        0
    }
}

/// The cache lookups and word stores of `add`, `sub` or `mov` of `src` into
/// `dest`: the source's lookups, and for a dereferenced destination a
/// lookup of its old word (but for `mov`), a lookup of its line, and the store.
pub open spec fn binary_accesses(kind: Arith, dest: Operand, src: Operand) -> (int, int) {
    if dest is LValue {
        (operand_reads(src) + (if kind == Arith::Mov {
            1int
        } else {
            2int
        }), 1)
    } else {
        (operand_reads(src), 0)
    }
}

/// The cache lookups and word stores of executing `op` (after its fetch).
/// A push looks up the line of the new top of the stack and stores to it; a
/// pop looks up the top of the stack.
pub open spec fn op_accesses(op: Operation) -> (int, int) {
    match op {
        Operation::Add(d, v) => binary_accesses(Arith::Add, d, v),
        Operation::Sub(d, v) => binary_accesses(Arith::Sub, d, v),
        Operation::Mov(d, v) => binary_accesses(Arith::Mov, d, v),
        Operation::Jmp(d) => (operand_reads(d), 0),
        Operation::Cmp(a, b) => (operand_reads(a) + operand_reads(b), 0),
        Operation::Jeq(t) => (operand_reads(t), 0),
        Operation::Jne(t) => (operand_reads(t), 0),
        Operation::Psh(v) => (operand_reads(v) + 1, 1),
        Operation::Pop(d) => (
            1 + binary_accesses(Arith::Mov, d, Operand::RValue(OperandInner::Literal(0))).0,
            binary_accesses(Arith::Mov, d, Operand::RValue(OperandInner::Literal(0))).1,
        ),
        Operation::End => (0, 0),
        Operation::Cal(t) => (operand_reads(t) + 1, 1),
        Operation::Ret => (1, 0),
        Operation::Sys(n) => (operand_reads(n) + 2, 1),
    }
}

/// The cache lookups and word stores of a step: one lookup per byte of the
/// instruction fetched, then those of executing it.
pub open spec fn step_accesses(s: MachineState) -> (int, int) {
    match fetch(s) {
        Some((op, len)) => (len + op_accesses(op).0, op_accesses(op).1),
        None => (0, 0),
    }
}

/// The processor.
#[derive(Debug)]
pub struct Cpu {
    pub regs: Regs,
    pub mc: MemoryController,
    pub cache: Cache,
    pub counts: AccessCounts,
}

impl Cpu {
    /// The cache lookups and inserts the core has counted, and the memory
    /// reads and writes its memory controller has counted.
    pub open spec fn tallies(&self) -> Tallies {
        (
            self.counts.cache_reads,
            self.counts.cache_writes,
            self.mc.spec_reads(),
            self.mc.spec_writes(),
        )
    }

    /// The architectural state.
    pub open spec fn view(&self) -> MachineState {
        MachineState { regs: self.regs.values(), mem: self.mc_view() }
    }

    pub open spec fn mc_view(&self) -> Seq<EndpointView> {
        self.mc@
    }

    pub open spec fn mc_inv(&self) -> bool {
        self.mc.inv()
    }

    /// Registers, memory and cache are well formed and the cache is coherent.
    pub open spec fn inv(&self) -> bool {
        &&& self.regs.inv()
        &&& self.mc_inv()
        &&& self.cache.inv()
        &&& coherent(self.cache, self.mc_view())
        &&& eps_wf(self.mc_view())
    }

    /// A processor with its registers as the machine starts and an empty cache.
    pub fn new(mc: MemoryController) -> (cpu: Cpu)
        requires
            mc.inv(),
        ensures
            cpu.inv(),
            cpu@.mem == mc@,
            forall|r: Register| #[trigger] reg_val(cpu@, r) == initial_value(r),
            forall|i: int| 0 <= i < NUM_REGISTERS ==> !(#[trigger] cpu.regs.highlights()[i]),
            forall|s: int, w: int|
                0 <= s < 8 && 0 <= w < 2 ==> #[trigger] cpu.cache.spec_entry(s, w) is None,
            cpu.cache.highlights() == Seq::<(usize, usize)>::empty(),
            cpu.counts == (AccessCounts {
                steps: 0,
                cache_reads: 0,
                cache_writes: 0,
            }),
    {
        proof {
            mc.lemma_inv_wf();
        }
        let cpu = Cpu { regs: Regs::new(), mc, cache: Cache::new(), counts: AccessCounts::new() };
        assert forall|r: Register| #[trigger] reg_val(cpu@, r) == initial_value(r) by {
            assert(cpu.regs.spec_get(r) == initial_value(r));
        }
        cpu
    }

    /// The memory controller.
    pub fn memory(&self) -> (mc: &MemoryController)
        ensures
            mc@ == self@.mem,
            self.inv() ==> mc.inv(),
    {
        &self.mc
    }

    /// The status register.
    fn status(&self) -> (st: StatusRegister)
        requires
            self.inv(),
        ensures
            st.0 == reg_val(self@, Register::ST),
    {
        StatusRegister::from_bits(self.regs.get(Register::ST))
    }

    /// Writes the status register.
    fn set_status(&mut self, v: &StatusRegister)
        requires
            old(self).inv(),
        ensures
            final(self).regs.highlights() == old(self).regs.highlights().update(5, true),
            final(self).counts.steps == old(self).counts.steps,
            final(self).tallies() == old(self).tallies(),
            final(self).inv(),
            final(self)@ == set_reg(old(self)@, Register::ST, v.0),
            final(self).cache == old(self).cache,
    {
        self.regs.set(Register::ST, v.into_bits());
    }

    /// Writes a register.
    fn set_reg(&mut self, r: Register, v: Word)
        requires
            old(self).inv(),
        ensures
            final(self).regs.highlights() == old(self).regs.highlights().update(r.spec_index() as int, true),
            final(self).counts.steps == old(self).counts.steps,
            final(self).tallies() == old(self).tallies(),
            final(self).inv(),
            final(self)@ == set_reg(old(self)@, r, v),
            final(self).cache == old(self).cache,
    {
        self.regs.set(r, v);
    }

    /// Reads a whole cache line from memory; the address must be the start of
    /// a line and the line mapped.
    fn read_cache_line_from_mem(&mut self, addr: PhysAddr) -> (line: CacheLine)
        requires
            old(self).inv(),
            addr.0 % 2 == 0,
            mem_word(old(self)@.mem, addr.0) is Some,
        ensures
            Some(line) == mem_word(old(self)@.mem, addr.0),
            final(self).inv(),
            final(self)@ == old(self)@,
            final(self).regs == old(self).regs,
            final(self).cache == old(self).cache,
            final(self).counts == old(self).counts,
            final(self).mc.spec_reads() == bump(old(self).mc.spec_reads(), 2),
            final(self).mc.spec_writes() == old(self).mc.spec_writes(),
    {
        let lo = self.mc.read(addr.plus(Offset::new(0)));
        let hi = self.mc.read(addr.plus(Offset::new(1)));
        proof {
            lemma_bump_bump(old(self).mc.spec_reads(), 1, 1);
        }
        proof {
            assert(wrap_add(addr.0, 0) == addr.0);
        }
        (lo as CacheLine) | ((hi as CacheLine) << 8u16)
    }

    /// The cache line that holds `addr`, from the cache or else from memory
    /// (and then cached).
    fn read_cache_line(&mut self, addr: CacheAddr) -> (line: CacheLine)
        requires
            old(self).inv(),
            line_readable(old(self)@.mem, addr.0),
        ensures
            final(self).regs.highlights() == old(self).regs.highlights(),
            final(self).counts.steps == old(self).counts.steps,
            accounted(old(self).tallies(), final(self).tallies(), 1, 0),
            final(self).inv(),
            final(self)@ == old(self)@,
            Some(line) == mem_word(old(self)@.mem, line_start(addr.0)),
            final(self).cache.spec_lookup(addr.0) == Some(line),
    {
        let ghost t0 = self.tallies();
        self.counts.cache_reads = self.counts.cache_reads.wrapping_add(1);
        match self.cache.lookup(addr) {
            Some(line) => {
                proof {
                    lemma_coherent_lookup(self.cache, self@.mem, addr.0);
                    lemma_bump_zero(t0.1);
                    lemma_bump_zero(t0.2);
                    lemma_bump_zero(t0.3);
                    assert(tallied(t0, self.tallies(), 1, 0, 0));
                }
                line
            },
            None => {
                let bits = addr.into_bits();
                let start = bits & 0xFFFEu16;
                assert(bits & 0xFFFEu16 == bits - bits % 2) by (bit_vector);
                let line = self.read_cache_line_from_mem(PhysAddr::new(start));
                let ghost old_cache = self.cache;
                self.counts.cache_writes = self.counts.cache_writes.wrapping_add(1);
                self.cache.insert(addr, line);
                proof {
                    self.lemma_coherent_after_insert(old_cache, addr.0, line);
                    lemma_bump_zero(t0.3);
                    assert(tallied(t0, self.tallies(), 1, 0, 1));
                }
                line
            },
        }
    }

    /// Inserting a line that equals memory keeps the cache coherent.
    proof fn lemma_coherent_after_insert(&self, old_cache: Cache, a: u16, line: CacheLine)
        requires
            old_cache.inv(),
            self.cache.inv(),
            coherent(old_cache, self@.mem),
            mem_word(self@.mem, line_start(a)) == Some(line),
            exists|victim: int|
                0 <= victim < 2 && self.cache.sets() == old_cache.inserted(a, line, victim),
        ensures
            coherent(self.cache, self@.mem),
    {
        let victim = choose|victim: int|
            0 <= victim < 2 && self.cache.sets() == old_cache.inserted(a, line, victim);
        lemma_addr_line(a);
        let idx = CacheAddr(a).spec_index();
        let w0 = insert_way(old_cache.sets()[idx], CacheAddr(a).spec_tag(), victim);
        assert forall|s: int, w: int|
            0 <= s < 8 && 0 <= w < 2 && (#[trigger] self.cache.spec_entry(s, w)) is Some
                implies mem_word(
                self@.mem,
                line_addr(s, self.cache.spec_entry(s, w)->0.spec_tag()) as u16,
            ) == Some(self.cache.spec_entry(s, w)->0.spec_val()) by {
            if s == idx && w == w0 {
            } else {
                assert(self.cache.spec_entry(s, w) == old_cache.spec_entry(s, w));
            }
        }
    }

    /// Reads a byte through the cache; its line must be mapped.
    fn read_byte(&mut self, addr: PhysAddr) -> (b: u8)
        requires
            old(self).inv(),
            line_readable(old(self)@.mem, addr.0),
        ensures
            final(self).regs.highlights() == old(self).regs.highlights(),
            final(self).counts.steps == old(self).counts.steps,
            accounted(old(self).tallies(), final(self).tallies(), 1, 0),
            final(self).inv(),
            final(self)@ == old(self)@,
            Some(b) == mem_read(old(self)@.mem, addr.0),
    {
        let cache_addr = CacheAddr::from(addr.into_raw());
        let cache_line = self.read_cache_line(cache_addr);
        let off = cache_addr.offset();
        let b = (cache_line >> ((off * 8) as u16)) as u8;
        proof {
            let a = addr.0;
            let start = line_start(a);
            let lo = mem_read(self@.mem, start).unwrap();
            let hi = mem_read(self@.mem, wrap_add(start, 1)).unwrap();
            assert(((lo as u16) | ((hi as u16) << 8u16)) as u8 == lo) by (bit_vector);
            assert((((lo as u16) | ((hi as u16) << 8u16)) >> 8u16) as u8 == hi) by (bit_vector);
            assert(((lo as u16) | ((hi as u16) << 8u16)) >> 0u16 == ((lo as u16) | ((hi as u16)
                << 8u16))) by (bit_vector);
            if a % 2 == 1 {
                assert(wrap_add(start, 1) == a);
            }
        }
        b
    }

    /// Reads the word at an even address through the cache; its line must be mapped.
    fn read_word(&mut self, addr: PhysAddr) -> (w: Word)
        requires
            old(self).inv(),
            addr.0 % 2 == 0,
            mem_word(old(self)@.mem, addr.0) is Some,
        ensures
            final(self).regs.highlights() == old(self).regs.highlights(),
            final(self).counts.steps == old(self).counts.steps,
            accounted(old(self).tallies(), final(self).tallies(), 1, 0),
            final(self).inv(),
            final(self)@ == old(self)@,
            Some(w) == mem_word(old(self)@.mem, addr.0),
    {
        let cache_addr = CacheAddr::from(addr.into_raw());
        let cache_line = self.read_cache_line(cache_addr);
        let off = cache_addr.offset();
        assert(off == 0);
        let w = (cache_line >> ((off * 8) as u16)) as Word;
        assert(cache_line >> 0u16 == cache_line) by (bit_vector);
        w
    }

    /// Writes a word at an even address: through the cache and on to memory.
    fn write_addr(&mut self, addr: PhysAddr, value: Word)
        requires
            old(self).inv(),
            addr.0 % 2 == 0,
            mem_word(old(self)@.mem, addr.0) is Some,
        ensures
            final(self).regs.highlights() == old(self).regs.highlights(),
            final(self).counts.steps == old(self).counts.steps,
            accounted(old(self).tallies(), final(self).tallies(), 1, 1),
            final(self).inv(),
            final(self)@.regs == old(self)@.regs,
            final(self)@.mem == write_word(old(self)@.mem, addr.0, value),
            final(self).cache.spec_lookup(addr.0) == Some(value),
            mem_word(final(self)@.mem, addr.0) == Some(value),
    {
        let cache_addr = CacheAddr::from(addr.into_raw());
        let ghost t0 = self.tallies();
        let line0 = self.read_cache_line(cache_addr);
        let ghost t1 = self.tallies();
        let off = cache_addr.offset();
        let shift = (off * 8) as u16;
        assert(shift == 0);
        let zero_mask: CacheLine = !(0xFFFFu16 << shift);
        let cache_line = (line0 & zero_mask) | (value << shift);
        assert(cache_line == value) by (bit_vector)
            requires
                shift == 0u16,
                zero_mask == !(0xFFFFu16 << shift),
                cache_line == (line0 & zero_mask) | (value << shift),
        ;
        let ghost mid_cache = self.cache;
        let ghost mem0 = self@.mem;
        self.counts.cache_writes = self.counts.cache_writes.wrapping_add(1);
        self.cache.insert(cache_addr, cache_line);
        let lo = (value & 0xff) as u8;
        let hi = (value >> 8u16) as u8;
        self.mc.write(addr.plus(Offset::new(0)), lo);
        proof {
            assert(wrap_add(addr.0, 0) == addr.0);
            lemma_read_after_write(mem0, addr.0, lo, wrap_add(addr.0, 1));
        }
        self.mc.write(addr.plus(Offset::new(1)), hi);
        proof {
            self.lemma_coherent_after_write(mid_cache, mem0, addr.0, value);
            lemma_bump_bump(t1.3, 1, 1);
            lemma_bump_zero(t1.0);
            lemma_bump_zero(t1.2);
            assert(tallied(t1, self.tallies(), 0, 1, 0));
            lemma_accounted_trans(t0, t1, self.tallies(), 1, 0, 0, 1);
        }
    }

    /// Replacing a cached line with a new word and writing that word to
    /// memory keeps the cache coherent.
    proof fn lemma_coherent_after_write(
        &self,
        old_cache: Cache,
        mem0: Seq<EndpointView>,
        a: u16,
        value: u16,
    )
        requires
            a % 2 == 0,
            old_cache.inv(),
            self.cache.inv(),
            eps_wf(mem0),
            coherent(old_cache, mem0),
            mem_word(mem0, a) is Some,
            old_cache.spec_lookup(a) is Some,
            exists|victim: int|
                0 <= victim < 2 && self.cache.sets() == old_cache.inserted(a, value, victim),
            self@.mem == write_word(mem0, a, value),
        ensures
            coherent(self.cache, self@.mem),
            self.cache.spec_lookup(a) == Some(value),
            mem_word(self@.mem, a) == Some(value),
            eps_wf(self@.mem),
    {
        let victim = choose|victim: int|
            0 <= victim < 2 && self.cache.sets() == old_cache.inserted(a, value, victim);
        lemma_addr_line(a);
        let idx = CacheAddr(a).spec_index();
        let tag = CacheAddr(a).spec_tag();
        let set = old_cache.sets()[idx];
        let w0 = insert_way(set, tag, victim);
        let lo = (value & 0xff) as u8;
        let hi = (value >> 8u16) as u8;
        let a1 = wrap_add(a, 1);
        let m1 = mem_write(mem0, a, lo);
        assert(a1 == a + 1);
        crate::mem::lemma_write_keeps_routing(mem0, a, lo, a1);
        lemma_read_after_write(mem0, a, lo, a1);
        lemma_read_after_write(m1, a1, hi, a);
        lemma_read_after_write(m1, a1, hi, a1);
        crate::mem::lemma_write_keeps_routing(m1, a1, hi, a);
        assert(word_from_bytes(lo, hi) == value) by {
            assert(((((value & 0xff) as u8) as u16) | ((((value >> 8u16) as u8) as u16) << 8u16))
                == value) by (bit_vector);
        }
        assert(mem_word(self@.mem, a) == Some(value));
        // the way that held the tag is the one replaced
        assert(set[0] == old_cache.spec_entry(idx, 0));
        assert(set[1] == old_cache.spec_entry(idx, 1));
        assert forall|s: int, w: int|
            0 <= s < 8 && 0 <= w < 2 && (#[trigger] self.cache.spec_entry(s, w)) is Some
                implies mem_word(
                self@.mem,
                line_addr(s, self.cache.spec_entry(s, w)->0.spec_tag()) as u16,
            ) == Some(self.cache.spec_entry(s, w)->0.spec_val()) by {
            if s == idx && w == w0 {
            } else {
                let e = old_cache.spec_entry(s, w);
                assert(self.cache.spec_entry(s, w) == e);
                let t = e->0.spec_tag();
                let l = line_addr(s, t);
                lemma_line_addr(s, t);
                assert(l != a) by {
                    if s == idx {
                        assert(t != tag);
                    }
                }
                lemma_read_after_write(mem0, a, lo, l as u16);
                lemma_read_after_write(mem0, a, lo, (l + 1) as u16);
                lemma_read_after_write(m1, a1, hi, l as u16);
                lemma_read_after_write(m1, a1, hi, (l + 1) as u16);
                assert(wrap_add(l as u16, 1) == (l + 1) as u16);
            }
        }
        crate::mem::lemma_write_keeps_routing(m1, a1, hi, a);
    }

    /// Fetches the instruction at the instruction pointer, one byte at a
    /// time through the cache, moving the pointer past each byte.
    fn retrieve_next_instruction(&mut self) -> (op: Operation)
        requires
            old(self).inv(),
            fetch(old(self)@) is Some,
        ensures
            final(self).regs.highlights() == old(self).regs.highlights().update(4, true),
            final(self).counts.steps == old(self).counts.steps,
            accounted(old(self).tallies(), final(self).tallies(), fetch(old(self)@).unwrap().1, 0),
            final(self).inv(),
            final(self)@ == set_reg(
                old(self)@,
                Register::IP,
                (reg_val(old(self)@, Register::IP) + fetch(old(self)@).unwrap().1) as u16,
            ),
            op == fetch(old(self)@).unwrap().0,
    {
        let ghost s0 = self@;
        let ghost t0 = self.tallies();
        let ip0 = self.regs.get(Register::IP);
        let first = self.read_byte(PhysAddr::new(ip0));
        self.set_reg(Register::IP, ip0 + 1);
        let m = match Mneumonics::try_from_u8(first) {
            Ok(m) => m,
            Err(_) => {
                proof {
                    assert(false);
                }
                return Operation::End;
            },
        };
        let len = m.num_bytes();
        let ghost bytes = fetch_bytes(s0.mem, ip0, len as int);
        let mut buf: Vec<u8> = Vec::new();
        buf.push(first);
        let mut k: usize = 1;
        while k < len
            invariant
                1 <= k <= len,
                s0.regs.len() == NUM_REGISTERS,
                len == 2 + 2 * m.spec_num_args(),
                fetchable(s0.mem, ip0, len as int),
                self.inv(),
                self@ == set_reg(s0, Register::IP, (ip0 + k) as u16),
                self.counts.steps == old(self).counts.steps,
                accounted(t0, self.tallies(), k as int, 0),
                old(self).regs.inv(),
                self.regs.highlights() == old(self).regs.highlights().update(4, true),
                buf@ =~= bytes.take(k as int),
                bytes == fetch_bytes(s0.mem, ip0, len as int),
            decreases len - k,
        {
            let ip = self.regs.get(Register::IP);
            assert(self@.regs == s0.regs.update(4, (ip0 + k) as u16));
            assert(self.regs.spec_get(Register::IP) == self@.regs[4]);
            assert(ip == (ip0 + k) as u16);
            assert(ip0 + k < ip0 + len <= u16::MAX);
            assert(line_readable(s0.mem, (ip0 + k) as u16));
            assert(self@.mem == s0.mem);
            let ghost tk = self.tallies();
            let b = self.read_byte(PhysAddr::new(ip));
            proof {
                lemma_accounted_trans(t0, tk, self.tallies(), k as int, 0, 1, 0);
            }
            buf.push(b);
            self.set_reg(Register::IP, ip + 1);
            assert(self@.regs =~= s0.regs.update(4, (ip0 + k + 1) as u16));
            assert(self.regs.highlights() =~= old(self).regs.highlights().update(4, true));
            k = k + 1;
        }
        assert(buf@ =~= bytes);
        match Operation::consume(buf.as_slice()) {
            Ok(Some((op, _))) => op,
            _ => {
                proof {
                    assert(false);
                }
                Operation::End
            },
        }
    }

    /// The word an operand names: a literal, or the value of a register.
    fn inner_word(&self, inner: OperandInner) -> (w: Word)
        requires
            self.inv(),
        ensures
            w == inner_word(self@, inner),
    {
        match inner {
            OperandInner::Literal(word) => word,
            OperandInner::Register(reg) => self.regs.get(reg),
        }
    }

    /// The value of a source operand, reading memory through the cache.
    fn operand_value(&mut self, o: Operand) -> (w: Word)
        requires
            old(self).inv(),
            operand_value(old(self)@, o) is Some,
        ensures
            final(self).regs.highlights() == old(self).regs.highlights(),
            final(self).counts.steps == old(self).counts.steps,
            accounted(old(self).tallies(), final(self).tallies(), operand_reads(o), 0),
            final(self).inv(),
            final(self)@ == old(self)@,
            Some(w) == operand_value(old(self)@, o),
    {
        match o {
            Operand::LValue(inner) => {
                let addr = PhysAddr::new(self.inner_word(inner));
                self.read_word(addr)
            },
            Operand::RValue(inner) => {
                proof {
                    lemma_accounted_none(self.tallies());
                }
                self.inner_word(inner)
            },
        }
    }

    /// `add`, `sub` or `mov` of `src` into `dest`.
    fn exec_binary(&mut self, kind: Arith, dest: Operand, src: Operand)
        requires
            old(self).inv(),
            exec_binary(old(self)@, kind, dest, src) is Some,
        ensures
            final(self).regs.highlights() == (match dest { Operand::RValue(OperandInner::Register(r)) => old(self).regs.highlights().update(r.spec_index() as int, true), _ => old(self).regs.highlights() }),
            final(self).counts.steps == old(self).counts.steps,
            accounted(old(self).tallies(), final(self).tallies(), binary_accesses(kind, dest, src).0, binary_accesses(kind, dest, src).1),
            final(self).inv(),
            final(self)@ == exec_binary(old(self)@, kind, dest, src).unwrap(),
            match dest {
                Operand::LValue(inner) => final(self).cache.spec_lookup(
                    inner_word(old(self)@, inner),
                ) == mem_word(final(self)@.mem, inner_word(old(self)@, inner)),
                _ => true,
            },
    {
        let ghost t0 = self.tallies();
        let src_word = self.operand_value(src);
        let ghost t1 = self.tallies();
        match dest {
            Operand::LValue(inner) => {
                let addr = PhysAddr::new(self.inner_word(inner));
                let new_word = match kind {
                    Arith::Mov => {
                        proof {
                            lemma_accounted_none(t1);
                        }
                        src_word
                    },
                    Arith::Add => {
                        let dest_word = self.read_word(addr);
                        dest_word + src_word
                    },
                    Arith::Sub => {
                        let dest_word = self.read_word(addr);
                        dest_word - src_word
                    },
                };
                let ghost t2 = self.tallies();
                let ghost r2: int = if kind == Arith::Mov {
                    0
                } else {
                    1
                };
                self.write_addr(addr, new_word);
                proof {
                    lemma_accounted_trans(t0, t1, t2, operand_reads(src), 0, r2, 0);
                    lemma_accounted_trans(t0, t2, self.tallies(), operand_reads(src) + r2, 0, 1, 1);
                }
            },
            Operand::RValue(OperandInner::Register(reg)) => {
                let cur = self.regs.get(reg);
                let new_word = match kind {
                    Arith::Mov => src_word,
                    Arith::Add => cur + src_word,
                    Arith::Sub => cur - src_word,
                };
                self.set_reg(reg, new_word);
            },
            Operand::RValue(OperandInner::Literal(..)) => {
                proof {
                    assert(false);
                }
            },
        }
    }

    /// Executes the instruction at the instruction pointer: `None` when it
    /// is `end`. The step must not fault (see `next_step_faults`).
    pub fn execute(&mut self) -> (r: Option<()>)
        requires
            old(self).inv(),
            !(step(old(self)@) is Fault),
        ensures
            final(self).inv(),
            match step(old(self)@) {
                Step::Halt(s) => r is None && final(self)@ == s,
                Step::Continue(s) => r is Some && final(self)@ == s,
                Step::Fault => true,
            },
            match step_write_addr(old(self)@) {
                Some(a) => final(self).cache.spec_lookup(a) == mem_word(final(self)@.mem, a),
                None => true,
            },
            final(self).counts.steps as int == (old(self).counts.steps as int + 1) % 0x1_0000_0000_0000_0000,
            final(self).regs.highlights() == step_highlights(old(self)@, old(self).regs.highlights()),
            accounted(
                old(self).tallies(),
                final(self).tallies(),
                step_accesses(old(self)@).0,
                step_accesses(old(self)@).1,
            ),
            coherent(final(self).cache, final(self)@.mem),
            forall|b: u16|
                !step_writes(old(self)@, b) ==> mem_read(#[trigger] final(self)@.mem, b) == mem_read(
                    old(self)@.mem,
                    b,
                ),
    {
        proof {
            assert(self@.regs.len() == NUM_REGISTERS);
            lemma_step_keeps_unwritten(self@);
        }
        self.step_once()
    }

    /// One step of the machine, as `execute` describes it.
    #[verifier::spinoff_prover]
    #[verifier::rlimit(60)]
    fn step_once(&mut self) -> (r: Option<()>)
        requires
            old(self).inv(),
            !(step(old(self)@) is Fault),
        ensures
            final(self).inv(),
            match step(old(self)@) {
                Step::Halt(s) => r is None && final(self)@ == s,
                Step::Continue(s) => r is Some && final(self)@ == s,
                Step::Fault => true,
            },
            match step_write_addr(old(self)@) {
                Some(a) => final(self).cache.spec_lookup(a) == mem_word(final(self)@.mem, a),
                None => true,
            },
            final(self).counts.steps as int == (old(self).counts.steps as int + 1) % 0x1_0000_0000_0000_0000,
            final(self).regs.highlights() == step_highlights(old(self)@, old(self).regs.highlights()),
            accounted(
                old(self).tallies(),
                final(self).tallies(),
                step_accesses(old(self)@).0,
                step_accesses(old(self)@).1,
            ),
    {
        self.counts.steps = self.counts.steps.wrapping_add(1);
        let ghost t0 = self.tallies();
        let ghost len = fetch(old(self)@).unwrap().1;
        let instruction = self.retrieve_next_instruction();
        let ghost t1 = self.tallies();
        match instruction {
            Operation::Add(dest, src) => self.exec_binary(Arith::Add, dest, src),
            Operation::Sub(dest, src) => self.exec_binary(Arith::Sub, dest, src),
            Operation::Mov(dest, src) => self.exec_binary(Arith::Mov, dest, src),
            Operation::Jmp(dest) => {
                let target = self.operand_value(dest);
                self.set_reg(Register::IP, target);
            },
            Operation::Cmp(op0, op1) => self.exec_compare(op0, op1),
            Operation::Jeq(target) => self.exec_branch(target, true),
            Operation::Jne(target) => self.exec_branch(target, false),
            Operation::Psh(src) => self.exec_push(src),
            Operation::Pop(dest) => self.exec_pop(dest),
            Operation::End => {
                proof {
                    assert(step_accesses(old(self)@) == (len, 0int));
                }
                return None;
            },
            Operation::Cal(target) => self.exec_call(target),
            Operation::Ret => {
                let v = self.pop();
                self.set_reg(Register::IP, v);
            },
            Operation::Sys(n) => self.exec_sys(n),
        }
        proof {
            assert(self.regs.highlights() =~= step_highlights(old(self)@, old(self).regs.highlights()));
            lemma_accounted_trans(
                t0,
                t1,
                self.tallies(),
                len,
                0,
                op_accesses(instruction).0,
                op_accesses(instruction).1,
            );
        }
        Some(())
    }

    /// Executes `psh src`.
    fn exec_push(&mut self, src: Operand)
        requires
            old(self).inv(),
            exec_push(old(self)@, src) is Some,
        ensures
            final(self).inv(),
            final(self)@ == exec_push(old(self)@, src).unwrap(),
            final(self).counts.steps == old(self).counts.steps,
            accounted(old(self).tallies(), final(self).tallies(), operand_reads(src) + 1, 1),
            final(self).regs.highlights() == old(self).regs.highlights().update(7, true),
            final(self).cache.spec_lookup((reg_val(old(self)@, Register::SP) - 2) as u16) == mem_word(
                final(self)@.mem,
                (reg_val(old(self)@, Register::SP) - 2) as u16,
            ),
    {
        let ghost t0 = self.tallies();
        let v = self.operand_value(src);
        let ghost t1 = self.tallies();
        self.push(v);
        proof {
            lemma_accounted_trans(t0, t1, self.tallies(), operand_reads(src), 0, 1, 1);
        }
    }

    /// Executes `cmp op0, op1`: the zero flag records whether they are equal.
    fn exec_compare(&mut self, op0: Operand, op1: Operand)
        requires
            old(self).inv(),
            exec_compare(old(self)@, op0, op1) is Some,
        ensures
            final(self).inv(),
            final(self)@ == exec_compare(old(self)@, op0, op1).unwrap(),
            final(self).counts.steps == old(self).counts.steps,
            accounted(old(self).tallies(), final(self).tallies(), operand_reads(op0) + operand_reads(op1), 0),
            final(self).regs.highlights() == old(self).regs.highlights().update(5, true),
    {
        let ghost t0 = self.tallies();
        let op0_word = self.operand_value(op0);
        let ghost t1 = self.tallies();
        let op1_word = self.operand_value(op1);
        proof {
            lemma_accounted_trans(t0, t1, self.tallies(), operand_reads(op0), 0, operand_reads(op1), 0);
        }
        let mut status = self.status();
        status.set_zero(op0_word == op1_word);
        self.set_status(&status);
    }

    /// Executes `jeq target` (`when_zero`) or `jne target`.
    fn exec_branch(&mut self, target: Operand, when_zero: bool)
        requires
            old(self).inv(),
            exec_branch(old(self)@, target, when_zero) is Some,
        ensures
            final(self).inv(),
            final(self)@ == exec_branch(old(self)@, target, when_zero).unwrap(),
            final(self).counts.steps == old(self).counts.steps,
            accounted(old(self).tallies(), final(self).tallies(), operand_reads(target), 0),
            final(self).regs.highlights() == old(self).regs.highlights()
                || final(self).regs.highlights() == old(self).regs.highlights().update(4, true),
    {
        let t = self.operand_value(target);
        if self.status().zero() == when_zero {
            self.set_reg(Register::IP, t);
        }
    }

    /// Executes `pop dest`.
    fn exec_pop(&mut self, dest: Operand)
        requires
            old(self).inv(),
            exec_pop(old(self)@, dest) is Some,
        ensures
            final(self).inv(),
            final(self)@ == exec_pop(old(self)@, dest).unwrap(),
            final(self).counts.steps == old(self).counts.steps,
            accounted(old(self).tallies(), final(self).tallies(), op_accesses(Operation::Pop(dest)).0, op_accesses(Operation::Pop(dest)).1),
            final(self).regs.highlights() == (match dest {
                Operand::RValue(OperandInner::Register(r)) => old(self).regs.highlights().update(
                    7,
                    true,
                ).update(r.spec_index() as int, true),
                _ => old(self).regs.highlights().update(7, true),
            }),
            match dest {
                Operand::LValue(inner) => {
                    let a = inner_word(
                        set_reg(
                            old(self)@,
                            Register::SP,
                            (reg_val(old(self)@, Register::SP) + 2) as u16,
                        ),
                        inner,
                    );
                    final(self).cache.spec_lookup(a) == mem_word(final(self)@.mem, a)
                },
                _ => true,
            },
    {
        let ghost t0 = self.tallies();
        let v = self.pop();
        let ghost t1 = self.tallies();
        self.exec_binary(Arith::Mov, dest, Operand::RValue(OperandInner::Literal(v)));
        proof {
            let acc = binary_accesses(Arith::Mov, dest, Operand::RValue(OperandInner::Literal(v)));
            assert(acc == binary_accesses(Arith::Mov, dest, Operand::RValue(OperandInner::Literal(0))));
            lemma_accounted_trans(t0, t1, self.tallies(), 1, 0, acc.0, acc.1);
        }
    }

    /// Executes `cal target`.
    fn exec_call(&mut self, target: Operand)
        requires
            old(self).inv(),
            exec_call(old(self)@, target) is Some,
        ensures
            final(self).inv(),
            final(self)@ == exec_call(old(self)@, target).unwrap(),
            final(self).counts.steps == old(self).counts.steps,
            accounted(old(self).tallies(), final(self).tallies(), operand_reads(target) + 1, 1),
            final(self).regs.highlights() == old(self).regs.highlights().update(7, true).update(
                4,
                true,
            ),
            final(self).cache.spec_lookup((reg_val(old(self)@, Register::SP) - 2) as u16) == mem_word(
                final(self)@.mem,
                (reg_val(old(self)@, Register::SP) - 2) as u16,
            ),
    {
        let ghost t0 = self.tallies();
        let t = self.operand_value(target);
        let ghost t1 = self.tallies();
        let ip = self.regs.get(Register::IP);
        self.push(ip);
        proof {
            lemma_accounted_trans(t0, t1, self.tallies(), operand_reads(target), 0, 1, 1);
        }
        self.set_reg(Register::IP, t);
    }

    /// Executes `sys n`.
    fn exec_sys(&mut self, n: Operand)
        requires
            old(self).inv(),
            exec_sys(old(self)@, n) is Some,
        ensures
            final(self).inv(),
            final(self)@ == exec_sys(old(self)@, n).unwrap(),
            final(self).counts.steps == old(self).counts.steps,
            accounted(old(self).tallies(), final(self).tallies(), operand_reads(n) + 2, 1),
            final(self).regs.highlights() == old(self).regs.highlights().update(7, true).update(
                4,
                true,
            ),
            final(self).cache.spec_lookup((reg_val(old(self)@, Register::SP) - 2) as u16) == mem_word(
                final(self)@.mem,
                (reg_val(old(self)@, Register::SP) - 2) as u16,
            ),
    {
        let ghost t0 = self.tallies();
        let k = self.operand_value(n);
        let ghost t1 = self.tallies();
        let it = self.regs.get(Register::IT);
        let entry = it + 2 * k;
        let handler = self.read_word(PhysAddr::new(entry));
        let ghost t2 = self.tallies();
        let ip = self.regs.get(Register::IP);
        self.push(ip);
        proof {
            lemma_accounted_trans(t0, t1, t2, operand_reads(n), 0, 1, 0);
            lemma_accounted_trans(t0, t2, self.tallies(), operand_reads(n) + 1, 0, 1, 1);
        }
        self.set_reg(Register::IP, handler);
    }

    /// Pushes a word on the stack.
    fn push(&mut self, v: Word)
        requires
            old(self).inv(),
            push_word(old(self)@, v) is Some,
        ensures
            final(self).inv(),
            final(self)@ == push_word(old(self)@, v).unwrap(),
            final(self).counts.steps == old(self).counts.steps,
            accounted(old(self).tallies(), final(self).tallies(), 1, 1),
            final(self).regs.highlights() == old(self).regs.highlights().update(7, true),
            final(self).cache.spec_lookup((reg_val(old(self)@, Register::SP) - 2) as u16) == mem_word(
                final(self)@.mem,
                (reg_val(old(self)@, Register::SP) - 2) as u16,
            ),
    {
        let sp = self.regs.get(Register::SP);
        let a = sp - 2;
        self.write_addr(PhysAddr::new(a), v);
        self.set_reg(Register::SP, a);
    }

    /// Pops the word on top of the stack.
    fn pop(&mut self) -> (w: Word)
        requires
            old(self).inv(),
            pop_word(old(self)@) is Some,
        ensures
            final(self).inv(),
            (w, final(self)@) == pop_word(old(self)@).unwrap(),
            final(self).counts.steps == old(self).counts.steps,
            accounted(old(self).tallies(), final(self).tallies(), 1, 0),
            final(self).regs.highlights() == old(self).regs.highlights().update(7, true),
    {
        let sp = self.regs.get(Register::SP);
        let w = self.read_word(PhysAddr::new(sp));
        self.set_reg(Register::SP, sp + 2);
        w
    }

    /// Whether the word at `a` and the address after it are both mapped.
    fn word_mapped(&self, a: u16) -> (b: bool)
        requires
            self.inv(),
        ensures
            b == (mem_word(self@.mem, a) is Some),
    {
        self.mc.is_mapped(PhysAddr::new(a)) && self.mc.is_mapped(
            PhysAddr::new(a).plus(Offset::new(1)),
        )
    }

    /// The word at `a`, read without going through the cache.
    fn peek_word(&self, a: u16) -> (w: Word)
        requires
            self.inv(),
            mem_word(self@.mem, a) is Some,
        ensures
            Some(w) == mem_word(self@.mem, a),
    {
        let lo = self.mc.sideband_read(PhysAddr::new(a));
        let hi = self.mc.sideband_read(PhysAddr::new(a).plus(Offset::new(1)));
        (lo as Word) | ((hi as Word) << 8u16)
    }

    /// The word an operand names once the instruction pointer is `ip`.
    fn peek_inner(&self, ip: u16, inner: OperandInner) -> (w: Word)
        requires
            self.inv(),
        ensures
            w == inner_word(set_reg(self@, Register::IP, ip), inner),
    {
        match inner {
            OperandInner::Literal(word) => word,
            OperandInner::Register(reg) => {
                if reg.index() == 4 {
                    ip
                } else {
                    self.regs.get(reg)
                }
            },
        }
    }

    /// The value of a source operand once the instruction pointer is `ip`,
    /// read without going through the cache.
    fn peek_operand(&self, ip: u16, o: Operand) -> (r: Option<Word>)
        requires
            self.inv(),
        ensures
            r == operand_value(set_reg(self@, Register::IP, ip), o),
    {
        match o {
            Operand::LValue(inner) => {
                let a = self.peek_inner(ip, inner);
                if a % 2 != 0 || !self.word_mapped(a) {
                    None
                } else {
                    Some(self.peek_word(a))
                }
            },
            Operand::RValue(inner) => Some(self.peek_inner(ip, inner)),
        }
    }

    /// Whether `add`, `sub` or `mov` of `src` into `dest` can be executed
    /// once the instruction pointer is `ip`.
    fn peek_binary(&self, ip: u16, kind: Arith, dest: Operand, src: Operand) -> (b: bool)
        requires
            self.inv(),
        ensures
            b == (exec_binary(set_reg(self@, Register::IP, ip), kind, dest, src) is Some),
    {
        let v = match self.peek_operand(ip, src) {
            Some(v) => v,
            None => {
                return false;
            },
        };
        let d = match dest {
            Operand::LValue(inner) => {
                let a = self.peek_inner(ip, inner);
                if a % 2 != 0 || !self.word_mapped(a) {
                    return false;
                }
                self.peek_word(a)
            },
            Operand::RValue(OperandInner::Register(reg)) => self.peek_inner(
                ip,
                OperandInner::Register(reg),
            ),
            Operand::RValue(OperandInner::Literal(..)) => {
                return false;
            },
        };
        match kind {
            Arith::Add => d <= u16::MAX - v,
            Arith::Sub => d >= v,
            Arith::Mov => true,
        }
    }

    /// The instruction at the instruction pointer and its length, read
    /// without going through the cache, when it can be fetched and decoded.
    fn peek_fetch(&self) -> (r: Option<(Operation, u16)>)
        requires
            self.inv(),
        ensures
            match r {
                Some((op, n)) => fetch(self@) == Some((op, n as int)),
                None => fetch(self@) is None,
            },
    {
        let ip = self.regs.get(Register::IP);
        if ip == u16::MAX || !self.word_mapped(ip - ip % 2) {
            proof {
                if ip < u16::MAX {
                    assert(!line_readable(self@.mem, (ip + 0) as u16));
                }
                assert(!fetchable(self@.mem, ip, 1));
            }
            return None;
        }
        proof {
            assert forall|k: int| 0 <= k < 1 implies #[trigger] line_readable(
                self@.mem,
                (ip + k) as u16,
            ) by {
                assert(k == 0);
            }
        }
        let first = self.mc.sideband_read(PhysAddr::new(ip));
        let m = match Mneumonics::try_from_u8(first) {
            Ok(m) => m,
            Err(_) => {
                return None;
            },
        };
        let len = m.num_bytes();
        if ip as usize + len > 0xFFFF {
            return None;
        }
        let ghost mem = self@.mem;
        let mut buf: Vec<u8> = Vec::new();
        let mut k: usize = 0;
        while k < len
            invariant
                k <= len,
                ip + len <= u16::MAX,
                self.inv(),
                mem == self@.mem,
                reg_val(self@, Register::IP) == ip,
                fetchable(mem, ip, 1),
                Mneumonics::spec_from_index(mem_read(mem, ip).unwrap()) == Some(m),
                len == 2 + 2 * m.spec_num_args(),
                forall|j: int| 0 <= j < k ==> #[trigger] line_readable(mem, (ip + j) as u16),
                buf@ =~= fetch_bytes(mem, ip, len as int).take(k as int),
            decreases len - k,
        {
            let a = ip + k as u16;
            if !self.word_mapped(a - a % 2) {
                assert(!line_readable(mem, (ip + k) as u16));
                return None;
            }
            assert(line_readable(mem, (ip + k) as u16));
            buf.push(self.mc.sideband_read(PhysAddr::new(a)));
            k = k + 1;
        }
        assert(buf@ =~= fetch_bytes(mem, ip, len as int));
        match Operation::consume(buf.as_slice()) {
            Ok(Some((op, n))) => {
                proof {
                    crate::machine_code::lemma_decode_len(buf@, crate::isa::spec_arg_counts());
                }
                Some((op, n as u16))
            },
            _ => None,
        }
    }

    /// The `len` bytes from `ip` on, read without going through the cache,
    /// where they can be read.
    fn peek_span(&self, ip: u16, len: usize) -> (r: Option<Vec<u8>>)
        requires
            self.inv(),
        ensures
            match r {
                Some(v) => peek_bytes(self@.mem, ip, len as int) == Some(v@),
                None => peek_bytes(self@.mem, ip, len as int) is None,
            },
    {
        let ghost mem = self@.mem;
        if len > 0xFFFF || ip as usize > 0xFFFF - len {
            return None;
        }
        let mut buf: Vec<u8> = Vec::new();
        let mut k: usize = 0;
        while k < len
            invariant
                k <= len,
                ip + len <= u16::MAX,
                self.inv(),
                mem == self@.mem,
                forall|j: int| 0 <= j < k ==> (#[trigger] mem_read(mem, (ip + j) as u16)) is Some,
                buf@.len() == k,
                forall|j: int| 0 <= j < k ==> buf@[j] == mem_read(mem, (ip + j) as u16).unwrap(),
            decreases len - k,
        {
            let a = PhysAddr::new(ip + k as u16);
            if !self.mc.is_mapped(a) {
                return None;
            }
            buf.push(self.mc.sideband_read(a));
            k = k + 1;
        }
        assert(buf@ =~= Seq::new(len as nat, |j: int| mem_read(mem, (ip + j) as u16).unwrap()));
        Some(buf)
    }

    /// The instruction that starts at `ip` and its length, read without
    /// going through the cache, when it can be read and decoded.
    fn peek_decode(&self, ip: u16) -> (r: Option<(Operation, u16)>)
        requires
            self.inv(),
        ensures
            match r {
                Some((op, n)) => decode_at(self@.mem, ip) == Some((op, n as int)) && ip + n
                    <= u16::MAX,
                None => decode_at(self@.mem, ip) is None,
            },
    {
        let first = match self.peek_span(ip, 1) {
            Some(v) => v[0],
            None => {
                return None;
            },
        };
        let m = match Mneumonics::try_from_u8(first) {
            Ok(m) => m,
            Err(_) => {
                return None;
            },
        };
        let len = m.num_bytes();
        let bytes = match self.peek_span(ip, len) {
            Some(v) => v,
            None => {
                return None;
            },
        };
        match Operation::consume(bytes.as_slice()) {
            Ok(Some((op, n))) => {
                proof {
                    crate::machine_code::lemma_decode_len(bytes@, crate::isa::spec_arg_counts());
                }
                Some((op, n as u16))
            },
            _ => None,
        }
    }

    /// Up to `max` instructions from the instruction pointer on, read
    /// without going through the cache or changing the state, up to the first
    /// that cannot be read or decoded.
    pub fn upcoming(&self, max: usize) -> (v: Vec<Operation>)
        requires
            self.inv(),
        ensures
            v@ == upcoming_ops(self@.mem, reg_val(self@, Register::IP), max as nat),
    {
        let ghost mem = self@.mem;
        let ghost ip0 = reg_val(self@, Register::IP);
        let mut v: Vec<Operation> = Vec::new();
        let mut ip = self.regs.get(Register::IP);
        let mut i: usize = 0;
        while i < max
            invariant
                i <= max,
                self.inv(),
                mem == self@.mem,
                ip0 == reg_val(self@, Register::IP),
                v@ + upcoming_ops(mem, ip, (max - i) as nat) == upcoming_ops(mem, ip0, max as nat),
            decreases max - i,
        {
            match self.peek_decode(ip) {
                Some((op, n)) => {
                    assert(upcoming_ops(mem, ip, (max - i) as nat) == seq![op] + upcoming_ops(
                        mem,
                        (ip + n) as u16,
                        (max - i - 1) as nat,
                    ));
                    v.push(op);
                    ip = ip + n;
                    i = i + 1;
                    assert(v@ + upcoming_ops(mem, ip, (max - i) as nat) =~= upcoming_ops(
                        mem,
                        ip0,
                        max as nat,
                    ));
                },
                None => {
                    assert(upcoming_ops(mem, ip, (max - i) as nat) == Seq::<Operation>::empty());
                    assert(v@ + Seq::<Operation>::empty() =~= v@);
                    return v;
                },
            }
        }
        assert(upcoming_ops(mem, ip, 0) == Seq::<Operation>::empty());
        assert(v@ + Seq::<Operation>::empty() =~= v@);
        v
    }

    /// The address of the word that the next step writes in memory, if it
    /// writes memory: the destination of an `add`, `sub` or `mov` that is
    /// dereferenced.
    pub fn next_write_address(&self) -> (r: Option<u16>)
        requires
            self.inv(),
        ensures
            r == step_write_addr(self@),
    {
        let (op, len) = match self.peek_fetch() {
            Some(f) => f,
            None => {
                return None;
            },
        };
        let ip = self.regs.get(Register::IP) + len;
        match op {
            Operation::Add(Operand::LValue(inner), _) => Some(self.peek_inner(ip, inner)),
            Operation::Sub(Operand::LValue(inner), _) => Some(self.peek_inner(ip, inner)),
            Operation::Mov(Operand::LValue(inner), _) => Some(self.peek_inner(ip, inner)),
            Operation::Psh(_) | Operation::Cal(_) | Operation::Sys(_) => {
                let sp = self.regs.get(Register::SP);
                if sp >= 2 {
                    Some(sp - 2)
                } else {
                    None
                }
            },
            Operation::Pop(Operand::LValue(inner)) => {
                let sp = self.regs.get(Register::SP);
                if sp <= u16::MAX - 2 {
                    Some(self.peek_inner_popped(ip, sp + 2, inner))
                } else {
                    None
                }
            },
            _ => None,
        }
    }

    /// The word an operand names once the instruction pointer is `ip` and the
    /// stack pointer `sp`.
    fn peek_inner_popped(&self, ip: u16, sp: u16, inner: OperandInner) -> (w: Word)
        requires
            self.inv(),
        ensures
            w == inner_word(set_reg(set_reg(self@, Register::IP, ip), Register::SP, sp), inner),
    {
        match inner {
            OperandInner::Literal(word) => word,
            OperandInner::Register(reg) => {
                if reg.index() == 7 {
                    sp
                } else if reg.index() == 4 {
                    ip
                } else {
                    self.regs.get(reg)
                }
            },
        }
    }

    /// Whether a word can be pushed with the stack pointer at `sp`.
    fn peek_push(&self, sp: u16) -> (b: bool)
        requires
            self.inv(),
        ensures
            b == (sp >= 2 && (sp - 2) % 2 == 0 && mem_word(self@.mem, (sp - 2) as u16) is Some),
    {
        sp >= 2 && (sp - 2) % 2 == 0 && self.word_mapped(sp - 2)
    }

    /// Whether a word can be popped with the stack pointer at `sp`.
    fn peek_pop(&self, sp: u16) -> (b: bool)
        requires
            self.inv(),
        ensures
            b == (sp % 2 == 0 && sp + 2 <= u16::MAX && mem_word(self@.mem, sp) is Some),
    {
        sp % 2 == 0 && sp <= u16::MAX - 2 && self.word_mapped(sp)
    }

    /// Whether `pop dest` can move the popped word `v` into its destination,
    /// once the instruction pointer is `ip` and the stack pointer `sp`.
    fn peek_pop_dest(&self, ip: u16, sp: u16, dest: Operand, v: u16) -> (b: bool)
        requires
            self.inv(),
        ensures
            b == (exec_binary(
                set_reg(set_reg(self@, Register::IP, ip), Register::SP, sp),
                Arith::Mov,
                dest,
                Operand::RValue(OperandInner::Literal(v)),
            ) is Some),
    {
        match dest {
            Operand::LValue(inner) => {
                let a = self.peek_inner_popped(ip, sp, inner);
                a % 2 == 0 && self.word_mapped(a)
            },
            Operand::RValue(OperandInner::Register(_)) => true,
            Operand::RValue(OperandInner::Literal(_)) => false,
        }
    }

    /// Whether the next step faults, that is, where the machine would stop:
    /// the instruction cannot be fetched or decoded, or it names an odd or
    /// unmapped address, or its arithmetic overflows, or its destination is a
    /// literal, or the stack or the interrupt table reaches past the address
    /// space.
    pub fn next_step_faults(&self) -> (b: bool)
        requires
            self.inv(),
        ensures
            b == (step(self@) is Fault),
    {
        let (op, len) = match self.peek_fetch() {
            Some(f) => f,
            None => {
                return true;
            },
        };
        let ip0 = self.regs.get(Register::IP);
        let ip = ip0 + len;
        match op {
            Operation::Add(d, v) => !self.peek_binary(ip, Arith::Add, d, v),
            Operation::Sub(d, v) => !self.peek_binary(ip, Arith::Sub, d, v),
            Operation::Mov(d, v) => !self.peek_binary(ip, Arith::Mov, d, v),
            Operation::Jmp(d) => self.peek_operand(ip, d).is_none(),
            Operation::Cmp(a, b) => self.peek_operand(ip, a).is_none() || self.peek_operand(
                ip,
                b,
            ).is_none(),
            Operation::Jeq(t) => self.peek_operand(ip, t).is_none(),
            Operation::Jne(t) => self.peek_operand(ip, t).is_none(),
            Operation::Psh(v) => self.peek_operand(ip, v).is_none() || !self.peek_push(
                self.regs.get(Register::SP),
            ),
            Operation::Pop(d) => {
                let sp = self.regs.get(Register::SP);
                if !self.peek_pop(sp) {
                    true
                } else {
                    let v = self.peek_word(sp);
                    !self.peek_pop_dest(ip, sp + 2, d, v)
                }
            },
            Operation::End => false,
            Operation::Cal(t) => self.peek_operand(ip, t).is_none() || !self.peek_push(
                self.regs.get(Register::SP),
            ),
            Operation::Ret => !self.peek_pop(self.regs.get(Register::SP)),
            Operation::Sys(n) => match self.peek_operand(ip, n) {
                None => true,
                Some(k) => {
                    let it = self.regs.get(Register::IT);
                    if it as u32 + 2 * k as u32 > 0xFFFF {
                        true
                    } else {
                        let entry = it + 2 * k;
                        entry % 2 != 0 || !self.word_mapped(entry) || !self.peek_push(
                            self.regs.get(Register::SP),
                        )
                    }
                },
            },
        }
    }
}

} // verus!
