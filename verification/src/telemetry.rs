//! Cycle counts kept per module of the machine.

use vstd::prelude::*;

use crate::cfg::CyclesConfig;
use crate::cpu::proc::AccessCounts;
use crate::mem::MemoryController;
use crate::text::str_eq;

verus! {

/// The position of the entry named `name`, if there is one.
pub open spec fn position(entries: Seq<(Seq<char>, usize)>, name: Seq<char>) -> Option<int> {
    if exists|i: int| 0 <= i < entries.len() && entries[i].0 == name {
        Some(choose|i: int| 0 <= i < entries.len() && entries[i].0 == name)
    } else {
        None
    }
}

/// No name is registered twice.
pub open spec fn names_distinct(entries: Seq<(Seq<char>, usize)>) -> bool {
    forall|i: int, j: int|
        0 <= i < j < entries.len() ==> #[trigger] entries[i].0 != #[trigger] entries[j].0
}

/// The sum of all tallies.
pub open spec fn sum_of(entries: Seq<(Seq<char>, usize)>) -> nat
    decreases entries.len(),
{
    if entries.len() == 0 {
        0
    } else {
        sum_of(entries.drop_last()) + entries.last().1 as nat
    }
}

/// With distinct names, the entry named like the one at `i` is the one at `i`.
pub proof fn lemma_position_unique(entries: Seq<(Seq<char>, usize)>, i: int)
    requires
        names_distinct(entries),
        0 <= i < entries.len(),
    ensures
        position(entries, entries[i].0) == Some(i),
{
    let name = entries[i].0;
    assert(0 <= i < entries.len() && entries[i].0 == name);
    let j = choose|j: int| 0 <= j < entries.len() && entries[j].0 == name;
    if j < i {
        assert(entries[j].0 != entries[i].0);
    } else if i < j {
        assert(entries[i].0 != entries[j].0);
    }
}

/// Setting the tally at `i` leaves the name of every entry, and so the
/// position of every name, as it was.
pub proof fn lemma_position_set_tally(entries: Seq<(Seq<char>, usize)>, i: int, v: usize, k: Seq<char>)
    requires
        names_distinct(entries),
        0 <= i < entries.len(),
    ensures
        names_distinct(entries.update(i, (entries[i].0, v))),
        position(entries.update(i, (entries[i].0, v)), k) == position(entries, k),
{
    let e2 = entries.update(i, (entries[i].0, v));
    assert forall|j: int| 0 <= j < entries.len() implies #[trigger] e2[j].0 == entries[j].0 by {}
    assert(names_distinct(e2)) by {
        assert forall|a: int, b: int| 0 <= a < b < e2.len() implies #[trigger] e2[a].0
            != #[trigger] e2[b].0 by {
            assert(entries[a].0 != entries[b].0);
        }
    }
    if exists|j: int| 0 <= j < entries.len() && entries[j].0 == k {
        let j = choose|j: int| 0 <= j < entries.len() && entries[j].0 == k;
        lemma_position_unique(entries, j);
        lemma_position_unique(e2, j);
    } else if exists|j: int| 0 <= j < e2.len() && e2[j].0 == k {
        let j = choose|j: int| 0 <= j < e2.len() && e2[j].0 == k;
        assert(entries[j].0 == k);
    }
}

/// A tally is at most the sum of a list that holds it, and a prefix sums to
/// at most the whole.
pub proof fn lemma_sum_prefix(entries: Seq<(Seq<char>, usize)>, n: int)
    requires
        0 <= n <= entries.len(),
    ensures
        sum_of(entries.take(n)) <= sum_of(entries),
    decreases entries.len() - n,
{
    if n < entries.len() {
        lemma_sum_prefix(entries, n + 1);
        assert(entries.take(n + 1).drop_last() =~= entries.take(n));
    } else {
        assert(entries.take(n) =~= entries);
    }
}

/// The number of cycles each module of the machine has spent, in the order in
/// which the modules were registered.
pub struct TelemetryTracker {
    inner: Vec<(String, usize)>,
}

impl TelemetryTracker {
    /// Each module's name and tally, in registration order.
    pub closed spec fn entries(&self) -> Seq<(Seq<char>, usize)> {
        self.inner@.map_values(|e: (String, usize)| (e.0@, e.1))
    }

    /// No module is registered twice.
    pub open spec fn inv(&self) -> bool {
        names_distinct(self.entries())
    }

    /// The tally of the module named `name`, if it is registered.
    pub open spec fn cycles(&self, name: Seq<char>) -> Option<usize> {
        match position(self.entries(), name) {
            Some(i) => Some(self.entries()[i].1),
            None => None,
        }
    }

    /// A tracker with no module registered.
    pub fn new() -> (t: TelemetryTracker)
        ensures
            t.inv(),
            t.entries() == Seq::<(Seq<char>, usize)>::empty(),
    {
        let t = TelemetryTracker { inner: Vec::new() };
        assert(t.entries() =~= Seq::<(Seq<char>, usize)>::empty());
        t
    }

    fn find(&self, name: &str) -> (r: Option<usize>)
        ensures
            match r {
                Some(i) => i < self.entries().len() && self.entries()[i as int].0 == name@,
                None => position(self.entries(), name@) is None,
            },
    {
        let mut i: usize = 0;
        while i < self.inner.len()
            invariant
                i <= self.inner@.len(),
                forall|j: int| 0 <= j < i ==> #[trigger] self.entries()[j].0 != name@,
            decreases self.inner@.len() - i,
        {
            if str_eq(self.inner[i].0.as_str(), name) {
                return Some(i);
            }
            i = i + 1;
        }
        proof {
            if exists|j: int| 0 <= j < self.entries().len() && self.entries()[j].0 == name@ {
                let j = choose|j: int| 0 <= j < self.entries().len() && self.entries()[j].0 == name@;
                assert(self.entries()[j].0 != name@);
            }
        }
        None
    }

    /// Registers the module `name` with a tally of zero; a module registered
    /// before keeps its place and has its tally reset.
    pub fn register_module(&mut self, name: &str)
        requires
            old(self).inv(),
        ensures
            final(self).inv(),
            final(self).entries() == (match position(old(self).entries(), name@) {
                Some(i) => old(self).entries().update(i, (name@, 0usize)),
                None => old(self).entries().push((name@, 0usize)),
            }),
            final(self).cycles(name@) == Some(0usize),
            forall|k: Seq<char>| k != name@ ==> #[trigger] final(self).cycles(k) == old(self).cycles(k),
    {
        match self.find(name) {
            Some(i) => {
                proof {
                    lemma_position_unique(old(self).entries(), i as int);
                    lemma_position_set_tally(old(self).entries(), i as int, 0, name@);
                }
                let owned = name.to_owned();
                self.inner.set(i, (owned, 0));
                proof {
                    assert(self.entries() =~= old(self).entries().update(i as int, (name@, 0usize)));
                    assert forall|k: Seq<char>| k != name@ implies #[trigger] self.cycles(k)
                        == old(self).cycles(k) by {
                        lemma_position_set_tally(old(self).entries(), i as int, 0, k);
                        if let Some(p) = position(old(self).entries(), k) {
                            let e = old(self).entries();
                            assert(0 <= p < e.len() && e[p].0 == k) by {
                                let w = choose|j: int| 0 <= j < e.len() && e[j].0 == k;
                                assert(0 <= w < e.len() && e[w].0 == k);
                            }
                        }
                    }
                    lemma_position_unique(self.entries(), i as int);
                }
            },
            None => {
                let owned = name.to_owned();
                self.inner.push((owned, 0));
                proof {
                    let e = old(self).entries();
                    let e2 = self.entries();
                    assert(e2 =~= e.push((name@, 0usize)));
                    lemma_position_unique(e2, e.len() as int);
                    assert forall|k: Seq<char>| k != name@ implies #[trigger] self.cycles(k)
                        == old(self).cycles(k) by {
                        if exists|j: int| 0 <= j < e.len() && e[j].0 == k {
                            let j = choose|j: int| 0 <= j < e.len() && e[j].0 == k;
                            assert(e2[j].0 == k);
                            lemma_position_unique(e, j);
                            lemma_position_unique(e2, j);
                        } else {
                            if exists|j: int| 0 <= j < e2.len() && e2[j].0 == k {
                                let j = choose|j: int| 0 <= j < e2.len() && e2[j].0 == k;
                                if j < e.len() {
                                    assert(e[j].0 == k);
                                }
                            }
                        }
                    }
                }
            },
        }
    }

    /// Adds `cycles` to the tally of the registered module `name`.
    pub fn log_cycles(&mut self, name: &str, cycles: usize)
        requires
            old(self).inv(),
            old(self).cycles(name@) is Some,
            old(self).cycles(name@)->0 + cycles <= usize::MAX,
        ensures
            final(self).inv(),
            final(self).entries() == old(self).entries().update(
                position(old(self).entries(), name@)->0,
                (name@, (old(self).cycles(name@)->0 + cycles) as usize),
            ),
            final(self).cycles(name@) == Some((old(self).cycles(name@)->0 + cycles) as usize),
            forall|k: Seq<char>| k != name@ ==> #[trigger] final(self).cycles(k) == old(self).cycles(k),
    {
        match self.find(name) {
            Some(i) => {
                proof {
                    lemma_position_unique(old(self).entries(), i as int);
                }
                let (n, v) = self.inner.remove(i);
                self.inner.insert(i, (n, v + cycles));
                proof {
                    let e = old(self).entries();
                    assert(self.entries() =~= e.update(i as int, (name@, (v + cycles) as usize)));
                    lemma_position_set_tally(e, i as int, (v + cycles) as usize, name@);
                    lemma_position_unique(self.entries(), i as int);
                    assert forall|k: Seq<char>| k != name@ implies #[trigger] self.cycles(k)
                        == old(self).cycles(k) by {
                        lemma_position_set_tally(e, i as int, (v + cycles) as usize, k);
                        if let Some(p) = position(e, k) {
                            assert(0 <= p < e.len() && e[p].0 == k) by {
                                let w = choose|j: int| 0 <= j < e.len() && e[j].0 == k;
                                assert(0 <= w < e.len() && e[w].0 == k);
                            }
                        }
                    }
                }
            },
            None => {},
        }
    }

    /// The tally of the module `name`, if it is registered.
    pub fn tally(&self, name: &str) -> (r: Option<usize>)
        requires
            self.inv(),
        ensures
            r == self.cycles(name@),
    {
        match self.find(name) {
            Some(i) => {
                proof {
                    lemma_position_unique(self.entries(), i as int);
                }
                Some(self.inner[i].1)
            },
            None => None,
        }
    }

    /// The number of registered modules.
    pub fn len(&self) -> (n: usize)
        ensures
            n == self.entries().len(),
    {
        self.inner.len()
    }

    /// The name and tally of the `i`-th registered module.
    pub fn module(&self, i: usize) -> (r: (String, usize))
        requires
            i < self.entries().len(),
        ensures
            r.0@ == self.entries()[i as int].0,
            r.1 == self.entries()[i as int].1,
    {
        let name = self.inner[i].0.clone();
        (name, self.inner[i].1)
    }

    /// The sum of all tallies, or `None` where it does not fit in a `usize`.
    pub fn total(&self) -> (r: Option<usize>)
        ensures
            r == (if sum_of(self.entries()) <= usize::MAX {
                Some(sum_of(self.entries()) as usize)
            } else {
                None
            }),
    {
        let ghost e = self.entries();
        let mut total: usize = 0;
        let mut i: usize = 0;
        while i < self.inner.len()
            invariant
                e == self.entries(),
                i <= e.len(),
                total == sum_of(e.take(i as int)),
            decreases e.len() - i,
        {
            assert(e.take(i + 1).drop_last() =~= e.take(i as int));
            match total.checked_add(self.inner[i].1) {
                Some(t) => total = t,
                None => {
                    proof {
                        lemma_sum_prefix(e, i + 1);
                    }
                    return None;
                },
            }
            i = i + 1;
        }
        assert(e.take(e.len() as int) =~= e);
        Some(total)
    }
}

/// The cycles the memory spent: each of `reads` reads and `writes` writes
/// at its cost.
pub open spec fn dram_cycles(reads: u64, writes: u64, k: CyclesConfig) -> int {
    reads * k.dram_read + writes * k.dram_write
}

/// The cycles the cache spent: each lookup and insert at its cost.
pub open spec fn cache_cycles(c: AccessCounts, k: CyclesConfig) -> int {
    c.cache_reads * k.l1_cache_read + c.cache_writes * k.l1_cache_write
}

/// The cycles the core spent: one per instruction.
pub open spec fn cpu_cycles(c: AccessCounts) -> int {
    c.steps as int
}

/// Each cache lookup costs `l1_cache_read` cycles and each insert
/// `l1_cache_write`, whatever the configured costs: no use costs nothing,
/// and one more lookup, or insert, adds its cost to the cache's tally.
pub proof fn lemma_cache_cycles_per_use(c: AccessCounts, k: CyclesConfig)
    requires
        c.cache_reads < u64::MAX,
        c.cache_writes < u64::MAX,
    ensures
        cache_cycles(AccessCounts { cache_reads: 0, cache_writes: 0, ..c }, k) == 0,
        cache_cycles(AccessCounts { cache_reads: (c.cache_reads + 1) as u64, ..c }, k)
            == cache_cycles(c, k) + k.l1_cache_read,
        cache_cycles(AccessCounts { cache_writes: (c.cache_writes + 1) as u64, ..c }, k)
            == cache_cycles(c, k) + k.l1_cache_write,
{
    assert((c.cache_reads + 1) * k.l1_cache_read == c.cache_reads * k.l1_cache_read
        + k.l1_cache_read) by (nonlinear_arith);
    assert((c.cache_writes + 1) * k.l1_cache_write == c.cache_writes * k.l1_cache_write
        + k.l1_cache_write) by (nonlinear_arith);
}

/// Each memory read costs `dram_read` cycles and each write `dram_write`,
/// whatever the configured costs: no access costs nothing, and one more
/// read, or write, adds its cost to the memory's tally.
pub proof fn lemma_dram_cycles_per_access(reads: u64, writes: u64, k: CyclesConfig)
    requires
        reads < u64::MAX,
        writes < u64::MAX,
    ensures
        dram_cycles(0, 0, k) == 0,
        dram_cycles((reads + 1) as u64, writes, k) == dram_cycles(reads, writes, k) + k.dram_read,
        dram_cycles(reads, (writes + 1) as u64, k) == dram_cycles(reads, writes, k) + k.dram_write,
{
    assert((reads + 1) * k.dram_read == reads * k.dram_read + k.dram_read) by (nonlinear_arith);
    assert((writes + 1) * k.dram_write == writes * k.dram_write + k.dram_write)
        by (nonlinear_arith);
}

/// The core spends one cycle per instruction: one more step adds one cycle.
pub proof fn lemma_cpu_cycles_per_step(c: AccessCounts)
    requires
        c.steps < u64::MAX,
    ensures
        cpu_cycles(AccessCounts { steps: 0, ..c }) == 0,
        cpu_cycles(AccessCounts { steps: (c.steps + 1) as u64, ..c }) == cpu_cycles(c) + 1,
{
}

/// The cost of `n` uses at `cost` cycles each, where it fits in a `usize`.
fn cost_of(n: u64, cost: usize) -> (r: Option<u128>)
    ensures
        match r {
            Some(v) => v == n * cost && v <= usize::MAX,
            None => n * cost > usize::MAX,
        },
{
    assert((n as int) * (cost as int) <= 0xFFFF_FFFF_FFFF_FFFFint * 0xFFFF_FFFF_FFFF_FFFFint)
        by (nonlinear_arith)
        requires
            0 <= n <= 0xFFFF_FFFF_FFFF_FFFFint,
            0 <= cost <= 0xFFFF_FFFF_FFFF_FFFFint,
    ;
    let v = (n as u128) * (cost as u128);
    if v > usize::MAX as u128 {
        None
    } else {
        Some(v)
    }
}

/// The sum of two costs, where it fits in a `usize`.
fn cost_sum(a: Option<u128>, b: Option<u128>) -> (r: Option<usize>)
    requires
        a matches Some(x) ==> x <= usize::MAX,
        b matches Some(y) ==> y <= usize::MAX,
    ensures
        match r {
            Some(v) => a matches Some(x) && b matches Some(y) && v == x + y,
            None => a is None || b is None || a->0 + b->0 > usize::MAX,
        },
{
    match (a, b) {
        (Some(x), Some(y)) => if x + y > usize::MAX as u128 {
            None
        } else {
            Some((x + y) as usize)
        },
        _ => None,
    }
}

/// The cycles each module of the machine spent, as a tracker of the modules
/// `dram` (the reads and writes the memory controller counted), `cpu` and
/// `cache` (the core's counts), registered in that order; `None` where a
/// tally does not fit in a `usize`.
pub fn cycle_report(counts: &AccessCounts, memory: &MemoryController, cycles: &CyclesConfig) -> (r:
    Option<TelemetryTracker>)
    ensures
        match r {
            Some(t) => {
                &&& t.inv()
                &&& 0 <= dram_cycles(memory.spec_reads(), memory.spec_writes(), *cycles) <= usize::MAX
                &&& 0 <= cpu_cycles(*counts) <= usize::MAX
                &&& 0 <= cache_cycles(*counts, *cycles) <= usize::MAX
                &&& t.entries() == seq![
                    ("dram"@, dram_cycles(memory.spec_reads(), memory.spec_writes(), *cycles) as usize),
                    ("cpu"@, cpu_cycles(*counts) as usize),
                    ("cache"@, cache_cycles(*counts, *cycles) as usize),
                ]
            },
            None => dram_cycles(memory.spec_reads(), memory.spec_writes(), *cycles) > usize::MAX || cpu_cycles(*counts) > usize::MAX
                || cache_cycles(*counts, *cycles) > usize::MAX,
        },
{
    proof {
        assert(memory.spec_reads() * cycles.dram_read >= 0) by (nonlinear_arith);
        assert(memory.spec_writes() * cycles.dram_write >= 0) by (nonlinear_arith);
        assert(counts.cache_reads * cycles.l1_cache_read >= 0) by (nonlinear_arith);
        assert(counts.cache_writes * cycles.l1_cache_write >= 0) by (nonlinear_arith);
    }
    let dram = match cost_sum(
        cost_of(memory.reads(), cycles.dram_read),
        cost_of(memory.writes(), cycles.dram_write),
    ) {
        Some(v) => v,
        None => {
            return None;
        },
    };
    if counts.steps > usize::MAX as u64 {
        return None;
    }
    let cpu = counts.steps as usize;
    let cache = match cost_sum(
        cost_of(counts.cache_reads, cycles.l1_cache_read),
        cost_of(counts.cache_writes, cycles.l1_cache_write),
    ) {
        Some(v) => v,
        None => {
            return None;
        },
    };
    proof {
        reveal_strlit("dram");
        reveal_strlit("cpu");
        reveal_strlit("cache");
        assert("dram"@.len() == 4 && "cpu"@.len() == 3 && "cache"@.len() == 5);
    }
    let mut t = TelemetryTracker::new();
    t.register_module("dram");
    t.log_cycles("dram", dram);
    let ghost e1 = t.entries();
    assert(e1 =~= seq![("dram"@, dram)]);
    t.register_module("cpu");
    proof {
        assert(position(e1, "cpu"@) is None) by {
            if exists|i: int| 0 <= i < e1.len() && e1[i].0 == "cpu"@ {
                let i = choose|i: int| 0 <= i < e1.len() && e1[i].0 == "cpu"@;
                assert(e1[i].0 == "dram"@);
            }
        }
    }
    t.log_cycles("cpu", cpu);
    let ghost e2 = t.entries();
    proof {
        lemma_position_unique(seq![("dram"@, dram), ("cpu"@, 0usize)], 1);
        assert(e2 =~= seq![("dram"@, dram), ("cpu"@, cpu)]);
    }
    t.register_module("cache");
    proof {
        assert(position(e2, "cache"@) is None) by {
            if exists|i: int| 0 <= i < e2.len() && e2[i].0 == "cache"@ {
                let i = choose|i: int| 0 <= i < e2.len() && e2[i].0 == "cache"@;
                assert(e2[i].0 == "dram"@ || e2[i].0 == "cpu"@);
            }
        }
    }
    t.log_cycles("cache", cache);
    proof {
        lemma_position_unique(seq![("dram"@, dram), ("cpu"@, cpu), ("cache"@, 0usize)], 2);
        assert(t.entries() =~= seq![("dram"@, dram), ("cpu"@, cpu), ("cache"@, cache)]);
    }
    Some(t)
}

} // verus!
