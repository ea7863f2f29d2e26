//! The register file: four general purpose registers and the CPU registers
//! (instruction pointer, status, stack base, stack pointer, interrupt table).

use vstd::prelude::*;

use crate::cfg::Word;
use crate::isa::{Register, NUM_REGISTERS};

verus! {

/// The status register; bit 0 is the zero flag, the other bits are unused.
#[derive(Debug, Clone, Copy, PartialEq, Eq, Structural)]
pub struct StatusRegister(pub u16);

impl StatusRegister {
    pub open spec fn spec_zero(self) -> bool {
        self.0 % 2 == 1
    }

    pub fn from_bits(bits: u16) -> (r: StatusRegister)
        ensures
            r.0 == bits,
    {
        StatusRegister(bits)
    }

    pub fn into_bits(&self) -> (bits: u16)
        ensures
            bits == self.0,
    {
        self.0
    }

    pub fn zero(&self) -> (b: bool)
        ensures
            b == self.spec_zero(),
    {
        self.0 % 2 == 1
    }

    /// Sets the zero flag, leaving the other bits as they are.
    pub fn set_zero(&mut self, zero: bool)
        ensures
            final(self).0 == old(self).0 - old(self).0 % 2 + (if zero {
                1int
            } else {
                0int
            }),
            final(self).spec_zero() == zero,
    {
        let rest = self.0 - self.0 % 2;
        self.0 = if zero {
            rest + 1
        } else {
            rest
        };
    }
}

/// One register: its value and whether it was written since the highlights
/// were last cleared.
#[derive(Debug, Clone, Copy, PartialEq, Eq, Structural)]
pub struct Reg {
    pub val: Word,
    pub highlighted: bool,
}

impl Reg {
    pub fn new() -> (r: Reg)
        ensures
            r.val == 0,
            !r.highlighted,
    {
        Reg { val: 0, highlighted: false }
    }

    pub fn with(self, val: Word) -> (r: Reg)
        ensures
            r.val == val,
            r.highlighted == self.highlighted,
    {
        Reg { val, highlighted: self.highlighted }
    }
}

/// The value a register holds when the machine starts.
pub open spec fn initial_value(r: Register) -> u16 {
    match r {
        Register::IP => 0xF000,
        Register::SB => 0x0100,
        Register::SP => 0x0100,
        _ => 0,
    }
}

/// At boot the instruction pointer is at the start of program memory (where
/// the assembler places the first instruction and where program memory is
/// mapped); the stack is empty, its base and its pointer both at `0x0100`;
/// and every other register holds zero.
pub proof fn lemma_boot_registers()
    ensures
        initial_value(Register::IP) == crate::parser::PROGRAM_START,
        initial_value(Register::IP) == crate::mem::SRAM_BEGIN,
        initial_value(Register::SB) == 0x0100,
        initial_value(Register::SP) == initial_value(Register::SB),
        forall|r: Register|
            r != Register::IP && r != Register::SB && r != Register::SP ==> initial_value(r) == 0,
{
}

/// The register file, indexed by register number.
#[derive(Debug)]
pub struct Regs {
    regs: Vec<Reg>,
}

impl Regs {
    /// The value of every register, by register number.
    pub closed spec fn values(&self) -> Seq<u16> {
        self.regs@.map_values(|r: Reg| r.val)
    }

    /// Which registers were written since the highlights were last cleared.
    pub closed spec fn highlights(&self) -> Seq<bool> {
        self.regs@.map_values(|r: Reg| r.highlighted)
    }

    pub open spec fn inv(&self) -> bool {
        self.values().len() == NUM_REGISTERS && self.highlights().len() == NUM_REGISTERS
    }

    /// The value of a register.
    pub open spec fn spec_get(&self, r: Register) -> u16 {
        self.values()[r.spec_index() as int]
    }

    /// A register file as the machine starts: the instruction pointer at the
    /// start of program memory (0xF000), the stack base and pointer at 0x0100,
    /// everything else zero, nothing highlighted.
    pub fn new() -> (r: Regs)
        ensures
            r.inv(),
            forall|reg: Register| #[trigger] r.spec_get(reg) == initial_value(reg),
            forall|i: int| 0 <= i < NUM_REGISTERS ==> !(#[trigger] r.highlights()[i]),
    {
        let mut regs: Vec<Reg> = Vec::new();
        regs.push(Reg::new());
        regs.push(Reg::new());
        regs.push(Reg::new());
        regs.push(Reg::new());
        regs.push(Reg::new().with(0xF000));
        regs.push(Reg::new());
        regs.push(Reg::new().with(0x0100));
        regs.push(Reg::new().with(0x0100));
        regs.push(Reg::new().with(0));
        let r = Regs { regs };
        assert forall|reg: Register| #[trigger] r.spec_get(reg) == initial_value(reg) by {
            assert(r.values()[reg.spec_index() as int] == r.regs@[reg.spec_index() as int].val);
        }
        r
    }

    /// Forgets which registers were written.
    pub fn clear_highlights(&mut self)
        requires
            old(self).inv(),
        ensures
            final(self).inv(),
            final(self).values() == old(self).values(),
            forall|i: int| 0 <= i < NUM_REGISTERS ==> !(#[trigger] final(self).highlights()[i]),
    {
        let mut i: usize = 0;
        while i < self.regs.len()
            invariant
                i <= self.regs@.len(),
                self.regs@.len() == NUM_REGISTERS,
                self.values() == old(self).values(),
                forall|j: int| 0 <= j < i ==> !(#[trigger] self.regs@[j]).highlighted,
            decreases self.regs@.len() - i,
        {
            let v = self.regs[i].val;
            self.regs.set(i, Reg { val: v, highlighted: false });
            assert(self.values() =~= old(self).values());
            i = i + 1;
        }
    }

    /// The value of a register.
    pub fn get(&self, reg: Register) -> (v: Word)
        requires
            self.inv(),
        ensures
            v == self.spec_get(reg),
    {
        self.regs[reg.index() as usize].val
    }

    /// Whether a register was written since the highlights were last cleared.
    pub fn is_highlighted(&self, reg: Register) -> (b: bool)
        requires
            self.inv(),
        ensures
            b == self.highlights()[reg.spec_index() as int],
    {
        self.regs[reg.index() as usize].highlighted
    }

    /// Writes a register and highlights it.
    pub fn set(&mut self, reg: Register, val: Word)
        requires
            old(self).inv(),
        ensures
            final(self).inv(),
            final(self).values() == old(self).values().update(reg.spec_index() as int, val),
            final(self).highlights() == old(self).highlights().update(
                reg.spec_index() as int,
                true,
            ),
    {
        self.regs.set(reg.index() as usize, Reg { val, highlighted: true });
        assert(self.values() =~= old(self).values().update(reg.spec_index() as int, val));
        assert(self.highlights() =~= old(self).highlights().update(reg.spec_index() as int, true));
    }
}

} // verus!
