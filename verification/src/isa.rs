//! The instruction set of the machine: registers, operands and operations,
//! their textual assembly form and their machine code.

use vstd::prelude::*;

use crate::cfg::Word;
use crate::machine_code::{
    compile,
    consume_raw,
    counts_wf,
    decode,
    decoded_view,
    encode,
    lemma_decode_encode,
    spec_instruction_len,
    word_bytes,
    DecodeError,
    RawInstruction,
    RawOperand,
    MAX_OPERANDS,
};
use crate::text::{
    all_digits,
    find_char,
    is_digit,
    lemma_decimal_value,
    lemma_find_char_first,
    lemma_find_char_none,
    lemma_parse_decimal,
    lemma_trim_noop,
    spec_is_whitespace,
    decimal,
    decimal_string,
    first_piece,
    first_piece_of,
    parse_u16,
    spec_parse_u16,
    split_once,
    split_once_char,
    str_eq,
    trim,
    trim_str,
};

verus! {

/// Why a text is not a valid piece of assembly.
#[derive(Clone, Copy, Debug, PartialEq, Eq, Structural)]
pub enum IsaError {
    /// The mneumonic is unknown, or the line has no operands.
    InvalidOperation,
    /// An operation is missing an operand.
    InvalidOperands,
    /// An operand is empty or its literal is not a 16-bit number.
    InvalidOperand,
    /// A register name or number names no register.
    InvalidRegister,
}

/// A register of the machine.
#[derive(Debug, PartialEq, Clone, Copy, Eq, Hash, Structural)]
pub enum Register {
    /// General Purpose Register 0
    R0,
    /// General Purpose Register 1
    R1,
    /// General Purpose Register 2
    R2,
    /// General Purpose Register 3
    R3,
    /// Instruction Pointer
    IP,
    /// Status Register
    ST,
    /// Stack base
    SB,
    /// Stack pointer
    SP,
    /// Interrupt table
    IT,
}

/// The number of registers.
pub const NUM_REGISTERS: usize = 9;

impl Register {
    /// The register's number, its position in declaration order.
    pub open spec fn spec_index(self) -> u8 {
        match self {
            Register::R0 => 0,
            Register::R1 => 1,
            Register::R2 => 2,
            Register::R3 => 3,
            Register::IP => 4,
            Register::ST => 5,
            Register::SB => 6,
            Register::SP => 7,
            Register::IT => 8,
        }
    }

    /// The register with the given number.
    pub open spec fn spec_from_index(v: u16) -> Option<Register> {
        if v == 0 {
            Some(Register::R0)
        } else if v == 1 {
            Some(Register::R1)
        } else if v == 2 {
            Some(Register::R2)
        } else if v == 3 {
            Some(Register::R3)
        } else if v == 4 {
            Some(Register::IP)
        } else if v == 5 {
            Some(Register::ST)
        } else if v == 6 {
            Some(Register::SB)
        } else if v == 7 {
            Some(Register::SP)
        } else if v == 8 {
            Some(Register::IT)
        } else {
            None
        }
    }

    /// The register's name in assembly: its identifier in lower case.
    pub open spec fn spec_name(self) -> Seq<char> {
        match self {
            Register::R0 => seq!['r', '0'],
            Register::R1 => seq!['r', '1'],
            Register::R2 => seq!['r', '2'],
            Register::R3 => seq!['r', '3'],
            Register::IP => seq!['i', 'p'],
            Register::ST => seq!['s', 't'],
            Register::SB => seq!['s', 'b'],
            Register::SP => seq!['s', 'p'],
            Register::IT => seq!['i', 't'],
        }
    }

    /// The register whose name is `s`.
    pub open spec fn spec_from_name(s: Seq<char>) -> Option<Register> {
        if s == Register::R0.spec_name() {
            Some(Register::R0)
        } else if s == Register::R1.spec_name() {
            Some(Register::R1)
        } else if s == Register::R2.spec_name() {
            Some(Register::R2)
        } else if s == Register::R3.spec_name() {
            Some(Register::R3)
        } else if s == Register::IP.spec_name() {
            Some(Register::IP)
        } else if s == Register::ST.spec_name() {
            Some(Register::ST)
        } else if s == Register::SB.spec_name() {
            Some(Register::SB)
        } else if s == Register::SP.spec_name() {
            Some(Register::SP)
        } else if s == Register::IT.spec_name() {
            Some(Register::IT)
        } else {
            None
        }
    }

    /// A register's number names it.
    pub proof fn lemma_index_round_trip(self)
        ensures
            Register::spec_from_index(self.spec_index() as u16) == Some(self),
            self.spec_index() < NUM_REGISTERS,
    {
    }

    /// A register's name names it.
    pub proof fn lemma_name_round_trip(self)
        ensures
            Register::spec_from_name(self.spec_name()) == Some(self),
    {
        let n = self.spec_name();
        assert(n.len() == 2);
        if self != Register::R0 {
            assert(n != Register::R0.spec_name() ==> true);
            assert(n[0] != 'r' || n[1] != '0');
        }
        if self != Register::R1 {
            assert(n[0] != 'r' || n[1] != '1');
        }
        if self != Register::R2 {
            assert(n[0] != 'r' || n[1] != '2');
        }
        if self != Register::R3 {
            assert(n[0] != 'r' || n[1] != '3');
        }
        if self != Register::IP {
            assert(n[0] != 'i' || n[1] != 'p');
        }
        if self != Register::ST {
            assert(n[0] != 's' || n[1] != 't');
        }
        if self != Register::SB {
            assert(n[0] != 's' || n[1] != 'b');
        }
        if self != Register::SP {
            assert(n[0] != 's' || n[1] != 'p');
        }
    }

    /// The register's number.
    pub fn index(&self) -> (r: u8)
        ensures
            r == self.spec_index(),
    {
        match self {
            Register::R0 => 0,
            Register::R1 => 1,
            Register::R2 => 2,
            Register::R3 => 3,
            Register::IP => 4,
            Register::ST => 5,
            Register::SB => 6,
            Register::SP => 7,
            Register::IT => 8,
        }
    }

    /// The register with the given number, or an error where there is none.
    pub fn try_from_u16(value: u16) -> (r: Result<Register, IsaError>)
        ensures
            match r {
                Ok(reg) => Register::spec_from_index(value) == Some(reg),
                Err(e) => Register::spec_from_index(value) is None && e == IsaError::InvalidRegister,
            },
    {
        if value == 0 {
            Ok(Register::R0)
        } else if value == 1 {
            Ok(Register::R1)
        } else if value == 2 {
            Ok(Register::R2)
        } else if value == 3 {
            Ok(Register::R3)
        } else if value == 4 {
            Ok(Register::IP)
        } else if value == 5 {
            Ok(Register::ST)
        } else if value == 6 {
            Ok(Register::SB)
        } else if value == 7 {
            Ok(Register::SP)
        } else if value == 8 {
            Ok(Register::IT)
        } else {
            Err(IsaError::InvalidRegister)
        }
    }

    /// The register's name in assembly.
    pub fn name(&self) -> (s: &'static str)
        ensures
            s@ == self.spec_name(),
    {
        proof {
            reveal_strlit("r0");
            reveal_strlit("r1");
            reveal_strlit("r2");
            reveal_strlit("r3");
            reveal_strlit("ip");
            reveal_strlit("st");
            reveal_strlit("sb");
            reveal_strlit("sp");
            reveal_strlit("it");
        }
        let s = match self {
            Register::R0 => "r0",
            Register::R1 => "r1",
            Register::R2 => "r2",
            Register::R3 => "r3",
            Register::IP => "ip",
            Register::ST => "st",
            Register::SB => "sb",
            Register::SP => "sp",
            Register::IT => "it",
        };
        assert(s@ =~= self.spec_name());
        s
    }

    /// The register named `value`, or an error where no register has that name.
    pub fn try_from_str(value: &str) -> (r: Result<Register, IsaError>)
        ensures
            match r {
                Ok(reg) => Register::spec_from_name(value@) == Some(reg),
                Err(e) => Register::spec_from_name(value@) is None && e == IsaError::InvalidRegister,
            },
    {
        if str_eq(value, Register::R0.name()) {
            Ok(Register::R0)
        } else if str_eq(value, Register::R1.name()) {
            Ok(Register::R1)
        } else if str_eq(value, Register::R2.name()) {
            Ok(Register::R2)
        } else if str_eq(value, Register::R3.name()) {
            Ok(Register::R3)
        } else if str_eq(value, Register::IP.name()) {
            Ok(Register::IP)
        } else if str_eq(value, Register::ST.name()) {
            Ok(Register::ST)
        } else if str_eq(value, Register::SB.name()) {
            Ok(Register::SB)
        } else if str_eq(value, Register::SP.name()) {
            Ok(Register::SP)
        } else if str_eq(value, Register::IT.name()) {
            Ok(Register::IT)
        } else {
            Err(IsaError::InvalidRegister)
        }
    }

    /// The register's text: its name.
    pub fn to_string(&self) -> (s: String)
        ensures
            s@ == self.spec_name(),
    {
        String::from_str(self.name())
    }
}

/// What an operand refers to: a register or a literal word.
#[derive(Debug, PartialEq, Eq, Clone, Copy, Structural)]
pub enum OperandInner {
    Register(Register),
    Literal(Word),
}

impl OperandInner {
    /// The word that stands for the operand in machine code: the register's
    /// number, or the literal.
    pub open spec fn spec_value(self) -> u16 {
        match self {
            OperandInner::Register(reg) => reg.spec_index() as u16,
            OperandInner::Literal(w) => w,
        }
    }

    /// The operand's text: `$` and the register's name, or the literal in decimal.
    pub open spec fn spec_text(self) -> Seq<char> {
        match self {
            OperandInner::Register(reg) => seq!['$'] + reg.spec_name(),
            OperandInner::Literal(w) => decimal(w as nat),
        }
    }

    /// The two little-endian bytes of the operand's value.
    pub fn value_bytes(&self) -> (bytes: Vec<u8>)
        ensures
            bytes@ == word_bytes(self.spec_value()),
    {
        let v: u16 = match self {
            OperandInner::Register(reg) => reg.index() as u16,
            OperandInner::Literal(w) => *w,
        };
        let mut bytes = Vec::new();
        bytes.push((v & 0xff) as u8);
        bytes.push((v >> 8u16) as u8);
        assert(bytes@ =~= word_bytes(self.spec_value()));
        bytes
    }

    /// The operand's text.
    pub fn to_string(&self) -> (s: String)
        ensures
            s@ == self.spec_text(),
    {
        match self {
            OperandInner::Register(reg) => {
                proof {
                    reveal_strlit("$");
                }
                let mut s = String::from_str("$");
                s.append(reg.name());
                assert(s@ =~= self.spec_text());
                s
            },
            OperandInner::Literal(w) => decimal_string(*w),
        }
    }
}

/// An operand: its target is read or written through memory (`LValue`, written
/// `*x`) or used directly (`RValue`).
#[derive(Debug, PartialEq, Eq, Clone, Copy, Structural)]
pub enum Operand {
    LValue(OperandInner),
    RValue(OperandInner),
}

impl Operand {
    pub open spec fn spec_inner(self) -> OperandInner {
        match self {
            Operand::LValue(inner) => inner,
            Operand::RValue(inner) => inner,
        }
    }

    pub open spec fn spec_is_deref(self) -> bool {
        self is LValue
    }

    pub open spec fn spec_is_reg(self) -> bool {
        self.spec_inner() is Register
    }

    /// The operand as it is laid out in machine code.
    pub open spec fn raw(self) -> RawOperand {
        RawOperand {
            deref: self.spec_is_deref(),
            reg: self.spec_is_reg(),
            val: self.spec_inner().spec_value(),
        }
    }

    /// The operand that a machine-code operand stands for, if any.
    pub open spec fn from_raw(o: RawOperand) -> Option<Operand> {
        let inner = if o.reg {
            match Register::spec_from_index(o.val) {
                Some(reg) => Some(OperandInner::Register(reg)),
                None => None,
            }
        } else {
            Some(OperandInner::Literal(o.val))
        };
        match inner {
            Some(i) => if o.deref {
                Some(Operand::LValue(i))
            } else {
                Some(Operand::RValue(i))
            },
            None => None,
        }
    }

    /// The operand's text: `*` before a dereferenced operand.
    pub open spec fn spec_text(self) -> Seq<char> {
        match self {
            Operand::LValue(inner) => seq!['*'] + inner.spec_text(),
            Operand::RValue(inner) => inner.spec_text(),
        }
    }

    /// An operand decodes back from its machine code.
    pub proof fn lemma_raw_round_trip(self)
        ensures
            Operand::from_raw(self.raw()) == Some(self),
    {
        match self.spec_inner() {
            OperandInner::Register(reg) => reg.lemma_index_round_trip(),
            OperandInner::Literal(_) => {},
        }
    }

    pub fn inner(&self) -> (r: &OperandInner)
        ensures
            *r == self.spec_inner(),
    {
        match self {
            Operand::LValue(inner) => inner,
            Operand::RValue(inner) => inner,
        }
    }

    /// Whether the operand is a literal used directly.
    pub fn is_immediate(&self) -> (b: bool)
        ensures
            b == (self matches Operand::RValue(OperandInner::Literal(_))),
    {
        match self {
            Operand::RValue(OperandInner::Literal(_)) => true,
            _ => false,
        }
    }

    pub fn value_bytes(&self) -> (bytes: Vec<u8>)
        ensures
            bytes@ == word_bytes(self.spec_inner().spec_value()),
    {
        self.inner().value_bytes()
    }

    pub fn is_deref(&self) -> (b: bool)
        ensures
            b == self.spec_is_deref(),
    {
        match self {
            Operand::LValue(..) => true,
            Operand::RValue(..) => false,
        }
    }

    pub fn is_reg(&self) -> (b: bool)
        ensures
            b == self.spec_is_reg(),
    {
        match self.inner() {
            OperandInner::Register(..) => true,
            OperandInner::Literal(..) => false,
        }
    }

    /// Builds the operand that a machine-code operand stands for.
    pub fn __create(reg: bool, deref: bool, val: u16) -> (r: Operand)
        requires
            reg ==> Register::spec_from_index(val) is Some,
        ensures
            Operand::from_raw(RawOperand { deref, reg, val }) == Some(r),
    {
        let inner = if reg {
            match Register::try_from_u16(val) {
                Ok(r) => OperandInner::Register(r),
                Err(_) => OperandInner::Literal(val),
            }
        } else {
            OperandInner::Literal(val)
        };
        if deref {
            Operand::LValue(inner)
        } else {
            Operand::RValue(inner)
        }
    }

    pub fn raw_operand(&self) -> (r: RawOperand)
        ensures
            r == self.raw(),
    {
        let inner = self.inner();
        let val: u16 = match inner {
            OperandInner::Register(reg) => reg.index() as u16,
            OperandInner::Literal(w) => *w,
        };
        RawOperand { deref: self.is_deref(), reg: self.is_reg(), val }
    }

    /// The operand's text.
    pub fn to_string(&self) -> (s: String)
        ensures
            s@ == self.spec_text(),
    {
        match self {
            Operand::LValue(inner) => {
                proof {
                    reveal_strlit("*");
                }
                let mut s = String::from_str("*");
                let t = inner.to_string();
                s.append(t.as_str());
                assert(s@ =~= self.spec_text());
                s
            },
            Operand::RValue(inner) => inner.to_string(),
        }
    }

    /// Parses an operand: `*` for a dereference, then `$` and a register's
    /// name, or a 16-bit number.
    pub fn try_from_str(value: &str) -> (r: Result<Operand, IsaError>)
        ensures
            r == spec_parse_operand(value@),
    {
        let len = value.unicode_len();
        if len == 0 {
            return Err(IsaError::InvalidOperand);
        }
        let deref = value.get_char(0) == '*';
        let rest = if deref {
            value.substring_char(1, len)
        } else {
            value
        };
        assert(rest@ == (if deref {
            value@.drop_first()
        } else {
            value@
        }));
        let rlen = rest.unicode_len();
        if rlen == 0 {
            return Err(IsaError::InvalidOperand);
        }
        let inner = if rest.get_char(0) == '$' {
            let name = rest.substring_char(1, rlen);
            assert(name@ =~= rest@.drop_first());
            match Register::try_from_str(name) {
                Ok(reg) => OperandInner::Register(reg),
                Err(e) => {
                    return Err(e);
                },
            }
        } else {
            match parse_u16(rest) {
                Some(v) => OperandInner::Literal(v),
                None => {
                    return Err(IsaError::InvalidOperand);
                },
            }
        };
        if deref {
            Ok(Operand::LValue(inner))
        } else {
            Ok(Operand::RValue(inner))
        }
    }
}

/// What `Operand::try_from_str` gives for a text.
pub open spec fn spec_parse_operand(s: Seq<char>) -> Result<Operand, IsaError> {
    if s.len() == 0 {
        Err(IsaError::InvalidOperand)
    } else {
        let deref = s[0] == '*';
        let rest = if deref {
            s.drop_first()
        } else {
            s
        };
        if rest.len() == 0 {
            Err(IsaError::InvalidOperand)
        } else {
            let inner = if rest[0] == '$' {
                match Register::spec_from_name(rest.drop_first()) {
                    Some(reg) => Ok(OperandInner::Register(reg)),
                    None => Err(IsaError::InvalidRegister),
                }
            } else {
                match spec_parse_u16(rest) {
                    Some(v) => Ok(OperandInner::Literal(v)),
                    None => Err(IsaError::InvalidOperand),
                }
            };
            match inner {
                Ok(i) => if deref {
                    Ok(Operand::LValue(i))
                } else {
                    Ok(Operand::RValue(i))
                },
                Err(e) => Err(e),
            }
        }
    }
}

/// The mneumonic of each operation.
#[derive(Debug, PartialEq, Eq, Clone, Copy, Structural)]
pub enum Mneumonics {
    Add,
    Sub,
    Mov,
    Jmp,
    Cmp,
    Jeq,
    Jne,
    Psh,
    Pop,
    End,
    Cal,
    Ret,
    Sys,
}

/// The number of mneumonics.
pub const NUM_MNEUMONICS: usize = 13;

impl Mneumonics {
    /// The mneumonic byte: the position in declaration order.
    pub open spec fn spec_index(self) -> u8 {
        match self {
            Mneumonics::Add => 0,
            Mneumonics::Sub => 1,
            Mneumonics::Mov => 2,
            Mneumonics::Jmp => 3,
            Mneumonics::Cmp => 4,
            Mneumonics::Jeq => 5,
            Mneumonics::Jne => 6,
            Mneumonics::Psh => 7,
            Mneumonics::Pop => 8,
            Mneumonics::End => 9,
            Mneumonics::Cal => 10,
            Mneumonics::Ret => 11,
            Mneumonics::Sys => 12,
        }
    }

    pub open spec fn spec_from_index(v: u8) -> Option<Mneumonics> {
        if v == 0 {
            Some(Mneumonics::Add)
        } else if v == 1 {
            Some(Mneumonics::Sub)
        } else if v == 2 {
            Some(Mneumonics::Mov)
        } else if v == 3 {
            Some(Mneumonics::Jmp)
        } else if v == 4 {
            Some(Mneumonics::Cmp)
        } else if v == 5 {
            Some(Mneumonics::Jeq)
        } else if v == 6 {
            Some(Mneumonics::Jne)
        } else if v == 7 {
            Some(Mneumonics::Psh)
        } else if v == 8 {
            Some(Mneumonics::Pop)
        } else if v == 9 {
            Some(Mneumonics::End)
        } else if v == 10 {
            Some(Mneumonics::Cal)
        } else if v == 11 {
            Some(Mneumonics::Ret)
        } else if v == 12 {
            Some(Mneumonics::Sys)
        } else {
            None
        }
    }

    /// How many operands the operation takes.
    pub open spec fn spec_num_args(self) -> usize {
        match self {
            Mneumonics::Add | Mneumonics::Sub | Mneumonics::Mov | Mneumonics::Cmp => 2,
            Mneumonics::Jmp | Mneumonics::Jeq | Mneumonics::Jne | Mneumonics::Psh
            | Mneumonics::Pop | Mneumonics::Cal | Mneumonics::Sys => 1,
            Mneumonics::End | Mneumonics::Ret => 0,
        }
    }

    /// The mneumonic's name in assembly: its identifier in lower case.
    pub open spec fn spec_name(self) -> Seq<char> {
        match self {
            Mneumonics::Add => seq!['a', 'd', 'd'],
            Mneumonics::Sub => seq!['s', 'u', 'b'],
            Mneumonics::Mov => seq!['m', 'o', 'v'],
            Mneumonics::Jmp => seq!['j', 'm', 'p'],
            Mneumonics::Cmp => seq!['c', 'm', 'p'],
            Mneumonics::Jeq => seq!['j', 'e', 'q'],
            Mneumonics::Jne => seq!['j', 'n', 'e'],
            Mneumonics::Psh => seq!['p', 's', 'h'],
            Mneumonics::Pop => seq!['p', 'o', 'p'],
            Mneumonics::End => seq!['e', 'n', 'd'],
            Mneumonics::Cal => seq!['c', 'a', 'l'],
            Mneumonics::Ret => seq!['r', 'e', 't'],
            Mneumonics::Sys => seq!['s', 'y', 's'],
        }
    }

    /// The mneumonic named `s`.
    pub open spec fn spec_from_name(s: Seq<char>) -> Option<Mneumonics> {
        if s == Mneumonics::Add.spec_name() {
            Some(Mneumonics::Add)
        } else if s == Mneumonics::Sub.spec_name() {
            Some(Mneumonics::Sub)
        } else if s == Mneumonics::Mov.spec_name() {
            Some(Mneumonics::Mov)
        } else if s == Mneumonics::Jmp.spec_name() {
            Some(Mneumonics::Jmp)
        } else if s == Mneumonics::Cmp.spec_name() {
            Some(Mneumonics::Cmp)
        } else if s == Mneumonics::Jeq.spec_name() {
            Some(Mneumonics::Jeq)
        } else if s == Mneumonics::Jne.spec_name() {
            Some(Mneumonics::Jne)
        } else if s == Mneumonics::Psh.spec_name() {
            Some(Mneumonics::Psh)
        } else if s == Mneumonics::Pop.spec_name() {
            Some(Mneumonics::Pop)
        } else if s == Mneumonics::End.spec_name() {
            Some(Mneumonics::End)
        } else if s == Mneumonics::Cal.spec_name() {
            Some(Mneumonics::Cal)
        } else if s == Mneumonics::Ret.spec_name() {
            Some(Mneumonics::Ret)
        } else if s == Mneumonics::Sys.spec_name() {
            Some(Mneumonics::Sys)
        } else {
            None
        }
    }

    /// The mneumonic named `value`, if any.
    pub fn try_from_str(value: &str) -> (r: Option<Mneumonics>)
        ensures
            r == Mneumonics::spec_from_name(value@),
    {
        if str_eq(value, Mneumonics::Add.name()) {
            Some(Mneumonics::Add)
        } else if str_eq(value, Mneumonics::Sub.name()) {
            Some(Mneumonics::Sub)
        } else if str_eq(value, Mneumonics::Mov.name()) {
            Some(Mneumonics::Mov)
        } else if str_eq(value, Mneumonics::Jmp.name()) {
            Some(Mneumonics::Jmp)
        } else if str_eq(value, Mneumonics::Cmp.name()) {
            Some(Mneumonics::Cmp)
        } else if str_eq(value, Mneumonics::Jeq.name()) {
            Some(Mneumonics::Jeq)
        } else if str_eq(value, Mneumonics::Jne.name()) {
            Some(Mneumonics::Jne)
        } else if str_eq(value, Mneumonics::Psh.name()) {
            Some(Mneumonics::Psh)
        } else if str_eq(value, Mneumonics::Pop.name()) {
            Some(Mneumonics::Pop)
        } else if str_eq(value, Mneumonics::End.name()) {
            Some(Mneumonics::End)
        } else if str_eq(value, Mneumonics::Cal.name()) {
            Some(Mneumonics::Cal)
        } else if str_eq(value, Mneumonics::Ret.name()) {
            Some(Mneumonics::Ret)
        } else if str_eq(value, Mneumonics::Sys.name()) {
            Some(Mneumonics::Sys)
        } else {
            None
        }
    }

    pub proof fn lemma_index_round_trip(self)
        ensures
            Mneumonics::spec_from_index(self.spec_index()) == Some(self),
            (self.spec_index() as int) < NUM_MNEUMONICS,
    {
    }

    pub fn index(&self) -> (r: u8)
        ensures
            r == self.spec_index(),
    {
        match self {
            Mneumonics::Add => 0,
            Mneumonics::Sub => 1,
            Mneumonics::Mov => 2,
            Mneumonics::Jmp => 3,
            Mneumonics::Cmp => 4,
            Mneumonics::Jeq => 5,
            Mneumonics::Jne => 6,
            Mneumonics::Psh => 7,
            Mneumonics::Pop => 8,
            Mneumonics::End => 9,
            Mneumonics::Cal => 10,
            Mneumonics::Ret => 11,
            Mneumonics::Sys => 12,
        }
    }

    /// The mneumonic of a mneumonic byte, or an error where the byte names none.
    pub fn try_from_u8(value: u8) -> (r: Result<Mneumonics, DecodeError>)
        ensures
            match r {
                Ok(m) => Mneumonics::spec_from_index(value) == Some(m),
                Err(e) => Mneumonics::spec_from_index(value) is None && e
                    == DecodeError::InvalidMneumonic,
            },
    {
        if value == 0 {
            Ok(Mneumonics::Add)
        } else if value == 1 {
            Ok(Mneumonics::Sub)
        } else if value == 2 {
            Ok(Mneumonics::Mov)
        } else if value == 3 {
            Ok(Mneumonics::Jmp)
        } else if value == 4 {
            Ok(Mneumonics::Cmp)
        } else if value == 5 {
            Ok(Mneumonics::Jeq)
        } else if value == 6 {
            Ok(Mneumonics::Jne)
        } else if value == 7 {
            Ok(Mneumonics::Psh)
        } else if value == 8 {
            Ok(Mneumonics::Pop)
        } else if value == 9 {
            Ok(Mneumonics::End)
        } else if value == 10 {
            Ok(Mneumonics::Cal)
        } else if value == 11 {
            Ok(Mneumonics::Ret)
        } else if value == 12 {
            Ok(Mneumonics::Sys)
        } else {
            Err(DecodeError::InvalidMneumonic)
        }
    }

    pub fn num_args(&self) -> (n: usize)
        ensures
            n == self.spec_num_args(),
    {
        match self {
            Mneumonics::Add | Mneumonics::Sub | Mneumonics::Mov | Mneumonics::Cmp => 2,
            Mneumonics::Jmp | Mneumonics::Jeq | Mneumonics::Jne | Mneumonics::Psh
            | Mneumonics::Pop | Mneumonics::Cal | Mneumonics::Sys => 1,
            Mneumonics::End | Mneumonics::Ret => 0,
        }
    }

    /// The length in bytes of the operation's machine code.
    pub fn num_bytes(&self) -> (n: usize)
        ensures
            n as int == spec_instruction_len(self.spec_num_args() as int),
    {
        crate::machine_code::instruction_len(self.num_args())
    }

    /// The mneumonic as assembly writes it.
    pub fn name(&self) -> (s: &'static str)
        ensures
            s@ == self.spec_name(),
    {
        proof {
            reveal_strlit("add");
            reveal_strlit("sub");
            reveal_strlit("mov");
            reveal_strlit("jmp");
            reveal_strlit("cmp");
            reveal_strlit("jeq");
            reveal_strlit("jne");
            reveal_strlit("psh");
            reveal_strlit("pop");
            reveal_strlit("end");
            reveal_strlit("cal");
            reveal_strlit("ret");
            reveal_strlit("sys");
        }
        let s = match self {
            Mneumonics::Add => "add",
            Mneumonics::Sub => "sub",
            Mneumonics::Mov => "mov",
            Mneumonics::Jmp => "jmp",
            Mneumonics::Cmp => "cmp",
            Mneumonics::Jeq => "jeq",
            Mneumonics::Jne => "jne",
            Mneumonics::Psh => "psh",
            Mneumonics::Pop => "pop",
            Mneumonics::End => "end",
            Mneumonics::Cal => "cal",
            Mneumonics::Ret => "ret",
            Mneumonics::Sys => "sys",
        };
        assert(s@ =~= self.spec_name());
        s
    }
}

/// The operand count of each mneumonic byte.
pub open spec fn spec_arg_counts() -> Seq<usize> {
    Seq::new(
        NUM_MNEUMONICS as nat,
        |i: int| Mneumonics::spec_from_index(i as u8).unwrap().spec_num_args(),
    )
}

/// The operand count of each mneumonic byte.
pub fn arg_counts() -> (v: Vec<usize>)
    ensures
        v@ == spec_arg_counts(),
        counts_wf(v@),
{
    let mut v: Vec<usize> = Vec::new();
    let mut i: u8 = 0;
    while i < 13
        invariant
            i <= 13,
            v@ =~= spec_arg_counts().take(i as int),
        decreases 13 - i,
    {
        let m = match Mneumonics::try_from_u8(i) {
            Ok(m) => m,
            Err(_) => Mneumonics::End,
        };
        v.push(m.num_args());
        i = i + 1;
    }
    assert(v@ =~= spec_arg_counts());
    v
}

/// An operation of the machine.
#[derive(Debug, PartialEq, Eq, Clone, Copy, Structural)]
pub enum Operation {
    Add(Operand, Operand),
    Sub(Operand, Operand),
    Mov(Operand, Operand),
    Jmp(Operand),
    Cmp(Operand, Operand),
    Jeq(Operand),
    Jne(Operand),
    Psh(Operand),
    Pop(Operand),
    End,
    Cal(Operand),
    Ret,
    Sys(Operand),
}

impl Operation {
    pub open spec fn spec_mneumonic(self) -> Mneumonics {
        match self {
            Operation::Add(..) => Mneumonics::Add,
            Operation::Sub(..) => Mneumonics::Sub,
            Operation::Mov(..) => Mneumonics::Mov,
            Operation::Jmp(..) => Mneumonics::Jmp,
            Operation::Cmp(..) => Mneumonics::Cmp,
            Operation::Jeq(..) => Mneumonics::Jeq,
            Operation::Jne(..) => Mneumonics::Jne,
            Operation::Psh(..) => Mneumonics::Psh,
            Operation::Pop(..) => Mneumonics::Pop,
            Operation::End => Mneumonics::End,
            Operation::Cal(..) => Mneumonics::Cal,
            Operation::Ret => Mneumonics::Ret,
            Operation::Sys(..) => Mneumonics::Sys,
        }
    }

    /// The operands in order.
    pub open spec fn spec_operands(self) -> Seq<Operand> {
        match self {
            Operation::Add(a, b) => seq![a, b],
            Operation::Sub(a, b) => seq![a, b],
            Operation::Mov(a, b) => seq![a, b],
            Operation::Jmp(a) => seq![a],
            Operation::Cmp(a, b) => seq![a, b],
            Operation::Jeq(a) => seq![a],
            Operation::Jne(a) => seq![a],
            Operation::Psh(a) => seq![a],
            Operation::Pop(a) => seq![a],
            Operation::End => seq![],
            Operation::Cal(a) => seq![a],
            Operation::Ret => seq![],
            Operation::Sys(a) => seq![a],
        }
    }

    /// The operation with the given mneumonic and operands.
    pub open spec fn spec_from_parts(m: Mneumonics, ops: Seq<Operand>) -> Operation {
        match m {
            Mneumonics::Add => Operation::Add(ops[0], ops[1]),
            Mneumonics::Sub => Operation::Sub(ops[0], ops[1]),
            Mneumonics::Mov => Operation::Mov(ops[0], ops[1]),
            Mneumonics::Jmp => Operation::Jmp(ops[0]),
            Mneumonics::Cmp => Operation::Cmp(ops[0], ops[1]),
            Mneumonics::Jeq => Operation::Jeq(ops[0]),
            Mneumonics::Jne => Operation::Jne(ops[0]),
            Mneumonics::Psh => Operation::Psh(ops[0]),
            Mneumonics::Pop => Operation::Pop(ops[0]),
            Mneumonics::End => Operation::End,
            Mneumonics::Cal => Operation::Cal(ops[0]),
            Mneumonics::Ret => Operation::Ret,
            Mneumonics::Sys => Operation::Sys(ops[0]),
        }
    }

    /// The operands as they are laid out in machine code.
    pub open spec fn raw_operands(self) -> Seq<RawOperand> {
        self.spec_operands().map_values(|o: Operand| o.raw())
    }

    /// The machine code of the operation.
    pub open spec fn spec_compile(self) -> Seq<u8> {
        encode(self.spec_mneumonic().spec_index(), self.raw_operands())
    }

    /// The operation's text: the mneumonic, then a
    /// space and the operands separated by commas.
    pub open spec fn spec_text(self) -> Seq<char> {
        let ops = self.spec_operands();
        let name = self.spec_mneumonic().spec_name();
        if ops.len() == 0 {
            name
        } else if ops.len() == 1 {
            name + seq![' '] + ops[0].spec_text()
        } else {
            name + seq![' '] + ops[0].spec_text() + seq![','] + ops[1].spec_text()
        }
    }

    pub proof fn lemma_operands_len(self)
        ensures
            self.spec_operands().len() == self.spec_mneumonic().spec_num_args(),
            self.spec_operands().len() <= 2,
            Operation::spec_from_parts(self.spec_mneumonic(), self.spec_operands()) == self,
    {
    }

    pub fn mneumonic(&self) -> (m: Mneumonics)
        ensures
            m == self.spec_mneumonic(),
    {
        match self {
            Operation::Add(..) => Mneumonics::Add,
            Operation::Sub(..) => Mneumonics::Sub,
            Operation::Mov(..) => Mneumonics::Mov,
            Operation::Jmp(..) => Mneumonics::Jmp,
            Operation::Cmp(..) => Mneumonics::Cmp,
            Operation::Jeq(..) => Mneumonics::Jeq,
            Operation::Jne(..) => Mneumonics::Jne,
            Operation::Psh(..) => Mneumonics::Psh,
            Operation::Pop(..) => Mneumonics::Pop,
            Operation::End => Mneumonics::End,
            Operation::Cal(..) => Mneumonics::Cal,
            Operation::Ret => Mneumonics::Ret,
            Operation::Sys(..) => Mneumonics::Sys,
        }
    }

    pub fn operands(&self) -> (v: Vec<Operand>)
        ensures
            v@ == self.spec_operands(),
    {
        let mut v = Vec::new();
        match self {
            Operation::Add(a, b) | Operation::Sub(a, b) | Operation::Mov(a, b) | Operation::Cmp(
                a,
                b,
            ) => {
                v.push(*a);
                v.push(*b);
            },
            Operation::Jmp(a) | Operation::Jeq(a) | Operation::Jne(a) | Operation::Psh(a)
            | Operation::Pop(a) | Operation::Cal(a) | Operation::Sys(a) => {
                v.push(*a);
            },
            Operation::End | Operation::Ret => {},
        }
        assert(v@ =~= self.spec_operands());
        v
    }

    fn raw_operand_vec(&self) -> (v: Vec<RawOperand>)
        ensures
            v@ == self.raw_operands(),
            v@.len() <= 2,
    {
        let ops = self.operands();
        let mut v: Vec<RawOperand> = Vec::new();
        let mut i: usize = 0;
        while i < ops.len()
            invariant
                i <= ops@.len(),
                ops@ == self.spec_operands(),
                v@ =~= self.raw_operands().take(i as int),
            decreases ops@.len() - i,
        {
            v.push(ops[i].raw_operand());
            i = i + 1;
        }
        assert(v@ =~= self.raw_operands());
        v
    }

    /// The metadata byte of the operation's machine code.
    pub fn metadata(&self) -> (meta: u8)
        ensures
            meta == crate::machine_code::metadata_byte(self.raw_operands()),
    {
        let raw = self.raw_operand_vec();
        crate::machine_code::metadata(raw.as_slice())
    }

    /// The operation's machine code: the mneumonic byte, the metadata byte,
    /// then two bytes per operand.
    pub fn compile(self) -> (bytes: Vec<u8>)
        ensures
            bytes@ == self.spec_compile(),
    {
        let raw = self.raw_operand_vec();
        compile(self.mneumonic().index(), raw.as_slice())
    }

    /// Decodes the operation at the front of `bytes`, with the number of bytes
    /// it takes; `Ok(None)` when `bytes` is empty.
    pub fn consume(bytes: &[u8]) -> (r: Result<Option<(Operation, usize)>, DecodeError>)
        ensures
            match r {
                Ok(Some((op, n))) => spec_consume(bytes@) == Ok::<
                    Option<(Operation, int)>,
                    DecodeError,
                >(Some((op, n as int))),
                Ok(None) => spec_consume(bytes@) == Ok::<Option<(Operation, int)>, DecodeError>(
                    None,
                ),
                Err(e) => spec_consume(bytes@) == Err::<Option<(Operation, int)>, DecodeError>(e),
            },
    {
        let counts = arg_counts();
        let raw = consume_raw(bytes, counts.as_slice());
        match raw {
            Err(e) => Err(e),
            Ok(None) => Ok(None),
            Ok(Some(ins)) => {
                let m = match Mneumonics::try_from_u8(ins.mneumonic) {
                    Ok(m) => m,
                    Err(e) => {
                        return Err(e);
                    },
                };
                let n = ins.operands.len();
                let mut ops: Vec<Operand> = Vec::new();
                let mut i: usize = 0;
                while i < n
                    invariant
                        i <= n,
                        n == ins.operands@.len(),
                        n == m.spec_num_args(),
                        decode(bytes@, spec_arg_counts()) == Ok::<
                            Option<(u8, Seq<RawOperand>)>,
                            DecodeError,
                        >(Some((ins.mneumonic, ins.operands@))),
                        ops@.len() == i,
                        forall|j: int|
                            0 <= j < i ==> Operand::from_raw(ins.operands@[j]) == Some(
                                #[trigger] ops@[j],
                            ),
                    decreases n - i,
                {
                    let o = ins.operands[i];
                    if o.reg && o.val >= 9 {
                        assert(Operand::from_raw(ins.operands@[i as int]) is None);
                        assert(!all_registers_valid(ins.operands@));
                        return Err(DecodeError::InvalidRegister);
                    }
                    ops.push(Operand::__create(o.reg, o.deref, o.val));
                    i = i + 1;
                }
                let op = match m {
                    Mneumonics::Add => Operation::Add(ops[0], ops[1]),
                    Mneumonics::Sub => Operation::Sub(ops[0], ops[1]),
                    Mneumonics::Mov => Operation::Mov(ops[0], ops[1]),
                    Mneumonics::Jmp => Operation::Jmp(ops[0]),
                    Mneumonics::Cmp => Operation::Cmp(ops[0], ops[1]),
                    Mneumonics::Jeq => Operation::Jeq(ops[0]),
                    Mneumonics::Jne => Operation::Jne(ops[0]),
                    Mneumonics::Psh => Operation::Psh(ops[0]),
                    Mneumonics::Pop => Operation::Pop(ops[0]),
                    Mneumonics::End => Operation::End,
                    Mneumonics::Cal => Operation::Cal(ops[0]),
                    Mneumonics::Ret => Operation::Ret,
                    Mneumonics::Sys => Operation::Sys(ops[0]),
                };
                proof {
                    assert(ins.operands@.map_values(|o: RawOperand| Operand::from_raw(o).unwrap())
                        =~= ops@);
                }
                Ok(Some((op, crate::machine_code::instruction_len(n))))
            },
        }
    }

    /// The operation's text.
    pub fn to_string(&self) -> (s: String)
        ensures
            s@ == self.spec_text(),
    {
        let ops = self.operands();
        let mut s = String::from_str(self.mneumonic().name());
        proof {
            reveal_strlit(" ");
            reveal_strlit(",");
        }
        if ops.len() >= 1 {
            s.append(" ");
            let t0 = ops[0].to_string();
            s.append(t0.as_str());
        }
        if ops.len() >= 2 {
            s.append(",");
            let t1 = ops[1].to_string();
            s.append(t1.as_str());
        }
        assert(s@ =~= self.spec_text());
        s
    }

    /// Parses a line of assembly: a mneumonic, a space, then the operands.
    /// Only `add`, `sub`, `mov` and `cmp` (two operands separated by a comma)
    /// and `jmp` (one operand) are read.
    pub fn try_from_str(value: &str) -> (r: Result<Operation, IsaError>)
        ensures
            r == spec_parse_operation(value@),
    {
        proof {
            reveal_strlit("add");
            reveal_strlit("sub");
            reveal_strlit("mov");
            reveal_strlit("cmp");
            reveal_strlit("jmp");
            assert("add"@ =~= seq!['a', 'd', 'd']);
            assert("sub"@ =~= seq!['s', 'u', 'b']);
            assert("mov"@ =~= seq!['m', 'o', 'v']);
            assert("cmp"@ =~= seq!['c', 'm', 'p']);
            assert("jmp"@ =~= seq!['j', 'm', 'p']);
        }
        match split_once_char(value, ' ') {
            None => Err(IsaError::InvalidOperation),
            Some((operation, operands)) => {
                if str_eq(operation, "add") {
                    match parse_two_operands(operands) {
                        Ok((a, b)) => Ok(Operation::Add(a, b)),
                        Err(e) => Err(e),
                    }
                } else if str_eq(operation, "sub") {
                    match parse_two_operands(operands) {
                        Ok((a, b)) => Ok(Operation::Sub(a, b)),
                        Err(e) => Err(e),
                    }
                } else if str_eq(operation, "mov") {
                    match parse_two_operands(operands) {
                        Ok((a, b)) => Ok(Operation::Mov(a, b)),
                        Err(e) => Err(e),
                    }
                } else if str_eq(operation, "jmp") {
                    match Operand::try_from_str(operands) {
                        Ok(a) => Ok(Operation::Jmp(a)),
                        Err(e) => Err(e),
                    }
                } else if str_eq(operation, "cmp") {
                    match parse_two_operands(operands) {
                        Ok((a, b)) => Ok(Operation::Cmp(a, b)),
                        Err(e) => Err(e),
                    }
                } else {
                    Err(IsaError::InvalidOperation)
                }
            },
        }
    }
}

/// Every machine-code operand marked as a register names one.
pub open spec fn all_registers_valid(ops: Seq<RawOperand>) -> bool {
    forall|j: int| 0 <= j < ops.len() ==> #[trigger] Operand::from_raw(ops[j]) is Some
}

/// The operation at the front of a byte stream, with its length in bytes.
pub open spec fn spec_consume(bytes: Seq<u8>) -> Result<Option<(Operation, int)>, DecodeError> {
    match decode(bytes, spec_arg_counts()) {
        Err(e) => Err(e),
        Ok(None) => Ok(None),
        Ok(Some((mn, ops))) => if all_registers_valid(ops) {
            Ok(
                Some(
                    (
                        Operation::spec_from_parts(
                            Mneumonics::spec_from_index(mn).unwrap(),
                            ops.map_values(|o: RawOperand| Operand::from_raw(o).unwrap()),
                        ),
                        spec_instruction_len(ops.len() as int),
                    ),
                ),
            )
        } else {
            Err(DecodeError::InvalidRegister)
        },
    }
}

/// What `parse_two_operands` gives for the operand text of a two-operand line.
pub open spec fn spec_parse_two(args: Seq<char>) -> Result<(Operand, Operand), IsaError> {
    match spec_parse_operand(trim(first_piece(args, ','))) {
        Err(e) => Err(e),
        Ok(a) => match split_once(args, ',') {
            None => Err(IsaError::InvalidOperands),
            Some((_, rest)) => match spec_parse_operand(trim(first_piece(rest, ','))) {
                Err(e) => Err(e),
                Ok(b) => Ok((a, b)),
            },
        },
    }
}

/// What `Operation::try_from_str` gives for a line.
pub open spec fn spec_parse_operation(s: Seq<char>) -> Result<Operation, IsaError> {
    match split_once(s, ' ') {
        None => Err(IsaError::InvalidOperation),
        Some((name, args)) => if name == Mneumonics::Add.spec_name() {
            match spec_parse_two(args) {
                Ok((a, b)) => Ok(Operation::Add(a, b)),
                Err(e) => Err(e),
            }
        } else if name == Mneumonics::Sub.spec_name() {
            match spec_parse_two(args) {
                Ok((a, b)) => Ok(Operation::Sub(a, b)),
                Err(e) => Err(e),
            }
        } else if name == Mneumonics::Mov.spec_name() {
            match spec_parse_two(args) {
                Ok((a, b)) => Ok(Operation::Mov(a, b)),
                Err(e) => Err(e),
            }
        } else if name == Mneumonics::Jmp.spec_name() {
            match spec_parse_operand(args) {
                Ok(a) => Ok(Operation::Jmp(a)),
                Err(e) => Err(e),
            }
        } else if name == Mneumonics::Cmp.spec_name() {
            match spec_parse_two(args) {
                Ok((a, b)) => Ok(Operation::Cmp(a, b)),
                Err(e) => Err(e),
            }
        } else {
            Err(IsaError::InvalidOperation)
        },
    }
}

/// Parses the two operands of a line: the text up to the first comma and the
/// text between the first and second comma, each trimmed.
fn parse_two_operands(args: &str) -> (r: Result<(Operand, Operand), IsaError>)
    ensures
        r == spec_parse_two(args@),
{
    let first = trim_str(first_piece_of(args, ','));
    let a = match Operand::try_from_str(first) {
        Ok(a) => a,
        Err(e) => {
            return Err(e);
        },
    };
    match split_once_char(args, ',') {
        None => Err(IsaError::InvalidOperands),
        Some((_, rest)) => {
            let second = trim_str(first_piece_of(rest, ','));
            match Operand::try_from_str(second) {
                Ok(b) => Ok((a, b)),
                Err(e) => Err(e),
            }
        },
    }
}

/// A text with no whitespace and no comma in it.
pub open spec fn plain_text(s: Seq<char>) -> bool {
    &&& s.len() > 0
    &&& forall|i: int| 0 <= i < s.len() ==> !spec_is_whitespace(#[trigger] s[i]) && s[i] != ','
}

/// An operand's text is plain, and reading it gives back the operand.
pub proof fn lemma_parse_operand_text(o: Operand)
    ensures
        plain_text(o.spec_text()),
        spec_parse_operand(o.spec_text()) == Ok::<Operand, IsaError>(o),
{
    let inner = o.spec_inner();
    let it = inner.spec_text();
    match inner {
        OperandInner::Register(reg) => {
            reg.lemma_name_round_trip();
            assert(it.drop_first() =~= reg.spec_name());
            assert(it[0] == '$');
        },
        OperandInner::Literal(w) => {
            lemma_parse_decimal(w);
            lemma_decimal_value(w as nat);
            assert(is_digit(it[0]));
        },
    }
    assert(plain_text(it)) by {
        assert forall|i: int| 0 <= i < it.len() implies !spec_is_whitespace(#[trigger] it[i])
            && it[i] != ',' by {
            match inner {
                OperandInner::Register(reg) => {
                    if i > 0 {
                        assert(it[i] == reg.spec_name()[i - 1]);
                    }
                },
                OperandInner::Literal(w) => {
                    assert(is_digit(it[i]));
                },
            }
        }
    }
    match o {
        Operand::LValue(_) => {
            let t = o.spec_text();
            assert(t.drop_first() =~= it);
            assert forall|i: int| 0 <= i < t.len() implies !spec_is_whitespace(#[trigger] t[i])
                && t[i] != ',' by {
                if i > 0 {
                    assert(t[i] == it[i - 1]);
                }
            }
        },
        Operand::RValue(_) => {
            assert(it[0] != '*');
        },
    }
}

proof fn lemma_plain_trim(s: Seq<char>)
    requires
        plain_text(s),
    ensures
        trim(s) == s,
        find_char(s, ',') == None::<int>,
        first_piece(s, ',') == s,
{
    assert(!spec_is_whitespace(s[0]) && !spec_is_whitespace(s[s.len() - 1]));
    lemma_trim_noop(s);
    lemma_find_char_none(s, ',');
}

/// Reading the text of a two-operand line's operands gives back the operands.
proof fn lemma_parse_two_text(a: Operand, b: Operand)
    ensures
        spec_parse_two(a.spec_text() + seq![','] + b.spec_text()) == Ok::<
            (Operand, Operand),
            IsaError,
        >((a, b)),
{
    let ta = a.spec_text();
    let tb = b.spec_text();
    let args = ta + seq![','] + tb;
    lemma_parse_operand_text(a);
    lemma_parse_operand_text(b);
    lemma_plain_trim(ta);
    lemma_plain_trim(tb);
    assert forall|j: int| 0 <= j < ta.len() implies args[j] != ',' by {
        assert(args[j] == ta[j]);
    }
    lemma_find_char_first(args, ',', ta.len() as int);
    assert(args.subrange(0, ta.len() as int) =~= ta);
    assert(args.subrange(ta.len() as int + 1, args.len() as int) =~= tb);
}

/// Reading back the text of an operation that the assembly reader knows
/// (`add`, `sub`, `mov`, `cmp`, `jmp`) gives back the operation.
pub proof fn lemma_parse_operation_text(op: Operation)
    requires
        op is Add || op is Sub || op is Mov || op is Cmp || op is Jmp,
    ensures
        spec_parse_operation(op.spec_text()) == Ok::<Operation, IsaError>(op),
{
    let t = op.spec_text();
    let name = op.spec_mneumonic().spec_name();
    let ops = op.spec_operands();
    lemma_parse_operand_text(ops[0]);
    let args = if ops.len() == 1 {
        ops[0].spec_text()
    } else {
        ops[0].spec_text() + seq![','] + ops[1].spec_text()
    };
    assert(t =~= name + seq![' '] + args);
    assert forall|j: int| 0 <= j < 3 implies t[j] != ' ' by {
        assert(t[j] == name[j]);
    }
    lemma_find_char_first(t, ' ', 3);
    assert(t.subrange(0, 3) =~= name);
    assert(t.subrange(4, t.len() as int) =~= args);
    if ops.len() == 2 {
        lemma_parse_two_text(ops[0], ops[1]);
    }
}

/// Decoding the machine code of an operation, followed by any bytes, gives
/// back the operation and its length.
pub proof fn lemma_consume_compile(op: Operation, rest: Seq<u8>)
    ensures
        spec_consume(op.spec_compile() + rest) == Ok::<Option<(Operation, int)>, DecodeError>(
            Some((op, op.spec_compile().len() as int)),
        ),
{
    let m = op.spec_mneumonic();
    let ops = op.raw_operands();
    op.lemma_operands_len();
    m.lemma_index_round_trip();
    lemma_decode_encode(m.spec_index(), ops, rest, spec_arg_counts());
    assert forall|j: int| 0 <= j < ops.len() implies #[trigger] Operand::from_raw(ops[j])
        == Some(op.spec_operands()[j]) by {
        op.spec_operands()[j].lemma_raw_round_trip();
    }
    assert(ops.map_values(|o: RawOperand| Operand::from_raw(o).unwrap()) =~= op.spec_operands());
    crate::machine_code::lemma_encode_len(m.spec_index(), ops);
}

} // verus!
