//! Bytecode for the arithmetic core of the instruction set (`add`, `sub`,
//! `mov`).
//!
//! An operation is laid out as its operation word, written twice, then the
//! value of each operand. The operation word holds the operation's code in its
//! low byte and a metadata byte in its high byte. The metadata byte describes
//! each operand in three bits (bit 0: dereferenced, bits 1-2: its kind, `1` for
//! a literal and `2` for a register), the first operand in the lowest bits. A
//! register operand is one byte, its number; a literal is two little-endian
//! bytes.

use vstd::prelude::*;

use crate::cfg::Word;
use crate::isa::{Operand, OperandInner, Operation, Register};
use crate::machine_code::{word_bytes, word_from_bytes};

verus! {

/// A run of machine code.
pub struct MachineCode {
    inner: Vec<u8>,
}

impl View for MachineCode {
    type V = Seq<u8>;

    closed spec fn view(&self) -> Seq<u8> {
        self.inner@
    }
}

impl MachineCode {
    /// An empty run of machine code.
    pub fn new() -> (mc: MachineCode)
        ensures
            mc@ == Seq::<u8>::empty(),
    {
        MachineCode { inner: Vec::new() }
    }

    /// The machine code made of the given bytes.
    pub fn from_bytes(bytes: Vec<u8>) -> (mc: MachineCode)
        ensures
            mc@ == bytes@,
    {
        MachineCode { inner: bytes }
    }

    /// Appends `other` to this run.
    pub fn concat(&mut self, other: MachineCode)
        ensures
            final(self)@ == old(self)@ + other@,
    {
        let mut other = other;
        self.inner.append(&mut other.inner);
    }

    /// The bytes of the run.
    pub fn bytes(&self) -> (b: &Vec<u8>)
        ensures
            b@ == self@,
    {
        &self.inner
    }

    /// The number of bytes in the run.
    pub fn len(&self) -> (n: usize)
        ensures
            n == self@.len(),
    {
        self.inner.len()
    }
}

impl Default for MachineCode {
    fn default() -> (mc: MachineCode)
        ensures
            mc@ == Seq::<u8>::empty(),
    {
        MachineCode::new()
    }
}

/// A value with a machine-code form.
pub trait ToMachineCode: Sized {
    /// Whether the value has a machine-code form.
    spec fn can_assemble(&self) -> bool;

    /// The machine code of the value.
    spec fn assembled(&self) -> Seq<u8>;

    /// Assembles the value into machine code.
    fn assemble(self) -> (mc: MachineCode)
        requires
            self.can_assemble(),
        ensures
            mc@ == self.assembled(),
    ;
}

/// A value that can be read back from machine code.
pub trait FromMachineCode {

}

/// The machine code of an operand's target: a register's number in one byte,
/// or a literal's two little-endian bytes.
pub open spec fn inner_code(inner: OperandInner) -> Seq<u8> {
    match inner {
        OperandInner::Register(reg) => seq![reg.spec_index()],
        OperandInner::Literal(w) => word_bytes(w),
    }
}

impl ToMachineCode for Register {
    open spec fn can_assemble(&self) -> bool {
        true
    }

    open spec fn assembled(&self) -> Seq<u8> {
        seq![self.spec_index()]
    }

    fn assemble(self) -> (mc: MachineCode) {
        let mut bytes: Vec<u8> = Vec::new();
        bytes.push(self.index());
        assert(bytes@ =~= seq![self.spec_index()]);
        MachineCode { inner: bytes }
    }
}

impl ToMachineCode for Word {
    open spec fn can_assemble(&self) -> bool {
        true
    }

    open spec fn assembled(&self) -> Seq<u8> {
        word_bytes(*self)
    }

    fn assemble(self) -> (mc: MachineCode) {
        let mut bytes: Vec<u8> = Vec::new();
        bytes.push((self & 0xff) as u8);
        bytes.push((self >> 8u16) as u8);
        assert(bytes@ =~= word_bytes(self));
        MachineCode { inner: bytes }
    }
}

impl<'a> ToMachineCode for &'a OperandInner {
    open spec fn can_assemble(&self) -> bool {
        true
    }

    open spec fn assembled(&self) -> Seq<u8> {
        inner_code(**self)
    }

    fn assemble(self) -> (mc: MachineCode) {
        match self {
            OperandInner::Register(reg) => (*reg).assemble(),
            OperandInner::Literal(val) => (*val).assemble(),
        }
    }
}

/// The code of an operation in the low byte of its operation word: `0` for
/// `add`, `1` for `sub`, `2` for `mov`; `3` marks an invalid operation.
pub open spec fn op_code(op: Operation) -> u8 {
    match op {
        Operation::Add(..) => 0,
        Operation::Sub(..) => 1,
        Operation::Mov(..) => 2,
        _ => 3,
    }
}

/// The three metadata bits of an operand.
pub open spec fn operand_bits(o: Operand) -> u8 {
    ((if o is LValue { 1int } else { 0int }) + (if o.spec_is_reg() { 4int } else { 2int })) as u8
}

/// The two operands of an arithmetic operation.
pub open spec fn arith_operands(op: Operation) -> (Operand, Operand) {
    match op {
        Operation::Add(a, b) => (a, b),
        Operation::Sub(a, b) => (a, b),
        Operation::Mov(a, b) => (a, b),
        _ => (
            Operand::RValue(OperandInner::Literal(0)),
            Operand::RValue(OperandInner::Literal(0)),
        ),
    }
}

/// The metadata byte of an arithmetic operation.
pub open spec fn meta_byte(op: Operation) -> u8 {
    (operand_bits(arith_operands(op).0) + 8 * operand_bits(arith_operands(op).1)) as u8
}

/// The operation word: the code in the low byte, the metadata in the high byte.
pub open spec fn operation_word(op: Operation) -> u16 {
    (op_code(op) + 256 * meta_byte(op)) as u16
}

/// The metadata bits of an operand: whether it is dereferenced, and its kind.
fn configure_arg(o: &Operand) -> (b: u8)
    ensures
        b == operand_bits(*o),
        b < 6,
{
    let d: u8 = if o.is_deref() {
        1
    } else {
        0
    };
    let k: u8 = if o.is_reg() {
        4
    } else {
        2
    };
    d + k
}

/// The code of an arithmetic operation.
fn configure_op(op: &Operation) -> (code: u8)
    requires
        op is Add || op is Sub || op is Mov,
    ensures
        code == op_code(*op),
{
    match op {
        Operation::Add(..) => 0,
        Operation::Sub(..) => 1,
        _ => 2,
    }
}

impl ToMachineCode for Operation {
    /// Only `add`, `sub` and `mov` have a bytecode form.
    open spec fn can_assemble(&self) -> bool {
        self is Add || self is Sub || self is Mov
    }

    open spec fn assembled(&self) -> Seq<u8> {
        word_bytes(operation_word(*self)) + word_bytes(operation_word(*self)) + inner_code(
            arith_operands(*self).0.spec_inner(),
        ) + inner_code(arith_operands(*self).1.spec_inner())
    }

    fn assemble(self) -> (mc: MachineCode) {
        let code = configure_op(&self);
        let (arg0, arg1) = match self {
            Operation::Add(a, b) => (a, b),
            Operation::Sub(a, b) => (a, b),
            Operation::Mov(a, b) => (a, b),
            _ => {
                proof {
                    assert(false);
                }
                (Operand::RValue(OperandInner::Literal(0)), Operand::RValue(OperandInner::Literal(0)))
            },
        };
        let meta: u8 = configure_arg(&arg0) + 8 * configure_arg(&arg1);
        let bits: u16 = code as u16 + 256 * meta as u16;
        let mut assembled = MachineCode::new();
        assembled.concat(bits.assemble());
        assembled.concat(bits.assemble());
        assembled.concat(arg0.inner().assemble());
        assembled.concat(arg1.inner().assemble());
        assert(assembled@ =~= self.assembled());
        assembled
    }
}

/// Why machine code could not be disassembled.
#[derive(Clone, Copy, Debug, PartialEq, Eq, Structural)]
pub enum DisassembleError {
    /// The code ends before a whole operation word.
    Truncated,
    /// The operation word names no operation.
    InvalidInstruction,
}

/// Whether three metadata bits describe an operand: their kind (bits 1-2)
/// is `1`, a literal, or `2`, a register.
pub open spec fn kind_ok(bits: u8) -> bool {
    bits / 2 == 1 || bits / 2 == 2
}

/// The bytes the value of an operand with these metadata bits takes.
pub open spec fn operand_len(bits: u8) -> int {
    if bits / 2 == 2 {
        1
    } else {
        2
    }
}

/// The operand with metadata bits `bits` whose value starts at `code[at]`;
/// `None` where a register byte names no register.
pub open spec fn decode_operand(code: Seq<u8>, at: int, bits: u8) -> Option<Operand> {
    let inner = if bits / 2 == 2 {
        match Register::spec_from_index(code[at] as u16) {
            Some(r) => Some(OperandInner::Register(r)),
            None => None,
        }
    } else {
        Some(OperandInner::Literal(word_from_bytes(code[at], code[at + 1])))
    };
    match inner {
        Some(i) => Some(
            if bits % 2 == 1 {
                Operand::LValue(i)
            } else {
                Operand::RValue(i)
            },
        ),
        None => None,
    }
}

/// The arithmetic operation with code `code` (`0` add, `1` sub, `2` mov).
pub open spec fn arith_from_code(code: u8, a: Operand, b: Operand) -> Operation {
    if code == 0 {
        Operation::Add(a, b)
    } else if code == 1 {
        Operation::Sub(a, b)
    } else {
        Operation::Mov(a, b)
    }
}

/// The first operation of `code` and the number of bytes it takes: its
/// operation word twice, then the value of each operand.
pub open spec fn decode_one(code: Seq<u8>) -> Result<(Operation, int), DisassembleError> {
    if code.len() < 2 {
        Err(DisassembleError::Truncated)
    } else if code[0] >= 3 {
        Err(DisassembleError::InvalidInstruction)
    } else if code.len() < 4 {
        Err(DisassembleError::Truncated)
    } else if code[2] != code[0] || code[3] != code[1] {
        Err(DisassembleError::InvalidInstruction)
    } else {
        let meta = code[1];
        let b0 = (meta % 8) as u8;
        let b1 = ((meta / 8) % 8) as u8;
        if meta >= 64 || !kind_ok(b0) || !kind_ok(b1) {
            Err(DisassembleError::InvalidInstruction)
        } else {
            let n = 4 + operand_len(b0) + operand_len(b1);
            if code.len() < n {
                Err(DisassembleError::Truncated)
            } else {
                match (
                    decode_operand(code, 4, b0),
                    decode_operand(code, 4 + operand_len(b0), b1),
                ) {
                    (Some(a), Some(b)) => Ok((arith_from_code(code[0], a, b), n)),
                    _ => Err(DisassembleError::InvalidInstruction),
                }
            }
        }
    }
}

/// The operations that `code` holds one after the other, or the error at
/// the first one that cannot be read.
pub open spec fn decode_all(code: Seq<u8>) -> Result<Seq<Operation>, DisassembleError>
    decreases code.len(),
{
    if code.len() == 0 {
        Ok(seq![])
    } else {
        match decode_one(code) {
            Err(e) => Err(e),
            Ok((op, n)) => if n <= 0 || n > code.len() {
                Err(DisassembleError::Truncated)
            } else {
                match decode_all(code.subrange(n, code.len() as int)) {
                    Ok(rest) => Ok(seq![op] + rest),
                    Err(e) => Err(e),
                }
            },
        }
    }
}

/// What disassembling `code` gives: code without a whole operation word is
/// truncated, and otherwise each operation is read in turn.
pub open spec fn spec_disassemble(code: Seq<u8>) -> Result<Seq<Operation>, DisassembleError> {
    if code.len() == 0 {
        Err(DisassembleError::Truncated)
    } else {
        decode_all(code)
    }
}

/// The machine code of a sequence of arithmetic operations, one after the other.
pub open spec fn bytecode_of(ops: Seq<Operation>) -> Seq<u8>
    decreases ops.len(),
{
    if ops.len() == 0 {
        seq![]
    } else {
        ops[0].assembled() + bytecode_of(ops.drop_first())
    }
}

proof fn lemma_split_word(c: u8, m: u8)
    ensures
        word_bytes((c + 256 * m) as u16) == seq![c, m],
{
    let w: u16 = (c + 256 * m) as u16;
    assert(w == c + 256 * m);
    assert((w & 0xff) as u8 == c && (w >> 8u16) as u8 == m) by (bit_vector)
        requires
            w == c + 256 * m,
    ;
    assert(word_bytes(w) =~= seq![c, m]);
}

/// Decoding the machine code of an arithmetic operation, followed by any
/// bytes, reads that operation and its length.
pub proof fn lemma_decode_assembled(op: Operation, rest: Seq<u8>)
    requires
        op is Add || op is Sub || op is Mov,
    ensures
        decode_one(op.assembled() + rest) == Ok::<(Operation, int), DisassembleError>(
            (op, op.assembled().len() as int),
        ),
        op.assembled().len() > 0,
{
    let (a, b) = arith_operands(op);
    let code = op.assembled() + rest;
    let c = op_code(op);
    let m = meta_byte(op);
    assert(operand_bits(a) < 6 && operand_bits(b) < 6);
    assert(m == operand_bits(a) + 8 * operand_bits(b));
    lemma_split_word(c, m);
    assert(operation_word(op) == (c + 256 * m) as u16);
    let ia = inner_code(a.spec_inner());
    let ib = inner_code(b.spec_inner());
    assert(op.assembled() == seq![c, m] + seq![c, m] + ia + ib);
    assert(code[0] == c && code[1] == m && code[2] == c && code[3] == m);
    let b0 = (m % 8) as u8;
    let b1 = ((m / 8) % 8) as u8;
    assert(b0 == operand_bits(a) && b1 == operand_bits(b));
    assert(ia.len() == operand_len(b0)) by {
        match a.spec_inner() {
            OperandInner::Register(r) => {},
            OperandInner::Literal(w) => {},
        }
    }
    assert(ib.len() == operand_len(b1)) by {
        match b.spec_inner() {
            OperandInner::Register(r) => {},
            OperandInner::Literal(w) => {},
        }
    }
    let n0 = operand_len(b0);
    assert forall|k: int| 0 <= k < ia.len() implies code[4 + k] == ia[k] by {}
    assert forall|k: int| 0 <= k < ib.len() implies code[4 + n0 + k] == ib[k] by {}
    assert(decode_operand(code, 4, b0) == Some(a)) by {
        match a.spec_inner() {
            OperandInner::Register(r) => {
                r.lemma_index_round_trip();
            },
            OperandInner::Literal(w) => {
                crate::machine_code::lemma_word_bytes(w);
            },
        }
    }
    assert(decode_operand(code, 4 + n0, b1) == Some(b)) by {
        match b.spec_inner() {
            OperandInner::Register(r) => {
                r.lemma_index_round_trip();
            },
            OperandInner::Literal(w) => {
                crate::machine_code::lemma_word_bytes(w);
            },
        }
    }
}

/// Disassembling the machine code of a non-empty sequence of arithmetic
/// operations gives those operations back.
pub proof fn lemma_disassemble_assembled(ops: Seq<Operation>)
    requires
        forall|i: int| 0 <= i < ops.len() ==> (#[trigger] ops[i] is Add) || ops[i] is Sub || ops[i] is Mov,
    ensures
        decode_all(bytecode_of(ops)) == Ok::<Seq<Operation>, DisassembleError>(ops),
        ops.len() > 0 ==> spec_disassemble(bytecode_of(ops)) == Ok::<Seq<Operation>, DisassembleError>(ops),
    decreases ops.len(),
{
    if ops.len() > 0 {
        let op = ops[0];
        assert(op is Add || op is Sub || op is Mov);
        let tail = ops.drop_first();
        assert forall|i: int| 0 <= i < tail.len() implies (#[trigger] tail[i] is Add) || tail[i] is Sub || tail[i] is Mov by {
            assert(tail[i] == ops[i + 1]);
            assert(ops[i + 1] is Add || ops[i + 1] is Sub || ops[i + 1] is Mov);
        }
        lemma_disassemble_assembled(tail);
        let rest = bytecode_of(tail);
        let code = bytecode_of(ops);
        assert(code == op.assembled() + rest);
        lemma_decode_assembled(op, rest);
        let n = op.assembled().len() as int;
        assert(code.len() == n + rest.len());
        assert(code.subrange(n, code.len() as int) =~= rest);
        assert(seq![op] + tail =~= ops);
        assert(decode_one(code) == Ok::<(Operation, int), DisassembleError>((op, n)));
        assert(decode_all(code) == Ok::<Seq<Operation>, DisassembleError>(seq![op] + tail));
    } else {
        assert(bytecode_of(ops) =~= Seq::<u8>::empty());
        assert(ops =~= Seq::<Operation>::empty());
    }
}

/// A source of machine code that can be read back into assembly.
pub trait Disassembleable: Sized {
    /// The target of the disassembly.
    type ASM;

    /// What the disassembly of this source gives.
    spec fn disassembled(&self) -> Result<Seq<Self::ASM>, DisassembleError>;

    /// Attempts to disassemble the source; fails on invalid machine code.
    fn try_disassemble(self) -> (r: Result<Vec<Self::ASM>, DisassembleError>)
        ensures
            r is Ok <==> self.disassembled() is Ok,
            r matches Ok(v) ==> self.disassembled() matches Ok(s) && v@ == s,
            r matches Err(e) ==> self.disassembled() matches Err(f) && e == f,
    ;
}

/// The operand with metadata bits `bits` whose value starts at `code[at]`.
fn read_operand(code: &[u8], at: usize, bits: u8) -> (r: Option<Operand>)
    requires
        bits < 8,
        kind_ok(bits),
        at + operand_len(bits) <= code@.len(),
    ensures
        r == decode_operand(code@, at as int, bits),
{
    let inner = if bits / 2 == 2 {
        match Register::try_from_u16(code[at] as u16) {
            Ok(r) => OperandInner::Register(r),
            Err(_) => {
                return None;
            },
        }
    } else {
        let lo = code[at];
        let hi = code[at + 1];
        OperandInner::Literal((lo as u16) | ((hi as u16) << 8u16))
    };
    if bits % 2 == 1 {
        Some(Operand::LValue(inner))
    } else {
        Some(Operand::RValue(inner))
    }
}

/// The operation at `code[pos..]` and the number of bytes it takes.
fn read_operation(code: &[u8], pos: usize) -> (r: Result<(Operation, usize), DisassembleError>)
    requires
        pos <= code@.len(),
    ensures
        match r {
            Ok((op, n)) => decode_one(code@.subrange(pos as int, code@.len() as int)) == Ok::<
                (Operation, int),
                DisassembleError,
            >((op, n as int)),
            Err(e) => decode_one(code@.subrange(pos as int, code@.len() as int)) == Err::<
                (Operation, int),
                DisassembleError,
            >(e),
        },
{
    let ghost sub = code@.subrange(pos as int, code@.len() as int);
    let len = code.len() - pos;
    if len < 2 {
        return Err(DisassembleError::Truncated);
    }
    let op = code[pos];
    let meta = code[pos + 1];
    if op >= 3 {
        return Err(DisassembleError::InvalidInstruction);
    }
    if len < 4 {
        return Err(DisassembleError::Truncated);
    }
    if code[pos + 2] != op || code[pos + 3] != meta {
        return Err(DisassembleError::InvalidInstruction);
    }
    let b0 = meta % 8;
    let b1 = (meta / 8) % 8;
    if meta >= 64 || !(b0 / 2 == 1 || b0 / 2 == 2) || !(b1 / 2 == 1 || b1 / 2 == 2) {
        return Err(DisassembleError::InvalidInstruction);
    }
    let n0: usize = if b0 / 2 == 2 {
        1
    } else {
        2
    };
    let n1: usize = if b1 / 2 == 2 {
        1
    } else {
        2
    };
    let n = 4 + n0 + n1;
    if len < n {
        return Err(DisassembleError::Truncated);
    }
    let a = read_operand(code, pos + 4, b0);
    let b = read_operand(code, pos + 4 + n0, b1);
    proof {
        assert forall|k: int| 0 <= k < sub.len() implies sub[k] == code@[pos + k] by {}
        assert(decode_operand(sub, 4, b0) == decode_operand(code@, pos + 4, b0));
        assert(decode_operand(sub, 4 + n0, b1) == decode_operand(code@, pos + 4 + n0, b1));
    }
    match (a, b) {
        (Some(a), Some(b)) => {
            let o = if op == 0 {
                Operation::Add(a, b)
            } else if op == 1 {
                Operation::Sub(a, b)
            } else {
                Operation::Mov(a, b)
            };
            Ok((o, n))
        },
        _ => Err(DisassembleError::InvalidInstruction),
    }
}

impl<'a> Disassembleable for &'a [u8] {
    type ASM = Operation;

    open spec fn disassembled(&self) -> Result<Seq<Operation>, DisassembleError> {
        spec_disassemble(self@)
    }

    fn try_disassemble(self) -> (r: Result<Vec<Operation>, DisassembleError>) {
        if self.len() == 0 {
            return Err(DisassembleError::Truncated);
        }
        let ghost code = self@;
        let mut ops: Vec<Operation> = Vec::new();
        let mut pos: usize = 0;
        proof {
            assert(code.subrange(0, code.len() as int) =~= code);
            match decode_all(code) {
                Ok(rest) => {
                    assert(ops@ + rest =~= rest);
                },
                Err(e) => {},
            }
        }
        while pos < self.len()
            invariant
                pos <= self@.len(),
                code == self@,
                decode_all(code) == match decode_all(code.subrange(pos as int, code.len() as int)) {
                    Ok(rest) => Ok::<Seq<Operation>, DisassembleError>(ops@ + rest),
                    Err(e) => Err(e),
                },
            decreases self@.len() - pos,
        {
            let ghost sub = code.subrange(pos as int, code.len() as int);
            match read_operation(self, pos) {
                Ok((op, n)) => {
                    proof {
                        reveal_with_fuel(decode_all, 2);
                    }
                    if n == 0 || n > self.len() - pos {
                        proof {
                            assert(decode_all(sub) == Err::<Seq<Operation>, DisassembleError>(
                                DisassembleError::Truncated,
                            ));
                        }
                        return Err(DisassembleError::Truncated);
                    }
                    proof {
                        assert(sub.subrange(n as int, sub.len() as int) =~= code.subrange(
                            pos + n,
                            code.len() as int,
                        ));
                        match decode_all(code.subrange(pos + n, code.len() as int)) {
                            Ok(rest) => {
                                assert(ops@.push(op) + rest =~= ops@ + (seq![op] + rest));
                            },
                            Err(e) => {},
                        }
                    }
                    ops.push(op);
                    pos = pos + n;
                },
                Err(e) => {
                    return Err(e);
                },
            }
        }
        proof {
            assert(code.subrange(pos as int, code.len() as int) =~= Seq::<u8>::empty());
            assert(ops@ + Seq::<Operation>::empty() =~= ops@);
        }
        Ok(ops)
    }
}

} // verus!
