//! The machine-code layout shared by every instruction set of the machine.
//!
//! An instruction is one mneumonic byte, one metadata byte, then two
//! little-endian bytes per operand (at most four operands). The metadata byte
//! holds two bits per operand: bit 0 of the pair says the operand is
//! dereferenced, bit 1 says it names a register.

use vstd::prelude::*;

verus! {

/// The most operands an instruction may carry.
pub const MAX_OPERANDS: usize = 4;

/// An operand as it is laid out in machine code.
#[derive(Clone, Copy, Debug, PartialEq, Eq, Structural)]
pub struct RawOperand {
    pub deref: bool,
    pub reg: bool,
    pub val: u16,
}

/// A decoded instruction before it is given a meaning by an instruction set.
#[derive(Debug)]
pub struct RawInstruction {
    pub mneumonic: u8,
    pub operands: Vec<RawOperand>,
}

/// Why a byte stream does not hold an instruction.
#[derive(Clone, Copy, Debug, PartialEq, Eq, Structural)]
pub enum DecodeError {
    /// The mneumonic byte names no instruction.
    InvalidMneumonic,
    /// The stream ends inside the instruction.
    Truncated,
    /// An operand marked as a register names no register of the instruction set.
    InvalidRegister,
}

/// The two metadata bits that describe one operand.
pub open spec fn arg_spec_bits(o: RawOperand) -> u8 {
    ((if o.deref { 1int } else { 0int }) + (if o.reg { 2int } else { 0int })) as u8
}

/// The metadata bits of the `i`-th operand, zero where there is none.
pub open spec fn field(ops: Seq<RawOperand>, i: int) -> u8 {
    if 0 <= i < ops.len() {
        arg_spec_bits(ops[i])
    } else {
        0
    }
}

/// Four 2-bit fields packed into a byte, the first in the lowest bits.
pub open spec fn pack(a: u8, b: u8, c: u8, d: u8) -> u8 {
    a | (b << 2u8) | (c << 4u8) | (d << 6u8)
}

/// The `i`-th 2-bit field of a metadata byte.
pub open spec fn field_of(meta: u8, i: int) -> u8 {
    if i == 0 {
        meta & 3
    } else if i == 1 {
        (meta >> 2u8) & 3
    } else if i == 2 {
        (meta >> 4u8) & 3
    } else {
        (meta >> 6u8) & 3
    }
}

/// The metadata byte of an operand list.
pub open spec fn metadata_byte(ops: Seq<RawOperand>) -> u8 {
    pack(field(ops, 0), field(ops, 1), field(ops, 2), field(ops, 3))
}

/// The little-endian bytes of a word.
pub open spec fn word_bytes(v: u16) -> Seq<u8> {
    seq![(v & 0xff) as u8, (v >> 8u16) as u8]
}

/// The word whose little-endian bytes are `lo`, `hi`.
pub open spec fn word_from_bytes(lo: u8, hi: u8) -> u16 {
    (lo as u16) | ((hi as u16) << 8u16)
}

/// The operand bytes of an instruction, two per operand.
pub open spec fn operand_bytes(ops: Seq<RawOperand>) -> Seq<u8>
    decreases ops.len(),
{
    if ops.len() == 0 {
        seq![]
    } else {
        operand_bytes(ops.drop_last()) + word_bytes(ops.last().val)
    }
}

/// The machine code of an instruction.
pub open spec fn encode(mneumonic: u8, ops: Seq<RawOperand>) -> Seq<u8> {
    seq![mneumonic, metadata_byte(ops)] + operand_bytes(ops)
}

/// The length in bytes of an instruction with `n` operands.
pub open spec fn spec_instruction_len(n: int) -> int {
    2 + 2 * n
}

/// The `i`-th operand of an instruction whose metadata byte is `meta` and
/// whose operand bytes are `lo`, `hi`.
pub open spec fn decode_operand(meta: u8, i: int, lo: u8, hi: u8) -> RawOperand {
    RawOperand {
        deref: field_of(meta, i) & 1 == 1,
        reg: field_of(meta, i) & 2 == 2,
        val: word_from_bytes(lo, hi),
    }
}

/// What the front of a byte stream decodes to, given the operand count of
/// each mneumonic: nothing at the end of the stream, or the mneumonic and its
/// operands.
pub open spec fn decode(bytes: Seq<u8>, arg_counts: Seq<usize>) -> Result<
    Option<(u8, Seq<RawOperand>)>,
    DecodeError,
> {
    if bytes.len() == 0 {
        Ok(None)
    } else if bytes[0] as int >= arg_counts.len() {
        Err(DecodeError::InvalidMneumonic)
    } else {
        let n = arg_counts[bytes[0] as int] as int;
        if bytes.len() < spec_instruction_len(n) {
            Err(DecodeError::Truncated)
        } else {
            Ok(
                Some(
                    (
                        bytes[0],
                        Seq::new(
                            n as nat,
                            |i: int| decode_operand(bytes[1], i, bytes[2 + 2 * i], bytes[3 + 2 * i]),
                        ),
                    ),
                ),
            )
        }
    }
}

/// The view of a decoding result.
pub open spec fn decoded_view(r: Result<Option<RawInstruction>, DecodeError>) -> Result<
    Option<(u8, Seq<RawOperand>)>,
    DecodeError,
> {
    match r {
        Ok(Some(ins)) => Ok(Some((ins.mneumonic, ins.operands@))),
        Ok(None) => Ok(None),
        Err(e) => Err(e),
    }
}

/// Every operand count is at most four.
pub open spec fn counts_wf(arg_counts: Seq<usize>) -> bool {
    forall|i: int| 0 <= i < arg_counts.len() ==> #[trigger] arg_counts[i] <= MAX_OPERANDS
}

proof fn lemma_pack_fields(a: u8, b: u8, c: u8, d: u8)
    requires
        a < 4,
        b < 4,
        c < 4,
        d < 4,
    ensures
        field_of(pack(a, b, c, d), 0) == a,
        field_of(pack(a, b, c, d), 1) == b,
        field_of(pack(a, b, c, d), 2) == c,
        field_of(pack(a, b, c, d), 3) == d,
{
    assert((a | (b << 2u8) | (c << 4u8) | (d << 6u8)) & 3 == a) by (bit_vector)
        requires
            a < 4,
            b < 4,
            c < 4,
            d < 4,
    ;
    assert(((a | (b << 2u8) | (c << 4u8) | (d << 6u8)) >> 2u8) & 3 == b) by (bit_vector)
        requires
            a < 4,
            b < 4,
            c < 4,
            d < 4,
    ;
    assert(((a | (b << 2u8) | (c << 4u8) | (d << 6u8)) >> 4u8) & 3 == c) by (bit_vector)
        requires
            a < 4,
            b < 4,
            c < 4,
            d < 4,
    ;
    assert(((a | (b << 2u8) | (c << 4u8) | (d << 6u8)) >> 6u8) & 3 == d) by (bit_vector)
        requires
            a < 4,
            b < 4,
            c < 4,
            d < 4,
    ;
}

proof fn lemma_arg_bits(o: RawOperand)
    ensures
        arg_spec_bits(o) < 4,
        (arg_spec_bits(o) & 1 == 1) == o.deref,
        (arg_spec_bits(o) & 2 == 2) == o.reg,
{
    assert(0u8 & 1 == 0 && 0u8 & 2 == 0) by (bit_vector);
    assert(1u8 & 1 == 1 && 1u8 & 2 == 0) by (bit_vector);
    assert(2u8 & 1 == 0 && 2u8 & 2 == 2) by (bit_vector);
    assert(3u8 & 1 == 1 && 3u8 & 2 == 2) by (bit_vector);
}

/// A word is rebuilt from its two little-endian bytes.
pub proof fn lemma_word_bytes(v: u16)
    ensures
        word_from_bytes((v & 0xff) as u8, (v >> 8u16) as u8) == v,
{
    assert(((((v & 0xff) as u8) as u16) | ((((v >> 8u16) as u8) as u16) << 8u16)) == v)
        by (bit_vector);
}

proof fn lemma_operand_bytes(ops: Seq<RawOperand>)
    ensures
        operand_bytes(ops).len() == 2 * ops.len(),
        forall|i: int|
            0 <= i < ops.len() ==> operand_bytes(ops)[2 * i] == (ops[i].val & 0xff) as u8
                && operand_bytes(ops)[2 * i + 1] == (ops[i].val >> 8u16) as u8,
    decreases ops.len(),
{
    if ops.len() > 0 {
        let init = ops.drop_last();
        lemma_operand_bytes(init);
        let b = operand_bytes(ops);
        assert(b == operand_bytes(init) + word_bytes(ops.last().val));
        assert forall|i: int| 0 <= i < ops.len() implies b[2 * i] == (ops[i].val & 0xff) as u8
            && b[2 * i + 1] == (ops[i].val >> 8u16) as u8 by {
            if i < init.len() {
                assert(init[i] == ops[i]);
            }
        }
    }
}

/// An instruction's machine code is two bytes plus two per operand.
pub proof fn lemma_encode_len(mneumonic: u8, ops: Seq<RawOperand>)
    ensures
        encode(mneumonic, ops).len() == spec_instruction_len(ops.len() as int),
{
    lemma_operand_bytes(ops);
}

/// Decoding the machine code of an instruction, followed by any bytes, gives
/// back the instruction's mneumonic and operands.
pub proof fn lemma_decode_encode(
    mneumonic: u8,
    ops: Seq<RawOperand>,
    rest: Seq<u8>,
    arg_counts: Seq<usize>,
)
    requires
        (mneumonic as int) < arg_counts.len(),
        arg_counts[mneumonic as int] as int == ops.len(),
        ops.len() <= MAX_OPERANDS,
    ensures
        decode(encode(mneumonic, ops) + rest, arg_counts) == Ok::<
            Option<(u8, Seq<RawOperand>)>,
            DecodeError,
        >(Some((mneumonic, ops))),
{
    let bytes = encode(mneumonic, ops) + rest;
    lemma_operand_bytes(ops);
    let meta = metadata_byte(ops);
    assert forall|i: int| 0 <= i < 4 implies field(ops, i) < 4 by {
        if 0 <= i < ops.len() {
            lemma_arg_bits(ops[i]);
        }
    }
    lemma_pack_fields(field(ops, 0), field(ops, 1), field(ops, 2), field(ops, 3));
    let n = ops.len();
    let decoded = Seq::new(
        n as nat,
        |i: int| decode_operand(bytes[1], i, bytes[2 + 2 * i], bytes[3 + 2 * i]),
    );
    assert forall|i: int| 0 <= i < n implies decoded[i] == ops[i] by {
        lemma_arg_bits(ops[i]);
        lemma_word_bytes(ops[i].val);
        assert(bytes[2 + 2 * i] == operand_bytes(ops)[2 * i]);
        assert(bytes[3 + 2 * i] == operand_bytes(ops)[2 * i + 1]);
        assert(field_of(meta, i) == field(ops, i));
    }
    assert(decoded =~= ops);
}

/// A decoded instruction's length is at most the stream's.
pub proof fn lemma_decode_len(bytes: Seq<u8>, arg_counts: Seq<usize>)
    ensures
        decode(bytes, arg_counts) matches Ok(Some((m, ops))) ==> spec_instruction_len(
            ops.len() as int,
        ) <= bytes.len(),
{
}

/// The length in bytes of an instruction with `num_args` operands.
pub fn instruction_len(num_args: usize) -> (len: usize)
    requires
        num_args <= MAX_OPERANDS,
    ensures
        len as int == spec_instruction_len(num_args as int),
{
    2 + 2 * num_args
}

fn arg_bits(o: &RawOperand) -> (b: u8)
    ensures
        b == arg_spec_bits(*o),
{
    let d: u8 = if o.deref {
        1
    } else {
        0
    };
    let r: u8 = if o.reg {
        2
    } else {
        0
    };
    d + r
}

fn field_at(ops: &[RawOperand], i: usize) -> (b: u8)
    ensures
        b == field(ops@, i as int),
{
    if i < ops.len() {
        arg_bits(&ops[i])
    } else {
        0
    }
}

/// The metadata byte describing the operands.
pub fn metadata(ops: &[RawOperand]) -> (meta: u8)
    requires
        ops@.len() <= MAX_OPERANDS,
    ensures
        meta == metadata_byte(ops@),
{
    let a = field_at(ops, 0);
    let b = field_at(ops, 1);
    let c = field_at(ops, 2);
    let d = field_at(ops, 3);
    a | (b << 2u8) | (c << 4u8) | (d << 6u8)
}

/// The machine code of the instruction with the given mneumonic byte and
/// operands.
pub fn compile(mneumonic: u8, ops: &[RawOperand]) -> (bytes: Vec<u8>)
    requires
        ops@.len() <= MAX_OPERANDS,
    ensures
        bytes@ == encode(mneumonic, ops@),
{
    let mut bytes: Vec<u8> = Vec::new();
    bytes.push(mneumonic);
    bytes.push(metadata(ops));
    let mut i: usize = 0;
    while i < ops.len()
        invariant
            i <= ops@.len(),
            bytes@ == seq![mneumonic, metadata_byte(ops@)] + operand_bytes(ops@.take(i as int)),
        decreases ops@.len() - i,
    {
        let v = ops[i].val;
        bytes.push((v & 0xff) as u8);
        bytes.push((v >> 8u16) as u8);
        assert(ops@.take(i + 1).drop_last() =~= ops@.take(i as int));
        i = i + 1;
    }
    assert(ops@.take(ops@.len() as int) =~= ops@);
    bytes
}

/// Decodes the instruction at the front of `bytes`, given the operand count
/// of each mneumonic byte: `Ok(None)` when `bytes` is empty.
pub fn consume_raw(bytes: &[u8], arg_counts: &[usize]) -> (r: Result<
    Option<RawInstruction>,
    DecodeError,
>)
    requires
        counts_wf(arg_counts@),
    ensures
        decoded_view(r) == decode(bytes@, arg_counts@),
{
    if bytes.len() == 0 {
        return Ok(None);
    }
    let mneumonic = bytes[0];
    if mneumonic as usize >= arg_counts.len() {
        return Err(DecodeError::InvalidMneumonic);
    }
    let n = arg_counts[mneumonic as usize];
    if bytes.len() < instruction_len(n) {
        return Err(DecodeError::Truncated);
    }
    let meta = bytes[1];
    let mut operands: Vec<RawOperand> = Vec::new();
    let mut i: usize = 0;
    while i < n
        invariant
            n <= MAX_OPERANDS,
            bytes@.len() >= spec_instruction_len(n as int),
            i <= n,
            meta == bytes@[1],
            operands@.len() == i,
            forall|j: int|
                0 <= j < i ==> operands@[j] == decode_operand(
                    meta,
                    j,
                    bytes@[2 + 2 * j],
                    bytes@[3 + 2 * j],
                ),
        decreases n - i,
    {
        let f: u8 = if i == 0 {
            meta & 3
        } else if i == 1 {
            (meta >> 2u8) & 3
        } else if i == 2 {
            (meta >> 4u8) & 3
        } else {
            (meta >> 6u8) & 3
        };
        let lo = bytes[2 + 2 * i];
        let hi = bytes[3 + 2 * i];
        let val: u16 = (lo as u16) | ((hi as u16) << 8u16);
        operands.push(RawOperand { deref: f & 1 == 1, reg: f & 2 == 2, val });
        i = i + 1;
    }
    let ghost expected = Seq::new(
        n as nat,
        |j: int| decode_operand(bytes@[1], j, bytes@[2 + 2 * j], bytes@[3 + 2 * j]),
    );
    assert(operands@ =~= expected);
    Ok(Some(RawInstruction { mneumonic, operands }))
}

} // verus!
