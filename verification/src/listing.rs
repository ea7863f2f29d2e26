//! Assembly listings, one operation per line, and the programs built from
//! them; and the listing of a program read back from its machine code.
//!
//! In a listing, empty lines and lines starting with `//` are not code.

use vstd::prelude::*;

use crate::bytecode::{MachineCode, ToMachineCode};
use crate::isa::{lemma_consume_compile, lemma_parse_operation_text, spec_consume, Operation};
use crate::machine_code::DecodeError;
use crate::isa::IsaError;
use crate::ops::OpsError;

verus! {

/// Whether a line of a listing holds code: it is not empty and does not
/// start with `//`.
pub open spec fn is_code(line: Seq<char>) -> bool {
    !(line.len() == 0 || (line.len() >= 2 && line[0] == '/' && line[1] == '/'))
}

/// The text of each line.
pub open spec fn texts(lines: Seq<String>) -> Seq<Seq<char>> {
    lines.map_values(|s: String| s@)
}

/// Whether a line of a listing holds code.
pub fn is_code_line(line: &str) -> (b: bool)
    ensures
        b == is_code(line@),
{
    let n = line.unicode_len();
    if n == 0 {
        return false;
    }
    if n >= 2 && line.get_char(0) == '/' && line.get_char(1) == '/' {
        return false;
    }
    true
}

/// The machine code of a listing: the code of each of its operations, in
/// order; the first line that does not parse gives the error.
pub open spec fn listing_code(lines: Seq<Seq<char>>) -> Result<Seq<u8>, IsaError>
    decreases lines.len(),
{
    if lines.len() == 0 {
        Ok(Seq::empty())
    } else {
        match listing_code(lines.drop_last()) {
            Err(e) => Err(e),
            Ok(bytes) => if !is_code(lines.last()) {
                Ok(bytes)
            } else {
                match crate::isa::spec_parse_operation(lines.last()) {
                    Err(e) => Err(e),
                    Ok(op) => Ok(bytes + op.spec_compile()),
                }
            },
        }
    }
}

/// Assembles a listing into machine code.
pub fn assemble_listing(lines: &Vec<String>) -> (r: Result<Vec<u8>, IsaError>)
    ensures
        match r {
            Ok(v) => listing_code(texts(lines@)) == Ok::<Seq<u8>, IsaError>(v@),
            Err(e) => listing_code(texts(lines@)) == Err::<Seq<u8>, IsaError>(e),
        },
{
    let ghost t = texts(lines@);
    let mut out: Vec<u8> = Vec::new();
    let mut i: usize = 0;
    while i < lines.len()
        invariant
            i <= lines@.len(),
            t == texts(lines@),
            listing_code(t.take(i as int)) == Ok::<Seq<u8>, IsaError>(out@),
        decreases lines@.len() - i,
    {
        assert(t.take(i + 1).drop_last() =~= t.take(i as int));
        assert(t.take(i + 1).last() == lines@[i as int]@);
        let line = lines[i].as_str();
        if is_code_line(line) {
            match Operation::try_from_str(line) {
                Err(e) => {
                    proof {
                        lemma_listing_error_stays(t, i as int + 1, e);
                    }
                    return Err(e);
                },
                Ok(op) => {
                    let mut code = op.compile();
                    out.append(&mut code);
                },
            }
        }
        i = i + 1;
    }
    assert(t.take(lines@.len() as int) =~= t);
    Ok(out)
}

/// Once a prefix of a listing fails, the whole listing fails the same way.
pub proof fn lemma_listing_error_stays(lines: Seq<Seq<char>>, n: int, e: IsaError)
    requires
        0 <= n <= lines.len(),
        listing_code(lines.take(n)) == Err::<Seq<u8>, IsaError>(e),
    ensures
        listing_code(lines) == Err::<Seq<u8>, IsaError>(e),
    decreases lines.len() - n,
{
    if n < lines.len() {
        assert(lines.take(n + 1).drop_last() =~= lines.take(n));
        lemma_listing_error_stays(lines, n + 1, e);
    } else {
        assert(lines.take(n) =~= lines);
    }
}

/// The bytecode of a listing of `add`, `sub` and `mov` operations, in order;
/// the first line that does not parse, or that holds another operation,
/// gives the error.
pub open spec fn listing_bytecode(lines: Seq<Seq<char>>) -> Result<Seq<u8>, IsaError>
    decreases lines.len(),
{
    if lines.len() == 0 {
        Ok(Seq::empty())
    } else {
        match listing_bytecode(lines.drop_last()) {
            Err(e) => Err(e),
            Ok(bytes) => if !is_code(lines.last()) {
                Ok(bytes)
            } else {
                match crate::isa::spec_parse_operation(lines.last()) {
                    Err(e) => Err(e),
                    Ok(op) => if op.can_assemble() {
                        Ok(bytes + op.assembled())
                    } else {
                        Err(IsaError::InvalidOperation)
                    },
                }
            },
        }
    }
}

/// Once a prefix of a listing fails, the whole listing fails the same way.
pub proof fn lemma_bytecode_error_stays(lines: Seq<Seq<char>>, n: int, e: IsaError)
    requires
        0 <= n <= lines.len(),
        listing_bytecode(lines.take(n)) == Err::<Seq<u8>, IsaError>(e),
    ensures
        listing_bytecode(lines) == Err::<Seq<u8>, IsaError>(e),
    decreases lines.len() - n,
{
    if n < lines.len() {
        assert(lines.take(n + 1).drop_last() =~= lines.take(n));
        lemma_bytecode_error_stays(lines, n + 1, e);
    } else {
        assert(lines.take(n) =~= lines);
    }
}

/// Assembles a listing of `add`, `sub` and `mov` operations into bytecode.
pub fn assemble_bytecode_listing(lines: &Vec<String>) -> (r: Result<MachineCode, IsaError>)
    ensures
        match r {
            Ok(mc) => listing_bytecode(texts(lines@)) == Ok::<Seq<u8>, IsaError>(mc@),
            Err(e) => listing_bytecode(texts(lines@)) == Err::<Seq<u8>, IsaError>(e),
        },
{
    let ghost t = texts(lines@);
    let mut assembled = MachineCode::new();
    let mut i: usize = 0;
    while i < lines.len()
        invariant
            i <= lines@.len(),
            t == texts(lines@),
            listing_bytecode(t.take(i as int)) == Ok::<Seq<u8>, IsaError>(assembled@),
        decreases lines@.len() - i,
    {
        assert(t.take(i + 1).drop_last() =~= t.take(i as int));
        assert(t.take(i + 1).last() == lines@[i as int]@);
        let line = lines[i].as_str();
        if is_code_line(line) {
            match Operation::try_from_str(line) {
                Err(e) => {
                    proof {
                        lemma_bytecode_error_stays(t, i as int + 1, e);
                    }
                    return Err(e);
                },
                Ok(op) => {
                    let arith = match op {
                        Operation::Add(..) | Operation::Sub(..) | Operation::Mov(..) => true,
                        _ => false,
                    };
                    if !arith {
                        proof {
                            lemma_bytecode_error_stays(t, i as int + 1, IsaError::InvalidOperation);
                        }
                        return Err(IsaError::InvalidOperation);
                    }
                    assembled.concat(op.assemble());
                },
            }
        }
        i = i + 1;
    }
    assert(t.take(lines@.len() as int) =~= t);
    Ok(assembled)
}

/// The operations of a listing of the arithmetic instruction set, in order;
/// the first line that does not parse gives the error.
pub open spec fn listing_ops(lines: Seq<Seq<char>>) -> Result<Seq<crate::ops::Operation>, OpsError>
    decreases lines.len(),
{
    if lines.len() == 0 {
        Ok(Seq::empty())
    } else {
        match listing_ops(lines.drop_last()) {
            Err(e) => Err(e),
            Ok(ops) => if !is_code(lines.last()) {
                Ok(ops)
            } else {
                match crate::ops::spec_parse_operation(lines.last()) {
                    Err(e) => Err(e),
                    Ok(op) => Ok(ops.push(op)),
                }
            },
        }
    }
}

/// Once a prefix of a listing fails, the whole listing fails the same way.
pub proof fn lemma_ops_error_stays(lines: Seq<Seq<char>>, n: int, e: OpsError)
    requires
        0 <= n <= lines.len(),
        listing_ops(lines.take(n)) == Err::<Seq<crate::ops::Operation>, OpsError>(e),
    ensures
        listing_ops(lines) == Err::<Seq<crate::ops::Operation>, OpsError>(e),
    decreases lines.len() - n,
{
    if n < lines.len() {
        assert(lines.take(n + 1).drop_last() =~= lines.take(n));
        lemma_ops_error_stays(lines, n + 1, e);
    } else {
        assert(lines.take(n) =~= lines);
    }
}

/// Reads the operations of a listing of the arithmetic instruction set.
pub fn read_listing(lines: &Vec<String>) -> (r: Result<Vec<crate::ops::Operation>, OpsError>)
    ensures
        match r {
            Ok(v) => listing_ops(texts(lines@)) == Ok::<Seq<crate::ops::Operation>, OpsError>(v@),
            Err(e) => listing_ops(texts(lines@)) == Err::<Seq<crate::ops::Operation>, OpsError>(e),
        },
{
    let ghost t = texts(lines@);
    let mut out: Vec<crate::ops::Operation> = Vec::new();
    let mut i: usize = 0;
    while i < lines.len()
        invariant
            i <= lines@.len(),
            t == texts(lines@),
            listing_ops(t.take(i as int)) == Ok::<Seq<crate::ops::Operation>, OpsError>(out@),
        decreases lines@.len() - i,
    {
        assert(t.take(i + 1).drop_last() =~= t.take(i as int));
        assert(t.take(i + 1).last() == lines@[i as int]@);
        let line = lines[i].as_str();
        if is_code_line(line) {
            match crate::ops::Operation::try_from_str(line) {
                Err(e) => {
                    proof {
                        lemma_ops_error_stays(t, i as int + 1, e);
                    }
                    return Err(e);
                },
                Ok(op) => {
                    out.push(op);
                },
            }
        }
        i = i + 1;
    }
    assert(t.take(lines@.len() as int) =~= t);
    Ok(out)
}

/// The operations that machine code decodes to, one after the other from its
/// start, and the error that stops the decoding, if one does.
pub open spec fn disassembly(bytes: Seq<u8>) -> (Seq<Operation>, Option<DecodeError>)
    decreases bytes.len(),
{
    match spec_consume(bytes) {
        Err(e) => (Seq::empty(), Some(e)),
        Ok(None) => (Seq::empty(), None),
        Ok(Some((op, n))) => if 0 < n <= bytes.len() {
            let rest = disassembly(bytes.skip(n));
            (seq![op] + rest.0, rest.1)
        } else {
            (Seq::empty(), None)
        },
    }
}

/// The machine code of a program: the code of each of its operations, one
/// after the other.
pub open spec fn program_code(ops: Seq<Operation>) -> Seq<u8>
    decreases ops.len(),
{
    if ops.len() == 0 {
        Seq::empty()
    } else {
        ops[0].spec_compile() + program_code(ops.drop_first())
    }
}

/// Decoding the machine code of a program gives back the program, with no
/// error.
pub proof fn lemma_disassemble_program(ops: Seq<Operation>)
    ensures
        disassembly(program_code(ops)) == (ops, None::<DecodeError>),
    decreases ops.len(),
{
    if ops.len() == 0 {
        assert(disassembly(program_code(ops)).0 =~= ops);
    } else {
        let code = ops[0].spec_compile();
        let rest = program_code(ops.drop_first());
        lemma_consume_compile(ops[0], rest);
        lemma_disassemble_program(ops.drop_first());
        assert((code + rest).skip(code.len() as int) =~= rest);
        assert(seq![ops[0]] + ops.drop_first() =~= ops);
    }
}

/// The machine code of a program with one more operation at its end.
pub proof fn lemma_program_code_push(ops: Seq<Operation>, op: Operation)
    ensures
        program_code(ops.push(op)) == program_code(ops) + op.spec_compile(),
    decreases ops.len(),
{
    if ops.len() == 0 {
        assert(ops.push(op).drop_first() =~= Seq::<Operation>::empty());
        assert(program_code(ops.push(op).drop_first()) =~= Seq::<u8>::empty());
        assert(ops.push(op)[0] == op);
        assert(program_code(ops) =~= Seq::<u8>::empty());
        assert(program_code(ops.push(op)) =~= op.spec_compile());
    } else {
        lemma_program_code_push(ops.drop_first(), op);
        assert(ops.push(op).drop_first() =~= ops.drop_first().push(op));
        assert(program_code(ops.push(op)) =~= program_code(ops) + op.spec_compile());
    }
}

/// The text of an operation is a line of code.
pub proof fn lemma_text_is_code(op: Operation)
    ensures
        is_code(op.spec_text()),
{
    let name = op.spec_mneumonic().spec_name();
    assert(name.len() == 3 && name[0] != '/');
    assert(op.spec_text()[0] == name[0]);
}

/// Writing a program of `add`, `sub`, `mov`, `cmp` and `jmp` operations as a
/// listing, one operation's text per line, then assembling the listing gives
/// the machine code of the program; and decoding that machine code gives the
/// program back.
pub proof fn lemma_listing_round_trip(ops: Seq<Operation>)
    requires
        forall|i: int|
            0 <= i < ops.len() ==> (#[trigger] ops[i] is Add) || ops[i] is Sub || ops[i] is Mov
                || ops[i] is Cmp || ops[i] is Jmp,
    ensures
        listing_code(ops.map_values(|op: Operation| op.spec_text())) == Ok::<Seq<u8>, IsaError>(
            program_code(ops),
        ),
        disassembly(program_code(ops)) == (ops, None::<DecodeError>),
    decreases ops.len(),
{
    let lines = ops.map_values(|op: Operation| op.spec_text());
    if ops.len() == 0 {
        assert(program_code(ops) =~= Seq::<u8>::empty());
    } else {
        let init = ops.drop_last();
        let last = ops.last();
        assert forall|i: int| 0 <= i < init.len() implies (#[trigger] init[i] is Add) || init[i] is Sub
            || init[i] is Mov || init[i] is Cmp || init[i] is Jmp by {
            assert(init[i] == ops[i]);
        }
        lemma_listing_round_trip(init);
        assert(lines.drop_last() =~= init.map_values(|op: Operation| op.spec_text()));
        assert(ops[ops.len() - 1] is Add || last is Sub || last is Mov || last is Cmp || last is Jmp);
        lemma_parse_operation_text(last);
        lemma_text_is_code(last);
        lemma_program_code_push(init, last);
        assert(init.push(last) =~= ops);
    }
    lemma_disassemble_program(ops);
}

/// Decodes machine code into operations, up to its end or to the first
/// error.
pub fn disassemble(bytes: &[u8]) -> (r: (Vec<Operation>, Option<DecodeError>))
    ensures
        (r.0@, r.1) == disassembly(bytes@),
{
    let mut ops: Vec<Operation> = Vec::new();
    let mut pos: usize = 0;
    assert(bytes@.skip(0) =~= bytes@);
    assert(ops@ + disassembly(bytes@).0 =~= disassembly(bytes@).0);
    while pos <= bytes.len()
        invariant
            pos <= bytes@.len(),
            (ops@ + disassembly(bytes@.skip(pos as int)).0, disassembly(bytes@.skip(pos as int)).1)
                == disassembly(bytes@),
        decreases bytes@.len() - pos,
    {
        let ghost rest = bytes@.skip(pos as int);
        let tail = slice_from(bytes, pos);
        match Operation::consume(tail) {
            Err(e) => {
                assert(ops@ + Seq::<Operation>::empty() =~= ops@);
                return (ops, Some(e));
            },
            Ok(None) => {
                assert(ops@ + Seq::<Operation>::empty() =~= ops@);
                return (ops, None);
            },
            Ok(Some((op, n))) => {
                proof {
                    crate::machine_code::lemma_decode_len(rest, crate::isa::spec_arg_counts());
                    assert(rest.skip(n as int) =~= bytes@.skip(pos + n));
                    assert(ops@.push(op) + disassembly(rest.skip(n as int)).0 =~= ops@ + (seq![op]
                        + disassembly(rest.skip(n as int)).0));
                }
                ops.push(op);
                pos = pos + n;
            },
        }
    }
    (ops, None)
}

/// The bytes of `bytes` from `start` on.
fn slice_from(bytes: &[u8], start: usize) -> (r: &[u8])
    requires
        start <= bytes@.len(),
    ensures
        r@ == bytes@.skip(start as int),
{
    let (_, rest) = bytes.split_at(start);
    assert(rest@ =~= bytes@.skip(start as int));
    rest
}

} // verus!
