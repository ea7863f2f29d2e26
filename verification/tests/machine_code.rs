use emu::isa::Mneumonics;
use emu::machine_code::{compile, consume_raw, instruction_len, metadata, DecodeError, RawOperand};

// An instruction set of three operations laid out in machine code: `Foo`
// with no operand, `Add` and `Sub` with two.
#[derive(PartialEq, Debug)]
enum Operation {
    Foo,
    Add(Operand, Operand),
    Sub(Operand, Operand),
}

#[derive(Debug, PartialEq, Clone, Copy)]
struct Operand {
    deref: bool,
    reg: bool,
    val: u16,
}

const ARG_COUNTS: [usize; 3] = [0, 2, 2];

fn raw(o: &Operand) -> RawOperand {
    RawOperand { deref: o.deref, reg: o.reg, val: o.val }
}

fn from_raw(o: &RawOperand) -> Operand {
    Operand { deref: o.deref, reg: o.reg, val: o.val }
}

impl Operation {
    fn compile(&self) -> Vec<u8> {
        match self {
            Operation::Foo => compile(0, &[]),
            Operation::Add(a, b) => compile(1, &[raw(a), raw(b)]),
            Operation::Sub(a, b) => compile(2, &[raw(a), raw(b)]),
        }
    }

    fn consume(bytes: &[u8]) -> Result<Option<(Operation, usize)>, DecodeError> {
        match consume_raw(bytes, &ARG_COUNTS)? {
            None => Ok(None),
            Some(ins) => {
                let len = instruction_len(ins.operands.len());
                let op = match ins.mneumonic {
                    0 => Operation::Foo,
                    1 => Operation::Add(from_raw(&ins.operands[0]), from_raw(&ins.operands[1])),
                    _ => Operation::Sub(from_raw(&ins.operands[0]), from_raw(&ins.operands[1])),
                };
                Ok(Some((op, len)))
            }
        }
    }
}

#[test]
fn test_compile() {
    assert_eq!(Operation::Foo.compile(), vec![0, 0]);
    assert_eq!(
        Operation::Add(
            Operand {
                deref: false,
                reg: true,
                val: 64,
            },
            Operand {
                deref: true,
                reg: false,
                val: 0x1337,
            }
        )
        .compile(),
        vec![1, 6, 64, 0, 0x37, 0x13]
    );

    assert_eq!(
        Operation::Sub(
            Operand {
                deref: true,
                reg: true,
                val: 64,
            },
            Operand {
                deref: true,
                reg: false,
                val: 0x1337,
            }
        )
        .compile(),
        vec![2, 7, 64, 0, 0x37, 0x13]
    );
}

#[test]
fn test_consume() {
    let bytes: [u8; 12] = [1, 6, 64, 0, 0x37, 0x13, 2, 7, 64, 0, 0x37, 0x13];
    let mut pos = 0;

    let (first, n) = Operation::consume(&bytes[pos..]).unwrap().unwrap();
    pos += n;
    assert_eq!(
        first,
        Operation::Add(
            Operand {
                deref: false,
                reg: true,
                val: 64
            },
            Operand {
                deref: true,
                reg: false,
                val: 0x1337
            }
        )
    );

    let (second, _) = Operation::consume(&bytes[pos..]).unwrap().unwrap();
    assert_eq!(
        second,
        Operation::Sub(
            Operand {
                deref: true,
                reg: true,
                val: 64,
            },
            Operand {
                deref: true,
                reg: false,
                val: 0x1337,
            }
        )
    );
}

#[test]
fn test_num_bytes() {
    assert_eq!(instruction_len(ARG_COUNTS[0]), 2);
}

#[test]
fn consume_of_empty_stream_is_none() {
    assert_eq!(Operation::consume(&[]), Ok(None));
}

#[test]
fn consume_rejects_unknown_mneumonic() {
    assert_eq!(Operation::consume(&[3, 0]), Err(DecodeError::InvalidMneumonic));
}

#[test]
fn consume_rejects_truncated_instruction() {
    assert_eq!(Operation::consume(&[1, 6, 64, 0, 0x37]), Err(DecodeError::Truncated));
}

#[test]
fn metadata_packs_two_bits_per_operand() {
    let ops = [
        RawOperand { deref: true, reg: false, val: 0 },
        RawOperand { deref: false, reg: true, val: 0 },
        RawOperand { deref: true, reg: true, val: 0 },
        RawOperand { deref: false, reg: false, val: 0 },
    ];
    assert_eq!(metadata(&ops), 0b00_11_10_01);
}

#[test]
fn instruction_len_counts_two_bytes_per_operand() {
    assert_eq!(instruction_len(0), 2);
    assert_eq!(instruction_len(1), 4);
    assert_eq!(instruction_len(4), 10);
    assert_eq!(Mneumonics::Add.num_bytes(), 6);
    assert_eq!(Mneumonics::End.num_bytes(), 2);
}

#[test]
fn compile_then_consume_gives_the_operation_back() {
    let op = Operation::Sub(
        Operand { deref: false, reg: false, val: 0xBEEF },
        Operand { deref: true, reg: true, val: 3 },
    );
    let mut bytes = op.compile();
    bytes.extend_from_slice(&[9, 9, 9]);
    let (back, n) = Operation::consume(&bytes).unwrap().unwrap();
    assert_eq!(back, op);
    assert_eq!(n, 6);
}
