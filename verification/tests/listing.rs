use emu::isa::{IsaError, Operand, OperandInner, Operation, Register};
use emu::listing::{assemble_bytecode_listing, assemble_listing, disassemble, is_code_line, read_listing};
use emu::machine_code::DecodeError;
use emu::ops;

fn lines(xs: &[&str]) -> Vec<String> {
    xs.iter().map(|x| x.to_string()).collect()
}

#[test]
fn code_lines() {
    assert!(is_code_line("add $r0,1"));
    assert!(is_code_line("/ not a comment"));
    assert!(!is_code_line(""));
    assert!(!is_code_line("// comment"));
}

#[test]
fn listing_assembles_to_machine_code() {
    let code = assemble_listing(&lines(&["// program", "", "add $r0,5", "jmp 4"])).unwrap();
    assert_eq!(code, vec![0, 2, 0, 0, 5, 0, 3, 0, 4, 0]);
    assert_eq!(assemble_listing(&lines(&["add $r0,5", "end"])), Err(IsaError::InvalidOperation));
    assert_eq!(assemble_listing(&lines(&[])), Ok(vec![]));
}

#[test]
fn listing_assembles_to_bytecode() {
    let code = assemble_bytecode_listing(&lines(&["mov $r0,7", "// done"])).unwrap();
    assert_eq!(*code.bytes(), vec![2, 20, 2, 20, 0, 7, 0]);
    assert_eq!(
        assemble_bytecode_listing(&lines(&["mov $r0,7", "jmp 4"])).err(),
        Some(IsaError::InvalidOperation)
    );
    assert_eq!(assemble_bytecode_listing(&lines(&["mov $r0"])).err(), Some(IsaError::InvalidOperands));
}

#[test]
fn listing_of_the_arithmetic_set_is_read() {
    let ops = read_listing(&lines(&["add $1 2", "// x", "mov *5,$0"])).unwrap();
    assert_eq!(
        ops,
        vec![
            ops::Operation::Add(
                ops::Operand { ty: ops::OperandInner::Register, word: 1, deref: false },
                ops::Operand { ty: ops::OperandInner::Literal, word: 2, deref: false },
            ),
            ops::Operation::Mov(
                ops::Operand { ty: ops::OperandInner::Literal, word: 5, deref: true },
                ops::Operand { ty: ops::OperandInner::Register, word: 0, deref: false },
            ),
        ]
    );
    assert_eq!(read_listing(&lines(&["jmp 1"])), Err(ops::OpsError::InvalidOperation));
}

#[test]
fn machine_code_disassembles() {
    let add = Operation::Add(
        Operand::RValue(OperandInner::Register(Register::R0)),
        Operand::RValue(OperandInner::Literal(5)),
    );
    let jmp = Operation::Jmp(Operand::RValue(OperandInner::Literal(4)));
    let code = assemble_listing(&lines(&["add $r0,5", "jmp 4"])).unwrap();
    assert_eq!(disassemble(&code), (vec![add, jmp], None));
    let mut broken = code.clone();
    broken.push(0);
    assert_eq!(disassemble(&broken), (vec![add, jmp], Some(DecodeError::Truncated)));
    assert_eq!(disassemble(&[]), (vec![], None));
}

#[test]
fn text_of_a_program_round_trips_through_machine_code() {
    let program = vec![
        Operation::Mov(
            Operand::LValue(OperandInner::Register(Register::R2)),
            Operand::RValue(OperandInner::Literal(513)),
        ),
        Operation::Cmp(
            Operand::RValue(OperandInner::Register(Register::R2)),
            Operand::LValue(OperandInner::Literal(0)),
        ),
        Operation::Jmp(Operand::RValue(OperandInner::Register(Register::IP))),
    ];
    let text: Vec<String> = program.iter().map(|op| op.to_string()).collect();
    let code = assemble_listing(&text).unwrap();
    assert_eq!(disassemble(&code), (program, None));
}
