use emu::bytecode::{DisassembleError, Disassembleable, MachineCode, ToMachineCode};
use emu::isa::{Operand, OperandInner, Operation, Register};

#[test]
fn registers_words_and_targets_assemble() {
    assert_eq!(*Register::R3.assemble().bytes(), vec![3]);
    assert_eq!(*0xBEEFu16.assemble().bytes(), vec![0xEF, 0xBE]);
    assert_eq!(*(&OperandInner::Literal(5)).assemble().bytes(), vec![5, 0]);
    assert_eq!(*(&OperandInner::Register(Register::IT)).assemble().bytes(), vec![8]);
}

#[test]
fn arithmetic_operations_assemble() {
    let add = Operation::Add(
        Operand::RValue(OperandInner::Register(Register::R1)),
        Operand::LValue(OperandInner::Literal(0x0102)),
    );
    assert_eq!(*add.assemble().bytes(), vec![0, 28, 0, 28, 1, 2, 1]);
    let mov = Operation::Mov(
        Operand::LValue(OperandInner::Register(Register::R0)),
        Operand::RValue(OperandInner::Literal(7)),
    );
    assert_eq!(*mov.assemble().bytes(), vec![2, 21, 2, 21, 0, 7, 0]);
    let sub = Operation::Sub(
        Operand::RValue(OperandInner::Literal(1)),
        Operand::RValue(OperandInner::Register(Register::R2)),
    );
    assert_eq!(*sub.assemble().bytes(), vec![1, 34, 1, 34, 1, 0, 2]);
}

#[test]
fn machine_code_concatenates() {
    let mut mc = MachineCode::new();
    assert_eq!(mc.len(), 0);
    mc.concat(Register::R1.assemble());
    mc.concat(MachineCode::from_bytes(vec![9, 8]));
    assert_eq!(*mc.bytes(), vec![1, 9, 8]);
    assert_eq!(MachineCode::default().len(), 0);
}

#[test]
fn disassembly_rejects_short_and_invalid_code() {
    let short: &[u8] = &[1];
    assert_eq!(short.try_disassemble(), Err(DisassembleError::Truncated));
    let empty: &[u8] = &[];
    assert_eq!(empty.try_disassemble(), Err(DisassembleError::Truncated));
    let invalid: &[u8] = &[3, 0, 0, 0];
    assert_eq!(invalid.try_disassemble(), Err(DisassembleError::InvalidInstruction));
    let invalid: &[u8] = &[0xFF, 0x12];
    assert_eq!(invalid.try_disassemble(), Err(DisassembleError::InvalidInstruction));
}

#[test]
fn disassembly_reads_back_assembled_operations() {
    let ops = vec![
        Operation::Add(
            Operand::RValue(OperandInner::Register(Register::R0)),
            Operand::RValue(OperandInner::Literal(0x1234)),
        ),
        Operation::Sub(
            Operand::LValue(OperandInner::Literal(0x0010)),
            Operand::LValue(OperandInner::Register(Register::SP)),
        ),
        Operation::Mov(
            Operand::LValue(OperandInner::Register(Register::R3)),
            Operand::RValue(OperandInner::Register(Register::IT)),
        ),
    ];
    let mut code = MachineCode::new();
    for op in ops.clone() {
        code.concat(op.assemble());
    }
    let bytes: &[u8] = code.bytes();
    assert_eq!(bytes.try_disassemble(), Ok(ops));
}

#[test]
fn disassembly_rejects_malformed_operations() {
    // An add of r0 and a literal, cut short.
    let short: &[u8] = &[0, 0x14, 0, 0x14, 0, 0x34];
    assert_eq!(short.try_disassemble(), Err(DisassembleError::Truncated));
    // The operation word is not repeated.
    let unrepeated: &[u8] = &[0, 0x14, 1, 0x14, 0, 0x34, 0x12];
    assert_eq!(unrepeated.try_disassemble(), Err(DisassembleError::InvalidInstruction));
    // A register byte that names no register.
    let bad_reg: &[u8] = &[2, 0x24, 2, 0x24, 9, 0];
    assert_eq!(bad_reg.try_disassemble(), Err(DisassembleError::InvalidInstruction));
    // An operand kind that is neither literal nor register.
    let bad_kind: &[u8] = &[0, 0x00, 0, 0x00, 0, 0, 0, 0];
    assert_eq!(bad_kind.try_disassemble(), Err(DisassembleError::InvalidInstruction));
    // add $r0, 0x1234 reads back.
    let ok: &[u8] = &[0, 0x14, 0, 0x14, 0, 0x34, 0x12];
    assert_eq!(
        ok.try_disassemble(),
        Ok(vec![Operation::Add(
            Operand::RValue(OperandInner::Register(Register::R0)),
            Operand::RValue(OperandInner::Literal(0x1234)),
        )])
    );
}
