use emu::isa::{IsaError, Mneumonics, Operand, OperandInner, Operation, Register};
use emu::machine_code::DecodeError;

fn reg(r: Register) -> Operand {
    Operand::RValue(OperandInner::Register(r))
}

fn reg_star(r: Register) -> Operand {
    Operand::LValue(OperandInner::Register(r))
}

fn lit(v: u16) -> Operand {
    Operand::RValue(OperandInner::Literal(v))
}

fn lit_star(v: u16) -> Operand {
    Operand::LValue(OperandInner::Literal(v))
}

#[test]
fn registers_are_named_and_numbered() {
    assert_eq!(Register::try_from_str("r0"), Ok(Register::R0));
    assert_eq!(Register::try_from_str("ip"), Ok(Register::IP));
    assert_eq!(Register::try_from_str("it"), Ok(Register::IT));
    assert_eq!(Register::try_from_str("r9"), Err(IsaError::InvalidRegister));
    assert_eq!(Register::try_from_str("R0"), Err(IsaError::InvalidRegister));
    assert_eq!(Register::try_from_u16(8), Ok(Register::IT));
    assert_eq!(Register::try_from_u16(9), Err(IsaError::InvalidRegister));
    assert_eq!(Register::SP.index(), 7);
    assert_eq!(Register::ST.name(), "st");
    assert_eq!(Register::R3.to_string(), "r3");
}

#[test]
fn operands_parse_and_print() {
    assert_eq!(Operand::try_from_str("*$sp"), Ok(reg_star(Register::SP)));
    assert_eq!(Operand::try_from_str("$r1"), Ok(reg(Register::R1)));
    assert_eq!(Operand::try_from_str("42"), Ok(lit(42)));
    assert_eq!(Operand::try_from_str("*65535"), Ok(lit_star(65535)));
    assert_eq!(Operand::try_from_str(""), Err(IsaError::InvalidOperand));
    assert_eq!(Operand::try_from_str("*"), Err(IsaError::InvalidOperand));
    assert_eq!(Operand::try_from_str("$xx"), Err(IsaError::InvalidRegister));
    assert_eq!(Operand::try_from_str("65536"), Err(IsaError::InvalidOperand));
    assert_eq!(reg_star(Register::R1).to_string(), "*$r1");
    assert_eq!(lit(7).to_string(), "7");
    assert_eq!(lit_star(4660).to_string(), "*4660");
}

#[test]
fn operand_accessors() {
    let o = reg_star(Register::R2);
    assert_eq!(*o.inner(), OperandInner::Register(Register::R2));
    assert!(o.is_deref());
    assert!(o.is_reg());
    assert!(!o.is_immediate());
    assert!(lit(3).is_immediate());
    assert!(!lit_star(3).is_immediate());
    assert_eq!(o.value_bytes(), vec![2, 0]);
    assert_eq!(lit(0x1234).value_bytes(), vec![0x34, 0x12]);
    assert_eq!(Operand::__create(true, false, 4), reg(Register::IP));
    assert_eq!(Operand::__create(false, true, 9), lit_star(9));
}

#[test]
fn operations_parse() {
    assert_eq!(
        Operation::try_from_str("add $r0,5"),
        Ok(Operation::Add(reg(Register::R0), lit(5)))
    );
    assert_eq!(
        Operation::try_from_str("sub *$r1, *12"),
        Ok(Operation::Sub(reg_star(Register::R1), lit_star(12)))
    );
    assert_eq!(
        Operation::try_from_str("cmp $r0,$r1"),
        Ok(Operation::Cmp(reg(Register::R0), reg(Register::R1)))
    );
    assert_eq!(Operation::try_from_str("jmp 12"), Ok(Operation::Jmp(lit(12))));
    assert_eq!(Operation::try_from_str("foo 1,2"), Err(IsaError::InvalidOperation));
    assert_eq!(Operation::try_from_str("add"), Err(IsaError::InvalidOperation));
    assert_eq!(Operation::try_from_str("add $r0"), Err(IsaError::InvalidOperands));
    assert_eq!(Operation::try_from_str("mov $q,1"), Err(IsaError::InvalidRegister));
}

#[test]
fn operations_print_and_parse_back() {
    let ops = [
        Operation::Add(reg(Register::R0), lit_star(4660)),
        Operation::Mov(reg_star(Register::SP), reg(Register::IT)),
        Operation::Jmp(lit(0xF000)),
        Operation::Cmp(lit(1), lit(2)),
    ];
    assert_eq!(ops[0].to_string(), "add $r0,*4660");
    assert_eq!(Operation::End.to_string(), "end");
    assert_eq!(Operation::Psh(reg(Register::R1)).to_string(), "psh $r1");
    for op in ops {
        assert_eq!(Operation::try_from_str(&op.to_string()), Ok(op));
    }
}

#[test]
fn operations_compile() {
    let add = Operation::Add(reg(Register::R0), lit_star(0x1234));
    assert_eq!(add.mneumonic(), Mneumonics::Add);
    assert_eq!(add.metadata(), 6);
    assert_eq!(add.compile(), vec![0, 6, 0, 0, 0x34, 0x12]);
    assert_eq!(Operation::End.compile(), vec![9, 0]);
    assert_eq!(Operation::Jmp(reg_star(Register::IP)).compile(), vec![3, 3, 4, 0]);
}

#[test]
fn operations_consume() {
    let add = Operation::Add(reg(Register::R0), lit_star(0x1234));
    let mut bytes = add.compile();
    bytes.extend(Operation::End.compile());
    assert_eq!(Operation::consume(&bytes), Ok(Some((add, 6))));
    assert_eq!(Operation::consume(&bytes[6..]), Ok(Some((Operation::End, 2))));
    assert_eq!(Operation::consume(&[]), Ok(None));
    assert_eq!(Operation::consume(&[13, 0]), Err(DecodeError::InvalidMneumonic));
    assert_eq!(Operation::consume(&[0, 6, 0]), Err(DecodeError::Truncated));
    assert_eq!(Operation::consume(&[3, 2, 9, 0]), Err(DecodeError::InvalidRegister));
}

#[test]
fn mneumonics_are_numbered_in_order() {
    assert_eq!(Mneumonics::try_from_u8(0), Ok(Mneumonics::Add));
    assert_eq!(Mneumonics::try_from_u8(9), Ok(Mneumonics::End));
    assert_eq!(Mneumonics::try_from_u8(12), Ok(Mneumonics::Sys));
    assert_eq!(Mneumonics::try_from_u8(13), Err(DecodeError::InvalidMneumonic));
    assert_eq!(Mneumonics::try_from_str("psh"), Some(Mneumonics::Psh));
    assert_eq!(Mneumonics::try_from_str("nop"), None);
    assert_eq!(Mneumonics::Cmp.num_args(), 2);
    assert_eq!(Mneumonics::Ret.num_args(), 0);
    assert_eq!(Mneumonics::Jne.name(), "jne");
    assert_eq!(Mneumonics::Sys.index(), 12);
    assert_eq!(emu::isa::arg_counts(), vec![2, 2, 2, 1, 2, 1, 1, 1, 1, 0, 1, 0, 1]);
}
