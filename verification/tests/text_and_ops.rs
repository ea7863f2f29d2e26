use emu::ops::{Operand, OperandInner, Operation, OpsError};
use emu::text::{decimal_string, find, hex4_string, is_whitespace, parse_u16, split_once_char, str_eq, trim_str};

#[test]
fn numbers_parse_as_u16_does() {
    assert_eq!(parse_u16("0"), Some(0));
    assert_eq!(parse_u16("+12"), Some(12));
    assert_eq!(parse_u16("65535"), Some(65535));
    assert_eq!(parse_u16("65536"), None);
    assert_eq!(parse_u16(""), None);
    assert_eq!(parse_u16("+"), None);
    assert_eq!(parse_u16("-1"), None);
    assert_eq!(parse_u16("1a"), None);
}

#[test]
fn numbers_print() {
    assert_eq!(decimal_string(0), "0");
    assert_eq!(decimal_string(4660), "4660");
    assert_eq!(hex4_string(0xBEEF), "0xBEEF");
    assert_eq!(hex4_string(0x00a), "0x000A");
}

#[test]
fn strings_split_and_trim() {
    assert_eq!(split_once_char("add $r0,1", ' '), Some(("add", "$r0,1")));
    assert_eq!(split_once_char("end", ' '), None);
    assert_eq!(trim_str(" \t a b \n"), "a b");
    assert_eq!(find("a,b", ','), Some(1));
    assert_eq!(find("ab", ','), None);
    assert!(str_eq("abc", "abc"));
    assert!(!str_eq("abc", "abd"));
    assert!(is_whitespace('\u{3000}'));
    assert!(is_whitespace('\u{85}'));
    assert!(!is_whitespace('x'));
}

#[test]
fn arithmetic_operands_parse_and_print() {
    let o = Operand::try_from_str("*$3").unwrap();
    assert_eq!(o, Operand { ty: OperandInner::Register, word: 3, deref: true });
    assert_eq!(o.to_string(), "*$3");
    assert!(o.can_store());
    assert!(Operand { ty: OperandInner::Register, word: 1, deref: false }.can_store());
    assert!(!Operand { ty: OperandInner::Literal, word: 1, deref: false }.can_store());
    assert_eq!(Operand::try_from_str("12").unwrap().to_string(), "12");
    assert_eq!(Operand::try_from_str("$"), Err(OpsError::InvalidOperand));
    assert_eq!(Operand::try_from_str(""), Err(OpsError::InvalidOperand));
}

#[test]
fn arithmetic_operations_parse_and_print() {
    let op = Operation::try_from_str("sub 1,2").unwrap();
    assert_eq!(
        op,
        Operation::Sub(
            Operand { ty: OperandInner::Literal, word: 1, deref: false },
            Operand { ty: OperandInner::Literal, word: 2, deref: false },
        )
    );
    assert_eq!(op.to_string(), "sub 1,2");
    assert_eq!(Operation::try_from_str("mov *5 $1").unwrap().to_string(), "mov *5,$1");
    assert_eq!(Operation::try_from_str("add 1"), Err(OpsError::InvalidOperands));
    assert_eq!(Operation::try_from_str("nop 1,2"), Err(OpsError::InvalidOperation));
    assert_eq!(Operation::try_from_str("add"), Err(OpsError::InvalidOperation));
}
