use emu::isa::{Operand, OperandInner, Operation, Register};
use emu::lexer::{tokenize, tokenize_checked, LexError, Token};
use emu::parser::{parse, parse_checked};

fn s(x: &str) -> String {
    x.to_string()
}

#[test]
fn tokenize_an_instruction_line() {
    let tokens = tokenize(s("add $r0, 5\n")).unwrap();
    assert_eq!(
        tokens,
        vec![
            Token::Mneumonic(s("add")),
            Token::Register(s("r0")),
            Token::Comma,
            Token::Immediate(s("5")),
        ]
    );
}

#[test]
fn tokenize_labels_comments_and_dereferences() {
    let tokens = tokenize(s("start:\n// loop\nmov *$r1,\tend_2\n")).unwrap();
    assert_eq!(
        tokens,
        vec![
            Token::LabelDecl(s("start")),
            Token::Comment(s(" loop")),
            Token::Mneumonic(s("mov")),
            Token::Deref,
            Token::Register(s("r1")),
            Token::Comma,
            Token::LabelInvoc(s("end_2")),
        ]
    );
}

#[test]
fn tokenize_errors() {
    assert_eq!(tokenize(s("/x")), Err(LexError::SingleSlash));
    assert_eq!(tokenize(s("/")), Err(LexError::UnexpectedEnd));
    assert_eq!(tokenize(s("add #1")), Err(LexError::UnexpectedChar('#')));
}

#[test]
fn tokenize_checked_reports_a_line_that_cannot_be_read() {
    // A line that starts with a space never moves the lexer forward.
    assert_eq!(tokenize_checked("  add 1"), None);
    assert_eq!(tokenize_checked("add 1"), Some(Ok(vec![Token::Mneumonic(s("add")), Token::Immediate(s("1"))])));
    assert_eq!(tokenize_checked(""), Some(Ok(vec![])));
}

#[test]
fn parse_resolves_labels_to_addresses() {
    let tokens = tokenize(s("start:\nadd $r0, 5\njmp start\n")).unwrap();
    let ops = parse(tokens);
    assert_eq!(
        ops,
        vec![
            Operation::Add(
                Operand::RValue(OperandInner::Register(Register::R0)),
                Operand::RValue(OperandInner::Literal(5))
            ),
            Operation::Jmp(Operand::RValue(OperandInner::Literal(0xF000))),
        ]
    );
}

#[test]
fn parse_places_labels_after_earlier_instructions() {
    let tokens = tokenize(s("mov $r1, *4\nloop:\nsub $r1, 1\njmp *loop\n")).unwrap();
    let ops = parse_checked(&tokens).unwrap();
    assert_eq!(
        ops,
        vec![
            Operation::Mov(
                Operand::RValue(OperandInner::Register(Register::R1)),
                Operand::LValue(OperandInner::Literal(4))
            ),
            Operation::Sub(
                Operand::RValue(OperandInner::Register(Register::R1)),
                Operand::RValue(OperandInner::Literal(1))
            ),
            Operation::Jmp(Operand::LValue(OperandInner::Literal(0xF006))),
        ]
    );
}

#[test]
fn parse_checked_refuses_bad_token_streams() {
    assert_eq!(parse_checked(&vec![Token::Comma]), None);
    assert_eq!(parse_checked(&vec![Token::Mneumonic(s("foo")), Token::Immediate(s("1"))]), None);
    assert_eq!(parse_checked(&vec![Token::Mneumonic(s("jmp")), Token::LabelInvoc(s("nowhere"))]), None);
    assert_eq!(parse_checked(&vec![]), None);
}

#[test]
fn labels_mark_the_code_that_follows() {
    let tokens = tokenize(s("mov $r1, *4\ncmp $r1, 0\nloop:\nsub $r1, 1\njmp loop\n")).unwrap();
    let ops = parse(tokens);
    let before: usize = ops[..2].iter().map(|op| op.compile().len()).sum();
    assert_eq!(before, 12);
    assert_eq!(ops[3], Operation::Jmp(Operand::RValue(OperandInner::Literal(0xF000 + before as u16))));
}

#[test]
fn a_spinlock_jumps_to_the_start_of_program_memory() {
    let ops = parse(tokenize(s("SPINLOCK:\njmp SPINLOCK")).unwrap());
    assert_eq!(ops, vec![Operation::Jmp(Operand::RValue(OperandInner::Literal(0xF000)))]);
}

#[test]
fn a_spinlock_after_an_add_sits_six_bytes_in() {
    let ops = parse(tokenize(s("add $r0,1\nSPINLOCK:\njmp SPINLOCK")).unwrap());
    assert_eq!(ops[1], Operation::Jmp(Operand::RValue(OperandInner::Literal(0xF006))));
}

#[test]
fn parse_checked_wants_exactly_the_operands_a_mneumonic_takes() {
    let too_many = tokenize(s("jmp 1, 2\n")).unwrap();
    assert_eq!(parse_checked(&too_many), None);
    let too_few = tokenize(s("add $r0\n")).unwrap();
    assert_eq!(parse_checked(&too_few), None);
    let none = tokenize(s("ret\nend\n")).unwrap();
    assert_eq!(parse_checked(&none), Some(vec![Operation::Ret, Operation::End]));
}
