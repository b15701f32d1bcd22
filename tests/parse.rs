use basm::instruction::Instruction;
use basm::parser::{parse, ParseError};

#[test]
fn parses_every_instruction() {
    let p = parse("INPUT\nPRINT\nWRITE 7\nMOVE -3\nMOVEVAL 2\nCOPY 1, -1\n").unwrap();
    assert_eq!(
        p,
        vec![
            Instruction::Input,
            Instruction::Print,
            Instruction::Write(7),
            Instruction::Move(-3),
            Instruction::MoveValue(2),
            Instruction::CopyValue(1, -1),
        ]
    );
}

#[test]
fn canonical_text_reads_back() {
    let cases = [
        ("INPUT", Instruction::Input),
        ("PRINT", Instruction::Print),
        ("WRITE 4294967295", Instruction::Write(4294967295)),
        ("MOVE -2147483648", Instruction::Move(i32::MIN)),
        ("MOVEVAL 2147483647", Instruction::MoveValue(i32::MAX)),
        ("COPY -3, 10", Instruction::CopyValue(-3, 10)),
    ];
    for (t, i) in cases {
        assert_eq!(parse(t), Ok(vec![i]), "{}", t);
    }
}

#[test]
fn character_literals() {
    assert_eq!(parse("WRITE 'A'"), Ok(vec![Instruction::Write(65)]));
    assert_eq!(parse("WRITE '\\n'"), Ok(vec![Instruction::Write(10)]));
    assert_eq!(parse("WRITE 'é'"), Ok(vec![Instruction::Write(233)]));
}

#[test]
fn unknown_escape_is_malformed() {
    assert_eq!(parse("WRITE '\\t'"), Err(ParseError::MalformedOperand(6)));
}

#[test]
fn malformed_operands() {
    assert_eq!(parse("WRITE x"), Err(ParseError::MalformedOperand(6)));
    assert_eq!(parse("WRITE 4294967296"), Err(ParseError::MalformedOperand(6)));
    assert_eq!(parse("MOVE 2147483648"), Err(ParseError::MalformedOperand(5)));
    assert_eq!(parse("MOVE -"), Err(ParseError::MalformedOperand(5)));
    assert_eq!(parse("COPY 1 2"), Err(ParseError::MalformedOperand(7)));
    assert_eq!(parse("WRITE 'ab"), Err(ParseError::MalformedOperand(6)));
}

#[test]
fn truncated_input() {
    assert_eq!(parse("MOVE"), Err(ParseError::TruncatedInput));
    assert_eq!(parse("WRITE   \n"), Err(ParseError::TruncatedInput));
    assert_eq!(parse("COPY 1,"), Err(ParseError::TruncatedInput));
    assert_eq!(parse("COPY 1"), Err(ParseError::TruncatedInput));
}

#[test]
fn unknown_words() {
    assert_eq!(parse("FOO"), Err(ParseError::UnknownMnemonic(0, 3)));
    assert_eq!(parse("  5"), Err(ParseError::UnknownMnemonic(2, 3)));
    assert_eq!(parse("PRINTINPUT"), Err(ParseError::UnknownMnemonic(0, 10)));
    assert_eq!(parse("write 1"), Err(ParseError::UnknownMnemonic(0, 5)));
}

#[test]
fn whitespace_and_signs() {
    assert_eq!(parse("  WRITE5"), Ok(vec![Instruction::Write(5)]));
    assert_eq!(parse("MOVE +3"), Ok(vec![Instruction::Move(3)]));
    assert_eq!(parse("COPY 1 ,\t-2"), Ok(vec![Instruction::CopyValue(1, -2)]));
    assert_eq!(parse("MOVE\n4"), Ok(vec![Instruction::Move(4)]));
    assert_eq!(parse(" \r\n\t "), Ok(vec![]));
}

#[test]
fn comments_are_left_out() {
    assert_eq!(parse("; first\nPRINT\n"), parse("PRINT\n"));
    assert_eq!(parse("PRINT ; after\nINPUT"), Ok(vec![Instruction::Print, Instruction::Input]));
    assert_eq!(parse(";\nPRINT"), Ok(vec![Instruction::Print]));
    assert_eq!(parse("; only a comment"), Ok(vec![]));
    assert_eq!(parse("; x\nFOO"), Err(ParseError::UnknownMnemonic(4, 7)));
}
