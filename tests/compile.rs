use std::collections::HashMap;

use basm::codegen::{compile, move_sign_of, write_instruction, write_move, write_move_val_loop, write_multiple};
use basm::compile_source;
use basm::instruction::Instruction;
use basm::parser::ParseError;

/// Runs tape-language code on a zeroed tape and gives the pointer and the
/// cells that were touched.
fn run_tape(code: &[u8]) -> (i64, HashMap<i64, u64>) {
    let mut jumps = HashMap::new();
    let mut open = Vec::new();
    for (i, b) in code.iter().enumerate() {
        if *b == b'[' {
            open.push(i);
        } else if *b == b']' {
            let o = open.pop().expect("unbalanced code");
            jumps.insert(o, i);
            jumps.insert(i, o);
        }
    }
    assert!(open.is_empty(), "unbalanced code");
    let mut cells: HashMap<i64, u64> = HashMap::new();
    let mut ptr: i64 = 0;
    let mut pc = 0;
    while pc < code.len() {
        let cell = cells.entry(ptr).or_insert(0);
        match code[pc] {
            b'>' => ptr += 1,
            b'<' => ptr -= 1,
            b'+' => *cell += 1,
            b'-' => *cell = cell.saturating_sub(1),
            b'[' => {
                if *cell == 0 {
                    pc = jumps[&pc];
                }
            }
            b']' => {
                if *cell != 0 {
                    pc = jumps[&pc];
                }
            }
            _ => {}
        }
        pc += 1;
    }
    (ptr, cells)
}

fn cell(cells: &HashMap<i64, u64>, i: i64) -> u64 {
    cells.get(&i).copied().unwrap_or(0)
}

fn text(code: Vec<u8>) -> String {
    String::from_utf8(code).unwrap()
}

#[test]
fn write_then_print_gives_two_fragments() {
    let code = compile_source("WRITE 5\nPRINT\n").unwrap();
    assert_eq!(text(code), "[-]+++++\n.\n");
}

#[test]
fn write_then_move_value_on_two_registers() {
    let code = compile_source("WRITE 3\nMOVEVAL 1\n").unwrap();
    let (ptr, cells) = run_tape(&code);
    assert_eq!(ptr, 0);
    assert_eq!(cell(&cells, 0), 0);
    assert_eq!(cell(&cells, 1), 3);
}

#[test]
fn write_then_copy_on_three_registers() {
    let code = compile_source("WRITE 4\nCOPY 1, 2\n").unwrap();
    let (ptr, cells) = run_tape(&code);
    assert_eq!(ptr, 0);
    assert_eq!(cell(&cells, 0), 4);
    assert_eq!(cell(&cells, 1), 4);
    assert_eq!(cell(&cells, 2), 0);
}

#[test]
fn empty_input_compiles_to_nothing() {
    let code = compile_source("").unwrap();
    assert!(code.is_empty());
}

#[test]
fn unknown_mnemonic_fails_without_output() {
    assert_eq!(compile_source("FOO"), Err(ParseError::UnknownMnemonic(0, 3)));
    assert_eq!(compile_source("WRITE 1\nFOO 2\n"), Err(ParseError::UnknownMnemonic(8, 11)));
}

#[test]
fn write_sets_register_whatever_it_held() {
    let code = compile_source("WRITE 9\nWRITE 2\n").unwrap();
    let (ptr, cells) = run_tape(&code);
    assert_eq!(ptr, 0);
    assert_eq!(cell(&cells, 0), 2);
    let code = compile_source("WRITE 0\n").unwrap();
    assert_eq!(text(code), "[-]\n");
}

#[test]
fn move_and_move_back_returns_pointer() {
    let code = compile_source("MOVE 3\nMOVE -3\n").unwrap();
    assert_eq!(text(code.clone()), ">>>\n<<<\n");
    let (ptr, _) = run_tape(&code);
    assert_eq!(ptr, 0);
    let code = compile_source("MOVE 0\n").unwrap();
    assert_eq!(text(code), "\n");
}

#[test]
fn move_value_fragments() {
    assert_eq!(text(compile_source("MOVEVAL 1").unwrap()), ">[-]<[->+<]\n");
    assert_eq!(text(compile_source("MOVEVAL -2").unwrap()), "<<[-]>>[-<<+>>]\n");
}

#[test]
fn move_value_clears_destination_first() {
    let code = compile_source("MOVE 2\nWRITE 7\nMOVE -2\nWRITE 3\nMOVEVAL 2\n").unwrap();
    let (ptr, cells) = run_tape(&code);
    assert_eq!(ptr, 0);
    assert_eq!(cell(&cells, 0), 0);
    assert_eq!(cell(&cells, 2), 3);
}

#[test]
fn copy_fragment() {
    assert_eq!(
        text(compile_source("COPY 1, 2").unwrap()),
        ">[-]>[-]<<[->+>+<<]>>[-<<+>>]<<\n"
    );
}

#[test]
fn copy_keeps_source_with_dirty_registers() {
    let code =
        compile_source("MOVE -1\nWRITE 5\nMOVE 3\nWRITE 8\nMOVE -2\nWRITE 6\nCOPY -1, 2\n").unwrap();
    let (ptr, cells) = run_tape(&code);
    assert_eq!(ptr, 0);
    assert_eq!(cell(&cells, 0), 6);
    assert_eq!(cell(&cells, -1), 6);
    assert_eq!(cell(&cells, 2), 0);
}

#[test]
fn input_and_print_are_single_primitives() {
    let code = compile(&[Instruction::Input, Instruction::Print]);
    assert_eq!(text(code), ",\n.\n");
}

#[test]
fn comment_line_compiles_like_nothing() {
    assert_eq!(
        compile_source("; set it up\nWRITE 2\n"),
        compile_source("WRITE 2\n")
    );
}

#[test]
fn helpers_emit_exact_bytes() {
    assert_eq!(move_sign_of(0), b'>');
    assert_eq!(move_sign_of(-4), b'<');
    let mut out = Vec::new();
    write_multiple(&mut out, b'+', 3);
    write_move(&mut out, -2);
    write_move(&mut out, 0);
    write_move(&mut out, 1);
    assert_eq!(text(out), "+++<<>");
    let mut out = vec![b'x'];
    write_move_val_loop(&mut out, 2, b'<', b'>');
    assert_eq!(text(out), "x[-<<+>>]");
    let mut out = Vec::new();
    write_instruction(&mut out, &Instruction::Write(2));
    assert_eq!(text(out), "[-]++");
}
