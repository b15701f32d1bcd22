use basm::vm::{BfVm, VmAction};

/// Runs `code` on a fresh engine with no input, collecting what it writes.
fn run(code: &[u8]) -> (BfVm, Vec<u32>) {
    let mut vm = BfVm::new();
    let mut out = Vec::new();
    let mut pos = 0;
    let mut next = |vm: &BfVm, pos: &mut usize| -> Option<u8> {
        if let Some(b) = vm.retrieve_byte() {
            return Some(b);
        }
        let b = code.get(*pos).copied();
        *pos += 1;
        b
    };
    while let Some(b) = next(&vm, &mut pos) {
        match vm.step(b) {
            VmAction::Continue => {}
            VmAction::Output(v) => out.push(v),
            VmAction::Input => vm.cur_cell_mut(7),
            VmAction::SkipLoop => loop {
                match next(&vm, &mut pos) {
                    None | Some(b']') => break,
                    Some(_) => {}
                }
            },
        }
    }
    (vm, out)
}

#[test]
fn fresh_engine_has_zeroed_board() {
    let vm = BfVm::new();
    assert_eq!(vm.board.len(), 32);
    assert!(vm.board.iter().all(|c| *c == 0));
    assert_eq!(vm.cur_cell(), 0);
    assert_eq!(vm.retrieve_byte(), None);
}

#[test]
fn cells_saturate() {
    let (vm, _) = run(b"-");
    assert_eq!(vm.board[0], 0);
    let mut vm = BfVm::new();
    vm.cur_cell_mut(u32::MAX);
    assert_eq!(vm.step(b'+'), VmAction::Continue);
    assert_eq!(vm.cur_cell(), u32::MAX);
}

#[test]
fn pointer_stops_left_and_board_grows_right() {
    let (vm, _) = run(b"<<+");
    assert_eq!(vm.cur_cell_idx, 0);
    assert_eq!(vm.board[0], 1);
    let code = vec![b'>'; 40];
    let (vm, _) = run(&code);
    assert_eq!(vm.cur_cell_idx, 40);
    assert_eq!(vm.board.len(), 41);
}

#[test]
fn loops_transfer_values() {
    let (vm, out) = run(b"+++[>++<-]>.");
    assert_eq!(vm.board[0], 0);
    assert_eq!(vm.board[1], 6);
    assert_eq!(out, vec![6]);
    assert!(vm.jump_stack.is_empty());
    assert!(vm.buf.is_empty());
}

#[test]
fn zero_cell_skips_loop() {
    let (vm, out) = run(b"[+.]+.");
    assert_eq!(vm.board[0], 1);
    assert_eq!(out, vec![1]);
}

#[test]
fn input_and_output_actions() {
    let mut vm = BfVm::new();
    assert_eq!(vm.step(b','), VmAction::Input);
    vm.cur_cell_mut(65);
    assert_eq!(vm.step(b'.'), VmAction::Output(65));
    assert_eq!(vm.step(b'x'), VmAction::Continue);
}

#[test]
fn engine_runs_compiled_copy() {
    let code = basm::compile_source("WRITE 4\nCOPY 1, 2\n").unwrap();
    let (vm, _) = run(&code);
    assert_eq!(vm.cur_cell_idx, 0);
    assert_eq!(&vm.board[0..3], &[4, 4, 0]);
}
