//! The state of a tape-machine engine that reads its program byte by byte and
//! keeps a look-back buffer of the bytes inside running loops, and its step
//! on one program byte. Cells are 32-bit and saturate; the pointer stops at
//! the first cell; the board grows to the right as needed.
use vstd::prelude::*;

use crate::tape::{CLOSE, DEC, IN, INC, LEFT, OPEN, OUT, RIGHT};

verus! {

/// Cells the board starts with.
pub const INITIAL_CELLS: usize = 32;

/// What the driver of the engine does after a step.
#[derive(Clone, Copy, Debug, PartialEq, Eq, Structural)]
pub enum VmAction {
    /// Go on with the next byte.
    Continue,
    /// Write this cell value out, then go on.
    Output(u32),
    /// Read one input byte into the current cell, then go on.
    Input,
    /// Skip program bytes up to the next `]`, then go on.
    SkipLoop,
}

pub struct BfVm {
    /// Positions in `buf` to jump back to, one per running loop.
    pub jump_stack: Vec<usize>,
    /// Program bytes seen since the outermost running loop opened.
    pub buf: Vec<u8>,
    /// The memory cells.
    pub board: Vec<u32>,
    /// The current cell.
    pub cur_cell_idx: usize,
    /// Position in `buf` of the next byte to run.
    pub cur_buf_idx: usize,
}

/// A mathematical picture of the engine's state.
pub struct VmState {
    pub jump_stack: Seq<usize>,
    pub buf: Seq<u8>,
    pub board: Seq<u32>,
    pub cur_cell_idx: int,
    pub cur_buf_idx: int,
}

pub open spec fn sat_inc(v: u32) -> u32 {
    if v == u32::MAX {
        v
    } else {
        (v + 1) as u32
    }
}

pub open spec fn sat_dec(v: u32) -> u32 {
    if v == 0 {
        v
    } else {
        (v - 1) as u32
    }
}

/// Records `b` in the look-back buffer while a loop runs.
pub open spec fn record(s: VmState, b: u8) -> VmState {
    if s.jump_stack.len() == 0 {
        s
    } else {
        VmState {
            buf: if s.cur_buf_idx >= s.buf.len() {
                s.buf.push(b)
            } else {
                s.buf
            },
            cur_buf_idx: s.cur_buf_idx + 1,
            ..s
        }
    }
}

/// The engine's state and action after the program byte `b`.
pub open spec fn step_spec(s: VmState, b: u8) -> (VmState, VmAction) {
    let cell = s.board[s.cur_cell_idx];
    if b == INC {
        (record(VmState { board: s.board.update(s.cur_cell_idx, sat_inc(cell)), ..s }, b), VmAction::Continue)
    } else if b == DEC {
        (record(VmState { board: s.board.update(s.cur_cell_idx, sat_dec(cell)), ..s }, b), VmAction::Continue)
    } else if b == RIGHT {
        let board = if s.cur_cell_idx + 1 == s.board.len() {
            s.board.push(0)
        } else {
            s.board
        };
        (record(VmState { board, cur_cell_idx: s.cur_cell_idx + 1, ..s }, b), VmAction::Continue)
    } else if b == LEFT {
        let i = if s.cur_cell_idx == 0 {
            0
        } else {
            s.cur_cell_idx - 1
        };
        (record(VmState { cur_cell_idx: i, ..s }, b), VmAction::Continue)
    } else if b == OUT {
        (record(s, b), VmAction::Output(cell))
    } else if b == IN {
        (record(s, b), VmAction::Input)
    } else if b == OPEN {
        if cell == 0 {
            (s, VmAction::SkipLoop)
        } else {
            (record(VmState { jump_stack: s.jump_stack.push(s.cur_buf_idx as usize), ..s }, b), VmAction::Continue)
        }
    } else if b == CLOSE {
        if s.jump_stack.len() == 0 {
            (s, VmAction::Continue)
        } else if cell == 0 {
            let popped = VmState { jump_stack: s.jump_stack.drop_last(), ..s };
            if popped.jump_stack.len() == 0 {
                (VmState { buf: Seq::empty(), cur_buf_idx: 0, ..popped }, VmAction::Continue)
            } else {
                (record(popped, b), VmAction::Continue)
            }
        } else {
            let n = s.jump_stack.last();
            (
                VmState {
                    jump_stack: s.jump_stack.drop_last(),
                    buf: if s.cur_buf_idx >= s.buf.len() {
                        s.buf.push(b)
                    } else {
                        s.buf
                    },
                    cur_buf_idx: n as int,
                    ..s
                },
                VmAction::Continue,
            )
        }
    } else {
        (record(s, b), VmAction::Continue)
    }
}

impl BfVm {
    pub open spec fn state(&self) -> VmState {
        VmState {
            jump_stack: self.jump_stack@,
            buf: self.buf@,
            board: self.board@,
            cur_cell_idx: self.cur_cell_idx as int,
            cur_buf_idx: self.cur_buf_idx as int,
        }
    }

    /// The current cell is on the board, the buffer position is within the
    /// buffer or just past it, and so is every position to jump back to.
    pub open spec fn wf(&self) -> bool {
        &&& self.cur_cell_idx < self.board@.len()
        &&& self.cur_buf_idx <= self.buf@.len()
        &&& forall|k: int| 0 <= k < self.jump_stack@.len() ==> #[trigger] self.jump_stack@[k] <= self.buf@.len()
    }

    /// A fresh engine: a zeroed board, the first cell current, no loop running.
    pub fn new() -> (r: BfVm)
        ensures
            r.wf(),
            r.board@ == Seq::new(INITIAL_CELLS as nat, |_i: int| 0u32),
            r.cur_cell_idx == 0,
            r.jump_stack@.len() == 0,
            r.buf@.len() == 0,
            r.cur_buf_idx == 0,
    {
        let mut board: Vec<u32> = Vec::new();
        let mut i: usize = 0;
        while i < INITIAL_CELLS
            invariant
                i <= INITIAL_CELLS,
                board@ == Seq::new(i as nat, |_i: int| 0u32),
            decreases INITIAL_CELLS - i,
        {
            board.push(0);
            i = i + 1;
            assert(board@ =~= Seq::new(i as nat, |_i: int| 0u32));
        }
        BfVm { jump_stack: Vec::new(), buf: Vec::new(), board, cur_cell_idx: 0, cur_buf_idx: 0 }
    }

    /// The current cell's value.
    pub fn cur_cell(&self) -> (r: u32)
        requires
            self.wf(),
        ensures
            r == self.board@[self.cur_cell_idx as int],
    {
        self.board[self.cur_cell_idx]
    }

    /// Stores `v` in the current cell; nothing else changes.
    pub fn cur_cell_mut(&mut self, v: u32)
        requires
            old(self).wf(),
        ensures
            final(self).wf(),
            final(self).state() == (VmState {
                board: old(self).board@.update(old(self).cur_cell_idx as int, v),
                ..old(self).state()
            }),
    {
        let i = self.cur_cell_idx;
        self.board.set(i, v);
    }

    /// The next program byte if it is in the look-back buffer; `None` means
    /// it is to be read from the program.
    pub fn retrieve_byte(&self) -> (r: Option<u8>)
        requires
            self.wf(),
        ensures
            r == (if self.cur_buf_idx < self.buf@.len() {
                Some(self.buf@[self.cur_buf_idx as int])
            } else {
                None::<u8>
            }),
    {
        if self.cur_buf_idx < self.buf.len() {
            Some(self.buf[self.cur_buf_idx])
        } else {
            None
        }
    }

    fn record(&mut self, b: u8)
        requires
            old(self).wf(),
        ensures
            final(self).wf(),
            final(self).state() == record(old(self).state(), b),
    {
        if self.jump_stack.len() > 0 {
            if self.cur_buf_idx >= self.buf.len() {
                self.buf.push(b);
            }
            let len = self.buf.len();
            assert(self.cur_buf_idx < len);
            self.cur_buf_idx = self.cur_buf_idx + 1;
        }
    }

    /// Runs the program byte `b`, and says what the driver does next.
    pub fn step(&mut self, b: u8) -> (r: VmAction)
        requires
            old(self).wf(),
        ensures
            final(self).wf(),
            (final(self).state(), r) == step_spec(old(self).state(), b),
    {
        let i = self.cur_cell_idx;
        let cell = self.board[i];
        if b == INC {
            self.board.set(i, if cell == u32::MAX { cell } else { cell + 1 });
            self.record(b);
            VmAction::Continue
        } else if b == DEC {
            self.board.set(i, if cell == 0 { cell } else { cell - 1 });
            self.record(b);
            VmAction::Continue
        } else if b == RIGHT {
            let len = self.board.len();
            if i + 1 == len {
                self.board.push(0);
            }
            self.cur_cell_idx = i + 1;
            self.record(b);
            VmAction::Continue
        } else if b == LEFT {
            self.cur_cell_idx = if i == 0 { 0 } else { i - 1 };
            self.record(b);
            VmAction::Continue
        } else if b == OUT {
            self.record(b);
            VmAction::Output(cell)
        } else if b == IN {
            self.record(b);
            VmAction::Input
        } else if b == OPEN {
            if cell == 0 {
                VmAction::SkipLoop
            } else {
                self.jump_stack.push(self.cur_buf_idx);
                self.record(b);
                VmAction::Continue
            }
        } else if b == CLOSE {
            if self.jump_stack.len() == 0 {
                VmAction::Continue
            } else if cell == 0 {
                self.jump_stack.pop();
                if self.jump_stack.len() == 0 {
                    self.buf.clear();
                    self.cur_buf_idx = 0;
                } else {
                    self.record(b);
                }
                VmAction::Continue
            } else {
                let n = self.jump_stack.pop().unwrap();
                if self.cur_buf_idx >= self.buf.len() {
                    self.buf.push(b);
                }
                self.cur_buf_idx = n;
                VmAction::Continue
            }
        } else {
            self.record(b);
            VmAction::Continue
        }
    }
}

} // verus!
