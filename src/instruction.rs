//! The instructions of the register-machine language.
use vstd::prelude::*;

verus! {

/// A single instruction. Register operands are offsets from the current
/// register at the moment the instruction runs.
#[derive(Clone, Copy, Debug, PartialEq, Eq, Structural)]
pub enum Instruction {
    /// Read one input unit into the current register.
    Input,
    /// Emit the current register's value.
    Print,
    /// Clear the current register, then set it to the value.
    Write(u32),
    /// Shift the current-register pointer: right if positive, left if negative.
    Move(i32),
    /// Add the current register's value into the register at the offset and
    /// zero the current register; the pointer comes back.
    MoveValue(i32),
    /// Copy the current register's value into the register at the first
    /// offset, using the one at the second offset as scratch; the pointer
    /// comes back.
    CopyValue(i32, i32),
}

} // verus!
