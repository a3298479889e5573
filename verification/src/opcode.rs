use vstd::prelude::*;

verus! {

/// The canonical instruction set shared by all three surface dialects.
///
/// Every translator produces a sequence of these; any other symbol in the
/// source text is discarded, not an error.
#[derive(Clone, Copy, Debug, PartialEq, Eq, Structural)]
pub enum Opcode {
    /// Move the data cursor one cell to the right (`>`).
    MoveRight,
    /// Move the data cursor one cell to the left (`<`).
    MoveLeft,
    /// Increment the current cell, wrapping at 255 (`+`).
    Increment,
    /// Decrement the current cell, wrapping at 0 (`-`).
    Decrement,
    /// Append the current cell, read as one character, to the output (`.`).
    Output,
    /// Read one byte into the current cell (`,`); unsupported in batch mode.
    Input,
    /// Loop guard: jump forward past the matching close when the cell is 0 (`[`).
    LoopOpen,
    /// Loop back-edge: jump back to the matching open when the cell is not 0 (`]`).
    LoopClose,
}

} // verus!
