//! Instructions of the tape machine.

use vstd::prelude::*;

verus! {

/// Where cursors move: along the tape, or across to a neighbouring timeline.
#[derive(Clone, Copy, Debug, PartialEq, Eq, Structural)]
pub enum MoveDirection {
    Left,
    Right,
    Up,
    Down,
}

/// How a cell under a cursor changes.
#[derive(Clone, Copy, Debug, PartialEq, Eq, Structural)]
pub enum UpdateType {
    Increment,
    Decrement,
}

/// The condition under which a jump is taken.
#[derive(Clone, Copy, Debug, PartialEq, Eq, Structural)]
pub enum JumpType {
    IfZero,
    IfNotZero,
}

/// One instruction.
#[derive(Clone, Copy, Debug, PartialEq, Eq, Structural)]
pub enum Token {
    /// Move every cursor one cell, or hand all cursors to a neighbouring timeline.
    Move(MoveDirection),
    /// Add or subtract one under every cursor.
    Update(UpdateType),
    /// Emit the cell under every cursor.
    Write,
    /// Store one input character under every cursor.
    Read,
    /// Undo the latest recorded change.
    Rewind,
    /// Continue at `index` if the condition holds.
    Jump { type_: JumpType, index: usize },
    /// Wait until the timeline below has no cursors.
    Await,
    /// End this timeline.
    Kill,
    /// Fork this timeline; the forking timeline continues at `index`, its copy at the next
    /// instruction.
    Spawn { index: usize },
}

} // verus!
