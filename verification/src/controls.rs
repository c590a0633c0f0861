//! The closed command set the engine consumes, one command per tick.

use vstd::prelude::*;

verus! {

/// A command from the input collaborator. The engine reacts to the
/// four moves and `Action`; everything else is handled — or ignored —
/// by the session loop around it. `Noop` stands for input that maps
/// to no command.
#[derive(Clone, Copy, PartialEq, Eq, Structural, Debug)]
pub enum Control {
    Up,
    Down,
    Left,
    Right,
    Help,
    Quit,
    Action,
    Select,
    GotoTop,
    GotoBottom,
    Noop,
}

} // verus!
