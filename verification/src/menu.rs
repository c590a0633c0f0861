//! What a menu interaction hands back to the session loop.

use vstd::prelude::*;

use crate::level::LevelSource;

verus! {

/// The outcome of a menu: play a level from some source, open another
/// menu, answer a question, pick a list item, or quit.
#[derive(Debug, Clone)]
pub enum Selection {
    Play(LevelSource),
    Repository,
    Help,
    Quit,
    Yes,
    No,
    Item(usize),
}

} // verus!
