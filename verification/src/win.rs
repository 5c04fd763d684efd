//! The state a finished session leaves behind.

use vstd::prelude::*;
use crate::main_game::MainGame;

verus! {

/// A level that was played to its end.
#[derive(Debug, Clone, Copy, PartialEq, Eq, Structural)]
pub struct Win {}

impl Win {
    /// Ends `main_game`.
    pub fn new(main_game: MainGame) -> (win: Self)
        ensures
            win == (Win {  }),
    {
        Self {  }
    }
}

} // verus!
