//! The colours entities are drawn in.

use vstd::prelude::*;

verus! {

/// A colour of the game.
#[derive(Copy, Clone, Debug, PartialEq, Eq, Structural)]
pub enum Color {
    Green,
    White,
    Yellow,
    Cyan,
    Red,
}

} // verus!
