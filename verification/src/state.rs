//! The phases of the game.
use vstd::prelude::*;

verus! {

/// The phase the game is in: loading its assets, showing the menu, or being played.
#[derive(Clone, Copy, Debug, PartialEq, Eq, Hash, Structural)]
pub enum GameState {
    Loading,
    Playing,
    Menu,
}

} // verus!
