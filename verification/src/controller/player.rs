//! The interactive agent. Reading a keyboard is input-device work outside
//! this crate: the surrounding program reads key presses, maps the four
//! directional keys to moves and a quit key to the exit signal, and drives
//! the game itself.

use vstd::prelude::*;

verus! {

/// Marker for the keyboard-driven agent; the program embedding the game
/// supplies the actual input loop.
#[derive(Clone, Copy, Debug)]
pub struct PlayerController;

impl PlayerController {
    pub fn new() -> (c: Self) {
        Self
    }
}

} // verus!
