//! Keys as the editor receives them.
use crate::trie::TrieKey;
use vstd::prelude::*;

verus! {

/// A direction in which the cursor moves.
#[derive(Debug, PartialEq, Eq, Structural, Clone, Copy)]
pub enum CursorDirection {
    Up,
    Down,
    Left,
    Right,
}

/// One key press, decoded.
#[derive(Debug, PartialEq, Eq, Structural, Default, Clone, Copy)]
pub enum Input {
    #[default]
    Escape,
    Char(char),
    Arrow(CursorDirection),
    Enter,
    Backspace,
    PageUp,
    PageDown,
}

impl TrieKey for Input {
    fn same_key(&self, other: &Self) -> (r: bool) {
        *self == *other
    }
}

/// The byte that a key pressed together with Ctrl sends.
pub fn ctrl_key(x: u8) -> (r: u8)
    ensures
        r == x & 0x1f,
{
    x & 0x1f
}

} // verus!
