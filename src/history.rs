//! Entries of the board's move stack.
use vstd::prelude::*;

verus! {

/// One entry of the move stack: the move, the Zobrist key of the position
/// before it, the piece it captured (0 for none) and whether it gave check.
#[derive(PartialEq, Eq, Structural, Clone, Copy, Debug)]
pub struct Moved {
    pub mv: isize,
    pub zobrist_key: i32,
    pub capture_piece: isize,
    pub checked: bool,
}

impl Moved {
    /// The irreversible sentinel at the bottom of the stack.
    pub fn from_irrev(checked: bool) -> (r: Moved)
        ensures
            r == (Moved { mv: 0, zobrist_key: 0, capture_piece: 0, checked }),
    {
        Moved { mv: 0, capture_piece: 0, zobrist_key: 0, checked }
    }

    /// The entry of a null move made from a position with key `zobrist_key`.
    pub fn from_null(zobrist_key: i32) -> (r: Moved)
        ensures
            r == (Moved { mv: 0, zobrist_key, capture_piece: 0, checked: false }),
    {
        Moved { mv: 0, capture_piece: 0, zobrist_key, checked: false }
    }

    pub fn new(mv: isize, zobrist_key: i32, capture_piece: isize, checked: bool) -> (r: Moved)
        ensures
            r == (Moved { mv, zobrist_key, capture_piece, checked }),
    {
        Moved { mv, zobrist_key, capture_piece, checked }
    }
}

} // verus!
