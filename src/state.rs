//! State of the staged move picker used by the full-width search.
use vstd::prelude::*;

verus! {

/// Phase of the move picker: the hash move, the two killer moves, the
/// generation of all moves, then the remaining generated moves.
#[derive(PartialEq, Eq, Structural, Clone, Copy, Debug)]
pub enum Status {
    Hash,
    KillerFirst,
    KillerSecond,
    GenMoves,
    REST,
}

/// Number of phases still ahead of `p`, itself included.
pub open spec fn phases_left(p: Status) -> int {
    match p {
        Status::Hash => 4,
        Status::KillerFirst => 3,
        Status::KillerSecond => 2,
        Status::GenMoves => 1,
        Status::REST => 0,
    }
}

pub struct MoveState {
    pub mvs: Vec<isize>,
    pub vls: Vec<isize>,
    pub index: usize,
    pub hash: isize,
    pub killer_first: isize,
    pub killer_second: isize,
    pub phase: Status,
    /// Set when, in check, exactly one move escapes.
    pub signle: bool,
}

impl MoveState {
    /// A picker that starts with the hash move `hash`.
    pub fn new(hash: isize) -> (r: MoveState)
        ensures
            r.mvs@.len() == 0,
            r.vls@.len() == 0,
            r.index == 0,
            r.hash == hash,
            r.killer_first == 0,
            r.killer_second == 0,
            r.phase == Status::Hash,
            !r.signle,
    {
        MoveState {
            mvs: Vec::new(),
            vls: Vec::new(),
            index: 0,
            hash,
            killer_first: 0,
            killer_second: 0,
            phase: Status::Hash,
            signle: false,
        }
    }
}

} // verus!
