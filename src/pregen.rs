//! Constants of the game and of the search, and the board geometry: which
//! squares are on the board or in a fort, which steps each role may take.
use vstd::prelude::*;
use crate::util::{file_of, rank_of};

verus! {

pub const LIMIT_DEPTH: usize = 64;
pub const NULL_DEPTH: isize = 2;
pub const RANDOMNESS: isize = 8;
pub const HASH_ALPHA: isize = 1;
pub const HASH_BETA: isize = 2;
pub const HASH_PV: isize = 3;

pub const MATE_VALUE: isize = 10000;
pub const BAN_VALUE: isize = MATE_VALUE - 100;
pub const WIN_VALUE: isize = MATE_VALUE - 200;

pub const NULL_SAFE_MARGIN: isize = 400;
pub const NULL_OKAY_MARGIN: isize = 200;

pub const DRAW_VALUE: isize = 20;
pub const ADVANCED_VALUE: isize = 3;

pub const RANK_TOP: isize = 3;
pub const RANK_BOTTOM: isize = 12;
pub const FILE_LEFT: isize = 3;
pub const FILE_RIGHT: isize = 11;

pub const PIECE_KING: isize = 0;
pub const PIECE_ADVISOR: isize = 1;
pub const PIECE_BISHOP: isize = 2;
pub const PIECE_KNIGHT: isize = 3;
pub const PIECE_ROOK: isize = 4;
pub const PIECE_CANNON: isize = 5;
pub const PIECE_PAWN: isize = 6;

/// Size of the history table: one slot per (piece code - 8, destination).
pub const LIMIT_HISTORY: usize = 4096;

/// Outcome of a game.
#[derive(PartialEq, Eq, Structural, Clone, Copy, Debug)]
pub enum Winner {
    Red,
    Black,
    Draw,
}

/// Whether `add_piece` places or removes a piece.
#[derive(PartialEq, Eq, Structural, Clone, Copy, Debug)]
pub enum PieceAction {
    ADD,
    DEL,
}

/// Squares of the 9x10 board inside the 16x16 superboard.
pub open spec fn on_board(sq: int) -> bool {
    0 <= sq < 256 && 3 <= file_of(sq) <= 11 && 3 <= rank_of(sq) <= 12
}

/// Squares of the two forts (palaces).
pub open spec fn on_fort(sq: int) -> bool {
    0 <= sq < 256 && 6 <= file_of(sq) <= 8 && ((3 <= rank_of(sq) <= 5) || (10 <= rank_of(sq)
        <= 12))
}

/// Whether a square lies in the bottom (red) half of the board.
pub open spec fn lower_half(sq: int) -> bool {
    sq >= 128
}

/// Whether a square is on side `sd`'s own half.
pub open spec fn home_half_of(sq: int, sd: int) -> bool {
    if sd == 0 {
        lower_half(sq)
    } else {
        !lower_half(sq)
    }
}

pub open spec fn king_step(d: int) -> bool {
    d == -16 || d == -1 || d == 1 || d == 16
}

pub open spec fn advisor_step(d: int) -> bool {
    d == -17 || d == -15 || d == 15 || d == 17
}

pub open spec fn bishop_step(d: int) -> bool {
    d == -34 || d == -30 || d == 30 || d == 34
}

/// Offset from the knight's square to its leg for a jump of `d`; 0 when `d`
/// is no knight jump.
pub open spec fn knight_leg(d: int) -> int {
    if d == -33 || d == -31 {
        -16
    } else if d == -18 || d == 14 {
        -1
    } else if d == -14 || d == 18 {
        1
    } else if d == 31 || d == 33 {
        16
    } else {
        0
    }
}

/// Role of a FEN letter (upper case), if any.
pub open spec fn role_of_char(c: char) -> Option<int> {
    if c == 'K' {
        Some(0)
    } else if c == 'A' {
        Some(1)
    } else if c == 'B' || c == 'E' {
        Some(2)
    } else if c == 'H' || c == 'N' {
        Some(3)
    } else if c == 'R' {
        Some(4)
    } else if c == 'C' {
        Some(5)
    } else if c == 'P' {
        Some(6)
    } else {
        None
    }
}

/// Value of a captured role, indexed by `pc & 7`.
pub open spec fn mvv_value(r: int) -> int {
    if r == 0 {
        50
    } else if r == 1 || r == 2 {
        10
    } else if r == 3 || r == 5 {
        30
    } else if r == 4 {
        40
    } else if r == 6 {
        20
    } else {
        0
    }
}

pub open spec fn king_delta(i: int) -> int {
    if i == 0 {
        -16
    } else if i == 1 {
        -1
    } else if i == 2 {
        1
    } else {
        16
    }
}

pub open spec fn advisor_delta(i: int) -> int {
    if i == 0 {
        -17
    } else if i == 1 {
        -15
    } else if i == 2 {
        15
    } else {
        17
    }
}

/// Knight jumps whose leg is `king_delta(i)`.
pub open spec fn knight_delta(i: int, j: int) -> int {
    if i == 0 {
        if j == 0 { -33 } else { -31 }
    } else if i == 1 {
        if j == 0 { -18 } else { 14 }
    } else if i == 2 {
        if j == 0 { -14 } else { 18 }
    } else {
        if j == 0 { 31 } else { 33 }
    }
}

/// Squares from which an enemy knight attacks across the leg `advisor_delta(i)`.
pub open spec fn knight_check_delta(i: int, j: int) -> int {
    if i == 0 {
        if j == 0 { -33 } else { -18 }
    } else if i == 1 {
        if j == 0 { -31 } else { -14 }
    } else if i == 2 {
        if j == 0 { 14 } else { 31 }
    } else {
        if j == 0 { 18 } else { 33 }
    }
}

pub fn in_broad(idx: isize) -> (r: bool)
    ensures
        r == on_board(idx as int),
{
    0 <= idx && idx < 256 && idx % 16 >= 3 && idx % 16 <= 11 && idx / 16 >= 3 && idx / 16 <= 12
}

pub fn in_fort(idx: isize) -> (r: bool)
    ensures
        r == on_fort(idx as int),
{
    0 <= idx && idx < 256 && idx % 16 >= 6 && idx % 16 <= 8 && ((idx / 16 >= 3 && idx / 16 <= 5)
        || (idx / 16 >= 10 && idx / 16 <= 12))
}

pub fn king_span(src: isize, dst: isize) -> (r: bool)
    requires
        0 <= src < 256,
        0 <= dst < 256,
    ensures
        r == king_step(dst - src),
{
    let d = dst - src;
    d == -16 || d == -1 || d == 1 || d == 16
}

pub fn advisor_span(src: isize, dst: isize) -> (r: bool)
    requires
        0 <= src < 256,
        0 <= dst < 256,
    ensures
        r == advisor_step(dst - src),
{
    let d = dst - src;
    d == -17 || d == -15 || d == 15 || d == 17
}

pub fn bishop_span(src: isize, dst: isize) -> (r: bool)
    requires
        0 <= src < 256,
        0 <= dst < 256,
    ensures
        r == bishop_step(dst - src),
{
    let d = dst - src;
    d == -34 || d == -30 || d == 30 || d == 34
}

/// The "eye" of a bishop move: the square halfway between its ends.
pub fn bishop_pin(src: isize, dst: isize) -> (r: usize)
    requires
        0 <= src < 256,
        0 <= dst < 256,
    ensures
        r == (src + dst) / 2,
        r < 256,
{
    ((src + dst) / 2) as usize
}

/// The leg square of a knight jump from `src` to `dst`; `src` itself when the
/// two squares are no knight jump apart.
pub fn knight_pin(src: isize, dst: isize) -> (r: isize)
    requires
        0 <= src < 256,
        0 <= dst < 256,
    ensures
        r == src + knight_leg(dst - src),
{
    let d = dst - src;
    if d == -33 || d == -31 {
        src - 16
    } else if d == -18 || d == 14 {
        src - 1
    } else if d == -14 || d == 18 {
        src + 1
    } else if d == 31 || d == 33 {
        src + 16
    } else {
        src
    }
}

pub fn home_half(sq: isize, sd: isize) -> (r: bool)
    requires
        0 <= sd <= 1,
    ensures
        r == home_half_of(sq as int, sd as int),
{
    if sd == 0 {
        sq >= 128
    } else {
        sq < 128
    }
}

pub fn away_half(sq: isize, sd: isize) -> (r: bool)
    requires
        0 <= sd <= 1,
    ensures
        r == !home_half_of(sq as int, sd as int),
{
    !home_half(sq, sd)
}

pub fn same_half(src: isize, dst: isize) -> (r: bool)
    ensures
        r == (lower_half(src as int) == lower_half(dst as int)),
{
    (src >= 128) == (dst >= 128)
}

pub fn same_rank(src: isize, dst: isize) -> (r: bool)
    requires
        0 <= src,
        0 <= dst,
    ensures
        r == (rank_of(src as int) == rank_of(dst as int)),
{
    src / 16 == dst / 16
}

pub fn same_file(src: isize, dst: isize) -> (r: bool)
    requires
        0 <= src,
        0 <= dst,
    ensures
        r == (file_of(src as int) == file_of(dst as int)),
{
    src % 16 == dst % 16
}

/// Most valuable victim minus least valuable attacker.
pub fn mvv_lva(pc: isize, lva: isize) -> (r: isize)
    requires
        0 <= pc,
        -1000 <= lva <= 1000,
    ensures
        r == mvv_value(pc as int % 8) - lva,
{
    let v: isize = match pc % 8 {
        0 => 50,
        1 => 10,
        2 => 10,
        3 => 30,
        4 => 40,
        5 => 30,
        6 => 20,
        _ => 0,
    };
    v - lva
}

/// Role of a FEN letter (upper case): K, A, B or E, H or N, R, C, P.
pub fn from_char(c: char) -> (r: Option<isize>)
    ensures
        r matches Some(v) ==> role_of_char(c) == Some(v as int),
        r is None ==> role_of_char(c) is None,
{
    match c {
        'K' => Some(PIECE_KING),
        'A' => Some(PIECE_ADVISOR),
        'B' | 'E' => Some(PIECE_BISHOP),
        'H' | 'N' => Some(PIECE_KNIGHT),
        'R' => Some(PIECE_ROOK),
        'C' => Some(PIECE_CANNON),
        'P' => Some(PIECE_PAWN),
        _ => None,
    }
}

pub fn king_delta_at(i: usize) -> (r: isize)
    requires
        i < 4,
    ensures
        r == king_delta(i as int),
{
    if i == 0 {
        -16
    } else if i == 1 {
        -1
    } else if i == 2 {
        1
    } else {
        16
    }
}

pub fn advisor_delta_at(i: usize) -> (r: isize)
    requires
        i < 4,
    ensures
        r == advisor_delta(i as int),
{
    if i == 0 {
        -17
    } else if i == 1 {
        -15
    } else if i == 2 {
        15
    } else {
        17
    }
}

pub fn knight_delta_at(i: usize, j: usize) -> (r: isize)
    requires
        i < 4,
        j < 2,
    ensures
        r == knight_delta(i as int, j as int),
{
    if i == 0 {
        if j == 0 { -33 } else { -31 }
    } else if i == 1 {
        if j == 0 { -18 } else { 14 }
    } else if i == 2 {
        if j == 0 { -14 } else { 18 }
    } else {
        if j == 0 { 31 } else { 33 }
    }
}

pub fn knight_check_delta_at(i: usize, j: usize) -> (r: isize)
    requires
        i < 4,
        j < 2,
    ensures
        r == knight_check_delta(i as int, j as int),
{
    if i == 0 {
        if j == 0 { -33 } else { -18 }
    } else if i == 1 {
        if j == 0 { -31 } else { -14 }
    } else if i == 2 {
        if j == 0 { 14 } else { 31 }
    } else {
        if j == 0 { 18 } else { 33 }
    }
}

} // verus!
