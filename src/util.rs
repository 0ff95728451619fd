//! Square and move-code arithmetic, and the ICCS coordinate codec.
use vstd::prelude::*;

verus! {

/// Rank (row on the 16x16 superboard) of a square.
pub open spec fn rank_of(sq: int) -> int {
    sq / 16
}

/// File (column on the 16x16 superboard) of a square.
pub open spec fn file_of(sq: int) -> int {
    sq % 16
}

/// Source square of a move code.
pub open spec fn src_of(mv: int) -> int {
    mv % 256
}

/// Destination square of a move code.
pub open spec fn dst_of(mv: int) -> int {
    mv / 256
}

/// Packs a source and a destination square into a move code.
pub open spec fn merge_of(src: int, dst: int) -> int {
    src + dst * 256
}

/// Horizontal reflection of a square.
pub open spec fn mirror_square_of(sq: int) -> int {
    (14 - file_of(sq)) + rank_of(sq) * 16
}

/// The square one step forward for side `sd` (red moves up, black down).
pub open spec fn forward_of(sq: int, sd: int) -> int {
    sq - 16 + sd * 32
}

/// `v` halved `k` times, rounding down.
pub open spec fn halve_times(v: int, k: nat) -> int
    decreases k,
{
    if k == 0 {
        v
    } else {
        halve_times(v, (k - 1) as nat) / 2
    }
}

pub fn rank_y(sq: isize) -> (r: isize)
    requires
        0 <= sq,
    ensures
        r == rank_of(sq as int),
{
    sq / 16
}

pub fn file_x(sq: isize) -> (r: isize)
    requires
        0 <= sq,
    ensures
        r == file_of(sq as int),
{
    sq % 16
}

pub fn coord_xy(x: isize, y: isize) -> (r: isize)
    requires
        0 <= x < 16,
        0 <= y < 16,
    ensures
        r == x + y * 16,
        file_of(r as int) == x,
        rank_of(r as int) == y,
{
    x + y * 16
}

/// The square seen from the other side of the board (vertical flip).
pub fn square_fltp(sq: isize) -> (r: usize)
    requires
        0 <= sq <= 254,
    ensures
        r == 254 - sq,
{
    (254 - sq) as usize
}

/// The file seen from the other side of the board.
pub fn file_fltp(x: isize) -> (r: isize)
    requires
        -1000 <= x <= 1000,
    ensures
        r == 14 - x,
{
    14 - x
}

pub fn mirror_square(sq: isize) -> (r: isize)
    requires
        0 <= sq < 256,
        3 <= file_of(sq as int) <= 11,
    ensures
        r == mirror_square_of(sq as int),
        file_of(r as int) == 14 - file_of(sq as int),
        rank_of(r as int) == rank_of(sq as int),
{
    coord_xy(file_fltp(file_x(sq)), rank_y(sq))
}

pub fn square_forward(sq: isize, sd: isize) -> (r: isize)
    requires
        0 <= sq < 256,
        0 <= sd <= 1,
    ensures
        r == forward_of(sq as int, sd as int),
{
    sq - 16 + sd * 32
}

/// Piece-code tag of side `sd`: 8 for red, 16 for black.
pub fn side_tag(sd: isize) -> (r: isize)
    requires
        0 <= sd <= 1,
    ensures
        r == 8 + sd * 8,
{
    8 + sd * 8
}

/// Piece-code tag of the opponent of side `sd`.
pub fn opp_side_tag(sd: isize) -> (r: isize)
    requires
        0 <= sd <= 1,
    ensures
        r == 16 - sd * 8,
{
    16 - sd * 8
}

pub fn src(mv: isize) -> (r: isize)
    requires
        0 <= mv,
    ensures
        r == src_of(mv as int),
        0 <= r < 256,
{
    mv % 256
}

pub fn dst(mv: isize) -> (r: isize)
    requires
        0 <= mv,
    ensures
        r == dst_of(mv as int),
        0 <= r,
        mv < 65536 ==> r < 256,
{
    mv / 256
}

pub fn merge(src: isize, dst: isize) -> (r: isize)
    requires
        0 <= src < 256,
        0 <= dst < 256,
    ensures
        r == merge_of(src as int, dst as int),
        0 <= r < 65536,
        src_of(r as int) == src,
        dst_of(r as int) == dst,
{
    src + dst * 256
}

/// The move reflected horizontally: both endpoints change file `x` to `14 - x`.
pub fn mirror_move(mv: isize) -> (r: isize)
    requires
        0 <= mv < 65536,
        3 <= file_of(src_of(mv as int)) <= 11,
        3 <= file_of(dst_of(mv as int)) <= 11,
    ensures
        r == merge_of(mirror_square_of(src_of(mv as int)), mirror_square_of(dst_of(mv as int))),
{
    merge(mirror_square(src(mv)), mirror_square(dst(mv)))
}

/// Logical right shift of the low 32 bits of `x` by `y mod 16` places.
pub fn unsigned_right_shift(x: i64, y: i64) -> (r: i64)
    ensures
        r == halve_times((x as int) % 0x1_0000_0000, (y as int % 16) as nat),
        0 <= r < 0x1_0000_0000,
{
    let mut low: i64 = x % 0x1_0000_0000;
    if low < 0 {
        low = low + 0x1_0000_0000;
    }
    let mut places: i64 = y % 16;
    if places < 0 {
        places = places + 16;
    }
    let mut k: i64 = 0;
    let mut v: i64 = low;
    while k < places
        invariant
            0 <= k <= places < 16,
            0 <= low < 0x1_0000_0000,
            low == (x as int) % 0x1_0000_0000,
            places == (y as int) % 16,
            0 <= v <= low,
            v == halve_times(low as int, k as nat),
        decreases places - k,
    {
        v = v / 2;
        k = k + 1;
    }
    v
}

} // verus!
