//! The ICCS coordinate notation of moves: a file letter `a`..`i` and a rank
//! digit `0`..`9` (counted from red's side) for each end.
use vstd::prelude::*;
use vstd::string::StrSliceExecFns;
use vstd::string::StringExecFns;
use crate::pregen::on_board;
use crate::util::{dst, dst_of, file_of, file_x, rank_of, rank_y, src, src_of};

verus! {

pub open spec fn is_file_letter(c: char) -> bool {
    ('a' as int <= c as int <= 'i' as int) || ('A' as int <= c as int <= 'I' as int)
}

pub open spec fn is_rank_digit(c: char) -> bool {
    '0' as int <= c as int <= '9' as int
}

/// Square of a file letter (either case) and a rank digit.
pub open spec fn square_of_cord(f: char, r: char) -> int {
    let x = if 'a' as int <= f as int <= 'i' as int {
        f as int - 'a' as int + 3
    } else {
        f as int - 'A' as int + 3
    };
    ('9' as int - r as int + 3) * 16 + x
}

/// ICCS text of a square: file letter, then rank digit.
pub open spec fn cord_text(sq: int) -> Seq<char> {
    seq![(file_of(sq) - 3 + 'a' as int) as char, ('9' as int - rank_of(sq) + 3) as char]
}

/// Square of a two-character ICCS coordinate such as `e3`.
pub fn cord2uint8(cord: &str) -> (r: isize)
    requires
        cord@.len() >= 2,
        is_file_letter(cord@[0]),
        is_rank_digit(cord@[1]),
    ensures
        r == square_of_cord(cord@[0], cord@[1]),
        on_board(r as int),
{
    let f = cord.get_char(0) as u32;
    let d = cord.get_char(1) as u32;
    let alphabet: isize = if f >= 'a' as u32 {
        (f - 'a' as u32) as isize + 3
    } else {
        (f - 'A' as u32) as isize + 3
    };
    let numeric: isize = ('9' as u32 - d) as isize + 3;
    numeric * 16 + alphabet
}

fn file_text(col: usize) -> (r: &'static str)
    requires
        col < 9,
    ensures
        r@ == seq![(col + 'a' as int) as char],
{
    proof {
        reveal_strlit("a");
        reveal_strlit("b");
        reveal_strlit("c");
        reveal_strlit("d");
        reveal_strlit("e");
        reveal_strlit("f");
        reveal_strlit("g");
        reveal_strlit("h");
        reveal_strlit("i");
    }
    let r = if col == 0 {
        "a"
    } else if col == 1 {
        "b"
    } else if col == 2 {
        "c"
    } else if col == 3 {
        "d"
    } else if col == 4 {
        "e"
    } else if col == 5 {
        "f"
    } else if col == 6 {
        "g"
    } else if col == 7 {
        "h"
    } else {
        "i"
    };
    assert(r@ =~= seq![(col + 'a' as int) as char]);
    r
}

fn rank_text(row: usize) -> (r: &'static str)
    requires
        row < 10,
    ensures
        r@ == seq![(row + '0' as int) as char],
{
    proof {
        reveal_strlit("0");
        reveal_strlit("1");
        reveal_strlit("2");
        reveal_strlit("3");
        reveal_strlit("4");
        reveal_strlit("5");
        reveal_strlit("6");
        reveal_strlit("7");
        reveal_strlit("8");
        reveal_strlit("9");
    }
    let r = if row == 0 {
        "0"
    } else if row == 1 {
        "1"
    } else if row == 2 {
        "2"
    } else if row == 3 {
        "3"
    } else if row == 4 {
        "4"
    } else if row == 5 {
        "5"
    } else if row == 6 {
        "6"
    } else if row == 7 {
        "7"
    } else if row == 8 {
        "8"
    } else {
        "9"
    };
    assert(r@ =~= seq![(row + '0' as int) as char]);
    r
}

/// ICCS text of a move given by (row, column) of its ends, rows counted
/// from red's side and columns from the left.
pub fn pos2iccs(src_row: usize, src_col: usize, dst_row: usize, dst_col: usize) -> (r: String)
    requires
        src_row < 10,
        src_col < 9,
        dst_row < 10,
        dst_col < 9,
    ensures
        r@ == seq![
            (src_col + 'a' as int) as char,
            (src_row + '0' as int) as char,
            (dst_col + 'a' as int) as char,
            (dst_row + '0' as int) as char,
        ],
{
    let mut iccs = String::new();
    iccs.append(file_text(src_col));
    iccs.append(rank_text(src_row));
    iccs.append(file_text(dst_col));
    iccs.append(rank_text(dst_row));
    proof {
        assert(iccs@ =~= seq![
            (src_col + 'a' as int) as char,
            (src_row + '0' as int) as char,
            (dst_col + 'a' as int) as char,
            (dst_row + '0' as int) as char,
        ]);
    }
    iccs
}

/// Reads four ASCII characters as `((c1 - 'a', c0 - '0'), (c3 - 'a', c2 - '0'))`.
pub fn iccs2pos(iccs: &str) -> (r: ((usize, usize), (usize, usize)))
    requires
        iccs@.len() >= 4,
        iccs@[0] as int >= '0' as int,
        iccs@[1] as int >= 'a' as int,
        iccs@[2] as int >= '0' as int,
        iccs@[3] as int >= 'a' as int,
    ensures
        r.0.0 == iccs@[1] as int - 'a' as int,
        r.0.1 == iccs@[0] as int - '0' as int,
        r.1.0 == iccs@[3] as int - 'a' as int,
        r.1.1 == iccs@[2] as int - '0' as int,
{
    let c0 = iccs.get_char(0) as u32;
    let c1 = iccs.get_char(1) as u32;
    let c2 = iccs.get_char(2) as u32;
    let c3 = iccs.get_char(3) as u32;
    let src_row = (c1 - 'a' as u32) as usize;
    let src_col = (c0 - '0' as u32) as usize;
    let dst_row = (c3 - 'a' as u32) as usize;
    let dst_col = (c2 - '0' as u32) as usize;
    ((src_row, src_col), (dst_row, dst_col))
}

/// (row, column) of both ends of a move, rows counted from red's side.
pub fn move2pos(mv: isize) -> (r: ((usize, usize), (usize, usize)))
    requires
        0 <= mv < 65536,
        on_board(src_of(mv as int)),
        on_board(dst_of(mv as int)),
    ensures
        r.0.0 == 12 - rank_of(src_of(mv as int)),
        r.0.1 == file_of(src_of(mv as int)) - 3,
        r.1.0 == 12 - rank_of(dst_of(mv as int)),
        r.1.1 == file_of(dst_of(mv as int)) - 3,
{
    let s = src(mv);
    let d = dst(mv);
    let src_col = (file_x(s) - 3) as usize;
    let src_row = (12 - rank_y(s)) as usize;
    let dst_col = (file_x(d) - 3) as usize;
    let dst_row = (12 - rank_y(d)) as usize;
    ((src_row, src_col), (dst_row, dst_col))
}

/// Move code of an ICCS text such as `h2e2` (file letters in either case).
pub fn iccs2move(iccs: &str) -> (r: isize)
    requires
        iccs@.len() >= 4,
        is_file_letter(iccs@[0]),
        is_rank_digit(iccs@[1]),
        is_file_letter(iccs@[2]),
        is_rank_digit(iccs@[3]),
    ensures
        r == square_of_cord(iccs@[2], iccs@[3]) * 256 + square_of_cord(iccs@[0], iccs@[1]),
        src_of(r as int) == square_of_cord(iccs@[0], iccs@[1]),
        dst_of(r as int) == square_of_cord(iccs@[2], iccs@[3]),
{
    let from = cord2uint8(iccs);
    let rest = iccs.substring_char(2, 4);
    let to = cord2uint8(rest);
    to * 256 + from
}

/// ICCS text of a move whose ends are on the board.
pub fn move2iccs(mv: isize) -> (r: String)
    requires
        0 <= mv < 65536,
        on_board(src_of(mv as int)),
        on_board(dst_of(mv as int)),
    ensures
        r@ == cord_text(src_of(mv as int)) + cord_text(dst_of(mv as int)),
{
    let ((src_row, src_col), (dst_row, dst_col)) = move2pos(mv);
    let r = pos2iccs(src_row, src_col, dst_row, dst_col);
    proof {
        assert(r@ =~= cord_text(src_of(mv as int)) + cord_text(dst_of(mv as int)));
    }
    r
}

} // verus!
