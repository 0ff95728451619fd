//! The rules of movement and of check, stated over a placement: a sequence
//! of 256 piece codes on the 16x16 superboard.
use vstd::prelude::*;
use crate::history::Moved;
use crate::pregen::{
    advisor_delta, advisor_step, bishop_step, home_half_of, king_delta, king_step,
    knight_check_delta, knight_leg, lower_half, on_board, on_fort,
};
use crate::util::{dst_of, file_of, forward_of, rank_of, src_of};

verus! {

/// A piece code: 0 (empty), 8..14 (red roles) or 16..22 (black roles).
pub open spec fn valid_piece(pc: int) -> bool {
    pc == 0 || (8 <= pc <= 14) || (16 <= pc <= 22)
}

/// A piece (not empty).
pub open spec fn is_piece(pc: int) -> bool {
    (8 <= pc <= 14) || (16 <= pc <= 22)
}

/// A piece of side `sd`.
pub open spec fn own_piece(pc: int, sd: int) -> bool {
    if sd == 0 {
        8 <= pc <= 14
    } else {
        16 <= pc <= 22
    }
}

/// Side tag of side `sd` (8 or 16).
pub open spec fn tag_of(sd: int) -> int {
    8 + sd * 8
}

/// Side tag of the opponent of side `sd`.
pub open spec fn opp_tag_of(sd: int) -> int {
    16 - sd * 8
}

/// Walking from `sq` by `delta`: the first square that is off the board or
/// holds a piece.
pub open spec fn first_stop(s: Seq<isize>, sq: int, delta: int) -> int
    decreases (if delta > 0 {
        256 - sq + delta
    } else {
        sq + 1 - delta
    }),
{
    if !on_board(sq) || delta == 0 || s[sq] != 0 {
        sq
    } else {
        first_stop(s, sq + delta, delta)
    }
}

/// First square at or after `i` holding `pc`; 256 when there is none.
pub open spec fn find_from(s: Seq<isize>, pc: int, i: int) -> int
    decreases 256 - i,
{
    if i < 0 || i >= 256 {
        256
    } else if s[i] == pc {
        i
    } else {
        find_from(s, pc, i + 1)
    }
}

/// An enemy pawn stands in front of or beside the king on `k`.
pub open spec fn pawn_checks(s: Seq<isize>, sd: int, k: int) -> bool {
    let p = opp_tag_of(sd) + 6;
    s[forward_of(k, sd)] == p || s[k - 1] == p || s[k + 1] == p
}

/// An enemy knight attacks `k` across the free leg `k + advisor_delta(i)`.
pub open spec fn knight_checks(s: Seq<isize>, sd: int, k: int, i: int) -> bool {
    let n = opp_tag_of(sd) + 3;
    s[k + advisor_delta(i)] == 0 && (s[k + knight_check_delta(i, 0)] == n || s[k
        + knight_check_delta(i, 1)] == n)
}

/// Along direction `king_delta(i)` from `k`: the first piece is an enemy
/// rook or king, or the piece after the first screen is an enemy cannon.
pub open spec fn line_checks(s: Seq<isize>, sd: int, k: int, i: int) -> bool {
    let d = king_delta(i);
    let opp = opp_tag_of(sd);
    let f = first_stop(s, k + d, d);
    let g = first_stop(s, f + d, d);
    (on_board(f) && (s[f] == opp + 4 || s[f] == opp)) || (on_board(g) && s[g] == opp + 5)
}

/// The square `k` (a king of side `sd`) is attacked.
pub open spec fn king_attacked(s: Seq<isize>, sd: int, k: int) -> bool {
    ||| pawn_checks(s, sd, k)
    ||| knight_checks(s, sd, k, 0)
    ||| knight_checks(s, sd, k, 1)
    ||| knight_checks(s, sd, k, 2)
    ||| knight_checks(s, sd, k, 3)
    ||| line_checks(s, sd, k, 0)
    ||| line_checks(s, sd, k, 1)
    ||| line_checks(s, sd, k, 2)
    ||| line_checks(s, sd, k, 3)
}

/// Side `sd` is in check: its king (the first found) is attacked.
pub open spec fn in_check_of(s: Seq<isize>, sd: int) -> bool {
    let k = find_from(s, tag_of(sd), 0);
    k < 256 && king_attacked(s, sd, k)
}

/// Number of pieces on the squares from `from` up to, not including, `to`,
/// stepping by `delta`.
pub open spec fn between_count(s: Seq<isize>, from: int, to: int, delta: int) -> int
    decreases (if delta > 0 {
        to - from + delta
    } else {
        from - to - delta
    }),
{
    if from == to || delta == 0 || (delta > 0 && from > to) || (delta < 0 && from < to) || from
        < 0 || from >= 256 {
        0
    } else {
        (if s[from] != 0 {
            1int
        } else {
            0int
        }) + between_count(s, from + delta, to, delta)
    }
}

/// Unit step from `src` towards `dst` along a rank or a file; 0 if they
/// share neither.
pub open spec fn line_delta(src: int, dst: int) -> int {
    if rank_of(src) == rank_of(dst) {
        if src > dst {
            -1
        } else {
            1
        }
    } else if file_of(src) == file_of(dst) {
        if src > dst {
            -16
        } else {
            16
        }
    } else {
        0
    }
}

/// The geometry of a move of `role` from `src` to `dst` for side `sd`.
pub open spec fn role_move_ok(s: Seq<isize>, sd: int, src: int, dst: int, role: int) -> bool {
    if role == 0 {
        on_fort(dst) && king_step(dst - src)
    } else if role == 1 {
        on_fort(dst) && advisor_step(dst - src)
    } else if role == 2 {
        lower_half(src) == lower_half(dst) && bishop_step(dst - src) && s[(src + dst) / 2] == 0
    } else if role == 3 {
        knight_leg(dst - src) != 0 && s[src + knight_leg(dst - src)] == 0
    } else if role == 6 {
        (!home_half_of(dst, sd) && (dst == src - 1 || dst == src + 1)) || dst == forward_of(
            src,
            sd,
        )
    } else if role == 4 || role == 5 {
        let delta = line_delta(src, dst);
        let c = between_count(s, src + delta, dst, delta);
        delta != 0 && if c == 0 {
            role == 4 || s[dst] == 0
        } else if c == 1 {
            role == 5 && s[dst] != 0
        } else {
            false
        }
    } else {
        false
    }
}

/// `mv` is a pseudo-legal move of side `sd`: it moves one of its pieces to
/// a square of the board not held by its own pieces, by that piece's rule.
/// Whether it leaves its own king in check is not considered.
pub open spec fn pseudo_legal(s: Seq<isize>, sd: int, mv: int) -> bool {
    let src = src_of(mv);
    let dst = dst_of(mv);
    &&& 0 <= mv < 65536
    &&& own_piece(s[src] as int, sd)
    &&& !own_piece(s[dst] as int, sd)
    &&& on_board(dst)
    &&& role_move_ok(s, sd, src, dst, s[src] - tag_of(sd))
}

/// `mv` takes a piece of side `sd` to another square of the board not held
/// by its own pieces; every pseudo-legal move is one.
pub open spec fn movable(s: Seq<isize>, sd: int, mv: int) -> bool {
    let src = src_of(mv);
    let dst = dst_of(mv);
    &&& 0 <= mv < 65536
    &&& on_board(src)
    &&& on_board(dst)
    &&& own_piece(s[src] as int, sd)
    &&& !own_piece(s[dst] as int, sd)
}

/// The placement after the piece on the source of `mv` goes to its
/// destination.
pub open spec fn moved_squares(s: Seq<isize>, mv: int) -> Seq<isize> {
    s.update(src_of(mv), 0).update(dst_of(mv), s[src_of(mv)])
}

/// The placement before the move recorded in `m` was made.
pub open spec fn unmoved_squares(s: Seq<isize>, m: Moved) -> Seq<isize> {
    s.update(src_of(m.mv as int), s[dst_of(m.mv as int)]).update(
        dst_of(m.mv as int),
        m.capture_piece,
    )
}

} // verus!
