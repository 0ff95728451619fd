//! Laws of the board operations, stated over their contracts.
use vstd::prelude::*;
use crate::borad::{lemma_unmove_moved, make_move_post, position_key, position_lock, undo_make_post, Borad};
use crate::fen::{board_fen, fen_side, fen_squares, lemma_fen_round_trip};
use crate::movegen::{gen_all, gen_sound, MoveList};
use crate::rules::pseudo_legal;

verus! {

/// Taking back a move that `make_move` played, from any board in the same
/// state as the one `make_move` left, is possible and restores the board
/// `make_move` started from: placement, side to move, Zobrist key and lock,
/// material scores, move stack and distance.
pub proof fn law_make_undo_restores(b0: Borad, b1: Borad, b1s: Borad, b2: Borad, mv: int)
    requires
        b0.wf(),
        pseudo_legal(b0.squares@, b0.sd_player as int, mv),
        make_move_post(b0, b1, mv, true),
        b1.wf(),
        b1s.wf(),
        b1s.same_state(&b1),
        undo_make_post(b1s, b2),
        b2.wf(),
    ensures
        b1s.can_undo(),
        b2.same_state(&b0),
{
    lemma_unmove_moved(b0.squares@, b1.moves@.last());
    assert(b2.moves@ =~= b0.moves@);
}

/// Any sequence of moves played with `make_move` (`made[i]` to
/// `made[i + 1]` by `mvs[i]`) and then taken back one by one with
/// `undo_make_move` (`undone[j]` to `undone[j + 1]`, starting from the last
/// board played) ends in the state the sequence started from.
pub proof fn law_move_sequence_restores(made: Seq<Borad>, mvs: Seq<int>, undone: Seq<Borad>)
    requires
        made.len() == mvs.len() + 1,
        undone.len() == made.len(),
        forall|i: int| 0 <= i < made.len() ==> #[trigger] made[i].wf(),
        forall|i: int| 0 <= i < undone.len() ==> #[trigger] undone[i].wf(),
        forall|i: int|
            0 <= i < mvs.len() ==> pseudo_legal(made[i].squares@, made[i].sd_player as int, #[trigger] mvs[i]),
        forall|i: int|
            0 <= i < mvs.len() ==> make_move_post(made[i], made[i + 1], #[trigger] mvs[i], true),
        undone[0].same_state(&made[mvs.len() as int]),
        forall|j: int| 0 <= j < mvs.len() ==> undo_make_post(#[trigger] undone[j], undone[j + 1]),
    ensures
        undone[mvs.len() as int].same_state(&made[0]),
{
    lemma_undone_matches(made, mvs, undone, mvs.len() as int);
}

/// After `j` take-backs the board is in the state of `made[k - j]`.
proof fn lemma_undone_matches(made: Seq<Borad>, mvs: Seq<int>, undone: Seq<Borad>, j: int)
    requires
        made.len() == mvs.len() + 1,
        undone.len() == made.len(),
        0 <= j <= mvs.len(),
        forall|i: int| 0 <= i < made.len() ==> #[trigger] made[i].wf(),
        forall|i: int| 0 <= i < undone.len() ==> #[trigger] undone[i].wf(),
        forall|i: int|
            0 <= i < mvs.len() ==> pseudo_legal(made[i].squares@, made[i].sd_player as int, #[trigger] mvs[i]),
        forall|i: int|
            0 <= i < mvs.len() ==> make_move_post(made[i], made[i + 1], #[trigger] mvs[i], true),
        undone[0].same_state(&made[mvs.len() as int]),
        forall|i: int| 0 <= i < mvs.len() ==> undo_make_post(#[trigger] undone[i], undone[i + 1]),
    ensures
        undone[j].same_state(&made[mvs.len() - j]),
    decreases j,
{
    if j > 0 {
        lemma_undone_matches(made, mvs, undone, j - 1);
        let k = mvs.len() as int;
        let i = k - j;
        assert(pseudo_legal(made[i].squares@, made[i].sd_player as int, mvs[i]));
        assert(make_move_post(made[i], made[i + 1], mvs[i], true));
        assert(undo_make_post(undone[j - 1], undone[j]));
        assert(made[i].wf() && made[i + 1].wf() && undone[j - 1].wf() && undone[j].wf());
        law_make_undo_restores(made[i], made[i + 1], undone[j - 1], undone[j], mvs[i]);
    }
}

/// The Zobrist key and lock of a well-formed board are the XOR, taken afresh,
/// of the table entries of its pieces and, with black to move, of the side
/// entries. Every board operation keeps boards well formed.
pub proof fn law_hash_matches_placement(b: Borad)
    requires
        b.wf(),
    ensures
        b.zobrist_key == position_key(b.tables, b.squares@, b.sd_player as int),
        b.zobrist_lock == position_lock(b.tables, b.squares@, b.sd_player as int),
{
}

/// Move generation depends on the position alone: boards with the same
/// placement and side to move get the same moves, in the same order (and
/// the same scores), from `generate_mvs` in either mode.
pub proof fn law_generation_is_deterministic(b1: Borad, b2: Borad, cap: bool, r1: MoveList, r2: MoveList)
    requires
        b1.wf(),
        b2.wf(),
        b1.squares@ == b2.squares@,
        b1.sd_player == b2.sd_player,
        r1 == gen_all(b1.squares@, b1.sd_player as int, cap),
        r2 == gen_all(b2.squares@, b2.sd_player as int, cap),
    ensures
        r1 == r2,
{
}

/// Every move that `generate_mvs(None)` returns passes `legal_move` (whose
/// result is `pseudo_legal`); the moves `make_move` accepts are those that
/// pass it, and it refuses every other encoding.
pub proof fn law_generated_moves_are_legal(b: Borad, r: MoveList, i: int)
    requires
        b.wf(),
        r == gen_all(b.squares@, b.sd_player as int, false),
        gen_sound(b.squares@, b.sd_player as int, false, r.0, r.1),
        0 <= i < r.0.len(),
    ensures
        pseudo_legal(b.squares@, b.sd_player as int, r.0[i] as int),
{
}

/// FEN text in the canonical form that `to_fen` writes, read by `from_fen`
/// and written again by `to_fen`, comes back unchanged: reading restores
/// the placement and the side to move that the text was written from.
pub proof fn law_fen_round_trip(b: Borad, text: Seq<char>, loaded: Borad)
    requires
        b.wf(),
        text == board_fen(b.squares@, b.sd_player as int),
        loaded.wf(),
        loaded.squares@ == fen_squares(text),
        loaded.sd_player == fen_side(text),
    ensures
        loaded.squares@ == b.squares@,
        loaded.sd_player == b.sd_player,
        board_fen(loaded.squares@, loaded.sd_player as int) == text,
{
    lemma_fen_round_trip(b.squares@, b.sd_player as int);
}

} // verus!
