//! The engine's board operations, acting on its board.
use vstd::prelude::*;
use crate::borad::{mirrored_squares, Borad, draw_of, evaluation_of, make_move_post, rep_scan, rep_value_of, undo_make_post, undo_ok};
use crate::book::candidates_of;
use crate::engine::Engine;
use crate::fen::{board_fen, fen_side, fen_squares};
use crate::history::Moved;
use crate::movegen::{gen_all, gen_sound};
use crate::pregen::{on_board, PieceAction, BAN_VALUE, MATE_VALUE, NULL_OKAY_MARGIN, NULL_SAFE_MARGIN};
use crate::rules::{in_check_of, is_piece, moved_squares, movable, pseudo_legal, unmoved_squares};
use crate::util::{dst_of, src_of};

verus! {

impl Engine {
    /// Everything but the board is as in `old`.
    pub open spec fn rest_same(&self, old: &Engine) -> bool {
        &&& self.board.tables == old.board.tables
        &&& self.mask == old.mask
        &&& self.hash_table == old.hash_table
        &&& self.history == old.history
        &&& self.killer_table == old.killer_table
        &&& self.result == old.result
        &&& self.all_nodes == old.all_nodes
        &&& self.book == old.book
        &&& self.rng == old.rng
    }

    /// Loads a FEN position onto the board.
    pub fn from_fen(&mut self, fen: &str)
        requires
            old(self).wf(),
        ensures
            final(self).wf(),
            final(self).rest_same(&*old(self)),
            final(self).board.squares@ == fen_squares(fen@),
            final(self).board.sd_player == fen_side(fen@),
            final(self).board.distance == 0,
            final(self).board.moves@ == seq![
                Moved {
                    mv: 0,
                    zobrist_key: 0,
                    capture_piece: 0,
                    checked: in_check_of(fen_squares(fen@), fen_side(fen@)),
                },
            ],
    {
        self.board.from_fen(fen);
    }

    /// The engine's board reflected left to right, with the same side to
    /// move and a fresh stack.
    pub fn mirror(&self) -> (m: Borad)
        requires
            self.wf(),
        ensures
            m.wf(),
            m.sd_player == self.board.sd_player,
            m.distance == 0,
            m.squares@ == mirrored_squares(self.board.squares@),
            m.tables.key@ == self.board.tables.key@,
            m.tables.lock@ == self.board.tables.lock@,
            m.tables.value@ == self.board.tables.value@,
    {
        self.board.mirror()
    }

    /// FEN text of the board.
    pub fn to_fen(&self) -> (r: String)
        requires
            self.wf(),
        ensures
            r@ == board_fen(self.board.squares@, self.board.sd_player as int),
    {
        self.board.to_fen()
    }

    /// Empties the board, red to move.
    pub fn clearboard(&mut self)
        requires
            old(self).wf(),
        ensures
            final(self).wf(),
            final(self).rest_same(&*old(self)),
            forall|i: int| 0 <= i < 256 ==> final(self).board.squares@[i] == 0,
            final(self).board.sd_player == 0,
            final(self).board.moves@ == old(self).board.moves@,
            final(self).board.distance == old(self).board.distance,
    {
        self.board.clearboard();
    }

    /// Makes the position irreversible: the stack becomes the sentinel.
    pub fn set_irrev(&mut self)
        requires
            old(self).wf(),
        ensures
            final(self).wf(),
            final(self).rest_same(&*old(self)),
            final(self).board.squares@ == old(self).board.squares@,
            final(self).board.sd_player == old(self).board.sd_player,
            final(self).board.distance == 0,
            final(self).board.moves@ == seq![
                Moved {
                    mv: 0,
                    zobrist_key: 0,
                    capture_piece: 0,
                    checked: in_check_of(old(self).board.squares@, old(self).board.sd_player as int),
                },
            ],
    {
        self.board.set_irrev();
    }

    pub fn mate_value(&self) -> (r: isize)
        requires
            self.wf(),
        ensures
            r == self.board.distance - MATE_VALUE,
    {
        self.board.mate_value()
    }

    pub fn ban_value(&self) -> (r: isize)
        requires
            self.wf(),
        ensures
            r == self.board.distance - BAN_VALUE,
    {
        self.board.ban_value()
    }

    pub fn draw_value(&self) -> (r: isize)
        requires
            self.wf(),
        ensures
            r == draw_of(self.board.distance as int),
    {
        self.board.draw_value()
    }

    pub fn evaluate(&self) -> (r: isize)
        requires
            self.wf(),
        ensures
            r == evaluation_of(self.board.own_value(), self.board.opp_value(), self.board.distance as int),
            r != draw_of(self.board.distance as int),
    {
        self.board.evaluate()
    }

    pub fn null_okay(&self) -> (r: bool)
        requires
            self.wf(),
        ensures
            r == (self.board.own_value() > NULL_OKAY_MARGIN),
    {
        self.board.null_okay()
    }

    pub fn null_safe(&self) -> (r: bool)
        requires
            self.wf(),
        ensures
            r == (self.board.own_value() > NULL_SAFE_MARGIN),
    {
        self.board.null_safe()
    }

    pub fn null_move(&mut self)
        requires
            old(self).wf(),
            old(self).board.distance < isize::MAX,
        ensures
            final(self).wf(),
            final(self).rest_same(&*old(self)),
            final(self).board.squares@ == old(self).board.squares@,
            final(self).board.sd_player == 1 - old(self).board.sd_player,
            final(self).board.moves@ == old(self).board.moves@.push(
                Moved {
                    mv: 0,
                    zobrist_key: old(self).board.zobrist_key,
                    capture_piece: 0,
                    checked: false,
                },
            ),
            final(self).board.distance == old(self).board.distance + 1,
    {
        self.board.null_move();
    }

    pub fn undo_null_move(&mut self)
        requires
            old(self).wf(),
            old(self).board.moves@.len() >= 2,
            old(self).board.distance >= 1,
        ensures
            final(self).wf(),
            final(self).rest_same(&*old(self)),
            final(self).board.squares@ == old(self).board.squares@,
            final(self).board.sd_player == 1 - old(self).board.sd_player,
            final(self).board.moves@ == old(self).board.moves@.drop_last(),
            final(self).board.distance == old(self).board.distance - 1,
    {
        self.board.undo_null_move();
    }

    pub fn in_check(&self) -> (r: bool)
        requires
            self.wf(),
        ensures
            r == self.board.moves@.last().checked,
    {
        self.board.in_check()
    }

    pub fn captured(&self) -> (r: bool)
        requires
            self.wf(),
        ensures
            r == (self.board.moves@.last().capture_piece > 0),
    {
        self.board.captured()
    }

    pub fn rep_value(&self, vl_rep: isize) -> (r: isize)
        requires
            self.wf(),
            0 <= vl_rep < 8,
        ensures
            r == rep_value_of(vl_rep as int, self.board.distance as int),
    {
        self.board.rep_value(vl_rep)
    }

    pub fn rep_status(&self, recur: isize) -> (r: isize)
        requires
            self.wf(),
            recur >= 1,
        ensures
            r == rep_scan(
                self.board.moves@,
                self.board.zobrist_key,
                self.board.moves@.len() - 1,
                false,
                true,
                true,
                recur as int,
            ),
    {
        self.board.rep_status(recur)
    }

    pub fn change_side(&mut self)
        requires
            old(self).wf(),
        ensures
            final(self).wf(),
            final(self).rest_same(&*old(self)),
            final(self).board.sd_player == 1 - old(self).board.sd_player,
            final(self).board.squares@ == old(self).board.squares@,
            final(self).board.moves@ == old(self).board.moves@,
            final(self).board.distance == old(self).board.distance,
    {
        self.board.change_side();
    }

    pub fn history_index(&self, mv: isize) -> (r: isize)
        requires
            self.wf(),
            0 <= mv < 65536,
        ensures
            r == (self.board.squares@[src_of(mv as int)] - 8) * 256 + dst_of(mv as int),
    {
        self.board.history_index(mv)
    }

    /// A weighted random move of the opening book for the board; 0 if none.
    pub fn book_move(&mut self) -> (r: isize)
        requires
            old(self).wf(),
        ensures
            final(self).wf(),
            final(self).board == old(self).board,
            final(self).book == old(self).book,
            r == 0 || pseudo_legal(old(self).board.squares@, old(self).board.sd_player as int, r as int),
            r == 0 <==> candidates_of(old(self).board, old(self).book).0.len() == 0,
            r != 0 ==> exists|i: int|
                0 <= i < candidates_of(old(self).board, old(self).book).0.len()
                    && candidates_of(old(self).board, old(self).book).0[i] == r,
    {
        self.board.book_move(&self.book, &mut self.rng)
    }

    pub fn legal_move(&self, mv: isize) -> (r: bool)
        requires
            self.wf(),
            0 <= mv < 65536,
        ensures
            r == pseudo_legal(self.board.squares@, self.board.sd_player as int, mv as int),
    {
        self.board.legal_move(mv)
    }

    pub fn move_piece(&mut self, mv: isize) -> (m: Moved)
        requires
            old(self).wf(),
            movable(old(self).board.squares@, old(self).board.sd_player as int, mv as int),
        ensures
            final(self).wf(),
            final(self).rest_same(&*old(self)),
            final(self).board.squares@ == moved_squares(old(self).board.squares@, mv as int),
            final(self).board.sd_player == old(self).board.sd_player,
            final(self).board.moves@ == old(self).board.moves@,
            final(self).board.distance == old(self).board.distance,
            m == (Moved {
                mv,
                zobrist_key: old(self).board.zobrist_key,
                capture_piece: old(self).board.squares@[dst_of(mv as int)],
                checked: false,
            }),
    {
        self.board.move_piece(mv)
    }

    pub fn make_move(&mut self, mv: isize) -> (r: bool)
        requires
            old(self).wf(),
            pseudo_legal(old(self).board.squares@, old(self).board.sd_player as int, mv as int),
            old(self).board.distance < isize::MAX,
        ensures
            final(self).wf(),
            final(self).rest_same(&*old(self)),
            make_move_post(old(self).board, final(self).board, mv as int, r),
    {
        self.board.make_move(mv)
    }

    pub fn undo_make_move(&mut self)
        requires
            old(self).wf(),
            old(self).board.can_undo(),
        ensures
            final(self).wf(),
            final(self).rest_same(&*old(self)),
            undo_make_post(old(self).board, final(self).board),
    {
        self.board.undo_make_move();
    }

    pub fn undo_move_piece(&mut self, moved: &Moved)
        requires
            old(self).wf(),
            undo_ok(old(self).board.squares@, *moved),
        ensures
            final(self).wf(),
            final(self).rest_same(&*old(self)),
            final(self).board.squares@ == unmoved_squares(old(self).board.squares@, *moved),
            final(self).board.sd_player == old(self).board.sd_player,
            final(self).board.moves@ == old(self).board.moves@,
            final(self).board.distance == old(self).board.distance,
    {
        self.board.undo_move_piece(moved);
    }

    pub fn add_piece(&mut self, sq: isize, pc: isize, action: PieceAction)
        requires
            old(self).wf(),
            on_board(sq as int),
            is_piece(pc as int),
            action == PieceAction::ADD ==> old(self).board.squares@[sq as int] == 0,
            action == PieceAction::DEL ==> old(self).board.squares@[sq as int] == pc,
        ensures
            final(self).wf(),
            final(self).rest_same(&*old(self)),
            final(self).board.squares@ == old(self).board.squares@.update(
                sq as int,
                if action == PieceAction::ADD {
                    pc
                } else {
                    0
                },
            ),
            final(self).board.sd_player == old(self).board.sd_player,
            final(self).board.moves@ == old(self).board.moves@,
            final(self).board.distance == old(self).board.distance,
    {
        self.board.add_piece(sq, pc, action);
    }

    pub fn checked(&self) -> (r: bool)
        requires
            self.wf(),
        ensures
            r == in_check_of(self.board.squares@, self.board.sd_player as int),
    {
        self.board.checked()
    }

    pub fn generate_mvs(&self, vls_opt: Option<Vec<isize>>) -> (r: (Vec<isize>, Vec<isize>))
        requires
            self.wf(),
        ensures
            gen_sound(self.board.squares@, self.board.sd_player as int, vls_opt is Some, r.0@, r.1@),
            (r.0@, r.1@) == gen_all(self.board.squares@, self.board.sd_player as int, vls_opt is Some),
    {
        self.board.generate_mvs(vls_opt)
    }

    pub fn has_mate(&mut self) -> (r: bool)
        requires
            old(self).wf(),
            old(self).board.distance < isize::MAX,
        ensures
            final(self).wf(),
            final(self).rest_same(&*old(self)),
            final(self).board.same_state(&old(self).board),
            !r ==> exists|mv: int|
                pseudo_legal(old(self).board.squares@, old(self).board.sd_player as int, mv)
                    && !in_check_of(
                    moved_squares(old(self).board.squares@, mv),
                    old(self).board.sd_player as int,
                ),
            r == forall|i: int|
                0 <= i < gen_all(old(self).board.squares@, old(self).board.sd_player as int, false).0.len()
                    ==> in_check_of(
                    moved_squares(
                        old(self).board.squares@,
                        #[trigger] gen_all(old(self).board.squares@, old(self).board.sd_player as int, false).0[i] as int,
                    ),
                    old(self).board.sd_player as int,
                ),
    {
        self.board.has_mate()
    }
}

} // verus!
