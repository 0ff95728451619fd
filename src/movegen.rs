//! Pseudo-legal move generation.
use vstd::prelude::*;
use crate::borad::Borad;
use crate::pregen::{
    advisor_delta, advisor_delta_at, home_half, home_half_of, in_broad, in_fort,
    king_delta, king_delta_at, knight_delta, knight_delta_at, lower_half,
    mvv_lva, mvv_value, on_board, on_fort, same_half, PIECE_ADVISOR, PIECE_BISHOP,
    PIECE_CANNON, PIECE_KING, PIECE_KNIGHT, PIECE_PAWN, PIECE_ROOK,
};
use crate::rules::{
    between_count, first_stop, line_delta, own_piece, pseudo_legal, role_move_ok, tag_of,
    valid_piece,
};
use crate::util::{dst_of, file_of, forward_of, merge, merge_of, rank_of, side_tag, opp_side_tag, square_forward, src_of};

verus! {

/// Value subtracted from the victim's value for each attacking role
/// (least valuable attacker): king 5, rook 4, pawn 2, the others 1.
pub open spec fn lva_of(role: int) -> int {
    if role == 0 {
        5
    } else if role == 4 {
        4
    } else if role == 6 {
        2
    } else {
        1
    }
}

/// A capture of side `sd` and its ordering score.
pub open spec fn capture_scored(s: Seq<isize>, sd: int, mv: int, vl: int) -> bool {
    let src = src_of(mv);
    let dst = dst_of(mv);
    &&& own_piece(s[dst] as int, 1 - sd)
    &&& vl == mvv_value(s[dst] as int % 8) - lva_of(s[src] - tag_of(sd))
}

/// The lists built so far are sound: every move is pseudo-legal; in capture
/// mode every move captures and carries its score, otherwise no scores.
pub open spec fn gen_sound(
    s: Seq<isize>,
    sd: int,
    captures: bool,
    mvs: Seq<isize>,
    vls: Seq<isize>,
) -> bool {
    &&& (if captures {
        vls.len() == mvs.len()
    } else {
        vls.len() == 0
    })
    &&& forall|i: int| 0 <= i < mvs.len() ==> #[trigger] pseudo_legal(s, sd, mvs[i] as int)
    &&& captures ==> forall|i: int|
        0 <= i < mvs.len() ==> #[trigger] capture_scored(s, sd, mvs[i] as int, vls[i] as int)
}

/// A pair of lists: moves and their scores.
pub type MoveList = (Seq<isize>, Seq<isize>);

pub open spec fn no_moves() -> MoveList {
    (Seq::empty(), Seq::empty())
}

pub open spec fn cat(a: MoveList, b: MoveList) -> MoveList {
    (a.0 + b.0, a.1 + b.1)
}

/// The move `src -> dst` as offered in a mode: for all moves unless the
/// destination holds an own piece; for captures only onto an enemy piece,
/// with its score.
pub open spec fn offer_of(s: Seq<isize>, sd: int, cap: bool, src: int, dst: int, lva: int) -> MoveList {
    let pc = s[dst] as int;
    if cap {
        if own_piece(pc, 1 - sd) {
            (seq![merge_of(src, dst) as isize], seq![(mvv_value(pc % 8) - lva) as isize])
        } else {
            no_moves()
        }
    } else {
        if !own_piece(pc, sd) {
            (seq![merge_of(src, dst) as isize], Seq::empty())
        } else {
            no_moves()
        }
    }
}

/// King (role 0) or advisor (role 1) step number `i`.
pub open spec fn step_moves(s: Seq<isize>, sd: int, cap: bool, src: int, role: int, i: int) -> MoveList {
    let d = if role == 0 {
        king_delta(i)
    } else {
        advisor_delta(i)
    };
    if on_fort(src + d) {
        offer_of(s, sd, cap, src, src + d, lva_of(role))
    } else {
        no_moves()
    }
}

pub open spec fn steps_upto(s: Seq<isize>, sd: int, cap: bool, src: int, role: int, n: int) -> MoveList
    decreases n,
{
    if n <= 0 {
        no_moves()
    } else {
        cat(steps_upto(s, sd, cap, src, role, n - 1), step_moves(s, sd, cap, src, role, n - 1))
    }
}

/// Bishop move number `i`: over a free eye on its own half, to a square of
/// the board on the same half.
pub open spec fn bishop_moves(s: Seq<isize>, sd: int, cap: bool, src: int, i: int) -> MoveList {
    let d = advisor_delta(i);
    let eye = src + d;
    let dst = eye + d;
    if on_board(eye) && home_half_of(eye, sd) && s[eye] == 0 && on_board(dst) && lower_half(src)
        == lower_half(dst) {
        offer_of(s, sd, cap, src, dst, 1)
    } else {
        no_moves()
    }
}

pub open spec fn bishop_upto(s: Seq<isize>, sd: int, cap: bool, src: int, n: int) -> MoveList
    decreases n,
{
    if n <= 0 {
        no_moves()
    } else {
        cat(bishop_upto(s, sd, cap, src, n - 1), bishop_moves(s, sd, cap, src, n - 1))
    }
}

pub open spec fn knight_jump(s: Seq<isize>, sd: int, cap: bool, src: int, i: int, j: int) -> MoveList {
    let dst = src + knight_delta(i, j);
    if on_board(dst) {
        offer_of(s, sd, cap, src, dst, 1)
    } else {
        no_moves()
    }
}

/// Knight jumps across the leg `src + king_delta(i)`, when it is free.
pub open spec fn knight_moves(s: Seq<isize>, sd: int, cap: bool, src: int, i: int) -> MoveList {
    if s[src + king_delta(i)] == 0 {
        cat(knight_jump(s, sd, cap, src, i, 0), knight_jump(s, sd, cap, src, i, 1))
    } else {
        no_moves()
    }
}

pub open spec fn knight_upto(s: Seq<isize>, sd: int, cap: bool, src: int, n: int) -> MoveList
    decreases n,
{
    if n <= 0 {
        no_moves()
    } else {
        cat(knight_upto(s, sd, cap, src, n - 1), knight_moves(s, sd, cap, src, n - 1))
    }
}

/// Moves onto the empty squares from `sq` on along `d`.
pub open spec fn quiet_slide(s: Seq<isize>, sd: int, cap: bool, src: int, sq: int, d: int, lva: int) -> MoveList
    decreases (if d > 0 {
        256 - sq + d
    } else {
        sq + 1 - d
    }),
{
    if on_board(sq) && d != 0 && s[sq] == 0 {
        cat(offer_of(s, sd, cap, src, sq, lva), quiet_slide(s, sd, cap, src, sq + d, d, lva))
    } else {
        no_moves()
    }
}

/// Rook or cannon moves along `king_delta(i)`: the quiet ones, then the
/// rook's move onto the first piece, or the cannon's onto the piece beyond
/// the first screen.
pub open spec fn line_moves(s: Seq<isize>, sd: int, cap: bool, src: int, i: int, cannon: bool) -> MoveList {
    let d = king_delta(i);
    let lva: int = if cannon {
        1
    } else {
        4
    };
    let f = first_stop(s, src + d, d);
    let g = first_stop(s, f + d, d);
    let tail = if !on_board(f) {
        no_moves()
    } else if !cannon {
        offer_of(s, sd, cap, src, f, lva)
    } else if on_board(g) {
        offer_of(s, sd, cap, src, g, lva)
    } else {
        no_moves()
    };
    cat(quiet_slide(s, sd, cap, src, src + d, d, lva), tail)
}

pub open spec fn lines_upto(s: Seq<isize>, sd: int, cap: bool, src: int, cannon: bool, n: int) -> MoveList
    decreases n,
{
    if n <= 0 {
        no_moves()
    } else {
        cat(lines_upto(s, sd, cap, src, cannon, n - 1), line_moves(s, sd, cap, src, n - 1, cannon))
    }
}

pub open spec fn pawn_step(s: Seq<isize>, sd: int, cap: bool, src: int, dst: int) -> MoveList {
    if on_board(dst) {
        offer_of(s, sd, cap, src, dst, 2)
    } else {
        no_moves()
    }
}

/// Pawn moves: forward, then sideways once across the river.
pub open spec fn pawn_moves(s: Seq<isize>, sd: int, cap: bool, src: int) -> MoveList {
    let fwd = pawn_step(s, sd, cap, src, forward_of(src, sd));
    if !home_half_of(src, sd) {
        cat(cat(fwd, pawn_step(s, sd, cap, src, src - 1)), pawn_step(s, sd, cap, src, src + 1))
    } else {
        fwd
    }
}

/// Moves of the piece on `src` if it belongs to side `sd`.
pub open spec fn piece_moves(s: Seq<isize>, sd: int, cap: bool, src: int) -> MoveList {
    let pc = s[src] as int;
    let role = pc - tag_of(sd);
    if !own_piece(pc, sd) {
        no_moves()
    } else if role == 0 || role == 1 {
        steps_upto(s, sd, cap, src, role, 4)
    } else if role == 2 {
        bishop_upto(s, sd, cap, src, 4)
    } else if role == 3 {
        knight_upto(s, sd, cap, src, 4)
    } else if role == 4 || role == 5 {
        lines_upto(s, sd, cap, src, role == 5, 4)
    } else {
        pawn_moves(s, sd, cap, src)
    }
}

/// Moves of the pieces on squares `0..n`, square by square.
pub open spec fn gen_upto(s: Seq<isize>, sd: int, cap: bool, n: int) -> MoveList
    decreases n,
{
    if n <= 0 {
        no_moves()
    } else {
        cat(gen_upto(s, sd, cap, n - 1), piece_moves(s, sd, cap, n - 1))
    }
}

/// The moves `generate_mvs` returns for placement `s` with side `sd` to
/// move: all pseudo-legal moves, or with `cap` the captures and their
/// scores.
pub open spec fn gen_all(s: Seq<isize>, sd: int, cap: bool) -> MoveList {
    gen_upto(s, sd, cap, 256)
}

proof fn lemma_cat_assoc(a: MoveList, b: MoveList, c: MoveList)
    ensures
        cat(cat(a, b), c) == cat(a, cat(b, c)),
{
    assert(cat(cat(a, b), c).0 =~= cat(a, cat(b, c)).0);
    assert(cat(cat(a, b), c).1 =~= cat(a, cat(b, c)).1);
}

proof fn lemma_cat_empty(a: MoveList)
    ensures
        cat(a, no_moves()) == a,
        cat(no_moves(), a) == a,
{
    assert(cat(a, no_moves()).0 =~= a.0);
    assert(cat(a, no_moves()).1 =~= a.1);
    assert(cat(no_moves(), a).0 =~= a.0);
    assert(cat(no_moves(), a).1 =~= a.1);
}

/// Score of capturing piece `pc` with an attacker of value `lva`.
pub open spec fn mvv_lva_spec(pc: int, lva: int) -> isize {
    (mvv_value(pc % 8) - lva) as isize
}

/// Count of pieces stepping from `a` to `b + delta` is the count up to `b`
/// plus the piece on `b`.
proof fn lemma_between_extend(s: Seq<isize>, a: int, b: int, delta: int)
    requires
        delta == 1 || delta == -1 || delta == 16 || delta == -16,
        0 <= a < 256,
        0 <= b < 256,
        delta == 1 || delta == -1 ==> rank_of(a) == rank_of(b),
        delta == 16 || delta == -16 ==> file_of(a) == file_of(b),
        delta > 0 ==> a <= b,
        delta < 0 ==> b <= a,
    ensures
        between_count(s, a, b + delta, delta) == between_count(s, a, b, delta) + if s[b] != 0 {
            1int
        } else {
            0int
        },
    decreases (if delta > 0 {
        b - a
    } else {
        a - b
    }),
{
    if a != b {
        assert(0 <= a + delta < 256);
        lemma_between_extend(s, a + delta, b, delta);
        assert(between_count(s, a, b, delta) == (if s[a] != 0 {
            1int
        } else {
            0int
        }) + between_count(s, a + delta, b, delta));
        assert(between_count(s, a, b + delta, delta) == (if s[a] != 0 {
            1int
        } else {
            0int
        }) + between_count(s, a + delta, b + delta, delta));
    } else {
        assert(between_count(s, a + delta, a + delta, delta) == 0);
        assert(between_count(s, a, a + delta, delta) == (if s[a] != 0 {
            1int
        } else {
            0int
        }) + between_count(s, a + delta, a + delta, delta));
    }
}

impl Borad {
    /// Appends `src -> dst` when the destination suits the mode: not an own
    /// piece for all moves, an enemy piece (with its score) for captures.
    #[verifier::rlimit(30)]
    fn offer(
        &self,
        mvs: &mut Vec<isize>,
        vls: &mut Vec<isize>,
        captures: bool,
        sq_src: isize,
        sq_dst: isize,
        lva: isize,
    )
        requires
            self.wf(),
            on_board(sq_src as int),
            on_board(sq_dst as int),
            own_piece(self.squares@[sq_src as int] as int, self.sd_player as int),
            role_move_ok(
                self.squares@,
                self.sd_player as int,
                sq_src as int,
                sq_dst as int,
                self.squares@[sq_src as int] - tag_of(self.sd_player as int),
            ),
            lva == lva_of(self.squares@[sq_src as int] - tag_of(self.sd_player as int)),
            gen_sound(self.squares@, self.sd_player as int, captures, old(mvs)@, old(vls)@),
        ensures
            gen_sound(self.squares@, self.sd_player as int, captures, final(mvs)@, final(vls)@),
            (final(mvs)@, final(vls)@) == cat(
                (old(mvs)@, old(vls)@),
                offer_of(self.squares@, self.sd_player as int, captures, sq_src as int, sq_dst as int, lva as int),
            ),
    {
        let ghost m0 = mvs@;
        let ghost v0 = vls@;
        let pc_dst = self.squares[sq_dst as usize];
        let self_side = side_tag(self.sd_player);
        let opp_side = opp_side_tag(self.sd_player);
        assert(valid_piece(self.squares@[sq_dst as int] as int));
        let mv = merge(sq_src, sq_dst);
        if captures {
            if pc_dst >= opp_side && pc_dst < opp_side + 8 {
                mvs.push(mv);
                vls.push(mvv_lva(pc_dst, lva));
                proof {
                    let n = mvs@.len() - 1;
                    assert(pseudo_legal(self.squares@, self.sd_player as int, mvs@[n] as int));
                    assert(capture_scored(
                        self.squares@,
                        self.sd_player as int,
                        mvs@[n] as int,
                        vls@[n] as int,
                    ));
                    assert(mvs@ =~= m0 + seq![mv]);
                    assert(vls@ =~= v0 + seq![mvv_lva_spec(pc_dst as int, lva as int)]);
                }
            } else {
                proof {
                    assert(m0 + Seq::<isize>::empty() =~= m0);
                    assert(v0 + Seq::<isize>::empty() =~= v0);
                }
            }
        } else {
            if !(pc_dst >= self_side && pc_dst < self_side + 8) {
                mvs.push(mv);
                proof {
                    let n = mvs@.len() - 1;
                    assert(pseudo_legal(self.squares@, self.sd_player as int, mvs@[n] as int));
                    assert(mvs@ =~= m0 + seq![mv]);
                    assert(vls@ =~= v0 + Seq::<isize>::empty());
                }
            } else {
                proof {
                    assert(m0 + Seq::<isize>::empty() =~= m0);
                    assert(v0 + Seq::<isize>::empty() =~= v0);
                }
            }
        }
    }

    /// Moves of a rook (`cannon == false`) or cannon from `sq_src` along
    /// `king_delta(i)`.
    #[verifier::rlimit(30)]
    fn gen_line(
        &self,
        mvs: &mut Vec<isize>,
        vls: &mut Vec<isize>,
        captures: bool,
        sq_src: isize,
        i: usize,
        cannon: bool,
    )
        requires
            self.wf(),
            i < 4,
            on_board(sq_src as int),
            self.squares@[sq_src as int] == tag_of(self.sd_player as int) + if cannon {
                5int
            } else {
                4int
            },
            gen_sound(self.squares@, self.sd_player as int, captures, old(mvs)@, old(vls)@),
        ensures
            gen_sound(self.squares@, self.sd_player as int, captures, final(mvs)@, final(vls)@),
            (final(mvs)@, final(vls)@) == cat(
                (old(mvs)@, old(vls)@),
                line_moves(self.squares@, self.sd_player as int, captures, sq_src as int, i as int, cannon),
            ),
    {
        let ghost s = self.squares@;
        let ghost sd = self.sd_player as int;
        let ghost start: MoveList = (mvs@, vls@);
        let delta = king_delta_at(i);
        let lva: isize = if cannon { 1 } else { 4 };
        let ghost quiet = quiet_slide(s, sd, captures, sq_src as int, sq_src + delta, delta as int, lva as int);
        let mut sq = sq_src + delta;
        proof {
            lemma_cat_empty(start);
        }
        while in_broad(sq) && self.squares[sq as usize] == 0
            invariant
                self.wf(),
                s == self.squares@,
                sd == self.sd_player,
                on_board(sq_src as int),
                s[sq_src as int] == tag_of(sd) + if cannon {
                    5int
                } else {
                    4int
                },
                lva == lva_of(s[sq_src as int] - tag_of(sd)),
                lva == (if cannon { 1int } else { 4int }),
                delta == king_delta(i as int),
                i < 4,
                on_board(sq - delta),
                delta == 1 || delta == -1 ==> rank_of(sq as int) == rank_of(sq_src as int),
                delta == 16 || delta == -16 ==> file_of(sq as int) == file_of(sq_src as int),
                delta > 0 ==> sq_src < sq,
                delta < 0 ==> sq < sq_src,
                between_count(s, sq_src + delta, sq as int, delta as int) == 0,
                first_stop(s, sq as int, delta as int) == first_stop(s, sq_src + delta, delta as int),
                quiet == quiet_slide(s, sd, captures, sq_src as int, sq_src + delta, delta as int, lva as int),
                cat((mvs@, vls@), quiet_slide(s, sd, captures, sq_src as int, sq as int, delta as int, lva as int))
                    == cat(start, quiet),
                gen_sound(s, sd, captures, mvs@, vls@),
            decreases (if delta > 0 {
                256 - sq + delta
            } else {
                sq + 1 - delta
            }),
        {
            let ghost before: MoveList = (mvs@, vls@);
            let ghost rest = quiet_slide(s, sd, captures, sq_src as int, sq + delta, delta as int, lva as int);
            let ghost here = offer_of(s, sd, captures, sq_src as int, sq as int, lva as int);
            assert(line_delta(sq_src as int, sq as int) == delta);
            if !captures {
                self.offer(mvs, vls, captures, sq_src, sq, lva);
            } else {
                proof {
                    assert(here == no_moves());
                    lemma_cat_empty(before);
                }
            }
            proof {
                lemma_between_extend(s, sq_src + delta, sq as int, delta as int);
                assert(quiet_slide(s, sd, captures, sq_src as int, sq as int, delta as int, lva as int) == cat(here, rest));
                lemma_cat_assoc(before, here, rest);
            }
            sq = sq + delta;
        }
        proof {
            assert(quiet_slide(s, sd, captures, sq_src as int, sq as int, delta as int, lva as int) == no_moves());
            lemma_cat_empty((mvs@, vls@));
            lemma_cat_empty(quiet);
        }
        let ghost after: MoveList = (mvs@, vls@);
        let ghost f = sq as int;
        if !in_broad(sq) {
            return;
        }
        if !cannon {
            assert(line_delta(sq_src as int, sq as int) == delta);
            self.offer(mvs, vls, captures, sq_src, sq, lva);
            proof {
                lemma_cat_assoc(start, quiet, offer_of(s, sd, captures, sq_src as int, f, lva as int));
            }
            return;
        }
        proof {
            lemma_between_extend(s, sq_src + delta, sq as int, delta as int);
        }
        sq = sq + delta;
        while in_broad(sq) && self.squares[sq as usize] == 0
            invariant
                self.wf(),
                s == self.squares@,
                sd == self.sd_player,
                on_board(sq_src as int),
                s[sq_src as int] == tag_of(sd) + 5,
                lva == lva_of(s[sq_src as int] - tag_of(sd)),
                delta == king_delta(i as int),
                i < 4,
                on_board(sq - delta),
                delta == 1 || delta == -1 ==> rank_of(sq as int) == rank_of(sq_src as int),
                delta == 16 || delta == -16 ==> file_of(sq as int) == file_of(sq_src as int),
                delta > 0 ==> sq_src < sq,
                delta < 0 ==> sq < sq_src,
                between_count(s, sq_src + delta, sq as int, delta as int) == 1,
                first_stop(s, sq as int, delta as int) == first_stop(s, f + delta, delta as int),
                (mvs@, vls@) == after,
                gen_sound(s, sd, captures, mvs@, vls@),
            decreases (if delta > 0 {
                256 - sq + delta
            } else {
                sq + 1 - delta
            }),
        {
            proof {
                lemma_between_extend(s, sq_src + delta, sq as int, delta as int);
            }
            sq = sq + delta;
        }
        if in_broad(sq) {
            assert(line_delta(sq_src as int, sq as int) == delta);
            self.offer(mvs, vls, captures, sq_src, sq, lva);
            proof {
                lemma_cat_assoc(start, quiet, offer_of(s, sd, captures, sq_src as int, sq as int, lva as int));
            }
        } else {
            proof {
                lemma_cat_empty(after);
                lemma_cat_empty(quiet);
            }
        }
    }

    /// Pseudo-legal moves of the side to move, square by square. With
    /// `None` all of them and no scores; with `Some(_)` only captures, each
    /// with its most-valuable-victim / least-valuable-attacker score (the
    /// vector passed in only selects this mode).
    #[verifier::rlimit(30)]
    pub fn generate_mvs(&self, vls_opt: Option<Vec<isize>>) -> (r: (Vec<isize>, Vec<isize>))
        requires
            self.wf(),
        ensures
            gen_sound(self.squares@, self.sd_player as int, vls_opt is Some, r.0@, r.1@),
            (r.0@, r.1@) == gen_all(self.squares@, self.sd_player as int, vls_opt is Some),
    {
        let captures = vls_opt.is_some();
        let ghost s = self.squares@;
        let ghost sd = self.sd_player as int;
        let self_side = side_tag(self.sd_player);
        let mut mvs: Vec<isize> = Vec::new();
        let mut vls: Vec<isize> = Vec::new();
        let mut sq_src: usize = 0;
        proof {
            assert((mvs@, vls@) == no_moves());
        }
        while sq_src < 256
            invariant
                self.wf(),
                s == self.squares@,
                sd == self.sd_player,
                self_side == tag_of(sd),
                sq_src <= 256,
                gen_sound(s, sd, captures, mvs@, vls@),
                (mvs@, vls@) == gen_upto(s, sd, captures, sq_src as int),
            decreases 256 - sq_src,
        {
            let ghost base: MoveList = (mvs@, vls@);
            let pc_src = self.squares[sq_src];
            assert(valid_piece(s[sq_src as int] as int));
            proof {
                lemma_cat_empty(base);
            }
            if pc_src >= self_side && pc_src < self_side + 8 {
                assert(on_board(sq_src as int));
                let src = sq_src as isize;
                let role = pc_src - self_side;
                if role == PIECE_KING || role == PIECE_ADVISOR {
                    let lva: isize = if role == PIECE_KING { 5 } else { 1 };
                    let mut i: usize = 0;
                    while i < 4
                        invariant
                            self.wf(),
                            s == self.squares@,
                            sd == self.sd_player,
                            on_board(src as int),
                            role == s[src as int] - tag_of(sd),
                            role == 0 || role == 1,
                            own_piece(s[src as int] as int, sd),
                            lva == lva_of(role as int),
                            i <= 4,
                            gen_sound(s, sd, captures, mvs@, vls@),
                            (mvs@, vls@) == cat(base, steps_upto(s, sd, captures, src as int, role as int, i as int)),
                        decreases 4 - i,
                    {
                        let ghost before: MoveList = (mvs@, vls@);
                        let ghost part = step_moves(s, sd, captures, src as int, role as int, i as int);
                        let d = if role == PIECE_KING { king_delta_at(i) } else { advisor_delta_at(i) };
                        let sq_dst = src + d;
                        if in_fort(sq_dst) {
                            self.offer(&mut mvs, &mut vls, captures, src, sq_dst, lva);
                        } else {
                            proof {
                                lemma_cat_empty(before);
                            }
                        }
                        proof {
                            lemma_cat_assoc(base, steps_upto(s, sd, captures, src as int, role as int, i as int), part);
                        }
                        i = i + 1;
                    }
                } else if role == PIECE_BISHOP {
                    let mut i: usize = 0;
                    while i < 4
                        invariant
                            self.wf(),
                            s == self.squares@,
                            sd == self.sd_player,
                            on_board(src as int),
                            s[src as int] - tag_of(sd) == 2,
                            own_piece(s[src as int] as int, sd),
                            i <= 4,
                            gen_sound(s, sd, captures, mvs@, vls@),
                            (mvs@, vls@) == cat(base, bishop_upto(s, sd, captures, src as int, i as int)),
                        decreases 4 - i,
                    {
                        let ghost before: MoveList = (mvs@, vls@);
                        let ghost part = bishop_moves(s, sd, captures, src as int, i as int);
                        let d = advisor_delta_at(i);
                        let eye = src + d;
                        let mut offered = false;
                        if in_broad(eye) && home_half(eye, self.sd_player)
                            && self.squares[eye as usize] == 0 {
                            let sq_dst = eye + d;
                            if in_broad(sq_dst) && same_half(src, sq_dst) {
                                self.offer(&mut mvs, &mut vls, captures, src, sq_dst, 1);
                                offered = true;
                            }
                        }
                        proof {
                            if !offered {
                                lemma_cat_empty(before);
                            }
                            lemma_cat_assoc(base, bishop_upto(s, sd, captures, src as int, i as int), part);
                        }
                        i = i + 1;
                    }
                } else if role == PIECE_KNIGHT {
                    let mut i: usize = 0;
                    while i < 4
                        invariant
                            self.wf(),
                            s == self.squares@,
                            sd == self.sd_player,
                            on_board(src as int),
                            s[src as int] - tag_of(sd) == 3,
                            own_piece(s[src as int] as int, sd),
                            i <= 4,
                            gen_sound(s, sd, captures, mvs@, vls@),
                            (mvs@, vls@) == cat(base, knight_upto(s, sd, captures, src as int, i as int)),
                        decreases 4 - i,
                    {
                        let ghost before: MoveList = (mvs@, vls@);
                        let ghost j0 = knight_jump(s, sd, captures, src as int, i as int, 0);
                        let ghost j1 = knight_jump(s, sd, captures, src as int, i as int, 1);
                        let leg = src + king_delta_at(i);
                        if self.squares[leg as usize] == 0 {
                            let a = src + knight_delta_at(i, 0);
                            if in_broad(a) {
                                self.offer(&mut mvs, &mut vls, captures, src, a, 1);
                            } else {
                                proof {
                                    lemma_cat_empty(before);
                                }
                            }
                            let ghost mid: MoveList = (mvs@, vls@);
                            let b = src + knight_delta_at(i, 1);
                            if in_broad(b) {
                                self.offer(&mut mvs, &mut vls, captures, src, b, 1);
                            } else {
                                proof {
                                    lemma_cat_empty(mid);
                                }
                            }
                            proof {
                                lemma_cat_assoc(before, j0, j1);
                            }
                        } else {
                            proof {
                                lemma_cat_empty(before);
                            }
                        }
                        proof {
                            lemma_cat_assoc(
                                base,
                                knight_upto(s, sd, captures, src as int, i as int),
                                knight_moves(s, sd, captures, src as int, i as int),
                            );
                        }
                        i = i + 1;
                    }
                } else if role == PIECE_ROOK || role == PIECE_CANNON {
                    let mut i: usize = 0;
                    while i < 4
                        invariant
                            self.wf(),
                            s == self.squares@,
                            sd == self.sd_player,
                            on_board(src as int),
                            role == s[src as int] - tag_of(sd),
                            role == 4 || role == 5,
                            i <= 4,
                            gen_sound(s, sd, captures, mvs@, vls@),
                            (mvs@, vls@) == cat(base, lines_upto(s, sd, captures, src as int, role == 5, i as int)),
                        decreases 4 - i,
                    {
                        self.gen_line(&mut mvs, &mut vls, captures, src, i, role == PIECE_CANNON);
                        proof {
                            lemma_cat_assoc(
                                base,
                                lines_upto(s, sd, captures, src as int, role == 5, i as int),
                                line_moves(s, sd, captures, src as int, i as int, role == 5),
                            );
                        }
                        i = i + 1;
                    }
                } else if role == PIECE_PAWN {
                    let ghost fwd = pawn_step(s, sd, captures, src as int, forward_of(src as int, sd));
                    let sq_dst = square_forward(src, self.sd_player);
                    if in_broad(sq_dst) {
                        self.offer(&mut mvs, &mut vls, captures, src, sq_dst, 2);
                    }
                    let ghost after_fwd: MoveList = (mvs@, vls@);
                    if !home_half(src, self.sd_player) {
                        let ghost lft = pawn_step(s, sd, captures, src as int, src - 1);
                        let ghost rgt = pawn_step(s, sd, captures, src as int, src + 1);
                        let left = src - 1;
                        if in_broad(left) {
                            self.offer(&mut mvs, &mut vls, captures, src, left, 2);
                        } else {
                            proof {
                                lemma_cat_empty(after_fwd);
                            }
                        }
                        let ghost mid: MoveList = (mvs@, vls@);
                        let right = src + 1;
                        if in_broad(right) {
                            self.offer(&mut mvs, &mut vls, captures, src, right, 2);
                        } else {
                            proof {
                                lemma_cat_empty(mid);
                            }
                        }
                        proof {
                            lemma_cat_assoc(base, fwd, lft);
                            lemma_cat_assoc(base, cat(fwd, lft), rgt);
                        }
                    }
                }
            }
            proof {
                assert(gen_upto(s, sd, captures, sq_src + 1) == cat(
                    gen_upto(s, sd, captures, sq_src as int),
                    piece_moves(s, sd, captures, sq_src as int),
                ));
            }
            sq_src = sq_src + 1;
        }
        (mvs, vls)
    }
}

} // verus!
