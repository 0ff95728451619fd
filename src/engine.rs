//! The searcher: transposition table, killer and history heuristics, the
//! staged move picker, quiescence, principal-variation search with null-move
//! pruning, and the iterative-deepening driver.
use vstd::prelude::*;
use rand::rngs::StdRng;
use crate::book::{candidates_of, Book};
use crate::history::Moved;
use crate::borad::{position_key, evaluation_of, few_pieces, lemma_eval_bounded, lemma_moved_few, draw_of, lemma_unmove_moved, rep_scan, rep_value_of, Borad};
use crate::movegen::gen_all;
use crate::chance::{random_below, rng_from_os, rng_from_seed};
use crate::clock::{elapsed_millis, now};
use crate::pregen::{
    home_half, in_broad, on_board, PIECE_KING, Winner, BAN_VALUE, HASH_ALPHA, HASH_BETA, HASH_PV, LIMIT_DEPTH, LIMIT_HISTORY, MATE_VALUE,
    NULL_DEPTH, RANDOMNESS, WIN_VALUE,
};
use crate::rules::{find_from, in_check_of, moved_squares, pseudo_legal, tag_of, valid_piece};
use crate::shell::{lemma_perm_keeps, pairs_from, has_pair, sort};
use crate::state::{phases_left, MoveState, Status};
use crate::util::{dst, dst_of, side_tag, src_of};

verus! {

/// Bound on the magnitude of every score the search handles.
pub const VALUE_LIMIT: isize = 100000;

/// Largest score given to a move that must be tried first.
pub const FIRST_SCORE: isize = 0x7fffffff;

/// A transposition-table entry. An empty slot has lock 0 and depth 0.
#[derive(Clone, Copy, PartialEq, Eq, Structural, Debug)]
pub struct Hash {
    pub depth: isize,
    pub flag: isize,
    pub vl: isize,
    pub mv: isize,
    pub zobrist_lock: i32,
}

/// Slot of a position with key `key` in a table of `mask + 1` entries.
pub open spec fn hash_slot(key: i32, mask: isize) -> int {
    ((key as u32) & (mask as u32)) as int
}

/// What `probe_hash` returns for entry `e` when the position has lock
/// `lock` and is at distance `dist`: the stored score (mate scores brought
/// back to this distance) when it is usable for the window and depth,
/// otherwise `-MATE_VALUE`.
pub open spec fn probe_of(e: Hash, lock: i32, dist: int, alpha: int, beta: int, depth: int) -> int {
    if e.zobrist_lock != lock {
        -MATE_VALUE
    } else if e.vl > WIN_VALUE && e.vl <= BAN_VALUE {
        -MATE_VALUE
    } else if e.vl < -WIN_VALUE && e.vl > -BAN_VALUE {
        -MATE_VALUE
    } else if -WIN_VALUE <= e.vl <= WIN_VALUE && e.vl == draw_of(dist) {
        -MATE_VALUE
    } else {
        let mate = e.vl > WIN_VALUE || e.vl < -WIN_VALUE;
        let v = if e.vl > WIN_VALUE {
            e.vl - dist
        } else if e.vl < -WIN_VALUE {
            e.vl + dist
        } else {
            e.vl as int
        };
        if v < dist - MATE_VALUE || v > MATE_VALUE - dist {
            -MATE_VALUE
        } else if e.depth < depth && !mate {
            -MATE_VALUE
        } else if e.flag == HASH_BETA {
            if v >= beta {
                v
            } else {
                -MATE_VALUE
            }
        } else if e.flag == HASH_ALPHA {
            if v <= alpha {
                v
            } else {
                -MATE_VALUE
            }
        } else {
            v
        }
    }
}

/// Score stored for `vl` found at distance `dist`: mate scores are made
/// relative to the node (a win's distance added, a loss's subtracted).
pub open spec fn stored_score(vl: int, dist: int) -> int {
    if vl > WIN_VALUE {
        vl + dist
    } else if vl < -WIN_VALUE {
        vl - dist
    } else {
        vl
    }
}

/// Whether `record_hash` writes: not over a deeper entry, not a banned or
/// lost mate score without a move, not the draw score without a move, and
/// not a score beyond the bound.
pub open spec fn record_writes(e: Hash, vl: int, depth: int, mv: int, dist: int) -> bool {
    &&& e.depth <= depth
    &&& !(vl > WIN_VALUE && mv == 0 && vl <= BAN_VALUE)
    &&& !(vl < -WIN_VALUE && mv == 0 && vl >= -BAN_VALUE)
    &&& !(-WIN_VALUE <= vl <= WIN_VALUE && vl == draw_of(dist) && mv == 0)
    &&& -VALUE_LIMIT <= stored_score(vl, dist) <= VALUE_LIMIT
}

/// The picker's moves are pseudo-legal on board `b` and its bookkeeping is
/// in range.
pub open spec fn state_ok(st: MoveState, b: Borad) -> bool {
    &&& st.mvs@.len() == st.vls@.len()
    &&& st.index <= st.mvs@.len()
    &&& forall|i: int|
        0 <= i < st.mvs@.len() ==> #[trigger] pseudo_legal(b.squares@, b.sd_player as int, st.mvs@[i] as int)
    &&& 0 <= st.hash < 65536
    &&& 0 <= st.killer_first < 65536
    &&& 0 <= st.killer_second < 65536
}

/// A window bound allowed at distance `d`.
pub open spec fn window_ok(v: int, d: int) -> bool {
    -(VALUE_LIMIT + 64 + 2 * d) <= v <= VALUE_LIMIT + 64 + 2 * d
}

pub open spec fn score_ok(v: int) -> bool {
    -VALUE_LIMIT <= v <= VALUE_LIMIT
}

/// Every move of `m` is pseudo-legal on `b`.
pub open spec fn all_pseudo_legal(m: Seq<isize>, b: Borad) -> bool {
    forall|i: int| 0 <= i < m.len() ==> #[trigger] pseudo_legal(b.squares@, b.sd_player as int, m[i] as int)
}

proof fn lemma_pairs_keep_legal(m2: Seq<isize>, v2: Seq<isize>, m1: Seq<isize>, v1: Seq<isize>, b: Borad)
    requires
        pairs_from(m2, v2, m1, v1),
        all_pseudo_legal(m1, b),
    ensures
        all_pseudo_legal(m2, b),
{
    assert forall|i: int| 0 <= i < m2.len() implies #[trigger] pseudo_legal(b.squares@, b.sd_player as int, m2[i] as int) by {
        assert(has_pair(m1, v1, m2[i], v2[i]));
        let j = choose|j: int| 0 <= j < m1.len() && j < v1.len() && m1[j] == m2[i] && v1[j] == v2[i];
        assert(pseudo_legal(b.squares@, b.sd_player as int, m1[j] as int));
    }
}

/// The side to move has no generated move that keeps its king out of check.
pub open spec fn no_escape(s: Seq<isize>, sd: int) -> bool {
    forall|i: int|
        0 <= i < gen_all(s, sd, false).0.len() ==> in_check_of(
            moved_squares(s, #[trigger] gen_all(s, sd, false).0[i] as int),
            sd,
        )
}

/// Result of the game on board `b`, if it is over: the side to move loses
/// with no move or no king; a third repetition is a draw unless perpetual
/// check decides it by the repetition score; with no knight, rook, cannon
/// or pawn on the board it is a draw.
pub open spec fn game_outcome(b: Borad) -> Option<Winner> {
    let s = b.squares@;
    let sd = b.sd_player as int;
    let opp = if sd == 0 {
        Winner::Black
    } else {
        Winner::Red
    };
    let me = if sd == 0 {
        Winner::Red
    } else {
        Winner::Black
    };
    let rep = rep_scan(b.moves@, b.zobrist_key, b.moves@.len() - 1, false, true, true, 3);
    let v = rep_value_of(rep, b.distance as int);
    if no_escape(s, sd) {
        Some(opp)
    } else if find_from(s, tag_of(sd), 0) >= 256 {
        Some(opp)
    } else if rep > 0 {
        if -WIN_VALUE < v < WIN_VALUE {
            Some(Winner::Draw)
        } else if v < 0 {
            Some(opp)
        } else {
            Some(me)
        }
    } else if exists|i: int| 0 <= i < 256 && on_board(i) && #[trigger] s[i] % 8 > 2 {
        None
    } else {
        Some(Winner::Draw)
    }
}

/// Root score of a new best move after the random jitter `up - down`,
/// moved off the draw score `draw`.
pub fn jitter_score(vl: isize, up: isize, down: isize, draw: isize) -> (r: isize)
    requires
        -WIN_VALUE < vl < WIN_VALUE,
        0 <= up < RANDOMNESS,
        0 <= down < RANDOMNESS,
    ensures
        r == if vl + up - down == draw {
            vl + up - down - 1
        } else {
            vl + up - down
        },
{
    let v = vl + up - down;
    if v == draw {
        v - 1
    } else {
        v
    }
}

/// Whether iterative deepening stops after an iteration that took the
/// search to `elapsed` milliseconds of a budget of `millis`, scored `vl`, and
/// found the best move unique or not.
pub fn stop_deepening(elapsed: u128, millis: u64, vl: isize, unique: bool) -> (r: bool)
    ensures
        r == (elapsed >= millis as u128 || vl < -WIN_VALUE || vl > WIN_VALUE || unique),
{
    elapsed >= millis as u128 || vl < -WIN_VALUE || vl > WIN_VALUE || unique
}

/// Score within the mate range at distance `d`.
pub open spec fn mate_bounded(r: int, d: int) -> bool {
    d - MATE_VALUE <= r <= MATE_VALUE - d
}

/// Repetition status with one repetition, as `rep_status(1)` returns it.
pub open spec fn rep_once(b: Borad) -> int {
    rep_scan(b.moves@, b.zobrist_key, b.moves@.len() - 1, false, true, true, 1)
}

/// Every pseudo-legal move of side `sd` leaves its own king in check.
pub open spec fn all_stuck(s: Seq<isize>, sd: int) -> bool {
    forall|mv: int| pseudo_legal(s, sd, mv) ==> #[trigger] in_check_of(moved_squares(s, mv), sd)
}

/// What quiescence search returns on board `b` with window bound `beta`:
/// mate scores bounded when there are few pieces; the evaluation at the
/// depth limit; the mate score in check with no escape; and, out of check,
/// at least the lesser of `beta` and the evaluation (the stand-pat score).
pub open spec fn quiescence_result(b: Borad, beta: int, r: int) -> bool {
    let d = b.distance as int;
    let ev = evaluation_of(b.own_value(), b.opp_value(), d);
    let open = d - MATE_VALUE < beta && rep_once(b) == 0;
    &&& few_pieces(b.squares@) ==> mate_bounded(r, d)
    &&& open && d == LIMIT_DEPTH ==> r == ev
    &&& open && d < LIMIT_DEPTH && b.moves@.last().checked && no_escape(b.squares@, b.sd_player as int)
        ==> r == d - MATE_VALUE
    &&& open && !b.moves@.last().checked ==> (r >= beta || r >= ev)
}

/// Move `mv`, one of the moves generated on board `b`, is still to come
/// from picker `st`: in the early phases unless an earlier phase offered
/// it, in the last phase if it lies ahead of the index and is none of the
/// moves offered before.
pub open spec fn pending(st: MoveState, b: Borad, mv: isize) -> bool {
    let g = gen_all(b.squares@, b.sd_player as int, false).0;
    let early = g.contains(mv) && pseudo_legal(b.squares@, b.sd_player as int, mv as int);
    match st.phase {
        Status::Hash => early,
        Status::KillerFirst => early && mv != st.hash,
        Status::KillerSecond => early && mv != st.hash && mv != st.killer_first,
        Status::GenMoves => early && mv != st.hash && mv != st.killer_first && mv
            != st.killer_second,
        Status::REST => (exists|k: int| st.index <= k < st.mvs@.len() && st.mvs@[k] == mv) && mv
            != st.hash && mv != st.killer_first && mv != st.killer_second,
    }
}

/// Some generated move of side `sd` keeps its king out of check.
pub open spec fn has_escape(s: Seq<isize>, sd: int) -> bool {
    exists|mv: isize|
        #[trigger] gen_all(s, sd, false).0.contains(mv) && pseudo_legal(s, sd, mv as int) && !in_check_of(
            moved_squares(s, mv as int),
            sd,
        )
}

/// Repetition status, with three repetitions, right after `mv` is played
/// on board `b`.
pub open spec fn rep_after(b: Borad, mv: int) -> int {
    let sd = b.sd_player as int;
    let ns = moved_squares(b.squares@, mv);
    let moves = b.moves@.push(
        Moved {
            mv: mv as isize,
            zobrist_key: b.zobrist_key,
            capture_piece: b.squares@[dst_of(mv)],
            checked: in_check_of(ns, 1 - sd),
        },
    );
    rep_scan(moves, position_key(b.tables, ns, 1 - sd), moves.len() - 1, false, true, true, 3)
}

/// The engine: a board and the search state around it.
pub struct Engine {
    pub board: Borad,
    /// The transposition table has `mask + 1` entries.
    pub mask: isize,
    pub hash_table: Vec<Hash>,
    pub history: Vec<isize>,
    pub killer_table: Vec<[isize; 2]>,
    /// Best root move of the last completed iteration.
    pub result: isize,
    pub all_nodes: isize,
    pub book: Book,
    pub rng: StdRng,
}

impl Engine {
    pub open spec fn wf(&self) -> bool {
        &&& self.board.wf()
        &&& self.book.sorted()
        &&& 0 <= self.mask < 0x100_0000
    }

    /// The search tables are allocated and their entries are in range.
    pub open spec fn ready(&self) -> bool {
        &&& self.hash_table@.len() == self.mask + 1
        &&& self.history@.len() == LIMIT_HISTORY
        &&& self.killer_table@.len() == LIMIT_DEPTH
        &&& forall|i: int|
            0 <= i < self.hash_table@.len() ==> {
                let e = #[trigger] self.hash_table@[i];
                0 <= e.mv < 65536 && -VALUE_LIMIT <= e.vl <= VALUE_LIMIT
            }
        &&& forall|i: int|
            0 <= i < self.killer_table@.len() ==> {
                let k = #[trigger] self.killer_table@[i];
                0 <= k[0] < 65536 && 0 <= k[1] < 65536
            }
    }

    /// The board and the search tables' sizes are as before.
    pub open spec fn kept(&self, old: &Engine) -> bool {
        &&& self.board.same_state(&old.board)
        &&& self.mask == old.mask
        &&& self.book == old.book
    }

    /// An engine on an empty board, drawing its random numbers from a
    /// generator seeded by the operating system.
    pub fn new() -> (e: Engine)
        ensures
            e.wf(),
            e.board.distance == 0,
            forall|i: int| 0 <= i < 256 ==> e.board.squares@[i] == 0,
            e.board.sd_player == 0,
            e.board.moves@.len() == 1,
            e.mask == 65535,
            e.book.data@.len() == 0,
            e.board.tables.standard(),
    {
        Engine {
            board: Borad::new(),
            mask: 65535,
            hash_table: Vec::new(),
            history: Vec::new(),
            killer_table: Vec::new(),
            result: 0,
            all_nodes: 0,
            book: Book::empty(),
            rng: rng_from_os(),
        }
    }

    /// An engine whose random numbers come from a generator seeded with
    /// `seed`, for reproducible play.
    pub fn with_seed(seed: u64) -> (e: Engine)
        ensures
            e.wf(),
            e.board.distance == 0,
            forall|i: int| 0 <= i < 256 ==> e.board.squares@[i] == 0,
            e.board.sd_player == 0,
            e.board.moves@.len() == 1,
            e.mask == 65535,
            e.book.data@.len() == 0,
            e.board.tables.standard(),
    {
        Engine {
            board: Borad::new(),
            mask: 65535,
            hash_table: Vec::new(),
            history: Vec::new(),
            killer_table: Vec::new(),
            result: 0,
            all_nodes: 0,
            book: Book::empty(),
            rng: rng_from_seed(seed),
        }
    }

    /// Installs an opening book if its records are sorted by lock; returns
    /// whether it was installed.
    pub fn set_book(&mut self, book: Book) -> (r: bool)
        requires
            old(self).wf(),
        ensures
            final(self).wf(),
            final(self).board == old(self).board,
            r == book.sorted(),
            r ==> final(self).book == book,
            !r ==> final(self).book == old(self).book,
    {
        let n = book.data.len();
        let mut i: usize = 1;
        while i < n
            invariant
                1 <= i || n == 0,
                n == book.data@.len(),
                self.wf(),
                self.board == old(self).board,
                self.book == old(self).book,
                forall|a: int, b: int| 0 <= a < b < i && b < n ==> book.data@[a][0] <= book.data@[b][0],
            decreases n - i,
        {
            if book.data[i - 1][0] > book.data[i][0] {
                return false;
            }
            i = i + 1;
        }
        self.book = book;
        true
    }

    /// Allocates fresh transposition, killer and history tables.
    fn clear_tables(&mut self)
        requires
            old(self).wf(),
        ensures
            final(self).wf(),
            final(self).ready(),
            final(self).board == old(self).board,
            final(self).mask == old(self).mask,
            final(self).book == old(self).book,
            final(self).result == old(self).result,
    {
        let mut table: Vec<Hash> = Vec::new();
        let n = (self.mask + 1) as usize;
        let mut i: usize = 0;
        while i < n
            invariant
                i <= n,
                table@.len() == i,
                forall|k: int| 0 <= k < table@.len() ==> #[trigger] table@[k] == (Hash { depth: 0, flag: 0, vl: 0, mv: 0, zobrist_lock: 0 }),
            decreases n - i,
        {
            table.push(Hash { depth: 0, flag: 0, vl: 0, mv: 0, zobrist_lock: 0 });
            i = i + 1;
        }
        let mut killers: Vec<[isize; 2]> = Vec::new();
        let mut i: usize = 0;
        while i < LIMIT_DEPTH
            invariant
                i <= LIMIT_DEPTH,
                killers@.len() == i,
                forall|k: int| 0 <= k < killers@.len() ==> #[trigger] killers@[k] == [0isize, 0isize],
            decreases LIMIT_DEPTH - i,
        {
            killers.push([0, 0]);
            i = i + 1;
        }
        let mut history: Vec<isize> = Vec::new();
        let mut i: usize = 0;
        while i < LIMIT_HISTORY
            invariant
                i <= LIMIT_HISTORY,
                history@.len() == i,
            decreases LIMIT_HISTORY - i,
        {
            history.push(0);
            i = i + 1;
        }
        self.hash_table = table;
        self.killer_table = killers;
        self.history = history;
    }

    fn slot(&self) -> (r: usize)
        requires
            self.wf(),
            self.ready(),
        ensures
            r == hash_slot(self.board.zobrist_key, self.mask),
            r < self.hash_table@.len(),
    {
        let k = self.board.zobrist_key as u32;
        let m = self.mask as u32;
        let r = k & m;
        assert(k & m <= m) by (bit_vector);
        r as usize
    }

    /// Looks the position up in the transposition table. `mv` receives the
    /// stored move when the lock matches, else 0. Returns the stored score
    /// when it can be used for this window and depth, else `-MATE_VALUE`.
    pub fn probe_hash(&self, vl_alpha: isize, vl_beta: isize, depth: isize, mv: &mut isize) -> (r: isize)
        requires
            self.wf(),
            self.ready(),
            self.board.distance <= LIMIT_DEPTH,
        ensures
            ({
                let e = self.hash_table@[hash_slot(self.board.zobrist_key, self.mask)];
                &&& r == probe_of(
                    e,
                    self.board.zobrist_lock,
                    self.board.distance as int,
                    vl_alpha as int,
                    vl_beta as int,
                    depth as int,
                )
                &&& *final(mv) == if e.zobrist_lock == self.board.zobrist_lock {
                    e.mv
                } else {
                    0
                }
            }),
            0 <= *final(mv) < 65536,
            score_ok(r as int),
    {
        let i = self.slot();
        let hash = self.hash_table[i];
        if hash.zobrist_lock != self.board.zobrist_lock {
            *mv = 0;
            return -MATE_VALUE;
        }
        *mv = hash.mv;
        let mut mate = false;
        let mut v = hash.vl;
        if hash.vl > WIN_VALUE {
            if hash.vl <= BAN_VALUE {
                return -MATE_VALUE;
            }
            v = hash.vl - self.board.distance;
            mate = true;
        } else if hash.vl < -WIN_VALUE {
            if hash.vl > -BAN_VALUE {
                return -MATE_VALUE;
            }
            v = hash.vl + self.board.distance;
            mate = true;
        } else if hash.vl == self.board.draw_value() {
            return -MATE_VALUE;
        }
        if v < self.board.distance - MATE_VALUE || v > MATE_VALUE - self.board.distance {
            return -MATE_VALUE;
        }
        if hash.depth < depth && !mate {
            return -MATE_VALUE;
        }
        if hash.flag == HASH_BETA {
            if v >= vl_beta {
                return v;
            }
            return -MATE_VALUE;
        }
        if hash.flag == HASH_ALPHA {
            if v <= vl_alpha {
                return v;
            }
            return -MATE_VALUE;
        }
        v
    }

    /// Stores a search result for the position, unless the slot holds a
    /// deeper result or the score may not be stored (see `record_writes`).
    pub fn record_hash(&mut self, flag: isize, vl: isize, depth: isize, mv: isize)
        requires
            old(self).wf(),
            old(self).ready(),
            old(self).board.distance <= LIMIT_DEPTH,
            score_ok(vl as int),
            0 <= mv < 65536,
        ensures
            final(self).wf(),
            final(self).ready(),
            final(self).board == old(self).board,
            final(self).mask == old(self).mask,
            final(self).book == old(self).book,
            final(self).history == old(self).history,
            final(self).killer_table == old(self).killer_table,
            final(self).result == old(self).result,
            ({
                let i = hash_slot(old(self).board.zobrist_key, old(self).mask);
                let e = old(self).hash_table@[i];
                let d = old(self).board.distance as int;
                final(self).hash_table@ == if record_writes(e, vl as int, depth as int, mv as int, d) {
                    old(self).hash_table@.update(
                        i,
                        Hash {
                            depth,
                            flag,
                            vl: stored_score(vl as int, d) as isize,
                            mv,
                            zobrist_lock: old(self).board.zobrist_lock,
                        },
                    )
                } else {
                    old(self).hash_table@
                }
            }),
    {
        let i = self.slot();
        let hash = self.hash_table[i];
        if hash.depth > depth {
            return;
        }
        let d = self.board.distance;
        let stored: isize;
        if vl > WIN_VALUE {
            if mv == 0 && vl <= BAN_VALUE {
                return;
            }
            stored = vl + d;
        } else if vl < -WIN_VALUE {
            if mv == 0 && vl >= -BAN_VALUE {
                return;
            }
            stored = vl - d;
        } else if vl == self.board.draw_value() && mv == 0 {
            return;
        } else {
            stored = vl;
        }
        if stored < -VALUE_LIMIT || stored > VALUE_LIMIT {
            return;
        }
        let e = Hash { depth, flag, vl: stored, mv, zobrist_lock: self.board.zobrist_lock };
        self.hash_table.set(i, e);
    }

    /// Rewards `mv` as the best move at this depth: its history score grows
    /// by `depth * depth` (saturating) and it becomes the first killer at
    /// this distance, the former first killer moving to second place.
    pub fn set_best_move(&mut self, mv: isize, depth: isize)
        requires
            old(self).wf(),
            old(self).ready(),
            0 <= old(self).board.distance < LIMIT_DEPTH,
            pseudo_legal(old(self).board.squares@, old(self).board.sd_player as int, mv as int),
            1 <= depth <= LIMIT_DEPTH,
        ensures
            final(self).wf(),
            final(self).ready(),
            final(self).board == old(self).board,
            final(self).mask == old(self).mask,
            final(self).book == old(self).book,
            final(self).hash_table == old(self).hash_table,
            final(self).result == old(self).result,
            ({
                let idx = (old(self).board.squares@[src_of(mv as int)] - 8) * 256 + dst_of(mv as int);
                let h = old(self).history@[idx];
                final(self).history@ == old(self).history@.update(
                    idx,
                    if h <= isize::MAX - depth * depth {
                        (h + depth * depth) as isize
                    } else {
                        isize::MAX
                    },
                )
            }),
            ({
                let dd = old(self).board.distance as int;
                let k = old(self).killer_table@[dd];
                final(self).killer_table@ == if k[0] != mv {
                    old(self).killer_table@.update(dd, [mv, k[0]])
                } else {
                    old(self).killer_table@
                }
            }),
    {
        let idx = self.board.history_index(mv) as usize;
        let h = self.history[idx];
        assert(1 <= depth * depth <= 4096) by (nonlinear_arith)
            requires
                1 <= depth <= 64,
        ;
        let dd = depth * depth;
        let nh = if h <= isize::MAX - dd { h + dd } else { isize::MAX };
        self.history.set(idx, nh);
        let di = self.board.distance as usize;
        let killer = self.killer_table[di];
        if killer[0] != mv {
            self.killer_table.set(di, [mv, killer[0]]);
        }
    }

    /// History score of a pseudo-legal move.
    fn history_score(&self, mv: isize) -> (r: isize)
        requires
            self.wf(),
            self.ready(),
            pseudo_legal(self.board.squares@, self.board.sd_player as int, mv as int),
        ensures
            r == self.history@[(self.board.squares@[src_of(mv as int)] - 8) * 256 + dst_of(mv as int)],
    {
        self.history[self.board.history_index(mv) as usize]
    }

    /// History scores of a list of pseudo-legal moves.
    fn history_scores(&self, mvs: &Vec<isize>) -> (r: Vec<isize>)
        requires
            self.wf(),
            self.ready(),
            all_pseudo_legal(mvs@, self.board),
        ensures
            r@.len() == mvs@.len(),
    {
        let mut vls: Vec<isize> = Vec::new();
        let mut i: usize = 0;
        while i < mvs.len()
            invariant
                self.wf(),
                self.ready(),
                all_pseudo_legal(mvs@, self.board),
                i <= mvs@.len(),
                vls@.len() == i,
            decreases mvs@.len() - i,
        {
            let mv = mvs[i];
            assert(pseudo_legal(self.board.squares@, self.board.sd_player as int, mvs@[i as int] as int));
            vls.push(self.history_score(mv));
            i = i + 1;
        }
        vls
    }

    /// Tries `mv` and takes it back; returns whether it keeps the mover's
    /// king out of check.
    fn trial_move(&mut self, mv: isize) -> (r: bool)
        requires
            old(self).wf(),
            old(self).board.distance < LIMIT_DEPTH,
            pseudo_legal(old(self).board.squares@, old(self).board.sd_player as int, mv as int),
        ensures
            final(self).wf(),
            final(self).kept(&*old(self)),
            final(self).hash_table == old(self).hash_table,
            final(self).history == old(self).history,
            final(self).killer_table == old(self).killer_table,
            final(self).result == old(self).result,
            r == !in_check_of(
                moved_squares(old(self).board.squares@, mv as int),
                old(self).board.sd_player as int,
            ),
    {
        let ghost b0 = self.board;
        if self.board.make_move(mv) {
            proof {
                lemma_unmove_moved(b0.squares@, self.board.moves@.last());
            }
            self.board.undo_make_move();
            proof {
                assert(self.board.moves@ =~= b0.moves@);
            }
            true
        } else {
            false
        }
    }

    /// A move picker for the current position with hash move `hash`. Out of
    /// check it takes the killers of this distance and generates moves later.
    /// In check it holds at once the moves that escape, sorted by history
    /// score with the hash move and the killers first, and notes whether
    /// there is exactly one.
    #[verifier::rlimit(30)]
    pub fn new_state(&mut self, hash: isize) -> (st: MoveState)
        requires
            old(self).wf(),
            old(self).ready(),
            0 <= old(self).board.distance < LIMIT_DEPTH,
            0 <= hash < 65536,
        ensures
            final(self).wf(),
            final(self).ready(),
            final(self).kept(&*old(self)),
            final(self).hash_table == old(self).hash_table,
            final(self).history == old(self).history,
            final(self).killer_table == old(self).killer_table,
            final(self).result == old(self).result,
            state_ok(st, final(self).board),
            !old(self).board.moves@.last().checked ==> st.phase == Status::Hash && st.hash == hash
                && st.killer_first == old(self).killer_table@[old(self).board.distance as int][0]
                && st.killer_second == old(self).killer_table@[old(self).board.distance as int][1],
            forall|mv: isize|
                #[trigger] gen_all(old(self).board.squares@, old(self).board.sd_player as int, false).0.contains(mv)
                    && pseudo_legal(old(self).board.squares@, old(self).board.sd_player as int, mv as int)
                    && !in_check_of(moved_squares(old(self).board.squares@, mv as int), old(self).board.sd_player as int)
                    ==> pending(st, final(self).board, mv),
            old(self).board.moves@.last().checked ==> st.phase == Status::REST && st.index == 0
                && st.signle == (st.mvs@.len() == 1)
                && forall|i: int| 0 <= i < st.mvs@.len() ==> !in_check_of(
                    moved_squares(old(self).board.squares@, #[trigger] st.mvs@[i] as int),
                    old(self).board.sd_player as int,
                ),
    {
        let mut state = MoveState::new(hash);
        let di = self.board.distance as usize;
        let killer = self.killer_table[di];
        if !self.board.in_check() {
            state.killer_first = killer[0];
            state.killer_second = killer[1];
            return state;
        }
        state.phase = Status::REST;
        state.hash = 0;
        let (all, _) = self.board.generate_mvs(None);
        let mut i: usize = 0;
        while i < all.len()
            invariant
                self.wf(),
                self.ready(),
                self.kept(&*old(self)),
                self.hash_table == old(self).hash_table,
                self.history == old(self).history,
                self.killer_table == old(self).killer_table,
                self.result == old(self).result,
                0 <= self.board.distance < LIMIT_DEPTH,
                i <= all@.len(),
                all_pseudo_legal(all@, self.board),
                all_pseudo_legal(state.mvs@, self.board),
                state.mvs@.len() == state.vls@.len(),
                forall|k: int| 0 <= k < state.mvs@.len() ==> !in_check_of(
                    moved_squares(old(self).board.squares@, #[trigger] state.mvs@[k] as int),
                    old(self).board.sd_player as int,
                ),
                state.phase == Status::REST,
                state.index == 0,
                state.hash == 0,
                state.killer_first == 0,
                state.killer_second == 0,
                all@ == gen_all(old(self).board.squares@, old(self).board.sd_player as int, false).0,
                forall|k: int| 0 <= k < i && !in_check_of(
                    moved_squares(old(self).board.squares@, #[trigger] all@[k] as int),
                    old(self).board.sd_player as int,
                ) ==> state.mvs@.contains(all@[k]),
            decreases all@.len() - i,
        {
            let mv = all[i];
            assert(pseudo_legal(self.board.squares@, self.board.sd_player as int, all@[i as int] as int));
            if self.trial_move(mv) {
                let vl = if mv == hash || mv == killer[0] || mv == killer[1] {
                    FIRST_SCORE
                } else {
                    self.history_score(mv)
                };
                let ghost before = state.mvs@;
                state.mvs.push(mv);
                state.vls.push(vl);
                proof {
                    assert forall|k: int| 0 <= k <= i && !in_check_of(
                        moved_squares(old(self).board.squares@, #[trigger] all@[k] as int),
                        old(self).board.sd_player as int,
                    ) implies state.mvs@.contains(all@[k]) by {
                        if k < i {
                            let j = choose|j: int| 0 <= j < before.len() && before[j] == all@[k];
                            assert(state.mvs@[j] == all@[k]);
                        } else {
                            assert(state.mvs@[before.len() as int] == all@[k]);
                        }
                    }
                }
            }
            i = i + 1;
        }
        let ghost m1 = state.mvs@;
        let ghost v1 = state.vls@;
        sort(&mut state.mvs, &mut state.vls);
        proof {
            lemma_pairs_keep_legal(state.mvs@, state.vls@, m1, v1, self.board);
            assert forall|k: int| 0 <= k < state.mvs@.len() implies !in_check_of(
                moved_squares(old(self).board.squares@, #[trigger] state.mvs@[k] as int),
                old(self).board.sd_player as int,
            ) by {
                assert(has_pair(m1, v1, state.mvs@[k], state.vls@[k]));
                let j = choose|j: int| 0 <= j < m1.len() && j < v1.len() && m1[j] == state.mvs@[k] && v1[j] == state.vls@[k];
                assert(!in_check_of(moved_squares(old(self).board.squares@, m1[j] as int), old(self).board.sd_player as int));
            }
            let g = gen_all(old(self).board.squares@, old(self).board.sd_player as int, false).0;
            assert forall|mv: isize|
                #[trigger] g.contains(mv)
                    && pseudo_legal(old(self).board.squares@, old(self).board.sd_player as int, mv as int)
                    && !in_check_of(moved_squares(old(self).board.squares@, mv as int), old(self).board.sd_player as int)
                    implies exists|k: int| 0 <= k < state.mvs@.len() && state.mvs@[k] == mv by {
                let k = choose|k: int| 0 <= k < g.len() && g[k] == mv;
                assert(m1.contains(all@[k]));
                let j = choose|j: int| 0 <= j < m1.len() && m1[j] == all@[k];
                lemma_perm_keeps(state.mvs@, state.vls@, m1, v1, j);
            }
        }
        state.signle = state.mvs.len() == 1;
        state
    }

    /// The picker's next move: the hash move, then each killer (if distinct
    /// from the hash move and pseudo-legal here), then the generated moves
    /// by history score, skipping those already offered; 0 when exhausted.
    #[verifier::rlimit(30)]
    pub fn next_state(&self, state: &mut MoveState) -> (r: isize)
        requires
            self.wf(),
            self.ready(),
            state_ok(*old(state), self.board),
        ensures
            state_ok(*final(state), self.board),
            r == 0 || pseudo_legal(self.board.squares@, self.board.sd_player as int, r as int),
            r != 0 ==> phases_left(final(state).phase) < phases_left(old(state).phase) || (
            final(state).phase == old(state).phase && final(state).mvs@.len() == old(state).mvs@.len()
                && final(state).index > old(state).index),
            old(state).phase == Status::REST ==> final(state).phase == Status::REST,
            old(state).phase == Status::Hash && old(state).hash > 0 && pseudo_legal(
                self.board.squares@,
                self.board.sd_player as int,
                old(state).hash as int,
            ) ==> r == old(state).hash,
            old(state).phase == Status::KillerFirst && old(state).killer_first != old(state).hash
                && old(state).killer_first > 0 && pseudo_legal(
                self.board.squares@,
                self.board.sd_player as int,
                old(state).killer_first as int,
            ) ==> r == old(state).killer_first,
            old(state).phase == Status::KillerSecond && old(state).killer_second != old(state).hash
                && old(state).killer_second > 0 && pseudo_legal(
                self.board.squares@,
                self.board.sd_player as int,
                old(state).killer_second as int,
            ) ==> r == old(state).killer_second,
            r != 0 && old(state).phase == Status::REST ==> r != old(state).hash && r
                != old(state).killer_first && r != old(state).killer_second,
            r != 0 && old(state).phase != Status::Hash ==> r != old(state).hash,
            final(state).phase != Status::Hash,
            r == 0 ==> final(state).phase == Status::REST && final(state).index >= final(state).mvs@.len(),
            old(state).phase == Status::REST && old(state).index >= old(state).mvs@.len() ==> r == 0,
            final(state).hash == old(state).hash,
            forall|mv: isize| #[trigger] pending(*old(state), self.board, mv) ==> r == mv || pending(*final(state), self.board, mv),
            r == 0 ==> forall|mv: isize| !#[trigger] pending(*final(state), self.board, mv),
    {
        let ghost st0 = *state;
        let ghost g = gen_all(self.board.squares@, self.board.sd_player as int, false).0;

        let ghost p0 = *state;
        if state.phase == Status::Hash {
            state.phase = Status::KillerFirst;
            if state.hash > 0 && self.board.legal_move(state.hash) {
                return state.hash;
            }
        }
        proof {
            assert forall|mv: isize| #[trigger] pending(st0, self.board, mv) implies pending(*state, self.board, mv) by {
                if pseudo_legal(self.board.squares@, self.board.sd_player as int, mv as int) {
                    assert(mv != 0);
                }
            }
        }
        let ghost p1 = *state;
        if state.phase == Status::KillerFirst {
            state.phase = Status::KillerSecond;
            if state.killer_first != state.hash && state.killer_first > 0 && self.board.legal_move(
                state.killer_first,
            ) {
                return state.killer_first;
            }
        }
        proof {
            assert forall|mv: isize| #[trigger] pending(st0, self.board, mv) implies pending(*state, self.board, mv) by {
                assert(pending(p1, self.board, mv));
                if pseudo_legal(self.board.squares@, self.board.sd_player as int, mv as int) {
                    assert(mv != 0);
                }
            }
        }
        let ghost p2 = *state;
        if state.phase == Status::KillerSecond {
            state.phase = Status::GenMoves;
            if state.killer_second != state.hash && state.killer_second > 0
                && self.board.legal_move(state.killer_second) {
                return state.killer_second;
            }
        }
        proof {
            assert forall|mv: isize| #[trigger] pending(st0, self.board, mv) implies pending(*state, self.board, mv) by {
                assert(pending(p2, self.board, mv));
                if pseudo_legal(self.board.squares@, self.board.sd_player as int, mv as int) {
                    assert(mv != 0);
                }
            }
        }
        let ghost p3 = *state;
        if state.phase == Status::GenMoves {
            state.phase = Status::REST;
            let (mvs, _) = self.board.generate_mvs(None);
            let vls = self.history_scores(&mvs);
            state.mvs = mvs;
            state.vls = vls;
            let ghost m1 = state.mvs@;
            let ghost v1 = state.vls@;
            sort(&mut state.mvs, &mut state.vls);
            proof {
                lemma_pairs_keep_legal(state.mvs@, state.vls@, m1, v1, self.board);
                assert(m1 == g);
                assert forall|mv: isize| #[trigger] g.contains(mv) implies exists|k: int| 0 <= k < state.mvs@.len() && state.mvs@[k] == mv by {
                    let j = choose|j: int| 0 <= j < m1.len() && m1[j] == mv;
                    lemma_perm_keeps(state.mvs@, state.vls@, m1, v1, j);
                }
            }
            let ghost sorted = state.mvs@;
            state.index = 0;
            assert(state.mvs@ == sorted);
            proof {
                assert forall|mv: isize| #[trigger] pending(st0, self.board, mv) implies pending(*state, self.board, mv) by {
                    assert(pending(p3, self.board, mv));
                    assert(g.contains(mv));
                    assert(exists|k: int| 0 <= k < state.mvs@.len() && state.mvs@[k] == mv);
                    let k = choose|k: int| 0 <= k < state.mvs@.len() && state.mvs@[k] == mv;
                    assert(state.index <= k < state.mvs@.len() && state.mvs@[k] == mv);
                }
            }
        }
        while state.index < state.mvs.len()
            invariant
                state_ok(*state, self.board),
                state.phase == Status::REST,
                state.mvs@.len() == old(state).mvs@.len() || phases_left(old(state).phase) > 0,
                old(state).phase == Status::REST ==> state.mvs@ == old(state).mvs@ && state.index
                    >= old(state).index,
                state.hash == old(state).hash,
                state.killer_first == old(state).killer_first,
                state.killer_second == old(state).killer_second,
                st0 == *old(state),
                g == gen_all(self.board.squares@, self.board.sd_player as int, false).0,
                forall|mv: isize| #[trigger] pending(st0, self.board, mv) ==> pending(*state, self.board, mv),
                !(old(state).phase == Status::Hash && old(state).hash > 0 && pseudo_legal(
                    self.board.squares@,
                    self.board.sd_player as int,
                    old(state).hash as int,
                )),
                !(old(state).phase == Status::KillerFirst && old(state).killer_first != old(state).hash
                    && old(state).killer_first > 0 && pseudo_legal(
                    self.board.squares@,
                    self.board.sd_player as int,
                    old(state).killer_first as int,
                )),
                !(old(state).phase == Status::KillerSecond && old(state).killer_second != old(state).hash
                    && old(state).killer_second > 0 && pseudo_legal(
                    self.board.squares@,
                    self.board.sd_player as int,
                    old(state).killer_second as int,
                )),
            decreases state.mvs@.len() - state.index,
        {
            let mv = state.mvs[state.index];
            assert(pseudo_legal(self.board.squares@, self.board.sd_player as int, state.mvs@[state.index as int] as int));
            state.index = state.index + 1;
            if mv != state.hash && mv != state.killer_first && mv != state.killer_second {
                return mv;
            }
        }
        0
    }

    /// Counts a visited node (saturating).
    fn count_node(&mut self)
        ensures
            *final(self) == (Engine { all_nodes: final(self).all_nodes, ..*old(self) }),
    {
        if self.all_nodes < isize::MAX {
            self.all_nodes = self.all_nodes + 1;
        }
    }

    /// Quiescence search: in check all moves are searched; otherwise the
    /// static evaluation stands pat and only captures are searched, best
    /// ones first, leaving out those scoring under 10, and those under 20
    /// that land on the mover's own half. Returns the mate score when no
    /// move was searched and there was no stand-pat score.
    #[verifier::rlimit(30)]
    pub fn search_pruning(&mut self, vl_alpha: isize, vl_beta: isize) -> (r: isize)
        requires
            old(self).wf(),
            old(self).ready(),
            0 <= old(self).board.distance <= LIMIT_DEPTH,
            window_ok(vl_alpha as int, old(self).board.distance as int),
            window_ok(vl_beta as int, old(self).board.distance as int),
        ensures
            final(self).wf(),
            final(self).ready(),
            final(self).kept(&*old(self)),
            final(self).result == old(self).result,
            score_ok(r as int),
            old(self).board.distance - MATE_VALUE >= vl_beta ==> r == old(self).board.distance - MATE_VALUE,
            old(self).board.distance - MATE_VALUE < vl_beta && rep_scan(
                old(self).board.moves@,
                old(self).board.zobrist_key,
                old(self).board.moves@.len() - 1,
                false,
                true,
                true,
                1,
            ) > 0 ==> r == rep_value_of(
                rep_scan(
                    old(self).board.moves@,
                    old(self).board.zobrist_key,
                    old(self).board.moves@.len() - 1,
                    false,
                    true,
                    true,
                    1,
                ),
                old(self).board.distance as int,
            ),
            quiescence_result(old(self).board, vl_beta as int, r as int),
        decreases LIMIT_DEPTH - old(self).board.distance, 0int,
    {
        self.count_node();
        let ghost ob = self.board;
        let ghost sd = self.board.sd_player as int;
        let ghost ev = evaluation_of(ob.own_value(), ob.opp_value(), ob.distance as int);
        let ghost checked = ob.moves@.last().checked;
        proof {
            if few_pieces(ob.squares@) {
                lemma_eval_bounded(ob);
            }
        }
        let mut vl_alpha = vl_alpha;
        let mut vl = self.board.mate_value();
        if vl >= vl_beta {
            return vl;
        }
        let vl_rep = self.board.rep_status(1);
        if vl_rep > 0 {
            return self.board.rep_value(vl_rep);
        }
        if self.board.distance == LIMIT_DEPTH as isize {
            return self.board.evaluate();
        }
        let mut vl_best = -MATE_VALUE;
        let mut mvs: Vec<isize>;
        if self.board.in_check() {
            let (all, _) = self.board.generate_mvs(None);
            let mut vls = self.history_scores(&all);
            mvs = all;
            let ghost m1 = mvs@;
            let ghost v1 = vls@;
            sort(&mut mvs, &mut vls);
            proof {
                lemma_pairs_keep_legal(mvs@, vls@, m1, v1, self.board);
                if no_escape(ob.squares@, sd) {
                    assert forall|k: int| 0 <= k < mvs@.len() implies #[trigger] in_check_of(
                        moved_squares(ob.squares@, mvs@[k] as int),
                        sd,
                    ) by {
                        assert(has_pair(m1, v1, mvs@[k], vls@[k]));
                        let j = choose|j: int| 0 <= j < m1.len() && j < v1.len() && m1[j] == mvs@[k] && v1[j] == vls@[k];
                        assert(in_check_of(moved_squares(ob.squares@, gen_all(ob.squares@, sd, false).0[j] as int), sd));
                    }
                }
            }
        } else {
            vl = self.board.evaluate();
            if vl > vl_best {
                if vl >= vl_beta {
                    return vl;
                }
                vl_best = vl;
                if vl > vl_alpha {
                    vl_alpha = vl;
                }
            }
            let (caps, scores) = self.board.generate_mvs(Some(Vec::new()));
            mvs = caps;
            let mut vls = scores;
            let ghost m1 = mvs@;
            let ghost v1 = vls@;
            sort(&mut mvs, &mut vls);
            proof {
                lemma_pairs_keep_legal(mvs@, vls@, m1, v1, self.board);
            }
            let mut i: usize = 0;
            let mut cut = mvs.len();
            while i < mvs.len()
                invariant
                    i <= mvs@.len(),
                    mvs@.len() == vls@.len(),
                    cut <= mvs@.len(),
                    0 <= self.board.sd_player <= 1,
                decreases mvs@.len() - i,
            {
                let v = vls[i];
                if v < 10 || (v < 20 && mvs[i] >= 0 && home_half(dst(mvs[i]), self.board.sd_player)) {
                    cut = i;
                    break;
                }
                i = i + 1;
            }
            let ghost before = mvs@;
            mvs.truncate(cut);
            proof {
                assert forall|k: int| 0 <= k < mvs@.len() implies #[trigger] pseudo_legal(
                    self.board.squares@,
                    self.board.sd_player as int,
                    mvs@[k] as int,
                ) by {
                    assert(mvs@[k] == before[k]);
                }
            }
        }
        let mut i: usize = 0;
        while i < mvs.len()
            invariant
                self.wf(),
                self.ready(),
                self.kept(&*old(self)),
                self.result == old(self).result,
                0 <= self.board.distance < LIMIT_DEPTH,
                i <= mvs@.len(),
                all_pseudo_legal(mvs@, self.board),
                vl_best == -MATE_VALUE || score_ok(vl_best as int),
                window_ok(vl_alpha as int, self.board.distance as int),
                window_ok(vl_beta as int, self.board.distance as int),
                old(self).board.distance - MATE_VALUE < vl_beta,
                rep_scan(old(self).board.moves@, old(self).board.zobrist_key, old(self).board.moves@.len() - 1, false, true, true, 1) == 0,
                ob == old(self).board,
                sd == ob.sd_player,
                checked == ob.moves@.last().checked,
                ev == evaluation_of(ob.own_value(), ob.opp_value(), ob.distance as int),
                ob.distance < LIMIT_DEPTH,
                !checked ==> vl_best >= ev,
                checked && no_escape(ob.squares@, sd) ==> vl_best == -MATE_VALUE,
                checked && no_escape(ob.squares@, sd) ==> forall|k: int|
                    0 <= k < mvs@.len() ==> #[trigger] in_check_of(moved_squares(ob.squares@, mvs@[k] as int), sd),
                few_pieces(ob.squares@) ==> (vl_best == -MATE_VALUE || mate_bounded(vl_best as int, ob.distance as int)),
                few_pieces(ob.squares@) ==> -9700 <= ev <= 9700,
            decreases mvs@.len() - i,
        {
            let mv = mvs[i];
            assert(pseudo_legal(self.board.squares@, self.board.sd_player as int, mvs@[i as int] as int));
            let ghost b0 = self.board;
            proof {
                if few_pieces(ob.squares@) {
                    lemma_moved_few(ob.squares@, mv as int);
                }
            }
            if self.board.make_move(mv) {
                let ghost b1 = self.board;
                let v = self.search_pruning(-vl_beta, -vl_alpha);
                self.board.undo_make_move();
                proof {
                    lemma_unmove_moved(b0.squares@, b1.moves@.last());
                    assert(self.board.moves@ =~= b0.moves@);
                }
                let v = -v;
                if v > vl_best {
                    if v >= vl_beta {
                        return v;
                    }
                    vl_best = v;
                    if v > vl_alpha {
                        vl_alpha = v;
                    }
                }
            }
            i = i + 1;
        }
        if vl_best == -MATE_VALUE {
            self.board.mate_value()
        } else {
            vl_best
        }
    }

    /// Full-width principal-variation search to `depth` plies. Uses, in
    /// turn: mate-distance pruning, repetition, the transposition table, the
    /// depth limit, null-move pruning (when `not_null` is false, out of check
    /// and with enough material), then the move picker, extending by one ply
    /// when a move gives check or is the only escape. Records the result in
    /// the transposition table and rewards the best move.
    #[verifier::rlimit(30)]
    pub fn search_full(&mut self, vl_alpha: isize, vl_beta: isize, depth: isize, not_null: bool) -> (r: isize)
        requires
            old(self).wf(),
            old(self).ready(),
            0 <= old(self).board.distance <= LIMIT_DEPTH,
            depth <= LIMIT_DEPTH,
            window_ok(vl_alpha as int, old(self).board.distance as int),
            window_ok(vl_beta as int, old(self).board.distance as int),
        ensures
            final(self).wf(),
            final(self).ready(),
            final(self).kept(&*old(self)),
            final(self).result == old(self).result,
            score_ok(r as int),
            depth > 0 && old(self).board.distance - MATE_VALUE >= vl_beta ==> r == old(self).board.distance
                - MATE_VALUE,
            depth > 0 && old(self).board.distance - MATE_VALUE < vl_beta && rep_scan(
                old(self).board.moves@,
                old(self).board.zobrist_key,
                old(self).board.moves@.len() - 1,
                false,
                true,
                true,
                1,
            ) > 0 ==> r == rep_value_of(
                rep_scan(
                    old(self).board.moves@,
                    old(self).board.zobrist_key,
                    old(self).board.moves@.len() - 1,
                    false,
                    true,
                    true,
                    1,
                ),
                old(self).board.distance as int,
            ),
            depth <= 0 ==> quiescence_result(old(self).board, vl_beta as int, r as int),
            few_pieces(old(self).board.squares@) ==> mate_bounded(r as int, old(self).board.distance as int),
            depth > 0 && not_null && old(self).board.distance - MATE_VALUE < vl_beta && rep_once(old(self).board) == 0
                && old(self).board.distance < LIMIT_DEPTH
                && old(self).hash_table@[hash_slot(old(self).board.zobrist_key, old(self).mask)].zobrist_lock
                != old(self).board.zobrist_lock && all_stuck(old(self).board.squares@, old(self).board.sd_player as int)
                ==> r == old(self).board.distance - MATE_VALUE,
        decreases LIMIT_DEPTH - old(self).board.distance, 1 + if depth > 0 {
            depth as int
        } else {
            0int
        },
    {
        if depth <= 0 {
            return self.search_pruning(vl_alpha, vl_beta);
        }
        self.count_node();
        let ghost ob = self.board;
        let ghost sd = self.board.sd_player as int;
        proof {
            if few_pieces(ob.squares@) {
                lemma_eval_bounded(ob);
            }
        }
        let mut vl_alpha = vl_alpha;
        let mut vl = self.board.mate_value();
        if vl >= vl_beta {
            return vl;
        }
        let vl_rep = self.board.rep_status(1);
        if vl_rep > 0 {
            return self.board.rep_value(vl_rep);
        }
        let mut mv_hash: isize = 0;
        vl = self.probe_hash(vl_alpha, vl_beta, depth, &mut mv_hash);
        if vl > -MATE_VALUE {
            return vl;
        }
        if self.board.distance == LIMIT_DEPTH as isize {
            return self.board.evaluate();
        }
        if !not_null && !self.board.in_check() && self.board.null_okay() {
            let ghost b0 = self.board;
            self.board.null_move();
            let v = self.search_full(-vl_beta, 1 - vl_beta, depth - NULL_DEPTH - 1, true);
            self.board.undo_null_move();
            proof {
                assert(self.board.moves@ =~= b0.moves@);
            }
            let v = -v;
            if v >= vl_beta {
                if self.board.null_safe() {
                    return v;
                }
                let w = self.search_full(vl_alpha, vl_beta, depth - NULL_DEPTH, true);
                if w >= vl_beta {
                    return v;
                }
            }
        }
        let mut hash_flag = HASH_ALPHA;
        let mut vl_best = -MATE_VALUE;
        let mut mv_best: isize = 0;
        let mut state = self.new_state(mv_hash);
        loop
            invariant
                self.wf(),
                self.ready(),
                self.kept(&*old(self)),
                self.result == old(self).result,
                0 <= self.board.distance < LIMIT_DEPTH,
                1 <= depth <= LIMIT_DEPTH,
                state_ok(state, self.board),
                vl_best == -MATE_VALUE || score_ok(vl_best as int),
                window_ok(vl_alpha as int, self.board.distance as int),
                window_ok(vl_beta as int, self.board.distance as int),
                mv_best == 0 || pseudo_legal(self.board.squares@, self.board.sd_player as int, mv_best as int),
                old(self).board.distance - MATE_VALUE < vl_beta,
                rep_scan(old(self).board.moves@, old(self).board.zobrist_key, old(self).board.moves@.len() - 1, false, true, true, 1) == 0,
                ob == old(self).board,
                sd == ob.sd_player,
                ob.distance < LIMIT_DEPTH,
                all_stuck(ob.squares@, sd) ==> vl_best == -MATE_VALUE,
                few_pieces(ob.squares@) ==> (vl_best == -MATE_VALUE || mate_bounded(vl_best as int, ob.distance as int)),
            decreases phases_left(state.phase), state.mvs@.len() - state.index,
        {
            let mv = self.next_state(&mut state);
            if mv == 0 {
                break;
            }
            let ghost b0 = self.board;
            proof {
                if few_pieces(ob.squares@) {
                    lemma_moved_few(ob.squares@, mv as int);
                }
                if all_stuck(ob.squares@, sd) {
                    assert(in_check_of(moved_squares(ob.squares@, mv as int), sd));
                }
            }
            if self.board.make_move(mv) {
                let ghost b1 = self.board;
                let new_depth = if self.board.in_check() || state.signle {
                    depth
                } else {
                    depth - 1
                };
                let mut v: isize;
                if vl_best == -MATE_VALUE {
                    v = -self.search_full(-vl_beta, -vl_alpha, new_depth, false);
                } else {
                    v = -self.search_full(-vl_alpha - 1, -vl_alpha, new_depth, false);
                    if vl_alpha < v && v < vl_beta {
                        v = -self.search_full(-vl_beta, -vl_alpha, new_depth, false);
                    }
                }
                self.board.undo_make_move();
                proof {
                    lemma_unmove_moved(b0.squares@, b1.moves@.last());
                    assert(self.board.moves@ =~= b0.moves@);
                }
                if v > vl_best {
                    vl_best = v;
                    if v >= vl_beta {
                        hash_flag = HASH_BETA;
                        mv_best = mv;
                        break;
                    }
                    if v > vl_alpha {
                        vl_alpha = v;
                        hash_flag = HASH_PV;
                        mv_best = mv;
                    }
                }
            }
        }
        if vl_best == -MATE_VALUE {
            return self.board.mate_value();
        }
        self.record_hash(hash_flag, vl_best, depth, mv_best);
        if mv_best != 0 {
            self.set_best_move(mv_best, depth);
        }
        vl_best
    }

    /// One iteration at the root: every move is searched, the first with
    /// the full window and the others with a null window first; the best
    /// becomes `result`. Non-mate scores of new best moves get a random
    /// jitter of up to `RANDOMNESS - 1` either way.
    #[verifier::rlimit(30)]
    pub fn search_root(&mut self, depth: isize) -> (r: isize)
        requires
            old(self).wf(),
            old(self).ready(),
            old(self).board.distance == 0,
            1 <= depth <= LIMIT_DEPTH,
            old(self).result == 0 || pseudo_legal(old(self).board.squares@, old(self).board.sd_player as int, old(self).result as int),
        ensures
            final(self).wf(),
            final(self).ready(),
            final(self).kept(&*old(self)),
            final(self).result == 0 || pseudo_legal(final(self).board.squares@, final(self).board.sd_player as int, final(self).result as int),
            final(self).result == old(self).result || !in_check_of(
                moved_squares(old(self).board.squares@, final(self).result as int),
                old(self).board.sd_player as int,
            ),
            score_ok(r as int),
            r != draw_of(0),
            few_pieces(old(self).board.squares@) && has_escape(old(self).board.squares@, old(self).board.sd_player as int)
                ==> final(self).result != 0 && pseudo_legal(
                old(self).board.squares@,
                old(self).board.sd_player as int,
                final(self).result as int,
            ) && !in_check_of(
                moved_squares(old(self).board.squares@, final(self).result as int),
                old(self).board.sd_player as int,
            ),
    {
        let ghost ob = self.board;
        let ghost sd = ob.sd_player as int;
        let ghost g = gen_all(ob.squares@, sd, false).0;
        let mut vl_best: isize = -MATE_VALUE;
        let ghost mut done = false;
        let mut state = self.new_state(self.result);
        loop
            invariant
                self.wf(),
                self.ready(),
                self.kept(&*old(self)),
                self.board.distance == 0,
                1 <= depth <= LIMIT_DEPTH,
                state_ok(state, self.board),
                score_ok(vl_best as int),
                self.result == 0 || pseudo_legal(self.board.squares@, self.board.sd_player as int, self.result as int),
                self.result == old(self).result || !in_check_of(
                    moved_squares(old(self).board.squares@, self.result as int),
                    old(self).board.sd_player as int,
                ),
                ob == old(self).board,
                sd == ob.sd_player,
                g == gen_all(ob.squares@, sd, false).0,
                vl_best != draw_of(0),
                vl_best != -MATE_VALUE ==> self.result != 0 && pseudo_legal(ob.squares@, sd, self.result as int)
                    && !in_check_of(moved_squares(ob.squares@, self.result as int), sd),
                few_pieces(ob.squares@) ==> forall|m: isize|
                    #[trigger] g.contains(m) && pseudo_legal(ob.squares@, sd, m as int) && !in_check_of(
                        moved_squares(ob.squares@, m as int),
                        sd,
                    ) ==> vl_best != -MATE_VALUE || pending(state, self.board, m),
                done ==> (few_pieces(ob.squares@) && has_escape(ob.squares@, sd) ==> vl_best != -MATE_VALUE),
            ensures
                self.wf(),
                self.ready(),
                self.kept(&*old(self)),
                self.board.distance == 0,
                1 <= depth <= LIMIT_DEPTH,
                state_ok(state, self.board),
                score_ok(vl_best as int),
                self.result == 0 || pseudo_legal(self.board.squares@, self.board.sd_player as int, self.result as int),
                self.result == old(self).result || !in_check_of(
                    moved_squares(old(self).board.squares@, self.result as int),
                    old(self).board.sd_player as int,
                ),
                ob == old(self).board,
                sd == ob.sd_player,
                g == gen_all(ob.squares@, sd, false).0,
                vl_best != draw_of(0),
                vl_best != -MATE_VALUE ==> self.result != 0 && pseudo_legal(ob.squares@, sd, self.result as int)
                    && !in_check_of(moved_squares(ob.squares@, self.result as int), sd),
                few_pieces(ob.squares@) ==> forall|m: isize|
                    #[trigger] g.contains(m) && pseudo_legal(ob.squares@, sd, m as int) && !in_check_of(
                        moved_squares(ob.squares@, m as int),
                        sd,
                    ) ==> vl_best != -MATE_VALUE || pending(state, self.board, m),
                few_pieces(ob.squares@) && has_escape(ob.squares@, sd) ==> vl_best != -MATE_VALUE,
            decreases phases_left(state.phase), state.mvs@.len() - state.index,
        {
            let ghost pre = state;
            let ghost best_pre = vl_best;
            let mv = self.next_state(&mut state);
            if mv == 0 {
                proof {
                    assert forall|m: isize|
                        #[trigger] g.contains(m) && pseudo_legal(ob.squares@, sd, m as int) && !in_check_of(
                            moved_squares(ob.squares@, m as int),
                            sd,
                        ) && few_pieces(ob.squares@) implies vl_best != -MATE_VALUE by {
                        if vl_best == -MATE_VALUE {
                            assert(pending(pre, self.board, m));
                            assert(!pending(state, self.board, m));
                        }
                    }
                    done = true;
                }
                break;
            }
            proof {
                if few_pieces(ob.squares@) {
                    lemma_moved_few(ob.squares@, mv as int);
                }
            }
            let ghost b0 = self.board;
            if self.board.make_move(mv) {
                let ghost b1 = self.board;
                let new_depth = if self.board.in_check() {
                    depth
                } else {
                    depth - 1
                };
                let mut v: isize;
                if vl_best == -MATE_VALUE {
                    v = -self.search_full(-MATE_VALUE, MATE_VALUE, new_depth, true);
                } else {
                    v = -self.search_full(-vl_best - 1, -vl_best, new_depth, false);
                    if v > vl_best {
                        v = -self.search_full(-MATE_VALUE, -vl_best, new_depth, false);
                    }
                }
                self.board.undo_make_move();
                proof {
                    lemma_unmove_moved(b0.squares@, b1.moves@.last());
                    assert(self.board.moves@ =~= b0.moves@);
                }
                if v > vl_best {
                    vl_best = v;
                    self.result = mv;
                    if vl_best > -WIN_VALUE && vl_best < WIN_VALUE {
                        let up = random_below(&mut self.rng, RANDOMNESS as u64) as isize;
                        let down = random_below(&mut self.rng, RANDOMNESS as u64) as isize;
                        vl_best = jitter_score(vl_best, up, down, self.board.draw_value());
                    }
                }
            }
        }
        if self.result != 0 {
            self.set_best_move(self.result, depth);
        }
        proof {
            if few_pieces(ob.squares@) && has_escape(ob.squares@, sd) {
                assert(vl_best != -MATE_VALUE);
            }
        }
        vl_best
    }

    /// Whether the current best move is the only one reaching `vl_beta`:
    /// every other move is searched with a null window at `vl_beta`.
    pub fn search_unique(&mut self, vl_beta: isize, depth: isize) -> (r: bool)
        requires
            old(self).wf(),
            old(self).ready(),
            old(self).board.distance == 0,
            1 <= depth <= LIMIT_DEPTH,
            score_ok(vl_beta as int),
            old(self).result == 0 || pseudo_legal(old(self).board.squares@, old(self).board.sd_player as int, old(self).result as int),
        ensures
            final(self).wf(),
            final(self).ready(),
            final(self).kept(&*old(self)),
            final(self).result == old(self).result,
            !r ==> exists|mv: int|
                pseudo_legal(old(self).board.squares@, old(self).board.sd_player as int, mv) && !in_check_of(
                    moved_squares(old(self).board.squares@, mv),
                    old(self).board.sd_player as int,
                ) && (!old(self).board.moves@.last().checked ==> mv != old(self).result),
    {
        let ghost ob = self.board;
        let mut state = self.new_state(self.result);
        let _first = self.next_state(&mut state);
        loop
            invariant
                self.wf(),
                self.ready(),
                self.kept(&*old(self)),
                self.result == old(self).result,
                self.board.distance == 0,
                1 <= depth <= LIMIT_DEPTH,
                state_ok(state, self.board),
                score_ok(vl_beta as int),
                ob == old(self).board,
                !ob.moves@.last().checked ==> state.hash == old(self).result && state.phase != Status::Hash,
            decreases phases_left(state.phase), state.mvs@.len() - state.index,
        {
            let mv = self.next_state(&mut state);
            if mv == 0 {
                break;
            }
            let ghost b0 = self.board;
            if self.board.make_move(mv) {
                let ghost b1 = self.board;
                let new_depth = if self.board.in_check() {
                    depth
                } else {
                    depth - 1
                };
                let v = -self.search_full(-vl_beta, 1 - vl_beta, new_depth, false);
                self.board.undo_make_move();
                proof {
                    lemma_unmove_moved(b0.squares@, b1.moves@.last());
                    assert(self.board.moves@ =~= b0.moves@);
                }
                if v >= vl_beta {
                    return false;
                }
            }
        }
        true
    }

    /// Best move for the side to move: a book move when the book has one
    /// that does not run into a repetition (the mate score when it would
    /// repeat with perpetual check); otherwise iterative deepening from one
    /// ply up to `depth` (at most `LIMIT_DEPTH`), stopping after an
    /// iteration once `millis` milliseconds have passed, a mate score is
    /// found, or the best move is the only one that avoids losing. Returns 0
    /// when there is no move.
    #[verifier::rlimit(30)]
    pub fn search_main(&mut self, depth: isize, millis: u64) -> (r: isize)
        requires
            old(self).wf(),
            old(self).board.distance < isize::MAX,
        ensures
            final(self).wf(),
            final(self).board.squares@ == old(self).board.squares@,
            final(self).board.sd_player == old(self).board.sd_player,
            final(self).board.moves@ == old(self).board.moves@,
            r == 0 || r == old(self).board.distance - MATE_VALUE || (pseudo_legal(
                old(self).board.squares@,
                old(self).board.sd_player as int,
                r as int,
            ) && !in_check_of(
                moved_squares(old(self).board.squares@, r as int),
                old(self).board.sd_player as int,
            )),
            ({
                let b = old(self).board;
                let sd = b.sd_player as int;
                let cands = candidates_of(b, old(self).book).0;
                &&& cands.len() == 0 && depth >= 1 && few_pieces(b.squares@) && has_escape(b.squares@, sd)
                    ==> r != 0 && pseudo_legal(b.squares@, sd, r as int) && !in_check_of(
                    moved_squares(b.squares@, r as int),
                    sd,
                )
                &&& cands.len() == 0 ==> final(self).board.distance == 0 && final(self).ready()
                &&& b.distance < MATE_VALUE && r == b.distance - MATE_VALUE ==> exists|i: int|
                    0 <= i < cands.len() && !in_check_of(moved_squares(b.squares@, cands[i] as int), sd)
                        && rep_after(b, cands[i] as int) % 4 >= 2
                &&& cands.len() > 0 && (forall|i: int|
                    0 <= i < cands.len() ==> !in_check_of(moved_squares(b.squares@, #[trigger] cands[i] as int), sd)
                        && rep_after(b, cands[i] as int) % 4 >= 2) ==> r == b.distance - MATE_VALUE
            }),
    {
        let ghost ob = self.board;
        let ghost cands = candidates_of(ob, self.book).0;
        let book_mv = self.board.book_move(&self.book, &mut self.rng);
        self.result = book_mv;
        if book_mv != 0 {
            let ghost b0 = self.board;
            if self.board.make_move(book_mv) {
                let ghost b1 = self.board;
                let rep = self.board.rep_status(3);
                proof {
                    assert(rep == rep_after(ob, book_mv as int));
                }
                self.board.undo_make_move();
                proof {
                    lemma_unmove_moved(b0.squares@, b1.moves@.last());
                    assert(self.board.moves@ =~= b0.moves@);
                }
                if rep == 0 {
                    return book_mv;
                }
                if rep % 4 >= 2 {
                    return self.board.mate_value();
                }
            }
            proof {
                let j = choose|j: int| 0 <= j < cands.len() && cands[j] == book_mv;
                assert(!(cands.len() > 0 && (forall|i: int|
                    0 <= i < cands.len() ==> !in_check_of(moved_squares(ob.squares@, #[trigger] cands[i] as int), ob.sd_player as int)
                        && rep_after(ob, cands[i] as int) % 4 >= 2)));
            }
        }
        self.clear_tables();
        self.result = 0;
        self.all_nodes = 0;
        self.board.distance = 0;
        let depth = if depth > LIMIT_DEPTH as isize {
            LIMIT_DEPTH as isize
        } else {
            depth
        };
        let start = now();
        let mut i: isize = 1;
        let ghost mut ran = false;
        while i <= depth
            invariant
                self.wf(),
                self.ready(),
                self.board.distance == 0,
                self.board.squares@ == old(self).board.squares@,
                self.board.sd_player == old(self).board.sd_player,
                self.board.moves@ == old(self).board.moves@,
                depth <= LIMIT_DEPTH,
                1 <= i,
                self.result == 0 || (pseudo_legal(self.board.squares@, self.board.sd_player as int, self.result as int)
                    && !in_check_of(
                    moved_squares(old(self).board.squares@, self.result as int),
                    old(self).board.sd_player as int,
                )),
                i > 1 ==> ran,
                ran && few_pieces(old(self).board.squares@) && has_escape(old(self).board.squares@, old(self).board.sd_player as int)
                    ==> self.result != 0,
            ensures
                self.wf(),
                self.ready(),
                self.board.distance == 0,
                self.board.squares@ == old(self).board.squares@,
                self.board.sd_player == old(self).board.sd_player,
                self.board.moves@ == old(self).board.moves@,
                depth <= LIMIT_DEPTH,
                1 <= i,
                self.result == 0 || (pseudo_legal(self.board.squares@, self.board.sd_player as int, self.result as int)
                    && !in_check_of(
                    moved_squares(old(self).board.squares@, self.result as int),
                    old(self).board.sd_player as int,
                )),
                depth >= 1 ==> ran,
                ran && few_pieces(old(self).board.squares@) && has_escape(old(self).board.squares@, old(self).board.sd_player as int)
                    ==> self.result != 0,
            decreases depth + 1 - i,
        {
            let vl = self.search_root(i);
            proof {
                ran = true;
            }
            let elapsed = elapsed_millis(&start);
            if stop_deepening(elapsed, millis, vl, false) {
                break;
            }
            let unique = self.search_unique(1 - WIN_VALUE, i);
            if stop_deepening(elapsed, millis, vl, unique) {
                break;
            }
            i = i + 1;
        }
        self.result
    }

    /// Result of the game in the current position, if it is over: the side
    /// to move loses when it has no move or no king; a repetition with a
    /// perpetual check decides by its score, any other repetition is a draw;
    /// with no knight, rook, cannon or pawn left it is a draw.
    #[verifier::rlimit(30)]
    pub fn winner(&mut self) -> (r: Option<Winner>)
        requires
            old(self).wf(),
            old(self).board.distance < isize::MAX,
        ensures
            final(self).wf(),
            final(self).board.same_state(&old(self).board),
            r == game_outcome(old(self).board),
    {
        let sd = self.board.sd_player;
        let opponent = if sd == 0 { Winner::Black } else { Winner::Red };
        let mover = if sd == 0 { Winner::Red } else { Winner::Black };
        if self.board.has_mate() {
            return Some(opponent);
        }
        let ghost stuck = forall|i: int|
            0 <= i < gen_all(old(self).board.squares@, old(self).board.sd_player as int, false).0.len()
                ==> in_check_of(
                moved_squares(
                    old(self).board.squares@,
                    #[trigger] gen_all(old(self).board.squares@, old(self).board.sd_player as int, false).0[i] as int,
                ),
                old(self).board.sd_player as int,
            );
        assert(!stuck);
        let king = side_tag(sd) + PIECE_KING;
        let mut i: usize = 0;
        while i < 256 && self.board.squares[i] != king
            invariant
                self.wf(),
                self.board.same_state(&old(self).board),
                i <= 256,
                king == tag_of(sd as int),
                sd == old(self).board.sd_player,
                find_from(self.board.squares@, king as int, i as int) == find_from(self.board.squares@, king as int, 0),
                !stuck,
                stuck == forall|i: int|
                    0 <= i < gen_all(old(self).board.squares@, old(self).board.sd_player as int, false).0.len()
                        ==> in_check_of(
                        moved_squares(
                            old(self).board.squares@,
                            #[trigger] gen_all(old(self).board.squares@, old(self).board.sd_player as int, false).0[i] as int,
                        ),
                        old(self).board.sd_player as int,
                    ),
            decreases 256 - i,
        {
            i = i + 1;
        }
        if i == 256 {
            return Some(opponent);
        }
        let ghost escape = exists|mv: int|
            pseudo_legal(old(self).board.squares@, old(self).board.sd_player as int, mv)
                && !in_check_of(
                moved_squares(old(self).board.squares@, mv),
                old(self).board.sd_player as int,
            );
        let vl_rep = self.board.rep_status(3);
        if vl_rep > 0 {
            let v = self.board.rep_value(vl_rep);
            if -WIN_VALUE < v && v < WIN_VALUE {
                return Some(Winner::Draw);
            }
            if v < 0 {
                return Some(opponent);
            }
            return Some(mover);
        }
        let mut j: usize = 0;
        while j < 256
            invariant
                self.wf(),
                self.board.same_state(&old(self).board),
                j <= 256,
                forall|k: int| 0 <= k < j && on_board(k) ==> !(#[trigger] self.board.squares@[k] % 8 > 2),
                rep_scan(old(self).board.moves@, old(self).board.zobrist_key, old(self).board.moves@.len() - 1, false, true, true, 3) == 0,
                escape,
                escape == exists|mv: int|
                    pseudo_legal(old(self).board.squares@, old(self).board.sd_player as int, mv)
                        && !in_check_of(
                        moved_squares(old(self).board.squares@, mv),
                        old(self).board.sd_player as int,
                    ),
                find_from(old(self).board.squares@, tag_of(old(self).board.sd_player as int), 0) < 256,
                !stuck,
                stuck == forall|i: int|
                    0 <= i < gen_all(old(self).board.squares@, old(self).board.sd_player as int, false).0.len()
                        ==> in_check_of(
                        moved_squares(
                            old(self).board.squares@,
                            #[trigger] gen_all(old(self).board.squares@, old(self).board.sd_player as int, false).0[i] as int,
                        ),
                        old(self).board.sd_player as int,
                    ),
            decreases 256 - j,
        {
            assert(valid_piece(self.board.squares@[j as int] as int));
            if in_broad(j as isize) && self.board.squares[j] % 8 > 2 {
                assert(on_board(j as int) && old(self).board.squares@[j as int] % 8 > 2);
                return None;
            }
            j = j + 1;
        }
        assert(!exists|i: int| 0 <= i < 256 && on_board(i) && #[trigger] old(self).board.squares@[i] % 8 > 2);
        Some(Winner::Draw)
    }
}

} // verus!
