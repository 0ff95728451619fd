//! The board: piece placement, side to move, incrementally maintained
//! Zobrist key and lock and material scores, and the move stack.
use vstd::prelude::*;
use crate::history::Moved;
use crate::movegen::gen_all;
use crate::rules::{
    between_count, find_from, first_stop, in_check_of, is_piece, king_attacked, knight_checks,
    line_checks, line_delta, movable, moved_squares, opp_tag_of, pawn_checks,
    pseudo_legal, tag_of, unmoved_squares, valid_piece,
};
use crate::pregen::{
    advisor_delta_at, advisor_span, away_half, bishop_pin, bishop_span,
    in_broad, in_fort, king_delta, king_delta_at,
    king_span, knight_check_delta_at, knight_pin,
    on_board, same_file, same_half, same_rank, PieceAction, ADVANCED_VALUE,
    BAN_VALUE, DRAW_VALUE, MATE_VALUE, NULL_OKAY_MARGIN, NULL_SAFE_MARGIN, PIECE_ADVISOR,
    PIECE_BISHOP, PIECE_CANNON, PIECE_KING, PIECE_KNIGHT, PIECE_PAWN, PIECE_ROOK,
};
use crate::util::{dst, dst_of, mirror_square, mirror_square_of, file_of, rank_of, side_tag, opp_side_tag, square_forward, src, src_of};
use crate::tables::{Tables, ZOBRIST_KEY_PLAYER, ZOBRIST_LOCK_PLAYER};

verus! {

/// Zobrist slot of a piece: red roles 0..6, black roles 7..13.
pub open spec fn piece_slot(pc: int) -> int {
    if pc < 16 {
        pc - 8
    } else {
        pc - 9
    }
}

/// Table entry that a piece on a square contributes to a Zobrist hash.
pub open spec fn hash_term(table: Seq<i32>, pc: int, sq: int) -> i32 {
    if pc == 0 {
        0
    } else {
        table[piece_slot(pc) * 256 + sq]
    }
}

/// XOR of the entries of the pieces on squares `0..n`.
pub open spec fn hash_fold(table: Seq<i32>, s: Seq<isize>, n: nat) -> i32
    decreases n,
{
    if n == 0 {
        0
    } else {
        hash_fold(table, s, (n - 1) as nat) ^ hash_term(table, s[n - 1] as int, n - 1)
    }
}

/// Zobrist key of a placement with side `sd` to move.
pub open spec fn position_key(t: Tables, s: Seq<isize>, sd: int) -> i32 {
    if sd == 1 {
        hash_fold(t.key@, s, 256) ^ ZOBRIST_KEY_PLAYER
    } else {
        hash_fold(t.key@, s, 256)
    }
}

/// Zobrist lock of a placement with side `sd` to move.
pub open spec fn position_lock(t: Tables, s: Seq<isize>, sd: int) -> i32 {
    if sd == 1 {
        hash_fold(t.lock@, s, 256) ^ ZOBRIST_LOCK_PLAYER
    } else {
        hash_fold(t.lock@, s, 256)
    }
}

/// Piece-square value of a red piece; 0 for anything else.
pub open spec fn red_term(v: Seq<u8>, pc: int, sq: int) -> int {
    if 8 <= pc <= 14 {
        v[(pc - 8) * 256 + sq] as int
    } else {
        0
    }
}

/// Piece-square value of a black piece, read at the flipped square.
pub open spec fn black_term(v: Seq<u8>, pc: int, sq: int) -> int {
    if 16 <= pc <= 22 {
        v[(pc - 16) * 256 + 254 - sq] as int
    } else {
        0
    }
}

pub open spec fn red_sum(v: Seq<u8>, s: Seq<isize>, n: nat) -> int
    decreases n,
{
    if n == 0 {
        0
    } else {
        red_sum(v, s, (n - 1) as nat) + red_term(v, s[n - 1] as int, n - 1)
    }
}

pub open spec fn black_sum(v: Seq<u8>, s: Seq<isize>, n: nat) -> int
    decreases n,
{
    if n == 0 {
        0
    } else {
        black_sum(v, s, (n - 1) as nat) + black_term(v, s[n - 1] as int, n - 1)
    }
}

/// Every square holds a piece code, and squares off the board are empty.
pub open spec fn placement_ok(s: Seq<isize>) -> bool {
    &&& s.len() == 256
    &&& forall|i: int| 0 <= i < 256 ==> #[trigger] valid_piece(s[i] as int)
    &&& forall|i: int| 0 <= i < 256 && !on_board(i) ==> #[trigger] s[i] == 0
}

proof fn lemma_xor_swap(a: i32, b: i32, c: i32)
    ensures
        (a ^ b) ^ c == (a ^ c) ^ b,
{
    assert((a ^ b) ^ c == (a ^ c) ^ b) by (bit_vector);
}

proof fn lemma_xor_cancel(a: i32, o: i32, n: i32)
    ensures
        (a ^ o) ^ (o ^ n) == a ^ n,
{
    assert((a ^ o) ^ (o ^ n) == a ^ n) by (bit_vector);
}

proof fn lemma_xor_twice(a: i32, b: i32)
    ensures
        (a ^ b) ^ b == a,
{
    assert((a ^ b) ^ b == a) by (bit_vector);
}

/// Replacing the piece on square `k` toggles the old and the new entry.
proof fn lemma_hash_update(table: Seq<i32>, s: Seq<isize>, k: int, p: isize, n: nat)
    requires
        0 <= k < s.len(),
        n <= s.len(),
    ensures
        hash_fold(table, s.update(k, p), n) == if k < n {
            hash_fold(table, s, n) ^ (hash_term(table, s[k] as int, k) ^ hash_term(
                table,
                p as int,
                k,
            ))
        } else {
            hash_fold(table, s, n)
        },
    decreases n,
{
    if n > 0 {
        lemma_hash_update(table, s, k, p, (n - 1) as nat);
        let s2 = s.update(k, p);
        let a = hash_fold(table, s, (n - 1) as nat);
        let o = hash_term(table, s[k] as int, k);
        let w = hash_term(table, p as int, k);
        if k == n - 1 {
            lemma_xor_cancel(a, o, w);
        } else if k < n - 1 {
            lemma_xor_swap(a, o ^ w, hash_term(table, s[n - 1] as int, n - 1));
        }
    }
}

proof fn lemma_red_update(v: Seq<u8>, s: Seq<isize>, k: int, p: isize, n: nat)
    requires
        0 <= k < s.len(),
        n <= s.len(),
    ensures
        red_sum(v, s.update(k, p), n) == red_sum(v, s, n) + if k < n {
            red_term(v, p as int, k) - red_term(v, s[k] as int, k)
        } else {
            0
        },
    decreases n,
{
    if n > 0 {
        lemma_red_update(v, s, k, p, (n - 1) as nat);
    }
}

proof fn lemma_black_update(v: Seq<u8>, s: Seq<isize>, k: int, p: isize, n: nat)
    requires
        0 <= k < s.len(),
        n <= s.len(),
    ensures
        black_sum(v, s.update(k, p), n) == black_sum(v, s, n) + if k < n {
            black_term(v, p as int, k) - black_term(v, s[k] as int, k)
        } else {
            0
        },
    decreases n,
{
    if n > 0 {
        lemma_black_update(v, s, k, p, (n - 1) as nat);
    }
}

proof fn lemma_sums_bounded(v: Seq<u8>, s: Seq<isize>, n: nat)
    ensures
        0 <= red_sum(v, s, n) <= 255 * n,
        0 <= black_sum(v, s, n) <= 255 * n,
    decreases n,
{
    if n > 0 {
        lemma_sums_bounded(v, s, (n - 1) as nat);
    }
}

/// The board.
pub struct Borad {
    /// Side to move: 0 red, 1 black.
    pub sd_player: isize,
    pub zobrist_key: i32,
    pub zobrist_lock: i32,
    /// Material and position score of red.
    pub vl_white: isize,
    /// Material and position score of black.
    pub vl_black: isize,
    /// Plies from the root of the current search.
    pub distance: isize,
    /// Move stack; its first entry is the irreversible sentinel.
    pub moves: Vec<Moved>,
    /// Piece codes of the 16x16 superboard.
    pub squares: [isize; 256],
    pub tables: Tables,
}

impl Borad {
    /// Well-formedness: the placement is valid, the hashes and scores agree
    /// with it, and the move stack holds its sentinel.
    pub open spec fn wf(&self) -> bool {
        &&& self.tables.wf()
        &&& 0 <= self.sd_player <= 1
        &&& placement_ok(self.squares@)
        &&& self.zobrist_key == position_key(self.tables, self.squares@, self.sd_player as int)
        &&& self.zobrist_lock == position_lock(self.tables, self.squares@, self.sd_player as int)
        &&& self.vl_white == red_sum(self.tables.value@, self.squares@, 256)
        &&& self.vl_black == black_sum(self.tables.value@, self.squares@, 256)
        &&& 0 <= self.vl_white <= 65280
        &&& 0 <= self.vl_black <= 65280
        &&& self.moves@.len() >= 1
        &&& self.moves@[0].mv == 0
        &&& 0 <= self.distance
    }

    /// Same position and history: placement, side, hashes, scores, stack and
    /// distance.
    pub open spec fn same_state(&self, other: &Borad) -> bool {
        &&& self.squares@ == other.squares@
        &&& self.sd_player == other.sd_player
        &&& self.zobrist_key == other.zobrist_key
        &&& self.zobrist_lock == other.zobrist_lock
        &&& self.vl_white == other.vl_white
        &&& self.vl_black == other.vl_black
        &&& self.moves@ == other.moves@
        &&& self.distance == other.distance
        &&& self.tables == other.tables
    }

    pub open spec fn piece_at(&self, sq: int) -> int {
        self.squares@[sq] as int
    }

    /// An empty board, red to move, with only the sentinel on the stack.
    pub fn new() -> (b: Borad)
        ensures
            b.wf(),
            forall|i: int| 0 <= i < 256 ==> b.squares@[i] == 0,
            b.sd_player == 0,
            b.distance == 0,
            b.moves@ == seq![Moved { mv: 0, zobrist_key: 0, capture_piece: 0, checked: false }],
            b.tables.standard(),
    {
        Self::empty_with(Tables::new())
    }

    /// An empty board, red to move, using tables `tables`.
    fn empty_with(tables: Tables) -> (b: Borad)
        requires
            tables.wf(),
        ensures
            b.wf(),
            forall|i: int| 0 <= i < 256 ==> b.squares@[i] == 0,
            b.sd_player == 0,
            b.distance == 0,
            b.moves@ == seq![Moved { mv: 0, zobrist_key: 0, capture_piece: 0, checked: false }],
            b.tables == tables,
    {
        let b = Borad {
            sd_player: 0,
            zobrist_key: 0,
            zobrist_lock: 0,
            vl_white: 0,
            vl_black: 0,
            distance: 0,
            moves: vec![Moved::from_irrev(false)],
            squares: [0; 256],
            tables,
        };
        proof {
            Self::lemma_empty_placement(b.tables, b.squares@, 256);
        }
        b
    }

    proof fn lemma_empty_placement(t: Tables, s: Seq<isize>, n: nat)
        requires
            n <= s.len(),
            forall|i: int| 0 <= i < s.len() ==> s[i] == 0,
        ensures
            hash_fold(t.key@, s, n) == 0,
            hash_fold(t.lock@, s, n) == 0,
            red_sum(t.value@, s, n) == 0,
            black_sum(t.value@, s, n) == 0,
        decreases n,
    {
        if n > 0 {
            Self::lemma_empty_placement(t, s, (n - 1) as nat);
            assert(0i32 ^ 0i32 == 0i32) by (bit_vector);
        }
    }

    /// Empties the board and gives red the move; the stack is left as it is.
    pub fn clearboard(&mut self)
        requires
            old(self).wf(),
        ensures
            final(self).wf(),
            forall|i: int| 0 <= i < 256 ==> final(self).squares@[i] == 0,
            final(self).sd_player == 0,
            final(self).moves@ == old(self).moves@,
            final(self).distance == old(self).distance,
            final(self).tables == old(self).tables,
    {
        self.sd_player = 0;
        self.zobrist_key = 0;
        self.zobrist_lock = 0;
        self.vl_black = 0;
        self.vl_white = 0;
        self.squares = [0; 256];
        proof {
            Self::lemma_empty_placement(self.tables, self.squares@, 256);
        }
    }

    /// Gives the move to the other side.
    pub fn change_side(&mut self)
        requires
            old(self).wf(),
        ensures
            final(self).wf(),
            final(self).sd_player == 1 - old(self).sd_player,
            final(self).squares@ == old(self).squares@,
            final(self).moves@ == old(self).moves@,
            final(self).distance == old(self).distance,
            final(self).tables == old(self).tables,
            final(self).vl_white == old(self).vl_white,
            final(self).vl_black == old(self).vl_black,
            final(self).zobrist_key == old(self).zobrist_key ^ ZOBRIST_KEY_PLAYER,
            final(self).zobrist_lock == old(self).zobrist_lock ^ ZOBRIST_LOCK_PLAYER,
    {
        self.sd_player = 1 - self.sd_player;
        self.zobrist_key = self.zobrist_key ^ ZOBRIST_KEY_PLAYER;
        self.zobrist_lock = self.zobrist_lock ^ ZOBRIST_LOCK_PLAYER;
        proof {
            lemma_xor_twice(hash_fold(self.tables.key@, self.squares@, 256), ZOBRIST_KEY_PLAYER);
            lemma_xor_twice(hash_fold(self.tables.lock@, self.squares@, 256), ZOBRIST_LOCK_PLAYER);
        }
    }

    /// Places (`ADD`) piece `pc` on the empty square `sq`, or removes (`DEL`)
    /// it from there, keeping the hashes and scores in step.
    #[verifier::rlimit(30)]
    pub fn add_piece(&mut self, sq: isize, pc: isize, action: PieceAction)
        requires
            old(self).wf(),
            on_board(sq as int),
            is_piece(pc as int),
            action == PieceAction::ADD ==> old(self).squares@[sq as int] == 0,
            action == PieceAction::DEL ==> old(self).squares@[sq as int] == pc,
        ensures
            final(self).wf(),
            final(self).squares@ == old(self).squares@.update(
                sq as int,
                if action == PieceAction::ADD {
                    pc
                } else {
                    0
                },
            ),
            final(self).sd_player == old(self).sd_player,
            final(self).moves@ == old(self).moves@,
            final(self).distance == old(self).distance,
            final(self).tables == old(self).tables,
    {
        let ghost s0 = self.squares@;
        let ghost t = self.tables;
        let newpc: isize = match action {
            PieceAction::DEL => 0,
            PieceAction::ADD => pc,
        };
        let i = sq as usize;
        self.squares[i] = newpc;
        proof {
            lemma_red_update(t.value@, s0, sq as int, newpc, 256);
            lemma_black_update(t.value@, s0, sq as int, newpc, 256);
            lemma_sums_bounded(t.value@, s0, 256);
            lemma_sums_bounded(t.value@, self.squares@, 256);
            lemma_hash_update(t.key@, s0, sq as int, newpc, 256);
            lemma_hash_update(t.lock@, s0, sq as int, newpc, 256);
        }
        let slot: usize;
        if pc < 16 {
            let ad = (pc - 8) as usize;
            let score = self.tables.value[ad * 256 + i] as isize;
            match action {
                PieceAction::DEL => self.vl_white = self.vl_white - score,
                PieceAction::ADD => self.vl_white = self.vl_white + score,
            };
            slot = ad;
        } else {
            let ad = (pc - 16) as usize;
            let score = self.tables.value[ad * 256 + 254 - i] as isize;
            match action {
                PieceAction::DEL => self.vl_black = self.vl_black - score,
                PieceAction::ADD => self.vl_black = self.vl_black + score,
            };
            slot = ad + 7;
        }
        let k = self.tables.key[slot * 256 + i];
        let l = self.tables.lock[slot * 256 + i];
        proof {
            let kf = hash_fold(t.key@, s0, 256);
            let lf = hash_fold(t.lock@, s0, 256);
            if action == PieceAction::ADD {
                assert(hash_term(t.key@, s0[sq as int] as int, sq as int) == 0);
                assert(0i32 ^ k == k) by (bit_vector);
                assert(0i32 ^ l == l) by (bit_vector);
            } else {
                assert(k ^ 0i32 == k) by (bit_vector);
                assert(l ^ 0i32 == l) by (bit_vector);
            }
            if self.sd_player == 1 {
                lemma_xor_swap(kf, ZOBRIST_KEY_PLAYER, k);
                lemma_xor_swap(lf, ZOBRIST_LOCK_PLAYER, l);
            }
        }
        self.zobrist_key = self.zobrist_key ^ k;
        self.zobrist_lock = self.zobrist_lock ^ l;
        proof {
            assert(self.squares@ =~= s0.update(sq as int, newpc));
            assert forall|j: int| 0 <= j < 256 implies #[trigger] valid_piece(
                self.squares@[j] as int,
            ) by {
                if j != sq {
                    assert(valid_piece(s0[j] as int));
                }
            }
            assert forall|j: int| 0 <= j < 256 && !on_board(j) implies #[trigger] self.squares@[j]
                == 0 by {
                assert(s0[j] == 0);
            }
        }
    }

    /// Records the position as irreversible: the stack becomes the sentinel
    /// alone, which notes whether the side to move is in check.
    pub fn set_irrev(&mut self)
        requires
            old(self).wf(),
        ensures
            final(self).wf(),
            final(self).squares@ == old(self).squares@,
            final(self).sd_player == old(self).sd_player,
            final(self).tables == old(self).tables,
            final(self).distance == 0,
            final(self).moves@ == seq![
                Moved {
                    mv: 0,
                    zobrist_key: 0,
                    capture_piece: 0,
                    checked: in_check_of(old(self).squares@, old(self).sd_player as int),
                },
            ],
    {
        let chk = self.checked();
        self.distance = 0;
        self.moves = vec![Moved::from_irrev(chk)];
    }

    /// Whether the king of the side to move, on `k`, is attacked.
    #[verifier::rlimit(30)]
    fn king_attacked_at(&self, k: isize) -> (r: bool)
        requires
            self.wf(),
            on_board(k as int),
        ensures
            r == king_attacked(self.squares@, self.sd_player as int, k as int),
    {
        let ghost s = self.squares@;
        let ghost sd = self.sd_player as int;
        let opp = opp_side_tag(self.sd_player);
        let pawn = PIECE_PAWN + opp;
        let fwd = square_forward(k, self.sd_player);
        if self.squares[fwd as usize] == pawn || self.squares[(k - 1) as usize] == pawn
            || self.squares[(k + 1) as usize] == pawn {
            return true;
        }
        let knight = PIECE_KNIGHT + opp;
        let mut i: usize = 0;
        while i < 4
            invariant
                self.wf(),
                s == self.squares@,
                sd == self.sd_player,
                on_board(k as int),
                i <= 4,
                knight == opp_tag_of(sd) + 3,
                !pawn_checks(s, sd, k as int),
                forall|j: int| 0 <= j < i ==> !knight_checks(s, sd, k as int, j),
            decreases 4 - i,
        {
            let leg = k + advisor_delta_at(i);
            if self.squares[leg as usize] == 0 {
                let a = k + knight_check_delta_at(i, 0);
                let b = k + knight_check_delta_at(i, 1);
                if self.squares[a as usize] == knight || self.squares[b as usize] == knight {
                    return true;
                }
            }
            i = i + 1;
        }
        let mut i: usize = 0;
        while i < 4
            invariant
                self.wf(),
                s == self.squares@,
                sd == self.sd_player,
                on_board(k as int),
                i <= 4,
                opp == opp_tag_of(sd),
                !pawn_checks(s, sd, k as int),
                forall|j: int| 0 <= j < 4 ==> !knight_checks(s, sd, k as int, j),
                forall|j: int| 0 <= j < i ==> !line_checks(s, sd, k as int, j),
            decreases 4 - i,
        {
            let delta = king_delta_at(i);
            let mut sq = k + delta;
            while in_broad(sq) && self.squares[sq as usize] == 0
                invariant
                    on_board(sq - delta),
                    delta == king_delta(i as int),
                    i < 4,
                    s == self.squares@,
                    on_board(k as int),
                    first_stop(s, sq as int, delta as int) == first_stop(
                        s,
                        k + delta,
                        delta as int,
                    ),
                decreases (if delta > 0 {
                    256 - sq + delta
                } else {
                    sq + 1 - delta
                }),
            {
                sq = sq + delta;
            }
            if in_broad(sq) {
                let pc = self.squares[sq as usize];
                if pc == PIECE_ROOK + opp || pc == PIECE_KING + opp {
                    return true;
                }
            }
            let ghost f = sq as int;
            sq = sq + delta;
            while in_broad(sq) && self.squares[sq as usize] == 0
                invariant
                    0 <= sq - delta < 256,
                    delta == king_delta(i as int),
                    i < 4,
                    s == self.squares@,
                    first_stop(s, sq as int, delta as int) == first_stop(s, f + delta, delta as int),
                decreases (if delta > 0 {
                    256 - sq + delta
                } else {
                    sq + 1 - delta
                }),
            {
                sq = sq + delta;
            }
            if in_broad(sq) && self.squares[sq as usize] == PIECE_CANNON + opp {
                return true;
            }
            i = i + 1;
        }
        false
    }

    /// Whether the side to move is in check.
    pub fn checked(&self) -> (r: bool)
        requires
            self.wf(),
        ensures
            r == in_check_of(self.squares@, self.sd_player as int),
    {
        let king = side_tag(self.sd_player) + PIECE_KING;
        let mut sq: usize = 0;
        while sq < 256 && self.squares[sq] != king
            invariant
                sq <= 256,
                self.wf(),
                king == tag_of(self.sd_player as int),
                find_from(self.squares@, king as int, sq as int) == find_from(
                    self.squares@,
                    king as int,
                    0,
                ),
            decreases 256 - sq,
        {
            sq = sq + 1;
        }
        if sq < 256 {
            assert(on_board(sq as int));
            self.king_attacked_at(sq as isize)
        } else {
            false
        }
    }

    /// Rook or cannon move along a rank or file: no screen for a rook or a
    /// quiet cannon move, exactly one screen for a cannon capture.
    #[verifier::rlimit(30)]
    fn line_move_ok(&self, sq_src: isize, sq_dst: isize, role: isize, pc_dst: isize) -> (r: bool)
        requires
            self.wf(),
            on_board(sq_src as int),
            on_board(sq_dst as int),
            sq_src != sq_dst,
            pc_dst == self.squares@[sq_dst as int],
        ensures
            r == ({
                let delta = line_delta(sq_src as int, sq_dst as int);
                let c = between_count(self.squares@, sq_src + delta, sq_dst as int, delta);
                delta != 0 && if c == 0 {
                    role == PIECE_ROOK || pc_dst == 0
                } else if c == 1 {
                    role == PIECE_CANNON && pc_dst != 0
                } else {
                    false
                }
            }),
    {
        let ghost s = self.squares@;
        let delta: isize = if same_rank(sq_src, sq_dst) {
            if sq_src > sq_dst {
                -1
            } else {
                1
            }
        } else if same_file(sq_src, sq_dst) {
            if sq_src > sq_dst {
                -16
            } else {
                16
            }
        } else {
            return false;
        };
        let ghost total = between_count(s, sq_src as int + delta as int, sq_dst as int, delta as int);

        let mut pin = sq_src + delta;
        let mut found: isize = 0;
        while pin != sq_dst
            invariant
                s == self.squares@,
                self.wf(),
                on_board(sq_src as int),
                on_board(sq_dst as int),
                delta == line_delta(sq_src as int, sq_dst as int),
                delta == 1 || delta == -1 || delta == 16 || delta == -16,
                delta == 1 || delta == -1 ==> rank_of(pin as int) == rank_of(sq_dst as int),
                delta == 16 || delta == -16 ==> file_of(pin as int) == file_of(sq_dst as int),
                delta > 0 ==> sq_src < pin <= sq_dst,
                delta < 0 ==> sq_dst <= pin < sq_src,
                0 <= found <= 1,
                total == between_count(s, sq_src as int + delta as int, sq_dst as int, delta as int),
                found + between_count(s, pin as int, sq_dst as int, delta as int) == total,
            decreases (if delta > 0 {
                sq_dst - pin
            } else {
                pin - sq_dst
            }),
        {
            proof {
                lemma_between_nonneg(s, pin + delta, sq_dst as int, delta as int);
                assert(between_count(s, pin as int, sq_dst as int, delta as int) == (if s[pin as int]
                    != 0 {
                    1int
                } else {
                    0int
                }) + between_count(s, pin + delta, sq_dst as int, delta as int));
            }
            if self.squares[pin as usize] != 0 {
                if found == 1 {
                    return false;
                }
                found = 1;
            }
            pin = pin + delta;
        }
        if found == 1 {
            role == PIECE_CANNON && pc_dst != 0
        } else {
            role == PIECE_ROOK || pc_dst == 0
        }
    }

    /// Whether `mv` is pseudo-legal for the side to move: its own piece moves
    /// by that piece's rule to a board square not held by its own pieces.
    /// Self-check is not tested.
    #[verifier::rlimit(30)]
    pub fn legal_move(&self, mv: isize) -> (r: bool)
        requires
            self.wf(),
            0 <= mv < 65536,
        ensures
            r == pseudo_legal(self.squares@, self.sd_player as int, mv as int),
    {
        let sq_src = src(mv);
        let pc_src = self.squares[sq_src as usize];
        let self_side = side_tag(self.sd_player);
        assert(valid_piece(self.squares@[src_of(mv as int)] as int));
        assert(valid_piece(self.squares@[dst_of(mv as int)] as int));
        if !(pc_src >= self_side && pc_src < self_side + 8) {
            return false;
        }
        let sq_dst = dst(mv);
        let pc_dst = self.squares[sq_dst as usize];
        if pc_dst >= self_side && pc_dst < self_side + 8 {
            return false;
        }
        if !in_broad(sq_dst) {
            return false;
        }
        assert(on_board(sq_src as int));
        let role = pc_src - self_side;
        if role == PIECE_KING {
            in_fort(sq_dst) && king_span(sq_src, sq_dst)
        } else if role == PIECE_ADVISOR {
            in_fort(sq_dst) && advisor_span(sq_src, sq_dst)
        } else if role == PIECE_BISHOP {
            same_half(sq_src, sq_dst) && bishop_span(sq_src, sq_dst)
                && self.squares[bishop_pin(sq_src, sq_dst)] == 0
        } else if role == PIECE_KNIGHT {
            let pin = knight_pin(sq_src, sq_dst);
            pin != sq_src && self.squares[pin as usize] == 0
        } else if role == PIECE_PAWN {
            (away_half(sq_dst, self.sd_player) && (sq_dst == sq_src - 1 || sq_dst == sq_src + 1))
                || sq_dst == square_forward(sq_src, self.sd_player)
        } else if role == PIECE_ROOK || role == PIECE_CANNON {
            self.line_move_ok(sq_src, sq_dst, role, pc_dst)
        } else {
            false
        }
    }

    /// Moves the piece on the source of `mv` to its destination, capturing
    /// what stands there; returns the stack entry describing the move.
    pub fn move_piece(&mut self, mv: isize) -> (m: Moved)
        requires
            old(self).wf(),
            movable(old(self).squares@, old(self).sd_player as int, mv as int),
        ensures
            final(self).wf(),
            final(self).squares@ == moved_squares(old(self).squares@, mv as int),
            final(self).sd_player == old(self).sd_player,
            final(self).moves@ == old(self).moves@,
            final(self).distance == old(self).distance,
            final(self).tables == old(self).tables,
            m == (Moved {
                mv,
                zobrist_key: old(self).zobrist_key,
                capture_piece: old(self).squares@[dst_of(mv as int)],
                checked: false,
            }),
    {
        let ghost s0 = self.squares@;
        assert(valid_piece(s0[dst_of(mv as int)] as int));
        let key = self.zobrist_key;
        let sq_src = src(mv);
        let sq_dst = dst(mv);
        let pc_dst = self.squares[sq_dst as usize];
        if pc_dst > 0 {
            self.add_piece(sq_dst, pc_dst, PieceAction::DEL);
        }
        let pc_src = self.squares[sq_src as usize];
        self.add_piece(sq_src, pc_src, PieceAction::DEL);
        self.add_piece(sq_dst, pc_src, PieceAction::ADD);
        proof {
            assert(self.squares@ =~= moved_squares(s0, mv as int));
        }
        Moved::new(mv, key, pc_dst, false)
    }

    /// Takes back the move recorded in `moved`: the piece returns to the
    /// source and the captured piece, if any, to the destination.
    pub fn undo_move_piece(&mut self, moved: &Moved)
        requires
            old(self).wf(),
            undo_ok(old(self).squares@, *moved),
        ensures
            final(self).wf(),
            final(self).squares@ == unmoved_squares(old(self).squares@, *moved),
            final(self).sd_player == old(self).sd_player,
            final(self).moves@ == old(self).moves@,
            final(self).distance == old(self).distance,
            final(self).tables == old(self).tables,
    {
        let ghost s0 = self.squares@;
        let sq_src = src(moved.mv);
        let sq_dst = dst(moved.mv);
        let pc_dst = self.squares[sq_dst as usize];
        self.add_piece(sq_dst, pc_dst, PieceAction::DEL);
        self.add_piece(sq_src, pc_dst, PieceAction::ADD);
        if moved.capture_piece > 0 {
            self.add_piece(sq_dst, moved.capture_piece, PieceAction::ADD);
        }
        proof {
            assert(self.squares@ =~= unmoved_squares(s0, *moved));
        }
    }

    /// Plays `mv` if it does not leave the mover's king in check; returns
    /// whether it was played. A refused move leaves the board unchanged.
    pub fn make_move(&mut self, mv: isize) -> (r: bool)
        requires
            old(self).wf(),
            pseudo_legal(old(self).squares@, old(self).sd_player as int, mv as int),
            old(self).distance < isize::MAX,
        ensures
            final(self).wf(),
            make_move_post(*old(self), *final(self), mv as int, r),
    {
        let ghost s0 = self.squares@;
        let m = self.move_piece(mv);
        if self.checked() {
            self.undo_move_piece(&m);
            proof {
                assert(self.squares@ =~= s0);
            }
            false
        } else {
            self.change_side();
            let chk = self.checked();
            self.moves.push(Moved::new(m.mv, m.zobrist_key, m.capture_piece, chk));
            self.distance = self.distance + 1;
            true
        }
    }

    /// Takes back the last move made by `make_move`.
    pub fn undo_make_move(&mut self)
        requires
            old(self).wf(),
            old(self).can_undo(),
        ensures
            final(self).wf(),
            undo_make_post(*old(self), *final(self)),
    {
        self.distance = self.distance - 1;
        let m = self.moves.pop().unwrap();
        self.change_side();
        self.undo_move_piece(&m);
    }

    /// Passes the move: pushes an entry with no move and the current key.
    pub fn null_move(&mut self)
        requires
            old(self).wf(),
            old(self).distance < isize::MAX,
        ensures
            final(self).wf(),
            final(self).squares@ == old(self).squares@,
            final(self).sd_player == 1 - old(self).sd_player,
            final(self).moves@ == old(self).moves@.push(
                Moved { mv: 0, zobrist_key: old(self).zobrist_key, capture_piece: 0, checked: false },
            ),
            final(self).distance == old(self).distance + 1,
            final(self).tables == old(self).tables,
    {
        self.moves.push(Moved::from_null(self.zobrist_key));
        self.change_side();
        self.distance = self.distance + 1;
    }

    /// Takes back a null move.
    pub fn undo_null_move(&mut self)
        requires
            old(self).wf(),
            old(self).moves@.len() >= 2,
            old(self).distance >= 1,
        ensures
            final(self).wf(),
            final(self).squares@ == old(self).squares@,
            final(self).sd_player == 1 - old(self).sd_player,
            final(self).moves@ == old(self).moves@.drop_last(),
            final(self).distance == old(self).distance - 1,
            final(self).tables == old(self).tables,
    {
        self.distance = self.distance - 1;
        let _ = self.moves.pop();
        self.change_side();
    }

    /// Whether the last move gave check (for the sentinel: whether the
    /// loaded position was in check).
    pub fn in_check(&self) -> (r: bool)
        requires
            self.wf(),
        ensures
            r == self.moves@.last().checked,
    {
        self.moves[self.moves.len() - 1].checked
    }

    /// Whether the last move captured a piece.
    pub fn captured(&self) -> (r: bool)
        requires
            self.wf(),
        ensures
            r == (self.moves@.last().capture_piece > 0),
    {
        self.moves[self.moves.len() - 1].capture_piece > 0
    }

    /// Score of being mated at the current distance.
    pub fn mate_value(&self) -> (r: isize)
        requires
            self.wf(),
        ensures
            r == self.distance - MATE_VALUE,
    {
        self.distance - MATE_VALUE
    }

    /// Score of losing by a banned repetition at the current distance.
    pub fn ban_value(&self) -> (r: isize)
        requires
            self.wf(),
        ensures
            r == self.distance - BAN_VALUE,
    {
        self.distance - BAN_VALUE
    }

    /// Score of a draw: negative at even distances, positive at odd ones.
    pub fn draw_value(&self) -> (r: isize)
        requires
            self.wf(),
        ensures
            r == draw_of(self.distance as int),
    {
        if self.distance % 2 == 0 {
            -DRAW_VALUE
        } else {
            DRAW_VALUE
        }
    }

    /// Static evaluation for the side to move: own score minus the
    /// opponent's plus a small bonus for having the move, moved off the draw
    /// score when it would equal it.
    pub fn evaluate(&self) -> (r: isize)
        requires
            self.wf(),
        ensures
            r == evaluation_of(self.own_value(), self.opp_value(), self.distance as int),
            r != draw_of(self.distance as int),
    {
        let vl = if self.sd_player == 0 {
            (self.vl_white - self.vl_black) + ADVANCED_VALUE
        } else {
            (self.vl_black - self.vl_white) + ADVANCED_VALUE
        };
        if vl == self.draw_value() {
            vl - 1
        } else {
            vl
        }
    }

    /// Own material exceeds the margin for trying a null move.
    pub fn null_okay(&self) -> (r: bool)
        requires
            self.wf(),
        ensures
            r == (self.own_value() > NULL_OKAY_MARGIN),
    {
        if self.sd_player == 0 {
            self.vl_white > NULL_OKAY_MARGIN
        } else {
            self.vl_black > NULL_OKAY_MARGIN
        }
    }

    /// Own material exceeds the margin for trusting a null-move cut-off.
    pub fn null_safe(&self) -> (r: bool)
        requires
            self.wf(),
        ensures
            r == (self.own_value() > NULL_SAFE_MARGIN),
    {
        if self.sd_player == 0 {
            self.vl_white > NULL_SAFE_MARGIN
        } else {
            self.vl_black > NULL_SAFE_MARGIN
        }
    }

    /// Index of `mv` in the history table: (moving piece - 8) * 256 + destination.
    pub fn history_index(&self, mv: isize) -> (r: isize)
        requires
            self.wf(),
            0 <= mv < 65536,
        ensures
            r == (self.squares@[src_of(mv as int)] - 8) * 256 + dst_of(mv as int),
    {
        assert(valid_piece(self.squares@[src_of(mv as int)] as int));
        (self.squares[src(mv) as usize] - 8) * 256 + dst(mv)
    }

    /// Repetition status: walks back over the reversible, non-capturing
    /// moves; at every second entry (the side to move's own moves) compares
    /// the stored key with the current one and counts down `recur` on a
    /// match. At zero returns 1, plus 2 if the side to move checked with each
    /// of its moves, plus 4 if the opponent did; 0 when the walk ends first.
    pub fn rep_status(&self, recur: isize) -> (r: isize)
        requires
            self.wf(),
            recur >= 1,
        ensures
            r == rep_scan(
                self.moves@,
                self.zobrist_key,
                self.moves@.len() - 1,
                false,
                true,
                true,
                recur as int,
            ),
            0 <= r < 8,
    {
        let mut left = recur;
        let mut side = false;
        let mut perp_check = true;
        let mut opp_perp_check = true;
        let mut index = self.moves.len() - 1;
        while self.moves[index].mv > 0 && self.moves[index].capture_piece == 0
            invariant
                self.wf(),
                index < self.moves@.len(),
                left >= 1,
                rep_scan(self.moves@, self.zobrist_key, index as int, side, perp_check, opp_perp_check, left as int)
                    == rep_scan(self.moves@, self.zobrist_key, self.moves@.len() - 1, false, true, true, recur as int),
            decreases index,
        {
            let m = self.moves[index];
            if side {
                let perp2 = perp_check && m.checked;
                let hit = m.zobrist_key == self.zobrist_key;
                if hit && left == 1 {
                    let mut status: isize = 0;
                    if perp2 {
                        status = status + 2;
                    }
                    if opp_perp_check {
                        status = status + 4;
                    }
                    return status + 1;
                }
                if hit {
                    left = left - 1;
                }
                perp_check = perp2;
            } else {
                opp_perp_check = opp_perp_check && m.checked;
            }
            side = !side;
            index = index - 1;
        }
        0
    }

    /// Score of a repetition status: a ban loss when only the side to move
    /// checked perpetually, a ban win when only the opponent did, otherwise
    /// the draw score.
    pub fn rep_value(&self, vl_rep: isize) -> (r: isize)
        requires
            self.wf(),
            0 <= vl_rep < 8,
        ensures
            r == rep_value_of(vl_rep as int, self.distance as int),
    {
        let mut vl: isize = 0;
        if vl_rep % 4 >= 2 {
            vl = self.ban_value();
        }
        if vl_rep % 8 >= 4 {
            vl = vl - self.ban_value();
        }
        if vl == 0 {
            self.draw_value()
        } else {
            vl
        }
    }

    /// The board reflected left to right, with the same side to move and a
    /// fresh stack.
    #[verifier::rlimit(30)]
    pub fn mirror(&self) -> (m: Borad)
        requires
            self.wf(),
        ensures
            m.wf(),
            m.sd_player == self.sd_player,
            m.distance == 0,
            forall|i: int|
                on_board(i) ==> m.squares@[mirror_square_of(i)] == #[trigger] self.squares@[i],
            m.squares@ == mirrored_squares(self.squares@),
            m.tables.key@ == self.tables.key@,
            m.tables.lock@ == self.tables.lock@,
            m.tables.value@ == self.tables.value@,
    {
        let mut m = Borad::empty_with(self.tables.copy());
        let mut i: usize = 0;
        while i < 256
            invariant
                m.wf(),
                self.wf(),
                i <= 256,
                m.sd_player == 0,
                m.distance == 0,
                m.tables.key@ == self.tables.key@,
                m.tables.lock@ == self.tables.lock@,
                m.tables.value@ == self.tables.value@,
                forall|j: int|
                    on_board(j) ==> m.squares@[mirror_square_of(j)] == if j < i {
                        self.squares@[j]
                    } else {
                        0
                    },
            decreases 256 - i,
        {
            let pc = self.squares[i];
            assert(valid_piece(self.squares@[i as int] as int));
            if pc > 0 {
                assert(on_board(i as int));
                let t = mirror_square(i as isize);
                m.add_piece(t, pc, PieceAction::ADD);
            }
            i = i + 1;
        }
        if self.sd_player == 1 {
            m.change_side();
        }
        proof {
            lemma_mirrored(m.squares@, self.squares@);
        }
        m
    }

    /// Whether the side to move has no move that keeps its king out of check.
    #[verifier::rlimit(30)]
    pub fn has_mate(&mut self) -> (r: bool)
        requires
            old(self).wf(),
            old(self).distance < isize::MAX,
        ensures
            final(self).wf(),
            final(self).same_state(&*old(self)),
            !r ==> exists|mv: int|
                pseudo_legal(old(self).squares@, old(self).sd_player as int, mv) && !in_check_of(
                    moved_squares(old(self).squares@, mv),
                    old(self).sd_player as int,
                ),
            r == forall|i: int|
                0 <= i < gen_all(old(self).squares@, old(self).sd_player as int, false).0.len()
                    ==> in_check_of(
                    moved_squares(
                        old(self).squares@,
                        #[trigger] gen_all(old(self).squares@, old(self).sd_player as int, false).0[i] as int,
                    ),
                    old(self).sd_player as int,
                ),
    {
        let (mvs, _) = self.generate_mvs(None);
        let ghost all = gen_all(old(self).squares@, old(self).sd_player as int, false).0;
        let mut i: usize = 0;
        while i < mvs.len()
            invariant
                self.wf(),
                self.same_state(&*old(self)),
                self.distance < isize::MAX,
                i <= mvs@.len(),
                forall|k: int| 0 <= k < mvs@.len() ==> #[trigger] pseudo_legal(self.squares@, self.sd_player as int, mvs@[k] as int),
                mvs@ == all,
                all == gen_all(old(self).squares@, old(self).sd_player as int, false).0,
                forall|k: int| 0 <= k < i ==> in_check_of(
                    moved_squares(old(self).squares@, #[trigger] all[k] as int),
                    old(self).sd_player as int,
                ),
            decreases mvs@.len() - i,
        {
            let mv = mvs[i];
            assert(pseudo_legal(self.squares@, self.sd_player as int, mvs@[i as int] as int));
            if self.make_move(mv) {
                proof {
                    lemma_unmove_moved(old(self).squares@, self.moves@.last());
                }
                self.undo_make_move();
                proof {
                    assert(self.moves@ =~= old(self).moves@);
                }
                return false;
            }
            i = i + 1;
        }
        true
    }

    pub open spec fn own_value(&self) -> int {
        if self.sd_player == 0 {
            self.vl_white as int
        } else {
            self.vl_black as int
        }
    }

    pub open spec fn opp_value(&self) -> int {
        if self.sd_player == 0 {
            self.vl_black as int
        } else {
            self.vl_white as int
        }
    }

    /// The last stack entry is a move that `undo_make_move` can take back.
    pub open spec fn can_undo(&self) -> bool {
        &&& self.moves@.len() >= 2
        &&& self.distance >= 1
        &&& undo_ok(self.squares@, self.moves@.last())
    }
}

/// The repetition walk of `rep_status` from entry `idx` down.
pub open spec fn rep_scan(
    moves: Seq<Moved>,
    key: i32,
    idx: int,
    side: bool,
    perp: bool,
    opp: bool,
    recur: int,
) -> int
    decreases idx + 1,
{
    if idx < 0 || !(moves[idx].mv > 0 && moves[idx].capture_piece == 0) {
        0
    } else if side {
        let perp2 = perp && moves[idx].checked;
        let hit = moves[idx].zobrist_key == key;
        if hit && recur - 1 == 0 {
            (if perp2 {
                2int
            } else {
                0int
            }) + (if opp {
                4int
            } else {
                0int
            }) + 1
        } else {
            rep_scan(
                moves,
                key,
                idx - 1,
                !side,
                perp2,
                opp,
                if hit {
                    recur - 1
                } else {
                    recur
                },
            )
        }
    } else {
        rep_scan(moves, key, idx - 1, !side, perp, opp && moves[idx].checked, recur)
    }
}

/// Score of repetition status `st` at distance `d`.
pub open spec fn rep_value_of(st: int, d: int) -> int {
    let ban = d - BAN_VALUE;
    let vl = (if st % 4 >= 2 {
        ban
    } else {
        0
    }) - (if st % 8 >= 4 {
        ban
    } else {
        0
    });
    if vl == 0 {
        draw_of(d)
    } else {
        vl
    }
}

/// Taking back a move restores the placement it was made from.
pub proof fn lemma_unmove_moved(s: Seq<isize>, m: Moved)
    requires
        src_of(m.mv as int) != dst_of(m.mv as int),
        0 <= src_of(m.mv as int) < s.len(),
        0 <= dst_of(m.mv as int) < s.len(),
        m.capture_piece == s[dst_of(m.mv as int)],
    ensures
        unmoved_squares(moved_squares(s, m.mv as int), m) == s,
{
    assert(unmoved_squares(moved_squares(s, m.mv as int), m) =~= s);
}

/// A placement that holds each piece of `s` at its mirrored square, and
/// nothing off the board, is the mirrored placement.
proof fn lemma_mirrored(m: Seq<isize>, s: Seq<isize>)
    requires
        placement_ok(m),
        forall|i: int| on_board(i) ==> m[mirror_square_of(i)] == #[trigger] s[i],
    ensures
        m == mirrored_squares(s),
{
    assert forall|j: int| 0 <= j < 256 implies m[j] == mirrored_squares(s)[j] by {
        if on_board(j) {
            let k = mirror_square_of(j);
            assert(on_board(k) && mirror_square_of(k) == j);
            assert(m[mirror_square_of(k)] == s[k]);
        } else {
            assert(m[j] == 0);
        }
    }
    assert(m =~= mirrored_squares(s));
}

/// Number of pieces on squares `0..n`.
pub open spec fn piece_count(s: Seq<isize>, n: nat) -> int
    decreases n,
{
    if n == 0 {
        0
    } else {
        piece_count(s, (n - 1) as nat) + if s[n - 1] != 0 {
            1int
        } else {
            0int
        }
    }
}

/// At most 38 pieces on the board: then no side's score reaches the mate
/// range, at this node and every node below it.
pub open spec fn few_pieces(s: Seq<isize>) -> bool {
    piece_count(s, 256) <= 38
}

proof fn lemma_count_update(s: Seq<isize>, k: int, p: isize, n: nat)
    requires
        0 <= k < s.len(),
        n <= s.len(),
    ensures
        piece_count(s.update(k, p), n) == piece_count(s, n) + if k < n {
            (if p != 0 {
                1int
            } else {
                0int
            }) - (if s[k] != 0 {
                1int
            } else {
                0int
            })
        } else {
            0
        },
    decreases n,
{
    if n > 0 {
        lemma_count_update(s, k, p, (n - 1) as nat);
    }
}

/// A move does not add pieces.
pub proof fn lemma_moved_few(s: Seq<isize>, mv: int)
    requires
        s.len() == 256,
        0 <= src_of(mv) < 256,
        0 <= dst_of(mv) < 256,
        src_of(mv) != dst_of(mv),
        s[src_of(mv)] != 0,
        few_pieces(s),
    ensures
        few_pieces(moved_squares(s, mv)),
{
    let a = s.update(src_of(mv), 0);
    lemma_count_update(s, src_of(mv), 0, 256);
    lemma_count_update(a, dst_of(mv), s[src_of(mv)], 256);
}

proof fn lemma_sums_by_count(v: Seq<u8>, s: Seq<isize>, n: nat)
    ensures
        red_sum(v, s, n) <= 255 * piece_count(s, n),
        black_sum(v, s, n) <= 255 * piece_count(s, n),
    decreases n,
{
    if n > 0 {
        lemma_sums_by_count(v, s, (n - 1) as nat);
    }
}

/// With few pieces the evaluation stays well away from mate scores.
pub proof fn lemma_eval_bounded(b: Borad)
    requires
        b.wf(),
        few_pieces(b.squares@),
    ensures
        0 <= b.vl_white <= 9690,
        0 <= b.vl_black <= 9690,
        -9700 <= evaluation_of(b.own_value(), b.opp_value(), b.distance as int) <= 9700,
{
    lemma_sums_by_count(b.tables.value@, b.squares@, 256);
}

/// The placement reflected left to right.
pub open spec fn mirrored_squares(s: Seq<isize>) -> Seq<isize> {
    Seq::new(256, |j: int| if on_board(j) { s[mirror_square_of(j)] } else { 0 })
}

/// Score of a draw at distance `d`.
pub open spec fn draw_of(d: int) -> int {
    if d % 2 == 0 {
        -DRAW_VALUE
    } else {
        DRAW_VALUE as int
    }
}

/// Evaluation from own and opponent scores at distance `d`.
pub open spec fn evaluation_of(own: int, opp: int, d: int) -> int {
    let vl = own - opp + ADVANCED_VALUE;
    if vl == draw_of(d) {
        vl - 1
    } else {
        vl
    }
}

/// The entry `m` describes a move whose piece now stands on its destination
/// and whose source is empty.
pub open spec fn undo_ok(s: Seq<isize>, m: Moved) -> bool {
    let src = src_of(m.mv as int);
    let dst = dst_of(m.mv as int);
    &&& 0 <= m.mv < 65536
    &&& on_board(src)
    &&& on_board(dst)
    &&& src != dst
    &&& s[src] == 0
    &&& is_piece(s[dst] as int)
    &&& valid_piece(m.capture_piece as int)
}

/// What `make_move(mv)` returning `r` does to a board.
pub open spec fn make_move_post(b0: Borad, b1: Borad, mv: int, r: bool) -> bool {
    let ns = moved_squares(b0.squares@, mv);
    &&& r == !in_check_of(ns, b0.sd_player as int)
    &&& r ==> {
        &&& b1.squares@ == ns
        &&& b1.sd_player == 1 - b0.sd_player
        &&& b1.moves@ == b0.moves@.push(
            Moved {
                mv: mv as isize,
                zobrist_key: b0.zobrist_key,
                capture_piece: b0.squares@[dst_of(mv)],
                checked: in_check_of(ns, 1 - b0.sd_player),
            },
        )
        &&& b1.distance == b0.distance + 1
        &&& b1.tables == b0.tables
    }
    &&& !r ==> b1.same_state(&b0)
}

/// What `undo_make_move` does to a board.
pub open spec fn undo_make_post(b0: Borad, b1: Borad) -> bool {
    &&& b1.squares@ == unmoved_squares(b0.squares@, b0.moves@.last())
    &&& b1.sd_player == 1 - b0.sd_player
    &&& b1.moves@ == b0.moves@.drop_last()
    &&& b1.distance == b0.distance - 1
    &&& b1.tables == b0.tables
}

proof fn lemma_between_nonneg(s: Seq<isize>, from: int, to: int, delta: int)
    ensures
        between_count(s, from, to, delta) >= 0,
    decreases (if delta > 0 {
        to - from + delta
    } else {
        from - to - delta
    }),
{
    if !(from == to || delta == 0 || (delta > 0 && from > to) || (delta < 0 && from < to) || from
        < 0 || from >= 256) {
        lemma_between_nonneg(s, from + delta, to, delta);
    }
}

} // verus!
