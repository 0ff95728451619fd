//! The precomputed tables that the board reads: Zobrist keys and locks for
//! every (piece slot, square) pair, and piece-square values.
//!
//! The Zobrist tables are the output of an RC4 key stream seeded with the key
//! `[0]`; the piece-square values are written out per role for the 90 squares
//! of the board, from red's point of view.
use vstd::prelude::*;

verus! {

/// Number of (role, colour) slots: red roles use 0..6, black roles 7..13.
pub const PIECE_SLOTS: usize = 14;

/// Zobrist key and lock of the black side to move.
pub const ZOBRIST_KEY_PLAYER: i32 = 1099503838;
pub const ZOBRIST_LOCK_PLAYER: i32 = 1730021002;

/// `s` with the entries at `a` and `b` exchanged.
pub open spec fn swap_at(s: Seq<u8>, a: int, b: int) -> Seq<u8> {
    s.update(a, s[b]).update(b, s[a])
}

/// RC4 key schedule with the one-byte key `[0]` after `i` steps: the state
/// permutation and the index `j`.
pub open spec fn rc4_schedule(i: nat) -> (Seq<u8>, int)
    decreases i,
{
    if i == 0 {
        (Seq::new(256, |k: int| k as u8), 0)
    } else {
        let (s, j) = rc4_schedule((i - 1) as nat);
        let j2 = (j + s[i - 1] as int) % 256;
        (swap_at(s, i - 1, j2), j2)
    }
}

/// RC4 generator state after `n` output bytes: permutation, `x` and `y`.
pub open spec fn rc4_state(n: nat) -> (Seq<u8>, int, int)
    decreases n,
{
    if n == 0 {
        (rc4_schedule(256).0, 0, 0)
    } else {
        let (s, x, y) = rc4_state((n - 1) as nat);
        let x2 = (x + 1) % 256;
        let y2 = (y + s[x2] as int) % 256;
        (swap_at(s, x2, y2), x2, y2)
    }
}

/// Output byte number `n` of the RC4 key stream (from 0).
pub open spec fn rc4_byte(n: nat) -> u8 {
    let (s, x, y) = rc4_state(n + 1);
    s[(s[x] as int + s[y] as int) % 256]
}

/// Key-stream word number `m`: bytes `4m` to `4m + 3`, little endian, as a
/// signed 32-bit value.
pub open spec fn rc4_long(m: nat) -> i32 {
    (rc4_byte(4 * m) as int + rc4_byte(4 * m + 1) as int * 0x100 + rc4_byte(4 * m + 2) as int
        * 0x1_0000 + rc4_byte(4 * m + 3) as int * 0x100_0000) as i32
}

/// Zobrist key of entry `k` (slot `k / 256`, square `k % 256`): word
/// `3 + 3k` of the key stream.
pub open spec fn zobrist_key_entry(k: int) -> i32 {
    rc4_long((3 + 3 * k) as nat)
}

/// Zobrist lock of entry `k`: word `5 + 3k` of the key stream.
pub open spec fn zobrist_lock_entry(k: int) -> i32 {
    rc4_long((5 + 3 * k) as nat)
}

/// RC4 key-stream generator.
struct Rc4 {
    x: usize,
    y: usize,
    state: Vec<u8>,
    count: Ghost<nat>,
}

impl Rc4 {
    spec fn wf(&self) -> bool {
        &&& self.x < 256
        &&& self.y < 256
        &&& self.state@.len() == 256
        &&& (self.state@, self.x as int, self.y as int) == rc4_state(self.count@)
    }

    /// Key schedule with the one-byte key `[0]`.
    fn new() -> (r: Rc4)
        ensures
            r.wf(),
            r.count@ == 0,
    {
        let mut state: Vec<u8> = Vec::new();
        let mut i: usize = 0;
        while i < 256
            invariant
                i <= 256,
                state@ == Seq::new(i as nat, |k: int| k as u8),
            decreases 256 - i,
        {
            state.push(i as u8);
            proof {
                assert(state@ =~= Seq::new((i + 1) as nat, |k: int| k as u8));
            }
            i = i + 1;
        }
        proof {
            assert(state@ =~= rc4_schedule(0).0);
        }
        let mut j: usize = 0;
        let mut i: usize = 0;
        while i < 256
            invariant
                i <= 256,
                j < 256,
                state@.len() == 256,
                (state@, j as int) == rc4_schedule(i as nat),
            decreases 256 - i,
        {
            j = (j + state[i] as usize) % 256;
            let t = state[i];
            let u = state[j];
            state.set(i, u);
            state.set(j, t);
            proof {
                assert(state@ =~= swap_at(rc4_schedule(i as nat).0, i as int, j as int));
            }
            i = i + 1;
        }
        Rc4 { x: 0, y: 0, state, count: Ghost(0) }
    }

    fn next_byte(&mut self) -> (r: u8)
        requires
            old(self).wf(),
        ensures
            final(self).wf(),
            final(self).count@ == old(self).count@ + 1,
            r == rc4_byte(old(self).count@),
    {
        self.x = (self.x + 1) % 256;
        self.y = (self.y + self.state[self.x] as usize) % 256;
        let t = self.state[self.x];
        let u = self.state[self.y];
        let ghost s0 = self.state@;
        self.state.set(self.x, u);
        self.state.set(self.y, t);
        proof {
            assert(self.state@ =~= swap_at(s0, self.x as int, self.y as int));
            self.count = Ghost(self.count@ + 1);
        }
        let k = (self.state[self.x] as usize + self.state[self.y] as usize) % 256;
        self.state[k]
    }

    /// Four key-stream bytes, little endian, as a signed 32-bit value.
    fn next_long(&mut self) -> (r: i32)
        requires
            old(self).wf(),
            old(self).count@ % 4 == 0,
        ensures
            final(self).wf(),
            final(self).count@ == old(self).count@ + 4,
            r == rc4_long(old(self).count@ / 4),
    {
        let n0 = self.next_byte() as u32;
        let n1 = self.next_byte() as u32;
        let n2 = self.next_byte() as u32;
        let n3 = self.next_byte() as u32;
        let v: u32 = n0 + n1 * 0x100 + n2 * 0x1_0000 + n3 * 0x100_0000;
        #[verifier::truncate]
        (v as i32)
    }
}

/// Piece-square values of the 90 board squares, rank by rank from the top
/// (black's back rank), for king, advisor, bishop, knight, rook, cannon and
/// pawn in turn.
pub open spec fn value_rows() -> Seq<u8> {
    seq![
        // king
        9u8, 9, 9, 11, 13, 11, 9, 9, 9,
        19, 24, 34, 42, 44, 42, 34, 24, 19,
        19, 24, 32, 37, 37, 37, 32, 24, 19,
        19, 23, 27, 29, 30, 29, 27, 23, 19,
        14, 18, 20, 27, 29, 27, 20, 18, 14,
        7, 0, 13, 0, 16, 0, 13, 0, 7,
        7, 0, 7, 0, 15, 0, 7, 0, 7,
        0, 0, 0, 1, 1, 1, 0, 0, 0,
        0, 0, 0, 2, 2, 2, 0, 0, 0,
        0, 0, 0, 11, 15, 11, 0, 0, 0,
        // advisor
        0, 0, 0, 0, 0, 0, 0, 0, 0,
        0, 0, 0, 0, 0, 0, 0, 0, 0,
        0, 0, 0, 0, 0, 0, 0, 0, 0,
        0, 0, 0, 0, 0, 0, 0, 0, 0,
        0, 0, 0, 0, 0, 0, 0, 0, 0,
        0, 0, 20, 0, 0, 0, 20, 0, 0,
        0, 0, 0, 0, 0, 0, 0, 0, 0,
        18, 0, 0, 20, 23, 20, 0, 0, 18,
        0, 0, 0, 0, 23, 0, 0, 0, 0,
        0, 0, 20, 20, 0, 20, 20, 0, 0,
        // bishop
        0, 0, 0, 0, 0, 0, 0, 0, 0,
        0, 0, 0, 0, 0, 0, 0, 0, 0,
        0, 0, 0, 0, 0, 0, 0, 0, 0,
        0, 0, 0, 0, 0, 0, 0, 0, 0,
        0, 0, 0, 0, 0, 0, 0, 0, 0,
        0, 0, 20, 0, 0, 0, 20, 0, 0,
        0, 0, 0, 0, 0, 0, 0, 0, 0,
        18, 0, 0, 20, 23, 20, 0, 0, 18,
        0, 0, 0, 0, 23, 0, 0, 0, 0,
        0, 0, 20, 20, 0, 20, 20, 0, 0,
        // knight
        90, 90, 90, 96, 90, 96, 90, 90, 90,
        90, 96, 103, 97, 94, 97, 103, 96, 90,
        92, 98, 99, 103, 99, 103, 99, 98, 92,
        93, 108, 100, 107, 100, 107, 100, 108, 93,
        90, 100, 99, 103, 104, 103, 99, 100, 90,
        90, 98, 101, 102, 103, 102, 101, 98, 90,
        92, 94, 98, 95, 98, 95, 98, 94, 92,
        93, 92, 94, 95, 92, 95, 94, 92, 93,
        85, 90, 92, 93, 78, 93, 92, 90, 85,
        88, 85, 90, 88, 90, 88, 90, 85, 88,
        // rook
        206, 208, 207, 213, 214, 213, 207, 208, 206,
        206, 212, 209, 216, 233, 216, 209, 212, 206,
        206, 208, 207, 214, 216, 214, 207, 208, 206,
        206, 213, 213, 216, 216, 216, 213, 213, 206,
        208, 211, 211, 214, 215, 214, 211, 211, 208,
        208, 212, 212, 214, 215, 214, 212, 212, 208,
        204, 209, 204, 212, 214, 212, 204, 209, 204,
        198, 208, 204, 212, 212, 212, 204, 208, 198,
        200, 208, 206, 212, 200, 212, 206, 208, 200,
        194, 206, 204, 212, 200, 212, 204, 206, 194,
        // cannon
        100, 100, 96, 91, 90, 91, 96, 100, 100,
        98, 98, 96, 92, 89, 92, 96, 98, 98,
        97, 97, 96, 91, 92, 91, 96, 97, 97,
        96, 99, 99, 98, 100, 98, 99, 99, 96,
        96, 96, 96, 96, 100, 96, 96, 96, 96,
        95, 96, 99, 96, 100, 96, 99, 96, 95,
        96, 96, 96, 96, 96, 96, 96, 96, 96,
        97, 96, 100, 99, 101, 99, 100, 96, 97,
        96, 97, 98, 98, 98, 98, 98, 97, 96,
        96, 96, 97, 99, 99, 99, 97, 96, 96,
        // pawn
        9, 9, 9, 11, 13, 11, 9, 9, 9,
        19, 24, 34, 42, 44, 42, 34, 24, 19,
        19, 24, 32, 37, 37, 37, 32, 24, 19,
        19, 23, 27, 29, 30, 29, 27, 23, 19,
        14, 18, 20, 27, 29, 27, 20, 18, 14,
        7, 0, 13, 0, 16, 0, 13, 0, 7,
        7, 0, 7, 0, 15, 0, 7, 0, 7,
        0, 0, 0, 1, 1, 1, 0, 0, 0,
        0, 0, 0, 2, 2, 2, 0, 0, 0,
        0, 0, 0, 11, 15, 11, 0, 0, 0,
    ]
}

/// Value of table entry `i` (role `i / 256`, square `i % 256`, red's view):
/// the role's value of that board square, 0 off the board.
pub open spec fn value_entry(i: int) -> u8 {
    let r = i / 256;
    let x = (i % 256) % 16;
    let y = (i % 256) / 16;
    if 3 <= x <= 11 && 3 <= y <= 12 {
        value_rows()[r * 90 + (y - 3) * 9 + (x - 3)]
    } else {
        0
    }
}

/// The values of `value_rows`; king and pawn share one table, as do advisor
/// and bishop.
fn compact_values() -> (r: Vec<u8>)
    ensures
        r@ == value_rows(),
{
    let r = vec![
        // king
        9, 9, 9, 11, 13, 11, 9, 9, 9,
        19, 24, 34, 42, 44, 42, 34, 24, 19,
        19, 24, 32, 37, 37, 37, 32, 24, 19,
        19, 23, 27, 29, 30, 29, 27, 23, 19,
        14, 18, 20, 27, 29, 27, 20, 18, 14,
        7, 0, 13, 0, 16, 0, 13, 0, 7,
        7, 0, 7, 0, 15, 0, 7, 0, 7,
        0, 0, 0, 1, 1, 1, 0, 0, 0,
        0, 0, 0, 2, 2, 2, 0, 0, 0,
        0, 0, 0, 11, 15, 11, 0, 0, 0,
        // advisor
        0, 0, 0, 0, 0, 0, 0, 0, 0,
        0, 0, 0, 0, 0, 0, 0, 0, 0,
        0, 0, 0, 0, 0, 0, 0, 0, 0,
        0, 0, 0, 0, 0, 0, 0, 0, 0,
        0, 0, 0, 0, 0, 0, 0, 0, 0,
        0, 0, 20, 0, 0, 0, 20, 0, 0,
        0, 0, 0, 0, 0, 0, 0, 0, 0,
        18, 0, 0, 20, 23, 20, 0, 0, 18,
        0, 0, 0, 0, 23, 0, 0, 0, 0,
        0, 0, 20, 20, 0, 20, 20, 0, 0,
        // bishop
        0, 0, 0, 0, 0, 0, 0, 0, 0,
        0, 0, 0, 0, 0, 0, 0, 0, 0,
        0, 0, 0, 0, 0, 0, 0, 0, 0,
        0, 0, 0, 0, 0, 0, 0, 0, 0,
        0, 0, 0, 0, 0, 0, 0, 0, 0,
        0, 0, 20, 0, 0, 0, 20, 0, 0,
        0, 0, 0, 0, 0, 0, 0, 0, 0,
        18, 0, 0, 20, 23, 20, 0, 0, 18,
        0, 0, 0, 0, 23, 0, 0, 0, 0,
        0, 0, 20, 20, 0, 20, 20, 0, 0,
        // knight
        90, 90, 90, 96, 90, 96, 90, 90, 90,
        90, 96, 103, 97, 94, 97, 103, 96, 90,
        92, 98, 99, 103, 99, 103, 99, 98, 92,
        93, 108, 100, 107, 100, 107, 100, 108, 93,
        90, 100, 99, 103, 104, 103, 99, 100, 90,
        90, 98, 101, 102, 103, 102, 101, 98, 90,
        92, 94, 98, 95, 98, 95, 98, 94, 92,
        93, 92, 94, 95, 92, 95, 94, 92, 93,
        85, 90, 92, 93, 78, 93, 92, 90, 85,
        88, 85, 90, 88, 90, 88, 90, 85, 88,
        // rook
        206, 208, 207, 213, 214, 213, 207, 208, 206,
        206, 212, 209, 216, 233, 216, 209, 212, 206,
        206, 208, 207, 214, 216, 214, 207, 208, 206,
        206, 213, 213, 216, 216, 216, 213, 213, 206,
        208, 211, 211, 214, 215, 214, 211, 211, 208,
        208, 212, 212, 214, 215, 214, 212, 212, 208,
        204, 209, 204, 212, 214, 212, 204, 209, 204,
        198, 208, 204, 212, 212, 212, 204, 208, 198,
        200, 208, 206, 212, 200, 212, 206, 208, 200,
        194, 206, 204, 212, 200, 212, 204, 206, 194,
        // cannon
        100, 100, 96, 91, 90, 91, 96, 100, 100,
        98, 98, 96, 92, 89, 92, 96, 98, 98,
        97, 97, 96, 91, 92, 91, 96, 97, 97,
        96, 99, 99, 98, 100, 98, 99, 99, 96,
        96, 96, 96, 96, 100, 96, 96, 96, 96,
        95, 96, 99, 96, 100, 96, 99, 96, 95,
        96, 96, 96, 96, 96, 96, 96, 96, 96,
        97, 96, 100, 99, 101, 99, 100, 96, 97,
        96, 97, 98, 98, 98, 98, 98, 97, 96,
        96, 96, 97, 99, 99, 99, 97, 96, 96,
        // pawn
        9, 9, 9, 11, 13, 11, 9, 9, 9,
        19, 24, 34, 42, 44, 42, 34, 24, 19,
        19, 24, 32, 37, 37, 37, 32, 24, 19,
        19, 23, 27, 29, 30, 29, 27, 23, 19,
        14, 18, 20, 27, 29, 27, 20, 18, 14,
        7, 0, 13, 0, 16, 0, 13, 0, 7,
        7, 0, 7, 0, 15, 0, 7, 0, 7,
        0, 0, 0, 1, 1, 1, 0, 0, 0,
        0, 0, 0, 2, 2, 2, 0, 0, 0,
        0, 0, 0, 11, 15, 11, 0, 0, 0,
    ];
    assert(r@ =~= value_rows());
    r
}

/// Zobrist tables and piece-square values.
pub struct Tables {
    /// Zobrist key of slot `s` on square `sq` at index `s * 256 + sq`.
    pub key: Vec<i32>,
    /// Zobrist lock, laid out as `key`.
    pub lock: Vec<i32>,
    /// Value of role `r` on square `sq` (red's view) at index `r * 256 + sq`.
    pub value: Vec<u8>,
}

impl Tables {
    /// The tables hold the RC4 Zobrist words and the piece-square values.
    pub open spec fn standard(&self) -> bool {
        &&& self.key@ == Seq::new((PIECE_SLOTS * 256) as nat, |k: int| zobrist_key_entry(k))
        &&& self.lock@ == Seq::new((PIECE_SLOTS * 256) as nat, |k: int| zobrist_lock_entry(k))
        &&& self.value@ == Seq::new(7 * 256, |k: int| value_entry(k))
    }

    pub open spec fn wf(&self) -> bool {
        &&& self.key@.len() == PIECE_SLOTS * 256
        &&& self.lock@.len() == PIECE_SLOTS * 256
        &&& self.value@.len() == 7 * 256
    }

    pub fn new() -> (t: Tables)
        ensures
            t.wf(),
            t.standard(),
            t.key@ == Seq::new((PIECE_SLOTS * 256) as nat, |k: int| zobrist_key_entry(k)),
            t.lock@ == Seq::new((PIECE_SLOTS * 256) as nat, |k: int| zobrist_lock_entry(k)),
            t.value@ == Seq::new(7 * 256, |k: int| value_entry(k)),
    {
        let mut rc4 = Rc4::new();
        let _key_player = rc4.next_long();
        let _skipped = rc4.next_long();
        let _lock_player = rc4.next_long();
        proof {
            assert(Seq::<i32>::empty() =~= Seq::new(0, |k: int| zobrist_key_entry(k)));
            assert(Seq::<i32>::empty() =~= Seq::new(0, |k: int| zobrist_lock_entry(k)));
        }
        let mut key: Vec<i32> = Vec::new();
        let mut lock: Vec<i32> = Vec::new();
        let mut n: usize = 0;
        while n < PIECE_SLOTS * 256
            invariant
                n <= PIECE_SLOTS * 256,
                key@ == Seq::new(n as nat, |k: int| zobrist_key_entry(k)),
                lock@ == Seq::new(n as nat, |k: int| zobrist_lock_entry(k)),
                rc4.wf(),
                rc4.count@ == 4 * (3 + 3 * n),
            decreases PIECE_SLOTS * 256 - n,
        {
            let ghost c = rc4.count@;
            proof {
                assert(c % 4 == 0 && c / 4 == 3 + 3 * n) by (nonlinear_arith)
                    requires
                        c == 4 * (3 + 3 * n),
                ;
                assert((c + 8) % 4 == 0 && (c + 8) / 4 == 5 + 3 * n) by (nonlinear_arith)
                    requires
                        c == 4 * (3 + 3 * n),
                ;
            }
            let kv = rc4.next_long();
            let _skipped = rc4.next_long();
            let lv = rc4.next_long();
            assert(kv == zobrist_key_entry(n as int));
            assert(lv == zobrist_lock_entry(n as int));
            key.push(kv);
            lock.push(lv);
            proof {
                assert(key@ =~= Seq::new((n + 1) as nat, |k: int| zobrist_key_entry(k)));
                assert(lock@ =~= Seq::new((n + 1) as nat, |k: int| zobrist_lock_entry(k)));
            }
            n = n + 1;
        }
        let compact = compact_values();
        let mut value: Vec<u8> = Vec::new();
        let mut i: usize = 0;
        while i < 7 * 256
            invariant
                i <= 7 * 256,
                compact@ == value_rows(),
                value@ == Seq::new(i as nat, |k: int| value_entry(k)),
            decreases 7 * 256 - i,
        {
            let r = i / 256;
            let x = (i % 256) % 16;
            let y = (i % 256) / 16;
            let v: u8 = if 3 <= x && x <= 11 && 3 <= y && y <= 12 {
                compact[r * 90 + (y - 3) * 9 + (x - 3)]
            } else {
                0
            };
            value.push(v);
            proof {
                assert(value@ =~= Seq::new((i + 1) as nat, |k: int| value_entry(k)));
            }
            i = i + 1;
        }
        Tables { key, lock, value }
    }

    /// A copy with the same entries.
    pub fn copy(&self) -> (t: Tables)
        requires
            self.wf(),
        ensures
            t.wf(),
            t.key@ == self.key@,
            t.lock@ == self.lock@,
            t.value@ == self.value@,
    {
        let mut key: Vec<i32> = Vec::new();
        let mut lock: Vec<i32> = Vec::new();
        let mut i: usize = 0;
        while i < self.key.len()
            invariant
                self.wf(),
                i <= self.key@.len(),
                key@ == self.key@.subrange(0, i as int),
                lock@ == self.lock@.subrange(0, i as int),
            decreases self.key@.len() - i,
        {
            key.push(self.key[i]);
            lock.push(self.lock[i]);
            proof {
                assert(key@ =~= self.key@.subrange(0, i + 1));
                assert(lock@ =~= self.lock@.subrange(0, i + 1));
            }
            i = i + 1;
        }
        let mut value: Vec<u8> = Vec::new();
        let mut i: usize = 0;
        while i < self.value.len()
            invariant
                self.wf(),
                i <= self.value@.len(),
                value@ == self.value@.subrange(0, i as int),
            decreases self.value@.len() - i,
        {
            value.push(self.value[i]);
            proof {
                assert(value@ =~= self.value@.subrange(0, i + 1));
            }
            i = i + 1;
        }
        proof {
            assert(key@ =~= self.key@);
            assert(lock@ =~= self.lock@);
            assert(value@ =~= self.value@);
        }
        Tables { key, lock, value }
    }
}

} // verus!
