//! The opening book: records (position lock, move, weight) sorted by lock.
use vstd::prelude::*;
use rand::rngs::StdRng;
use crate::borad::{mirrored_squares, position_lock, Borad};
use crate::chance::random_below;
use crate::pregen::{in_broad, on_board};
use crate::rules::pseudo_legal;
use crate::util::{dst, dst_of, halve_times, merge_of, mirror_move, mirror_square_of, src, src_of, unsigned_right_shift};

verus! {

/// Records sorted by position lock: `[lock, move, weight]`.
pub struct Book {
    pub data: Vec<[i32; 3]>,
}

impl Book {
    /// The records are in ascending order of lock.
    pub open spec fn sorted(&self) -> bool {
        forall|i: int, j: int| 0 <= i < j < self.data@.len() ==> self.data@[i][0] <= self.data@[j][0]
    }

    /// An empty book.
    pub fn empty() -> (r: Book)
        ensures
            r.data@.len() == 0,
    {
        Book { data: Vec::new() }
    }

    /// Binary search for a record with lock `vl`.
    pub fn search(&self, vl: i32) -> (r: Option<usize>)
        requires
            self.sorted(),
        ensures
            r matches Some(i) ==> i < self.data@.len() && self.data@[i as int][0] == vl,
            r is None ==> forall|i: int| 0 <= i < self.data@.len() ==> self.data@[i][0] != vl,
    {
        let mut low: usize = 0;
        let mut high: usize = self.data.len();
        while low < high
            invariant
                self.sorted(),
                low <= high <= self.data@.len(),
                forall|i: int| 0 <= i < low ==> self.data@[i][0] < vl,
                forall|i: int| high <= i < self.data@.len() ==> self.data@[i][0] > vl,
            decreases high - low,
        {
            let mid = low + (high - low) / 2;
            let value = self.data[mid][0];
            if value < vl {
                low = mid + 1;
            } else if value > vl {
                high = mid;
            } else {
                return Some(mid);
            }
        }
        None
    }
}

/// The move that a draw `r` picks from moves `mvs` with weights `vls`: the
/// first whose running weight total exceeds `r`; 0 if there is none.
pub open spec fn weighted_pick(mvs: Seq<isize>, vls: Seq<i64>, r: int) -> isize
    decreases mvs.len(),
{
    if mvs.len() == 0 || vls.len() == 0 {
        0
    } else if r - vls[0] < 0 {
        mvs[0]
    } else {
        weighted_pick(mvs.drop_first(), vls.drop_first(), r - vls[0])
    }
}

/// Picks from `mvs`, weighted by `vls`, the move that the draw `r` selects.
pub fn pick_weighted(mvs: &Vec<isize>, vls: &Vec<i64>, r: i64) -> (m: isize)
    requires
        mvs@.len() == vls@.len(),
        r >= 0,
        forall|i: int| 0 <= i < vls@.len() ==> vls@[i] > 0,
    ensures
        m == weighted_pick(mvs@, vls@, r as int),
        m == 0 || exists|i: int| 0 <= i < mvs@.len() && mvs@[i] == m,
{
    let mut value: i64 = r;
    let mut i: usize = 0;
    proof {
        assert(mvs@.subrange(0, mvs@.len() as int) =~= mvs@);
        assert(vls@.subrange(0, vls@.len() as int) =~= vls@);
    }
    while i < mvs.len()
        invariant
            mvs@.len() == vls@.len(),
            i <= mvs@.len(),
            value >= 0,
            forall|k: int| 0 <= k < vls@.len() ==> vls@[k] > 0,
            weighted_pick(mvs@.subrange(i as int, mvs@.len() as int), vls@.subrange(i as int, vls@.len() as int), value as int)
                == weighted_pick(mvs@, vls@, r as int),
        decreases mvs@.len() - i,
    {
        proof {
            assert(mvs@.subrange(i as int, mvs@.len() as int).drop_first() =~= mvs@.subrange(i + 1, mvs@.len() as int));
            assert(vls@.subrange(i as int, vls@.len() as int).drop_first() =~= vls@.subrange(i + 1, vls@.len() as int));
        }
        if value - vls[i] < 0 {
            return mvs[i];
        }
        value = value - vls[i];
        i = i + 1;
    }
    proof {
        assert(mvs@.subrange(i as int, mvs@.len() as int).len() == 0);
        assert(mvs@ =~= mvs@.subrange(0, mvs@.len() as int));
    }
    0
}

/// Lock under which the book files a position whose Zobrist lock is
/// `lock`: its low 32 bits, shifted right by one.
pub open spec fn book_lock(lock: i32) -> int {
    ((lock as int) % 0x1_0000_0000) / 2
}

/// The move of a book record, mirrored back when the position was found
/// mirrored; none when the record's move is not a move code between board
/// squares.
pub open spec fn entry_move(rec: [i32; 3], mirrored: bool) -> Option<isize> {
    let mv = rec[1] as int;
    if !(0 <= mv < 65536) {
        None
    } else if mirrored {
        if on_board(src_of(mv)) && on_board(dst_of(mv)) {
            Some(merge_of(mirror_square_of(src_of(mv)), mirror_square_of(dst_of(mv))) as isize)
        } else {
            None
        }
    } else {
        Some(mv as isize)
    }
}

/// Moves and weights of the records of `data` filed under `lk` whose weight
/// is positive and whose move is pseudo-legal on placement `s` for side `sd`,
/// in the order of `data`.
pub open spec fn book_filter(data: Seq<[i32; 3]>, lk: int, mirrored: bool, s: Seq<isize>, sd: int) -> (Seq<isize>, Seq<i64>)
    decreases data.len(),
{
    if data.len() == 0 {
        (Seq::empty(), Seq::empty())
    } else {
        let rest = book_filter(data.drop_last(), lk, mirrored, s, sd);
        let rec = data.last();
        match entry_move(rec, mirrored) {
            Some(mv) => if rec[0] == lk && rec[2] > 0 && pseudo_legal(s, sd, mv as int) {
                (rest.0.push(mv), rest.1.push(rec[2] as i64))
            } else {
                rest
            },
            None => rest,
        }
    }
}

/// The book's candidate moves for board `b`: those filed under its own
/// lock if the book has that lock, else those filed under the lock of the
/// mirrored board (mirrored back), else none.
pub open spec fn candidates_of(b: Borad, book: Book) -> (Seq<isize>, Seq<i64>) {
    let data = book.data@;
    let lk = book_lock(b.zobrist_lock);
    let mlk = book_lock(position_lock(b.tables, mirrored_squares(b.squares@), b.sd_player as int));
    if exists|i: int| 0 <= i < data.len() && data[i][0] == lk {
        book_filter(data, lk, false, b.squares@, b.sd_player as int)
    } else if exists|i: int| 0 <= i < data.len() && data[i][0] == mlk {
        book_filter(data, mlk, true, b.squares@, b.sd_player as int)
    } else {
        (Seq::empty(), Seq::empty())
    }
}

/// Sum of weights.
pub open spec fn weight_sum(vls: Seq<i64>) -> int
    decreases vls.len(),
{
    if vls.len() == 0 {
        0
    } else {
        vls[0] + weight_sum(vls.drop_first())
    }
}

proof fn lemma_filter_none(data: Seq<[i32; 3]>, lk: int, mirrored: bool, s: Seq<isize>, sd: int)
    requires
        forall|i: int| 0 <= i < data.len() ==> data[i][0] != lk,
    ensures
        book_filter(data, lk, mirrored, s, sd) == (Seq::<isize>::empty(), Seq::<i64>::empty()),
    decreases data.len(),
{
    if data.len() > 0 {
        lemma_filter_none(data.drop_last(), lk, mirrored, s, sd);
    }
}

proof fn lemma_filter_tail(data: Seq<[i32; 3]>, lk: int, mirrored: bool, s: Seq<isize>, sd: int, n: int)
    requires
        0 <= n <= data.len(),
        forall|i: int| n <= i < data.len() ==> data[i][0] != lk,
    ensures
        book_filter(data, lk, mirrored, s, sd) == book_filter(data.subrange(0, n), lk, mirrored, s, sd),
    decreases data.len() - n,
{
    if n < data.len() {
        assert(data.drop_last().subrange(0, n) =~= data.subrange(0, n));
        lemma_filter_tail(data.drop_last(), lk, mirrored, s, sd, n);
    } else {
        assert(data.subrange(0, n) =~= data);
    }
}

proof fn lemma_sum_prefix(vls: Seq<i64>, i: int)
    requires
        0 <= i < vls.len(),
    ensures
        weight_sum(vls.subrange(0, i + 1)) == weight_sum(vls.subrange(0, i)) + vls[i],
    decreases i,
{
    let a = vls.subrange(0, i + 1);
    let b = vls.subrange(0, i);
    if i > 0 {
        let t = vls.drop_first();
        lemma_sum_prefix(t, i - 1);
        assert(a.drop_first() =~= t.subrange(0, i));
        assert(b.drop_first() =~= t.subrange(0, i - 1));
        assert(weight_sum(a) == a[0] + weight_sum(a.drop_first()));
        assert(weight_sum(b) == b[0] + weight_sum(b.drop_first()));
    } else {
        assert(a.drop_first() =~= Seq::<i64>::empty());
        assert(b =~= Seq::<i64>::empty());
        assert(weight_sum(a) == a[0] + weight_sum(a.drop_first()));
    }
}

/// A draw below the weight total picks one of the moves.
proof fn lemma_pick_found(mvs: Seq<isize>, vls: Seq<i64>, r: int)
    requires
        mvs.len() == vls.len(),
        0 <= r < weight_sum(vls),
        forall|i: int| 0 <= i < vls.len() ==> vls[i] > 0,
    ensures
        exists|i: int| 0 <= i < mvs.len() && mvs[i] == weighted_pick(mvs, vls, r),
    decreases mvs.len(),
{
    if r - vls[0] < 0 {
        assert(mvs[0] == weighted_pick(mvs, vls, r));
    } else {
        lemma_pick_found(mvs.drop_first(), vls.drop_first(), r - vls[0]);
        let j = choose|j: int| 0 <= j < mvs.drop_first().len() && mvs.drop_first()[j] == weighted_pick(mvs.drop_first(), vls.drop_first(), r - vls[0]);
        assert(mvs[j + 1] == weighted_pick(mvs, vls, r));
    }
}

impl Borad {
    /// Book moves for this position that are pseudo-legal here, with their
    /// (positive) weights. The position is looked up by its lock shifted
    /// right by one bit; when absent, the mirrored position is looked up and
    /// its moves are mirrored back.
    #[verifier::rlimit(30)]
    pub fn book_candidates(&self, book: &Book) -> (r: (Vec<isize>, Vec<i64>))
        requires
            self.wf(),
            book.sorted(),
        ensures
            r.0@.len() == r.1@.len(),
            forall|i: int| 0 <= i < r.0@.len() ==> pseudo_legal(self.squares@, self.sd_player as int, #[trigger] r.0@[i] as int),
            forall|i: int| 0 <= i < r.1@.len() ==> #[trigger] r.1@[i] > 0,
            (r.0@, r.1@) == candidates_of(*self, *book),
    {
        let mut mvs: Vec<isize> = Vec::new();
        let mut vls: Vec<i64> = Vec::new();
        let mut mirrored = false;
        let sh = unsigned_right_shift(self.zobrist_lock as i64, 1);
        proof {
            let v = (self.zobrist_lock as int) % 0x1_0000_0000;
            assert(halve_times(v, 1) == halve_times(v, 0) / 2);
        }
        let mut lock = sh as i32;
        let ghost lk = book_lock(self.zobrist_lock);
        let ghost mlk = book_lock(position_lock(self.tables, mirrored_squares(self.squares@), self.sd_player as int));
        assert(lock == lk);
        let mut hit = book.search(lock);
        if hit.is_none() {
            let m = self.mirror();
            let msh = unsigned_right_shift(m.zobrist_lock as i64, 1);
            proof {
                let v = (m.zobrist_lock as int) % 0x1_0000_0000;
                assert(halve_times(v, 1) == halve_times(v, 0) / 2);
            }
            lock = msh as i32;
            assert(lock == mlk);
            hit = book.search(lock);
            mirrored = true;
        }
        let h = match hit {
            None => {
                return (mvs, vls);
            },
            Some(h) => h,
        };
        let ghost target = if mirrored { mlk } else { lk };
        assert(lock == target);
        assert((mvs@, vls@) == (Seq::<isize>::empty(), Seq::<i64>::empty()));
        let mut first = h;
        while first > 0 && book.data[first - 1][0] == lock
            invariant
                first <= h < book.data@.len(),
                book.data@[first as int][0] == lock,
            decreases first,
        {
            first = first - 1;
        }
        proof {
            assert forall|i: int| 0 <= i < first implies book.data@.subrange(0, first as int)[i][0] != target by {
                assert(book.data@[i][0] <= book.data@[first - 1][0]);
            }
            lemma_filter_none(book.data@.subrange(0, first as int), target, mirrored, self.squares@, self.sd_player as int);
        }
        let mut idx = first;
        while idx < book.data.len() && book.data[idx][0] == lock
            invariant
                self.wf(),
                book.sorted(),
                first <= idx <= book.data@.len(),
                book.data@[first as int][0] == lock,
                lock == target,
                mvs@.len() == vls@.len(),
                forall|i: int| 0 <= i < mvs@.len() ==> pseudo_legal(self.squares@, self.sd_player as int, #[trigger] mvs@[i] as int),
                forall|i: int| 0 <= i < vls@.len() ==> #[trigger] vls@[i] > 0,
                (mvs@, vls@) == book_filter(book.data@.subrange(0, idx as int), target, mirrored, self.squares@, self.sd_player as int),
            decreases book.data@.len() - idx,
        {
            let rec = book.data[idx];
            let mut mv = rec[1] as isize;
            let mut ok = 0 <= mv && mv < 65536;
            if ok && mirrored {
                if in_broad(src(mv)) && in_broad(dst(mv)) {
                    mv = mirror_move(mv);
                } else {
                    ok = false;
                }
            }
            proof {
                assert(book.data@.subrange(0, idx + 1).drop_last() =~= book.data@.subrange(0, idx as int));
                assert(book.data@.subrange(0, idx + 1).last() == rec);
            }
            if ok && rec[2] > 0 && self.legal_move(mv) {
                mvs.push(mv);
                vls.push(rec[2] as i64);
            }
            idx = idx + 1;
        }
        proof {
            assert forall|i: int| idx <= i < book.data@.len() implies book.data@[i][0] != target by {
                assert(book.data@[idx as int][0] <= book.data@[i][0]);
                assert(book.data@[first as int][0] <= book.data@[idx as int][0]);
            }
            lemma_filter_tail(book.data@, target, mirrored, self.squares@, self.sd_player as int, idx as int);
        }
        (mvs, vls)
    }

    /// A book move for this position, drawn at random by weight; 0 when the
    /// book has none.
    #[verifier::rlimit(30)]
    pub fn book_move(&self, book: &Book, rng: &mut StdRng) -> (r: isize)
        requires
            self.wf(),
            book.sorted(),
        ensures
            r == 0 || pseudo_legal(self.squares@, self.sd_player as int, r as int),
            r == 0 <==> candidates_of(*self, *book).0.len() == 0,
            r != 0 ==> exists|i: int|
                0 <= i < candidates_of(*self, *book).0.len() && candidates_of(*self, *book).0[i] == r,
    {
        let (mvs, vls) = self.book_candidates(book);
        let mut total: i64 = 0;
        let mut i: usize = 0;
        while i < vls.len()
            invariant
                0 <= total,
                i <= vls@.len(),
                total <= weight_sum(vls@.subrange(0, i as int)),
                i > 0 ==> total > 0,
                forall|k: int| 0 <= k < vls@.len() ==> #[trigger] vls@[k] > 0,
            decreases vls@.len() - i,
        {
            proof {
                lemma_sum_prefix(vls@, i as int);
            }
            if total <= i64::MAX - vls[i] {
                total = total + vls[i];
            }
            i = i + 1;
        }
        proof {
            assert(vls@.subrange(0, vls@.len() as int) =~= vls@);
        }
        if total == 0 {
            return 0;
        }
        let r = random_below(rng, total as u64) as i64;
        let m = pick_weighted(&mvs, &vls, r);
        proof {
            lemma_pick_found(mvs@, vls@, r as int);
            let j = choose|j: int| 0 <= j < mvs@.len() && mvs@[j] == weighted_pick(mvs@, vls@, r as int);
            assert(pseudo_legal(self.squares@, self.sd_player as int, mvs@[j] as int));
            assert(mvs@[j] != 0);
            assert(candidates_of(*self, *book).0[j] == m);
        }
        m
    }
}

} // verus!
