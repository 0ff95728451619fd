//! Shell sort of moves by score, highest score first.
use vstd::prelude::*;
use vstd::multiset::group_multiset_axioms;
use vstd::multiset::group_multiset_properties;
use vstd::seq_lib::group_to_multiset_ensures;

verus! {

/// Scores are in descending order.
pub open spec fn sorted_desc(vls: Seq<isize>) -> bool {
    forall|i: int, j: int| 0 <= i < j < vls.len() ==> vls[i] >= vls[j]
}

/// (`mv`, `vl`) is one of the pairs of `m`/`v`.
pub open spec fn has_pair(m: Seq<isize>, v: Seq<isize>, mv: isize, vl: isize) -> bool {
    exists|j: int| 0 <= j < m.len() && j < v.len() && m[j] == mv && v[j] == vl
}

/// Every (move, score) pair of `m2`/`v2` is a pair of `m1`/`v1`.
pub open spec fn pairs_from(m2: Seq<isize>, v2: Seq<isize>, m1: Seq<isize>, v1: Seq<isize>) -> bool {
    forall|i: int| 0 <= i < m2.len() ==> #[trigger] has_pair(m1, v1, m2[i], v2[i])
}

proof fn lemma_pairs_refl(m: Seq<isize>, v: Seq<isize>)
    requires
        m.len() == v.len(),
    ensures
        pairs_from(m, v, m, v),
{
    assert forall|i: int| 0 <= i < m.len() implies #[trigger] has_pair(m, v, m[i], v[i]) by {
        assert(0 <= i < m.len() && i < v.len() && m[i] == m[i] && v[i] == v[i]);
    }
}

/// The (move, score) pairs.
pub open spec fn zip(m: Seq<isize>, v: Seq<isize>) -> Seq<(isize, isize)> {
    Seq::new(m.len(), |i: int| (m[i], v[i]))
}

/// Moving the element at `h` up to `hole` (the hole moving down to `h`)
/// keeps the multiset of the sequence with the held element in the hole.
proof fn lemma_shift_keeps(z: Seq<(isize, isize)>, hole: int, h: int, held: (isize, isize))
    requires
        0 <= h < hole < z.len(),
    ensures
        z.update(hole, z[h]).update(h, held).to_multiset() == z.update(hole, held).to_multiset(),
{
    broadcast use group_to_multiset_ensures, group_multiset_axioms, group_multiset_properties;

    let a = z.update(hole, held);
    let b = z.update(hole, z[h]);
    let c = b.update(h, held);
    assert(c =~= a.update(h, held).update(hole, z[h]));
    let zh = z[h];
    assert(a[h] == zh);
    assert(a.update(h, held).to_multiset() == a.to_multiset().insert(held).remove(zh));
    assert(c.to_multiset() == a.update(h, held).to_multiset().insert(zh).remove(a.update(h, held)[hole]));
    assert(a.update(h, held)[hole] == held);
    assert(a.to_multiset().count(zh) > 0) by {
        assert(a.contains(zh)) by {
            assert(a[h] == zh);
        }
    }
    assert(c.to_multiset() =~= a.to_multiset());
}

/// A move of `m1` is still among the moves of a permutation `m2` of it.
pub proof fn lemma_perm_keeps(m2: Seq<isize>, v2: Seq<isize>, m1: Seq<isize>, v1: Seq<isize>, j: int)
    requires
        m1.len() == v1.len(),
        m2.len() == v2.len(),
        zip(m2, v2).to_multiset() == zip(m1, v1).to_multiset(),
        0 <= j < m1.len(),
    ensures
        exists|k: int| 0 <= k < m2.len() && m2[k] == m1[j],
{
    broadcast use group_to_multiset_ensures;

    let p = (m1[j], v1[j]);
    assert(zip(m1, v1)[j] == p);
    assert(zip(m1, v1).contains(p));
    vstd::seq_lib::to_multiset_contains(zip(m1, v1), p);
    assert(zip(m1, v1).to_multiset().count(p) > 0);
    assert(zip(m2, v2).to_multiset().count(p) > 0);
    vstd::seq_lib::to_multiset_contains(zip(m2, v2), p);
    assert(zip(m2, v2).contains(p));
    let k = choose|k: int| 0 <= k < zip(m2, v2).len() && zip(m2, v2)[k] == p;
    assert(m2[k] == m1[j]);
}

/// Gapped insertion of `held` into the hole at `hole`: pairs `step` places
/// before it with a lower score move up until none is lower.
pub open spec fn sift(z: Seq<(isize, isize)>, hole: int, held: (isize, isize), step: int) -> Seq<(isize, isize)>
    decreases hole,
{
    if step >= 1 && hole >= step && held.1 > z[hole - step].1 {
        sift(z.update(hole, z[hole - step]), hole - step, held, step)
    } else {
        z.update(hole, held)
    }
}

/// The pairs after the insertion pass with gap `step` has taken positions
/// `0..i` in turn.
pub open spec fn pass_upto(z: Seq<(isize, isize)>, step: int, i: int) -> Seq<(isize, isize)>
    decreases i,
{
    if i <= 0 {
        z
    } else {
        let w = pass_upto(z, step, i - 1);
        sift(w, i - 1, w[i - 1], step)
    }
}

/// Gap of pass `level`: 1, 4, 13, 40, 121, 364, 1093.
pub open spec fn gap_of(level: int) -> int {
    if level <= 1 {
        1
    } else if level == 2 {
        4
    } else if level == 3 {
        13
    } else if level == 4 {
        40
    } else if level == 5 {
        121
    } else if level == 6 {
        364
    } else {
        1093
    }
}

/// The first pass level for `n` pairs: the highest level up to 7 whose gap
/// is below `n` (at least level 1).
pub open spec fn top_level(level: int, n: int) -> int
    decreases 7 - level,
{
    if level < 7 && gap_of(level + 1) < n {
        top_level(level + 1, n)
    } else {
        level
    }
}

/// The pairs after the passes from `level` down to gap 1.
pub open spec fn passes_from(z: Seq<(isize, isize)>, level: int) -> Seq<(isize, isize)>
    decreases level,
{
    if level <= 1 {
        pass_upto(z, 1, z.len() as int)
    } else {
        passes_from(pass_upto(z, gap_of(level), z.len() as int), level - 1)
    }
}

/// What `sort` makes of the pairs `z`.
pub open spec fn shell_sorted(z: Seq<(isize, isize)>) -> Seq<(isize, isize)> {
    if z.len() == 0 {
        z
    } else {
        passes_from(z, top_level(1, z.len() as int))
    }
}

proof fn lemma_sift_len(z: Seq<(isize, isize)>, hole: int, held: (isize, isize), step: int)
    requires
        0 <= hole < z.len(),
    ensures
        sift(z, hole, held, step).len() == z.len(),
    decreases hole,
{
    if step >= 1 && hole >= step && held.1 > z[hole - step].1 {
        lemma_sift_len(z.update(hole, z[hole - step]), hole - step, held, step);
    }
}

proof fn lemma_pass_len(z: Seq<(isize, isize)>, step: int, i: int)
    requires
        0 <= i <= z.len(),
    ensures
        pass_upto(z, step, i).len() == z.len(),
    decreases i,
{
    if i > 0 {
        lemma_pass_len(z, step, i - 1);
        let w = pass_upto(z, step, i - 1);
        lemma_sift_len(w, i - 1, w[i - 1], step);
    }
}

/// Gap of pass `level`: 1, 4, 13, 40, 121, 364, 1093.
fn gap_at(level: usize) -> (r: usize)
    requires
        1 <= level <= 7,
    ensures
        r == gap_of(level as int),
        1 <= r <= 1093,
{
    if level == 1 {
        1
    } else if level == 2 {
        4
    } else if level == 3 {
        13
    } else if level == 4 {
        40
    } else if level == 5 {
        121
    } else if level == 6 {
        364
    } else {
        1093
    }
}

/// One gapped insertion pass; with gap 1 it leaves the scores sorted.
fn insertion_pass(mvs: &mut Vec<isize>, vls: &mut Vec<isize>, step: usize)
    requires
        old(mvs)@.len() == old(vls)@.len(),
        step >= 1,
    ensures
        final(mvs)@.len() == old(mvs)@.len(),
        final(vls)@.len() == old(vls)@.len(),
        pairs_from(final(mvs)@, final(vls)@, old(mvs)@, old(vls)@),
        step == 1 ==> sorted_desc(final(vls)@),
        zip(final(mvs)@, final(vls)@).to_multiset() == zip(old(mvs)@, old(vls)@).to_multiset(),
        zip(final(mvs)@, final(vls)@) == pass_upto(zip(old(mvs)@, old(vls)@), step as int, old(mvs)@.len() as int),
{
    let ghost m0 = mvs@;
    let ghost v0 = vls@;
    let ghost z0 = zip(m0, v0);
    proof {
        lemma_pairs_refl(m0, v0);
    }
    let n = mvs.len();
    let mut i: usize = 0;
    while i < n
        invariant
            n == mvs@.len(),
            n == vls@.len(),
            n == m0.len(),
            n == v0.len(),
            i <= n,
            step >= 1,
            pairs_from(mvs@, vls@, m0, v0),
            step == 1 ==> forall|p: int, q: int| 0 <= p < q < i ==> vls@[p] >= vls@[q],
            zip(mvs@, vls@).to_multiset() == zip(m0, v0).to_multiset(),
            z0 == zip(m0, v0),
            zip(mvs@, vls@) == pass_upto(z0, step as int, i as int),
        decreases n - i,
    {
        let mv_best = mvs[i];
        let vl_best = vls[i];
        let ghost w = zip(mvs@, vls@);
        proof {
            assert(pass_upto(z0, step as int, i + 1) == sift(w, i as int, w[i as int], step as int));
            assert(w[i as int] == (mv_best, vl_best));
        }
        proof {
            assert(has_pair(m0, v0, mvs@[i as int], vls@[i as int]));
        }
        let mut hole: usize = i;
        proof {
            assert(zip(mvs@, vls@).update(hole as int, (mv_best, vl_best)) =~= zip(mvs@, vls@));
        }
        while hole >= step && vl_best > vls[hole - step]
            invariant
                n == mvs@.len(),
                n == vls@.len(),
                n == m0.len(),
                n == v0.len(),
                i < n,
                hole <= i,
                step >= 1,
                has_pair(m0, v0, mv_best, vl_best),
                forall|k: int| 0 <= k < n && k != hole ==> #[trigger] has_pair(m0, v0, mvs@[k], vls@[k]),
                step == 1 ==> forall|p: int, q: int|
                    0 <= p < q <= i && p != hole && q != hole ==> vls@[p] >= vls@[q],
                step == 1 ==> forall|k: int| hole < k <= i ==> vls@[k] < vl_best,
                zip(mvs@, vls@).update(hole as int, (mv_best, vl_best)).to_multiset() == zip(m0, v0).to_multiset(),
                sift(zip(mvs@, vls@), hole as int, (mv_best, vl_best), step as int) == pass_upto(z0, step as int, i + 1),
                z0 == zip(m0, v0),
            decreases hole,
        {
            let pm = mvs[hole - step];
            let pv = vls[hole - step];
            proof {
                let z = zip(mvs@, vls@);
                lemma_shift_keeps(z, hole as int, hole - step, (mv_best, vl_best));
                assert(zip(mvs@.update(hole as int, pm), vls@.update(hole as int, pv)) =~= z.update(hole as int, z[hole - step]));
                assert(zip(mvs@.update(hole as int, pm), vls@.update(hole as int, pv)).update(hole - step, (mv_best, vl_best))
                    =~= z.update(hole as int, z[hole - step]).update(hole - step, (mv_best, vl_best)));
            }
            proof {
                assert(has_pair(m0, v0, mvs@[hole - step], vls@[hole - step]));
            }
            let ghost zc = zip(mvs@, vls@);
            mvs.set(hole, pm);
            vls.set(hole, pv);
            proof {
                assert(zip(mvs@, vls@) =~= zc.update(hole as int, zc[hole - step]));
            }
            hole = hole - step;
        }
        let ghost zb = zip(mvs@, vls@);
        mvs.set(hole, mv_best);
        vls.set(hole, vl_best);
        proof {
            assert(zip(mvs@, vls@) =~= zb.update(hole as int, (mv_best, vl_best)));
            assert forall|k: int| 0 <= k < n implies #[trigger] has_pair(m0, v0, mvs@[k], vls@[k]) by {
                if k == hole {
                } else {
                }
            }
        }
        i = i + 1;
    }
}

/// Sorts the pairs (`mvs[i]`, `vls[i]`) by score, highest first, by
/// gapped insertion passes with gaps 1093, 364, 121, 40, 13, 4, 1 (those
/// below the length, then 1).
pub fn sort(mvs: &mut Vec<isize>, vls: &mut Vec<isize>)
    requires
        old(mvs)@.len() == old(vls)@.len(),
    ensures
        final(mvs)@.len() == old(mvs)@.len(),
        final(vls)@.len() == old(vls)@.len(),
        pairs_from(final(mvs)@, final(vls)@, old(mvs)@, old(vls)@),
        sorted_desc(final(vls)@),
        zip(final(mvs)@, final(vls)@).to_multiset() == zip(old(mvs)@, old(vls)@).to_multiset(),
        zip(final(mvs)@, final(vls)@) == shell_sorted(zip(old(mvs)@, old(vls)@)),
{
    let ghost z0 = zip(mvs@, vls@);
    if mvs.len() == 0 {
        return;
    }
    let n = mvs.len();
    let mut level: usize = 1;
    while level < 7 && gap_at(level + 1) < n
        invariant
            1 <= level <= 7,
            n == mvs@.len(),
            top_level(level as int, n as int) == top_level(1, n as int),
        decreases 7 - level,
    {
        level = level + 1;
    }
    let ghost m0 = mvs@;
    let ghost v0 = vls@;
    proof {
        lemma_pairs_refl(m0, v0);
        assert(z0 == zip(m0, v0));
    }
    while level > 1
        invariant
            1 <= level <= 7,
            mvs@.len() == m0.len(),
            vls@.len() == v0.len(),
            m0.len() == v0.len(),
            n == m0.len(),
            n > 0,
            pairs_from(mvs@, vls@, m0, v0),
            zip(mvs@, vls@).to_multiset() == zip(m0, v0).to_multiset(),
            z0 == zip(m0, v0),
            passes_from(zip(mvs@, vls@), level as int) == shell_sorted(z0),
        decreases level,
    {
        let ghost m1 = mvs@;
        let ghost v1 = vls@;
        let g = gap_at(level);
        insertion_pass(mvs, vls, g);
        proof {
            lemma_pairs_trans(mvs@, vls@, m1, v1, m0, v0);
            lemma_pass_len(zip(m1, v1), g as int, n as int);
            assert(zip(mvs@, vls@).len() == n);
        }
        level = level - 1;
    }
    let ghost m1 = mvs@;
    let ghost v1 = vls@;
    insertion_pass(mvs, vls, 1);
    proof {
        lemma_pairs_trans(mvs@, vls@, m1, v1, m0, v0);
    }
}

proof fn lemma_pairs_trans(
    m3: Seq<isize>,
    v3: Seq<isize>,
    m2: Seq<isize>,
    v2: Seq<isize>,
    m1: Seq<isize>,
    v1: Seq<isize>,
)
    requires
        pairs_from(m3, v3, m2, v2),
        pairs_from(m2, v2, m1, v1),
    ensures
        pairs_from(m3, v3, m1, v1),
{
    assert forall|i: int| 0 <= i < m3.len() implies #[trigger] has_pair(m1, v1, m3[i], v3[i]) by {
        assert(has_pair(m2, v2, m3[i], v3[i]));
        let k = choose|k: int| 0 <= k < m2.len() && k < v2.len() && m2[k] == m3[i] && v2[k] == v3[i];
        assert(has_pair(m1, v1, m2[k], v2[k]));
    }
}

} // verus!
