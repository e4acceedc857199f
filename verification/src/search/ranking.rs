//! Ranking of scored results: best score first, ties kept in arrival order,
//! then cut to the requested number.
//!
//! Scores are doubles held by their bit patterns; the order is the order of
//! the doubles they stand for, with every `NaN` ranked below every number
//! and level with every other `NaN`.
use vstd::prelude::*;
use crate::numeric::{Num, Order3, f64_num, num_order, f64_compare};
use crate::metadata::Metadata;
use crate::search::query::{Filter, all_hold};

verus! {

/// Whether the double with bit pattern `s` is a number (not `NaN`).
pub open spec fn is_number(s: u64) -> bool {
    f64_num(s) != Num::NaN
}

/// Whether score `a` is greater than score `b`.
pub open spec fn score_gt(a: u64, b: u64) -> bool {
    num_order(f64_num(a), f64_num(b)) == Some(Order3::Greater)
}

/// Whether score `a` equals score `b` as doubles.
pub open spec fn score_eq(a: u64, b: u64) -> bool {
    num_order(f64_num(a), f64_num(b)) == Some(Order3::Equal)
}

/// Whether score `a` is at least score `b`.
pub open spec fn score_ge(a: u64, b: u64) -> bool {
    score_gt(a, b) || score_eq(a, b)
}

/// Whether score `a` ranks above score `b`: a greater number, or a number
/// against a `NaN`.
pub open spec fn rank_gt(a: u64, b: u64) -> bool {
    score_gt(a, b) || (is_number(a) && !is_number(b))
}

/// Whether scores `a` and `b` rank level: equal numbers, or two `NaN`s.
pub open spec fn rank_eq(a: u64, b: u64) -> bool {
    score_eq(a, b) || (!is_number(a) && !is_number(b))
}

/// Whether score `a` ranks at least as high as score `b`.
pub open spec fn rank_ge(a: u64, b: u64) -> bool {
    rank_gt(a, b) || rank_eq(a, b)
}

/// Something that carries a score.
pub trait Scored {
    /// The score, as the bit pattern of a double.
    spec fn score_of(&self) -> u64;

    /// Reads the score.
    fn score(&self) -> (s: u64)
        ensures
            s == self.score_of(),
    ;
}

/// The scores of `items`, in order.
pub open spec fn scores_of<T: Scored>(items: Seq<T>) -> Seq<u64> {
    Seq::new(items.len(), |i: int| items[i].score_of())
}

/// Whether the item at position `a` of a list with scores `sc` ranks before
/// the one at position `b`: a higher-ranking score, or a level score and an
/// earlier position.
pub open spec fn ranks_before(sc: Seq<u64>, a: int, b: int) -> bool {
    rank_gt(sc[a], sc[b]) || (rank_eq(sc[a], sc[b]) && a < b)
}

/// `out` is made of the items of `items` at positions `idx`, which are the
/// `idx.len()` best-ranked positions, listed best first.
pub open spec fn ranked_prefix<T>(items: Seq<T>, sc: Seq<u64>, out: Seq<T>, idx: Seq<int>) -> bool {
    &&& idx.len() == out.len()
    &&& forall|j: int| 0 <= j < idx.len() ==> 0 <= #[trigger] idx[j] < items.len() && out[j] == items[idx[j]]
    &&& forall|j1: int, j2: int| 0 <= j1 < j2 < idx.len() ==> ranks_before(sc, #[trigger] idx[j1], #[trigger] idx[j2])
    &&& forall|i: int, j: int| 0 <= i < items.len() && !idx.contains(i) && 0 <= j < idx.len()
        ==> #[trigger] ranks_before(sc, idx[j], i)
}

/// A search hit.
#[derive(Debug)]
pub struct Hit {
    pub id: u128,
    /// The similarity score (higher is more similar), widened to a double
    /// and held by its bit pattern.
    pub score: u64,
    pub text: String,
    /// The stored vector, each component held by its `f32` bit pattern.
    pub vector: Vec<u32>,
    pub metadata: Metadata,
}

impl Scored for Hit {
    open spec fn score_of(&self) -> u64 {
        self.score
    }

    fn score(&self) -> (s: u64) {
        self.score
    }
}

/// Two stored vectors whose similarity reaches a threshold.
#[derive(Debug)]
pub struct DuplicateHit {
    /// The smaller of the two ids.
    pub id_a: u128,
    /// The larger of the two ids.
    pub id_b: u128,
    /// Their similarity, as the bit pattern of a double.
    pub score: u64,
}

impl Scored for DuplicateHit {
    open spec fn score_of(&self) -> u64 {
        self.score
    }

    fn score(&self) -> (s: u64) {
        self.score
    }
}

/// Whether score `a` ranks above score `b`.
fn ranks_above(a: u64, b: u64) -> (r: bool)
    ensures
        r == rank_gt(a, b),
{
    match f64_compare(a, b) {
        Some(Order3::Greater) => true,
        Some(_) => false,
        None => f64_compare(a, a).is_some() && f64_compare(b, b).is_none(),
    }
}

proof fn lemma_order_facts(a: u64, b: u64, c: u64)
    ensures
        rank_gt(a, b) || rank_eq(a, b) || rank_gt(b, a),
        !(rank_gt(a, b) && rank_eq(a, b)),
        !(rank_gt(a, b) && rank_gt(b, a)),
        rank_eq(a, b) == rank_eq(b, a),
        rank_eq(a, a),
        rank_gt(a, b) && rank_ge(b, c) ==> rank_gt(a, c),
        rank_ge(a, b) && rank_gt(b, c) ==> rank_gt(a, c),
        rank_eq(a, b) && rank_eq(b, c) ==> rank_eq(a, c),
{
}

/// Puts `items` in rank order (best score first, ties in their present
/// order, `NaN` scores last) and keeps the first `k`.
pub fn rank_by_score<T: Scored>(items: &mut Vec<T>, k: usize)
    ensures
        final(items)@.len() == (if k < old(items)@.len() { k as int } else { old(items)@.len() as int }),
        exists|idx: Seq<int>| ranked_prefix(old(items)@, scores_of(old(items)@), final(items)@, idx),
{
    let ghost orig = items@;
    let ghost sc = scores_of(orig);
    let ghost n = orig.len() as int;
    let ghost mut perm: Seq<int> = Seq::new(orig.len(), |j: int| j);
    let len = items.len();
    let mut i: usize = 0;
    while i < len
        invariant
            0 <= i <= len,
            len == n,
            orig.len() == n,
            sc.len() == n,
            sc == scores_of(orig),
            items@.len() == n,
            perm.len() == n,
            forall|j: int| 0 <= j < n ==> 0 <= #[trigger] perm[j] < n && items@[j] == orig[perm[j]],
            forall|j: int| i <= j < n ==> #[trigger] perm[j] == j,
            forall|j: int| 0 <= j < i ==> #[trigger] perm[j] < i,
            forall|j1: int, j2: int| 0 <= j1 < j2 < n ==> #[trigger] perm[j1] != #[trigger] perm[j2],
            forall|j1: int, j2: int| 0 <= j1 < j2 < i ==> ranks_before(sc, #[trigger] perm[j1], #[trigger] perm[j2]),
        decreases len - i,
    {
        proof {
            assert(perm[i as int] == i);
            assert(items@[i as int] == orig[i as int]);
        }
        let x = items.remove(i);
        let xs = x.score();
        assert(xs == sc[i as int]);
        let mut p: usize = 0;
        while p < i && !ranks_above(xs, items[p].score())
            invariant
                0 <= p <= i,
                i < n,
                orig.len() == n,
                sc.len() == n,
                perm.len() == n,
                items@.len() == n - 1,
                xs == sc[i as int],
                sc == scores_of(orig),
                forall|j: int| 0 <= j < i ==> 0 <= #[trigger] perm[j] < n && items@[j] == orig[perm[j]],
                forall|j: int| 0 <= j < p ==> rank_ge(#[trigger] sc[perm[j]], xs),
            decreases i - p,
        {
            proof {
                assert(items@[p as int] == orig[perm[p as int]]);
                lemma_order_facts(sc[perm[p as int]], xs, xs);
            }
            p = p + 1;
        }
        proof {
            if p < i {
                assert(items@[p as int] == orig[perm[p as int]]);
                assert(rank_gt(xs, sc[perm[p as int]])) by {
                    lemma_order_facts(xs, sc[perm[p as int]], xs);
                }
            }
        }
        let ghost old_perm = perm;
        items.insert(p, x);
        proof {
            perm = old_perm.remove(i as int).insert(p as int, i as int);
            assert forall|j1: int, j2: int| 0 <= j1 < j2 < i + 1 implies ranks_before(sc, #[trigger] perm[j1], #[trigger] perm[j2]) by {
                let a = perm[j1];
                let b = perm[j2];
                if j2 < p {
                    assert(a == old_perm[j1] && b == old_perm[j2]);
                } else if j2 == p {
                    assert(a == old_perm[j1] && b == i);
                    assert(rank_ge(sc[a], xs));
                    assert(a < i);
                    lemma_order_facts(sc[a], xs, xs);
                } else if j1 < p {
                    assert(a == old_perm[j1] && b == old_perm[j2 - 1]);
                } else if j1 == p {
                    assert(a == i && b == old_perm[j2 - 1]);
                    let q = j2 - 1;
                    if q > p {
                        assert(ranks_before(sc, old_perm[p as int], old_perm[q]));
                        lemma_order_facts(xs, sc[old_perm[p as int]], sc[old_perm[q]]);
                    }
                    lemma_order_facts(xs, sc[old_perm[p as int]], sc[b]);
                } else {
                    assert(a == old_perm[j1 - 1] && b == old_perm[j2 - 1]);
                }
            }
            assert forall|j: int| 0 <= j < n implies 0 <= #[trigger] perm[j] < n && items@[j] == orig[perm[j]] by {
                if j < p {
                } else if j == p {
                } else if j <= i {
                    assert(perm[j] == old_perm[j - 1]);
                } else {
                }
            }
            assert forall|j1: int, j2: int| 0 <= j1 < j2 < n implies #[trigger] perm[j1] != #[trigger] perm[j2] by {
                let o1 = if j1 < p { j1 } else if j1 == p { i as int } else if j1 <= i { j1 - 1 } else { j1 };
                let o2 = if j2 < p { j2 } else if j2 == p { i as int } else if j2 <= i { j2 - 1 } else { j2 };
                assert(perm[j1] == old_perm[o1]);
                assert(perm[j2] == old_perm[o2]);
                assert(o1 != o2);
                if o1 < o2 {
                    assert(old_perm[o1] != old_perm[o2]);
                } else {
                    assert(old_perm[o2] != old_perm[o1]);
                }
            }
        }
        i = i + 1;
    }
    let ghost full = items@;
    items.truncate(k);
    proof {
        let idx = perm.take(items@.len() as int);
        assert forall|x: int, j: int| 0 <= x < n && !idx.contains(x) && 0 <= j < idx.len()
            implies #[trigger] ranks_before(sc, idx[j], x) by {
            let pos = choose|q: int| 0 <= q < n && perm[q] == x;
            assert(exists|q: int| 0 <= q < n && perm[q] == x) by {
                lemma_permutation_onto(perm, n, x);
            }
            if pos < idx.len() {
                assert(idx[pos] == x);
            }
            assert(perm[j] == idx[j]);
        }
        assert(ranked_prefix(orig, sc, items@, idx));
    }
}

/// Puts search results in rank order (best score first, ties in their
/// present order, `NaN` scores last) and keeps the first `k`.
pub fn sort_and_truncate(results: &mut Vec<Hit>, k: usize)
    ensures
        final(results)@.len() == (if k < old(results)@.len() { k as int } else { old(results)@.len() as int }),
        exists|idx: Seq<int>| ranked_prefix(old(results)@, scores_of(old(results)@), final(results)@, idx),
{
    rank_by_score(results, k);
}

/// Whether a hit's metadata passes every condition of `filter`.
pub open spec fn passes(filter: Filter, h: Hit) -> bool {
    all_hold(filter.conditions(), h.metadata)
}

/// The hits that pass `filter`, in their order.
pub fn keep_matching(hits: Vec<Hit>, filter: &Filter) -> (out: Vec<Hit>)
    ensures
        out@ == hits@.filter(|h: Hit| passes(*filter, h)),
        forall|j: int| 0 <= j < out@.len() ==> hits@.contains(#[trigger] out@[j]),
{
    let ghost orig = hits@;
    let ghost pred = |h: Hit| passes(*filter, h);
    let total = hits.len();
    let mut rest = hits;
    let mut out: Vec<Hit> = Vec::new();
    let mut i: usize = 0;
    while rest.len() > 0
        invariant
            i <= orig.len(),
            orig.len() == total,
            rest@ == orig.skip(i as int),
            out@ == orig.take(i as int).filter(pred),
            pred == (|h: Hit| passes(*filter, h)),
            forall|j: int| 0 <= j < out@.len() ==> orig.contains(#[trigger] out@[j]),
        decreases rest@.len(),
    {
        assert(i < orig.len());
        assert(rest@[0] == orig[i as int]);
        let h = rest.remove(0);
        proof {
            assert(orig.take(i + 1) =~= orig.take(i as int).push(h));
            orig.take(i as int).lemma_filter_push(h, pred);
            assert(orig.skip(i + 1) =~= orig.skip(i as int).drop_first());
        }
        if filter.matches(&h.metadata) {
            out.push(h);
        }
        i = i + 1;
    }
    proof {
        assert(orig.take(i as int) =~= orig);
    }
    out
}

/// The hits scoring at least `min_score`, in their order (a range search);
/// a hit that is not a number, or a `NaN` bound, keeps nothing.
pub fn keep_at_least(hits: Vec<Hit>, min_score: u64) -> (out: Vec<Hit>)
    ensures
        out@ == hits@.filter(|h: Hit| score_ge(h.score, min_score)),
{
    let ghost orig = hits@;
    let ghost pred = |h: Hit| score_ge(h.score, min_score);
    let total = hits.len();
    let mut rest = hits;
    let mut out: Vec<Hit> = Vec::new();
    let mut i: usize = 0;
    while rest.len() > 0
        invariant
            i <= orig.len(),
            orig.len() == total,
            rest@ == orig.skip(i as int),
            out@ == orig.take(i as int).filter(pred),
            pred == (|h: Hit| score_ge(h.score, min_score)),
        decreases rest@.len(),
    {
        assert(i < orig.len());
        assert(rest@[0] == orig[i as int]);
        let h = rest.remove(0);
        proof {
            assert(orig.take(i + 1) =~= orig.take(i as int).push(h));
            orig.take(i as int).lemma_filter_push(h, pred);
            assert(orig.skip(i + 1) =~= orig.skip(i as int).drop_first());
        }
        let keep = match f64_compare(h.score, min_score) {
            Some(Order3::Greater) => true,
            Some(Order3::Equal) => true,
            _ => false,
        };
        if keep {
            out.push(h);
        }
        i = i + 1;
    }
    proof {
        assert(orig.take(i as int) =~= orig);
    }
    out
}

/// The bound of a range search is inclusive and ordered as doubles are: a
/// score reaches itself, reaching is transitive, of two numbers one reaches
/// the other, and a `NaN` neither reaches nor is reached.
pub proof fn law_range_bound(a: u64, b: u64, c: u64)
    ensures
        is_number(a) ==> score_ge(a, a),
        score_ge(a, b) && score_ge(b, c) ==> score_ge(a, c),
        is_number(a) && is_number(b) ==> score_ge(a, b) || score_ge(b, a),
        !is_number(a) || !is_number(b) ==> !score_ge(a, b),
        score_ge(a, b) && score_ge(b, a) ==> score_eq(a, b),
{
    crate::numeric::law_order_transitive(a, b, c);
    crate::numeric::law_order_antisymmetric(a, b);
    crate::numeric::law_order_antisymmetric(b, c);
    crate::numeric::law_order_antisymmetric(a, c);
}

/// The last step of a search: with a filter, the hits that pass it, ranked
/// and cut to `k`; without one, the hits as the index ordered them.
pub fn narrow_hits(hits: Vec<Hit>, filter: Option<&Filter>, k: usize) -> (out: Vec<Hit>)
    ensures
        filter is None ==> out@ == hits@,
        filter matches Some(f) ==> {
            let kept = hits@.filter(|h: Hit| passes(*f, h));
            &&& out@.len() == (if k < kept.len() { k as int } else { kept.len() as int })
            &&& exists|idx: Seq<int>| ranked_prefix(kept, scores_of(kept), out@, idx)
        },
{
    match filter {
        Some(f) => {
            let mut kept = keep_matching(hits, f);
            sort_and_truncate(&mut kept, k);
            kept
        },
        None => hits,
    }
}

/// Ranked results come out best first: along a ranked list no score ranks
/// above the one before it, and every item left out ranks at most as high as
/// every item kept; a `NaN` score ranks below every number.
pub proof fn law_ranked_best_first<T: Scored>(items: Seq<T>, out: Seq<T>, idx: Seq<int>)
    requires
        ranked_prefix(items, scores_of(items), out, idx),
    ensures
        forall|j1: int, j2: int| 0 <= j1 < j2 < out.len()
            ==> rank_ge(#[trigger] out[j1].score_of(), #[trigger] out[j2].score_of()),
        forall|i: int, j: int| 0 <= i < items.len() && !idx.contains(i) && 0 <= j < out.len()
            ==> rank_ge(#[trigger] out[j].score_of(), #[trigger] items[i].score_of()),
        forall|j: int| 0 <= j < out.len() && !is_number(#[trigger] out[j].score_of())
            ==> forall|i: int| 0 <= i < items.len() && !idx.contains(i) ==> !is_number(#[trigger] items[i].score_of()),
{
    let sc = scores_of(items);
    assert forall|j1: int, j2: int| 0 <= j1 < j2 < out.len()
        implies rank_ge(#[trigger] out[j1].score_of(), #[trigger] out[j2].score_of()) by {
        assert(ranks_before(sc, idx[j1], idx[j2]));
        assert(out[j1] == items[idx[j1]] && out[j2] == items[idx[j2]]);
    }
    assert forall|i: int, j: int| 0 <= i < items.len() && !idx.contains(i) && 0 <= j < out.len()
        implies rank_ge(#[trigger] out[j].score_of(), #[trigger] items[i].score_of()) by {
        assert(ranks_before(sc, idx[j], i));
        assert(out[j] == items[idx[j]]);
    }
}

/// A sequence of `n` distinct values in `0..n` takes every value of `0..n`.
pub(crate) proof fn lemma_permutation_onto(perm: Seq<int>, n: int, x: int)
    requires
        perm.len() == n,
        0 <= x < n,
        forall|j: int| 0 <= j < n ==> 0 <= #[trigger] perm[j] < n,
        forall|j1: int, j2: int| 0 <= j1 < j2 < n ==> #[trigger] perm[j1] != #[trigger] perm[j2],
    ensures
        exists|q: int| 0 <= q < n && perm[q] == x,
{
    assert(perm.no_duplicates()) by {
        assert forall|a: int, b: int| 0 <= a < perm.len() && 0 <= b < perm.len() && a != b implies perm[a] != perm[b] by {
            if a < b {
            } else {
            }
        }
    }
    perm.unique_seq_to_set();
    let s = perm.to_set();
    let r = vstd::set_lib::set_int_range(0, n);
    vstd::set_lib::lemma_int_range(0, n);
    assert forall|v: int| s.contains(v) implies r.contains(v) by {
        let q = choose|q: int| 0 <= q < perm.len() && perm[q] == v;
    }
    if !s.contains(x) {
        assert(s.subset_of(r.remove(x)));
        vstd::set_lib::lemma_len_subset(s, r.remove(x));
        assert(false);
    }
    let q = choose|q: int| 0 <= q < perm.len() && perm[q] == x;
    assert(0 <= q < n && perm[q] == x);
}

} // verus!
