//! Near-duplicate detection: which stored vectors to compare, and which
//! compared pairs to report.
//!
//! Each stored vector asks the index for its nearest neighbours; every
//! unordered pair met this way is scored once, and the pairs whose score
//! reaches the threshold are reported best first. Ids are the 128-bit
//! values of the uuids read big-endian, so their order is the uuids' order.
use vstd::prelude::*;
use crate::search::ranking::{
    DuplicateHit, Scored, rank_by_score, score_ge, rank_ge, scores_of, ranked_prefix, ranks_before,
    law_ranked_best_first, lemma_permutation_onto,
};

verus! {

/// The number of neighbours to ask for each vector: the explicit override,
/// else twice the result limit (saturating) but at least 10, else 49; then
/// at most one less than the number of vectors, and at least 1.
pub open spec fn neighbor_count_spec(k_override: Option<usize>, limit: Option<usize>, n_ids: usize) -> usize {
    let chosen: int = match k_override {
        Some(k) => k as int,
        None => match limit {
            Some(l) => {
                let twice: int = if 2 * l > usize::MAX { usize::MAX as int } else { 2 * l };
                if twice >= 10 { twice } else { 10 }
            },
            None => 49,
        },
    };
    let cap: int = if n_ids >= 1 { n_ids - 1 } else { 0 };
    let capped: int = if chosen <= cap { chosen } else { cap };
    (if capped >= 1 { capped } else { 1 }) as usize
}

/// The number of neighbours to ask of the index for each vector.
pub fn neighbor_count(k_override: Option<usize>, limit: Option<usize>, n_ids: usize) -> (k: usize)
    ensures
        k == neighbor_count_spec(k_override, limit, n_ids),
        1 <= k,
{
    let chosen = match k_override {
        Some(k) => k,
        None => match limit {
            Some(l) => {
                let twice = match l.checked_mul(2) {
                    Some(t) => t,
                    None => usize::MAX,
                };
                if twice >= 10 { twice } else { 10 }
            },
            None => 49,
        },
    };
    let cap = n_ids.saturating_sub(1);
    let capped = if chosen <= cap { chosen } else { cap };
    if capped >= 1 { capped } else { 1 }
}

/// The pair `(a, b)` with the smaller id first.
pub open spec fn ordered_pair(a: u128, b: u128) -> (u128, u128) {
    if a < b { (a, b) } else { (b, a) }
}

/// The pairs to score, given the `(vector, neighbour)` candidates in the
/// order they were found: each candidate that is not the vector itself, as
/// an ordered pair, the first time that pair is met.
pub open spec fn fresh_pairs_spec(c: Seq<(u128, u128)>) -> Seq<(u128, u128)>
    decreases c.len(),
{
    if c.len() == 0 {
        Seq::empty()
    } else {
        let prev = fresh_pairs_spec(c.drop_last());
        let (id, nb) = c.last();
        if id == nb || prev.contains(ordered_pair(id, nb)) {
            prev
        } else {
            prev.push(ordered_pair(id, nb))
        }
    }
}

/// Each pair is scored once and with its smaller id first: the pairs to
/// score hold no pair twice, and in each the first id is below the second.
pub proof fn law_fresh_pairs_distinct(c: Seq<(u128, u128)>)
    ensures
        fresh_pairs_spec(c).no_duplicates(),
        forall|j: int| 0 <= j < fresh_pairs_spec(c).len() ==> (#[trigger] fresh_pairs_spec(c)[j]).0 < fresh_pairs_spec(c)[j].1,
    decreases c.len(),
{
    if c.len() > 0 {
        law_fresh_pairs_distinct(c.drop_last());
        let prev = fresh_pairs_spec(c.drop_last());
        let (id, nb) = c.last();
        if !(id == nb || prev.contains(ordered_pair(id, nb))) {
            let now = prev.push(ordered_pair(id, nb));
            assert forall|a: int, b: int| 0 <= a < now.len() && 0 <= b < now.len() && a != b implies now[a] != now[b] by {
                if a < prev.len() && b < prev.len() {
                    assert(now[a] == prev[a] && now[b] == prev[b]);
                } else if a < prev.len() {
                    assert(now[a] == prev[a]);
                } else if b < prev.len() {
                    assert(now[b] == prev[b]);
                }
            }
            assert forall|j: int| 0 <= j < now.len() implies (#[trigger] now[j]).0 < now[j].1 by {
                if j < prev.len() {
                    assert(now[j] == prev[j]);
                }
            }
        }
    }
}

/// Whether `pairs` holds `(a, b)`.
fn holds_pair(pairs: &Vec<(u128, u128)>, a: u128, b: u128) -> (r: bool)
    ensures
        r == pairs@.contains((a, b)),
{
    let mut j: usize = 0;
    while j < pairs.len()
        invariant
            j <= pairs@.len(),
            forall|t: int| 0 <= t < j ==> #[trigger] pairs@[t] != (a, b),
        decreases pairs@.len() - j,
    {
        if pairs[j].0 == a && pairs[j].1 == b {
            assert(pairs@[j as int] == (a, b));
            return true;
        }
        j = j + 1;
    }
    false
}

/// The pairs to score, from the `(vector, neighbour)` candidates in the
/// order they were found.
pub fn fresh_pairs(candidates: &Vec<(u128, u128)>) -> (pairs: Vec<(u128, u128)>)
    ensures
        pairs@ == fresh_pairs_spec(candidates@),
{
    let mut out: Vec<(u128, u128)> = Vec::new();
    let mut i: usize = 0;
    while i < candidates.len()
        invariant
            i <= candidates@.len(),
            out@ == fresh_pairs_spec(candidates@.take(i as int)),
        decreases candidates@.len() - i,
    {
        let (id, nb) = candidates[i];
        proof {
            assert(candidates@.take(i + 1).drop_last() =~= candidates@.take(i as int));
            assert(candidates@.take(i + 1).last() == (id, nb));
        }
        if id != nb {
            let (a, b) = if id < nb { (id, nb) } else { (nb, id) };
            if !holds_pair(&out, a, b) {
                out.push((a, b));
            }
        }
        i = i + 1;
    }
    proof {
        assert(candidates@.take(i as int) =~= candidates@);
    }
    out
}

/// Whether a scored pair reaches `threshold`.
pub open spec fn reaches(threshold: u64, d: DuplicateHit) -> bool {
    score_ge(d.score, threshold)
}

/// The pairs to report: those whose score reaches `threshold`, best first
/// (ties in the order they were scored), at most `limit` of them when a
/// limit is given.
pub fn select_duplicates(scored: Vec<DuplicateHit>, threshold: u64, limit: Option<usize>) -> (out: Vec<DuplicateHit>)
    ensures
        ({
            let kept = scored@.filter(|d: DuplicateHit| reaches(threshold, d));
            &&& out@.len() == (match limit {
                Some(l) => if l < kept.len() { l as int } else { kept.len() as int },
                None => kept.len() as int,
            })
            &&& exists|idx: Seq<int>| ranked_prefix(kept, scores_of(kept), out@, idx)
        }),
{
    let ghost orig = scored@;
    let ghost pred = |d: DuplicateHit| reaches(threshold, d);
    let total = scored.len();
    let mut rest = scored;
    let mut kept: Vec<DuplicateHit> = Vec::new();
    let mut i: usize = 0;
    while rest.len() > 0
        invariant
            i <= orig.len(),
            orig.len() == total,
            rest@ == orig.skip(i as int),
            kept@ == orig.take(i as int).filter(pred),
            pred == (|d: DuplicateHit| reaches(threshold, d)),
        decreases rest@.len(),
    {
        assert(i < orig.len());
        assert(rest@[0] == orig[i as int]);
        let d = rest.remove(0);
        proof {
            assert(orig.take(i + 1) =~= orig.take(i as int).push(d));
            orig.take(i as int).lemma_filter_push(d, pred);
            assert(orig.skip(i + 1) =~= orig.skip(i as int).drop_first());
        }
        if reaches_threshold(d.score(), threshold) {
            kept.push(d);
        }
        i = i + 1;
    }
    proof {
        assert(orig.take(i as int) =~= orig);
    }
    let k = match limit {
        Some(l) => l,
        None => kept.len(),
    };
    rank_by_score(&mut kept, k);
    kept
}

/// Whether `score` is at least `threshold`.
fn reaches_threshold(score: u64, threshold: u64) -> (r: bool)
    ensures
        r == score_ge(score, threshold),
{
    match crate::numeric::f64_compare(score, threshold) {
        Some(crate::numeric::Order3::Greater) => true,
        Some(crate::numeric::Order3::Equal) => true,
        _ => false,
    }
}

/// The scored pairs: each pair to score, in order, with its score, leaving
/// out a pair that has none (one of its vectors is gone).
pub open spec fn scored_pairs(pairs: Seq<(u128, u128)>, scores: Seq<Option<u64>>) -> Seq<DuplicateHit>
    decreases pairs.len(),
{
    if pairs.len() == 0 {
        Seq::empty()
    } else {
        let prev = scored_pairs(pairs.drop_last(), scores);
        match scores[pairs.len() - 1] {
            Some(s) => prev.push(DuplicateHit { id_a: pairs.last().0, id_b: pairs.last().1, score: s }),
            None => prev,
        }
    }
}

/// The pair of ids of a scored pair.
pub open spec fn hit_key(d: DuplicateHit) -> (u128, u128) {
    (d.id_a, d.id_b)
}

/// `out` is the report made from `scored`: the pairs that reach
/// `threshold`, best first (ties in the order they were scored), at most
/// `limit` of them when a limit is given.
pub open spec fn duplicate_report(scored: Seq<DuplicateHit>, threshold: u64, limit: Option<usize>, out: Seq<DuplicateHit>) -> bool {
    let kept = scored.filter(|d: DuplicateHit| reaches(threshold, d));
    &&& out.len() == (match limit {
        Some(l) => if l < kept.len() { l as int } else { kept.len() as int },
        None => kept.len() as int,
    })
    &&& exists|idx: Seq<int>| ranked_prefix(kept, scores_of(kept), out, idx)
}

/// The duplicate report from the pairs to score and their scores, in the
/// same order (`None` where a pair could not be scored).
pub fn report_duplicates(pairs: &Vec<(u128, u128)>, scores: &Vec<Option<u64>>, threshold: u64, limit: Option<usize>) -> (out: Vec<DuplicateHit>)
    requires
        pairs@.len() == scores@.len(),
    ensures
        duplicate_report(scored_pairs(pairs@, scores@), threshold, limit, out@),
{
    let mut scored: Vec<DuplicateHit> = Vec::new();
    let mut i: usize = 0;
    while i < pairs.len()
        invariant
            i <= pairs@.len(),
            pairs@.len() == scores@.len(),
            scored@ == scored_pairs(pairs@.take(i as int), scores@),
        decreases pairs@.len() - i,
    {
        proof {
            assert(pairs@.take(i + 1).drop_last() =~= pairs@.take(i as int));
            assert(pairs@.take(i + 1).last() == pairs@[i as int]);
        }
        let (a, b) = pairs[i];
        match scores[i] {
            Some(s) => {
                scored.push(DuplicateHit { id_a: a, id_b: b, score: s });
            },
            None => {},
        }
        i = i + 1;
    }
    proof {
        assert(pairs@.take(i as int) =~= pairs@);
    }
    select_duplicates(scored, threshold, limit)
}

/// Where each scored pair comes from, and that distinct pairs to score give
/// scored pairs with distinct ids.
proof fn lemma_scored_pairs(pairs: Seq<(u128, u128)>, scores: Seq<Option<u64>>)
    requires
        pairs.len() <= scores.len(),
    ensures
        forall|k: int| 0 <= k < scored_pairs(pairs, scores).len() ==> exists|i: int|
            0 <= i < pairs.len() && pairs[i] == hit_key(#[trigger] scored_pairs(pairs, scores)[k])
                && scores[i] == Some(scored_pairs(pairs, scores)[k].score),
        forall|i: int| 0 <= i < pairs.len() && #[trigger] scores[i] is Some ==> scored_pairs(pairs, scores).contains(
            DuplicateHit { id_a: pairs[i].0, id_b: pairs[i].1, score: scores[i]->0 }),
        pairs.no_duplicates() ==> forall|k1: int, k2: int| 0 <= k1 < k2 < scored_pairs(pairs, scores).len()
            ==> hit_key(#[trigger] scored_pairs(pairs, scores)[k1]) != hit_key(#[trigger] scored_pairs(pairs, scores)[k2]),
    decreases pairs.len(),
{
    if pairs.len() > 0 {
        let init = pairs.drop_last();
        lemma_scored_pairs(init, scores);
        let prev = scored_pairs(init, scores);
        let now = scored_pairs(pairs, scores);
        let n = pairs.len() - 1;
        assert forall|k: int| 0 <= k < now.len() implies exists|i: int|
            0 <= i < pairs.len() && pairs[i] == hit_key(#[trigger] now[k]) && scores[i] == Some(now[k].score) by {
            if k < prev.len() {
                assert(now[k] == prev[k]);
                let i = choose|i: int| 0 <= i < init.len() && init[i] == hit_key(prev[k]) && scores[i] == Some(prev[k].score);
                assert(pairs[i] == init[i]);
            } else {
                assert(pairs[n] == hit_key(now[k]));
            }
        }
        assert forall|i: int| 0 <= i < pairs.len() && #[trigger] scores[i] is Some implies now.contains(
            DuplicateHit { id_a: pairs[i].0, id_b: pairs[i].1, score: scores[i]->0 }) by {
            let d = DuplicateHit { id_a: pairs[i].0, id_b: pairs[i].1, score: scores[i]->0 };
            if i < n {
                assert(init[i] == pairs[i]);
                assert(prev.contains(d));
                let k = choose|k: int| 0 <= k < prev.len() && prev[k] == d;
                assert(now[k] == d);
            } else {
                assert(now[now.len() - 1] == d);
            }
        }
        if pairs.no_duplicates() {
            assert(init.no_duplicates());
            assert forall|k1: int, k2: int| 0 <= k1 < k2 < now.len()
                implies hit_key(#[trigger] now[k1]) != hit_key(#[trigger] now[k2]) by {
                assert(now[k1] == prev[k1]);
                if k2 < prev.len() {
                    assert(now[k2] == prev[k2]);
                } else {
                    let i = choose|i: int| 0 <= i < init.len() && init[i] == hit_key(prev[k1]) && scores[i] == Some(prev[k1].score);
                    assert(pairs[i] == init[i]);
                    assert(hit_key(now[k2]) == pairs[n]);
                }
            }
        }
    }
}

/// Filtering keeps a sequence free of repeats.
proof fn lemma_filter_no_duplicates<A>(s: Seq<A>, pred: spec_fn(A) -> bool)
    requires
        s.no_duplicates(),
    ensures
        s.filter(pred).no_duplicates(),
    decreases s.len(),
{
    reveal(Seq::filter);
    if s.len() > 0 {
        let init = s.drop_last();
        assert(init.no_duplicates());
        lemma_filter_no_duplicates(init, pred);
        let sub = init.filter(pred);
        if pred(s.last()) {
            if sub.contains(s.last()) {
                init.lemma_filter_contains_rev(pred, s.last());
                let k = choose|k: int| 0 <= k < init.len() && init[k] == s.last();
                assert(s[k] == s[s.len() - 1]);
            }
            let now = sub.push(s.last());
            assert forall|a: int, b: int| 0 <= a < now.len() && 0 <= b < now.len() && a != b implies now[a] != now[b] by {
                if a < sub.len() && b < sub.len() {
                } else if a < sub.len() {
                    assert(sub.contains(now[a]));
                } else {
                    assert(sub.contains(now[b]));
                }
            }
        }
    }
}

/// The duplicate report, end to end. From the `(vector, neighbour)`
/// candidates, the pairs to score are chosen once each; with their scores,
/// the report holds each pair at most once and with its smaller id first,
/// only pairs that were scored and reach the threshold, with the score they
/// got, best first, at most `limit` of them; and with no limit, every
/// scored pair that reaches the threshold.
pub proof fn law_duplicate_report(
    c: Seq<(u128, u128)>,
    scores: Seq<Option<u64>>,
    threshold: u64,
    limit: Option<usize>,
    out: Seq<DuplicateHit>,
)
    requires
        scores.len() == fresh_pairs_spec(c).len(),
        duplicate_report(scored_pairs(fresh_pairs_spec(c), scores), threshold, limit, out),
    ensures
        forall|j: int| 0 <= j < out.len() ==> (#[trigger] out[j]).id_a < out[j].id_b,
        forall|j1: int, j2: int| 0 <= j1 < j2 < out.len() ==> hit_key(#[trigger] out[j1]) != hit_key(#[trigger] out[j2]),
        forall|j: int| 0 <= j < out.len() ==> reaches(threshold, #[trigger] out[j]),
        forall|j: int| 0 <= j < out.len() ==> exists|i: int| 0 <= i < scores.len()
            && fresh_pairs_spec(c)[i] == hit_key(#[trigger] out[j]) && scores[i] == Some(out[j].score),
        forall|j1: int, j2: int| 0 <= j1 < j2 < out.len() ==> rank_ge((#[trigger] out[j1]).score, (#[trigger] out[j2]).score),
        limit matches Some(l) ==> out.len() <= l,
        limit is None ==> forall|i: int| 0 <= i < scores.len() && (#[trigger] scores[i] matches Some(s) && score_ge(s, threshold))
            ==> out.contains(DuplicateHit { id_a: fresh_pairs_spec(c)[i].0, id_b: fresh_pairs_spec(c)[i].1, score: scores[i]->0 }),
{
    let pairs = fresh_pairs_spec(c);
    let scored = scored_pairs(pairs, scores);
    let pred = |d: DuplicateHit| reaches(threshold, d);
    let kept = scored.filter(pred);
    law_fresh_pairs_distinct(c);
    lemma_scored_pairs(pairs, scores);
    let idx = choose|idx: Seq<int>| ranked_prefix(kept, scores_of(kept), out, idx);
    law_ranked_best_first(kept, out, idx);
    assert(scored.no_duplicates()) by {
        assert forall|a: int, b: int| 0 <= a < scored.len() && 0 <= b < scored.len() && a != b implies scored[a] != scored[b] by {
            if a < b {
                assert(hit_key(scored[a]) != hit_key(scored[b]));
            } else {
                assert(hit_key(scored[b]) != hit_key(scored[a]));
            }
        }
    }
    lemma_filter_no_duplicates(scored, pred);
    assert forall|j: int| 0 <= j < out.len() implies
        reaches(threshold, #[trigger] out[j]) && exists|i: int| 0 <= i < scores.len()
            && pairs[i] == hit_key(out[j]) && scores[i] == Some(out[j].score) by {
        let m = idx[j];
        assert(out[j] == kept[m]);
        scored.lemma_filter_pred(pred, m);
        assert(kept.contains(kept[m]));
        scored.lemma_filter_contains_rev(pred, kept[m]);
        let k = choose|k: int| 0 <= k < scored.len() && scored[k] == kept[m];
        assert(exists|i: int| 0 <= i < pairs.len() && pairs[i] == hit_key(scored[k]) && scores[i] == Some(scored[k].score));
    }
    assert forall|j: int| 0 <= j < out.len() implies (#[trigger] out[j]).id_a < out[j].id_b by {
        let i = choose|i: int| 0 <= i < scores.len() && pairs[i] == hit_key(out[j]) && scores[i] == Some(out[j].score);
        assert(pairs[i].0 < pairs[i].1);
    }
    assert forall|j1: int, j2: int| 0 <= j1 < j2 < out.len() implies hit_key(#[trigger] out[j1]) != hit_key(#[trigger] out[j2]) by {
        let m1 = idx[j1];
        let m2 = idx[j2];
        assert(ranks_before(scores_of(kept), m1, m2));
        assert(m1 != m2);
        assert(kept[m1] != kept[m2]);
        assert(kept.contains(kept[m1]) && kept.contains(kept[m2]));
        scored.lemma_filter_contains_rev(pred, kept[m1]);
        scored.lemma_filter_contains_rev(pred, kept[m2]);
        let k1 = choose|k: int| 0 <= k < scored.len() && scored[k] == kept[m1];
        let k2 = choose|k: int| 0 <= k < scored.len() && scored[k] == kept[m2];
        assert(k1 != k2);
        if k1 < k2 {
            assert(hit_key(scored[k1]) != hit_key(scored[k2]));
        } else {
            assert(hit_key(scored[k2]) != hit_key(scored[k1]));
        }
    }
    assert forall|j1: int, j2: int| 0 <= j1 < j2 < out.len() implies rank_ge((#[trigger] out[j1]).score, (#[trigger] out[j2]).score) by {
        assert(rank_ge(out[j1].score_of(), out[j2].score_of()));
    }
    if limit is None {
        assert forall|i: int| 0 <= i < scores.len() && (#[trigger] scores[i] matches Some(s) && score_ge(s, threshold))
            implies out.contains(DuplicateHit { id_a: pairs[i].0, id_b: pairs[i].1, score: scores[i]->0 }) by {
            let d = DuplicateHit { id_a: pairs[i].0, id_b: pairs[i].1, score: scores[i]->0 };
            assert(scored.contains(d));
            let k = choose|k: int| 0 <= k < scored.len() && scored[k] == d;
            assert(pred(scored[k]));
            scored.lemma_filter_contains(pred, k);
            let m = choose|m: int| 0 <= m < kept.len() && kept[m] == d;
            assert forall|q1: int, q2: int| 0 <= q1 < q2 < idx.len() implies #[trigger] idx[q1] != #[trigger] idx[q2] by {
                assert(ranks_before(scores_of(kept), idx[q1], idx[q2]));
            }
            lemma_permutation_onto(idx, kept.len() as int, m);
            let q = choose|q: int| 0 <= q < kept.len() && idx[q] == m;
            assert(out[q] == d);
        }
    }
}

} // verus!
