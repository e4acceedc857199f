use piramid::search::ranking::{keep_at_least, keep_matching, narrow_hits, sort_and_truncate};
use piramid::storage::duplicates::{fresh_pairs, neighbor_count, report_duplicates, select_duplicates};
use piramid::{metadata, DuplicateHit, Filter, Hit, Metadata};

fn hit(id: u128, score: f32, text: &str) -> Hit {
    Hit { id, score: (score as f64).to_bits(), text: text.to_string(), vector: vec![], metadata: Metadata::new() }
}

#[test]
fn test_sort_and_truncate() {
    let mut results = vec![hit(1, 0.5, "low"), hit(2, 0.9, "high"), hit(3, 0.7, "mid")];

    sort_and_truncate(&mut results, 2);

    assert_eq!(results.len(), 2);
    assert_eq!(results[0].text, "high");
    assert_eq!(results[1].text, "mid");
}

#[test]
fn ties_keep_their_order_and_k_caps() {
    let mut results = vec![hit(1, 0.5, "a"), hit(2, 0.5, "b"), hit(3, 0.9, "c"), hit(4, -1.0, "d"), hit(5, 0.5, "e")];
    sort_and_truncate(&mut results, 10);
    let texts: Vec<&str> = results.iter().map(|h| h.text.as_str()).collect();
    assert_eq!(texts, vec!["c", "a", "b", "e", "d"]);

    let mut none = vec![hit(1, 0.1, "x")];
    sort_and_truncate(&mut none, 0);
    assert!(none.is_empty());

    let mut inf = vec![hit(1, 1.0, "one"), hit(2, f32::INFINITY, "inf"), hit(3, f32::NEG_INFINITY, "neg")];
    sort_and_truncate(&mut inf, 3);
    assert_eq!(inf[0].text, "inf");
    assert_eq!(inf[2].text, "neg");
}

#[test]
fn narrowing_filters_then_ranks() {
    let mut a = hit(1, 0.2, "a");
    a.metadata = metadata([("lang", "rust".into())]);
    let mut b = hit(2, 0.9, "b");
    b.metadata = metadata([("lang", "go".into())]);
    let mut c = hit(3, 0.8, "c");
    c.metadata = metadata([("lang", "rust".into())]);
    let f = Filter::new().eq("lang", "rust");
    let out = narrow_hits(vec![a, b, c], Some(&f), 5);
    let ids: Vec<u128> = out.iter().map(|h| h.id).collect();
    assert_eq!(ids, vec![3, 1]);

    // Without a filter the index's order stays.
    let out = narrow_hits(vec![hit(1, 0.1, "a"), hit(2, 0.9, "b")], None, 1);
    let ids: Vec<u128> = out.iter().map(|h| h.id).collect();
    assert_eq!(ids, vec![1, 2]);

    let kept = keep_matching(vec![hit(7, 0.0, "x")], &Filter::new().eq("lang", "rust"));
    assert!(kept.is_empty());
}

#[test]
fn neighbour_counts() {
    assert_eq!(neighbor_count(None, None, 100), 49);
    assert_eq!(neighbor_count(None, None, 10), 9);
    assert_eq!(neighbor_count(None, Some(3), 100), 10);
    assert_eq!(neighbor_count(None, Some(30), 100), 60);
    assert_eq!(neighbor_count(None, Some(usize::MAX), 100), 99);
    assert_eq!(neighbor_count(Some(5), Some(30), 100), 5);
    assert_eq!(neighbor_count(Some(0), None, 100), 1);
    assert_eq!(neighbor_count(None, None, 0), 1);
    assert_eq!(neighbor_count(None, None, 1), 1);
}

#[test]
fn pairs_are_ordered_and_seen_once() {
    let cands = vec![(5, 5), (5, 2), (2, 5), (2, 9), (9, 2), (9, 5)];
    assert_eq!(fresh_pairs(&cands), vec![(2, 5), (2, 9), (5, 9)]);
    assert!(fresh_pairs(&vec![]).is_empty());
}

#[test]
fn duplicates_reach_the_threshold_best_first() {
    let d = |a: u128, b: u128, s: f64| DuplicateHit { id_a: a, id_b: b, score: s.to_bits() };
    let scored = vec![d(1, 2, 0.91), d(1, 3, 0.5), d(2, 3, 0.99), d(3, 4, 0.95), d(4, 5, f64::NAN), d(5, 6, 0.95)];
    let out = select_duplicates(scored, 0.9f64.to_bits(), None);
    let pairs: Vec<(u128, u128)> = out.iter().map(|h| (h.id_a, h.id_b)).collect();
    assert_eq!(pairs, vec![(2, 3), (3, 4), (5, 6), (1, 2)]);

    let scored = vec![d(1, 2, 0.91), d(2, 3, 0.99)];
    let out = select_duplicates(scored, 0.9f64.to_bits(), Some(1));
    assert_eq!(out.len(), 1);
    assert_eq!(out[0].id_a, 2);

    let scored = vec![d(1, 2, 0.9)];
    assert_eq!(select_duplicates(scored, 0.9f64.to_bits(), Some(5)).len(), 1);
    let scored = vec![d(1, 2, 0.9)];
    assert!(select_duplicates(scored, f64::NAN.to_bits(), None).is_empty());
}

#[test]
fn range_search_keeps_scores_at_least_the_bound() {
    let hits = vec![hit(1, 0.2, "a"), hit(2, 0.5, "b"), hit(3, f32::NAN, "c"), hit(4, 0.7, "d")];
    let kept = keep_at_least(hits, 0.5f64.to_bits());
    let ids: Vec<u128> = kept.iter().map(|h| h.id).collect();
    assert_eq!(ids, vec![2, 4]);
    let kept = keep_at_least(vec![hit(1, 0.2, "a")], f64::NAN.to_bits());
    assert!(kept.is_empty());
}

#[test]
fn nan_scores_rank_last_and_level() {
    let mut results = vec![hit(1, f32::NAN, "nan1"), hit(2, 0.5, "half"), hit(3, f32::NAN, "nan2"), hit(4, 0.9, "high")];
    sort_and_truncate(&mut results, 10);
    let texts: Vec<&str> = results.iter().map(|h| h.text.as_str()).collect();
    assert_eq!(texts, vec!["high", "half", "nan1", "nan2"]);

    let mut results = vec![hit(1, f32::NAN, "nan"), hit(2, f32::NEG_INFINITY, "neg")];
    sort_and_truncate(&mut results, 1);
    assert_eq!(results[0].text, "neg");

    let mut a = hit(1, f32::NAN, "a");
    a.metadata = metadata([("lang", "rust".into())]);
    let mut b = hit(2, 0.1, "b");
    b.metadata = metadata([("lang", "rust".into())]);
    let out = narrow_hits(vec![a, b], Some(&Filter::new().eq("lang", "rust")), 5);
    let ids: Vec<u128> = out.iter().map(|h| h.id).collect();
    assert_eq!(ids, vec![2, 1]);
}

#[test]
fn duplicate_report_end_to_end() {
    // Candidates as the index found them: each vector with its neighbours.
    let cands = vec![(5, 2), (5, 5), (2, 5), (9, 2), (5, 9), (9, 5)];
    let pairs = fresh_pairs(&cands);
    assert_eq!(pairs, vec![(2, 5), (2, 9), (5, 9)]);
    // The pair (2, 9) could not be scored.
    let scores = vec![Some(0.95f64.to_bits()), None, Some(0.97f64.to_bits())];
    let out = report_duplicates(&pairs, &scores, 0.9f64.to_bits(), None);
    let got: Vec<(u128, u128, u64)> = out.iter().map(|h| (h.id_a, h.id_b, h.score)).collect();
    assert_eq!(got, vec![(5, 9, 0.97f64.to_bits()), (2, 5, 0.95f64.to_bits())]);

    let out = report_duplicates(&pairs, &scores, 0.96f64.to_bits(), None);
    assert_eq!(out.len(), 1);
    assert_eq!((out[0].id_a, out[0].id_b), (5, 9));

    let out = report_duplicates(&pairs, &scores, 0.9f64.to_bits(), Some(1));
    assert_eq!(out.len(), 1);
    assert_eq!((out[0].id_a, out[0].id_b), (5, 9));

    let out = report_duplicates(&pairs, &vec![None, None, None], 0.0f64.to_bits(), None);
    assert!(out.is_empty());
}
