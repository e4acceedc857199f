use piramid::numeric::{f64_compare, i64_to_f64_bits, Order3};
use piramid::search::params::{apply_search_overrides, parse_metric, search_k, SearchConfig};
use piramid::{Filter, Metric, SearchParams};

#[test]
fn metric_names() {
    assert_eq!(parse_metric(Some("euclidean".to_string())), Metric::Euclidean);
    assert_eq!(parse_metric(Some("dot".to_string())), Metric::DotProduct);
    assert_eq!(parse_metric(Some("dot_product".to_string())), Metric::DotProduct);
    assert_eq!(parse_metric(Some("Euclidean".to_string())), Metric::Cosine);
    assert_eq!(parse_metric(Some("cosine".to_string())), Metric::Cosine);
    assert_eq!(parse_metric(None), Metric::Cosine);
}

#[test]
fn presets_then_explicit_values() {
    let base = SearchConfig::default();
    assert_eq!(base, SearchConfig { ef: None, nprobe: None, filter_overfetch: 10 });
    let fast = apply_search_overrides(base, None, None, None, Some("FAST".to_string()));
    assert_eq!(fast, SearchConfig { ef: Some(50), nprobe: Some(1), filter_overfetch: 10 });
    let high = apply_search_overrides(base, None, Some(7), Some(0), Some("High".to_string()));
    assert_eq!(high, SearchConfig { ef: Some(400), nprobe: Some(7), filter_overfetch: 1 });
    let balanced = apply_search_overrides(base, Some(64), None, Some(3), Some("balanced".to_string()));
    assert_eq!(balanced, SearchConfig { ef: Some(64), nprobe: None, filter_overfetch: 3 });
}

#[test]
fn filtered_searches_over_fetch() {
    assert_eq!(search_k(10, false, 5, Some(3)), 10);
    assert_eq!(search_k(10, true, 5, None), 50);
    assert_eq!(search_k(10, true, 5, Some(3)), 30);
    assert_eq!(search_k(10, true, 0, None), 10);
    assert_eq!(search_k(10, true, 5, Some(0)), 10);
    assert_eq!(search_k(usize::MAX, true, 2, None), usize::MAX);
}

#[test]
fn doubles_compare_by_value() {
    let b = |x: f64| x.to_bits();
    assert_eq!(f64_compare(b(1.0), b(2.0)), Some(Order3::Less));
    assert_eq!(f64_compare(b(-1.0), b(-2.0)), Some(Order3::Greater));
    assert_eq!(f64_compare(b(0.0), b(-0.0)), Some(Order3::Equal));
    assert_eq!(f64_compare(b(f64::NEG_INFINITY), b(f64::MIN)), Some(Order3::Less));
    assert_eq!(f64_compare(b(f64::INFINITY), b(f64::INFINITY)), Some(Order3::Equal));
    assert_eq!(f64_compare(b(f64::NAN), b(1.0)), None);
    assert_eq!(f64_compare(b(5e-324), b(0.0)), Some(Order3::Greater));
    assert_eq!(f64_compare(b(0.0), b(5e-324)), Some(Order3::Less));
    assert_eq!(f64_compare(b(1.0), b(f64::NAN)), None);
    for i in [0i64, 1, -1, 42, 1 << 53, (1 << 53) + 1, (1 << 54) + 2, (1 << 54) + 6, i64::MAX, i64::MIN, -987654321987] {
        assert_eq!(i64_to_f64_bits(i), (i as f64).to_bits(), "{}", i);
    }
}

#[test]
fn search_params_choose_settings_and_candidates() {
    let collection = SearchConfig { ef: Some(64), nprobe: None, filter_overfetch: 4 };
    let p = SearchParams::default();
    assert!(p.filter.is_none());
    assert_eq!(p.effective_search(collection), collection);
    assert_eq!(p.candidates(10, collection), 10);

    let f = Filter::new().eq("lang", "rust");
    let p = SearchParams { filter: Some(&f), ..SearchParams::default() };
    assert_eq!(p.candidates(10, collection), 40);
    let p = SearchParams { filter: Some(&f), filter_overfetch_override: Some(0), search_config_override: None };
    assert_eq!(p.candidates(10, collection), 10);
    let other = SearchConfig { ef: None, nprobe: Some(8), filter_overfetch: 3 };
    let p = SearchParams { filter: Some(&f), filter_overfetch_override: None, search_config_override: Some(other) };
    assert_eq!(p.effective_search(collection), other);
    assert_eq!(p.candidates(10, collection), 30);
    assert_eq!(p.candidates(usize::MAX, collection), usize::MAX);
}
