use piramid::{metadata, Filter, MetadataValue};

#[test]
fn test_eq_filter() {
    let meta = metadata([("category", "tech".into())]);

    let filter = Filter::new().eq("category", "tech");
    assert!(filter.matches(&meta));

    let filter = Filter::new().eq("category", "sports");
    assert!(!filter.matches(&meta));
}

#[test]
fn test_numeric_comparisons() {
    let meta = metadata([("score", 75i64.into())]);

    assert!(Filter::new().gt("score", 50i64).matches(&meta));
    assert!(!Filter::new().gt("score", 80i64).matches(&meta));

    assert!(Filter::new().gte("score", 75i64).matches(&meta));
    assert!(Filter::new().lte("score", 75i64).matches(&meta));

    assert!(Filter::new().lt("score", 100i64).matches(&meta));
}

#[test]
fn test_in_filter() {
    let meta = metadata([("status", "active".into())]);

    let filter = Filter::new().is_in("status", vec!["active".into(), "pending".into()]);
    assert!(filter.matches(&meta));

    let filter = Filter::new().is_in("status", vec!["closed".into()]);
    assert!(!filter.matches(&meta));
}

#[test]
fn test_multiple_conditions() {
    let meta = metadata([("category", "tech".into()), ("score", 85i64.into())]);

    let filter = Filter::new().eq("category", "tech").gt("score", 80i64);
    assert!(filter.matches(&meta));

    let filter = Filter::new().eq("category", "tech").gt("score", 90i64);
    assert!(!filter.matches(&meta));
}

#[test]
fn filter_matches_eq_and_in() {
    let meta = metadata([("category", "tech".into()), ("status", MetadataValue::String("active".into()))]);

    assert!(Filter::new().eq("category", "tech").matches(&meta));
    assert!(!Filter::new().eq("category", "sports").matches(&meta));

    let list = vec!["active".into(), "pending".into()];
    assert!(Filter::new().is_in("status", list).matches(&meta));
}

#[test]
fn filter_numeric_comparisons_work() {
    let meta = metadata([("score", 75i64.into())]);
    assert!(Filter::new().gt("score", 50i64).matches(&meta));
    assert!(Filter::new().lte("score", 75i64).matches(&meta));
    assert!(!Filter::new().gt("score", 80i64).matches(&meta));
}

#[test]
fn empty_filter_passes_everything() {
    let meta = metadata([("a", 1i64.into())]);
    assert!(Filter::new().matches(&meta));
    assert!(Filter::new().is_empty());
    assert!(Filter::default().is_empty());
    assert!(!Filter::new().eq("a", 1i64).is_empty());
}

#[test]
fn ne_and_missing_fields() {
    let meta = metadata([("a", 1i64.into())]);
    assert!(Filter::new().ne("a", 2i64).matches(&meta));
    assert!(!Filter::new().ne("a", 1i64).matches(&meta));
    // A missing field differs from every value but compares with nothing.
    assert!(Filter::new().ne("missing", 1i64).matches(&meta));
    assert!(!Filter::new().eq("missing", 1i64).matches(&meta));
    assert!(!Filter::new().gt("missing", 0i64).matches(&meta));
    assert!(!Filter::new().lte("missing", 0i64).matches(&meta));
}

#[test]
fn integers_and_doubles_compare_as_doubles() {
    let meta = metadata([("x", MetadataValue::Float(2.5f64.to_bits())), ("n", 3i64.into())]);
    assert!(Filter::new().gt("x", 2i64).matches(&meta));
    assert!(Filter::new().lt("x", 3i64).matches(&meta));
    assert!(Filter::new().gte("n", MetadataValue::Float(3.0f64.to_bits())).matches(&meta));
    assert!(!Filter::new().gt("n", MetadataValue::Float(3.0f64.to_bits())).matches(&meta));
    // Equality keeps the variant: an integer never equals a double.
    assert!(!Filter::new().eq("n", MetadataValue::Float(3.0f64.to_bits())).matches(&meta));
    // NaN is unordered.
    let nan = metadata([("x", MetadataValue::Float(f64::NAN.to_bits()))]);
    assert!(!Filter::new().gt("x", 0i64).matches(&nan));
    assert!(!Filter::new().lte("x", 0i64).matches(&nan));
    assert!(!Filter::new().eq("x", MetadataValue::Float(f64::NAN.to_bits())).matches(&nan));
    // Text is not numeric.
    let t = metadata([("x", "5".into())]);
    assert!(!Filter::new().gt("x", 1i64).matches(&t));
}

#[test]
fn zeros_of_either_sign_are_equal() {
    let meta = metadata([("z", MetadataValue::Float((-0.0f64).to_bits()))]);
    assert!(Filter::new().eq("z", MetadataValue::Float(0.0f64.to_bits())).matches(&meta));
    assert!(Filter::new().gte("z", 0i64).matches(&meta));
}

#[test]
fn in_with_single_value_is_eq() {
    let meta = metadata([("k", "v".into())]);
    assert_eq!(
        Filter::new().is_in("k", vec!["v".into()]).matches(&meta),
        Filter::new().eq("k", "v").matches(&meta)
    );
    assert!(!Filter::new().is_in("k", vec![]).matches(&meta));
}

#[test]
fn a_filter_is_the_conjunction_of_its_conditions_in_any_order() {
    let metas = [
        metadata([("lang", "rust".into()), ("stars", 120i64.into())]),
        metadata([("lang", "rust".into()), ("stars", 5i64.into())]),
        metadata([("lang", "go".into()), ("stars", 500i64.into())]),
        metadata([("stars", 200i64.into())]),
    ];
    for m in &metas {
        let both = Filter::new().eq("lang", "rust").gte("stars", 100i64).matches(m);
        let swapped = Filter::new().gte("stars", 100i64).eq("lang", "rust").matches(m);
        let each = Filter::new().eq("lang", "rust").matches(m) && Filter::new().gte("stars", 100i64).matches(m);
        assert_eq!(both, each);
        assert_eq!(swapped, each);
    }
    assert!(Filter::new().eq("lang", "rust").gte("stars", 100i64).matches(&metas[0]));
    assert!(!Filter::new().gte("stars", 100i64).eq("lang", "rust").matches(&metas[2]));
    // Adding a condition never lets more through.
    assert!(Filter::new().ne("lang", "go").matches(&metas[3]));
    assert!(!Filter::new().ne("lang", "go").lt("stars", 100i64).matches(&metas[3]));
}

#[test]
fn ne_filter_is_the_negation_of_eq() {
    let metas = [
        metadata([("category", "tech".into())]),
        metadata([("category", "sports".into())]),
        metadata([("other", "tech".into())]),
        metadata([("category", MetadataValue::Integer(3))]),
    ];
    for m in &metas {
        let eq = Filter::new().eq("category", "tech").matches(m);
        let ne = Filter::new().ne("category", "tech").matches(m);
        assert_eq!(ne, !eq);
        let eq = Filter::new().eq("category", MetadataValue::Integer(3)).matches(m);
        let ne = Filter::new().ne("category", MetadataValue::Integer(3)).matches(m);
        assert_eq!(ne, !eq);
    }
    // A map without the field passes every `ne`.
    assert!(Filter::new().ne("category", "tech").matches(&metas[2]));
}
