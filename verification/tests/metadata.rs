use piramid::{metadata, MetadataValue, Metadata};

#[test]
fn metadata_helper_builds_map() {
    let meta = metadata([
        ("name", "test".into()),
        ("count", 42i64.into()),
        ("score", MetadataValue::Float(3.14f64.to_bits())),
        ("active", true.into()),
    ]);

    assert_eq!(meta.get("name").unwrap().as_string(), Some("test"));
    assert_eq!(meta.get("count").unwrap().as_integer(), Some(42));
    assert!((f64::from_bits(meta.get("score").unwrap().as_float().unwrap()) - 3.14).abs() < 1e-6);
    assert_eq!(meta.get("active").unwrap().as_boolean(), Some(true));
}

#[test]
fn metadata_value_from_impls() {
    let _: MetadataValue = "hello".into();
    let _: MetadataValue = String::from("world").into();
    let _: MetadataValue = 42i64.into();
    let _: MetadataValue = MetadataValue::Float(3.14f64.to_bits());
    let _: MetadataValue = true.into();
}

#[test]
fn later_insert_of_a_key_wins() {
    let mut m = Metadata::new();
    m.insert("k".to_string(), 1i64.into());
    m.insert("k".to_string(), 2i64.into());
    assert_eq!(m.get("k").unwrap().as_integer(), Some(2));
    assert!(m.get("missing").is_none());
    let built = metadata([("k", 1i64.into()), ("k", 3i64.into())]);
    assert_eq!(built.get("k").unwrap().as_integer(), Some(3));
}

#[test]
fn accessors_answer_only_their_variant() {
    let v: MetadataValue = 7i64.into();
    assert_eq!(v.as_string(), None);
    assert_eq!(v.as_boolean(), None);
    assert_eq!(v.as_float(), None);
    assert_eq!(v.as_f64_bits(), Some(7.0f64.to_bits()));
    assert_eq!(MetadataValue::Null.as_f64_bits(), None);
}

#[test]
fn integer_to_double_rounds_half_to_even() {
    let big: MetadataValue = ((1i64 << 53) + 1).into();
    assert_eq!(big.as_f64_bits(), Some(((1i64 << 53) + 1) as f64).map(f64::to_bits));
    let v: MetadataValue = i64::MIN.into();
    assert_eq!(v.as_f64_bits(), Some((i64::MIN as f64).to_bits()));
    let w: MetadataValue = i64::MAX.into();
    assert_eq!(w.as_f64_bits(), Some((i64::MAX as f64).to_bits()));
    let x: MetadataValue = (-3i64).into();
    assert_eq!(x.as_f64_bits(), Some((-3.0f64).to_bits()));
}
