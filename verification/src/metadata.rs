//! Metadata attached to stored vectors: a map from field names to values.
use vstd::prelude::*;
use crate::numeric::{Num, Order3, f64_num, num_order, i64_num, f64_compare, i64_to_f64_bits};

verus! {

/// A metadata value.
#[derive(Debug)]
pub enum MetadataValue {
    String(String),
    Integer(i64),
    /// A double, held by its IEEE-754 bit pattern (`f64::to_bits`).
    Float(u64),
    Boolean(bool),
    Null,
    Array(Vec<MetadataValue>),
}

/// Equality of metadata values as `==` decides it: same variant and equal
/// contents, doubles compared as doubles (so `NaN` equals nothing and the two
/// zeros are equal), arrays element by element.
pub open spec fn value_eq(a: MetadataValue, b: MetadataValue) -> bool
    decreases a,
{
    match (a, b) {
        (MetadataValue::String(x), MetadataValue::String(y)) => x@ == y@,
        (MetadataValue::Integer(x), MetadataValue::Integer(y)) => x == y,
        (MetadataValue::Float(x), MetadataValue::Float(y)) => num_order(f64_num(x), f64_num(y))
            == Some(Order3::Equal),
        (MetadataValue::Boolean(x), MetadataValue::Boolean(y)) => x == y,
        (MetadataValue::Null, MetadataValue::Null) => true,
        (MetadataValue::Array(xs), MetadataValue::Array(ys)) => {
            &&& xs@.len() == ys@.len()
            &&& forall|j: int| 0 <= j < xs@.len() ==> value_eq(#[trigger] xs@[j], ys@[j])
        },
        _ => false,
    }
}

/// The value of a numeric metadata value as a double: integers are rounded
/// to the nearest double; other values have none.
pub open spec fn numeric_value(v: MetadataValue) -> Option<Num> {
    match v {
        MetadataValue::Integer(i) => Some(i64_num(i)),
        MetadataValue::Float(b) => Some(f64_num(b)),
        _ => None,
    }
}

impl MetadataValue {
    /// A text value holding a copy of `s`.
    pub fn text(s: &str) -> (v: MetadataValue)
        ensures
            v matches MetadataValue::String(x) && x@ == s@,
    {
        MetadataValue::String(s.to_owned())
    }

    /// The double that a numeric value stands for, as a bit pattern.
    pub fn as_f64_bits(&self) -> (r: Option<u64>)
        ensures
            r is None <==> numeric_value(*self) is None,
            r matches Some(b) ==> Some(f64_num(b)) == numeric_value(*self),
    {
        match self {
            MetadataValue::Integer(i) => Some(i64_to_f64_bits(*i)),
            MetadataValue::Float(b) => Some(*b),
            _ => None,
        }
    }

    /// The text of a text value.
    pub fn as_string(&self) -> (r: Option<&str>)
        ensures
            r is Some <==> *self is String,
            r matches Some(s) ==> *self matches MetadataValue::String(x) && s@ == x@,
    {
        match self {
            MetadataValue::String(s) => Some(s.as_str()),
            _ => None,
        }
    }

    /// The integer of an integer value.
    pub fn as_integer(&self) -> (r: Option<i64>)
        ensures
            r is Some <==> *self is Integer,
            r matches Some(i) ==> *self == MetadataValue::Integer(i),
    {
        match self {
            MetadataValue::Integer(i) => Some(*i),
            _ => None,
        }
    }

    /// The bit pattern of a double value.
    pub fn as_float(&self) -> (r: Option<u64>)
        ensures
            r is Some <==> *self is Float,
            r matches Some(b) ==> *self == MetadataValue::Float(b),
    {
        match self {
            MetadataValue::Float(b) => Some(*b),
            _ => None,
        }
    }

    /// The flag of a boolean value.
    pub fn as_boolean(&self) -> (r: Option<bool>)
        ensures
            r is Some <==> *self is Boolean,
            r matches Some(b) ==> *self == MetadataValue::Boolean(b),
    {
        match self {
            MetadataValue::Boolean(b) => Some(*b),
            _ => None,
        }
    }
}

/// Equality of metadata values is symmetric.
pub proof fn lemma_value_eq_symmetric(a: MetadataValue, b: MetadataValue)
    ensures
        value_eq(a, b) == value_eq(b, a),
    decreases a,
{
    match (a, b) {
        (MetadataValue::Array(xs), MetadataValue::Array(ys)) => {
            if xs@.len() == ys@.len() {
                assert forall|j: int| 0 <= j < xs@.len() implies value_eq(#[trigger] xs@[j], ys@[j]) == value_eq(ys@[j], xs@[j]) by {
                    assert(decreases_to!(a => a->Array_0));
                    assert(decreases_to!(a->Array_0 => a->Array_0@));
                    assert(decreases_to!(a->Array_0@ => a->Array_0@[j]));
                    lemma_value_eq_symmetric(xs@[j], ys@[j]);
                }
            }
        },
        _ => {},
    }
}

/// Equality of metadata values as `==` decides it, kind by kind: two flags
/// are equal exactly when they are the same flag, two integers exactly when
/// they are the same integer, two texts exactly when they hold the same
/// characters, two nulls always; values of different kinds never (an
/// integer is not equal to a double, nor a flag to a text).
pub proof fn law_value_equality_by_kind(x: bool, y: bool, i: i64, j: i64, s: String, t: String, a: MetadataValue, b: MetadataValue)
    ensures
        value_eq(MetadataValue::Boolean(x), MetadataValue::Boolean(y)) == (x == y),
        value_eq(MetadataValue::Integer(i), MetadataValue::Integer(j)) == (i == j),
        value_eq(MetadataValue::String(s), MetadataValue::String(t)) == (s@ == t@),
        value_eq(MetadataValue::Null, MetadataValue::Null),
        (a is Boolean && !(b is Boolean)) ==> !value_eq(a, b),
        (a is Integer && !(b is Integer)) ==> !value_eq(a, b),
        (a is String && !(b is String)) ==> !value_eq(a, b),
        (a is Float && !(b is Float)) ==> !value_eq(a, b),
        (a is Null && !(b is Null)) ==> !value_eq(a, b),
        (a is Array && !(b is Array)) ==> !value_eq(a, b),
{
}

/// Equality of metadata values is transitive.
pub proof fn lemma_value_eq_transitive(a: MetadataValue, b: MetadataValue, c: MetadataValue)
    requires
        value_eq(a, b),
        value_eq(b, c),
    ensures
        value_eq(a, c),
    decreases a,
{
    match (a, b, c) {
        (MetadataValue::Array(xs), MetadataValue::Array(ys), MetadataValue::Array(zs)) => {
            assert forall|j: int| 0 <= j < xs@.len() implies value_eq(#[trigger] xs@[j], zs@[j]) by {
                assert(value_eq(xs@[j], ys@[j]));
                assert(value_eq(ys@[j], zs@[j]));
                assert(decreases_to!(a => a->Array_0));
                assert(decreases_to!(a->Array_0 => a->Array_0@));
                assert(decreases_to!(a->Array_0@ => a->Array_0@[j]));
                lemma_value_eq_transitive(xs@[j], ys@[j], zs@[j]);
            }
        },
        _ => {},
    }
}

/// Compares two metadata values with `==`.
pub fn values_equal(a: &MetadataValue, b: &MetadataValue) -> (r: bool)
    ensures
        r == value_eq(*a, *b),
    decreases a,
{
    match a {
        MetadataValue::String(x) => match b {
            MetadataValue::String(y) => *x == *y,
            _ => false,
        },
        MetadataValue::Integer(x) => match b {
            MetadataValue::Integer(y) => *x == *y,
            _ => false,
        },
        MetadataValue::Float(x) => match b {
            MetadataValue::Float(y) => match f64_compare(*x, *y) {
                Some(Order3::Equal) => true,
                _ => false,
            },
            _ => false,
        },
        MetadataValue::Boolean(x) => match b {
            MetadataValue::Boolean(y) => *x == *y,
            _ => false,
        },
        MetadataValue::Null => match b {
            MetadataValue::Null => true,
            _ => false,
        },
        MetadataValue::Array(xs) => match b {
            MetadataValue::Array(ys) => {
                if xs.len() != ys.len() {
                    return false;
                }
                let mut j: usize = 0;
                while j < xs.len()
                    invariant
                        j <= xs@.len(),
                        xs@.len() == ys@.len(),
                        *a == MetadataValue::Array(*xs),
                        *b == MetadataValue::Array(*ys),
                        forall|k: int| 0 <= k < j ==> value_eq(#[trigger] xs@[k], ys@[k]),
                    decreases xs@.len() - j,
                {
                    assert(decreases_to!(*a => (*a)->Array_0));
                    assert(decreases_to!((*a)->Array_0 => (*a)->Array_0@));
                    assert(decreases_to!((*a)->Array_0@ => (*a)->Array_0@[j as int]));
                    if !values_equal(&xs[j], &ys[j]) {
                        return false;
                    }
                    j = j + 1;
                }
                true
            },
            _ => false,
        },
    }
}

/// The value that the last entry named `key` holds, if any.
pub open spec fn lookup(entries: Seq<(String, MetadataValue)>, key: Seq<char>) -> Option<MetadataValue>
    decreases entries.len(),
{
    if entries.len() == 0 {
        None
    } else if entries.last().0@ == key {
        Some(entries.last().1)
    } else {
        lookup(entries.drop_last(), key)
    }
}

proof fn lemma_lookup_push(s: Seq<(String, MetadataValue)>, e: (String, MetadataValue), key: Seq<char>)
    ensures
        lookup(s.push(e), key) == (if e.0@ == key { Some(e.1) } else { lookup(s, key) }),
{
    assert(s.push(e).drop_last() =~= s);
}

proof fn lemma_lookup_update_last(s: Seq<(String, MetadataValue)>, j: int, e: (String, MetadataValue), key: Seq<char>)
    requires
        0 <= j < s.len(),
        s[j].0@ == e.0@,
        forall|k: int| j < k < s.len() ==> (#[trigger] s[k]).0@ != e.0@,
    ensures
        lookup(s.update(j, e), key) == (if e.0@ == key { Some(e.1) } else { lookup(s, key) }),
    decreases s.len(),
{
    if j == s.len() - 1 {
        assert(s.update(j, e).drop_last() =~= s.drop_last());
    } else {
        lemma_lookup_update_last(s.drop_last(), j, e, key);
        assert(s.update(j, e).drop_last() =~= s.drop_last().update(j, e));
        assert(s.update(j, e).last() == s.last());
    }
}

/// Metadata of one vector: named fields with values. A field named twice
/// reads as its last value; `insert` never names one twice.
#[derive(Debug)]
pub struct Metadata {
    entries: Vec<(String, MetadataValue)>,
}

impl Metadata {
    /// The value of field `key`, if the metadata has it.
    pub closed spec fn field(&self, key: Seq<char>) -> Option<MetadataValue> {
        lookup(self.entries@, key)
    }

    /// The fields in the order they were first set.
    pub closed spec fn entries_spec(&self) -> Seq<(String, MetadataValue)> {
        self.entries@
    }

    /// Metadata with no field.
    pub fn new() -> (m: Metadata)
        ensures
            forall|k: Seq<char>| #[trigger] m.field(k) is None,
            m.entries_spec().len() == 0,
    {
        Metadata { entries: Vec::new() }
    }

    /// Number of fields.
    pub fn len(&self) -> (n: usize)
        ensures
            n == self.entries_spec().len(),
    {
        self.entries.len()
    }

    /// The fields, in the order they were first set.
    pub fn entries(&self) -> (e: &Vec<(String, MetadataValue)>)
        ensures
            e@ == self.entries_spec(),
    {
        &self.entries
    }

    /// Sets field `key` to `value`, replacing any earlier value.
    pub fn insert(&mut self, key: String, value: MetadataValue)
        ensures
            forall|k: Seq<char>| #[trigger] final(self).field(k) == (if k == key@ {
                Some(value)
            } else {
                old(self).field(k)
            }),
    {
        let ghost key_view = key@;
        let mut i = self.entries.len();
        while i > 0
            invariant
                i <= self.entries@.len(),
                self.entries@ == old(self).entries@,
                forall|k: int| i <= k < self.entries@.len() ==> (#[trigger] self.entries@[k]).0@ != key_view,
                key@ == key_view,
            decreases i,
        {
            if self.entries[i - 1].0 == key {
                let ghost s = self.entries@;
                let ghost e = (key, value);
                self.entries.set(i - 1, (key, value));
                proof {
                    assert forall|k: Seq<char>| #[trigger] self.field(k) == (if k == key_view {
                        Some(e.1)
                    } else {
                        lookup(s, k)
                    }) by {
                        lemma_lookup_update_last(s, i - 1, e, k);
                    }
                }
                return;
            }
            i = i - 1;
        }
        let ghost s = self.entries@;
        let ghost e = (key, value);
        self.entries.push((key, value));
        proof {
            assert forall|k: Seq<char>| #[trigger] self.field(k) == (if k == key_view {
                Some(e.1)
            } else {
                lookup(s, k)
            }) by {
                lemma_lookup_push(s, e, k);
            }
        }
    }

    /// The value of field `key`, if the metadata has it.
    pub fn get(&self, key: &str) -> (r: Option<&MetadataValue>)
        ensures
            r matches Some(v) ==> self.field(key@) == Some(*v),
            r is None ==> self.field(key@) is None,
    {
        let k = key.to_owned();
        let mut i = self.entries.len();
        assert(self.entries@.subrange(0, i as int) =~= self.entries@);
        while i > 0
            invariant
                i <= self.entries@.len(),
                k@ == key@,
                lookup(self.entries@.subrange(0, i as int), key@) == lookup(self.entries@, key@),
            decreases i,
        {
            let ghost pre = self.entries@.subrange(0, i as int);
            assert(pre.drop_last() =~= self.entries@.subrange(0, i - 1));
            if self.entries[i - 1].0 == k {
                return Some(&self.entries[i - 1].1);
            }
            i = i - 1;
        }
        None
    }
}


impl From<i64> for MetadataValue {
    fn from(v: i64) -> (r: MetadataValue) {
        MetadataValue::Integer(v)
    }
}

impl vstd::std_specs::convert::FromSpecImpl<i64> for MetadataValue {
    open spec fn obeys_from_spec() -> bool {
        true
    }

    open spec fn from_spec(v: i64) -> MetadataValue {
        MetadataValue::Integer(v)
    }
}

impl From<bool> for MetadataValue {
    fn from(v: bool) -> (r: MetadataValue) {
        MetadataValue::Boolean(v)
    }
}

impl vstd::std_specs::convert::FromSpecImpl<bool> for MetadataValue {
    open spec fn obeys_from_spec() -> bool {
        true
    }

    open spec fn from_spec(v: bool) -> MetadataValue {
        MetadataValue::Boolean(v)
    }
}

impl From<String> for MetadataValue {
    fn from(v: String) -> (r: MetadataValue) {
        MetadataValue::String(v)
    }
}

/// std's `impl<T> From<T> for T`: its `from` returns the argument unchanged,
/// as std documents it.
pub assume_specification<Val>[ <Val as core::convert::From<Val>>::from ](v: Val) -> (r: Val)
    ensures
        r == v,
;

impl vstd::std_specs::convert::FromSpecImpl<String> for MetadataValue {
    open spec fn obeys_from_spec() -> bool {
        true
    }

    open spec fn from_spec(v: String) -> MetadataValue {
        MetadataValue::String(v)
    }
}

impl<'a> From<&'a str> for MetadataValue {
    fn from(v: &'a str) -> (r: MetadataValue)
        ensures
            r matches MetadataValue::String(x) && x@ == v@,
    {
        MetadataValue::text(v)
    }
}

/// A text value made from a `&str` holds a fresh copy of it, and no spec
/// expression names that copy, so no `from_spec` is claimed here; `from`
/// itself, called on a `&str`, and `MetadataValue::text` state what the
/// value holds.
impl<'a> vstd::std_specs::convert::FromSpecImpl<&'a str> for MetadataValue {
    open spec fn obeys_from_spec() -> bool {
        false
    }

    open spec fn from_spec(v: &'a str) -> MetadataValue {
        MetadataValue::Null
    }
}


/// The value that the last pair naming `key` gives it, if any.
pub open spec fn pairs_field(pairs: Seq<(&str, MetadataValue)>, key: Seq<char>) -> Option<MetadataValue>
    decreases pairs.len(),
{
    if pairs.len() == 0 {
        None
    } else if pairs.last().0@ == key {
        Some(pairs.last().1)
    } else {
        pairs_field(pairs.drop_last(), key)
    }
}

/// Moves the items of an array into a vector, in order, with std's
/// `Vec::from([T; N])`.
#[verifier::external_body]
fn array_into_vec<T, const N: usize>(a: [T; N]) -> (v: Vec<T>)
    ensures
        v@ == a@,
{
    Vec::from(a)
}

/// Metadata holding the given fields; a field named twice keeps its last
/// value.
pub fn metadata<const N: usize>(pairs: [(&str, MetadataValue); N]) -> (m: Metadata)
    ensures
        forall|k: Seq<char>| #[trigger] m.field(k) == pairs_field(pairs@, k),
{
    let mut rest = array_into_vec(pairs);
    let ghost all = rest@;
    let mut m = Metadata::new();
    let ghost mut done: int = 0;
    while rest.len() > 0
        invariant
            0 <= done <= all.len(),
            rest@ == all.subrange(done, all.len() as int),
            forall|k: Seq<char>| #[trigger] m.field(k) == pairs_field(all.subrange(0, done), k),
        decreases rest@.len(),
    {
        let (key, value) = rest.remove(0);
        proof {
            assert(all[done] == (key, value));
        }
        let ghost pre = m;
        m.insert(key.to_owned(), value);
        proof {
            assert(all.subrange(0, done + 1).drop_last() =~= all.subrange(0, done));
            done = done + 1;
            assert(rest@ =~= all.subrange(done, all.len() as int));
        }
    }
    proof {
        assert(all.subrange(0, done) =~= pairs@);
    }
    m
}

} // verus!
