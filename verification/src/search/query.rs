//! Filters that narrow search results by metadata. All conditions of a
//! filter must hold (AND).
use vstd::prelude::*;
use crate::metadata::{
    Metadata, MetadataValue, value_eq, numeric_value, values_equal, lemma_value_eq_symmetric, lemma_value_eq_transitive,
};
use crate::numeric::{Order3, num_order, f64_compare};

verus! {

/// One test on one metadata field.
#[derive(Debug)]
pub enum FilterCondition {
    /// The field exists and equals the value.
    Eq(String, MetadataValue),
    /// The field is missing or differs from the value.
    Ne(String, MetadataValue),
    /// The field is numeric and greater than the value.
    Gt(String, MetadataValue),
    /// The field is numeric and greater than or equal to the value.
    Gte(String, MetadataValue),
    /// The field is numeric and less than the value.
    Lt(String, MetadataValue),
    /// The field is numeric and less than or equal to the value.
    Lte(String, MetadataValue),
    /// The field exists and equals one of the values.
    In(String, Vec<MetadataValue>),
}

/// How a present field compares with an expected value when both are
/// numbers, both read as doubles; `None` when either is absent, not numeric,
/// or not a number.
pub open spec fn numeric_order_of(actual: Option<MetadataValue>, expected: MetadataValue) -> Option<Order3> {
    match actual {
        None => None,
        Some(a) => match (numeric_value(a), numeric_value(expected)) {
            (Some(x), Some(y)) => num_order(x, y),
            _ => None,
        },
    }
}

/// Whether condition `c` holds of metadata `m`.
pub open spec fn condition_holds(c: FilterCondition, m: Metadata) -> bool {
    match c {
        FilterCondition::Eq(f, e) => match m.field(f@) {
            Some(v) => value_eq(v, e),
            None => false,
        },
        FilterCondition::Ne(f, e) => match m.field(f@) {
            Some(v) => !value_eq(v, e),
            None => true,
        },
        FilterCondition::Gt(f, e) => numeric_order_of(m.field(f@), e) == Some(Order3::Greater),
        FilterCondition::Gte(f, e) => {
            ||| numeric_order_of(m.field(f@), e) == Some(Order3::Greater)
            ||| numeric_order_of(m.field(f@), e) == Some(Order3::Equal)
        },
        FilterCondition::Lt(f, e) => numeric_order_of(m.field(f@), e) == Some(Order3::Less),
        FilterCondition::Lte(f, e) => {
            ||| numeric_order_of(m.field(f@), e) == Some(Order3::Less)
            ||| numeric_order_of(m.field(f@), e) == Some(Order3::Equal)
        },
        FilterCondition::In(f, vs) => match m.field(f@) {
            Some(v) => exists|j: int| 0 <= j < vs@.len() && value_eq(#[trigger] vs@[j], v),
            None => false,
        },
    }
}

/// The comparison that a numeric condition asks for.
enum Comparison {
    Greater,
    GreaterOrEqual,
    Less,
    LessOrEqual,
}

/// Whether `actual` compares with `expected` as `op` asks, both read as
/// doubles; false when either is absent, not numeric, or not a number.
fn compare_values(actual: Option<&MetadataValue>, expected: &MetadataValue, op: Comparison) -> (r: bool)
    ensures
        r == (match (numeric_order_of(
            match actual {
                Some(a) => Some(*a),
                None => None,
            },
            *expected,
        ), op) {
            (Some(Order3::Greater), Comparison::Greater) => true,
            (Some(Order3::Greater), Comparison::GreaterOrEqual) => true,
            (Some(Order3::Equal), Comparison::GreaterOrEqual) => true,
            (Some(Order3::Less), Comparison::Less) => true,
            (Some(Order3::Less), Comparison::LessOrEqual) => true,
            (Some(Order3::Equal), Comparison::LessOrEqual) => true,
            _ => false,
        }),
{
    let actual = match actual {
        Some(a) => a,
        None => return false,
    };
    let a = match actual.as_f64_bits() {
        Some(b) => b,
        None => return false,
    };
    let e = match expected.as_f64_bits() {
        Some(b) => b,
        None => return false,
    };
    match (f64_compare(a, e), op) {
        (Some(Order3::Greater), Comparison::Greater) => true,
        (Some(Order3::Greater), Comparison::GreaterOrEqual) => true,
        (Some(Order3::Equal), Comparison::GreaterOrEqual) => true,
        (Some(Order3::Less), Comparison::Less) => true,
        (Some(Order3::Less), Comparison::LessOrEqual) => true,
        (Some(Order3::Equal), Comparison::LessOrEqual) => true,
        _ => false,
    }
}

/// Whether some value of `values` equals `v`.
fn contains_value(values: &Vec<MetadataValue>, v: &MetadataValue) -> (r: bool)
    ensures
        r == exists|j: int| 0 <= j < values@.len() && value_eq(#[trigger] values@[j], *v),
{
    let mut j: usize = 0;
    while j < values.len()
        invariant
            j <= values@.len(),
            forall|k: int| 0 <= k < j ==> !value_eq(#[trigger] values@[k], *v),
        decreases values@.len() - j,
    {
        if values_equal(&values[j], v) {
            assert(value_eq(values@[j as int], *v));
            return true;
        }
        j = j + 1;
    }
    false
}

impl FilterCondition {
    /// Whether this condition holds of `metadata`.
    pub fn matches(&self, metadata: &Metadata) -> (r: bool)
        ensures
            r == condition_holds(*self, *metadata),
    {
        match self {
            FilterCondition::Eq(field, expected) => match metadata.get(field.as_str()) {
                Some(v) => values_equal(v, expected),
                None => false,
            },
            FilterCondition::Ne(field, expected) => match metadata.get(field.as_str()) {
                Some(v) => !values_equal(v, expected),
                None => true,
            },
            FilterCondition::Gt(field, expected) => compare_values(
                metadata.get(field.as_str()),
                expected,
                Comparison::Greater,
            ),
            FilterCondition::Gte(field, expected) => compare_values(
                metadata.get(field.as_str()),
                expected,
                Comparison::GreaterOrEqual,
            ),
            FilterCondition::Lt(field, expected) => compare_values(
                metadata.get(field.as_str()),
                expected,
                Comparison::Less,
            ),
            FilterCondition::Lte(field, expected) => compare_values(
                metadata.get(field.as_str()),
                expected,
                Comparison::LessOrEqual,
            ),
            FilterCondition::In(field, values) => match metadata.get(field.as_str()) {
                Some(v) => contains_value(values, v),
                None => false,
            },
        }
    }
}

/// Chainable metadata filter; a hit passes when every condition holds.
#[derive(Debug)]
pub struct Filter {
    conditions: Vec<FilterCondition>,
}

/// Whether every condition in `cs` holds of `m`.
pub open spec fn all_hold(cs: Seq<FilterCondition>, m: Metadata) -> bool {
    forall|i: int| 0 <= i < cs.len() ==> condition_holds(#[trigger] cs[i], m)
}

/// A filter with no condition passes every metadata map.
pub proof fn law_empty_filter_passes_all(m: Metadata)
    ensures
        all_hold(Seq::<FilterCondition>::empty(), m),
{
}

/// Adding a condition narrows a filter: the longer filter passes exactly
/// the maps that pass the shorter one and meet the new condition.
pub proof fn law_added_condition_narrows(cs: Seq<FilterCondition>, c: FilterCondition, m: Metadata)
    ensures
        all_hold(cs.push(c), m) == (all_hold(cs, m) && condition_holds(c, m)),
{
    if all_hold(cs, m) && condition_holds(c, m) {
        assert forall|i: int| 0 <= i < cs.push(c).len() implies condition_holds(#[trigger] cs.push(c)[i], m) by {
            if i < cs.len() {
                assert(cs.push(c)[i] == cs[i]);
            }
        }
    }
    if all_hold(cs.push(c), m) {
        assert(condition_holds(cs.push(c)[cs.len() as int], m));
        assert forall|i: int| 0 <= i < cs.len() implies condition_holds(#[trigger] cs[i], m) by {
            assert(cs.push(c)[i] == cs[i]);
        }
    }
}

/// A filter is the conjunction of its conditions: it passes a map exactly
/// when each condition, taken as a filter of its own, passes it.
pub proof fn law_conditions_conjunction(cs: Seq<FilterCondition>, m: Metadata)
    ensures
        all_hold(cs, m) == (forall|i: int| 0 <= i < cs.len() ==> all_hold(#[trigger] seq![cs[i]], m)),
{
    assert forall|i: int| 0 <= i < cs.len() implies all_hold(#[trigger] seq![cs[i]], m) == condition_holds(cs[i], m) by {
        let one = seq![cs[i]];
        assert(one[0] == cs[i]);
        if condition_holds(cs[i], m) {
            assert forall|j: int| 0 <= j < one.len() implies condition_holds(#[trigger] one[j], m) by {
                assert(j == 0);
            }
        }
    }
}

/// Whether conditions `c` and `d` are the same test: the same kind, on the
/// same field, against values equal as `==` on metadata values decides (for
/// `is_in`, lists of the same length, equal item by item).
pub open spec fn same_condition(c: FilterCondition, d: FilterCondition) -> bool {
    ||| c == d
    ||| match (c, d) {
        (FilterCondition::Eq(f, e), FilterCondition::Eq(g, x)) => f@ == g@ && value_eq(e, x),
        (FilterCondition::Ne(f, e), FilterCondition::Ne(g, x)) => f@ == g@ && value_eq(e, x),
        (FilterCondition::Gt(f, e), FilterCondition::Gt(g, x)) => f@ == g@ && value_eq(e, x),
        (FilterCondition::Gte(f, e), FilterCondition::Gte(g, x)) => f@ == g@ && value_eq(e, x),
        (FilterCondition::Lt(f, e), FilterCondition::Lt(g, x)) => f@ == g@ && value_eq(e, x),
        (FilterCondition::Lte(f, e), FilterCondition::Lte(g, x)) => f@ == g@ && value_eq(e, x),
        (FilterCondition::In(f, vs), FilterCondition::In(g, ws)) => {
            &&& f@ == g@
            &&& vs@.len() == ws@.len()
            &&& forall|j: int| 0 <= j < vs@.len() ==> value_eq(#[trigger] vs@[j], ws@[j])
        },
        _ => false,
    }
}

proof fn lemma_value_eq_numeric(e: MetadataValue, x: MetadataValue)
    requires
        value_eq(e, x),
    ensures
        numeric_value(e) == numeric_value(x),
{
}

proof fn lemma_value_eq_swap(v: MetadataValue, e: MetadataValue, x: MetadataValue)
    requires
        value_eq(e, x),
    ensures
        value_eq(v, e) == value_eq(v, x),
{
    lemma_value_eq_symmetric(e, x);
    if value_eq(v, e) {
        lemma_value_eq_transitive(v, e, x);
    }
    if value_eq(v, x) {
        lemma_value_eq_transitive(v, x, e);
    }
}

/// The same test holds of the same maps.
proof fn lemma_same_condition_holds(c: FilterCondition, d: FilterCondition, m: Metadata)
    requires
        same_condition(c, d),
    ensures
        condition_holds(c, m) == condition_holds(d, m),
{
    if c != d {
        match (c, d) {
            (FilterCondition::Eq(f, e), FilterCondition::Eq(g, x)) => {
                if let Some(v) = m.field(f@) {
                    lemma_value_eq_swap(v, e, x);
                }
            },
            (FilterCondition::Ne(f, e), FilterCondition::Ne(g, x)) => {
                if let Some(v) = m.field(f@) {
                    lemma_value_eq_swap(v, e, x);
                }
            },
            (FilterCondition::Gt(f, e), FilterCondition::Gt(g, x)) => {
                lemma_value_eq_numeric(e, x);
            },
            (FilterCondition::Gte(f, e), FilterCondition::Gte(g, x)) => {
                lemma_value_eq_numeric(e, x);
            },
            (FilterCondition::Lt(f, e), FilterCondition::Lt(g, x)) => {
                lemma_value_eq_numeric(e, x);
            },
            (FilterCondition::Lte(f, e), FilterCondition::Lte(g, x)) => {
                lemma_value_eq_numeric(e, x);
            },
            (FilterCondition::In(f, vs), FilterCondition::In(g, ws)) => {
                if let Some(v) = m.field(f@) {
                    if condition_holds(c, m) {
                        let j = choose|j: int| 0 <= j < vs@.len() && value_eq(#[trigger] vs@[j], v);
                        lemma_value_eq_symmetric(vs@[j], ws@[j]);
                        lemma_value_eq_transitive(ws@[j], vs@[j], v);
                        assert(value_eq(ws@[j], v));
                    }
                    if condition_holds(d, m) {
                        let j = choose|j: int| 0 <= j < ws@.len() && value_eq(#[trigger] ws@[j], v);
                        lemma_value_eq_transitive(vs@[j], ws@[j], v);
                        assert(value_eq(vs@[j], v));
                    }
                }
            },
            _ => {},
        }
    }
}

/// A chain of builder calls is the conjunction of its links: a filter
/// passes a map exactly when, for each of its conditions, a filter made of
/// that one condition alone (the same test, as `same_condition` says; one
/// builder call on `Filter::new()` with the same arguments makes it)
/// passes it.
pub proof fn law_filter_is_conjunction_of_single_filters(f: Filter, singles: Seq<Filter>, m: Metadata)
    requires
        singles.len() == f.conditions().len(),
        forall|i: int| 0 <= i < singles.len() ==> (#[trigger] singles[i]).conditions().len() == 1
            && same_condition(singles[i].conditions()[0], f.conditions()[i]),
    ensures
        all_hold(f.conditions(), m) == (forall|i: int| 0 <= i < singles.len() ==> all_hold(#[trigger] singles[i].conditions(), m)),
{
    assert forall|i: int| 0 <= i < singles.len() implies all_hold(#[trigger] singles[i].conditions(), m) == condition_holds(f.conditions()[i], m) by {
        let one = singles[i].conditions();
        lemma_same_condition_holds(one[0], f.conditions()[i], m);
        if condition_holds(one[0], m) {
            assert forall|j: int| 0 <= j < one.len() implies condition_holds(#[trigger] one[j], m) by {
                assert(j == 0);
            }
        }
    }
    if all_hold(f.conditions(), m) {
        assert forall|i: int| 0 <= i < singles.len() implies all_hold(#[trigger] singles[i].conditions(), m) by {
            assert(condition_holds(f.conditions()[i], m));
        }
    }
    if forall|i: int| 0 <= i < singles.len() ==> all_hold(#[trigger] singles[i].conditions(), m) {
        assert forall|i: int| 0 <= i < f.conditions().len() implies condition_holds(#[trigger] f.conditions()[i], m) by {
            assert(all_hold(singles[i].conditions(), m));
        }
    }
}

/// The order in which conditions are added does not matter: two filters
/// made of the same tests (each test of one is also a test of the other,
/// as `same_condition` says) pass the same maps.
pub proof fn law_condition_order_irrelevant(cs: Seq<FilterCondition>, ds: Seq<FilterCondition>, m: Metadata)
    requires
        forall|i: int| 0 <= i < cs.len() ==> exists|j: int| 0 <= j < ds.len() && same_condition(#[trigger] cs[i], #[trigger] ds[j]),
        forall|i: int| 0 <= i < ds.len() ==> exists|j: int| 0 <= j < cs.len() && same_condition(#[trigger] ds[i], #[trigger] cs[j]),
    ensures
        all_hold(cs, m) == all_hold(ds, m),
{
    if all_hold(ds, m) {
        assert forall|i: int| 0 <= i < cs.len() implies condition_holds(#[trigger] cs[i], m) by {
            let k = choose|j: int| 0 <= j < ds.len() && same_condition(cs[i], ds[j]);
            lemma_same_condition_holds(cs[i], ds[k], m);
            assert(condition_holds(ds[k], m));
        }
    }
    if all_hold(cs, m) {
        assert forall|i: int| 0 <= i < ds.len() implies condition_holds(#[trigger] ds[i], m) by {
            let k = choose|j: int| 0 <= j < cs.len() && same_condition(ds[i], cs[j]);
            lemma_same_condition_holds(ds[i], cs[k], m);
            assert(condition_holds(cs[k], m));
        }
    }
}

/// `ne` rejects exactly what `eq` passes, filter against filter: a filter
/// whose one condition is `ne` on a field and a value passes a map exactly
/// when the filter whose one condition is `eq` on that field and an equal
/// value does not; in particular it passes every map without that field.
pub proof fn law_ne_filter_negates_eq(fe: Filter, fne: Filter, m: Metadata)
    requires
        fe.conditions().len() == 1,
        fne.conditions().len() == 1,
        fe.conditions()[0] matches FilterCondition::Eq(k1, v1)
            && fne.conditions()[0] matches FilterCondition::Ne(k2, v2)
            && k1@ == k2@ && (v1 == v2 || value_eq(v1, v2)),
    ensures
        all_hold(fne.conditions(), m) == !all_hold(fe.conditions(), m),
        fne.conditions()[0] matches FilterCondition::Ne(k, _) && m.field(k@) is None ==> all_hold(fne.conditions(), m),
{
    let ce = fe.conditions()[0];
    let cn = fne.conditions()[0];
    let (k1, v1) = match ce { FilterCondition::Eq(k, v) => (k, v), _ => arbitrary() };
    let (k2, v2) = match cn { FilterCondition::Ne(k, v) => (k, v), _ => arbitrary() };
    if let Some(v) = m.field(k1@) {
        if v1 != v2 {
            lemma_value_eq_swap(v, v1, v2);
        }
    }
    assert(all_hold(fe.conditions(), m) == condition_holds(ce, m)) by {
        if condition_holds(ce, m) {
            assert forall|j: int| 0 <= j < fe.conditions().len() implies condition_holds(#[trigger] fe.conditions()[j], m) by {
                assert(j == 0);
            }
        }
    }
    assert(all_hold(fne.conditions(), m) == condition_holds(cn, m)) by {
        if condition_holds(cn, m) {
            assert forall|j: int| 0 <= j < fne.conditions().len() implies condition_holds(#[trigger] fne.conditions()[j], m) by {
                assert(j == 0);
            }
        }
    }
}

/// `ne` passes exactly the maps that `eq` on the same field and value
/// rejects.
pub proof fn law_ne_negates_eq(field: String, value: MetadataValue, m: Metadata)
    ensures
        condition_holds(FilterCondition::Ne(field, value), m) == !condition_holds(FilterCondition::Eq(field, value), m),
{
}

/// On a boolean field, `eq` with a flag passes a map exactly when the
/// stored flag is that flag, and `ne` exactly when it is the other one; a
/// stored value that is not a flag never equals a flag.
pub proof fn law_flag_conditions(field: String, flag: bool, m: Metadata)
    ensures
        m.field(field@) matches Some(MetadataValue::Boolean(stored)) ==> {
            &&& condition_holds(FilterCondition::Eq(field, MetadataValue::Boolean(flag)), m) == (stored == flag)
            &&& condition_holds(FilterCondition::Ne(field, MetadataValue::Boolean(flag)), m) == (stored != flag)
        },
        m.field(field@) matches Some(v) && !(v is Boolean) ==> {
            &&& !condition_holds(FilterCondition::Eq(field, MetadataValue::Boolean(flag)), m)
            &&& condition_holds(FilterCondition::Ne(field, MetadataValue::Boolean(flag)), m)
        },
{
    if let Some(v) = m.field(field@) {
        let stored = match v {
            MetadataValue::Boolean(b) => b,
            _ => flag,
        };
        crate::metadata::law_value_equality_by_kind(stored, flag, 0, 0, field, field, v, MetadataValue::Boolean(flag));
    }
}

/// When the field and the value are comparable numbers, exactly one of
/// `gt` and `lte` holds, and exactly one of `lt` and `gte`; when they are
/// not, none of the four holds.
pub proof fn law_numeric_conditions_split(field: String, value: MetadataValue, m: Metadata)
    ensures
        numeric_order_of(m.field(field@), value) is Some ==> {
            &&& condition_holds(FilterCondition::Gt(field, value), m) != condition_holds(FilterCondition::Lte(field, value), m)
            &&& condition_holds(FilterCondition::Lt(field, value), m) != condition_holds(FilterCondition::Gte(field, value), m)
        },
        numeric_order_of(m.field(field@), value) is None ==> {
            &&& !condition_holds(FilterCondition::Gt(field, value), m)
            &&& !condition_holds(FilterCondition::Gte(field, value), m)
            &&& !condition_holds(FilterCondition::Lt(field, value), m)
            &&& !condition_holds(FilterCondition::Lte(field, value), m)
        },
{
}

/// `is_in` with a single value passes exactly the maps that `eq` with that
/// value passes.
pub proof fn law_in_single_is_eq(field: String, values: Vec<MetadataValue>, m: Metadata)
    requires
        values@.len() == 1,
    ensures
        condition_holds(FilterCondition::In(field, values), m) == condition_holds(FilterCondition::Eq(field, values@[0]), m),
{
    match m.field(field@) {
        Some(v) => {
            lemma_value_eq_symmetric(values@[0], v);
            assert(condition_holds(FilterCondition::Eq(field, values@[0]), m) == value_eq(v, values@[0]));
            if value_eq(values@[0], v) {
                assert(exists|j: int| 0 <= j < values@.len() && value_eq(#[trigger] values@[j], v));
                let c = FilterCondition::In(field, values);
                assert(c->In_0 == field);
                assert(c->In_1 == values);
                assert(m.field(field@) == Some(v));
                assert(condition_holds(c, m));
            }
            if condition_holds(FilterCondition::In(field, values), m) {
                let j = choose|j: int| 0 <= j < values@.len() && value_eq(#[trigger] values@[j], v);
                assert(j == 0);
                assert(value_eq(values@[0], v));
            }
        },
        None => {},
    }
}

impl Filter {
    /// The filter's conditions, in the order they were added.
    pub closed spec fn conditions(&self) -> Seq<FilterCondition> {
        self.conditions@
    }

    /// A filter with no condition; it passes everything.
    pub fn new() -> (f: Filter)
        ensures
            f.conditions().len() == 0,
    {
        Filter { conditions: Vec::new() }
    }

    /// Adds a condition at the end.
    fn with(self, c: FilterCondition) -> (f: Filter)
        ensures
            f.conditions() == self.conditions().push(c),
    {
        let mut conditions = self.conditions;
        conditions.push(c);
        Filter { conditions }
    }

    /// Adds the condition that `field` equals `value`.
    pub fn eq<V>(self, field: &str, value: V) -> (f: Filter)
        where MetadataValue: From<V>
        ensures
            f.conditions().len() == self.conditions().len() + 1,
            f.conditions().drop_last() == self.conditions(),
            f.conditions().last() matches FilterCondition::Eq(k, v) && k@ == field@
                && call_ensures(MetadataValue::from, (value,), v),
    {
        let ghost old_cs = self.conditions();
        let f = self.with(FilterCondition::Eq(field.to_owned(), value.into()));
        assert(f.conditions().drop_last() =~= old_cs);
        f
    }

    /// Adds the condition that `field` is missing or differs from `value`.
    pub fn ne<V>(self, field: &str, value: V) -> (f: Filter)
        where MetadataValue: From<V>
        ensures
            f.conditions().len() == self.conditions().len() + 1,
            f.conditions().drop_last() == self.conditions(),
            f.conditions().last() matches FilterCondition::Ne(k, v) && k@ == field@
                && call_ensures(MetadataValue::from, (value,), v),
    {
        let ghost old_cs = self.conditions();
        let f = self.with(FilterCondition::Ne(field.to_owned(), value.into()));
        assert(f.conditions().drop_last() =~= old_cs);
        f
    }

    /// Adds the condition that `field` is greater than `value`.
    pub fn gt<V>(self, field: &str, value: V) -> (f: Filter)
        where MetadataValue: From<V>
        ensures
            f.conditions().len() == self.conditions().len() + 1,
            f.conditions().drop_last() == self.conditions(),
            f.conditions().last() matches FilterCondition::Gt(k, v) && k@ == field@
                && call_ensures(MetadataValue::from, (value,), v),
    {
        let ghost old_cs = self.conditions();
        let f = self.with(FilterCondition::Gt(field.to_owned(), value.into()));
        assert(f.conditions().drop_last() =~= old_cs);
        f
    }

    /// Adds the condition that `field` is greater than or equal to `value`.
    pub fn gte<V>(self, field: &str, value: V) -> (f: Filter)
        where MetadataValue: From<V>
        ensures
            f.conditions().len() == self.conditions().len() + 1,
            f.conditions().drop_last() == self.conditions(),
            f.conditions().last() matches FilterCondition::Gte(k, v) && k@ == field@
                && call_ensures(MetadataValue::from, (value,), v),
    {
        let ghost old_cs = self.conditions();
        let f = self.with(FilterCondition::Gte(field.to_owned(), value.into()));
        assert(f.conditions().drop_last() =~= old_cs);
        f
    }

    /// Adds the condition that `field` is less than `value`.
    pub fn lt<V>(self, field: &str, value: V) -> (f: Filter)
        where MetadataValue: From<V>
        ensures
            f.conditions().len() == self.conditions().len() + 1,
            f.conditions().drop_last() == self.conditions(),
            f.conditions().last() matches FilterCondition::Lt(k, v) && k@ == field@
                && call_ensures(MetadataValue::from, (value,), v),
    {
        let ghost old_cs = self.conditions();
        let f = self.with(FilterCondition::Lt(field.to_owned(), value.into()));
        assert(f.conditions().drop_last() =~= old_cs);
        f
    }

    /// Adds the condition that `field` is less than or equal to `value`.
    pub fn lte<V>(self, field: &str, value: V) -> (f: Filter)
        where MetadataValue: From<V>
        ensures
            f.conditions().len() == self.conditions().len() + 1,
            f.conditions().drop_last() == self.conditions(),
            f.conditions().last() matches FilterCondition::Lte(k, v) && k@ == field@
                && call_ensures(MetadataValue::from, (value,), v),
    {
        let ghost old_cs = self.conditions();
        let f = self.with(FilterCondition::Lte(field.to_owned(), value.into()));
        assert(f.conditions().drop_last() =~= old_cs);
        f
    }

    /// Adds the condition that `field` equals one of `values`.
    pub fn is_in(self, field: &str, values: Vec<MetadataValue>) -> (f: Filter)
        ensures
            f.conditions().len() == self.conditions().len() + 1,
            f.conditions().drop_last() == self.conditions(),
            f.conditions().last() matches FilterCondition::In(k, vs) && k@ == field@ && vs == values,
    {
        let ghost old_cs = self.conditions();
        let f = self.with(FilterCondition::In(field.to_owned(), values));
        assert(f.conditions().drop_last() =~= old_cs);
        f
    }

    /// Whether every condition holds of `metadata`.
    pub fn matches(&self, metadata: &Metadata) -> (r: bool)
        ensures
            r == all_hold(self.conditions(), *metadata),
    {
        let mut i: usize = 0;
        while i < self.conditions.len()
            invariant
                i <= self.conditions@.len(),
                forall|k: int| 0 <= k < i ==> condition_holds(#[trigger] self.conditions@[k], *metadata),
            decreases self.conditions@.len() - i,
        {
            if !self.conditions[i].matches(metadata) {
                return false;
            }
            i = i + 1;
        }
        true
    }

    /// Whether the filter has no condition.
    pub fn is_empty(&self) -> (r: bool)
        ensures
            r == (self.conditions().len() == 0),
    {
        self.conditions.len() == 0
    }
}

impl Default for Filter {
    fn default() -> (f: Filter)
        ensures
            f.conditions().len() == 0,
    {
        Filter::new()
    }
}

} // verus!
