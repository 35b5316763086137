//! Database column types of dimensions and measurements, and the per-batch type maps.
use vstd::prelude::*;
use crate::order::{seq_lt, compare_names, lemma_lt_transitive, lemma_lt_irreflexive, lemma_lt_total};
use crate::types::{SqlType, Dimension, DimensionValue, Measurement, MeasurementValue, Datum};

verus! {

pub open spec fn dimension_type_of(d: Dimension) -> Option<SqlType> {
    match d.value {
        Some(DimensionValue::String(_)) => Some(SqlType::Text),
        Some(DimensionValue::Number(_)) => Some(SqlType::Int8),
        Some(DimensionValue::Boolean(_)) => Some(SqlType::Bool),
        None => None,
    }
}

pub open spec fn measurement_type_of(m: Measurement) -> Option<SqlType> {
    match m.value {
        Some(MeasurementValue::I64(_)) => Some(SqlType::Int8),
        Some(MeasurementValue::I32(_)) => Some(SqlType::Int4),
        Some(MeasurementValue::F64(_)) => Some(SqlType::Float8),
        Some(MeasurementValue::F32(_)) => Some(SqlType::Float4),
        Some(MeasurementValue::StatisticSet(_)) => Some(SqlType::StatisticSet),
        Some(MeasurementValue::Histogram(_)) => Some(SqlType::Jsonb),
        None => None,
    }
}

/// `m` updated with the typed entries of `entries`, later entries winning.
pub open spec fn add_dimension_types(m: Map<Seq<char>, SqlType>, entries: Seq<(String, Dimension)>) -> Map<Seq<char>, SqlType>
    decreases entries.len(),
{
    if entries.len() == 0 {
        m
    } else {
        let prev = add_dimension_types(m, entries.drop_last());
        match dimension_type_of(entries.last().1) {
            Some(t) => prev.insert(entries.last().0@, t),
            None => prev,
        }
    }
}

pub open spec fn add_measurement_types(m: Map<Seq<char>, SqlType>, entries: Seq<(String, Measurement)>) -> Map<Seq<char>, SqlType>
    decreases entries.len(),
{
    if entries.len() == 0 {
        m
    } else {
        let prev = add_measurement_types(m, entries.drop_last());
        match measurement_type_of(entries.last().1) {
            Some(t) => prev.insert(entries.last().0@, t),
            None => prev,
        }
    }
}

/// Name to type over every dimension of every datum, the last observation winning.
pub open spec fn dimension_types(datums: Seq<Datum>) -> Map<Seq<char>, SqlType>
    decreases datums.len(),
{
    if datums.len() == 0 {
        Map::empty()
    } else {
        add_dimension_types(dimension_types(datums.drop_last()), datums.last().dimensions@)
    }
}

/// Name to type over every measurement of every datum, the last observation winning.
pub open spec fn measurement_types(datums: Seq<Datum>) -> Map<Seq<char>, SqlType>
    decreases datums.len(),
{
    if datums.len() == 0 {
        Map::empty()
    } else {
        add_measurement_types(measurement_types(datums.drop_last()), datums.last().measurements@)
    }
}

/// The names of `entries` are strictly ascending.
pub open spec fn strictly_sorted(entries: Seq<(String, SqlType)>) -> bool {
    forall|i: int, j: int| 0 <= i < j < entries.len() ==> seq_lt(#[trigger] entries[i].0@, #[trigger] entries[j].0@)
}

/// `entries` lists exactly the pairs of `m`, in ascending order of name.
pub open spec fn lists_map(entries: Seq<(String, SqlType)>, m: Map<Seq<char>, SqlType>) -> bool {
    &&& strictly_sorted(entries)
    &&& forall|i: int| 0 <= i < entries.len() ==> #[trigger] m.contains_key(entries[i].0@) && m[entries[i].0@] == entries[i].1
    &&& forall|k: Seq<char>| #[trigger] m.contains_key(k) ==> exists|i: int| 0 <= i < entries.len() && entries[i].0@ == k
}

/// Sets `name` to `t` in the sorted list `entries`.
fn set_type(entries: &mut Vec<(String, SqlType)>, name: &String, t: SqlType, Ghost(m): Ghost<Map<Seq<char>, SqlType>>)
    requires
        lists_map(old(entries)@, m),
    ensures
        lists_map(final(entries)@, m.insert(name@, t)),
{
    let ghost m2 = m.insert(name@, t);
    let n = entries.len();
    let mut i: usize = 0;
    while i < n && compare_names(entries[i].0.as_str(), name.as_str()) < 0
        invariant
            i <= n,
            n == entries@.len(),
            entries@ == old(entries)@,
            forall|j: int| 0 <= j < i ==> seq_lt(#[trigger] entries@[j].0@, name@),
        decreases n - i,
    {
        i = i + 1;
    }
    let ghost e = entries@;
    if i < n && compare_names(entries[i].0.as_str(), name.as_str()) == 0 {
        entries.set(i, (name.clone(), t));
        assert forall|k: Seq<char>| #[trigger] m2.contains_key(k) implies exists|j: int| 0 <= j < entries@.len() && entries@[j].0@ == k by {
            if k != name@ {
                let j = choose|j: int| 0 <= j < e.len() && e[j].0@ == k;
                assert(entries@[j].0@ == k);
            } else {
                assert(entries@[i as int].0@ == k);
            }
        }
        assert forall|j: int| 0 <= j < entries@.len() implies #[trigger] m2.contains_key(entries@[j].0@) && m2[entries@[j].0@] == entries@[j].1 by {
            if j != i {
                assert(entries@[j] == e[j]);
                if e[j].0@ == name@ {
                    if j < i {
                        assert(seq_lt(e[j].0@, e[i as int].0@));
                    } else {
                        assert(seq_lt(e[i as int].0@, e[j].0@));
                    }
                    lemma_lt_irreflexive(name@);
                }
            }
        }
    } else {
        proof {
            if i < n {
                crate::order::lemma_lt_total(e[i as int].0@, name@);
            }
            assert forall|j: int| i <= j < n implies seq_lt(name@, #[trigger] e[j].0@) by {
                if j > i {
                    lemma_lt_transitive(name@, e[i as int].0@, e[j].0@);
                }
            }
        }
        entries.insert(i, (name.clone(), t));
        assert forall|a: int, b: int| 0 <= a < b < entries@.len() implies seq_lt(#[trigger] entries@[a].0@, #[trigger] entries@[b].0@) by {
            if b < i {
            } else if b == i {
            } else if a < i {
                assert(seq_lt(e[a].0@, name@));
                assert(seq_lt(name@, e[b - 1].0@));
                lemma_lt_transitive(e[a].0@, name@, e[b - 1].0@);
            } else if a == i {
            } else {
                assert(seq_lt(e[a - 1].0@, e[b - 1].0@));
            }
        }
        assert forall|k: Seq<char>| #[trigger] m2.contains_key(k) implies exists|j: int| 0 <= j < entries@.len() && entries@[j].0@ == k by {
            if k != name@ {
                let j = choose|j: int| 0 <= j < e.len() && e[j].0@ == k;
                if j < i {
                    assert(entries@[j].0@ == k);
                } else {
                    assert(entries@[j + 1].0@ == k);
                }
            } else {
                assert(entries@[i as int].0@ == k);
            }
        }
        assert forall|j: int| 0 <= j < entries@.len() implies #[trigger] m2.contains_key(entries@[j].0@) && m2[entries@[j].0@] == entries@[j].1 by {
            lemma_lt_irreflexive(name@);
            if j < i {
                assert(entries@[j] == e[j]);
                assert(seq_lt(e[j].0@, name@));
                assert(e[j].0@ != name@);
                assert(m.contains_key(e[j].0@));
            } else if j > i {
                assert(entries@[j] == e[j - 1]);
                assert(seq_lt(name@, e[j - 1].0@));
                assert(e[j - 1].0@ != name@);
                assert(m.contains_key(e[j - 1].0@));
            }
        }
    }
}

/// Maps dimensions and measurements to database column types.
pub struct TypeConverter {}

impl TypeConverter {
    pub fn new() -> Self {
        TypeConverter {}
    }

    /// The column type of a measurement, if it carries a value.
    pub fn measurement_sql_type(&self, measurement: &Measurement) -> (r: Option<SqlType>)
        ensures
            r == measurement_type_of(*measurement),
    {
        match &measurement.value {
            Some(MeasurementValue::I64(_)) => Some(SqlType::Int8),
            Some(MeasurementValue::I32(_)) => Some(SqlType::Int4),
            Some(MeasurementValue::F64(_)) => Some(SqlType::Float8),
            Some(MeasurementValue::F32(_)) => Some(SqlType::Float4),
            Some(MeasurementValue::StatisticSet(_)) => Some(SqlType::StatisticSet),
            Some(MeasurementValue::Histogram(_)) => Some(SqlType::Jsonb),
            None => None,
        }
    }

    /// The column type of a dimension, if it carries a value.
    pub fn dimension_sql_type(&self, dimension: &Dimension) -> (r: Option<SqlType>)
        ensures
            r == dimension_type_of(*dimension),
    {
        match &dimension.value {
            Some(DimensionValue::String(_)) => Some(SqlType::Text),
            Some(DimensionValue::Number(_)) => Some(SqlType::Int8),
            Some(DimensionValue::Boolean(_)) => Some(SqlType::Bool),
            None => None,
        }
    }

    /// Every dimension name of `datums` with its column type, sorted by name; where a name
    /// is seen more than once the last observation wins.
    pub fn get_dimension_type_map(&self, datums: &[Datum]) -> (r: Vec<(String, SqlType)>)
        ensures
            lists_map(r@, dimension_types(datums@)),
    {
        let mut r: Vec<(String, SqlType)> = Vec::new();
        let mut i: usize = 0;
        while i < datums.len()
            invariant
                i <= datums@.len(),
                lists_map(r@, dimension_types(datums@.subrange(0, i as int))),
            decreases datums@.len() - i,
        {
            let d = &datums[i];
            let ghost base = dimension_types(datums@.subrange(0, i as int));
            assert(datums@.subrange(0, i as int + 1).drop_last() =~= datums@.subrange(0, i as int));
            let mut j: usize = 0;
            assert(d.dimensions@.subrange(0, 0) =~= Seq::<(String, Dimension)>::empty());
            while j < d.dimensions.len()
                invariant
                    j <= d.dimensions@.len(),
                    lists_map(r@, add_dimension_types(base, d.dimensions@.subrange(0, j as int))),
                decreases d.dimensions@.len() - j,
            {
                let ghost cur = add_dimension_types(base, d.dimensions@.subrange(0, j as int));
                assert(d.dimensions@.subrange(0, j as int + 1).drop_last() =~= d.dimensions@.subrange(0, j as int));
                match self.dimension_sql_type(&d.dimensions[j].1) {
                    Some(t) => set_type(&mut r, &d.dimensions[j].0, t, Ghost(cur)),
                    None => {},
                }
                j = j + 1;
            }
            assert(d.dimensions@.subrange(0, j as int) =~= d.dimensions@);
            i = i + 1;
        }
        assert(datums@.subrange(0, i as int) =~= datums@);
        r
    }

    /// Every measurement name of `datums` with its column type, sorted by name; where a name
    /// is seen more than once the last observation wins.
    pub fn get_measurement_type_map(&self, datums: &[Datum]) -> (r: Vec<(String, SqlType)>)
        ensures
            lists_map(r@, measurement_types(datums@)),
    {
        let mut r: Vec<(String, SqlType)> = Vec::new();
        let mut i: usize = 0;
        while i < datums.len()
            invariant
                i <= datums@.len(),
                lists_map(r@, measurement_types(datums@.subrange(0, i as int))),
            decreases datums@.len() - i,
        {
            let d = &datums[i];
            let ghost base = measurement_types(datums@.subrange(0, i as int));
            assert(datums@.subrange(0, i as int + 1).drop_last() =~= datums@.subrange(0, i as int));
            let mut j: usize = 0;
            assert(d.measurements@.subrange(0, 0) =~= Seq::<(String, Measurement)>::empty());
            while j < d.measurements.len()
                invariant
                    j <= d.measurements@.len(),
                    lists_map(r@, add_measurement_types(base, d.measurements@.subrange(0, j as int))),
                decreases d.measurements@.len() - j,
            {
                let ghost cur = add_measurement_types(base, d.measurements@.subrange(0, j as int));
                assert(d.measurements@.subrange(0, j as int + 1).drop_last() =~= d.measurements@.subrange(0, j as int));
                match self.measurement_sql_type(&d.measurements[j].1) {
                    Some(t) => set_type(&mut r, &d.measurements[j].0, t, Ghost(cur)),
                    None => {},
                }
                j = j + 1;
            }
            assert(d.measurements@.subrange(0, j as int) =~= d.measurements@);
            i = i + 1;
        }
        assert(datums@.subrange(0, i as int) =~= datums@);
        r
    }
}

/// A map has one sorted listing: two lists that both list `m` in ascending order of name hold
/// the same names and types at the same places.
pub proof fn lemma_listing_unique(e1: Seq<(String, SqlType)>, e2: Seq<(String, SqlType)>, m: Map<Seq<char>, SqlType>)
    requires
        lists_map(e1, m),
        lists_map(e2, m),
    ensures
        e1.len() == e2.len(),
        forall|i: int| 0 <= i < e1.len() ==> (#[trigger] e1[i]).0@ == e2[i].0@ && e1[i].1 == e2[i].1,
    decreases e1.len(),
{
    if e1.len() == 0 || e2.len() == 0 {
        if e2.len() > 0 {
            assert(m.contains_key(e2[0].0@));
        }
        if e1.len() > 0 {
            assert(m.contains_key(e1[0].0@));
        }
    } else {
        let k1 = e1[0].0@;
        let k2 = e2[0].0@;
        assert(m.contains_key(k1));
        assert(m.contains_key(k2));
        let j = choose|j: int| 0 <= j < e2.len() && e2[j].0@ == k1;
        let j2 = choose|j: int| 0 <= j < e1.len() && e1[j].0@ == k2;
        lemma_lt_irreflexive(k1);
        lemma_lt_irreflexive(k2);
        lemma_lt_total(k1, k2);
        if j > 0 {
            assert(seq_lt(e2[0].0@, e2[j].0@));
            if j2 > 0 {
                assert(seq_lt(e1[0].0@, e1[j2].0@));
            }
        }
        assert(k1 == k2);
        let m2 = m.remove(k1);
        let t1 = e1.drop_first();
        let t2 = e2.drop_first();
        assert forall|i: int| 0 <= i < t1.len() implies #[trigger] m2.contains_key(t1[i].0@) && m2[t1[i].0@] == t1[i].1 by {
            assert(t1[i] == e1[i + 1]);
            assert(seq_lt(e1[0].0@, e1[i + 1].0@));
        }
        assert forall|i: int| 0 <= i < t2.len() implies #[trigger] m2.contains_key(t2[i].0@) && m2[t2[i].0@] == t2[i].1 by {
            assert(t2[i] == e2[i + 1]);
            assert(seq_lt(e2[0].0@, e2[i + 1].0@));
        }
        assert forall|k: Seq<char>| #[trigger] m2.contains_key(k) implies exists|i: int| 0 <= i < t1.len() && t1[i].0@ == k by {
            let i = choose|i: int| 0 <= i < e1.len() && e1[i].0@ == k;
            assert(i > 0);
            assert(t1[i - 1] == e1[i]);
        }
        assert forall|k: Seq<char>| #[trigger] m2.contains_key(k) implies exists|i: int| 0 <= i < t2.len() && t2[i].0@ == k by {
            let i = choose|i: int| 0 <= i < e2.len() && e2[i].0@ == k;
            assert(i > 0);
            assert(t2[i - 1] == e2[i]);
        }
        assert forall|a: int, b: int| 0 <= a < b < t1.len() implies seq_lt(#[trigger] t1[a].0@, #[trigger] t1[b].0@) by {
            assert(seq_lt(e1[a + 1].0@, e1[b + 1].0@));
        }
        assert forall|a: int, b: int| 0 <= a < b < t2.len() implies seq_lt(#[trigger] t2[a].0@, #[trigger] t2[b].0@) by {
            assert(seq_lt(e2[a + 1].0@, e2[b + 1].0@));
        }
        lemma_listing_unique(t1, t2, m2);
        assert forall|i: int| 0 <= i < e1.len() implies (#[trigger] e1[i]).0@ == e2[i].0@ && e1[i].1 == e2[i].1 by {
            if i > 0 {
                assert(e1[i] == t1[i - 1]);
                assert(e2[i] == t2[i - 1]);
            } else {
                assert(m[k1] == e1[0].1);
                assert(m[k2] == e2[0].1);
            }
        }
    }
}

/// Some entry of `e` is a dimension named `k` that carries a value.
pub open spec fn typed_dimension_in(e: Seq<(String, Dimension)>, k: Seq<char>) -> bool {
    exists|j: int| 0 <= j < e.len() && e[j].0@ == k && dimension_type_of(e[j].1) is Some
}

/// Some entry of `e` is a measurement named `k` that carries a value.
pub open spec fn typed_measurement_in(e: Seq<(String, Measurement)>, k: Seq<char>) -> bool {
    exists|j: int| 0 <= j < e.len() && e[j].0@ == k && measurement_type_of(e[j].1) is Some
}

/// Some datum of `ds` has a dimension named `k` that carries a value.
pub open spec fn has_dimension(ds: Seq<Datum>, k: Seq<char>) -> bool {
    exists|i: int| 0 <= i < ds.len() && typed_dimension_in(#[trigger] ds[i].dimensions@, k)
}

/// Some datum of `ds` has a measurement named `k` that carries a value.
pub open spec fn has_measurement(ds: Seq<Datum>, k: Seq<char>) -> bool {
    exists|i: int| 0 <= i < ds.len() && typed_measurement_in(#[trigger] ds[i].measurements@, k)
}

proof fn lemma_add_dimension_keys(m: Map<Seq<char>, SqlType>, e: Seq<(String, Dimension)>, k: Seq<char>)
    ensures
        add_dimension_types(m, e).contains_key(k) == (m.contains_key(k) || typed_dimension_in(e, k)),
    decreases e.len(),
{
    if e.len() > 0 {
        let e1 = e.drop_last();
        lemma_add_dimension_keys(m, e1, k);
        if typed_dimension_in(e1, k) {
            let j = choose|j: int| 0 <= j < e1.len() && e1[j].0@ == k && dimension_type_of(e1[j].1) is Some;
            assert(e[j] == e1[j]);
        }
        if typed_dimension_in(e, k) {
            let j = choose|j: int| 0 <= j < e.len() && e[j].0@ == k && dimension_type_of(e[j].1) is Some;
            if j < e1.len() {
                assert(e1[j] == e[j]);
            }
        }
    }
}

proof fn lemma_add_measurement_keys(m: Map<Seq<char>, SqlType>, e: Seq<(String, Measurement)>, k: Seq<char>)
    ensures
        add_measurement_types(m, e).contains_key(k) == (m.contains_key(k) || typed_measurement_in(e, k)),
    decreases e.len(),
{
    if e.len() > 0 {
        let e1 = e.drop_last();
        lemma_add_measurement_keys(m, e1, k);
        if typed_measurement_in(e1, k) {
            let j = choose|j: int| 0 <= j < e1.len() && e1[j].0@ == k && measurement_type_of(e1[j].1) is Some;
            assert(e[j] == e1[j]);
        }
        if typed_measurement_in(e, k) {
            let j = choose|j: int| 0 <= j < e.len() && e[j].0@ == k && measurement_type_of(e[j].1) is Some;
            if j < e1.len() {
                assert(e1[j] == e[j]);
            }
        }
    }
}

/// The dimension columns of a batch are the names of its dimensions that carry a value,
/// whatever the order of the datums.
pub proof fn lemma_dimension_keys(ds: Seq<Datum>, k: Seq<char>)
    ensures
        dimension_types(ds).contains_key(k) == has_dimension(ds, k),
    decreases ds.len(),
{
    if ds.len() > 0 {
        let d1 = ds.drop_last();
        lemma_dimension_keys(d1, k);
        lemma_add_dimension_keys(dimension_types(d1), ds.last().dimensions@, k);
        if has_dimension(d1, k) {
            let i = choose|i: int| 0 <= i < d1.len() && typed_dimension_in(#[trigger] d1[i].dimensions@, k);
            assert(ds[i] == d1[i]);
        }
        if has_dimension(ds, k) {
            let i = choose|i: int| 0 <= i < ds.len() && typed_dimension_in(#[trigger] ds[i].dimensions@, k);
            if i < d1.len() {
                assert(d1[i] == ds[i]);
            }
        }
        if typed_dimension_in(ds.last().dimensions@, k) {
            assert(typed_dimension_in(ds[ds.len() - 1].dimensions@, k));
        }
    }
}

/// The measurement columns of a batch are the names of its measurements that carry a value,
/// whatever the order of the datums.
pub proof fn lemma_measurement_keys(ds: Seq<Datum>, k: Seq<char>)
    ensures
        measurement_types(ds).contains_key(k) == has_measurement(ds, k),
    decreases ds.len(),
{
    if ds.len() > 0 {
        let d1 = ds.drop_last();
        lemma_measurement_keys(d1, k);
        lemma_add_measurement_keys(measurement_types(d1), ds.last().measurements@, k);
        if has_measurement(d1, k) {
            let i = choose|i: int| 0 <= i < d1.len() && typed_measurement_in(#[trigger] d1[i].measurements@, k);
            assert(ds[i] == d1[i]);
        }
        if has_measurement(ds, k) {
            let i = choose|i: int| 0 <= i < ds.len() && typed_measurement_in(#[trigger] ds[i].measurements@, k);
            if i < d1.len() {
                assert(d1[i] == ds[i]);
            }
        }
        if typed_measurement_in(ds.last().measurements@, k) {
            assert(typed_measurement_in(ds[ds.len() - 1].measurements@, k));
        }
    }
}

/// Two sorted listings of maps with the same names hold the same names at the same places.
pub proof fn lemma_listing_names_unique(e1: Seq<(String, SqlType)>, e2: Seq<(String, SqlType)>, m1: Map<Seq<char>, SqlType>, m2: Map<Seq<char>, SqlType>)
    requires
        lists_map(e1, m1),
        lists_map(e2, m2),
        m1.dom() == m2.dom(),
    ensures
        e1.len() == e2.len(),
        forall|i: int| 0 <= i < e1.len() ==> (#[trigger] e1[i]).0@ == e2[i].0@,
    decreases e1.len(),
{
    if e1.len() == 0 || e2.len() == 0 {
        if e2.len() > 0 {
            assert(m2.contains_key(e2[0].0@));
            assert(m1.dom().contains(e2[0].0@));
        }
        if e1.len() > 0 {
            assert(m1.contains_key(e1[0].0@));
            assert(m2.dom().contains(e1[0].0@));
        }
    } else {
        let k1 = e1[0].0@;
        let k2 = e2[0].0@;
        assert(m1.contains_key(k1) && m2.dom().contains(k1));
        assert(m2.contains_key(k2) && m1.dom().contains(k2));
        let j = choose|j: int| 0 <= j < e2.len() && e2[j].0@ == k1;
        let j2 = choose|j: int| 0 <= j < e1.len() && e1[j].0@ == k2;
        lemma_lt_irreflexive(k1);
        lemma_lt_irreflexive(k2);
        lemma_lt_total(k1, k2);
        if j > 0 {
            assert(seq_lt(e2[0].0@, e2[j].0@));
            if j2 > 0 {
                assert(seq_lt(e1[0].0@, e1[j2].0@));
            }
        }
        assert(k1 == k2);
        let n1 = m1.remove(k1);
        let n2 = m2.remove(k1);
        let t1 = e1.drop_first();
        let t2 = e2.drop_first();
        assert(n1.dom() =~= n2.dom());
        assert forall|i: int| 0 <= i < t1.len() implies #[trigger] n1.contains_key(t1[i].0@) && n1[t1[i].0@] == t1[i].1 by {
            assert(t1[i] == e1[i + 1]);
            assert(seq_lt(e1[0].0@, e1[i + 1].0@));
        }
        assert forall|i: int| 0 <= i < t2.len() implies #[trigger] n2.contains_key(t2[i].0@) && n2[t2[i].0@] == t2[i].1 by {
            assert(t2[i] == e2[i + 1]);
            assert(seq_lt(e2[0].0@, e2[i + 1].0@));
        }
        assert forall|k: Seq<char>| #[trigger] n1.contains_key(k) implies exists|i: int| 0 <= i < t1.len() && t1[i].0@ == k by {
            let i = choose|i: int| 0 <= i < e1.len() && e1[i].0@ == k;
            assert(i > 0);
            assert(t1[i - 1] == e1[i]);
        }
        assert forall|k: Seq<char>| #[trigger] n2.contains_key(k) implies exists|i: int| 0 <= i < t2.len() && t2[i].0@ == k by {
            let i = choose|i: int| 0 <= i < e2.len() && e2[i].0@ == k;
            assert(i > 0);
            assert(t2[i - 1] == e2[i]);
        }
        assert forall|a: int, b: int| 0 <= a < b < t1.len() implies seq_lt(#[trigger] t1[a].0@, #[trigger] t1[b].0@) by {
            assert(seq_lt(e1[a + 1].0@, e1[b + 1].0@));
        }
        assert forall|a: int, b: int| 0 <= a < b < t2.len() implies seq_lt(#[trigger] t2[a].0@, #[trigger] t2[b].0@) by {
            assert(seq_lt(e2[a + 1].0@, e2[b + 1].0@));
        }
        lemma_listing_names_unique(t1, t2, n1, n2);
        assert forall|i: int| 0 <= i < e1.len() implies (#[trigger] e1[i]).0@ == e2[i].0@ by {
            if i > 0 {
                assert(e1[i] == t1[i - 1]);
                assert(e2[i] == t2[i - 1]);
            }
        }
    }
}

} // verus!
