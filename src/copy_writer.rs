//! Column layout, COPY statement and rows of one metric's batch.
use vstd::prelude::*;
use vstd::string::StringExecFns;
use crate::ident::{clean_id, clean_id_of};
use crate::types::{unique_names, SqlType, Dimension, DimensionValue, Measurement, MeasurementValue, Datum, StatisticSet};

verus! {

/// One cell of a COPY row; floats are held as their bit patterns.
pub enum Cell {
    Timestamp(u64),
    Text(String),
    Int8(i64),
    Bool(bool),
    Int4(i32),
    Float8(u64),
    Float4(u32),
    Statistics(StatisticSet),
    Histogram(Vec<(i64, u64)>),
    NullText,
    NullFloat8,
}

/// What a cell holds, with its text and buckets as sequences.
pub enum CellView {
    Timestamp(u64),
    Text(Seq<char>),
    Int8(i64),
    Bool(bool),
    Int4(i32),
    Float8(u64),
    Float4(u32),
    Statistics(StatisticSet),
    Histogram(Seq<(i64, u64)>),
    NullText,
    NullFloat8,
}

impl View for Cell {
    type V = CellView;

    open spec fn view(&self) -> CellView {
        match self {
            Cell::Timestamp(n) => CellView::Timestamp(*n),
            Cell::Text(s) => CellView::Text(s@),
            Cell::Int8(i) => CellView::Int8(*i),
            Cell::Bool(b) => CellView::Bool(*b),
            Cell::Int4(i) => CellView::Int4(*i),
            Cell::Float8(f) => CellView::Float8(*f),
            Cell::Float4(f) => CellView::Float4(*f),
            Cell::Statistics(s) => CellView::Statistics(*s),
            Cell::Histogram(h) => CellView::Histogram(h@),
            Cell::NullText => CellView::NullText,
            Cell::NullFloat8 => CellView::NullFloat8,
        }
    }
}

/// Index of the last entry of `entries` named `name`.
pub open spec fn last_index_of<V>(entries: Seq<(String, V)>, name: Seq<char>) -> Option<int>
    decreases entries.len(),
{
    if entries.len() == 0 {
        None
    } else if entries.last().0@ == name {
        Some(entries.len() - 1)
    } else {
        last_index_of(entries.drop_last(), name)
    }
}

/// The cell of a dimension column: its value, or a text NULL where the datum lacks it.
pub open spec fn dimension_cell(d: Datum, name: Seq<char>) -> CellView {
    match last_index_of(d.dimensions@, name) {
        Some(i) => match d.dimensions@[i].1.value {
            Some(DimensionValue::String(s)) => CellView::Text(s@),
            Some(DimensionValue::Number(n)) => CellView::Int8(n),
            Some(DimensionValue::Boolean(b)) => CellView::Bool(b),
            None => CellView::NullText,
        },
        None => CellView::NullText,
    }
}

/// The cell of a measurement column: its value, or a float8 NULL where the datum lacks it.
pub open spec fn measurement_cell(d: Datum, name: Seq<char>) -> CellView {
    match last_index_of(d.measurements@, name) {
        Some(i) => match d.measurements@[i].1.value {
            Some(MeasurementValue::I64(v)) => CellView::Int8(v),
            Some(MeasurementValue::I32(v)) => CellView::Int4(v),
            Some(MeasurementValue::F64(v)) => CellView::Float8(v),
            Some(MeasurementValue::F32(v)) => CellView::Float4(v),
            Some(MeasurementValue::StatisticSet(s)) => CellView::Statistics(s),
            Some(MeasurementValue::Histogram(h)) => CellView::Histogram(h.buckets@),
            None => CellView::NullFloat8,
        },
        None => CellView::NullFloat8,
    }
}

/// The row of a datum: its time, then one cell per dimension column, then one per
/// measurement column.
pub open spec fn row_of(d: Datum, dimensions: Seq<(String, SqlType)>, measurements: Seq<(String, SqlType)>) -> Seq<CellView> {
    seq![CellView::Timestamp(d.unix_nanos)]
        + dimensions.map_values(|e: (String, SqlType)| dimension_cell(d, e.0@))
        + measurements.map_values(|e: (String, SqlType)| measurement_cell(d, e.0@))
}

/// Column names: `time`, then the cleaned dimension names, then the cleaned measurement names.
pub open spec fn column_names_of(dimensions: Seq<(String, SqlType)>, measurements: Seq<(String, SqlType)>) -> Seq<Seq<char>> {
    seq!["time"@]
        + dimensions.map_values(|e: (String, SqlType)| clean_id_of(e.0@))
        + measurements.map_values(|e: (String, SqlType)| clean_id_of(e.0@))
}

/// Column types in the order of `column_names_of`.
pub open spec fn column_types_of(dimensions: Seq<(String, SqlType)>, measurements: Seq<(String, SqlType)>) -> Seq<SqlType> {
    seq![SqlType::Timestamptz]
        + dimensions.map_values(|e: (String, SqlType)| e.1)
        + measurements.map_values(|e: (String, SqlType)| e.1)
}

pub(crate) fn find_last<V>(entries: &Vec<(String, V)>, name: &String) -> (r: Option<usize>)
    ensures
        match r {
            Some(i) => i < entries@.len() && last_index_of(entries@, name@) == Some(i as int),
            None => last_index_of(entries@, name@) is None,
        },
{
    let mut found: Option<usize> = None;
    let mut j: usize = 0;
    while j < entries.len()
        invariant
            j <= entries@.len(),
            match found {
                Some(i) => i < j && last_index_of(entries@.subrange(0, j as int), name@) == Some(i as int),
                None => last_index_of(entries@.subrange(0, j as int), name@) is None,
            },
        decreases entries@.len() - j,
    {
        let ghost pre = entries@.subrange(0, j as int + 1);
        assert(pre.drop_last() =~= entries@.subrange(0, j as int));
        if crate::order::compare_names(entries[j].0.as_str(), name.as_str()) == 0 {
            found = Some(j);
        }
        j = j + 1;
    }
    assert(entries@.subrange(0, j as int) =~= entries@);
    found
}

fn dimension_value_cell(d: &Dimension) -> (r: Cell)
    ensures
        r@ == (match d.value {
            Some(DimensionValue::String(s)) => CellView::Text(s@),
            Some(DimensionValue::Number(n)) => CellView::Int8(n),
            Some(DimensionValue::Boolean(b)) => CellView::Bool(b),
            None => CellView::NullText,
        }),
{
    match &d.value {
        Some(DimensionValue::String(s)) => Cell::Text(s.clone()),
        Some(DimensionValue::Number(n)) => Cell::Int8(*n),
        Some(DimensionValue::Boolean(b)) => Cell::Bool(*b),
        None => Cell::NullText,
    }
}

fn copy_buckets(h: &Vec<(i64, u64)>) -> (r: Vec<(i64, u64)>)
    ensures
        r@ == h@,
{
    let mut r: Vec<(i64, u64)> = Vec::new();
    let mut i: usize = 0;
    while i < h.len()
        invariant
            i <= h@.len(),
            r@ == h@.subrange(0, i as int),
        decreases h@.len() - i,
    {
        let b = (h[i].0, h[i].1);
        r.push(b);
        assert(h@.subrange(0, i as int + 1) =~= h@.subrange(0, i as int).push(b));
        i = i + 1;
    }
    assert(h@.subrange(0, i as int) =~= h@);
    r
}

fn measurement_value_cell(m: &Measurement) -> (r: Cell)
    ensures
        r@ == (match m.value {
            Some(MeasurementValue::I64(v)) => CellView::Int8(v),
            Some(MeasurementValue::I32(v)) => CellView::Int4(v),
            Some(MeasurementValue::F64(v)) => CellView::Float8(v),
            Some(MeasurementValue::F32(v)) => CellView::Float4(v),
            Some(MeasurementValue::StatisticSet(s)) => CellView::Statistics(s),
            Some(MeasurementValue::Histogram(h)) => CellView::Histogram(h.buckets@),
            None => CellView::NullFloat8,
        }),
{
    match &m.value {
        Some(MeasurementValue::I64(v)) => Cell::Int8(*v),
        Some(MeasurementValue::I32(v)) => Cell::Int4(*v),
        Some(MeasurementValue::F64(v)) => Cell::Float8(*v),
        Some(MeasurementValue::F32(v)) => Cell::Float4(*v),
        Some(MeasurementValue::StatisticSet(s)) => Cell::Statistics(*s),
        Some(MeasurementValue::Histogram(h)) => Cell::Histogram(copy_buckets(&h.buckets)),
        None => Cell::NullFloat8,
    }
}

/// The COPY row of one datum: its time, one cell per dimension column (a text NULL where the
/// datum lacks the dimension or its value), then one cell per measurement column (a float8
/// NULL where the datum lacks it).
pub fn build_row(datum: &Datum, dimensions: &Vec<(String, SqlType)>, measurements: &Vec<(String, SqlType)>) -> (r: Vec<Cell>)
    ensures
        r@.len() == 1 + dimensions@.len() + measurements@.len(),
        r@.map_values(|c: Cell| c@) == row_of(*datum, dimensions@, measurements@),
{
    let ghost d = *datum;
    let ghost dims = dimensions@.map_values(|e: (String, SqlType)| dimension_cell(d, e.0@));
    let ghost meas = measurements@.map_values(|e: (String, SqlType)| measurement_cell(d, e.0@));
    let mut row: Vec<Cell> = Vec::new();
    row.push(Cell::Timestamp(datum.unix_nanos));
    let mut i: usize = 0;
    while i < dimensions.len()
        invariant
            i <= dimensions@.len(),
            row@.len() == 1 + i,
            d == *datum,
            dims.len() == dimensions@.len(),
            dims == dimensions@.map_values(|e: (String, SqlType)| dimension_cell(d, e.0@)),
            row@.map_values(|c: Cell| c@) =~= seq![CellView::Timestamp(d.unix_nanos)] + dims.subrange(0, i as int),
        decreases dimensions@.len() - i,
    {
        let cell = match find_last(&datum.dimensions, &dimensions[i].0) {
            Some(k) => dimension_value_cell(&datum.dimensions[k].1),
            None => Cell::NullText,
        };
        assert(cell@ == dims[i as int]);
        let ghost before = row@;
        row.push(cell);
        assert(row@.map_values(|c: Cell| c@) =~= before.map_values(|c: Cell| c@).push(dims[i as int]));
        assert(dims.subrange(0, i as int + 1) =~= dims.subrange(0, i as int).push(dims[i as int]));
        i = i + 1;
    }
    let mut j: usize = 0;
    while j < measurements.len()
        invariant
            j <= measurements@.len(),
            i == dimensions@.len(),
            row@.len() == 1 + i + j,
            d == *datum,
            dims.len() == dimensions@.len(),
            meas.len() == measurements@.len(),
            meas == measurements@.map_values(|e: (String, SqlType)| measurement_cell(d, e.0@)),
            row@.map_values(|c: Cell| c@) =~= seq![CellView::Timestamp(d.unix_nanos)] + dims + meas.subrange(0, j as int),
        decreases measurements@.len() - j,
    {
        let cell = match find_last(&datum.measurements, &measurements[j].0) {
            Some(k) => measurement_value_cell(&datum.measurements[k].1),
            None => Cell::NullFloat8,
        };
        assert(cell@ == meas[j as int]);
        let ghost before = row@;
        row.push(cell);
        assert(row@.map_values(|c: Cell| c@) =~= before.map_values(|c: Cell| c@).push(meas[j as int]));
        assert(meas.subrange(0, j as int + 1) =~= meas.subrange(0, j as int).push(meas[j as int]));
        j = j + 1;
    }
    assert(dims.subrange(0, i as int) =~= dims);
    assert(meas.subrange(0, j as int) =~= meas);
    row
}

/// `names` joined with commas.
pub open spec fn join_commas(names: Seq<Seq<char>>) -> Seq<char>
    decreases names.len(),
{
    if names.len() == 0 {
        Seq::empty()
    } else if names.len() == 1 {
        names[0]
    } else {
        join_commas(names.drop_last()) + ","@ + names.last()
    }
}

/// The statement that opens a binary COPY of `names` into the table of `metric`.
pub open spec fn copy_statement_of(metric: Seq<char>, names: Seq<Seq<char>>) -> Seq<char> {
    "copy "@ + clean_id_of(metric) + " ("@ + join_commas(names) + ") from stdin with binary"@
}

/// Column types: `timestamptz`, then the dimension types, then the measurement types.
pub fn get_all_column_types(dimension_types: &Vec<(String, SqlType)>, measurement_types: &Vec<(String, SqlType)>) -> (r: Vec<SqlType>)
    ensures
        r@ == column_types_of(dimension_types@, measurement_types@),
{
    let ghost dims = dimension_types@.map_values(|e: (String, SqlType)| e.1);
    let ghost meas = measurement_types@.map_values(|e: (String, SqlType)| e.1);
    let mut r: Vec<SqlType> = Vec::new();
    r.push(SqlType::Timestamptz);
    let mut i: usize = 0;
    while i < dimension_types.len()
        invariant
            i <= dimension_types@.len(),
            dims == dimension_types@.map_values(|e: (String, SqlType)| e.1),
            r@ =~= seq![SqlType::Timestamptz] + dims.subrange(0, i as int),
        decreases dimension_types@.len() - i,
    {
        r.push(dimension_types[i].1);
        assert(dims.subrange(0, i as int + 1) =~= dims.subrange(0, i as int).push(dims[i as int]));
        i = i + 1;
    }
    assert(dims.subrange(0, i as int) =~= dims);
    let mut j: usize = 0;
    while j < measurement_types.len()
        invariant
            j <= measurement_types@.len(),
            meas == measurement_types@.map_values(|e: (String, SqlType)| e.1),
            r@ =~= seq![SqlType::Timestamptz] + dims + meas.subrange(0, j as int),
        decreases measurement_types@.len() - j,
    {
        r.push(measurement_types[j].1);
        assert(meas.subrange(0, j as int + 1) =~= meas.subrange(0, j as int).push(meas[j as int]));
        j = j + 1;
    }
    assert(meas.subrange(0, j as int) =~= meas);
    r
}

/// Column names: `time`, then the cleaned dimension names, then the cleaned measurement names.
pub fn get_all_column_names(dimension_types: &Vec<(String, SqlType)>, measurement_types: &Vec<(String, SqlType)>) -> (r: Vec<String>)
    ensures
        r@.map_values(|s: String| s@) == column_names_of(dimension_types@, measurement_types@),
{
    let ghost dims = dimension_types@.map_values(|e: (String, SqlType)| clean_id_of(e.0@));
    let ghost meas = measurement_types@.map_values(|e: (String, SqlType)| clean_id_of(e.0@));
    let mut r: Vec<String> = Vec::new();
    r.push(String::from_str("time"));
    let mut i: usize = 0;
    while i < dimension_types.len()
        invariant
            i <= dimension_types@.len(),
            dims == dimension_types@.map_values(|e: (String, SqlType)| clean_id_of(e.0@)),
            r@.map_values(|s: String| s@) =~= seq!["time"@] + dims.subrange(0, i as int),
        decreases dimension_types@.len() - i,
    {
        let ghost before = r@;
        r.push(clean_id(dimension_types[i].0.as_str()));
        assert(r@.map_values(|s: String| s@) =~= before.map_values(|s: String| s@).push(dims[i as int]));
        assert(dims.subrange(0, i as int + 1) =~= dims.subrange(0, i as int).push(dims[i as int]));
        i = i + 1;
    }
    assert(dims.subrange(0, i as int) =~= dims);
    let mut j: usize = 0;
    while j < measurement_types.len()
        invariant
            j <= measurement_types@.len(),
            meas == measurement_types@.map_values(|e: (String, SqlType)| clean_id_of(e.0@)),
            r@.map_values(|s: String| s@) =~= seq!["time"@] + dims + meas.subrange(0, j as int),
        decreases measurement_types@.len() - j,
    {
        let ghost before = r@;
        r.push(clean_id(measurement_types[j].0.as_str()));
        assert(r@.map_values(|s: String| s@) =~= before.map_values(|s: String| s@).push(meas[j as int]));
        assert(meas.subrange(0, j as int + 1) =~= meas.subrange(0, j as int).push(meas[j as int]));
        j = j + 1;
    }
    assert(meas.subrange(0, j as int) =~= meas);
    r
}

/// The statement `copy <table> (<names>) from stdin with binary`, the table being the
/// cleaned metric name.
pub fn copy_statement(metric: &str, names: &Vec<String>) -> (r: String)
    ensures
        r@ == copy_statement_of(metric@, names@.map_values(|s: String| s@)),
{
    let ghost ns = names@.map_values(|s: String| s@);
    let mut joined = String::new();
    let mut i: usize = 0;
    while i < names.len()
        invariant
            i <= names@.len(),
            ns == names@.map_values(|s: String| s@),
            joined@ == join_commas(ns.subrange(0, i as int)),
        decreases names@.len() - i,
    {
        assert(ns.subrange(0, i as int + 1).drop_last() =~= ns.subrange(0, i as int));
        if i > 0 {
            joined.append(",");
        }
        joined.append(names[i].as_str());
        i = i + 1;
    }
    assert(ns.subrange(0, i as int) =~= ns);
    let mut r = String::from_str("copy ");
    r.append(clean_id(metric).as_str());
    r.append(" (");
    r.append(joined.as_str());
    r.append(") from stdin with binary");
    r
}

/// In entries with unique names, the lookup of a name finds the one entry of that name.
pub proof fn lemma_lookup_in_map<V>(entries: Seq<(String, V)>, j: int)
    requires
        unique_names(entries),
        0 <= j < entries.len(),
    ensures
        last_index_of(entries, entries[j].0@) == Some(j),
    decreases entries.len(),
{
    if j < entries.len() - 1 {
        assert(entries[j].0@ != entries[entries.len() - 1].0@);
        let init = entries.drop_last();
        assert forall|a: int, b: int| 0 <= a < b < init.len() implies (#[trigger] init[a]).0@ != (#[trigger] init[b]).0@ by {
            assert(init[a] == entries[a]);
            assert(init[b] == entries[b]);
        }
        assert(init[j] == entries[j]);
        lemma_lookup_in_map(init, j);
    }
}

} // verus!
