//! One metric's write: the COPY plan of a batch and its rows.
use vstd::prelude::*;
use crate::types::{SqlType, Datum};
use crate::type_conversion::{TypeConverter, lists_map, strictly_sorted, dimension_types, measurement_types, lemma_listing_unique, lemma_listing_names_unique, has_dimension, has_measurement, lemma_dimension_keys, lemma_measurement_keys};
use crate::copy_writer::{Cell, CellView, build_row, row_of, column_names_of, column_types_of, copy_statement_of, get_all_column_names, get_all_column_types, copy_statement};

verus! {

/// Everything a binary COPY of one metric's datums needs, computed before the COPY is opened.
pub struct BatchPlan {
    pub dimension_types: Vec<(String, SqlType)>,
    pub measurement_types: Vec<(String, SqlType)>,
    pub column_names: Vec<String>,
    pub column_types: Vec<SqlType>,
    pub statement: String,
}

impl BatchPlan {
    /// The plan lists the batch's dimension and measurement types in name order, and its
    /// columns, types and statement follow from those lists.
    pub open spec fn plans(&self, metric: Seq<char>, datums: Seq<Datum>) -> bool {
        &&& lists_map(self.dimension_types@, dimension_types(datums))
        &&& lists_map(self.measurement_types@, measurement_types(datums))
        &&& self.column_names@.map_values(|s: String| s@) == column_names_of(self.dimension_types@, self.measurement_types@)
        &&& self.column_types@ == column_types_of(self.dimension_types@, self.measurement_types@)
        &&& self.statement@ == copy_statement_of(metric, self.column_names@.map_values(|s: String| s@))
    }
}

/// Computes the column layout and the COPY statement of one metric's datums.
pub fn plan_batch(type_converter: &TypeConverter, metric: &str, datums: &[Datum]) -> (p: BatchPlan)
    ensures
        p.plans(metric@, datums@),
{
    let dimension_types = type_converter.get_dimension_type_map(datums);
    let measurement_types = type_converter.get_measurement_type_map(datums);
    let column_types = get_all_column_types(&dimension_types, &measurement_types);
    let column_names = get_all_column_names(&dimension_types, &measurement_types);
    let statement = copy_statement(metric, &column_names);
    BatchPlan { dimension_types, measurement_types, column_names, column_types, statement }
}

/// One row per datum, in the order of the datums, each with one cell per column of the plan.
pub fn build_rows(plan: &BatchPlan, datums: &[Datum]) -> (rows: Vec<Vec<Cell>>)
    ensures
        rows@.len() == datums@.len(),
        forall|i: int| 0 <= i < rows@.len() ==> (#[trigger] rows@[i])@.len() == 1 + plan.dimension_types@.len() + plan.measurement_types@.len(),
        forall|i: int| 0 <= i < rows@.len() ==> (#[trigger] rows@[i])@.map_values(|c: Cell| c@) == row_of(datums@[i], plan.dimension_types@, plan.measurement_types@),
{
    let mut rows: Vec<Vec<Cell>> = Vec::new();
    let mut i: usize = 0;
    while i < datums.len()
        invariant
            i <= datums@.len(),
            rows@.len() == i,
            forall|j: int| 0 <= j < i ==> (#[trigger] rows@[j])@.len() == 1 + plan.dimension_types@.len() + plan.measurement_types@.len(),
            forall|j: int| 0 <= j < i ==> (#[trigger] rows@[j])@.map_values(|c: Cell| c@) == row_of(datums@[j], plan.dimension_types@, plan.measurement_types@),
        decreases datums@.len() - i,
    {
        let row = build_row(&datums[i], &plan.dimension_types, &plan.measurement_types);
        rows.push(row);
        i = i + 1;
    }
    rows
}

/// Column order does not depend on the run: any two plans of the same datums have their
/// dimension and measurement names strictly ascending, and the same column names, column
/// types and COPY statement.
pub proof fn lemma_plan_deterministic(metric: Seq<char>, datums: Seq<Datum>, p1: BatchPlan, p2: BatchPlan)
    requires
        p1.plans(metric, datums),
        p2.plans(metric, datums),
    ensures
        strictly_sorted(p1.dimension_types@),
        strictly_sorted(p1.measurement_types@),
        p1.column_names@.map_values(|s: String| s@) == p2.column_names@.map_values(|s: String| s@),
        p1.column_types@ == p2.column_types@,
        p1.statement@ == p2.statement@,
{
    lemma_listing_unique(p1.dimension_types@, p2.dimension_types@, dimension_types(datums));
    lemma_listing_unique(p1.measurement_types@, p2.measurement_types@, measurement_types(datums));
    let d1 = p1.dimension_types@;
    let d2 = p2.dimension_types@;
    let m1 = p1.measurement_types@;
    let m2 = p2.measurement_types@;
    assert(d1.map_values(|e: (String, SqlType)| crate::ident::clean_id_of(e.0@)) =~= d2.map_values(|e: (String, SqlType)| crate::ident::clean_id_of(e.0@)));
    assert(m1.map_values(|e: (String, SqlType)| crate::ident::clean_id_of(e.0@)) =~= m2.map_values(|e: (String, SqlType)| crate::ident::clean_id_of(e.0@)));
    assert(d1.map_values(|e: (String, SqlType)| e.1) =~= d2.map_values(|e: (String, SqlType)| e.1));
    assert(m1.map_values(|e: (String, SqlType)| e.1) =~= m2.map_values(|e: (String, SqlType)| e.1));
    assert(column_names_of(d1, m1) == column_names_of(d2, m2));
    assert(column_types_of(d1, m1) == column_types_of(d2, m2));
}

/// Every row of a batch has exactly as many cells as the plan has columns.
pub proof fn lemma_row_arity(d: Datum, p: BatchPlan, metric: Seq<char>, datums: Seq<Datum>)
    requires
        p.plans(metric, datums),
    ensures
        row_of(d, p.dimension_types@, p.measurement_types@).len() == p.column_types@.len(),
        row_of(d, p.dimension_types@, p.measurement_types@).len() == p.column_names@.len(),
{
    assert(p.column_names@.map_values(|s: String| s@).len() == p.column_names@.len());
}

/// The COPY statement depends only on the metric and on which dimension and measurement
/// names carry a value somewhere in the batch: two batches with the same such names, in any
/// order and spread over the datums in any way, give the same column names and statement.
pub proof fn lemma_statement_depends_on_names(metric: Seq<char>, d1: Seq<Datum>, d2: Seq<Datum>, p1: BatchPlan, p2: BatchPlan)
    requires
        p1.plans(metric, d1),
        p2.plans(metric, d2),
        forall|k: Seq<char>| #[trigger] has_dimension(d1, k) == has_dimension(d2, k),
        forall|k: Seq<char>| #[trigger] has_measurement(d1, k) == has_measurement(d2, k),
    ensures
        p1.column_names@.map_values(|s: String| s@) == p2.column_names@.map_values(|s: String| s@),
        p1.statement@ == p2.statement@,
{
    assert forall|k: Seq<char>| dimension_types(d1).dom().contains(k) == dimension_types(d2).dom().contains(k) by {
        lemma_dimension_keys(d1, k);
        lemma_dimension_keys(d2, k);
        assert(has_dimension(d1, k) == has_dimension(d2, k));
    }
    assert forall|k: Seq<char>| measurement_types(d1).dom().contains(k) == measurement_types(d2).dom().contains(k) by {
        lemma_measurement_keys(d1, k);
        lemma_measurement_keys(d2, k);
        assert(has_measurement(d1, k) == has_measurement(d2, k));
    }
    assert(dimension_types(d1).dom() =~= dimension_types(d2).dom());
    assert(measurement_types(d1).dom() =~= measurement_types(d2).dom());
    lemma_listing_names_unique(p1.dimension_types@, p2.dimension_types@, dimension_types(d1), dimension_types(d2));
    lemma_listing_names_unique(p1.measurement_types@, p2.measurement_types@, measurement_types(d1), measurement_types(d2));
    let a1 = p1.dimension_types@;
    let a2 = p2.dimension_types@;
    let b1 = p1.measurement_types@;
    let b2 = p2.measurement_types@;
    assert(a1.map_values(|e: (String, SqlType)| crate::ident::clean_id_of(e.0@)) =~= a2.map_values(|e: (String, SqlType)| crate::ident::clean_id_of(e.0@)));
    assert(b1.map_values(|e: (String, SqlType)| crate::ident::clean_id_of(e.0@)) =~= b2.map_values(|e: (String, SqlType)| crate::ident::clean_id_of(e.0@)));
    assert(column_names_of(a1, b1) == column_names_of(a2, b2));
}

} // verus!
