//! The records that producers hand to the sink.
use vstd::prelude::*;

verus! {

/// Column types of the database that the sink writes.
#[derive(Clone, Copy, Debug, PartialEq, Eq, Structural)]
pub enum SqlType {
    Timestamptz,
    Text,
    Int8,
    Bool,
    Int4,
    Float8,
    Float4,
    StatisticSet,
    Jsonb,
}

/// A label value of a datum.
pub enum DimensionValue {
    String(String),
    Number(i64),
    Boolean(bool),
}

/// A dimension as it arrives: its value may be absent.
pub struct Dimension {
    pub value: Option<DimensionValue>,
}

/// Summary of many samples; the three float fields hold the bit patterns of `f64` values.
#[derive(Clone, Copy, Debug, PartialEq, Eq, Structural)]
pub struct StatisticSet {
    pub minimum_bits: u64,
    pub maximum_bits: u64,
    pub samplesum_bits: u64,
    pub samplecount: u64,
}

/// Bucket boundary to count.
pub struct Histogram {
    pub buckets: Vec<(i64, u64)>,
}

/// An observed value; floats are held as their bit patterns.
pub enum MeasurementValue {
    I64(i64),
    I32(i32),
    F64(u64),
    F32(u32),
    StatisticSet(StatisticSet),
    Histogram(Histogram),
}

/// A measurement as it arrives: its value may be absent.
pub struct Measurement {
    pub value: Option<MeasurementValue>,
}

/// One observation of one metric at one instant.
pub struct Datum {
    pub metric: String,
    pub unix_nanos: u64,
    pub dimensions: Vec<(String, Dimension)>,
    pub measurements: Vec<(String, Measurement)>,
}

/// No two entries of `entries` share a name: the entries form a map from name to value.
pub open spec fn unique_names<V>(entries: Seq<(String, V)>) -> bool {
    forall|i: int, j: int| 0 <= i < j < entries.len() ==> (#[trigger] entries[i]).0@ != (#[trigger] entries[j]).0@
}

impl Datum {
    /// The datum's dimensions and its measurements are each a map: no name occurs twice.
    /// Lookups by name take the last entry of that name, which for a well-formed datum is the
    /// only one.
    pub open spec fn well_formed(&self) -> bool {
        unique_names(self.dimensions@) && unique_names(self.measurements@)
    }
}

} // verus!
