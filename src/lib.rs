//! Ingestion sink of a metrics service: groups batches of datums by metric, lays out each
//! metric's columns in name order, builds binary COPY rows, classifies database errors and
//! decides the schema changes (create table, add column) that let a failed write be retried.

pub mod types;
pub mod ident;
pub mod order;
pub mod type_conversion;
pub mod copy_writer;
pub mod errors;
pub mod recovery;
pub mod grouping;
pub mod sink;
pub mod schema;
