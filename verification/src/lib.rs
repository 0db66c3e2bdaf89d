//! A minimal in-memory tabular-data engine: typed cells and columns, tables
//! with schema invariants, schema-inferring CSV ingestion, the relational
//! operators `union_all` and `join`, and a fixed-width text renderer.

pub mod cell;
pub mod ingest;
pub mod join;
pub mod render;
pub mod table;
pub mod text;
