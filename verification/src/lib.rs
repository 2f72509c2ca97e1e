//! Schema builder for a SQL write/read/space amplification benchmark.
//!
//! The library parses compact textual descriptions of columns, primary keys
//! and secondary indexes into a structured schema, and renders that schema
//! into a CREATE TABLE statement with deterministic column naming.

pub mod cmd;
pub mod naming;
pub mod schema;
pub mod text;
