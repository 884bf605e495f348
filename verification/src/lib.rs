//! Ingestion of fixed-format space-weather records into a relational table.
//!
//! The library turns text into the statements that a store is asked to run:
//! it splits a source into lines and a line into tokens, checks that a line
//! carries a year followed by one value for each of the 44 columns, and
//! builds the table definition, the conflict-ignoring insert and the
//! acknowledgement for each record. Performing the statements is left to the
//! caller.
pub mod text;
pub mod record;
pub mod schema;
pub mod sql;
pub mod ingest;
pub mod query;
pub mod source;
pub mod store;
