//! Verified core of a bulk loader for repository metadata.
//!
//! The library normalizes raw repository records (sanitizing text fields and
//! clamping language sizes), deduplicates records by identity key, extracts
//! the distinct child entities (owners, languages), partitions values into
//! size-bounded insert batches, resolves natural keys back to assigned
//! identifiers, and builds the rows and SQL value lists for the dependent
//! inserts. All I/O (reading the dataset, talking to the database) lives
//! outside this crate; the functions here take and return plain values.

pub mod batch;
pub mod dedup;
pub mod entities;
pub mod model;
pub mod render;
pub mod resolve;
pub mod rows;
pub mod sanitize;
