//! Searching: requests, results, the index schema and the index itself.

pub mod engine;
pub mod query;
pub mod schema;
