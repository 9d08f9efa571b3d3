//! Tags, documents and the auto-tag queue: the rows and the tables they stand in.

pub mod model;
pub mod store;
pub mod tag_json;
