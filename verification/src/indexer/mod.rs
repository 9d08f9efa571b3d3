//! Indexing: reading files, hashing their content, and what a changed file means
//! for the store and the index.

pub mod extractors;
pub mod hash;
pub mod stages;
pub mod pipeline;
