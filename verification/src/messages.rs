//! What the threads of the application tell each other.

use vstd::prelude::*;

use crate::tags::model::DocumentInfo;

verus! {

/// How many messages of the watcher wait for the indexer before the watcher has to.
pub const WATCHER_QUEUE: usize = 256;

/// How many requests wait for the auto-tagger before one finds its queue full.
pub const TAGGER_QUEUE: usize = 256;

/// A request to the auto-tagger.
#[derive(Debug, Clone)]
pub enum AutoTagRequest {
    /// Tag one document.
    TagDocument {
        content_hash: String,
        filename: String,
        text: String,
        content_hash_before_tag: String,
    },
    /// Stop.
    Shutdown,
}

/// What the indexer tells the window.
#[derive(Debug, Clone)]
pub enum IndexerProgress {
    /// So many files have been indexed.
    Progress { processed: usize },
    /// The scan is complete, with so many files indexed.
    ScanComplete { total: usize },
    /// A file could not be indexed.
    Error { path: String, error: String },
    /// A fresh snapshot of the documents for the file browser.
    DocsSnapshot { docs: Vec<DocumentInfo> },
}

/// What the window tells the indexer of tags.
#[derive(Debug, Clone)]
pub enum TagUpdate {
    /// A document has these tags now.
    UpdateDocumentTags { content_hash: String, tags: Vec<String> },
}

/// What the watcher tells the indexer.
#[derive(Debug, Clone)]
pub enum IndexerMessage {
    /// A file was created or has changed.
    Upsert { path: String, mtime: u64, size: u64 },
    /// A file is gone.
    Delete { path: String },
}

} // verus!
