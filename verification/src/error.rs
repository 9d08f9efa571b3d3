//! What can go wrong.

use vstd::prelude::*;

use crate::text;

verus! {

/// An error of the application, with what the failing part said of it.
#[derive(Debug, Clone)]
pub enum PapervaultError {
    Io(String),
    Tantivy(String),
    Sqlite(String),
    PdfExtraction(String),
    Config(String),
    Watcher(String),
    Channel(String),
}

impl PapervaultError {
    /// What an error is told as.
    pub open spec fn told(self) -> Seq<char> {
        match self {
            PapervaultError::Io(detail) => "I/O error: "@ + detail@,
            PapervaultError::Tantivy(detail) => "Tantivy error: "@ + detail@,
            PapervaultError::Sqlite(detail) => "SQLite error: "@ + detail@,
            PapervaultError::PdfExtraction(detail) => "PDF extraction error: "@ + detail@,
            PapervaultError::Config(detail) => "Config error: "@ + detail@,
            PapervaultError::Watcher(detail) => "Watcher error: "@ + detail@,
            PapervaultError::Channel(detail) => "Channel error: "@ + detail@,
        }
    }

    /// What an error is told as: which part failed, and what it said.
    pub fn message(&self) -> (r: String)
        ensures
            r@ == self.told(),
    {
        match self {
            PapervaultError::Io(detail) => text::concat("I/O error: ", detail.as_str()),
            PapervaultError::Tantivy(detail) => text::concat("Tantivy error: ", detail.as_str()),
            PapervaultError::Sqlite(detail) => text::concat("SQLite error: ", detail.as_str()),
            PapervaultError::PdfExtraction(detail) => text::concat(
                "PDF extraction error: ",
                detail.as_str(),
            ),
            PapervaultError::Config(detail) => text::concat("Config error: ", detail.as_str()),
            PapervaultError::Watcher(detail) => text::concat("Watcher error: ", detail.as_str()),
            PapervaultError::Channel(detail) => text::concat("Channel error: ", detail.as_str()),
        }
    }
}

/// An error is told as which part failed, and what it said.
pub proof fn errors_are_told_whole(detail: String)
    ensures
        PapervaultError::Io(detail).told() == "I/O error: "@ + detail@,
        PapervaultError::Tantivy(detail).told() == "Tantivy error: "@ + detail@,
        PapervaultError::Sqlite(detail).told() == "SQLite error: "@ + detail@,
        PapervaultError::PdfExtraction(detail).told() == "PDF extraction error: "@ + detail@,
        PapervaultError::Config(detail).told() == "Config error: "@ + detail@,
        PapervaultError::Watcher(detail).told() == "Watcher error: "@ + detail@,
        PapervaultError::Channel(detail).told() == "Channel error: "@ + detail@,
{
}

} // verus!
