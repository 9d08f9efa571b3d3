//! What a change in the watched folder means to the indexer.

use vstd::prelude::*;

use crate::indexer::extractors;
use crate::indexer::extractors::{is_supported_extension, SUPPORTED_EXTENSIONS};
use crate::messages::IndexerMessage;
use crate::text;

verus! {

/// What happened to a file.
#[derive(Debug, Clone, Copy, PartialEq, Eq, Structural)]
pub enum FileEvent {
    /// It was created, or has changed.
    Changed,
    /// It was reported gone.
    Removed,
    /// Anything else.
    Other,
}

/// What is on disk at a path.
#[derive(Debug, Clone, Copy, PartialEq, Eq, Structural)]
pub enum OnDisk {
    /// A file, with its modification time in seconds and its size.
    File { mtime: u64, size: u64 },
    /// Something that could not be looked at.
    Unreadable,
    /// Nothing.
    Gone,
}

/// Whether files with this extension are indexed.
pub open spec fn is_watched(extension: Seq<char>) -> bool {
    let lower = text::ascii_lowercase(extension);
    lower == "pdf"@ || lower == "txt"@ || lower == "md"@ || lower == "log"@
}

/// Whether files with this extension are indexed.
pub fn watches_extension(extension: &str) -> (r: bool)
    ensures
        r == is_watched(extension@),
{
    proof {
        reveal_strlit("pdf");
        reveal_strlit("txt");
        reveal_strlit("md");
        reveal_strlit("log");
        assert(text::ascii_lowercase("pdf"@) =~= "pdf"@);
        assert(text::ascii_lowercase("txt"@) =~= "txt"@);
        assert(text::ascii_lowercase("md"@) =~= "md"@);
        assert(text::ascii_lowercase("log"@) =~= "log"@);
    }
    let listed: [&str; 4] = SUPPORTED_EXTENSIONS;
    let r: bool = is_supported_extension(extension, listed.as_slice());
    proof {
        let names = listed@.map_values(|e: &str| e@);
        assert(names =~= seq!["pdf"@, "txt"@, "md"@, "log"@]);
        let lower = text::ascii_lowercase(extension@);
        if is_watched(extension@) {
            let i: int = if lower == "pdf"@ {
                0
            } else if lower == "txt"@ {
                1
            } else if lower == "md"@ {
                2
            } else {
                3
            };
            assert(lower == text::ascii_lowercase(names[i]));
        }
    }
    r
}

/// What a change means to the indexer. A file that is reported gone is deleted only
/// where it is: network shares report files as removed that are still there.
pub fn message_for(event: FileEvent, path: &str, extension: &str, on_disk: OnDisk) -> (r: Option<
    IndexerMessage,
>)
    ensures
        !is_watched(extension@) ==> r is None,
        is_watched(extension@) ==> match (event, on_disk) {
            (FileEvent::Changed, OnDisk::File { mtime, size }) => r matches Some(
                IndexerMessage::Upsert { path: p, mtime: m, size: s },
            ) && p@ == path@ && m == mtime && s == size,
            (FileEvent::Removed, OnDisk::Gone) => r matches Some(IndexerMessage::Delete { path: p })
                && p@ == path@,
            _ => r is None,
        },
{
    if !watches_extension(extension) {
        return None;
    }
    match (event, on_disk) {
        (FileEvent::Changed, OnDisk::File { mtime, size }) => Some(
            IndexerMessage::Upsert { path: text::copy_str(path), mtime: mtime, size: size },
        ),
        (FileEvent::Removed, OnDisk::Gone) => Some(
            IndexerMessage::Delete { path: text::copy_str(path) },
        ),
        _ => None,
    }
}

/// Files are watched by their extension, whatever the case of its letters: those of PDF
/// files and of plain text.
pub proof fn supported_files_are_watched(extension: Seq<char>)
    ensures
        is_watched(extension) <==> text::ascii_lowercase(extension) == "pdf"@
            || text::ascii_lowercase(extension) == "txt"@ || text::ascii_lowercase(extension)
            == "md"@ || text::ascii_lowercase(extension) == "log"@,
{
}

/// A change of a file that is watched is told with its path, time and size, and that it is
/// gone only where it is; of other files nothing is told.
pub proof fn changes_are_told_as_they_are(
    event: FileEvent,
    path: &str,
    extension: &str,
    on_disk: OnDisk,
    r: Option<IndexerMessage>,
)
    requires
        call_ensures(message_for, (event, path, extension, on_disk), r),
    ensures
        r is Some ==> is_watched(extension@),
        is_watched(extension@) && event is Changed && on_disk is File ==> (r matches Some(
            IndexerMessage::Upsert { path: p, mtime, size },
        ) && p@ == path@ && mtime == on_disk->mtime && size == on_disk->size),
        is_watched(extension@) && event is Removed && on_disk is Gone ==> (r matches Some(
            IndexerMessage::Delete { path: p },
        ) && p@ == path@),
        (r matches Some(m) && m is Delete) ==> on_disk is Gone && event is Removed,
        (r matches Some(m) && m is Upsert) ==> on_disk is File && event is Changed,
{
}

} // verus!
