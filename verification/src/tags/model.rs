//! The rows of the tables.

use vstd::prelude::*;

use crate::text;

verus! {

/// The text of an optional string.
pub open spec fn opt_text(o: Option<String>) -> Option<Seq<char>> {
    match o {
        Some(s) => Some(s@),
        None => None,
    }
}

/// A copy of an optional string.
pub fn copy_opt(o: &Option<String>) -> (r: Option<String>)
    ensures
        opt_text(r) == opt_text(*o),
{
    match o {
        Some(s) => Some(text::copy_str(s.as_str())),
        None => None,
    }
}

/// The string of an optional text.
pub fn own_opt(o: Option<&str>) -> (r: Option<String>)
    ensures
        opt_text(r) == opt_str(o),
{
    match o {
        Some(s) => Some(text::copy_str(s)),
        None => None,
    }
}

/// The text of an optional string slice.
pub open spec fn opt_str(o: Option<&str>) -> Option<Seq<char>> {
    match o {
        Some(s) => Some(s@),
        None => None,
    }
}

/// A row that can be copied and listed by a text of its own.
pub trait Row: Sized + View {
    /// The text that lists of such rows are ordered by.
    spec fn key_of(v: Self::V) -> Seq<char>;

    /// The text that lists of such rows are ordered by.
    fn key(&self) -> (k: &str)
        ensures
            k@ == Self::key_of(self@),
    ;

    /// A copy of the row.
    fn duplicate(&self) -> (r: Self)
        ensures
            r@ == self@,
    ;
}

/// What a list of rows holds.
pub open spec fn views<R: View>(rows: Seq<R>) -> Seq<R::V> {
    rows.map_values(|r: R| r@)
}

/// A tag with its database identifier.
#[derive(Debug, Clone, PartialEq, Eq)]
pub struct Tag {
    pub id: i64,
    pub name: String,
}

/// What a tag holds.
#[verifier::ext_equal]
pub struct TagModel {
    pub id: i64,
    pub name: Seq<char>,
}

impl View for Tag {
    type V = TagModel;

    open spec fn view(&self) -> TagModel {
        TagModel { id: self.id, name: self.name@ }
    }
}

impl Row for Tag {
    open spec fn key_of(v: TagModel) -> Seq<char> {
        v.name
    }

    fn key(&self) -> (k: &str) {
        self.name.as_str()
    }

    fn duplicate(&self) -> (r: Self) {
        Tag { id: self.id, name: text::copy_str(self.name.as_str()) }
    }
}

/// Association between a document (by content hash) and a tag.
#[derive(Debug, Clone, PartialEq, Eq)]
pub struct DocumentTag {
    pub content_hash: String,
    pub tag_id: i64,
}

/// What an association holds.
#[verifier::ext_equal]
pub struct LinkModel {
    pub hash: Seq<char>,
    pub tag_id: i64,
}

impl View for DocumentTag {
    type V = LinkModel;

    open spec fn view(&self) -> LinkModel {
        LinkModel { hash: self.content_hash@, tag_id: self.tag_id }
    }
}

impl Row for DocumentTag {
    open spec fn key_of(v: LinkModel) -> Seq<char> {
        v.hash
    }

    fn key(&self) -> (k: &str) {
        self.content_hash.as_str()
    }

    fn duplicate(&self) -> (r: Self) {
        DocumentTag { content_hash: text::copy_str(self.content_hash.as_str()), tag_id: self.tag_id }
    }
}

/// One indexed document.
#[derive(Debug, Clone, PartialEq, Eq)]
pub struct DocumentRow {
    pub content_hash: String,
    pub file_path: String,
    pub file_type: String,
    pub file_size: i64,
    pub modified_ts: i64,
    pub indexed_at: String,
    pub last_error: Option<String>,
}

/// What a document row holds.
#[verifier::ext_equal]
pub struct DocumentModel {
    pub hash: Seq<char>,
    pub path: Seq<char>,
    pub file_type: Seq<char>,
    pub size: i64,
    pub modified: i64,
    pub indexed_at: Seq<char>,
    pub last_error: Option<Seq<char>>,
}

impl View for DocumentRow {
    type V = DocumentModel;

    open spec fn view(&self) -> DocumentModel {
        DocumentModel {
            hash: self.content_hash@,
            path: self.file_path@,
            file_type: self.file_type@,
            size: self.file_size,
            modified: self.modified_ts,
            indexed_at: self.indexed_at@,
            last_error: opt_text(self.last_error),
        }
    }
}

impl Row for DocumentRow {
    open spec fn key_of(v: DocumentModel) -> Seq<char> {
        v.path
    }

    fn key(&self) -> (k: &str) {
        self.file_path.as_str()
    }

    fn duplicate(&self) -> (r: Self) {
        DocumentRow {
            content_hash: text::copy_str(self.content_hash.as_str()),
            file_path: text::copy_str(self.file_path.as_str()),
            file_type: text::copy_str(self.file_type.as_str()),
            file_size: self.file_size,
            modified_ts: self.modified_ts,
            indexed_at: text::copy_str(self.indexed_at.as_str()),
            last_error: copy_opt(&self.last_error),
        }
    }
}

/// Lightweight document info for the file browser panel.
#[derive(Debug, Clone, PartialEq, Eq)]
pub struct DocumentInfo {
    pub file_path: String,
    pub file_type: String,
    pub content_hash: String,
    pub file_size: u64,
    pub modified_ts: u64,
    /// True when the document has any tags (auto-tag or manually assigned).
    pub has_tags: bool,
}

/// What a browser entry holds.
#[verifier::ext_equal]
pub struct InfoModel {
    pub path: Seq<char>,
    pub file_type: Seq<char>,
    pub hash: Seq<char>,
    pub size: u64,
    pub modified: u64,
    pub has_tags: bool,
}

impl View for DocumentInfo {
    type V = InfoModel;

    open spec fn view(&self) -> InfoModel {
        InfoModel {
            path: self.file_path@,
            file_type: self.file_type@,
            hash: self.content_hash@,
            size: self.file_size,
            modified: self.modified_ts,
            has_tags: self.has_tags,
        }
    }
}

impl Row for DocumentInfo {
    open spec fn key_of(v: InfoModel) -> Seq<char> {
        v.path
    }

    fn key(&self) -> (k: &str) {
        self.file_path.as_str()
    }

    fn duplicate(&self) -> (r: Self) {
        DocumentInfo {
            file_path: text::copy_str(self.file_path.as_str()),
            file_type: text::copy_str(self.file_type.as_str()),
            content_hash: text::copy_str(self.content_hash.as_str()),
            file_size: self.file_size,
            modified_ts: self.modified_ts,
            has_tags: self.has_tags,
        }
    }
}

/// Auto-tagging status for a single document.
#[derive(Debug, Clone, PartialEq, Eq)]
pub struct AutoTagStatus {
    pub content_hash: String,
    pub filename: String,
    pub content_hash_before_tag: String,
    pub status: String,
    pub tags_json: Option<String>,
    pub attempts: i64,
    pub last_error: Option<String>,
    pub created_at: String,
    pub updated_at: String,
}

/// What a status row holds.
#[verifier::ext_equal]
pub struct StatusModel {
    pub hash: Seq<char>,
    pub filename: Seq<char>,
    pub hash_before: Seq<char>,
    pub status: Seq<char>,
    pub tags_json: Option<Seq<char>>,
    pub attempts: i64,
    pub last_error: Option<Seq<char>>,
    pub created_at: Seq<char>,
    pub updated_at: Seq<char>,
}

impl View for AutoTagStatus {
    type V = StatusModel;

    open spec fn view(&self) -> StatusModel {
        StatusModel {
            hash: self.content_hash@,
            filename: self.filename@,
            hash_before: self.content_hash_before_tag@,
            status: self.status@,
            tags_json: opt_text(self.tags_json),
            attempts: self.attempts,
            last_error: opt_text(self.last_error),
            created_at: self.created_at@,
            updated_at: self.updated_at@,
        }
    }
}

impl Row for AutoTagStatus {
    open spec fn key_of(v: StatusModel) -> Seq<char> {
        v.created_at
    }

    fn key(&self) -> (k: &str) {
        self.created_at.as_str()
    }

    fn duplicate(&self) -> (r: Self) {
        AutoTagStatus {
            content_hash: text::copy_str(self.content_hash.as_str()),
            filename: text::copy_str(self.filename.as_str()),
            content_hash_before_tag: text::copy_str(self.content_hash_before_tag.as_str()),
            status: text::copy_str(self.status.as_str()),
            tags_json: copy_opt(&self.tags_json),
            attempts: self.attempts,
            last_error: copy_opt(&self.last_error),
            created_at: text::copy_str(self.created_at.as_str()),
            updated_at: text::copy_str(self.updated_at.as_str()),
        }
    }
}

/// One row of the live auto-tag queue: a document still waiting
/// ('pending'), currently in flight ('processing'), or stuck ('failed').
#[derive(Debug, Clone, PartialEq, Eq)]
pub struct AutoTagQueueItem {
    pub content_hash: String,
    pub filename: String,
    pub status: String,
    /// UTC "YYYY-MM-DD HH:MM:SS" — used to show how long a file waited.
    pub created_at: String,
    /// Last provider error for failed rows (None otherwise).
    pub last_error: Option<String>,
}

/// What a queue item holds.
#[verifier::ext_equal]
pub struct QueueModel {
    pub hash: Seq<char>,
    pub filename: Seq<char>,
    pub status: Seq<char>,
    pub created_at: Seq<char>,
    pub last_error: Option<Seq<char>>,
}

impl View for AutoTagQueueItem {
    type V = QueueModel;

    open spec fn view(&self) -> QueueModel {
        QueueModel {
            hash: self.content_hash@,
            filename: self.filename@,
            status: self.status@,
            created_at: self.created_at@,
            last_error: opt_text(self.last_error),
        }
    }
}

/// One entry of the file-name token cache.
#[derive(Debug, Clone, PartialEq, Eq)]
pub struct CacheEntry {
    pub filename_tokens: String,
    pub tags_json: String,
    pub source_hash: String,
    pub hit_count: i64,
    pub created_at: String,
    pub updated_at: String,
}

/// What a cache entry holds.
#[verifier::ext_equal]
pub struct CacheModel {
    pub tokens: Seq<char>,
    pub tags_json: Seq<char>,
    pub source_hash: Seq<char>,
    pub hits: i64,
    pub created_at: Seq<char>,
    pub updated_at: Seq<char>,
}

impl View for CacheEntry {
    type V = CacheModel;

    open spec fn view(&self) -> CacheModel {
        CacheModel {
            tokens: self.filename_tokens@,
            tags_json: self.tags_json@,
            source_hash: self.source_hash@,
            hits: self.hit_count,
            created_at: self.created_at@,
            updated_at: self.updated_at@,
        }
    }
}

// ── What the rows hold ──

/// The views of some rows are one for each row, in order.
pub proof fn each_row_is_seen<R: View>(rows: Seq<R>)
    ensures
        views(rows).len() == rows.len(),
        forall|i: int| 0 <= i < rows.len() ==> #[trigger] views(rows)[i] == rows[i]@,
{
}

/// A row is seen as all that it holds, and texts that may be absent as they are.
pub proof fn rows_are_seen_whole(
    t: Tag,
    l: DocumentTag,
    d: DocumentRow,
    i: DocumentInfo,
    s: AutoTagStatus,
    q: AutoTagQueueItem,
    c: CacheEntry,
)
    ensures
        t@.id == t.id && t@.name == t.name@,
        l@.hash == l.content_hash@ && l@.tag_id == l.tag_id,
        d@.hash == d.content_hash@ && d@.path == d.file_path@ && d@.file_type == d.file_type@,
        d@.size == d.file_size && d@.modified == d.modified_ts && d@.indexed_at == d.indexed_at@,
        d@.last_error == opt_text(d.last_error),
        i@.path == i.file_path@ && i@.file_type == i.file_type@ && i@.hash == i.content_hash@,
        i@.size == i.file_size && i@.modified == i.modified_ts && i@.has_tags == i.has_tags,
        s@.hash == s.content_hash@ && s@.filename == s.filename@ && s@.status == s.status@,
        s@.hash_before == s.content_hash_before_tag@ && s@.tags_json == opt_text(s.tags_json),
        s@.last_error == opt_text(s.last_error) && s@.created_at == s.created_at@,
        s@.updated_at == s.updated_at@ && s@.attempts == s.attempts,
        q@.hash == q.content_hash@ && q@.filename == q.filename@ && q@.status == q.status@,
        q@.created_at == q.created_at@ && q@.last_error == opt_text(q.last_error),
        c@.tokens == c.filename_tokens@ && c@.tags_json == c.tags_json@,
        c@.source_hash == c.source_hash@ && c@.hits == c.hit_count,
        c@.created_at == c.created_at@ && c@.updated_at == c.updated_at@,
        opt_text(None) is None,
        forall|x: String| #[trigger] opt_text(Some(x)) == Some(x@),
        opt_str(None) is None,
        forall|x: &str| #[trigger] opt_str(Some(x)) == Some(x@),
{
}

/// Tags are listed by name, documents by path, and status rows by when they were made.
pub proof fn lists_are_ordered_by_these(t: TagModel, i: InfoModel, s: StatusModel)
    ensures
        Tag::key_of(t) == t.name,
        DocumentInfo::key_of(i) == i.path,
        AutoTagStatus::key_of(s) == s.created_at,
{
}

} // verus!
