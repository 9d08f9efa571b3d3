//! The indexing pipeline: what a changed, new or deleted file means for the
//! store and for the index.

use vstd::prelude::*;

use crate::auto_tagger::breaker::BreakerModel;
use crate::auto_tagger::provider::TagResponse;
use crate::auto_tagger::worker;
use crate::indexer::hash;
use crate::indexer::hash::compute_content_hash;
use crate::messages::{AutoTagRequest, IndexerProgress};
use crate::tags::model;
use crate::tags::model::Tag;
use crate::tags::store;
use crate::tags::store::{BatchDocumentUpsert, StoreError, TagStore};
use crate::text;

verus! {

/// What stands for the text of a document that could not be extracted.
pub const NO_TEXT: &'static str =
    "[Document text could not be extracted. Use filename to determine topic.]";

/// What stands for the text of a document in the hash of a request to tag it with
/// all others.
pub const REINDEX_MARK: &'static str = "reindex";

/// A file that was found or has changed.
#[derive(Debug, Clone)]
pub struct FileFacts {
    pub path: String,
    pub file_name: String,
    /// The extension as it is written; empty where there is none.
    pub extension: String,
    pub mtime: u64,
    pub size: u64,
}

/// What a file is known by.
#[verifier::ext_equal]
pub struct FactsModel {
    pub path: Seq<char>,
    pub file_name: Seq<char>,
    pub extension: Seq<char>,
    pub mtime: u64,
    pub size: u64,
}

impl View for FileFacts {
    type V = FactsModel;

    open spec fn view(&self) -> FactsModel {
        FactsModel {
            path: self.path@,
            file_name: self.file_name@,
            extension: self.extension@,
            mtime: self.mtime,
            size: self.size,
        }
    }
}

impl FactsModel {
    /// The type of the file: its extension in lower case.
    pub open spec fn file_type(self) -> Seq<char> {
        text::lowercase(self.extension)
    }

    /// The content hash of the file where this is its text.
    pub open spec fn content_hash(self, body: Seq<char>) -> Seq<char> {
        hash::content_hash(body, self.file_type())
    }

    /// The hash that a request to tag the file carries.
    pub open spec fn hash_before_tag(self, body: Seq<char>) -> Seq<char> {
        hash::content_hash(self.file_name, body)
    }

    /// The row of the file where this is its text.
    pub open spec fn row(self, body: Seq<char>, now: Seq<char>) -> model::DocumentModel {
        store::document_model(
            self.content_hash(body),
            self.path,
            self.file_type(),
            self.size as i64,
            self.mtime as i64,
            now,
        )
    }
}

/// What goes into the index for one document.
#[derive(Debug, Clone)]
pub struct IndexDocument {
    pub doc_id: String,
    pub file_path: String,
    pub file_name: String,
    pub body: String,
    pub file_type: String,
    pub modified_ts: i64,
    pub content_hash: String,
    pub tags: Vec<String>,
}

/// What is to be done for one file: the document that leaves the index, the one
/// that enters it, and what tagging needs to know.
#[derive(Debug, Clone)]
pub struct PlannedDocument {
    /// The content hash that the file had before its content changed.
    pub delete_hash: Option<String>,
    pub document: IndexDocument,
    pub file_size: i64,
    pub content_hash_before_tag: String,
    pub already_tagged: bool,
}

// ── Models ──

/// The content hash of the document that the store has at a path; of the first,
/// where it has several.
pub open spec fn hash_at_path(m: store::StoreModel, path: Seq<char>) -> Option<Seq<char>> {
    if exists|i: int| #[trigger] m.is_first_at_path(path, i) {
        Some(m.documents[choose|i: int| #[trigger] m.is_first_at_path(path, i)].hash)
    } else {
        None
    }
}

/// The content hash that the file at a path had, where it is another now.
pub open spec fn stale_hash(m: store::StoreModel, path: Seq<char>, new: Seq<char>) -> Option<
    Seq<char>,
> {
    match hash_at_path(m, path) {
        Some(h) => if h != new {
            Some(h)
        } else {
            None
        },
        None => None,
    }
}

/// The text that is indexed of a file.
pub open spec fn body_of(extracted: Option<Seq<char>>) -> Seq<char> {
    match extracted {
        Some(t) => t,
        None => NO_TEXT@,
    }
}

/// Whether a status row says that this text was tagged, and holds its tags. What
/// counts is the content: the hash that the row carries is that of the text
/// alone, or that of the text under the name that the row or the file has, or it
/// says that the document was tagged with all others.
pub open spec fn row_tags_content(
    s: model::StatusModel,
    file_name: Seq<char>,
    body: Seq<char>,
) -> bool {
    &&& s.status == "tagged"@
    &&& s.tags_json is Some
    &&& s.hash_before == hash::content_hash(body, ""@) || s.hash_before == hash::content_hash(
        s.filename,
        body,
    ) || s.hash_before == hash::content_hash(file_name, body) || s.hash_before
        == hash::content_hash(s.filename, REINDEX_MARK@)
}

/// Whether the content with this hash is tagged, and its tags are stored.
pub open spec fn is_already_tagged(
    m: store::StoreModel,
    content_hash: Seq<char>,
    file_name: Seq<char>,
    body: Seq<char>,
) -> bool {
    match m.status_of(content_hash) {
        Some(s) => row_tags_content(s, file_name, body),
        None => false,
    }
}

/// The names are those of the tags of a document, in order.
pub open spec fn are_tag_names(
    m: store::StoreModel,
    content_hash: Seq<char>,
    names: Seq<Seq<char>>,
) -> bool {
    exists|tags: Seq<model::TagModel>| #[trigger]
        store::is_sorted_by_key::<Tag>(m.tags_of(content_hash), tags) && names == tags.map_values(
            |t: model::TagModel| t.name,
        )
}

/// A document is what goes into the index for a file with this text, with the
/// tags that the store has for it.
pub open spec fn is_index_document(
    m: store::StoreModel,
    facts: FactsModel,
    body: Seq<char>,
    d: IndexDocument,
) -> bool {
    &&& d.doc_id@ == facts.content_hash(body) + facts.file_type()
    &&& d.file_path@ == facts.path
    &&& d.file_name@ == facts.file_name
    &&& d.body@ == body
    &&& d.file_type@ == facts.file_type()
    &&& d.modified_ts == facts.mtime as i64
    &&& d.content_hash@ == facts.content_hash(body)
    &&& are_tag_names(m, facts.content_hash(body), text::texts(d.tags@))
}

/// A request asks for the tags of this document.
pub open spec fn is_tag_request(
    r: AutoTagRequest,
    content_hash: Seq<char>,
    file_name: Seq<char>,
    body: Seq<char>,
    hash_before: Seq<char>,
) -> bool {
    r matches AutoTagRequest::TagDocument {
        content_hash: h,
        filename: f,
        text: t,
        content_hash_before_tag: b,
    } && h@ == content_hash && f@ == file_name && t@ == body && b@ == hash_before
}

/// The store once the document that the file was before is gone, where its
/// content has changed.
pub open spec fn cleared(m: store::StoreModel, facts: FactsModel, body: Seq<char>) -> store::StoreModel {
    if stale_hash(m, facts.path, facts.content_hash(body)) is Some {
        m.without_path(facts.path)
    } else {
        m
    }
}

/// The store once a file with this text stands in it.
pub open spec fn upserted(
    m: store::StoreModel,
    facts: FactsModel,
    body: Seq<char>,
    now: Seq<char>,
) -> store::StoreModel {
    cleared(m, facts, body).with_document(facts.row(body, now))
}

/// A plan is that for a file with this text: what leaves the index is told by the
/// store before the file is written, the tags by the store `tagged_in`.
pub open spec fn is_plan(
    m: store::StoreModel,
    tagged_in: store::StoreModel,
    facts: FactsModel,
    body: Seq<char>,
    plan: PlannedDocument,
) -> bool {
    &&& model::opt_text(plan.delete_hash) == stale_hash(m, facts.path, facts.content_hash(body))
    &&& is_index_document(tagged_in, facts, body, plan.document)
    &&& plan.file_size == facts.size as i64
    &&& plan.content_hash_before_tag@ == facts.hash_before_tag(body)
}

// ── One file ──

/// Two first places at a path are the same.
proof fn lemma_first_at_path(m: store::StoreModel, path: Seq<char>, i: int)
    requires
        m.is_first_at_path(path, i),
    ensures
        hash_at_path(m, path) == Some(m.documents[i].hash),
{
    let j = choose|j: int| #[trigger] m.is_first_at_path(path, j);
    assert(m.is_first_at_path(path, j));
    if i < j {
        assert(m.documents[i].path != path);
    }
    if j < i {
        assert(m.documents[j].path != path);
    }
}

/// The content hash that the file at a path had, where it is another now.
fn find_stale_hash(tags: &TagStore, path: &str, new: &str) -> (r: Option<String>)
    ensures
        model::opt_text(r) == stale_hash(tags@, path@, new@),
{
    match tags.get_hash_by_path(path) {
        Ok(Some(h)) => {
            proof {
                let i = choose|i: int| #[trigger]
                    tags@.is_first_at_path(path@, i) && h@ == tags@.documents[i].hash;
                lemma_first_at_path(tags@, path@, i);
            }
            if text::same_text(h.as_str(), new) {
                None
            } else {
                Some(h)
            }
        },
        _ => None,
    }
}

/// True when the exact same content was already tagged and the tags are
/// still stored. Re-indexing such a file must not wipe its status row or
/// ask for its tags again: that would lose tags for no benefit.
pub fn already_tagged(tags: &TagStore, content_hash: &str, file_name: &str, body: &str) -> (r: bool)
    requires
        tags.wf(),
    ensures
        r == is_already_tagged(tags@, content_hash@, file_name@, body@),
{
    match tags.auto_tag_status(content_hash) {
        Ok(Some(status)) => {
            if !text::same_text(status.status.as_str(), "tagged") || status.tags_json.is_none() {
                return false;
            }
            let of_content: String = compute_content_hash(body, "");
            let of_row: String = compute_content_hash(status.filename.as_str(), body);
            let of_file: String = compute_content_hash(file_name, body);
            let of_all: String = compute_content_hash(status.filename.as_str(), REINDEX_MARK);
            let before: &str = status.content_hash_before_tag.as_str();
            text::same_text(before, of_content.as_str()) || text::same_text(before, of_row.as_str())
                || text::same_text(before, of_file.as_str()) || text::same_text(
                before,
                of_all.as_str(),
            )
        },
        _ => false,
    }
}

/// The names of the tags of a document.
pub(crate) fn tag_names(tags: &TagStore, content_hash: &str) -> (r: Vec<String>)
    ensures
        are_tag_names(tags@, content_hash@, text::texts(r@)),
{
    let found: Vec<Tag> = match tags.get_tags_for_document(content_hash) {
        Ok(found) => found,
        Err(_) => Vec::new(),
    };
    let mut names: Vec<String> = Vec::new();
    let mut i: usize = 0;
    while i < found.len()
        invariant
            i <= found@.len(),
            names@.len() == i,
            forall|k: int| 0 <= k < i ==> (#[trigger] names@[k])@ == found@[k].name@,
        decreases found@.len() - i,
    {
        names.push(text::copy_str(found[i].name.as_str()));
        i = i + 1;
    }
    assert(text::texts(names@) =~= model::views(found@).map_values(|t: model::TagModel| t.name));
    names
}

/// What goes into the index for a file with this text.
fn index_document(tags: &TagStore, facts: &FileFacts, body: &str) -> (r: IndexDocument)
    ensures
        is_index_document(tags@, facts@, body@, r),
{
    let file_type: String = text::to_lowercase(facts.extension.as_str());
    let content_hash: String = compute_content_hash(body, file_type.as_str());
    IndexDocument {
        doc_id: text::concat(content_hash.as_str(), file_type.as_str()),
        file_path: text::copy_str(facts.path.as_str()),
        file_name: text::copy_str(facts.file_name.as_str()),
        body: text::copy_str(body),
        modified_ts: #[verifier::truncate] (facts.mtime as i64),
        tags: tag_names(tags, content_hash.as_str()),
        file_type: file_type,
        content_hash: content_hash,
    }
}

/// A request for the tags of a document.
pub(crate) fn tag_request(content_hash: &str, file_name: &str, body: &str, hash_before: &str) -> (r:
    AutoTagRequest)
    ensures
        is_tag_request(r, content_hash@, file_name@, body@, hash_before@),
{
    AutoTagRequest::TagDocument {
        content_hash: text::copy_str(content_hash),
        filename: text::copy_str(file_name),
        text: text::copy_str(body),
        content_hash_before_tag: text::copy_str(hash_before),
    }
}

/// Whether a file has to be read: nothing stands at its path with its size and
/// modification time.
pub fn needs_indexing(tags: &TagStore, facts: &FileFacts) -> (r: bool)
    ensures
        r == !tags@.is_indexed_as(facts.path@, facts.size as i64, facts.mtime as i64),
{
    match tags.already_indexed_by_metadata(facts.path.as_str(), facts.size, facts.mtime) {
        Ok(indexed) => !indexed,
        Err(_) => true,
    }
}

/// Write a file whose text was extracted, or could not be, to the store at `now`,
/// and say what is to be done in the index. Where the content of the file has
/// changed, the document that it was before goes.
pub fn prepare_upsert(tags: &mut TagStore, facts: &FileFacts, extracted: Option<&str>, now: &str) -> (r:
    PlannedDocument)
    requires
        old(tags).wf(),
    ensures
        final(tags).wf(),
        final(tags)@ == upserted(old(tags)@, facts@, body_of(model::opt_str(extracted)), now@),
        is_plan(
            old(tags)@,
            cleared(old(tags)@, facts@, body_of(model::opt_str(extracted))),
            facts@,
            body_of(model::opt_str(extracted)),
            r,
        ),
        r.already_tagged == is_already_tagged(
            final(tags)@,
            facts@.content_hash(body_of(model::opt_str(extracted))),
            facts@.file_name,
            body_of(model::opt_str(extracted)),
        ),
{
    let body: &str = match extracted {
        Some(t) => t,
        None => NO_TEXT,
    };
    let file_type: String = text::to_lowercase(facts.extension.as_str());
    let content_hash: String = compute_content_hash(body, file_type.as_str());
    let stale: Option<String> = find_stale_hash(tags, facts.path.as_str(), content_hash.as_str());
    if stale.is_some() {
        let _r: Result<(), StoreError> = tags.delete_document_by_path(facts.path.as_str());
    }
    let document: IndexDocument = index_document(tags, facts, body);
    let size: i64 = #[verifier::truncate] (facts.size as i64);
    let modified: i64 = #[verifier::truncate] (facts.mtime as i64);
    tags.upsert_document_at(
        content_hash.as_str(),
        facts.path.as_str(),
        file_type.as_str(),
        size,
        modified,
        now,
    );
    PlannedDocument {
        delete_hash: stale,
        document: document,
        file_size: size,
        content_hash_before_tag: compute_content_hash(facts.file_name.as_str(), body),
        already_tagged: already_tagged(
            tags,
            content_hash.as_str(),
            facts.file_name.as_str(),
            body,
        ),
    }
}

/// Once a document stands in the index: write at `now` that it waits to be tagged
/// and ask for its tags, unless its content is tagged already.
pub fn finish_upsert(tags: &mut TagStore, plan: &PlannedDocument, now: &str) -> (r: Option<
    AutoTagRequest,
>)
    requires
        old(tags).wf(),
    ensures
        final(tags).wf(),
        is_already_tagged(
            old(tags)@,
            plan.document.content_hash@,
            plan.document.file_name@,
            plan.document.body@,
        ) ==> r is None && final(tags)@ == old(tags)@,
        !is_already_tagged(
            old(tags)@,
            plan.document.content_hash@,
            plan.document.file_name@,
            plan.document.body@,
        ) ==> {
            &&& r is Some
            &&& is_tag_request(
                r->0,
                plan.document.content_hash@,
                plan.document.file_name@,
                plan.document.body@,
                plan.content_hash_before_tag@,
            )
            &&& final(tags)@ == if old(tags)@.has_document(plan.document.content_hash@) {
                old(tags)@.with_status(
                    store::status_model(
                        plan.document.content_hash@,
                        plan.document.file_name@,
                        plan.content_hash_before_tag@,
                        "pending"@,
                        None,
                        None,
                        now@,
                    ),
                )
            } else {
                old(tags)@
            }
        },
{
    let d: &IndexDocument = &plan.document;
    if already_tagged(tags, d.content_hash.as_str(), d.file_name.as_str(), d.body.as_str()) {
        return None;
    }
    let _r: Result<(), StoreError> = tags.upsert_auto_tag_status_at(
        d.content_hash.as_str(),
        d.file_name.as_str(),
        plan.content_hash_before_tag.as_str(),
        "pending",
        None,
        None,
        now,
    );
    Some(
        tag_request(
            d.content_hash.as_str(),
            d.file_name.as_str(),
            d.body.as_str(),
            plan.content_hash_before_tag.as_str(),
        ),
    )
}

/// What is to be removed from the index for a file that was reported deleted: the
/// content hash of the document at its path, unless the file is still there.
/// Deleting the row takes its tags along, and a file that still exists would be
/// tagged anew for nothing.
pub fn plan_delete(tags: &TagStore, path: &str, file_exists: bool) -> (r: Option<String>)
    ensures
        model::opt_text(r) == if file_exists {
            None
        } else {
            hash_at_path(tags@, path@)
        },
{
    if file_exists {
        return None;
    }
    match tags.get_hash_by_path(path) {
        Ok(Some(h)) => {
            proof {
                let i = choose|i: int| #[trigger]
                    tags@.is_first_at_path(path@, i) && h@ == tags@.documents[i].hash;
                lemma_first_at_path(tags@, path@, i);
            }
            Some(h)
        },
        _ => None,
    }
}

// ── Several files at once ──

/// What is to be done for a batch of files.
#[derive(Debug, Clone)]
pub struct BatchPlan {
    /// The files whose text was extracted.
    pub documents: Vec<PlannedDocument>,
    /// Requests to tag the others by their names.
    pub failed: Vec<AutoTagRequest>,
}

/// The places of the files whose text was extracted, or was not, in order.
pub open spec fn places(extracted: Seq<Option<String>>, read: bool) -> Seq<int>
    decreases extracted.len(),
{
    if extracted.len() == 0 {
        Seq::empty()
    } else {
        let before = places(extracted.drop_last(), read);
        if extracted.last().is_some() == read {
            before.push(extracted.len() - 1)
        } else {
            before
        }
    }
}

/// A request asks for the tags of a file whose text could not be extracted.
pub open spec fn is_name_request(r: AutoTagRequest, file_name: Seq<char>) -> bool {
    is_tag_request(
        r,
        "batch_failed_"@ + file_name,
        file_name,
        NO_TEXT@,
        hash::content_hash(file_name, "[no text]"@),
    )
}

/// A plan is that for these files: each that was read is planned on its own
/// against the store as it is, and each that was not is asked for by name.
pub open spec fn is_batch_plan(
    m: store::StoreModel,
    files: Seq<FileFacts>,
    extracted: Seq<Option<String>>,
    plan: BatchPlan,
) -> bool {
    let read = places(extracted, true);
    let unread = places(extracted, false);
    &&& plan.documents@.len() == read.len()
    &&& forall|k: int|
        0 <= k < read.len() ==> {
            let facts = files[read[k]]@;
            let body = extracted[read[k]]->0@;
            &&& is_plan(m, m, facts, body, #[trigger] plan.documents@[k])
            &&& plan.documents@[k].already_tagged == is_already_tagged(
                m,
                facts.content_hash(body),
                facts.file_name,
                body,
            )
        }
    &&& plan.failed@.len() == unread.len()
    &&& forall|k: int|
        0 <= k < unread.len() ==> is_name_request(
            #[trigger] plan.failed@[k],
            files[unread[k]].file_name@,
        )
}

/// The item that a planned document is written as.
pub open spec fn batch_item(plan: PlannedDocument) -> store::BatchModel {
    store::BatchModel {
        hash: plan.document.content_hash@,
        path: plan.document.file_path@,
        file_type: plan.document.file_type@,
        size: plan.file_size,
        modified: plan.document.modified_ts,
        old_hash: model::opt_text(plan.delete_hash),
        filename: plan.document.file_name@,
        hash_before: plan.content_hash_before_tag@,
        skip_status: plan.already_tagged,
    }
}

/// The items that planned documents are written as.
pub open spec fn batch_items(plans: Seq<PlannedDocument>) -> Seq<store::BatchModel> {
    plans.map_values(|p: PlannedDocument| batch_item(p))
}

/// The places are places of the sequence, and say what they should.
proof fn lemma_places(extracted: Seq<Option<String>>, read: bool)
    ensures
        forall|k: int|
            0 <= k < places(extracted, read).len() ==> 0 <= #[trigger] places(extracted, read)[k]
                < extracted.len() && extracted[places(extracted, read)[k]].is_some() == read,
    decreases extracted.len(),
{
    if extracted.len() > 0 {
        lemma_places(extracted.drop_last(), read);
        let before = places(extracted.drop_last(), read);
        assert forall|k: int| 0 <= k < places(extracted, read).len() implies 0
            <= #[trigger] places(extracted, read)[k] < extracted.len()
            && extracted[places(extracted, read)[k]].is_some() == read by {
            if k < before.len() {
                assert(places(extracted, read)[k] == before[k]);
                assert(extracted.drop_last()[before[k]] == extracted[before[k]]);
            }
        }
    }
}

/// Plan a batch of files: which were read, and with what text, is told by
/// `extracted`.
pub fn plan_batch(tags: &TagStore, files: &[FileFacts], extracted: &[Option<String>]) -> (r:
    BatchPlan)
    requires
        tags.wf(),
        files@.len() == extracted@.len(),
    ensures
        is_batch_plan(tags@, files@, extracted@, r),
{
    let mut plan = BatchPlan { documents: Vec::new(), failed: Vec::new() };
    let mut i: usize = 0;
    while i < files.len()
        invariant
            tags.wf(),
            i <= files@.len(),
            files@.len() == extracted@.len(),
            is_batch_plan(tags@, files@, extracted@.take(i as int), plan),
        decreases files@.len() - i,
    {
        let facts: &FileFacts = &files[i];
        let ghost seen = extracted@.take(i as int);
        let ghost seen_now = extracted@.take(i + 1);
        let ghost before = plan;
        proof {
            assert(seen_now.drop_last() =~= seen);
            assert(seen_now.last() == extracted@[i as int]);
            lemma_places(seen, true);
            lemma_places(seen, false);
        }
        match &extracted[i] {
            Some(body) => {
                let document: IndexDocument = index_document(tags, facts, body.as_str());
                let planned = PlannedDocument {
                    delete_hash: find_stale_hash(
                        tags,
                        facts.path.as_str(),
                        document.content_hash.as_str(),
                    ),
                    file_size: #[verifier::truncate] (facts.size as i64),
                    content_hash_before_tag: compute_content_hash(
                        facts.file_name.as_str(),
                        body.as_str(),
                    ),
                    already_tagged: already_tagged(
                        tags,
                        document.content_hash.as_str(),
                        facts.file_name.as_str(),
                        body.as_str(),
                    ),
                    document: document,
                };
                plan.documents.push(planned);
                proof {
                    let read = places(seen_now, true);
                    assert(read =~= places(seen, true).push(i as int));
                    assert forall|k: int| 0 <= k < read.len() implies is_plan(
                        tags@,
                        tags@,
                        files@[read[k]]@,
                        seen_now[read[k]]->0@,
                        #[trigger] plan.documents@[k],
                    ) && plan.documents@[k].already_tagged == is_already_tagged(
                        tags@,
                        files@[read[k]]@.content_hash(seen_now[read[k]]->0@),
                        files@[read[k]]@.file_name,
                        seen_now[read[k]]->0@,
                    ) by {
                        if k < before.documents@.len() {
                            assert(plan.documents@[k] == before.documents@[k]);
                            assert(seen_now[read[k]] == seen[read[k]]);
                        }
                    }
                }
            },
            None => {
                let file_name: &str = facts.file_name.as_str();
                let name_hash: String = text::concat("batch_failed_", file_name);
                let hash_before: String = compute_content_hash(file_name, "[no text]");
                plan.failed.push(
                    tag_request(name_hash.as_str(), file_name, NO_TEXT, hash_before.as_str()),
                );
                proof {
                    let unread = places(seen_now, false);
                    assert(unread =~= places(seen, false).push(i as int));
                    let read = places(seen_now, true);
                    assert forall|k: int| 0 <= k < read.len() implies is_plan(
                        tags@,
                        tags@,
                        files@[read[k]]@,
                        seen_now[read[k]]->0@,
                        #[trigger] plan.documents@[k],
                    ) && plan.documents@[k].already_tagged == is_already_tagged(
                        tags@,
                        files@[read[k]]@.content_hash(seen_now[read[k]]->0@),
                        files@[read[k]]@.file_name,
                        seen_now[read[k]]->0@,
                    ) by {
                        assert(plan.documents@[k] == before.documents@[k]);
                        assert(seen_now[read[k]] == seen[read[k]]);
                    }
                }
            },
        }
        i = i + 1;
    }
    assert(extracted@.take(extracted@.len() as int) =~= extracted@);
    plan
}

/// Write the documents of a batch to the store at `now`, all at once.
pub fn write_batch(tags: &mut TagStore, plan: &BatchPlan, now: &str)
    requires
        old(tags).wf(),
    ensures
        final(tags).wf(),
        final(tags)@ == old(tags)@.with_batch(batch_items(plan.documents@), now@),
{
    let mut items: Vec<BatchDocumentUpsert> = Vec::new();
    let mut i: usize = 0;
    while i < plan.documents.len()
        invariant
            i <= plan.documents@.len(),
            items@.len() == i,
            forall|k: int|
                0 <= k < i ==> (#[trigger] items@[k])@ == batch_item(plan.documents@[k]),
        decreases plan.documents@.len() - i,
    {
        let p: &PlannedDocument = &plan.documents[i];
        let item = BatchDocumentUpsert {
            content_hash: text::copy_str(p.document.content_hash.as_str()),
            file_path: text::copy_str(p.document.file_path.as_str()),
            file_type: text::copy_str(p.document.file_type.as_str()),
            file_size: p.file_size,
            modified_ts: p.document.modified_ts,
            old_hash_to_delete: model::copy_opt(&p.delete_hash),
            filename: text::copy_str(p.document.file_name.as_str()),
            content_hash_before_tag: text::copy_str(p.content_hash_before_tag.as_str()),
            skip_auto_tag_status: p.already_tagged,
        };
        items.push(item);
        i = i + 1;
    }
    assert(model::views(items@) =~= batch_items(plan.documents@));
    tags.upsert_documents_batch_at(items.as_slice(), now);
}

/// Once a document of a batch stands in the index: the request for its tags,
/// unless its content is tagged already.
pub fn batch_request(plan: &PlannedDocument) -> (r: Option<AutoTagRequest>)
    ensures
        r is Some <==> !plan.already_tagged,
        r is Some ==> is_tag_request(
            r->0,
            plan.document.content_hash@,
            plan.document.file_name@,
            plan.document.body@,
            plan.content_hash_before_tag@,
        ),
{
    if plan.already_tagged {
        return None;
    }
    Some(
        tag_request(
            plan.document.content_hash.as_str(),
            plan.document.file_name.as_str(),
            plan.document.body.as_str(),
            plan.content_hash_before_tag.as_str(),
        ),
    )
}

// ── The run ──

/// How many files are extracted together.
pub const PARALLEL_BATCH: usize = 32;

/// How many documents are written to the index before it is committed.
pub const COMMIT_BATCH_SIZE: usize = 10;

/// How long a document waits for the index to be committed, in milliseconds.
pub const COMMIT_INTERVAL_MS: u64 = 2000;

/// What the run of the pipeline keeps: the files that wait to be read together,
/// how many documents the index has not committed, and how many files have been
/// indexed.
#[derive(Debug, Clone)]
pub struct PipelineState {
    batch: Vec<FileFacts>,
    pending: usize,
    total: usize,
}

/// What the run of the pipeline keeps.
#[verifier::ext_equal]
pub struct RunModel {
    pub batch: Seq<FactsModel>,
    pub pending: nat,
    pub total: nat,
}

impl View for PipelineState {
    type V = RunModel;

    closed spec fn view(&self) -> RunModel {
        RunModel {
            batch: model::views(self.batch@),
            pending: self.pending as nat,
            total: self.total as nat,
        }
    }
}

/// Whether the index is to be committed: enough documents wait, or one has waited
/// long enough.
pub open spec fn commit_is_due(pending: nat, elapsed_ms: u64) -> bool {
    pending >= COMMIT_BATCH_SIZE || (pending > 0 && elapsed_ms >= COMMIT_INTERVAL_MS)
}

/// What a file that a scan finds adds: the files that are handed out to be read
/// together, and those that wait. A file that stands in the store unchanged is passed
/// over.
pub open spec fn after_found(
    waiting: Seq<FactsModel>,
    facts: FactsModel,
    unchanged: bool,
) -> (Seq<FactsModel>, Seq<FactsModel>) {
    if unchanged {
        (Seq::empty(), waiting)
    } else if waiting.len() + 1 < PARALLEL_BATCH {
        (Seq::empty(), waiting.push(facts))
    } else {
        (waiting.push(facts), Seq::empty())
    }
}

impl PipelineState {
    /// Fewer files wait than are read together.
    pub open spec fn wf(&self) -> bool {
        self@.batch.len() < PARALLEL_BATCH
    }

    /// The start of a run.
    pub fn new() -> (r: Self)
        ensures
            r.wf(),
            r@ == (RunModel { batch: Seq::empty(), pending: 0, total: 0 }),
    {
        let r = PipelineState { batch: Vec::new(), pending: 0, total: 0 };
        assert(r@.batch =~= Seq::<FactsModel>::empty());
        r
    }

    /// A file that the first scan found. A file that stands in the store unchanged
    /// is passed over; any other waits, and once enough wait they are handed out
    /// together, in the order in which they were found.
    pub fn on_scanned(&mut self, tags: &TagStore, facts: FileFacts) -> (r: Option<Vec<FileFacts>>)
        requires
            old(self).wf(),
        ensures
            final(self).wf(),
            final(self)@.pending == old(self)@.pending,
            final(self)@.total == old(self)@.total,
            ({
                let (handed, waiting) = after_found(
                    old(self)@.batch,
                    facts@,
                    tags@.is_indexed_as(facts.path@, facts.size as i64, facts.mtime as i64),
                );
                &&& final(self)@.batch == waiting
                &&& r is Some <==> handed.len() > 0
                &&& r is Some ==> model::views(r->0@) == handed
            }),
    {
        if !needs_indexing(tags, &facts) {
            return None;
        }
        let ghost before = self@.batch;
        let ghost f = facts@;
        self.batch.push(facts);
        assert(self@.batch =~= before.push(f));
        if self.batch.len() >= PARALLEL_BATCH {
            let mut out: Vec<FileFacts> = Vec::new();
            std::mem::swap(&mut out, &mut self.batch);
            assert(self@.batch =~= Seq::<FactsModel>::empty());
            return Some(out);
        }
        None
    }

    /// The scan has ended: the files that still wait, where there are any.
    pub fn end_of_scan(&mut self) -> (r: Option<Vec<FileFacts>>)
        requires
            old(self).wf(),
        ensures
            final(self).wf(),
            final(self)@ == (RunModel { batch: Seq::empty(), ..old(self)@ }),
            r is Some <==> old(self)@.batch.len() > 0,
            r is Some ==> model::views(r->0@) == old(self)@.batch,
    {
        let ghost before = self@;
        let mut out: Vec<FileFacts> = Vec::new();
        std::mem::swap(&mut out, &mut self.batch);
        assert(self@.batch =~= Seq::<FactsModel>::empty());
        if out.len() > 0 {
            Some(out)
        } else {
            assert(before.batch.len() == 0);
            None
        }
    }

    /// Whether one file more can be counted.
    pub fn has_room(&self) -> (r: bool)
        ensures
            r == (self@.pending < usize::MAX && self@.total < usize::MAX),
    {
        self.pending < usize::MAX && self.total < usize::MAX
    }

    /// A file was indexed: it counts, its document waits to be committed, and the
    /// window is told how many there are.
    pub fn on_indexed(&mut self) -> (r: IndexerProgress)
        requires
            old(self)@.pending < usize::MAX,
            old(self)@.total < usize::MAX,
        ensures
            final(self)@ == (RunModel {
                pending: old(self)@.pending + 1,
                total: old(self)@.total + 1,
                ..old(self)@
            }),
            r matches IndexerProgress::Progress { processed } && processed == final(self)@.total,
    {
        self.pending = self.pending + 1;
        self.total = self.total + 1;
        IndexerProgress::Progress { processed: self.total }
    }

    /// Whether the index is to be committed, so long after the last time.
    pub fn should_commit(&self, elapsed_ms: u64) -> (r: bool)
        ensures
            r == commit_is_due(self@.pending, elapsed_ms),
    {
        self.pending >= COMMIT_BATCH_SIZE || (self.pending > 0 && elapsed_ms
            >= COMMIT_INTERVAL_MS)
    }

    /// Whether documents wait to be committed: at the end of a batch, of the scan
    /// and of the run the index is committed where they do.
    pub fn has_pending(&self) -> (r: bool)
        ensures
            r == (self@.pending > 0),
    {
        self.pending > 0
    }

    /// The index was committed.
    pub fn on_committed(&mut self)
        ensures
            final(self)@ == (RunModel { pending: 0, ..old(self)@ }),
    {
        self.pending = 0;
    }

    /// What the window is told at the end of the scan and at the end of the run.
    pub fn scan_complete(&self) -> (r: IndexerProgress)
        ensures
            r matches IndexerProgress::ScanComplete { total } && total == self@.total,
    {
        IndexerProgress::ScanComplete { total: self.total }
    }
}

// ── Reconciliation ──

/// A document that the index holds, and what is on disk at its path.
#[derive(Debug, Clone)]
pub struct IndexedDocument {
    pub content_hash: String,
    pub file_path: String,
    pub file_type: String,
    pub modified_ts: i64,
    /// A file is at the path.
    pub file_exists: bool,
    /// The size of that file, 0 where there is none.
    pub file_size: i64,
}

/// Whether a document of the index has to be written to the store.
pub open spec fn is_missing(m: store::StoreModel, d: IndexedDocument) -> bool {
    &&& d.content_hash@.len() > 0
    &&& d.file_path@.len() == 0 || d.file_exists
    &&& !m.has_document(d.content_hash@)
}

/// The row that is written for a document of the index.
pub open spec fn backfill_row(d: IndexedDocument, now: Seq<char>) -> model::DocumentModel {
    store::document_model(
        d.content_hash@,
        d.file_path@,
        d.file_type@,
        if d.file_path@.len() == 0 {
            0
        } else {
            d.file_size
        },
        d.modified_ts,
        now,
    )
}

/// The store once the documents of the index that it missed are written to it.
pub open spec fn reconciled(m: store::StoreModel, docs: Seq<IndexedDocument>, now: Seq<char>) -> store::StoreModel
    decreases docs.len(),
{
    if docs.len() == 0 {
        m
    } else {
        let before = reconciled(m, docs.drop_last(), now);
        if is_missing(m, docs.last()) {
            before.with_document(backfill_row(docs.last(), now))
        } else {
            before
        }
    }
}

/// Run reconciliation on startup: write to the store at `now` the documents that
/// the index holds and the store has no row for. A document without a hash is
/// passed over, and so is one whose file is gone. Returns how many were written.
pub fn reconcile(tags: &mut TagStore, docs: &[IndexedDocument], now: &str) -> (count: usize)
    requires
        old(tags).wf(),
    ensures
        final(tags).wf(),
        final(tags)@ == reconciled(old(tags)@, docs@, now@),
        count == docs@.filter(|d: IndexedDocument| is_missing(old(tags)@, d)).len(),
{
    let ghost m = tags@;
    let ghost missing = |d: IndexedDocument| is_missing(m, d);
    let mut known: Vec<String> = Vec::new();
    let mut j: usize = 0;
    while j < tags.document_rows().len()
        invariant
            m == tags@,
            j <= tags@.documents.len(),
            known@.len() == j,
            forall|k: int| 0 <= k < j ==> (#[trigger] known@[k])@ == tags@.documents[k].hash,
        decreases tags@.documents.len() - j,
    {
        known.push(text::copy_str(tags.document_rows()[j].content_hash.as_str()));
        j = j + 1;
    }
    proof {
        assert forall|h: Seq<char>| text::texts(known@).contains(h) == #[trigger] m.has_document(
            h,
        ) by {
            if m.has_document(h) {
                let k = choose|k: int|
                    0 <= k < m.documents.len() && (#[trigger] m.documents[k]).hash == h;
                assert(text::texts(known@)[k] == h);
            }
            if text::texts(known@).contains(h) {
                let k = choose|k: int| 0 <= k < known@.len() && text::texts(known@)[k] == h;
                assert(known@[k]@ == m.documents[k].hash);
            }
        }
        reveal(Seq::filter);
        assert(docs@.take(0) =~= Seq::<IndexedDocument>::empty());
    }
    let mut count: usize = 0;
    let mut i: usize = 0;
    while i < docs.len()
        invariant
            i <= docs@.len(),
            count <= i,
            tags.wf(),
            forall|h: Seq<char>| text::texts(known@).contains(h) == #[trigger] m.has_document(h),
            missing == (|d: IndexedDocument| is_missing(m, d)),
            tags@ == reconciled(m, docs@.take(i as int), now@),
            count == docs@.take(i as int).filter(missing).len(),
        decreases docs@.len() - i,
    {
        let d: &IndexedDocument = &docs[i];
        proof {
            reveal(Seq::filter);
            assert(docs@.take(i + 1).drop_last() =~= docs@.take(i as int));
            assert(docs@.take(i + 1).last() == docs@[i as int]);
            assert(m.has_document(d.content_hash@) == text::texts(known@).contains(
                d.content_hash@,
            ));
        }
        let has_path: bool = !d.file_path.as_str().is_empty();
        if !d.content_hash.as_str().is_empty() && (!has_path || d.file_exists)
            && !text::contains_text(known.as_slice(), d.content_hash.as_str()) {
            let size: i64 = if has_path {
                d.file_size
            } else {
                0
            };
            tags.upsert_document_at(
                d.content_hash.as_str(),
                d.file_path.as_str(),
                d.file_type.as_str(),
                size,
                d.modified_ts,
                now,
            );
            count = count + 1;
        }
        i = i + 1;
    }
    assert(docs@.take(docs@.len() as int) =~= docs@);
    count
}

// ── What holds of the pipeline as a whole ──

/// A file that was indexed is not read again until its size or its modification
/// time changes.
pub proof fn indexed_file_is_passed_over(
    m: store::StoreModel,
    facts: FactsModel,
    body: Seq<char>,
    now: Seq<char>,
)
    ensures
        upserted(m, facts, body, now).is_indexed_as(facts.path, facts.size as i64, facts.mtime as i64),
{
    let before = cleared(m, facts, body);
    let d = facts.row(body, now);
    let after = before.with_document(d);
    if before.has_document(d.hash) {
        let i = choose|i: int|
            0 <= i < before.documents.len() && (#[trigger] before.documents[i]).hash == d.hash;
        assert(after.documents[i] == d);
    } else {
        assert(after.documents[before.documents.len() as int] == d);
    }
}

/// Content that is tagged stays tagged when a file with it is indexed again, and
/// no request is made for it: its status row is the one that it had. (Where the
/// store has several documents at the path and drops them, this content must not
/// be among them.)
pub proof fn tagged_content_is_not_asked_for_again(
    m: store::StoreModel,
    facts: FactsModel,
    body: Seq<char>,
    now: Seq<char>,
)
    requires
        m.wf(),
        is_already_tagged(m, facts.content_hash(body), facts.file_name, body),
        stale_hash(m, facts.path, facts.content_hash(body)) is Some ==> !m.is_at_path(
            facts.content_hash(body),
            facts.path,
        ),
    ensures
        upserted(m, facts, body, now).status_of(facts.content_hash(body)) == m.status_of(
            facts.content_hash(body),
        ),
        is_already_tagged(
            upserted(m, facts, body, now),
            facts.content_hash(body),
            facts.file_name,
            body,
        ),
{
    let h = facts.content_hash(body);
    let before = cleared(m, facts, body);
    store::deleting_a_path_leaves_the_rest(m, facts.path);
    assert(before.wf());
    assert(before.status_of(h) == m.status_of(h));
    store::reindexing_keeps_tags(before, facts.row(body, now));
    assert(before.with_document(facts.row(body, now)).status_of(h) == before.status_of(h));
}

/// The same content under another file name is the same content: where it was
/// tagged under the name that its row has, it is tagged under every name.
pub proof fn content_is_tagged_under_every_name(
    m: store::StoreModel,
    content_hash: Seq<char>,
    name: Seq<char>,
    body: Seq<char>,
)
    requires
        m.status_of(content_hash) is Some,
        m.status_of(content_hash)->0.status == "tagged"@,
        m.status_of(content_hash)->0.tags_json is Some,
        m.status_of(content_hash)->0.hash_before == hash::content_hash(
            m.status_of(content_hash)->0.filename,
            body,
        ),
    ensures
        is_already_tagged(m, content_hash, name, body),
{
}

/// What the provider has tagged once is not asked about when its file is indexed
/// again, under whatever name: a document that was tagged from the request that its
/// file gave rise to counts as tagged.
pub proof fn tagged_document_needs_no_request(
    job: worker::JobModel,
    question: worker::Question,
    max_retries: u32,
    max_tags: int,
    response: TagResponse,
    m: store::StoreModel,
    b: BreakerModel,
    now: Seq<char>,
    now_ms: usize,
    action: worker::TagAction,
    after: store::StoreModel,
    b2: BreakerModel,
    name: Seq<char>,
)
    requires
        m.wf(),
        m.has_document(job.hash),
        job.hash_before == hash::content_hash(job.filename, job.text),
        worker::is_answered(
            job,
            question,
            max_retries,
            max_tags,
            Ok(response),
            m,
            b,
            now,
            now_ms,
            action,
            after,
            b2,
        ),
    ensures
        is_already_tagged(after, job.hash, name, job.text),
{
    worker::tags_of_a_response_are_kept(
        job,
        question,
        max_retries,
        max_tags,
        response,
        m,
        b,
        now,
        now_ms,
        action,
        after,
        b2,
    );
}

/// When the content of a file changes, the document that it was goes and the new
/// one stands; it waits to be tagged once it is indexed.
pub proof fn changed_content_replaces_the_document(
    m: store::StoreModel,
    facts: FactsModel,
    body: Seq<char>,
    now: Seq<char>,
)
    requires
        m.wf(),
        stale_hash(m, facts.path, facts.content_hash(body)) is Some,
    ensures
        upserted(m, facts, body, now).wf(),
        upserted(m, facts, body, now).has_document(facts.content_hash(body)),
        !upserted(m, facts, body, now).has_document(
            stale_hash(m, facts.path, facts.content_hash(body))->0,
        ),
        hash_at_path(upserted(m, facts, body, now), facts.path) == Some(facts.content_hash(body)),
{
    let h = facts.content_hash(body);
    let i = choose|i: int| #[trigger] m.is_first_at_path(facts.path, i);
    let gone = m.documents[i].hash;
    let before = m.without_path(facts.path);
    let d = facts.row(body, now);
    let after = before.with_document(d);
    store::deleting_a_path_leaves_the_rest(m, facts.path);
    store::reindexing_keeps_tags(before, d);
    assert(m.is_at_path(gone, facts.path));
    assert(!before.has_document(gone));
    if after.has_document(gone) {
        let a = choose|a: int|
            0 <= a < after.documents.len() && (#[trigger] after.documents[a]).hash == gone;
        assert(before.documents[a].hash == gone);
    }
    let at = if before.has_document(h) {
        choose|k: int| 0 <= k < before.documents.len() && (#[trigger] before.documents[k]).hash == h
    } else {
        before.documents.len() as int
    };
    assert(after.documents[at] == d);
    assert forall|j: int| 0 <= j < at implies (#[trigger] after.documents[j]).path != facts.path by {
        assert(before.documents[j].path != facts.path);
        if before.has_document(h) {
            assert(before.documents[j].hash != before.documents[at].hash);
        }
    }
    assert(after.is_first_at_path(facts.path, at));
    lemma_first_at_path(after, facts.path, at);
}

/// Once a file is gone and its rows are deleted, the store knows nothing at its
/// path.
pub proof fn deleted_file_is_forgotten(m: store::StoreModel, path: Seq<char>)
    requires
        m.wf(),
    ensures
        hash_at_path(m.without_path(path), path) is None,
        hash_at_path(m, path) is Some ==> !m.without_path(path).has_document(
            hash_at_path(m, path)->0,
        ),
{
    store::deleting_a_path_leaves_the_rest(m, path);
    let after = m.without_path(path);
    if exists|i: int| #[trigger] after.is_first_at_path(path, i) {
        let i = choose|i: int| #[trigger] after.is_first_at_path(path, i);
        assert(after.documents[i].path == path);
    }
    if hash_at_path(m, path) is Some {
        let i = choose|i: int| #[trigger] m.is_first_at_path(path, i);
        assert(m.is_at_path(m.documents[i].hash, path));
        assert(!after.has_document(m.documents[i].hash));
    }
}

/// Content that is tagged keeps its status row when a batch with it is written.
pub proof fn batch_keeps_the_tags_of_tagged_content(
    m: store::StoreModel,
    item: store::BatchModel,
    now: Seq<char>,
)
    requires
        m.wf(),
        item.skip_status,
        item.old_hash != Some(item.hash),
    ensures
        m.with_batch_item(item, now).status_of(item.hash) == m.status_of(item.hash),
        m.with_batch_item(item, now).tags_of(item.hash) == m.tags_of(item.hash),
{
    let before = match item.old_hash {
        Some(old_hash) => m.without_document(old_hash),
        None => m,
    };
    let d = store::document_model(
        item.hash,
        item.path,
        item.file_type,
        item.size,
        item.modified,
        now,
    );
    if let Some(old_hash) = item.old_hash {
        store::deleting_takes_the_rows_of_the_document(m, old_hash);
        assert(m.without_document(old_hash).status_of(item.hash) == m.status_of(item.hash));
        assert forall|id: i64| before.has_link(item.hash, id) == m.has_link(item.hash, id) by {}
        assert((|t: model::TagModel| before.has_link(item.hash, t.id)) =~= (|t: model::TagModel|
            m.has_link(item.hash, t.id)));
    }
    store::reindexing_keeps_tags(before, d);
    assert(before.with_document(d).status_of(item.hash) == before.status_of(item.hash));
    assert(before.with_document(d).tags_of(item.hash) == before.tags_of(item.hash));
}

/// What reconciliation leaves of the store: every row that was there, and a row
/// for every document that was missing.
proof fn lemma_reconciled(m: store::StoreModel, docs: Seq<IndexedDocument>, now: Seq<char>)
    requires
        m.wf(),
    ensures
        reconciled(m, docs, now).wf(),
        reconciled(m, docs, now).tags == m.tags,
        reconciled(m, docs, now).links == m.links,
        reconciled(m, docs, now).statuses == m.statuses,
        reconciled(m, docs, now).cache == m.cache,
        reconciled(m, docs, now).documents.len() >= m.documents.len(),
        reconciled(m, docs, now).documents.take(m.documents.len() as int) == m.documents,
        forall|i: int|
            0 <= i < docs.len() && is_missing(m, #[trigger] docs[i]) ==> reconciled(
                m,
                docs,
                now,
            ).has_document(docs[i].content_hash@),
    decreases docs.len(),
{
    if docs.len() == 0 {
        assert(m.documents.take(m.documents.len() as int) =~= m.documents);
    } else {
        lemma_reconciled(m, docs.drop_last(), now);
        let before = reconciled(m, docs.drop_last(), now);
        let last = docs.last();
        let d = backfill_row(last, now);
        store::reindexing_keeps_tags(before, d);
        let after = reconciled(m, docs, now);
        if is_missing(m, last) {
            assert forall|k: int| 0 <= k < m.documents.len() implies after.documents[k]
                == #[trigger] m.documents[k] by {
                assert(before.documents.take(m.documents.len() as int)[k] == before.documents[k]);
                assert(m.documents[k].hash != d.hash);
            }
            assert(after.documents.take(m.documents.len() as int) =~= m.documents);
        }
        assert forall|i: int| 0 <= i < docs.len() && is_missing(m, #[trigger] docs[i]) implies after.has_document(
            docs[i].content_hash@,
        ) by {
            if i < docs.len() - 1 {
                assert(docs.drop_last()[i] == docs[i]);
                let h = docs[i].content_hash@;
                assert(before.has_document(h));
                let k = choose|k: int|
                    0 <= k < before.documents.len() && (#[trigger] before.documents[k]).hash == h;
                assert(after.documents[k].hash == h);
            }
        }
    }
}

/// Reconciliation keeps every row that was there, with its tags and its status,
/// leaves a row for every document that was missing, and has nothing left to do
/// when it is run again.
pub proof fn reconciling_fills_the_store(
    m: store::StoreModel,
    docs: Seq<IndexedDocument>,
    now: Seq<char>,
    later: Seq<char>,
)
    requires
        m.wf(),
    ensures
        reconciled(m, docs, now).documents.take(m.documents.len() as int) == m.documents,
        reconciled(m, docs, now).links == m.links,
        reconciled(m, docs, now).statuses == m.statuses,
        forall|i: int|
            0 <= i < docs.len() && is_missing(m, #[trigger] docs[i]) ==> reconciled(
                m,
                docs,
                now,
            ).has_document(docs[i].content_hash@),
        reconciled(reconciled(m, docs, now), docs, later) == reconciled(m, docs, now),
{
    lemma_reconciled(m, docs, now);
    let after = reconciled(m, docs, now);
    assert forall|i: int| 0 <= i < docs.len() implies !is_missing(after, #[trigger] docs[i]) by {
        if !is_missing(m, docs[i]) && m.has_document(docs[i].content_hash@) {
            let h = docs[i].content_hash@;
            let k = choose|k: int| 0 <= k < m.documents.len() && (#[trigger] m.documents[k]).hash == h;
            assert(after.documents.take(m.documents.len() as int)[k] == after.documents[k]);
            assert(after.documents[k].hash == h);
        }
    }
    lemma_nothing_missing(after, docs, later);
}

/// Where nothing is missing, reconciliation changes nothing.
proof fn lemma_nothing_missing(m: store::StoreModel, docs: Seq<IndexedDocument>, now: Seq<char>)
    requires
        forall|i: int| 0 <= i < docs.len() ==> !is_missing(m, #[trigger] docs[i]),
    ensures
        reconciled(m, docs, now) == m,
    decreases docs.len(),
{
    if docs.len() > 0 {
        assert forall|i: int| 0 <= i < docs.drop_last().len() implies !is_missing(
            m,
            #[trigger] docs.drop_last()[i],
        ) by {
            assert(!is_missing(m, docs[i]));
        }
        lemma_nothing_missing(m, docs.drop_last(), now);
        assert(!is_missing(m, docs[docs.len() - 1]));
    }
}

// ── A whole scan ──

/// What was handed out of the files that a scan has found, one batch after another,
/// and what waits. Of each file it is told whether it stood in the store unchanged.
pub open spec fn handed_out(found: Seq<(FactsModel, bool)>) -> (Seq<FactsModel>, Seq<FactsModel>)
    decreases found.len(),
{
    if found.len() == 0 {
        (Seq::empty(), Seq::empty())
    } else {
        let (before, waiting) = handed_out(found.drop_last());
        let (handed, left) = after_found(waiting, found.last().0, found.last().1);
        (before + handed, left)
    }
}

/// The files that did not stand in the store unchanged.
pub open spec fn changed_files(found: Seq<(FactsModel, bool)>) -> Seq<FactsModel> {
    found.filter(|f: (FactsModel, bool)| !f.1).map_values(|f: (FactsModel, bool)| f.0)
}

/// A scan passes no changed file over: each is handed out once, in the order in which
/// it was found, or waits; fewer wait than are read together.
pub proof fn scan_hands_out_every_changed_file(found: Seq<(FactsModel, bool)>)
    ensures
        ({
            let (handed, waiting) = handed_out(found);
            &&& handed + waiting == changed_files(found)
            &&& waiting.len() < PARALLEL_BATCH
        }),
    decreases found.len(),
{
    reveal(Seq::filter);
    let changed = |f: (FactsModel, bool)| !f.1;
    let facts = |f: (FactsModel, bool)| f.0;
    let (handed, waiting) = handed_out(found);
    if found.len() == 0 {
        assert(handed + waiting =~= changed_files(found));
    } else {
        let rest = found.drop_last();
        let last = found.last();
        scan_hands_out_every_changed_file(rest);
        let (before, left) = handed_out(rest);
        if last.1 {
            assert(found.filter(changed) =~= rest.filter(changed));
            assert(handed + waiting =~= before + left);
        } else {
            assert(found.filter(changed) =~= rest.filter(changed).push(last));
            assert(changed_files(found) =~= changed_files(rest).push(last.0));
            assert(handed + waiting =~= (before + left).push(last.0));
        }
    }
}

/// The store once the items of a scan are written, one after another, each at its
/// time.
pub open spec fn scanned(
    m: store::StoreModel,
    written: Seq<(store::BatchModel, Seq<char>)>,
) -> store::StoreModel
    decreases written.len(),
{
    if written.len() == 0 {
        m
    } else {
        scanned(m, written.drop_last()).with_batch_item(written.last().0, written.last().1)
    }
}

/// The items of a batch, each with the time at which the batch is written.
pub open spec fn written_at(items: Seq<store::BatchModel>, now: Seq<char>) -> Seq<
    (store::BatchModel, Seq<char>),
> {
    items.map_values(|item: store::BatchModel| (item, now))
}

/// No item takes away its own document or that of an earlier one: what a file was
/// before is not what it, or a file before it in the scan, is now.
pub open spec fn takes_none_of_its_own(written: Seq<(store::BatchModel, Seq<char>)>) -> bool {
    forall|i: int, j: int|
        0 <= i <= j < written.len() ==> (#[trigger] written[j]).0.old_hash != Some(
            (#[trigger] written[i]).0.hash,
        )
}

/// A document has a part in a scan: it is written, or what a file was before.
pub open spec fn has_part(
    written: Seq<(store::BatchModel, Seq<char>)>,
    hash: Seq<char>,
) -> bool {
    exists|i: int|
        0 <= i < written.len() && ((#[trigger] written[i]).0.hash == hash || written[i].0.old_hash
            == Some(hash))
}

/// The last that a scan writes of a document is the item at this place.
pub open spec fn is_last_of(
    written: Seq<(store::BatchModel, Seq<char>)>,
    i: int,
) -> bool {
    &&& 0 <= i < written.len()
    &&& forall|j: int| i < j < written.len() ==> (#[trigger] written[j]).0.hash != written[i].0.hash
}

/// A document stands as an item says: at its path, and waiting to be tagged unless its
/// tags are kept.
pub open spec fn stands_as(m: store::StoreModel, item: store::BatchModel) -> bool {
    &&& m.is_at_path(item.hash, item.path)
    &&& !item.skip_status ==> (m.status_of(item.hash) matches Some(s) && s.status == "pending"@
        && s.filename == item.filename && s.hash_before == item.hash_before)
}

/// A document is as it was: it is there or not, with its status and its tags.
pub open spec fn is_as_it_was(
    m: store::StoreModel,
    after: store::StoreModel,
    hash: Seq<char>,
) -> bool {
    &&& after.has_document(hash) == m.has_document(hash)
    &&& after.status_of(hash) == m.status_of(hash)
    &&& after.tags_of(hash) == m.tags_of(hash)
}

/// The batches of a scan are its parts, in order.
pub proof fn batches_make_up_a_scan(
    m: store::StoreModel,
    written: Seq<(store::BatchModel, Seq<char>)>,
    items: Seq<store::BatchModel>,
    now: Seq<char>,
)
    ensures
        scanned(m, written + written_at(items, now)) == scanned(m, written).with_batch(items, now),
    decreases items.len(),
{
    let more = written + written_at(items, now);
    if items.len() == 0 {
        assert(more =~= written);
    } else {
        batches_make_up_a_scan(m, written, items.drop_last(), now);
        assert(more.drop_last() =~= written + written_at(items.drop_last(), now));
        assert(more.last() == (items.last(), now));
    }
}

/// What one item leaves.
proof fn lemma_item_written(m: store::StoreModel, item: store::BatchModel, now: Seq<char>)
    requires
        m.wf(),
        item.old_hash != Some(item.hash),
    ensures
        m.with_batch_item(item, now).wf(),
        m.with_batch_item(item, now).has_document(item.hash),
        stands_as(m.with_batch_item(item, now), item),
        forall|h: Seq<char>|
            h != item.hash && item.old_hash != Some(h) ==> #[trigger] is_as_it_was(
                m,
                m.with_batch_item(item, now),
                h,
            ),
        forall|h: Seq<char>, p: Seq<char>|
            h != item.hash && item.old_hash != Some(h) && m.is_at_path(h, p) ==> (
            #[trigger] m.with_batch_item(item, now).is_at_path(h, p)),
{
    let before = match item.old_hash {
        Some(old_hash) => m.without_document(old_hash),
        None => m,
    };
    let d = store::document_model(
        item.hash,
        item.path,
        item.file_type,
        item.size,
        item.modified,
        now,
    );
    let stored = before.with_document(d);
    let after = m.with_batch_item(item, now);
    if let Some(old_hash) = item.old_hash {
        store::deleting_takes_the_rows_of_the_document(m, old_hash);
    }
    store::reindexing_keeps_tags(before, d);
    if !item.skip_status {
        store::status_written_is_status_read(
            stored,
            store::status_model(
                item.hash,
                item.filename,
                item.hash_before,
                "pending"@,
                None,
                None,
                now,
            ),
        );
    }
    assert(after.documents == stored.documents);
    assert(after.links == stored.links);
    assert(after.tags == stored.tags);
    let at = if before.has_document(item.hash) {
        choose|k: int| 0 <= k < before.documents.len() && (#[trigger] before.documents[k]).hash
            == item.hash
    } else {
        before.documents.len() as int
    };
    assert(after.documents[at] == d);
    assert forall|h: Seq<char>| h != item.hash && item.old_hash != Some(h) implies #[trigger] is_as_it_was(
        m,
        after,
        h,
    ) by {
        assert(before.has_document(h) == m.has_document(h));
        if before.has_document(h) {
            let k = choose|k: int|
                0 <= k < before.documents.len() && (#[trigger] before.documents[k]).hash == h;
            assert(after.documents[k].hash == h);
        }
        if after.has_document(h) {
            let k = choose|k: int|
                0 <= k < after.documents.len() && (#[trigger] after.documents[k]).hash == h;
            assert(before.documents[k].hash == h);
        }
        assert(stored.status_of(h) == before.status_of(h));
        assert(after.status_of(h) == m.status_of(h));
        assert forall|id: i64| before.has_link(h, id) == m.has_link(h, id) by {}
        assert((|t: model::TagModel| before.has_link(h, t.id)) =~= (|t: model::TagModel|
            m.has_link(h, t.id)));
        assert(before.tags_of(h) == m.tags_of(h));
        assert(stored.tags_of(h) == before.tags_of(h));
        assert forall|id: i64| after.has_link(h, id) == stored.has_link(h, id) by {}
        assert((|t: model::TagModel| after.has_link(h, t.id)) =~= (|t: model::TagModel|
            stored.has_link(h, t.id)));
    }
    assert forall|h: Seq<char>, p: Seq<char>|
        h != item.hash && item.old_hash != Some(h) && m.is_at_path(h, p) implies (
    #[trigger] after.is_at_path(h, p)) by {
        let k = choose|k: int|
            0 <= k < m.documents.len() && (#[trigger] m.documents[k]).hash == h
                && m.documents[k].path == p;
        if let Some(old_hash) = item.old_hash {
            let keeps = |x: model::DocumentModel| x.hash != old_hash;
            assert(keeps(m.documents[k]));
            m.documents.lemma_filter_contains_rev(keeps, m.documents[k]);
            assert(before.documents.contains(m.documents[k]));
        } else {
            assert(before.documents[k] == m.documents[k]);
            assert(before.documents.contains(m.documents[k]));
        }
        let b = choose|b: int| 0 <= b < before.documents.len() && before.documents[b]
            == m.documents[k];
        assert(after.documents[b] == before.documents[b]);
    }
}

/// A whole scan leaves a document in the store for every file that it writes, at its
/// path and waiting to be tagged unless its tags are kept, as the last file with this
/// content says; and a document that no file is or was is as it was, with its tags and
/// its status.
pub proof fn scan_leaves_every_file_in_the_store(
    m: store::StoreModel,
    written: Seq<(store::BatchModel, Seq<char>)>,
)
    requires
        m.wf(),
        takes_none_of_its_own(written),
    ensures
        scanned(m, written).wf(),
        forall|i: int|
            0 <= i < written.len() ==> scanned(m, written).has_document(
                (#[trigger] written[i]).0.hash,
            ),
        forall|i: int| #[trigger]
            is_last_of(written, i) ==> stands_as(scanned(m, written), written[i].0),
        forall|h: Seq<char>|
            !has_part(written, h) ==> #[trigger] is_as_it_was(m, scanned(m, written), h),
    decreases written.len(),
{
    if written.len() > 0 {
        let rest = written.drop_last();
        let last = written[written.len() - 1];
        let before = scanned(m, rest);
        let after = scanned(m, written);
        assert(takes_none_of_its_own(rest)) by {
            assert forall|i: int, j: int| 0 <= i <= j < rest.len() implies (
            #[trigger] rest[j]).0.old_hash != Some((#[trigger] rest[i]).0.hash) by {
                assert(rest[i] == written[i] && rest[j] == written[j]);
            }
        }
        scan_leaves_every_file_in_the_store(m, rest);
        lemma_item_written(before, last.0, last.1);
        assert forall|i: int| 0 <= i < written.len() implies after.has_document(
            (#[trigger] written[i]).0.hash,
        ) by {
            if i < rest.len() {
                assert(rest[i] == written[i]);
                assert(last.0.old_hash != Some(written[i].0.hash));
                assert(written[i].0.hash != last.0.hash ==> is_as_it_was(
                    before,
                    after,
                    written[i].0.hash,
                ));
            }
        }
        assert forall|i: int| #[trigger] is_last_of(written, i) implies stands_as(
            after,
            written[i].0,
        ) by {
            if i < rest.len() {
                let h = written[i].0.hash;
                assert(rest[i] == written[i]);
                assert(is_last_of(rest, i)) by {
                    assert forall|j: int| i < j < rest.len() implies (#[trigger] rest[j]).0.hash
                        != rest[i].0.hash by {
                        assert(rest[j] == written[j]);
                    }
                }
                assert(last.0.hash != h);
                assert(last.0.old_hash != Some(h));
                assert(is_as_it_was(before, after, h));
                assert(after.is_at_path(h, written[i].0.path));
            }
        }
        assert forall|h: Seq<char>| !has_part(written, h) implies #[trigger] is_as_it_was(
            m,
            after,
            h,
        ) by {
            assert(last.0.hash != h && last.0.old_hash != Some(h));
            assert(!has_part(rest, h)) by {
                if has_part(rest, h) {
                    let i = choose|i: int|
                        0 <= i < rest.len() && ((#[trigger] rest[i]).0.hash == h
                            || rest[i].0.old_hash == Some(h));
                    assert(written[i] == rest[i]);
                }
            }
            assert(is_as_it_was(m, before, h));
            assert(is_as_it_was(before, after, h));
        }
    }
}

// ── What is planned for a file ──

/// What a file is known by: its type is its extension in lower case, its content is told
/// by the hash of its text and type, and a request to tag it by that of its name and
/// text. A file that could not be read is indexed with a note in place of its text.
pub proof fn files_are_known_by_their_content(
    facts: FactsModel,
    body: Seq<char>,
    now: Seq<char>,
    text: Seq<char>,
)
    ensures
        facts.file_type() == text::lowercase(facts.extension),
        facts.content_hash(body) == hash::content_hash(body, text::lowercase(facts.extension)),
        facts.hash_before_tag(body) == hash::content_hash(facts.file_name, body),
        facts.row(body, now) == (model::DocumentModel {
            hash: hash::content_hash(body, text::lowercase(facts.extension)),
            path: facts.path,
            file_type: text::lowercase(facts.extension),
            size: facts.size as i64,
            modified: facts.mtime as i64,
            indexed_at: now,
            last_error: None,
        }),
        body_of(Some(text)) == text,
        body_of(None)
            == "[Document text could not be extracted. Use filename to determine topic.]"@,
{
}

/// The document that is planned for a file holds the whole text, and what the file is
/// known by, and each tag that the store has for its content, by name; the plan names
/// what the file was before, where its content was another.
pub proof fn files_are_planned_whole(
    m: store::StoreModel,
    tagged_in: store::StoreModel,
    facts: FactsModel,
    body: Seq<char>,
    plan: PlannedDocument,
    t: model::TagModel,
)
    requires
        is_plan(m, tagged_in, facts, body, plan),
        tagged_in.wf(),
        tagged_in.tags.len() <= usize::MAX,
    ensures
        plan.document.body@ == body,
        plan.document.file_path@ == facts.path,
        plan.document.file_name@ == facts.file_name,
        plan.document.file_type@ == text::lowercase(facts.extension),
        plan.document.content_hash@ == hash::content_hash(body, text::lowercase(facts.extension)),
        plan.document.doc_id@ == plan.document.content_hash@ + plan.document.file_type@,
        plan.document.modified_ts == facts.mtime as i64,
        plan.file_size == facts.size as i64,
        plan.content_hash_before_tag@ == hash::content_hash(facts.file_name, body),
        tagged_in.tags.contains(t) && tagged_in.has_link(plan.document.content_hash@, t.id)
            ==> text::texts(plan.document.tags@).contains(t.name),
        plan.document.tags@.len() == tagged_in.tags_of(plan.document.content_hash@).len(),
        plan.delete_hash is Some <==> hash_at_path(m, facts.path) is Some && hash_at_path(
            m,
            facts.path,
        ) != Some(plan.document.content_hash@),
        plan.delete_hash is Some ==> Some(plan.delete_hash->0@) == hash_at_path(m, facts.path),
{
    tag_names_are_those_of_the_document(
        tagged_in,
        plan.document.content_hash@,
        text::texts(plan.document.tags@),
        t,
    );
}

/// A document has a tag with this name.
pub open spec fn has_tag_named(m: store::StoreModel, hash: Seq<char>, name: Seq<char>) -> bool {
    exists|k: int|
        0 <= k < m.tags.len() && (#[trigger] m.tags[k]).name == name && m.has_link(
            hash,
            m.tags[k].id,
        )
}

/// The names that are given for a document are the names of its tags, one for each, in
/// order.
pub proof fn tag_names_are_those_of_the_document(
    m: store::StoreModel,
    hash: Seq<char>,
    names: Seq<Seq<char>>,
    t: model::TagModel,
)
    requires
        are_tag_names(m, hash, names),
        m.wf(),
        m.tags.len() <= usize::MAX,
    ensures
        names.len() == m.tags_of(hash).len(),
        m.tags.contains(t) && m.has_link(hash, t.id) ==> names.contains(t.name),
        forall|i: int| 0 <= i < names.len() ==> has_tag_named(m, hash, #[trigger] names[i]),
        forall|a: int, b: int|
            0 <= a < b < names.len() ==> !text::text_less(
                #[trigger] names[b],
                #[trigger] names[a],
            ),
{
    let tags = choose|tags: Seq<model::TagModel>| #[trigger]
        store::is_sorted_by_key::<Tag>(m.tags_of(hash), tags) && names == tags.map_values(
            |t: model::TagModel| t.name,
        );
    store::tags_of_a_document_are_listed_by_name(m, hash, tags, t);
    store::rows_are_found_where_they_stand(
        m,
        hash,
        t.id,
        Seq::empty(),
        Seq::empty(),
        0,
        0,
        Seq::empty(),
    );
    if tags.contains(t) {
        let i = choose|i: int| 0 <= i < tags.len() && tags[i] == t;
        assert(names[i] == t.name);
    }
    assert forall|i: int| 0 <= i < names.len() implies has_tag_named(m, hash, #[trigger] names[i]) by {
        let tag = tags[i];
        assert(tags.contains(tag));
        store::tags_of_a_document_are_listed_by_name(m, hash, tags, tag);
        store::rows_are_found_where_they_stand(
            m,
            hash,
            tag.id,
            Seq::empty(),
            Seq::empty(),
            0,
            0,
            Seq::empty(),
        );
        let k = choose|k: int| 0 <= k < m.tags.len() && m.tags[k] == tag;
        assert(m.tags[k].name == names[i]);
    }
}

/// What stands at a path is the first document there, and nothing where there is none;
/// what a file was before is that, where its content is another now.
pub proof fn first_document_at_a_path_is_found(
    m: store::StoreModel,
    path: Seq<char>,
    new: Seq<char>,
    i: int,
)
    ensures
        0 <= i < m.documents.len() && m.documents[i].path == path && (forall|j: int|
            0 <= j < i ==> (#[trigger] m.documents[j]).path != path) ==> hash_at_path(m, path)
            == Some(m.documents[i].hash),
        (forall|j: int| 0 <= j < m.documents.len() ==> (#[trigger] m.documents[j]).path != path)
            ==> hash_at_path(m, path) is None,
        hash_at_path(m, path) is None ==> stale_hash(m, path, new) is None,
        hash_at_path(m, path) == Some(new) ==> stale_hash(m, path, new) is None,
        hash_at_path(m, path) is Some && hash_at_path(m, path) != Some(new) ==> stale_hash(
            m,
            path,
            new,
        ) == hash_at_path(m, path),
{
    if m.is_first_at_path(path, i) {
        lemma_first_at_path(m, path, i);
    }
}

/// A file that is indexed stands in the store as it is: its document is there, at its
/// path, with its size and its time; where its content has changed, nothing else is left
/// at its path.
pub proof fn indexed_file_stands_in_the_store(
    m: store::StoreModel,
    facts: FactsModel,
    body: Seq<char>,
    now: Seq<char>,
)
    requires
        m.wf(),
    ensures
        upserted(m, facts, body, now).documents.contains(facts.row(body, now)),
        stale_hash(m, facts.path, facts.content_hash(body)) is None ==> upserted(
            m,
            facts,
            body,
            now,
        ) == m.with_document(facts.row(body, now)),
        stale_hash(m, facts.path, facts.content_hash(body)) is Some ==> upserted(
            m,
            facts,
            body,
            now,
        ) == m.without_path(facts.path).with_document(facts.row(body, now)),
{
    let before = cleared(m, facts, body);
    let d = facts.row(body, now);
    if before.has_document(d.hash) {
        let i = choose|i: int|
            0 <= i < before.documents.len() && (#[trigger] before.documents[i]).hash == d.hash;
        assert(before.with_document(d).documents[i] == d);
    } else {
        assert(before.with_document(d).documents[before.documents.len() as int] == d);
    }
}

/// Content counts as tagged where its row says so, keeps tags, and was written for this
/// text: alone, or under the name of the row or of the file, or with all others.
pub proof fn content_is_tagged_where_its_row_says_so(
    m: store::StoreModel,
    content: Seq<char>,
    name: Seq<char>,
    body: Seq<char>,
)
    ensures
        m.status_of(content) is None ==> !is_already_tagged(m, content, name, body),
        m.status_of(content) matches Some(s) ==> (is_already_tagged(m, content, name, body)
            <==> s.status == "tagged"@ && s.tags_json is Some && (s.hash_before
            == hash::content_hash(body, ""@) || s.hash_before == hash::content_hash(
            s.filename,
            body,
        ) || s.hash_before == hash::content_hash(name, body) || s.hash_before
            == hash::content_hash(s.filename, "reindex"@))),
{
}

/// A request carries the content, the name, the whole text and the hash of a document.
pub proof fn requests_carry_the_whole_text(
    r: AutoTagRequest,
    content: Seq<char>,
    name: Seq<char>,
    body: Seq<char>,
    hash_before: Seq<char>,
)
    requires
        is_tag_request(r, content, name, body, hash_before),
    ensures
        r is TagDocument,
        r->content_hash@ == content,
        r->filename@ == name,
        r->text@ == body,
        r->content_hash_before_tag@ == hash_before,
{
}

/// The places are all places that say what they should, in order.
proof fn lemma_all_places(extracted: Seq<Option<String>>, read: bool)
    ensures
        forall|i: int|
            0 <= i < extracted.len() && (#[trigger] extracted[i]).is_some() == read ==> places(
                extracted,
                read,
            ).contains(i),
        forall|a: int, b: int|
            0 <= a < b < places(extracted, read).len() ==> #[trigger] places(extracted, read)[a]
                < #[trigger] places(extracted, read)[b],
        places(extracted, true).len() + places(extracted, false).len() == extracted.len(),
    decreases extracted.len(),
{
    if extracted.len() > 0 {
        let rest = extracted.drop_last();
        lemma_all_places(rest, read);
        lemma_places(rest, read);
        let before = places(rest, read);
        let after = places(extracted, read);
        assert forall|i: int|
            0 <= i < extracted.len() && (#[trigger] extracted[i]).is_some() == read implies
            after.contains(i) by {
            if i < rest.len() {
                assert(rest[i] == extracted[i]);
                let k = choose|k: int| 0 <= k < before.len() && before[k] == i;
                assert(after[k] == i);
            } else {
                assert(after[before.len() as int] == i);
            }
        }
    }
}

/// The place of a file among those that were read, or were not, is how many such files
/// stand before it.
proof fn lemma_place_among(extracted: Seq<Option<String>>, read: bool, i: int)
    requires
        0 <= i < extracted.len(),
        extracted[i].is_some() == read,
    ensures
        places(extracted.take(i), read).len() < places(extracted, read).len(),
        places(extracted, read)[places(extracted.take(i), read).len() as int] == i,
    decreases extracted.len(),
{
    let rest = extracted.drop_last();
    if i == rest.len() {
        assert(extracted.take(i) =~= rest);
    } else {
        assert(rest[i] == extracted[i]);
        lemma_place_among(rest, read, i);
        assert(rest.take(i) =~= extracted.take(i));
    }
}

/// How many files were read, or were not.
proof fn lemma_place_count(extracted: Seq<Option<String>>, read: bool)
    ensures
        places(extracted, read).len() == extracted.filter(
            |e: Option<String>| e.is_some() == read,
        ).len(),
    decreases extracted.len(),
{
    reveal(Seq::filter);
    if extracted.len() > 0 {
        lemma_place_count(extracted.drop_last(), read);
    }
}

/// No file of a batch is passed over: each that was read is planned with its whole text,
/// each that was not is asked for by its name, both in the order of the files, and nothing
/// else is planned.
pub proof fn every_file_of_a_batch_is_planned(
    m: store::StoreModel,
    files: Seq<FileFacts>,
    extracted: Seq<Option<String>>,
    plan: BatchPlan,
    i: int,
) -> (k: int)
    requires
        is_batch_plan(m, files, extracted, plan),
        files.len() == extracted.len(),
        0 <= i < files.len(),
    ensures
        plan.documents@.len() + plan.failed@.len() == files.len(),
        k == extracted.take(i).filter(
            |e: Option<String>| e.is_some() == extracted[i].is_some(),
        ).len(),
        extracted[i] is Some ==> 0 <= k < plan.documents@.len() && is_plan(
            m,
            m,
            files[i]@,
            extracted[i]->0@,
            plan.documents@[k],
        ) && plan.documents@[k].already_tagged == is_already_tagged(
            m,
            files[i]@.content_hash(extracted[i]->0@),
            files[i].file_name@,
            extracted[i]->0@,
        ),
        extracted[i] is None ==> 0 <= k < plan.failed@.len() && is_tag_request(
            plan.failed@[k],
            "batch_failed_"@ + files[i].file_name@,
            files[i].file_name@,
            "[Document text could not be extracted. Use filename to determine topic.]"@,
            hash::content_hash(files[i].file_name@, "[no text]"@),
        ),
{
    lemma_all_places(extracted, true);
    lemma_all_places(extracted, false);
    if extracted[i] is Some {
        let read = places(extracted, true);
        lemma_place_among(extracted, true, i);
        lemma_place_count(extracted.take(i), true);
        let k = places(extracted.take(i), true).len() as int;
        let f = |e: Option<String>| e.is_some() == extracted[i].is_some();
        let g = |e: Option<String>| e.is_some() == true;
        assert(f =~= g);
        assert(is_plan(m, m, files[read[k]]@, extracted[read[k]]->0@, plan.documents@[k]));
        k
    } else {
        let unread = places(extracted, false);
        lemma_place_among(extracted, false, i);
        lemma_place_count(extracted.take(i), false);
        let k = places(extracted.take(i), false).len() as int;
        let f = |e: Option<String>| e.is_some() == extracted[i].is_some();
        let g = |e: Option<String>| e.is_some() == false;
        assert(f =~= g);
        assert(is_name_request(plan.failed@[k], files[unread[k]].file_name@));
        k
    }
}

/// A planned document is written to the store as it is planned.
pub proof fn planned_documents_are_written(plans: Seq<PlannedDocument>, i: int)
    requires
        0 <= i < plans.len(),
    ensures
        batch_items(plans).len() == plans.len(),
        batch_items(plans)[i] == (store::BatchModel {
            hash: plans[i].document.content_hash@,
            path: plans[i].document.file_path@,
            file_type: plans[i].document.file_type@,
            size: plans[i].file_size,
            modified: plans[i].document.modified_ts,
            old_hash: model::opt_text(plans[i].delete_hash),
            filename: plans[i].document.file_name@,
            hash_before: plans[i].content_hash_before_tag@,
            skip_status: plans[i].already_tagged,
        }),
{
}

/// Files wait until 32 of them can be read together; one that stands in the store
/// unchanged is passed over. The index is committed once ten documents wait, or one has
/// waited two seconds.
pub proof fn files_are_read_in_batches(
    waiting: Seq<FactsModel>,
    facts: FactsModel,
    pending: nat,
    elapsed: u64,
)
    ensures
        after_found(waiting, facts, true) == (Seq::<FactsModel>::empty(), waiting),
        waiting.len() < 31 ==> after_found(waiting, facts, false) == (
            Seq::<FactsModel>::empty(),
            waiting.push(facts),
        ),
        waiting.len() >= 31 ==> after_found(waiting, facts, false) == (
            waiting.push(facts),
            Seq::<FactsModel>::empty(),
        ),
        commit_is_due(pending, elapsed) <==> pending >= 10 || (pending >= 1 && elapsed >= 2000),
        PARALLEL_BATCH == 32,
{
}

/// One file more that a scan found is one changed file more, unless it was unchanged.
pub proof fn changed_files_are_those_that_changed(found: Seq<(FactsModel, bool)>, f: FactsModel)
    ensures
        changed_files(Seq::empty()) == Seq::<FactsModel>::empty(),
        changed_files(found.push((f, true))) == changed_files(found),
        changed_files(found.push((f, false))) == changed_files(found).push(f),
{
    reveal(Seq::filter);
    let p = |f: (FactsModel, bool)| !f.1;
    assert(found.push((f, true)).drop_last() =~= found);
    assert(found.push((f, false)).drop_last() =~= found);
    assert(Seq::<(FactsModel, bool)>::empty().filter(p) =~= Seq::empty());
    assert(changed_files(Seq::empty()) =~= Seq::<FactsModel>::empty());
    assert(found.push((f, true)).filter(p) =~= found.filter(p));
    assert(found.push((f, false)).filter(p) =~= found.filter(p).push((f, false)));
    assert(changed_files(found.push((f, false))) =~= changed_files(found).push(f));
}

/// A document of the index is missing where it has a hash that the store does not know,
/// and its file is there or it has no path; it is written back as the index has it.
pub proof fn missing_documents_are_written_back(
    m: store::StoreModel,
    docs: Seq<IndexedDocument>,
    d: IndexedDocument,
    now: Seq<char>,
)
    ensures
        is_missing(m, d) <==> d.content_hash@.len() > 0 && !m.has_document(d.content_hash@) && (
        d.file_path@.len() == 0 || d.file_exists),
        reconciled(m, Seq::empty(), now) == m,
        is_missing(m, d) ==> reconciled(m, docs.push(d), now) == reconciled(
            m,
            docs,
            now,
        ).with_document(
            model::DocumentModel {
                hash: d.content_hash@,
                path: d.file_path@,
                file_type: d.file_type@,
                size: if d.file_path@.len() == 0 {
                    0
                } else {
                    d.file_size
                },
                modified: d.modified_ts,
                indexed_at: now,
                last_error: None,
            },
        ),
        !is_missing(m, d) ==> reconciled(m, docs.push(d), now) == reconciled(m, docs, now),
{
    assert(docs.push(d).drop_last() =~= docs);
}

/// A file is seen as all that is known of it.
pub proof fn files_are_seen_whole(f: FileFacts)
    ensures
        f@.path == f.path@ && f@.file_name == f.file_name@ && f@.extension == f.extension@,
        f@.mtime == f.mtime && f@.size == f.size,
{
}

/// A file that was indexed counts once, and the window is told how many there are.
pub proof fn indexed_files_are_counted(run: &mut PipelineState, r: IndexerProgress)
    requires
        call_ensures(PipelineState::on_indexed, (run,), r),
    ensures
        final(run)@.total == old(run)@.total + 1,
        final(run)@.pending == old(run)@.pending + 1,
        final(run)@.batch == old(run)@.batch,
        r matches IndexerProgress::Progress { processed } && processed == old(run)@.total + 1,
{
}

/// The tags of a planned document are asked for exactly where they are not known, with its
/// whole text.
pub proof fn untagged_documents_of_a_batch_are_asked_for(
    plan: PlannedDocument,
    r: Option<AutoTagRequest>,
)
    requires
        call_ensures(batch_request, (&plan,), r),
    ensures
        r is None <==> plan.already_tagged,
        r is Some ==> (r->0 matches AutoTagRequest::TagDocument {
            content_hash,
            filename,
            text,
            content_hash_before_tag,
        } && content_hash@ == plan.document.content_hash@ && filename@ == plan.document.file_name@
            && text@ == plan.document.body@ && content_hash_before_tag@
            == plan.content_hash_before_tag@),
{
}

/// Once a document is indexed it is tagged already, and nothing changes, or its tags are
/// asked for with its whole text and its row waits.
pub proof fn indexed_document_is_tagged_or_waits(
    tags: &mut TagStore,
    plan: PlannedDocument,
    now: &str,
    r: Option<AutoTagRequest>,
)
    requires
        old(tags)@.wf(),
        call_ensures(finish_upsert, (tags, &plan, now), r),
    ensures
        r is None ==> final(tags)@ == old(tags)@ && (old(tags)@.status_of(
            plan.document.content_hash@,
        ) matches Some(s) && s.status == "tagged"@ && s.tags_json is Some),
        r is Some ==> (r->0 matches AutoTagRequest::TagDocument { content_hash, text, .. }
            && content_hash@ == plan.document.content_hash@ && text@ == plan.document.body@),
        r is Some && old(tags)@.has_document(plan.document.content_hash@) ==> (final(tags)@.status_of(
            plan.document.content_hash@,
        ) matches Some(s) && s.status == "pending"@ && s.tags_json is None),
{
    if r is Some && old(tags)@.has_document(plan.document.content_hash@) {
        store::status_written_is_status_read(
            old(tags)@,
            store::status_model(
                plan.document.content_hash@,
                plan.document.file_name@,
                plan.content_hash_before_tag@,
                "pending"@,
                None,
                None,
                now@,
            ),
        );
    }
}

/// A document is deleted only where its file is gone, and then the one at that path is.
pub proof fn files_that_exist_are_not_deleted(
    tags: TagStore,
    path: &str,
    exists_still: bool,
    r: Option<String>,
    i: int,
)
    requires
        call_ensures(plan_delete, (&tags, path, exists_still), r),
    ensures
        exists_still ==> r is None,
        !exists_still && tags@.is_first_at_path(path@, i) ==> r is Some && r->0@
            == tags@.documents[i].hash,
{
    if !exists_still && tags@.is_first_at_path(path@, i) {
        first_document_at_a_path_is_found(tags@, path@, path@, i);
    }
}

} // verus!
