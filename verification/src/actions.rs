//! What the buttons of the window do to the store and the queue of the tagger.

use vstd::prelude::*;

use crate::auto_tagger::worker;
use crate::indexer::extractors;
use crate::indexer::extractors::{
    ExtractError, ExtractedContent, Extractor, FileContent, PdfExtractor,
};
use crate::indexer::hash;
use crate::indexer::hash::compute_content_hash;
use crate::indexer::pipeline;
use crate::indexer::pipeline::{NO_TEXT, REINDEX_MARK};
use crate::indexer::stages;
use crate::indexer::stages::Stage;
use crate::json;
use crate::messages::{AutoTagRequest, TagUpdate};
use crate::paths;
use crate::tags::model;
use crate::tags::model::DocumentRow;
use crate::tags::store;
use crate::tags::store::{StoreError, TagStore};
use crate::text;

verus! {

// ── Tagging a file by hand ──

/// The text by which a file is tagged: what was read of it, or a note where it
/// could not be.
pub open spec fn text_to_tag(read: Option<Seq<char>>, is_pdf: bool, file_name: Seq<char>) -> Seq<char> {
    match read {
        Some(t) => t,
        None => if is_pdf {
            NO_TEXT@
        } else {
            "[Could not read file: "@ + file_name + "]"@
        },
    }
}

/// The store once a document waits to be tagged with this text; a document that it
/// does not have is passed over.
pub open spec fn queued(
    m: store::StoreModel,
    content_hash: Seq<char>,
    file_name: Seq<char>,
    hash_before: Seq<char>,
    now: Seq<char>,
) -> store::StoreModel {
    if m.has_document(content_hash) {
        m.with_status(
            store::status_model(
                content_hash,
                file_name,
                hash_before,
                "pending"@,
                None,
                None,
                now,
            ),
        )
    } else {
        m
    }
}

/// Queue a document to be tagged anew: its status row says at `now` that it waits,
/// so that the tags it has do not answer the request, and the request carries its
/// text.
pub fn queue_document(
    tags: &mut TagStore,
    content_hash: &str,
    file_name: &str,
    read: Option<&str>,
    is_pdf: bool,
    now: &str,
) -> (r: AutoTagRequest)
    requires
        old(tags).wf(),
    ensures
        final(tags).wf(),
        ({
            let body = text_to_tag(model::opt_str(read), is_pdf, file_name@);
            let hash_before = hash::content_hash(file_name@, body);
            &&& pipeline::is_tag_request(r, content_hash@, file_name@, body, hash_before)
            &&& final(tags)@ == queued(old(tags)@, content_hash@, file_name@, hash_before, now@)
        }),
{
    let body: String = match read {
        Some(t) => text::copy_str(t),
        None => {
            if is_pdf {
                text::copy_str(NO_TEXT)
            } else {
                let mut note: String = text::copy_str("[Could not read file: ");
                note.append(file_name);
                note.append("]");
                note
            }
        },
    };
    let hash_before: String = compute_content_hash(file_name, body.as_str());
    let _r: Result<(), StoreError> = tags.upsert_auto_tag_status_at(
        content_hash,
        file_name,
        hash_before.as_str(),
        "pending",
        None,
        None,
        now,
    );
    pipeline::tag_request(content_hash, file_name, body.as_str(), hash_before.as_str())
}

/// The text of what was extracted of a file, where there is any.
pub open spec fn extracted_text(
    r: Result<Option<ExtractedContent>, ExtractError>,
) -> Option<Seq<char>> {
    match r {
        Ok(Some(content)) => Some(content.text@),
        _ => None,
    }
}

/// What is read of a file that is to be tagged: of a PDF the text that the extractor
/// gives, where it gives any, and of any other file all of it, where it is UTF-8.
pub open spec fn is_read_to_tag(
    file: Option<FileContent>,
    is_pdf: bool,
    read: Option<Seq<char>>,
) -> bool {
    match file {
        Some(f) => if is_pdf {
            exists|r: Result<Option<ExtractedContent>, ExtractError>| #[trigger]
                stages::gives(Stage::Pdf(PdfExtractor), f, r) && read == extracted_text(r)
        } else {
            read == extractors::encoded_text(f.bytes@)
        },
        None => read is None,
    }
}

/// The file of a reference, where there is one.
pub open spec fn opt_file(file: Option<&FileContent>) -> Option<FileContent> {
    match file {
        Some(f) => Some(*f),
        None => None,
    }
}

/// Read all of a file that is not a PDF. `None` where it is not UTF-8.
fn read_text(file: &FileContent) -> (r: Option<String>)
    ensures
        model::opt_text(r) == extractors::encoded_text(file.bytes@),
{
    let bytes: Vec<u8> = extractors::copy_bytes(&file.bytes, file.bytes.len());
    assert(bytes@ =~= file.bytes@);
    extractors::decode_strict(bytes)
}

/// The text of what was extracted of a file.
pub fn text_of_extracted(r: Result<Option<ExtractedContent>, ExtractError>) -> (t: Option<String>)
    ensures
        model::opt_text(t) == extracted_text(r),
{
    match r {
        Ok(Some(content)) => Some(content.text),
        _ => None,
    }
}

/// Read a file that is to be tagged. `None` where there is none, or it cannot be
/// read.
pub fn read_to_tag(file: Option<&FileContent>, is_pdf: bool) -> (r: Option<String>)
    ensures
        is_read_to_tag(opt_file(file), is_pdf, model::opt_text(r)),
{
    let content: &FileContent = match file {
        Some(f) => f,
        None => return None,
    };
    if !is_pdf {
        return read_text(content);
    }
    let extracted: Result<Option<ExtractedContent>, ExtractError> = PdfExtractor.extract(content);
    assert(stages::gives(Stage::Pdf(PdfExtractor), *content, extracted));
    text_of_extracted(extracted)
}

/// Queue a file that was ticked in the browser to be tagged anew.
pub fn tag_file(
    tags: &mut TagStore,
    content_hash: &str,
    path: &str,
    file: Option<&FileContent>,
    is_pdf: bool,
    now: &str,
) -> (r: AutoTagRequest)
    requires
        old(tags).wf(),
    ensures
        final(tags).wf(),
        exists|read: Option<Seq<char>>| #[trigger]
            is_read_to_tag(opt_file(file), is_pdf, read) && {
                let name = name_to_tag(path@);
                let body = text_to_tag(read, is_pdf, name);
                let hash_before = hash::content_hash(name, body);
                &&& pipeline::is_tag_request(r, content_hash@, name, body, hash_before)
                &&& final(tags)@ == queued(old(tags)@, content_hash@, name, hash_before, now@)
            },
{
    let read: Option<String> = read_to_tag(file, is_pdf);
    let name: String = file_name_to_tag(path);
    let shown: Option<&str> = match &read {
        Some(t) => Some(t.as_str()),
        None => None,
    };
    assert(model::opt_str(shown) == model::opt_text(read));
    queue_document(tags, content_hash, name.as_str(), shown, is_pdf, now)
}

/// Queue the document on display to be tagged anew. A file that is gone, or is not
/// UTF-8, is left as it is.
pub fn retag_file(
    tags: &mut TagStore,
    content_hash: &str,
    path: &str,
    file: Option<&FileContent>,
    now: &str,
) -> (r: Option<AutoTagRequest>)
    requires
        old(tags).wf(),
    ensures
        final(tags).wf(),
        r is Some <==> file is Some && extractors::encoded_text(file->0.bytes@) is Some,
        r is None ==> final(tags)@ == old(tags)@,
        r is Some ==> {
            let name = name_to_tag(path@);
            let body = extractors::encoded_text(file->0.bytes@)->0;
            let hash_before = hash::content_hash(name, body);
            &&& pipeline::is_tag_request(r->0, content_hash@, name, body, hash_before)
            &&& final(tags)@ == queued(old(tags)@, content_hash@, name, hash_before, now@)
        },
{
    let body: String = match file {
        Some(f) => match read_text(f) {
            Some(body) => body,
            None => return None,
        },
        None => return None,
    };
    let name: String = file_name_to_tag(path);
    Some(queue_document(tags, content_hash, name.as_str(), Some(body.as_str()), false, now))
}

/// Files that are queued to be tagged, one after another: how many there are, how
/// many are done with, how many were when the last of them was queued, how many
/// were queued, and whether the queue was full.
#[derive(Debug, Clone, Copy, PartialEq, Eq, Structural)]
pub struct TagBatch {
    pub total: usize,
    pub completed: usize,
    pub shown: usize,
    pub queued: usize,
    pub queue_full: bool,
}

impl TagBatch {
    /// No more files are done with than there are.
    pub open spec fn wf(self) -> bool {
        self.queued <= self.shown <= self.completed <= self.total
    }

    /// What is shown of the progress: how many files were done with when the last one
    /// was queued, and nothing once the queue was full.
    pub open spec fn progress_shown(self) -> Option<(usize, usize)> {
        if self.queue_full {
            None
        } else {
            Some((self.shown, self.total))
        }
    }

    /// What is said of the batch.
    pub open spec fn status_shown(self) -> Seq<char> {
        if self.queue_full {
            "Queue full — tagged "@ + json::decimal(self.queued as nat) + "/"@ + json::decimal(
                self.total as nat,
            ) + " files (retry when current batch completes)"@
        } else {
            "Queued "@ + json::decimal(self.total as nat) + " files for tagging"@
        }
    }

    /// The start of a batch.
    pub fn new(total: usize) -> (r: Self)
        ensures
            r == (TagBatch { total: total, completed: 0, shown: 0, queued: 0, queue_full: false }),
            r.wf(),
    {
        TagBatch { total: total, completed: 0, shown: 0, queued: 0, queue_full: false }
    }

    /// Whether there is a file to go on with: some are left, and the queue takes them.
    pub fn goes_on(&self) -> (r: bool)
        ensures
            r == (!self.queue_full && self.completed < self.total),
    {
        !self.queue_full && self.completed < self.total
    }

    /// A file is gone, or the browser does not know it: it is passed over.
    pub fn on_skipped(&mut self)
        requires
            old(self).wf(),
            old(self).completed < old(self).total,
        ensures
            *final(self) == (TagBatch {
                completed: (old(self).completed + 1) as usize,
                ..*old(self)
            }),
            final(self).wf(),
    {
        self.completed = self.completed + 1;
    }

    /// A request was sent, or the queue did not take it, which ends the batch.
    pub fn on_sent(&mut self, accepted: bool)
        requires
            old(self).wf(),
            old(self).completed < old(self).total,
        ensures
            *final(self) == if accepted {
                TagBatch {
                    completed: (old(self).completed + 1) as usize,
                    shown: (old(self).completed + 1) as usize,
                    queued: (old(self).queued + 1) as usize,
                    ..*old(self)
                }
            } else {
                TagBatch { queue_full: true, ..*old(self) }
            },
            final(self).wf(),
    {
        if accepted {
            self.completed = self.completed + 1;
            self.shown = self.completed;
            self.queued = self.queued + 1;
        } else {
            self.queue_full = true;
        }
    }

    /// What the window shows of the progress: nothing once the queue was full.
    pub fn progress(&self) -> (r: Option<(usize, usize)>)
        ensures
            r == self.progress_shown(),
    {
        if self.queue_full {
            None
        } else {
            Some((self.shown, self.total))
        }
    }

    /// What the window says of the batch: how many files were queued, and that the
    /// rest is left where the queue was full.
    pub fn status(&self) -> (r: String)
        ensures
            r@ == self.status_shown(),
    {
        let total: String = json::decimal_text(self.total as u64);
        if self.queue_full {
            let queued: String = json::decimal_text(self.queued as u64);
            let mut r: String = text::copy_str("Queue full — tagged ");
            r.append(queued.as_str());
            r.append("/");
            r.append(total.as_str());
            r.append(" files (retry when current batch completes)");
            r
        } else {
            let mut r: String = text::copy_str("Queued ");
            r.append(total.as_str());
            r.append(" files for tagging");
            r
        }
    }
}

/// A document that was queued by hand is asked about anew: the tags that it has do
/// not answer the request, whatever the hash that the request carries.
pub proof fn queued_document_is_asked_about_anew(
    m: store::StoreModel,
    content_hash: Seq<char>,
    file_name: Seq<char>,
    hash_before: Seq<char>,
    now: Seq<char>,
    job: worker::JobModel,
)
    requires
        m.wf(),
        m.has_document(content_hash),
        job.hash == content_hash,
    ensures
        !worker::is_reusable(queued(m, content_hash, file_name, hash_before, now), job),
        queued(m, content_hash, file_name, hash_before, now).links == m.links,
{
    let row = store::status_model(
        content_hash,
        file_name,
        hash_before,
        "pending"@,
        None,
        None,
        now,
    );
    store::status_written_is_status_read(m, row);
    reveal_strlit("pending");
    reveal_strlit("tagged");
    assert("pending"@.len() != "tagged"@.len());
}

// ── Tagging everything ──

/// The file name by which a document is tagged: that of its path.
pub open spec fn name_to_tag(path: Seq<char>) -> Seq<char> {
    match paths::file_name(path) {
        Some(name) => name,
        None => Seq::empty(),
    }
}

/// The file name by which a document is tagged.
pub fn file_name_to_tag(path: &str) -> (r: String)
    ensures
        r@ == name_to_tag(path@),
{
    match paths::find_file_name(path) {
        Some(name) => name,
        None => String::new(),
    }
}

/// The row of a document that waits to be tagged with all others.
pub open spec fn requeued_row(d: model::DocumentModel, now: Seq<char>) -> model::StatusModel {
    let name = name_to_tag(d.path);
    store::status_model(
        d.hash,
        name,
        hash::content_hash(name, REINDEX_MARK@),
        "pending"@,
        None,
        None,
        now,
    )
}

/// The store once the first `n` of some documents wait to be tagged.
pub open spec fn requeued(
    m: store::StoreModel,
    docs: Seq<model::DocumentModel>,
    now: Seq<char>,
) -> store::StoreModel
    decreases docs.len(),
{
    if docs.len() == 0 {
        m
    } else {
        requeued(m, docs.drop_last(), now).with_status(requeued_row(docs.last(), now))
    }
}

/// Writing status rows leaves the documents as they are, and the rows valid.
proof fn lemma_requeued(m: store::StoreModel, docs: Seq<model::DocumentModel>, now: Seq<char>)
    requires
        m.wf(),
        forall|i: int| 0 <= i < docs.len() ==> m.has_document((#[trigger] docs[i]).hash),
    ensures
        requeued(m, docs, now).wf(),
        requeued(m, docs, now).documents == m.documents,
        requeued(m, docs, now).links == m.links,
        requeued(m, docs, now).tags == m.tags,
        forall|i: int|
            0 <= i < docs.len() ==> requeued(m, docs, now).status_of((#[trigger] docs[i]).hash)
                is Some && requeued(m, docs, now).status_of(docs[i].hash)->0.status == "pending"@,
    decreases docs.len(),
{
    if docs.len() > 0 {
        let rest = docs.drop_last();
        assert forall|i: int| 0 <= i < rest.len() implies m.has_document((#[trigger] rest[i]).hash) by {
            assert(m.has_document(docs[i].hash));
        }
        lemma_requeued(m, rest, now);
        let before = requeued(m, rest, now);
        let row = requeued_row(docs.last(), now);
        assert(m.has_document(docs[docs.len() - 1].hash));
        assert(before.has_document(row.hash)) by {
            let i = choose|i: int|
                0 <= i < m.documents.len() && (#[trigger] m.documents[i]).hash == row.hash;
            assert(before.documents[i].hash == row.hash);
        }
        store::status_written_is_status_read(before, row);
        let after = before.with_status(row);
        assert forall|i: int| 0 <= i < docs.len() implies after.status_of((#[trigger] docs[i]).hash)
            is Some && after.status_of(docs[i].hash)->0.status == "pending"@ by {
            if docs[i].hash != row.hash {
                assert(rest[i] == docs[i]);
                assert(after.status_of(docs[i].hash) == before.status_of(docs[i].hash));
            }
        }
    }
}

/// Queue every document to be tagged anew, at `now`: each waits in the store, where
/// the workers find it whatever becomes of this session. Returns how many there
/// are.
pub fn queue_all_documents(tags: &mut TagStore, now: &str) -> (count: usize)
    requires
        old(tags).wf(),
    ensures
        final(tags).wf(),
        final(tags)@ == requeued(old(tags)@, old(tags)@.documents, now@),
        count == old(tags)@.documents.len(),
{
    let ghost m = tags@;
    let ghost docs = tags@.documents;
    let n: usize = tags.document_rows().len();
    let mut i: usize = 0;
    assert(docs.take(0) =~= Seq::<model::DocumentModel>::empty());
    while i < n
        invariant
            i <= n,
            n == docs.len(),
            m.wf(),
            m.documents == docs,
            tags.wf(),
            tags@ == requeued(m, docs.take(i as int), now@),
        decreases n - i,
    {
        proof {
            assert forall|k: int| 0 <= k < docs.take(i as int).len() implies m.has_document(
                (#[trigger] docs.take(i as int)[k]).hash,
            ) by {
                assert(m.documents[k].hash == docs.take(i as int)[k].hash);
            }
            lemma_requeued(m, docs.take(i as int), now@);
            assert(tags@.documents == docs);
        }
        let rows: &Vec<DocumentRow> = tags.document_rows();
        assert(model::views(rows@)[i as int] == docs[i as int]);
        let hash_text: String = text::copy_str(rows[i].content_hash.as_str());
        let name: String = file_name_to_tag(rows[i].file_path.as_str());
        let hash_before: String = compute_content_hash(name.as_str(), REINDEX_MARK);
        proof {
            assert(docs.take(i + 1).drop_last() =~= docs.take(i as int));
            assert(docs.take(i + 1).last() == docs[i as int]);
            assert(tags@.documents[i as int].hash == hash_text@);
            assert(tags@.has_document(hash_text@));
        }
        let _r: Result<(), StoreError> = tags.upsert_auto_tag_status_at(
            hash_text.as_str(),
            name.as_str(),
            hash_before.as_str(),
            "pending",
            None,
            None,
            now,
        );
        i = i + 1;
    }
    assert(docs.take(docs.len() as int) =~= docs);
    n
}

/// After a re-index every document waits to be tagged, and keeps the tags that were
/// given to it by hand.
pub proof fn reindexing_queues_every_document(m: store::StoreModel, now: Seq<char>)
    requires
        m.wf(),
    ensures
        requeued(m, m.documents, now).wf(),
        requeued(m, m.documents, now).links == m.links,
        forall|i: int|
            0 <= i < m.documents.len() ==> requeued(m, m.documents, now).status_of(
                (#[trigger] m.documents[i]).hash,
            ) is Some && requeued(m, m.documents, now).status_of(m.documents[i].hash)->0.status
                == "pending"@,
{
    assert forall|i: int| 0 <= i < m.documents.len() implies m.has_document(
        (#[trigger] m.documents[i]).hash,
    ) by {}
    lemma_requeued(m, m.documents, now);
}

// ── Tags given by hand ──

/// Give the selected document a tag. Where the store takes it, the indexer is told
/// which tags the document has now.
pub fn assign_tag_to_selected(tags: &mut TagStore, selected_hash: Option<&str>, tag_id: i64) -> (r:
    Option<TagUpdate>)
    requires
        old(tags).wf(),
    ensures
        final(tags).wf(),
        match selected_hash {
            None => r is None && final(tags)@ == old(tags)@,
            Some(h) => if old(tags)@.has_document(h@) && old(tags)@.has_tag(tag_id) {
                &&& final(tags)@ == old(tags)@.with_link(h@, tag_id)
                &&& r matches Some(TagUpdate::UpdateDocumentTags { content_hash, tags: names })
                    && content_hash@ == h@ && pipeline::are_tag_names(
                    final(tags)@,
                    h@,
                    text::texts(names@),
                )
            } else {
                r is None && final(tags)@ == old(tags)@
            },
        },
{
    let content_hash: &str = match selected_hash {
        Some(h) => h,
        None => return None,
    };
    match tags.assign_tag(content_hash, tag_id) {
        Ok(_) => Some(
            TagUpdate::UpdateDocumentTags {
                content_hash: text::copy_str(content_hash),
                tags: pipeline::tag_names(tags, content_hash),
            },
        ),
        Err(_) => None,
    }
}

/// The name of a tag that is to be created: without white space at its ends, and
/// none where nothing is left.
pub fn new_tag_name(input: &str) -> (r: Option<String>)
    ensures
        r is Some <==> text::trim(input@).len() > 0,
        r is Some ==> r->0@ == text::trim(input@),
{
    let name: String = text::trim_text(input);
    if name.as_str().is_empty() {
        None
    } else {
        Some(name)
    }
}

// ── Progress and timing ──

/// What is made of the number of documents that the tagger has finished.
#[derive(Debug, Clone, Copy, PartialEq, Eq, Structural)]
pub enum ProgressStep {
    /// Nothing has moved.
    Same,
    /// So many are done.
    Moved(usize),
    /// All are done.
    Finished,
}

/// The tagger has finished `completed` documents of a batch of `total`, of which
/// `shown` are shown as done.
pub open spec fn step_of(shown: usize, total: usize, completed: usize) -> ProgressStep {
    if completed <= shown {
        ProgressStep::Same
    } else if completed >= total {
        ProgressStep::Finished
    } else {
        ProgressStep::Moved(completed)
    }
}

/// What follows from the number of documents that the tagger has finished.
pub fn progress_step(shown: usize, total: usize, completed: usize) -> (r: ProgressStep)
    ensures
        r == step_of(shown, total, completed),
{
    if completed <= shown {
        ProgressStep::Same
    } else if completed >= total {
        ProgressStep::Finished
    } else {
        ProgressStep::Moved(completed)
    }
}

/// How long after the last keystroke a search is made, in milliseconds.
pub const SEARCH_DELAY_MS: u64 = 150;

/// What is done about a search that waits.
#[derive(Debug, Clone, Copy, PartialEq, Eq, Structural)]
pub enum SearchTimer {
    /// The search is made now.
    Search,
    /// The search is made after so many milliseconds.
    Wait(u64),
    /// The query has changed since: nothing is done.
    Outdated,
}

/// A search for `pending` waits since a keystroke `elapsed_ms` ago, and the query is
/// `query` now.
pub fn search_timer(pending: &str, query: &str, elapsed_ms: u64) -> (r: SearchTimer)
    ensures
        r == if elapsed_ms < SEARCH_DELAY_MS {
            SearchTimer::Wait((SEARCH_DELAY_MS - elapsed_ms) as u64)
        } else if pending@ == query@ {
            SearchTimer::Search
        } else {
            SearchTimer::Outdated
        },
{
    if elapsed_ms < SEARCH_DELAY_MS {
        SearchTimer::Wait(SEARCH_DELAY_MS - elapsed_ms)
    } else if text::same_text(pending, query) {
        SearchTimer::Search
    } else {
        SearchTimer::Outdated
    }
}

/// Whether closing the window hides it: it is to live on in the tray, there is one,
/// and the user has not asked to exit.
pub fn closes_to_tray(should_exit: bool, minimize_to_tray: bool, has_tray: bool) -> (r: bool)
    ensures
        r == (!should_exit && minimize_to_tray && has_tray),
{
    !should_exit && minimize_to_tray && has_tray
}

// ── What the actions lead to ──

/// A file is tagged by all that was read of it; where nothing could be, a note stands in
/// its place.
pub proof fn files_are_tagged_by_their_text(
    t: Seq<char>,
    is_pdf: bool,
    name: Seq<char>,
    content: ExtractedContent,
    e: ExtractError,
)
    ensures
        text_to_tag(Some(t), is_pdf, name) == t,
        text_to_tag(None, true, name)
            == "[Document text could not be extracted. Use filename to determine topic.]"@,
        text_to_tag(None, false, name) == "[Could not read file: "@ + name + "]"@,
        extracted_text(Ok(Some(content))) == Some(content.text@),
        extracted_text(Ok(None)) is None,
        extracted_text(Err(e)) is None,
{
}

/// What is read of a file that is to be tagged: of a text file all of it, where it is
/// UTF-8, and of a PDF each page, where every one was read.
pub proof fn files_to_tag_are_read_whole(
    file: FileContent,
    read: Option<Seq<char>>,
    is_pdf: bool,
    pages: Vec<Result<String, String>>,
)
    requires
        is_read_to_tag(Some(file), is_pdf, read),
    ensures
        !is_pdf && vstd::utf8::valid_utf8(file.bytes@) ==> read == Some(
            vstd::utf8::decode_utf8(file.bytes@),
        ),
        !is_pdf && !vstd::utf8::valid_utf8(file.bytes@) ==> read is None,
        is_pdf && text::ascii_lowercase(file.extension@) == "pdf"@ && file.pdf == Some(
            extractors::PdfReading::Pages(pages),
        ) && (forall|i: int| 0 <= i < pages@.len() ==> (#[trigger] pages@[i]) is Ok) ==> read
            is Some && exists|texts: Seq<Seq<char>>|
            texts.len() == pages@.len() && (forall|i: int|
                0 <= i < pages@.len() ==> #[trigger] texts[i] == pages@[i]->Ok_0@) && read->0
                == #[trigger] text::join(texts, "\n"@),
        is_read_to_tag(None, is_pdf, None),
{
    if is_pdf && text::ascii_lowercase(file.extension@) == "pdf"@ && file.pdf == Some(
        extractors::PdfReading::Pages(pages),
    ) && (forall|i: int| 0 <= i < pages@.len() ==> (#[trigger] pages@[i]) is Ok) {
        let r = choose|r: Result<Option<ExtractedContent>, ExtractError>| #[trigger]
            stages::gives(Stage::Pdf(PdfExtractor), file, r) && read == extracted_text(r);
        assert(extractors::is_pdf_extension(file.extension@));
        assert(extractors::is_pdf_result(file, r));
        let texts = extractors::every_page_is_extracted(
            file.file_name@,
            pages,
            extractors::some_result(r),
        );
        assert(read->0 == text::join(texts, "\n"@));
    }
}

/// A document that is queued waits to be tagged, under its name, with no tags kept; one
/// that the store does not have is passed over, and every other is as it was.
pub proof fn queued_document_waits(
    m: store::StoreModel,
    content: Seq<char>,
    name: Seq<char>,
    hash_before: Seq<char>,
    now: Seq<char>,
    other: Seq<char>,
)
    requires
        m.wf(),
    ensures
        !m.has_document(content) ==> queued(m, content, name, hash_before, now) == m,
        m.has_document(content) ==> (queued(m, content, name, hash_before, now).status_of(
            content,
        ) matches Some(s) && s.status == "pending"@ && s.filename == name && s.hash_before
            == hash_before && s.tags_json is None && s.created_at == now),
        other != content ==> queued(m, content, name, hash_before, now).status_of(other)
            == m.status_of(other),
        queued(m, content, name, hash_before, now).documents == m.documents,
        queued(m, content, name, hash_before, now).tags == m.tags,
        queued(m, content, name, hash_before, now).cache == m.cache,
{
    if m.has_document(content) {
        store::status_written_is_status_read(
            m,
            store::status_model(content, name, hash_before, "pending"@, None, None, now),
        );
    }
}

/// A document is tagged under the name of its file, and under none where its path has
/// none; when all are queued, each waits under that name.
pub proof fn documents_are_tagged_under_their_names(
    m: store::StoreModel,
    docs: Seq<model::DocumentModel>,
    d: model::DocumentModel,
    now: Seq<char>,
)
    ensures
        paths::file_name(d.path) is Some ==> name_to_tag(d.path) == paths::file_name(d.path)->0,
        paths::file_name(d.path) is None ==> name_to_tag(d.path).len() == 0,
        requeued(m, Seq::empty(), now) == m,
        requeued(m, docs.push(d), now) == requeued(m, docs, now).with_status(
            model::StatusModel {
                hash: d.hash,
                filename: name_to_tag(d.path),
                hash_before: hash::content_hash(name_to_tag(d.path), "reindex"@),
                status: "pending"@,
                tags_json: None,
                attempts: 0,
                last_error: None,
                created_at: now,
                updated_at: now,
            },
        ),
{
    assert(docs.push(d).drop_last() =~= docs);
}

/// What is said of a batch, and of how far the tagger has come.
pub proof fn batches_tell_how_far_they_are(
    b: TagBatch,
    shown: usize,
    total: usize,
    completed: usize,
)
    ensures
        b.queue_full ==> b.progress_shown() is None && b.status_shown() == "Queue full — tagged "@
            + json::decimal(b.queued as nat) + "/"@ + json::decimal(b.total as nat)
            + " files (retry when current batch completes)"@,
        !b.queue_full ==> b.progress_shown() == Some((b.shown, b.total)) && b.status_shown()
            == "Queued "@ + json::decimal(b.total as nat) + " files for tagging"@,
        completed <= shown ==> step_of(shown, total, completed) == ProgressStep::Same,
        completed > shown && completed >= total ==> step_of(shown, total, completed)
            == ProgressStep::Finished,
        shown < completed < total ==> step_of(shown, total, completed) == ProgressStep::Moved(
            completed,
        ),
        SEARCH_DELAY_MS == 150,
{
}

/// A search is made once 150 milliseconds have passed since the last keystroke, neither
/// before nor for a query that has changed since; the time that is left and the time that
/// has passed make 150 milliseconds.
pub proof fn searches_wait_for_the_last_keystroke(
    pending: &str,
    query: &str,
    elapsed_ms: u64,
    r: SearchTimer,
)
    requires
        call_ensures(search_timer, (pending, query, elapsed_ms), r),
    ensures
        r is Search <==> elapsed_ms >= 150 && pending@ == query@,
        r is Outdated <==> elapsed_ms >= 150 && pending@ != query@,
        r matches SearchTimer::Wait(left) ==> left + elapsed_ms == 150 && left > 0,
{
}

/// A tag is created under what is typed, without the white space round it; nothing is
/// created of white space alone.
pub proof fn tags_are_named_as_typed(input: &str, r: Option<String>)
    requires
        call_ensures(new_tag_name, (input,), r),
    ensures
        r is None <==> text::trim(input@) == Seq::<char>::empty(),
        r is Some ==> r->0@ == text::trim(input@),
{
    if text::trim(input@).len() == 0 {
        assert(text::trim(input@) =~= Seq::<char>::empty());
    }
}

/// Each file of a batch is done with once: skipped or sent, one more is, and only one that
/// was sent counts as queued; a full queue ends the batch where it stands.
pub proof fn files_of_a_batch_are_counted(b: &mut TagBatch, accepted: bool)
    requires
        old(b).wf(),
        old(b).completed < old(b).total,
    ensures
        call_ensures(TagBatch::on_skipped, (b,), ()) ==> {
            &&& final(b).completed == old(b).completed + 1
            &&& final(b).queued == old(b).queued
            &&& final(b).total == old(b).total
            &&& final(b).queue_full == old(b).queue_full
        },
        call_ensures(TagBatch::on_sent, (b, accepted), ()) && accepted ==> {
            &&& final(b).completed == old(b).completed + 1
            &&& final(b).queued == old(b).queued + 1
            &&& final(b).shown == final(b).completed
            &&& final(b).total == old(b).total
            &&& final(b).queue_full == old(b).queue_full
        },
        call_ensures(TagBatch::on_sent, (b, accepted), ()) && !accepted ==> {
            &&& final(b).queue_full
            &&& final(b).completed == old(b).completed
            &&& final(b).queued == old(b).queued
            &&& final(b).shown == old(b).shown
            &&& final(b).total == old(b).total
        },
{
}

/// A tag that is given to the selected document is among its tags, and the indexer is told
/// of it; where nothing is selected, or the store has no such document or tag, nothing
/// happens.
pub proof fn selected_document_gets_the_tag(
    tags: &mut TagStore,
    selected: Option<&str>,
    tag_id: i64,
    r: Option<TagUpdate>,
)
    requires
        call_ensures(assign_tag_to_selected, (tags, selected, tag_id), r),
    ensures
        r is Some <==> selected is Some && old(tags)@.has_document(selected->0@)
            && old(tags)@.has_tag(tag_id),
        r is None ==> final(tags)@ == old(tags)@,
        r is Some ==> final(tags)@.has_link(selected->0@, tag_id),
        final(tags)@.documents == old(tags)@.documents,
        final(tags)@.statuses == old(tags)@.statuses,
        r matches Some(TagUpdate::UpdateDocumentTags { content_hash, tags: names })
            ==> content_hash@ == selected->0@,
{
    if r is Some {
        let m = old(tags)@;
        let after = m.with_link(selected->0@, tag_id);
        if !m.has_link(selected->0@, tag_id) {
            assert(after.links[m.links.len() as int].hash == selected->0@);
        }
        assert(after.has_link(selected->0@, tag_id));
    }
}

} // verus!
