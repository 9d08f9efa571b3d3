//! The auto-tagger worker: what becomes of one document, and what the worker does
//! next.
//!
//! A document goes through three tiers: tags that it has already, tags of a
//! document with much the same file name, and the provider. The worker decides
//! here; the provider is called, and waited for, between two decisions.

use vstd::prelude::*;

use crate::auto_tagger::breaker::{ApiCircuitBreaker, BreakerModel};
use crate::auto_tagger::config::AutoTagConfig;
use crate::auto_tagger::names;
use crate::auto_tagger::provider;
use crate::auto_tagger::provider::{Entities, TagError, TagProvider, TagResponse};
use crate::json;
use crate::json::JsonModel;
use crate::messages::AutoTagRequest;
use crate::tags::model;
use crate::tags::model::{AutoTagStatus, Row, Tag};
use crate::tags::store;
use crate::tags::store::{StoreError, StoreModel, TagStore};
use crate::tags::tag_json;
use crate::text;

verus! {

/// A document to tag.
#[derive(Debug, Clone)]
pub struct TagJob {
    pub content_hash: String,
    pub filename: String,
    pub text: String,
    pub content_hash_before_tag: String,
}

/// What a job holds.
#[verifier::ext_equal]
pub struct JobModel {
    pub hash: Seq<char>,
    pub filename: Seq<char>,
    pub text: Seq<char>,
    pub hash_before: Seq<char>,
}

impl View for TagJob {
    type V = JobModel;

    open spec fn view(&self) -> JobModel {
        JobModel {
            hash: self.content_hash@,
            filename: self.filename@,
            text: self.text@,
            hash_before: self.content_hash_before_tag@,
        }
    }
}

/// What became of a document.
#[derive(Debug, Clone, Copy, PartialEq, Eq, Structural)]
pub enum TagOutcome {
    /// Auto-tagging is off: the document waits.
    Disabled,
    /// The content is tagged already.
    Reused,
    /// The tags of a document with much the same file name were taken.
    Cached,
    /// The circuit breaker is open: the provider was not called.
    Refused,
    /// The provider gave tags.
    Tagged,
    /// The provider gave none.
    Failed,
}

impl TagOutcome {
    /// Whether the document counts as done in a batch.
    pub fn counts_as_progress(&self) -> (r: bool)
        ensures
            r == (*self != TagOutcome::Disabled),
    {
        !matches!(self, TagOutcome::Disabled)
    }

    /// The content hash to announce: that of the document, where its status has
    /// changed, so that what is shown of it is stale.
    pub fn completed_hash(&self, job: &TagJob) -> (r: Option<String>)
        ensures
            r is Some <==> *self != TagOutcome::Disabled && *self != TagOutcome::Reused,
            r matches Some(hash) ==> hash@ == job@.hash,
    {
        match self {
            TagOutcome::Disabled | TagOutcome::Reused => None,
            _ => Some(text::copy_str(job.content_hash.as_str())),
        }
    }
}

/// A question to the provider about a document.
#[derive(Debug, Clone)]
pub struct Question {
    /// How often the provider was asked before.
    pub attempt: u32,
    /// The names of the tags that exist.
    pub existing: Vec<String>,
}

/// What the worker does next with a document.
#[derive(Debug, Clone)]
pub enum TagAction {
    /// Nothing: this became of it.
    Done(TagOutcome),
    /// Ask the provider.
    Ask(Question),
    /// Wait so many seconds, then ask the provider again.
    Wait(u64, Question),
}

// ── The tags of a response ──

/// The tags with the plain form of each person's name at their end, unless it is
/// there already.
pub open spec fn with_persons(tags: Seq<Seq<char>>, persons: Seq<Seq<char>>) -> Seq<Seq<char>>
    decreases persons.len(),
{
    if persons.len() == 0 {
        tags
    } else {
        let before = with_persons(tags, persons.drop_last());
        let variants = names::name_variants(persons.last());
        if variants.len() > 0 {
            names::add_new(before, variants[0])
        } else {
            before
        }
    }
}

/// The tags that are kept of a response: at most `max` of them.
pub open spec fn kept_of(r: provider::ResponseModel, max: int) -> Seq<Seq<char>> {
    let all = with_persons(r.tags, r.entities.persons);
    all.take(
        if max < all.len() {
            max
        } else {
            all.len() as int
        },
    )
}

/// All forms of the names of some persons, each once.
pub open spec fn person_forms(persons: Seq<Seq<char>>) -> Seq<Seq<char>>
    decreases persons.len(),
{
    if persons.len() == 0 {
        Seq::empty()
    } else {
        names::add_all(person_forms(persons.drop_last()), names::name_variants(persons.last()))
    }
}

/// The fields with one more, unless it is an empty list.
pub open spec fn put_list(
    fields: Map<Seq<char>, JsonModel>,
    key: Seq<char>,
    list: Seq<Seq<char>>,
) -> Map<Seq<char>, JsonModel> {
    if list.len() == 0 {
        fields
    } else {
        fields.insert(key, json::text_array(list))
    }
}

/// The JSON object of some entities: lists that are empty are left out.
pub open spec fn entities_json(e: provider::EntitiesModel) -> JsonModel {
    JsonModel::Object(
        put_list(
            put_list(
                put_list(
                    put_list(
                        put_list(Map::empty(), "persons"@, e.persons),
                        "organizations"@,
                        e.organizations,
                    ),
                    "years"@,
                    e.years,
                ),
                "doc_id"@,
                e.doc_id,
            ),
            "amounts"@,
            e.amounts,
        ),
    )
}

/// The JSON object in which tags and entities are kept.
pub open spec fn kept_json(tags: Seq<Seq<char>>, e: provider::EntitiesModel) -> JsonModel {
    JsonModel::Object(
        Map::<Seq<char>, JsonModel>::empty().insert("tags"@, json::text_array(tags)).insert(
            "entities"@,
            entities_json(e),
        ),
    )
}

/// The JSON object that is kept for a response.
pub open spec fn response_json(r: provider::ResponseModel, max: int) -> JsonModel {
    kept_json(
        kept_of(r, max),
        provider::EntitiesModel { persons: person_forms(r.entities.persons), ..r.entities },
    )
}

/// Adds the plain form of each person's name to the tags.
fn merge_persons(tags: &mut Vec<String>, persons: &Vec<String>)
    ensures
        text::texts(final(tags)@) == with_persons(text::texts(old(tags)@), text::texts(persons@)),
{
    let ghost start = text::texts(tags@);
    let ghost all = text::texts(persons@);
    let mut i: usize = 0;
    assert(all.take(0) =~= Seq::<Seq<char>>::empty());
    while i < persons.len()
        invariant
            i <= persons@.len(),
            all == text::texts(persons@),
            text::texts(tags@) == with_persons(start, all.take(i as int)),
        decreases persons@.len() - i,
    {
        proof {
            assert(all.take(i + 1).drop_last() =~= all.take(i as int));
            assert(all.take(i + 1).last() == persons@[i as int]@);
        }
        let variants: Vec<String> = names::normalize_person_name(persons[i].as_str());
        if variants.len() > 0 {
            assert(text::texts(variants@)[0] == variants@[0]@);
            names::push_new(tags, text::copy_str(variants[0].as_str()));
        }
        i = i + 1;
    }
    assert(all.take(all.len() as int) =~= all);
}

/// All forms of the names of some persons.
fn all_person_forms(persons: &Vec<String>) -> (r: Vec<String>)
    ensures
        text::texts(r@) == person_forms(text::texts(persons@)),
{
    let ghost all = text::texts(persons@);
    let mut r: Vec<String> = Vec::new();
    let mut i: usize = 0;
    assert(all.take(0) =~= Seq::<Seq<char>>::empty());
    assert(text::texts(r@) =~= person_forms(all.take(0)));
    while i < persons.len()
        invariant
            i <= persons@.len(),
            all == text::texts(persons@),
            text::texts(r@) == person_forms(all.take(i as int)),
        decreases persons@.len() - i,
    {
        let ghost before = text::texts(r@);
        let variants: Vec<String> = names::normalize_person_name(persons[i].as_str());
        let ghost forms = text::texts(variants@);
        let mut k: usize = 0;
        assert(forms.take(0) =~= Seq::<Seq<char>>::empty());
        while k < variants.len()
            invariant
                k <= variants@.len(),
                forms == text::texts(variants@),
                text::texts(r@) == names::add_all(before, forms.take(k as int)),
            decreases variants@.len() - k,
        {
            proof {
                assert(forms.take(k + 1).drop_last() =~= forms.take(k as int));
                assert(forms.take(k + 1).last() == variants@[k as int]@);
            }
            names::push_new(&mut r, text::copy_str(variants[k].as_str()));
            k = k + 1;
        }
        proof {
            assert(forms.take(forms.len() as int) =~= forms);
            assert(all.take(i + 1).drop_last() =~= all.take(i as int));
            assert(all.take(i + 1).last() == persons@[i as int]@);
        }
        i = i + 1;
    }
    assert(all.take(all.len() as int) =~= all);
    r
}

/// Sets a field of an object to a list, unless the list is empty.
fn put_texts(v: &mut serde_json::Value, key: &str, list: &Vec<String>)
    requires
        json::json_model(*old(v)) is Object,
    ensures
        json::json_model(*final(v)) == JsonModel::Object(
            put_list(json::json_model(*old(v))->Object_0, key@, text::texts(list@)),
        ),
{
    if list.len() > 0 {
        json::set_field(v, key, json::texts_value(list.as_slice()));
    }
}

/// The JSON text in which tags and entities are kept.
pub fn tags_json(tags: &Vec<String>, entities: &Entities) -> (r: String)
    ensures
        r@ == json::json_render(kept_json(text::texts(tags@), entities@)),
        json::json_parse(r@) == Some(kept_json(text::texts(tags@), entities@)),
{
    let mut fields: serde_json::Value = json::empty_object();
    put_texts(&mut fields, "persons", &entities.persons);
    put_texts(&mut fields, "organizations", &entities.organizations);
    put_texts(&mut fields, "years", &entities.years);
    put_texts(&mut fields, "doc_id", &entities.doc_id);
    put_texts(&mut fields, "amounts", &entities.amounts);
    let mut v: serde_json::Value = json::empty_object();
    json::set_field(&mut v, "tags", json::texts_value(tags.as_slice()));
    json::set_field(&mut v, "entities", fields);
    proof {
        lemma_kept_json_is_tag_shaped(text::texts(tags@), entities@);
    }
    json::render_json(&v)
}

/// An array of texts holds texts only.
proof fn lemma_text_array(items: Seq<Seq<char>>)
    ensures
        json::is_text_array(json::text_array(items)),
{
}

/// Putting a list in keeps every field an array of texts.
proof fn lemma_put_list(fields: Map<Seq<char>, JsonModel>, key: Seq<char>, list: Seq<Seq<char>>)
    requires
        forall|k: Seq<char>| #[trigger] fields.contains_key(k) ==> json::is_text_array(fields[k]),
    ensures
        forall|k: Seq<char>| #[trigger]
            put_list(fields, key, list).contains_key(k) ==> json::is_text_array(
                put_list(fields, key, list)[k],
            ),
{
    lemma_text_array(list);
}

/// What is kept of a response is an object of arrays of texts.
proof fn lemma_kept_json_is_tag_shaped(tags: Seq<Seq<char>>, e: provider::EntitiesModel)
    ensures
        json::is_tag_shaped(kept_json(tags, e)),
{
    lemma_text_array(tags);
    let f0 = Map::<Seq<char>, JsonModel>::empty();
    let f1 = put_list(f0, "persons"@, e.persons);
    let f2 = put_list(f1, "organizations"@, e.organizations);
    let f3 = put_list(f2, "years"@, e.years);
    let f4 = put_list(f3, "doc_id"@, e.doc_id);
    lemma_put_list(f0, "persons"@, e.persons);
    lemma_put_list(f1, "organizations"@, e.organizations);
    lemma_put_list(f2, "years"@, e.years);
    lemma_put_list(f3, "doc_id"@, e.doc_id);
    lemma_put_list(f4, "amounts"@, e.amounts);
}

/// The tags that are read back from what is kept for a response are the tags that
/// were kept.
pub proof fn kept_tags_are_read_back(tags: Seq<Seq<char>>, e: provider::EntitiesModel, text: Seq<char>)
    requires
        json::json_parse(text) == Some(kept_json(tags, e)),
    ensures
        tag_json::kept_tags(text) == tags,
{
    reveal_strlit("tags");
    reveal_strlit("entities");
    assert("tags"@.len() != "entities"@.len());
    let v = kept_json(tags, e);
    assert(json::field_of(v, "tags"@) == Some(json::text_array(tags)));
    let items = tags.map_values(|s: Seq<char>| JsonModel::Text(s));
    lemma_item_texts(tags);
    assert(json::text_array(tags) == JsonModel::Array(items));
}

proof fn lemma_item_texts(tags: Seq<Seq<char>>)
    ensures
        tag_json::item_texts(tags.map_values(|s: Seq<char>| JsonModel::Text(s))) == tags,
    decreases tags.len(),
{
    reveal(Seq::filter);
    let f = |s: Seq<char>| JsonModel::Text(s);
    let p = |v: JsonModel| json::text_of(v) is Some;
    let g = |v: JsonModel| v->Text_0;
    let items = tags.map_values(f);
    if tags.len() == 0 {
        assert(tag_json::item_texts(items) =~= tags);
    } else {
        let rest = tags.drop_last();
        lemma_item_texts(rest);
        assert(items.drop_last() =~= rest.map_values(f));
        assert(items.last() == JsonModel::Text(tags.last()));
        assert(items.filter(p) =~= rest.map_values(f).filter(p).push(items.last()));
        assert(tag_json::item_texts(items) =~= tag_json::item_texts(rest.map_values(f)).push(
            tags.last(),
        ));
        assert(rest.push(tags.last()) =~= tags);
    }
}

/// No more tags are kept than the document may have.
pub proof fn kept_tags_are_capped(r: provider::ResponseModel, max: int)
    requires
        max >= 0,
    ensures
        kept_of(r, max).len() <= max,
{
}

// ── One document ──

/// The status row that is written for a job.
pub open spec fn job_status(
    job: JobModel,
    status: Seq<char>,
    tags_json: Option<Seq<char>>,
    last_error: Option<Seq<char>>,
    now: Seq<char>,
) -> model::StatusModel {
    store::status_model(
        job.hash,
        job.filename,
        job.hash_before,
        status,
        tags_json,
        last_error,
        now,
    )
}

/// The store in which the status row is written, where its document is there.
pub open spec fn written(m: StoreModel, s: model::StatusModel) -> StoreModel {
    if m.has_document(s.hash) {
        m.with_status(s)
    } else {
        m
    }
}

/// The same content was tagged already, under the same name.
pub open spec fn is_reusable(m: StoreModel, job: JobModel) -> bool {
    m.status_of(job.hash) matches Some(s) && s.hash_before == job.hash_before && s.status
        == "tagged"@
}

/// The tokens of a file name are enough to go by, and cache entry `i` is the one
/// that they find: at least 4 in 5 of them are among its own.
pub open spec fn is_cache_hit(m: StoreModel, tokens: Seq<Seq<char>>, i: int) -> bool {
    &&& tokens.len() >= 5
    &&& store::is_best_entry(m.cache, tokens, 4, 5, i)
    &&& store::rank(m.cache, i, m.cache.len() as int) < store::CACHE_LOOKUP_LIMIT
}

/// The names of the tags, in the order in which they are listed.
pub open spec fn is_tag_vocabulary(m: StoreModel, names: Seq<Seq<char>>) -> bool {
    exists|sorted: Seq<model::TagModel>| #[trigger]
        store::is_sorted_by_key::<Tag>(m.tags, sorted) && names == sorted.map_values(
            |t: model::TagModel| t.name,
        )
}

/// The error of a document that was not sent because the breaker is open.
pub open spec fn refused_error() -> Seq<char> {
    "Skipped: API circuit breaker open (provider unavailable)"@
}

/// How a job begins: `action` comes next, the store is `after`, and the breaker
/// `b2`.
pub open spec fn is_begun(
    job: JobModel,
    enabled: bool,
    max_retries: u32,
    m: StoreModel,
    b: BreakerModel,
    now: Seq<char>,
    now_ms: usize,
    action: TagAction,
    after: StoreModel,
    b2: BreakerModel,
) -> bool {
    let tokens = names::filename_tokens(job.filename);
    if !enabled {
        &&& action == TagAction::Done(TagOutcome::Disabled)
        &&& after == written(m, job_status(job, "pending"@, None, None, now))
        &&& b2 == b
    } else if is_reusable(m, job) {
        &&& action == TagAction::Done(TagOutcome::Reused)
        &&& after == m
        &&& b2 == b
    } else if exists|i: int| is_cache_hit(m, tokens, i) {
        &&& action == TagAction::Done(TagOutcome::Cached)
        &&& exists|i: int| #[trigger]
            is_cache_hit(m, tokens, i) && after == written(
                m,
                job_status(job, "tagged"@, Some(m.cache[i].tags_json), None, now),
            )
        &&& b2 == b
    } else if !b.allows(now_ms) {
        &&& action == TagAction::Done(TagOutcome::Refused)
        &&& after == written(m, job_status(job, "failed"@, None, Some(refused_error()), now))
        &&& b2 == b
    } else if max_retries == 0 {
        &&& action == TagAction::Done(TagOutcome::Failed)
        &&& after == written(m, job_status(job, "failed"@, None, Some(""@), now))
        &&& b2 == b.after_request(now_ms).after_no_call()
    } else {
        &&& action matches TagAction::Ask(question) && question.attempt == 0 && is_tag_vocabulary(
            m,
            text::texts(question.existing@),
        )
        &&& after == m
        &&& b2 == b.after_request(now_ms)
    }
}

/// Writes the status row of a job, where its document is there.
fn write_status(
    tag_store: &mut TagStore,
    job: &TagJob,
    status: &str,
    tags_json: Option<&str>,
    last_error: Option<&str>,
    now: &str,
)
    requires
        old(tag_store).wf(),
    ensures
        final(tag_store).wf(),
        final(tag_store)@ == written(
            old(tag_store)@,
            job_status(
                job@,
                status@,
                model::opt_str(tags_json),
                model::opt_str(last_error),
                now@,
            ),
        ),
{
    let _r: Result<(), StoreError> = tag_store.upsert_auto_tag_status_at(
        job.content_hash.as_str(),
        job.filename.as_str(),
        job.content_hash_before_tag.as_str(),
        status,
        tags_json,
        last_error,
        now,
    );
}

/// The names of the tags, in the order in which they are listed.
fn tag_vocabulary(tag_store: &TagStore) -> (r: Vec<String>)
    ensures
        is_tag_vocabulary(tag_store@, text::texts(r@)),
{
    let tags: Vec<Tag> = match tag_store.list_tags() {
        Ok(tags) => tags,
        Err(_) => Vec::new(),
    };
    let mut r: Vec<String> = Vec::new();
    let mut i: usize = 0;
    while i < tags.len()
        invariant
            i <= tags@.len(),
            r@.len() == i,
            forall|k: int| 0 <= k < i ==> (#[trigger] r@[k])@ == tags@[k].name@,
        decreases tags@.len() - i,
    {
        r.push(text::copy_str(tags[i].name.as_str()));
        i = i + 1;
    }
    assert(text::texts(r@) =~= model::views(tags@).map_values(|t: model::TagModel| t.name));
    r
}

/// Begin with a document: off, tagged already, tagged by its file name, refused by
/// the breaker, or to be asked of the provider.
pub fn begin_tagging(
    job: &TagJob,
    tag_store: &mut TagStore,
    config: &AutoTagConfig,
    breaker: &mut ApiCircuitBreaker,
    now: &str,
    now_ms: usize,
) -> (action: TagAction)
    requires
        old(tag_store).wf(),
    ensures
        final(tag_store).wf(),
        is_begun(
            job@,
            config.enabled,
            config.max_retries,
            old(tag_store)@,
            old(breaker)@,
            now@,
            now_ms,
            action,
            final(tag_store)@,
            final(breaker)@,
        ),
{
    let ghost m = tag_store@;
    let ghost wanted = names::filename_tokens(job@.filename);
    if !config.enabled {
        write_status(tag_store, job, "pending", None, None, now);
        return TagAction::Done(TagOutcome::Disabled);
    }
    let found: Result<Option<AutoTagStatus>, StoreError> = tag_store.auto_tag_status(
        job.content_hash.as_str(),
    );
    if let Ok(Some(status)) = found {
        if text::same_text(
            status.content_hash_before_tag.as_str(),
            job.content_hash_before_tag.as_str(),
        ) && text::same_text(status.status.as_str(), "tagged") {
            return TagAction::Done(TagOutcome::Reused);
        }
    }
    assert(!is_reusable(m, job@));
    let tokens: Vec<String> = names::extract_filename_tokens(job.filename.as_str());
    assert(tokens@.len() == text::texts(tokens@).len());
    if tokens.len() >= 5 {
        let hit: Result<Option<String>, StoreError> = tag_store.lookup_cache_by_tokens(
            tokens.as_slice(),
            4,
            5,
        );
        if let Ok(Some(cached)) = hit {
            proof {
                let i = choose|i: int| #[trigger]
                    store::is_best_entry(m.cache, wanted, 4, 5, i) && store::rank(
                        m.cache,
                        i,
                        m.cache.len() as int,
                    ) < store::CACHE_LOOKUP_LIMIT && cached@ == m.cache[i].tags_json;
                assert(is_cache_hit(m, wanted, i));
            }
            write_status(tag_store, job, "tagged", Some(cached.as_str()), None, now);
            return TagAction::Done(TagOutcome::Cached);
        }
    }
    assert(!(exists|i: int| is_cache_hit(m, wanted, i)));
    if !breaker.allow_request_at(now_ms) {
        write_status(
            tag_store,
            job,
            "failed",
            None,
            Some("Skipped: API circuit breaker open (provider unavailable)"),
            now,
        );
        return TagAction::Done(TagOutcome::Refused);
    }
    if config.max_retries == 0 {
        breaker.record_no_call();
        write_status(tag_store, job, "failed", None, Some(""), now);
        return TagAction::Done(TagOutcome::Failed);
    }
    TagAction::Ask(Question { attempt: 0, existing: tag_vocabulary(tag_store) })
}

/// How long to wait after an attempt: twice as long each time.
pub open spec fn backoff(attempt: u32) -> u64
    decreases attempt,
{
    if attempt == 0 {
        1
    } else {
        let before = backoff((attempt - 1) as u32);
        if before > u64::MAX / 2 {
            u64::MAX
        } else {
            (before * 2) as u64
        }
    }
}

/// How long to wait after an attempt, in seconds.
pub fn backoff_seconds(attempt: u32) -> (r: u64)
    ensures
        r == backoff(attempt),
{
    let mut r: u64 = 1;
    let mut i: u32 = 0;
    while i < attempt
        invariant
            i <= attempt,
            r == backoff(i),
        decreases attempt - i,
    {
        r = if r > u64::MAX / 2 {
            u64::MAX
        } else {
            r * 2
        };
        i = i + 1;
    }
    r
}

/// The store once the tags of a response are kept for a document: in its status row,
/// as a text that is read back, and in the cache under the tokens of its file name.
pub open spec fn is_kept(
    job: JobModel,
    max_tags: int,
    response: provider::ResponseModel,
    m: StoreModel,
    now: Seq<char>,
    after: StoreModel,
) -> bool {
    let tokens = names::filename_tokens(job.filename);
    let kept = json::json_render(response_json(response, max_tags));
    let tagged = written(m, job_status(job, "tagged"@, Some(kept), None, now));
    &&& json::json_parse(kept) == Some(response_json(response, max_tags))
    &&& after == (if tokens.len() > 0 {
        tagged.with_cache_entry(text::join(tokens, " "@), kept, job.hash, now)
    } else {
        tagged
    })
}

/// What becomes of a document once the provider has replied to a question.
pub open spec fn is_answered(
    job: JobModel,
    question: Question,
    max_retries: u32,
    max_tags: int,
    reply: Result<TagResponse, TagError>,
    m: StoreModel,
    b: BreakerModel,
    now: Seq<char>,
    now_ms: usize,
    action: TagAction,
    after: StoreModel,
    b2: BreakerModel,
) -> bool {
    match reply {
        Ok(response) => {
            &&& action == TagAction::Done(TagOutcome::Tagged)
            &&& is_kept(job, max_tags, response@, m, now, after)
            &&& b2 == b.after_success()
        },
        Err(e) => {
            let transient = provider::error_kind(e) == provider::ErrorKind::Unavailable;
            &&& b2 == (if transient {
                b.after_failure(now_ms)
            } else {
                b.after_answer()
            })
            &&& if transient && question.attempt + 1 < max_retries {
                &&& action matches TagAction::Wait(seconds, next) && seconds == backoff(
                    question.attempt,
                ) && next.attempt == question.attempt + 1 && next.existing == question.existing
                &&& after == m
            } else {
                action == TagAction::Done(TagOutcome::Failed) && after == written(
                    m,
                    job_status(job, "failed"@, None, Some(provider::error_message(e)), now),
                )
            }
        },
    }
}

/// Go on with a document once the provider has replied: keep its tags, try again
/// later, or give up.
#[allow(clippy::too_many_arguments)]
pub fn continue_tagging(
    job: &TagJob,
    question: Question,
    reply: Result<TagResponse, TagError>,
    tag_store: &mut TagStore,
    config: &AutoTagConfig,
    breaker: &mut ApiCircuitBreaker,
    now: &str,
    now_ms: usize,
) -> (action: TagAction)
    requires
        old(tag_store).wf(),
    ensures
        final(tag_store).wf(),
        is_answered(
            job@,
            question,
            config.max_retries,
            config.max_tags_per_doc as int,
            reply,
            old(tag_store)@,
            old(breaker)@,
            now@,
            now_ms,
            action,
            final(tag_store)@,
            final(breaker)@,
        ),
{
    match reply {
        Ok(response) => {
            breaker.record_success();
            let ghost whole = response@;
            let mut all_tags: Vec<String> = response.tags;
            merge_persons(&mut all_tags, &response.entities.persons);
            let ghost merged = text::texts(all_tags@);
            if config.max_tags_per_doc < all_tags.len() {
                all_tags.truncate(config.max_tags_per_doc);
            }
            assert(text::texts(all_tags@) =~= kept_of(whole, config.max_tags_per_doc as int));
            let entities = Entities {
                persons: all_person_forms(&response.entities.persons),
                organizations: response.entities.organizations,
                years: response.entities.years,
                doc_id: response.entities.doc_id,
                amounts: response.entities.amounts,
            };
            let kept: String = tags_json(&all_tags, &entities);
            write_status(tag_store, job, "tagged", Some(kept.as_str()), None, now);
            let tokens: Vec<String> = names::extract_filename_tokens(job.filename.as_str());
            assert(tokens@.len() == text::texts(tokens@).len());
            if tokens.len() > 0 {
                let joined: String = text::join_texts(&tokens, " ");
                tag_store.upsert_cache_entry_at(
                    joined.as_str(),
                    kept.as_str(),
                    job.content_hash.as_str(),
                    now,
                );
            }
            TagAction::Done(TagOutcome::Tagged)
        },
        Err(e) => {
            let transient: bool = matches!(e, TagError::Unavailable(_));
            if transient {
                breaker.record_failure_at(now_ms);
            } else {
                breaker.record_answer();
            }
            if transient && question.attempt < config.max_retries && question.attempt + 1
                < config.max_retries {
                return TagAction::Wait(
                    backoff_seconds(question.attempt),
                    Question { attempt: question.attempt + 1, existing: question.existing },
                );
            }
            let message: String = e.message();
            write_status(tag_store, job, "failed", None, Some(message.as_str()), now);
            TagAction::Done(TagOutcome::Failed)
        },
    }
}

/// The rows of every other document are the same, and so are the documents, the
/// tags and the associations.
pub open spec fn only_status_changed(m: StoreModel, after: StoreModel, hash: Seq<char>) -> bool {
    &&& after.documents == m.documents
    &&& after.tags == m.tags
    &&& after.links == m.links
    &&& forall|h: Seq<char>| h != hash ==> #[trigger] after.status_of(h) == m.status_of(h)
}

/// What becomes of the store when a document is worked on: its own status row changes,
/// to that of the outcome, and nothing else of the documents.
pub open spec fn is_worked_on(
    m: StoreModel,
    job: JobModel,
    outcome: TagOutcome,
    after: StoreModel,
) -> bool {
    &&& only_status_changed(m, after, job.hash)
    &&& m.has_document(job.hash) ==> (after.status_of(job.hash) matches Some(s) && s.status
        == outcome_status(outcome) && s.hash_before == job.hash_before)
}

/// The status that an outcome leaves a document with.
pub open spec fn outcome_status(outcome: TagOutcome) -> Seq<char> {
    match outcome {
        TagOutcome::Disabled => "pending"@,
        TagOutcome::Reused => "tagged"@,
        TagOutcome::Cached => "tagged"@,
        TagOutcome::Refused => "failed"@,
        TagOutcome::Tagged => "tagged"@,
        TagOutcome::Failed => "failed"@,
    }
}

/// Writing the status row of a document changes nothing else.
proof fn lemma_written(m: StoreModel, s: model::StatusModel)
    requires
        m.wf(),
    ensures
        written(m, s).wf(),
        only_status_changed(m, written(m, s), s.hash),
        m.has_document(s.hash) ==> written(m, s).status_of(s.hash) == Some(s),
{
    if m.has_document(s.hash) {
        store::status_written_is_status_read(m, s);
    }
}

/// A document has to be asked about: auto-tagging is on, the document is not tagged
/// yet, and no other has much the same file name.
pub open spec fn is_for_provider(job: JobModel, enabled: bool, m: StoreModel) -> bool {
    &&& enabled
    &&& !is_reusable(m, job)
    &&& !(exists|i: int| is_cache_hit(m, names::filename_tokens(job.filename), i))
}

/// The provider may reply this when it is asked about a document, and told the tags
/// that exist.
pub open spec fn may_be_told<P: TagProvider>(
    provider: P,
    job: JobModel,
    m: StoreModel,
    existing: Seq<Seq<char>>,
    reply: Result<TagResponse, TagError>,
) -> bool {
    is_tag_vocabulary(m, existing) && provider.may_reply(job.filename, job.text, existing, reply)
}

/// The breaker once a call was allowed at `now_ms`, and calls failed at each of these
/// times.
pub open spec fn is_after_calls(
    b: BreakerModel,
    now_ms: usize,
    times: Seq<usize>,
    called: BreakerModel,
) -> bool {
    b.allows(now_ms) && called == b.after_request(now_ms).after_failures(times)
}

/// What becomes of a document, where its status is written at `now`: the store is
/// `after`, and the breaker `b2`. The tags that are kept are those of a reply of the
/// provider to a question about this document, and so is the error; the provider is
/// asked only where the breaker allows it, and one that is not available as often as
/// the configuration says.
pub open spec fn is_outcome<P: TagProvider>(
    provider: P,
    job: JobModel,
    config: AutoTagConfig,
    m: StoreModel,
    b: BreakerModel,
    now: Seq<char>,
    outcome: TagOutcome,
    after: StoreModel,
    b2: BreakerModel,
) -> bool {
    let tokens = names::filename_tokens(job.filename);
    match outcome {
        TagOutcome::Disabled => {
            &&& !config.enabled
            &&& after == written(m, job_status(job, "pending"@, None, None, now))
            &&& b2 == b
        },
        TagOutcome::Reused => config.enabled && is_reusable(m, job) && after == m && b2 == b,
        TagOutcome::Cached => {
            &&& config.enabled
            &&& !is_reusable(m, job)
            &&& exists|i: int| #[trigger]
                is_cache_hit(m, tokens, i) && after == written(
                    m,
                    job_status(job, "tagged"@, Some(m.cache[i].tags_json), None, now),
                )
            &&& b2 == b
        },
        TagOutcome::Refused => {
            &&& is_for_provider(job, config.enabled, m)
            &&& exists|now_ms: usize| !(#[trigger] b.allows(now_ms))
            &&& after == written(m, job_status(job, "failed"@, None, Some(refused_error()), now))
            &&& b2 == b
        },
        TagOutcome::Tagged => {
            &&& is_for_provider(job, config.enabled, m)
            &&& exists|existing: Seq<Seq<char>>, response: TagResponse| #[trigger]
                may_be_told(provider, job, m, existing, Ok(response)) && is_kept(
                    job,
                    config.max_tags_per_doc as int,
                    response@,
                    m,
                    now,
                    after,
                )
            &&& exists|now_ms: usize, times: Seq<usize>, called: BreakerModel| #[trigger]
                is_after_calls(b, now_ms, times, called) && times.len() < config.max_retries
            &&& b2 == b.after_success()
        },
        TagOutcome::Failed => {
            &&& is_for_provider(job, config.enabled, m)
            &&& if config.max_retries == 0 {
                &&& after == written(m, job_status(job, "failed"@, None, Some(""@), now))
                &&& exists|now_ms: usize| #[trigger]
                    b.allows(now_ms) && b2 == b.after_request(now_ms).after_no_call()
            } else {
                exists|
                    existing: Seq<Seq<char>>,
                    e: TagError,
                    now_ms: usize,
                    times: Seq<usize>,
                    called: BreakerModel,
                |
                    {
                        &&& #[trigger] may_be_told(provider, job, m, existing, Err(e))
                        &&& #[trigger] is_after_calls(b, now_ms, times, called)
                        &&& after == written(
                            m,
                            job_status(
                                job,
                                "failed"@,
                                None,
                                Some(provider::error_message(e)),
                                now,
                            ),
                        )
                        &&& if provider::error_kind(e) == provider::ErrorKind::Unavailable {
                            times.len() == config.max_retries && b2 == called
                        } else {
                            times.len() < config.max_retries && b2 == called.after_answer()
                        }
                    }
            }
        },
    }
}

/// Process one document: ask the provider as often as it takes, waiting between
/// the attempts by `sleep`.
#[allow(clippy::too_many_arguments)]
pub fn tag_document<P: TagProvider, S: Fn(u64)>(
    job: &TagJob,
    tag_store: &mut TagStore,
    provider: &P,
    config: &AutoTagConfig,
    breaker: &mut ApiCircuitBreaker,
    sleep: &S,
) -> (outcome: TagOutcome)
    requires
        old(tag_store).wf(),
        forall|seconds: u64| #[trigger] call_requires(*sleep, (seconds,)),
    ensures
        final(tag_store).wf(),
        is_worked_on(old(tag_store)@, job@, outcome, final(tag_store)@),
        exists|now: Seq<char>|
            crate::times::is_store_time(now) && #[trigger] is_outcome(
                *provider,
                job@,
                *config,
                old(tag_store)@,
                old(breaker)@,
                now,
                outcome,
                final(tag_store)@,
                final(breaker)@,
            ),
{
    let ghost m = tag_store@;
    let now: String = crate::times::current_time();
    let now_ms: usize = ApiCircuitBreaker::now_ms();
    let first: TagAction = begin_tagging(job, tag_store, config, breaker, now.as_str(), now_ms);
    proof {
        lemma_job_written(m, job@, now@);
    }
    let mut question: Question = match first {
        TagAction::Done(outcome) => {
            proof {
                lemma_begun_done(
                    job@,
                    config.enabled,
                    config.max_retries,
                    m,
                    old(breaker)@,
                    now@,
                    now_ms,
                    first,
                    tag_store@,
                    breaker@,
                );
                assert(outcome == TagOutcome::Failed ==> old(breaker)@.allows(now_ms));
                assert(is_outcome(
                    *provider,
                    job@,
                    *config,
                    m,
                    old(breaker)@,
                    now@,
                    outcome,
                    tag_store@,
                    breaker@,
                ));
            }
            return outcome;
        },
        TagAction::Ask(question) => question,
        TagAction::Wait(_, question) => question,
    };
    let ghost b0 = old(breaker)@;
    let ghost asked_at = now_ms;
    let ghost mut times: Seq<usize> = Seq::empty();
    assert(is_after_calls(b0, asked_at, times, breaker@));
    loop
        invariant
            b0 == old(breaker)@,
            is_after_calls(b0, asked_at, times, breaker@),
            times.len() == question.attempt,
            is_tag_vocabulary(m, text::texts(question.existing@)),
            is_for_provider(job@, config.enabled, m),
            question.attempt < config.max_retries,
            tag_store.wf(),
            tag_store@ == m,
            m.wf(),
            forall|seconds: u64| #[trigger] call_requires(*sleep, (seconds,)),
            m == old(tag_store)@,
        decreases config.max_retries - question.attempt,
    {
        let reply: Result<TagResponse, TagError> = provider.generate_tags(
            job.filename.as_str(),
            job.text.as_str(),
            question.existing.as_slice(),
        );
        let now: String = crate::times::current_time();
        let now_ms: usize = ApiCircuitBreaker::now_ms();
        let ghost b = breaker@;
        let ghost told = reply;
        let ghost asked = question;
        assert(may_be_told(*provider, job@, m, text::texts(asked.existing@), told));
        let action: TagAction = continue_tagging(
            job,
            question,
            reply,
            tag_store,
            config,
            breaker,
            now.as_str(),
            now_ms,
        );
        match action {
            TagAction::Done(outcome) => {
                proof {
                    lemma_answered_done(
                        job@,
                        asked,
                        config.max_retries,
                        config.max_tags_per_doc as int,
                        told,
                        m,
                        b,
                        now@,
                        now_ms,
                        action,
                        tag_store@,
                        breaker@,
                    );
                    lemma_after_failures(b0.after_request(asked_at), times);
                    if told is Err {
                        let all = if provider::error_kind(told->Err_0) == provider::ErrorKind::Unavailable {
                            times.push(now_ms)
                        } else {
                            times
                        };
                        assert(times.push(now_ms).drop_last() =~= times);
                        let called = if provider::error_kind(told->Err_0) == provider::ErrorKind::Unavailable {
                            breaker@
                        } else {
                            b
                        };
                        assert(is_after_calls(b0, asked_at, all, called));
                    }
                    assert(is_outcome(
                        *provider,
                        job@,
                        *config,
                        m,
                        b0,
                        now@,
                        outcome,
                        tag_store@,
                        breaker@,
                    ));
                }
                return outcome;
            },
            TagAction::Wait(seconds, next) => {
                proof {
                    assert(times.push(now_ms).drop_last() =~= times);
                    times = times.push(now_ms);
                }
                sleep(seconds);
                question = next;
            },
            TagAction::Ask(next) => {
                assert(false);
                question = next;
            },
        }
    }
}

/// Failures change neither the threshold nor the cooldown.
proof fn lemma_after_failures(b: BreakerModel, times: Seq<usize>)
    ensures
        b.after_failures(times).threshold == b.threshold,
        b.after_failures(times).cooldown == b.cooldown,
    decreases times.len(),
{
    if times.len() > 0 {
        lemma_after_failures(b, times.drop_last());
    }
}

/// Writing the status row of a job changes nothing else.
proof fn lemma_job_written(m: StoreModel, job: JobModel, now: Seq<char>)
    requires
        m.wf(),
    ensures
        forall|status: Seq<char>, tags: Option<Seq<char>>, error: Option<Seq<char>>|
            {
                let s = job_status(job, status, tags, error, now);
                let after = #[trigger] written(m, job_status(job, status, tags, error, now));
                &&& only_status_changed(m, after, job.hash)
                &&& m.has_document(job.hash) ==> after.status_of(job.hash) == Some(s)
            },
{
    assert forall|status: Seq<char>, tags: Option<Seq<char>>, error: Option<Seq<char>>|
        {
            let s = job_status(job, status, tags, error, now);
            let after = #[trigger] written(m, job_status(job, status, tags, error, now));
            &&& only_status_changed(m, after, job.hash)
            &&& m.has_document(job.hash) ==> after.status_of(job.hash) == Some(s)
        } by {
        lemma_written(m, job_status(job, status, tags, error, now));
    }
}

/// A job that ends where it begins changes its own status row only.
proof fn lemma_begun_done(
    job: JobModel,
    enabled: bool,
    max_retries: u32,
    m: StoreModel,
    b: BreakerModel,
    now: Seq<char>,
    now_ms: usize,
    action: TagAction,
    after: StoreModel,
    b2: BreakerModel,
)
    requires
        m.wf(),
        is_begun(job, enabled, max_retries, m, b, now, now_ms, action, after, b2),
        action is Done,
    ensures
        only_status_changed(m, after, job.hash),
        m.has_document(job.hash) ==> (after.status_of(job.hash) matches Some(s) && s.status
            == outcome_status(action->Done_0) && s.hash_before == job.hash_before),
{
    lemma_job_written(m, job, now);
}

/// A job that ends with a reply changes its own status row, and the cache.
proof fn lemma_answered_done(
    job: JobModel,
    question: Question,
    max_retries: u32,
    max_tags: int,
    reply: Result<TagResponse, TagError>,
    m: StoreModel,
    b: BreakerModel,
    now: Seq<char>,
    now_ms: usize,
    action: TagAction,
    after: StoreModel,
    b2: BreakerModel,
)
    requires
        m.wf(),
        is_answered(
            job,
            question,
            max_retries,
            max_tags,
            reply,
            m,
            b,
            now,
            now_ms,
            action,
            after,
            b2,
        ),
        action is Done,
    ensures
        only_status_changed(m, after, job.hash),
        m.has_document(job.hash) ==> (after.status_of(job.hash) matches Some(s) && s.status
            == outcome_status(action->Done_0) && s.hash_before == job.hash_before),
{
    lemma_job_written(m, job, now);
    let tokens = names::filename_tokens(job.filename);
    if let Ok(response) = reply {
        let kept = json::json_render(response_json(response@, max_tags));
        let tagged = written(m, job_status(job, "tagged"@, Some(kept), None, now));
        if tokens.len() > 0 {
            let cached = tagged.with_cache_entry(text::join(tokens, " "@), kept, job.hash, now);
            assert(cached.statuses == tagged.statuses);
            assert forall|h: Seq<char>| #[trigger] cached.status_of(h) == tagged.status_of(h) by {
                store::same_rows_same_status(cached, tagged, h);
            }
        }
    }
}

// ── Requests ──

/// What a worker does with a request.
#[derive(Debug, Clone)]
pub enum RequestAction {
    /// Stop.
    Stop,
    /// Nothing: another worker has the document.
    Skip,
    /// Tag the document.
    Tag(TagJob),
}

/// The document is in the hands of a worker.
pub open spec fn is_claimed(m: StoreModel, hash: Seq<char>) -> bool {
    m.status_of(hash) matches Some(s) && s.status == "processing"@
}

/// Decide what to do with a request. A document that another worker has claimed is
/// left to it.
pub fn accept_request(request: AutoTagRequest, tag_store: &TagStore) -> (r: RequestAction)
    requires
        tag_store.wf(),
    ensures
        match request {
            AutoTagRequest::Shutdown => r is Stop,
            AutoTagRequest::TagDocument {
                content_hash,
                filename,
                text,
                content_hash_before_tag,
            } => if is_claimed(tag_store@, content_hash@) {
                r is Skip
            } else {
                r == RequestAction::Tag(
                    TagJob { content_hash, filename, text, content_hash_before_tag },
                )
            },
        },
{
    match request {
        AutoTagRequest::Shutdown => RequestAction::Stop,
        AutoTagRequest::TagDocument { content_hash, filename, text, content_hash_before_tag } => {
            let found: Result<Option<AutoTagStatus>, StoreError> = tag_store.auto_tag_status(
                content_hash.as_str(),
            );
            if let Ok(Some(status)) = found {
                if text::same_text(status.status.as_str(), "processing") {
                    return RequestAction::Skip;
                }
            }
            RequestAction::Tag(TagJob { content_hash, filename, text, content_hash_before_tag })
        },
    }
}

/// The job that a request asks for.
pub open spec fn job_of(request: AutoTagRequest) -> JobModel {
    match request {
        AutoTagRequest::TagDocument { content_hash, filename, text, content_hash_before_tag } => JobModel {
            hash: content_hash@,
            filename: filename@,
            text: text@,
            hash_before: content_hash_before_tag@,
        },
        AutoTagRequest::Shutdown => arbitrary(),
    }
}

/// Process one request: whether the worker stops, and what became of the document
/// where one was tagged.
pub fn process_request<P: TagProvider, S: Fn(u64)>(
    request: AutoTagRequest,
    tag_store: &mut TagStore,
    provider: &P,
    config: &AutoTagConfig,
    breaker: &mut ApiCircuitBreaker,
    sleep: &S,
) -> (r: (bool, Option<TagOutcome>))
    requires
        old(tag_store).wf(),
        forall|seconds: u64| #[trigger] call_requires(*sleep, (seconds,)),
    ensures
        final(tag_store).wf(),
        r.0 == (request is Shutdown),
        r.1 is Some <==> (request matches AutoTagRequest::TagDocument { content_hash, .. }
            && !is_claimed(old(tag_store)@, content_hash@)),
        r.1 is None ==> final(tag_store)@ == old(tag_store)@ && final(breaker)@ == old(breaker)@,
        r.1 is Some ==> {
            let job = job_of(request);
            &&& is_worked_on(old(tag_store)@, job, r.1->0, final(tag_store)@)
            &&& exists|now: Seq<char>|
                crate::times::is_store_time(now) && #[trigger] is_outcome(
                    *provider,
                    job,
                    *config,
                    old(tag_store)@,
                    old(breaker)@,
                    now,
                    r.1->0,
                    final(tag_store)@,
                    final(breaker)@,
                )
        },
{
    let ghost asked = job_of(request);
    match accept_request(request, tag_store) {
        RequestAction::Stop => (true, None),
        RequestAction::Skip => (false, None),
        RequestAction::Tag(job) => {
            assert(job@ == asked);
            let outcome: TagOutcome = tag_document(&job, tag_store, provider, config, breaker, sleep);
            let answer: (bool, Option<TagOutcome>) = (false, Some(outcome));
            proof {
                let now = choose|now: Seq<char>|
                    crate::times::is_store_time(now) && #[trigger] is_outcome(
                        *provider,
                        asked,
                        *config,
                        old(tag_store)@,
                        old(breaker)@,
                        now,
                        outcome,
                        tag_store@,
                        breaker@,
                    );
                assert(is_outcome(
                    *provider,
                    asked,
                    *config,
                    old(tag_store)@,
                    old(breaker)@,
                    now,
                    answer.1->0,
                    tag_store@,
                    breaker@,
                ));
            }
            answer
        },
    }
}

// ── The loop ──

/// How many documents are tagged at the same time.
pub const WORKERS: usize = 3;

/// How many waiting rows a worker takes when it starts.
pub const STARTUP_CLAIM: usize = 100;

/// How many waiting rows a worker takes when no request comes.
pub const IDLE_CLAIM: usize = 8;

/// How long a worker waits for a request, in milliseconds.
pub const REQUEST_WAIT_MS: u64 = 100;

/// How often rows that are stranded in flight are looked for, in milliseconds.
pub const SWEEP_INTERVAL_MS: u64 = 60000;

/// How long a row may be in flight before it counts as stranded, in minutes.
pub const STALE_PROCESSING_AGE_MINUTES: u32 = 10;

/// How often the queue is shown anew when nothing happens, in milliseconds.
pub const QUEUE_REFRESH_MS: u64 = 2000;

/// What an idle worker does.
#[derive(Debug, Clone, Copy, PartialEq, Eq, Structural)]
pub struct IdlePlan {
    /// Put rows that are stranded in flight back to waiting.
    pub sweep: bool,
    /// Show the queue anew.
    pub refresh: bool,
    /// Take at most so many waiting rows.
    pub claim: usize,
}

/// When an idle worker last swept and last showed the queue, in milliseconds since
/// it started.
#[derive(Debug, Clone)]
pub struct IdleClock {
    pub last_sweep_ms: u64,
    pub last_refresh_ms: u64,
}

/// How much time has passed.
pub open spec fn passed(since: u64, now: u64) -> int {
    if now >= since {
        now - since
    } else {
        0
    }
}

impl IdleClock {
    /// The clock of a worker that starts.
    pub fn new(now_ms: u64) -> (r: Self)
        ensures
            r.last_sweep_ms == now_ms,
            r.last_refresh_ms == now_ms,
    {
        IdleClock { last_sweep_ms: now_ms, last_refresh_ms: now_ms }
    }

    /// Decide what to do when no request has come. Sweeps and refreshes are spaced
    /// out; waiting rows are taken each time.
    pub fn on_idle(&mut self, now_ms: u64) -> (r: IdlePlan)
        ensures
            r.sweep == (passed(old(self).last_sweep_ms, now_ms) >= SWEEP_INTERVAL_MS),
            r.refresh == (passed(old(self).last_refresh_ms, now_ms) >= QUEUE_REFRESH_MS),
            r.claim == IDLE_CLAIM,
            final(self).last_sweep_ms == (if r.sweep {
                now_ms
            } else {
                old(self).last_sweep_ms
            }),
            final(self).last_refresh_ms == (if r.refresh {
                now_ms
            } else {
                old(self).last_refresh_ms
            }),
    {
        let sweep: bool = now_ms >= self.last_sweep_ms && now_ms - self.last_sweep_ms
            >= SWEEP_INTERVAL_MS;
        let refresh: bool = now_ms >= self.last_refresh_ms && now_ms - self.last_refresh_ms
            >= QUEUE_REFRESH_MS;
        if sweep {
            self.last_sweep_ms = now_ms;
        }
        if refresh {
            self.last_refresh_ms = now_ms;
        }
        IdlePlan { sweep: sweep, refresh: refresh, claim: IDLE_CLAIM }
    }
}

/// The job for a row that was taken from the queue. `text` is what the document
/// holds, where it could be read; a document that could not is tagged by its name.
pub fn job_for_claimed(row: &AutoTagStatus, text: Option<String>) -> (r: TagJob)
    ensures
        r@ == (JobModel {
            hash: row@.hash,
            filename: row@.filename,
            text: match text {
                Some(t) => t@,
                None => Seq::empty(),
            },
            hash_before: row@.hash_before,
        }),
{
    TagJob {
        content_hash: text::copy_str(row.content_hash.as_str()),
        filename: text::copy_str(row.filename.as_str()),
        text: match text {
            Some(t) => t,
            None => String::new(),
        },
        content_hash_before_tag: text::copy_str(row.content_hash_before_tag.as_str()),
    }
}

// ── What holds of tagging as a whole ──

/// A document that the provider has tagged is not asked about again: the same job
/// ends at once, and nothing changes.
pub proof fn tagged_content_is_not_sent_again(
    job: JobModel,
    question: Question,
    max_retries: u32,
    max_tags: int,
    response: TagResponse,
    m: StoreModel,
    b: BreakerModel,
    now: Seq<char>,
    now_ms: usize,
    action: TagAction,
    after: StoreModel,
    b2: BreakerModel,
    later: Seq<char>,
    later_ms: usize,
    again: TagAction,
    after_again: StoreModel,
    b3: BreakerModel,
)
    requires
        m.wf(),
        m.has_document(job.hash),
        is_answered(
            job,
            question,
            max_retries,
            max_tags,
            Ok(response),
            m,
            b,
            now,
            now_ms,
            action,
            after,
            b2,
        ),
        is_begun(
            job,
            true,
            max_retries,
            after,
            b2,
            later,
            later_ms,
            again,
            after_again,
            b3,
        ),
    ensures
        again == TagAction::Done(TagOutcome::Reused),
        after_again == after,
        b3 == b2,
{
    lemma_answered_done(
        job,
        question,
        max_retries,
        max_tags,
        Ok(response),
        m,
        b,
        now,
        now_ms,
        action,
        after,
        b2,
    );
}

/// Nothing is asked of the provider while auto-tagging is off or the breaker is
/// open.
pub proof fn nothing_is_sent_while_off_or_open(
    job: JobModel,
    enabled: bool,
    max_retries: u32,
    m: StoreModel,
    b: BreakerModel,
    now: Seq<char>,
    now_ms: usize,
    action: TagAction,
    after: StoreModel,
    b2: BreakerModel,
)
    requires
        is_begun(job, enabled, max_retries, m, b, now, now_ms, action, after, b2),
        !enabled || !b.allows(now_ms),
    ensures
        action is Done,
        b2 == b,
{
}

/// What the provider gives for a document is what is read back for it: the status
/// row keeps the tags of the response, with the names of the persons among them.
pub proof fn tags_of_a_response_are_kept(
    job: JobModel,
    question: Question,
    max_retries: u32,
    max_tags: int,
    response: TagResponse,
    m: StoreModel,
    b: BreakerModel,
    now: Seq<char>,
    now_ms: usize,
    action: TagAction,
    after: StoreModel,
    b2: BreakerModel,
)
    requires
        m.wf(),
        m.has_document(job.hash),
        is_answered(
            job,
            question,
            max_retries,
            max_tags,
            Ok(response),
            m,
            b,
            now,
            now_ms,
            action,
            after,
            b2,
        ),
    ensures
        after.status_of(job.hash) matches Some(s) && s.tags_json is Some && tag_json::kept_tags(
            s.tags_json->0,
        ) == kept_of(response@, max_tags),
        after.status_of(job.hash) matches Some(s) && s.status == "tagged"@ && s.filename == job.filename
            && s.hash_before == job.hash_before,
{
    kept_tags_are_read_back(
        kept_of(response@, max_tags),
        provider::EntitiesModel {
            persons: person_forms(response@.entities.persons),
            ..response@.entities
        },
        json::json_render(response_json(response@, max_tags)),
    );
    lemma_job_written(m, job, now);
    let tokens = names::filename_tokens(job.filename);
    let kept = json::json_render(response_json(response@, max_tags));
    let tagged = written(m, job_status(job, "tagged"@, Some(kept), None, now));
    if tokens.len() > 0 {
        let cached = tagged.with_cache_entry(text::join(tokens, " "@), kept, job.hash, now);
        store::same_rows_same_status(cached, tagged, job.hash);
    }
}

/// A worker takes one document after another: `states` are the store before the first,
/// between each two, and after the last.
pub open spec fn is_run(
    states: Seq<StoreModel>,
    jobs: Seq<JobModel>,
    outcomes: Seq<TagOutcome>,
) -> bool {
    &&& states.len() == jobs.len() + 1
    &&& outcomes.len() == jobs.len()
    &&& forall|i: int|
        0 <= i < jobs.len() ==> is_worked_on(
            states[i],
            #[trigger] jobs[i],
            outcomes[i],
            states[i + 1],
        )
}

/// The document of the job at this place is not worked on again.
pub open spec fn is_last_job(jobs: Seq<JobModel>, i: int) -> bool {
    &&& 0 <= i < jobs.len()
    &&& forall|j: int| i < j < jobs.len() ==> (#[trigger] jobs[j]).hash != jobs[i].hash
}

/// When a worker has gone through documents, each that the store has is left with the
/// status of its outcome, so none is left in flight; documents, tags and associations
/// are as they were, and so is the status of every other document.
pub proof fn worker_leaves_no_document_in_flight(
    states: Seq<StoreModel>,
    jobs: Seq<JobModel>,
    outcomes: Seq<TagOutcome>,
)
    requires
        is_run(states, jobs, outcomes),
    ensures
        states.last().documents == states[0].documents,
        states.last().tags == states[0].tags,
        states.last().links == states[0].links,
        forall|h: Seq<char>|
            (forall|i: int| 0 <= i < jobs.len() ==> (#[trigger] jobs[i]).hash != h)
                ==> #[trigger] states.last().status_of(h) == states[0].status_of(h),
        forall|i: int| #[trigger]
            is_last_job(jobs, i) && states[0].has_document(jobs[i].hash) ==> (
            states.last().status_of(jobs[i].hash) matches Some(s) && s.status == outcome_status(
                outcomes[i],
            ) && s.status != "processing"@),
    decreases jobs.len(),
{
    if jobs.len() > 0 {
        let n = jobs.len() - 1;
        let before = states.drop_last();
        let rest = jobs.drop_last();
        let told = outcomes.drop_last();
        assert(is_run(before, rest, told)) by {
            assert forall|i: int| 0 <= i < rest.len() implies is_worked_on(
                before[i],
                #[trigger] rest[i],
                told[i],
                before[i + 1],
            ) by {
                assert(rest[i] == jobs[i]);
            }
        }
        worker_leaves_no_document_in_flight(before, rest, told);
        assert(is_worked_on(states[n], jobs[n], outcomes[n], states[n + 1]));
        assert(before.last() == states[n]);
        assert(states.last() == states[n + 1]);
        assert(before[0] == states[0]);
        assert forall|h: Seq<char>|
            (forall|i: int| 0 <= i < jobs.len() ==> (#[trigger] jobs[i]).hash != h) implies (
        #[trigger] states.last().status_of(h)) == states[0].status_of(h) by {
            assert forall|i: int| 0 <= i < rest.len() implies (#[trigger] rest[i]).hash != h by {
                assert(rest[i] == jobs[i]);
            }
            assert(jobs[n].hash != h);
            assert(before.last().status_of(h) == states[0].status_of(h));
        }
        assert forall|i: int| #[trigger]
            is_last_job(jobs, i) && states[0].has_document(jobs[i].hash) implies (
        states.last().status_of(jobs[i].hash) matches Some(s) && s.status == outcome_status(
            outcomes[i],
        ) && s.status != "processing"@) by {
            lemma_settled(outcomes[i]);
            let h = jobs[i].hash;
            if i < n {
                assert(is_last_job(rest, i)) by {
                    assert forall|j: int| i < j < rest.len() implies (#[trigger] rest[j]).hash
                        != rest[i].hash by {
                        assert(rest[j] == jobs[j]);
                    }
                }
                assert(jobs[n].hash != h);
                assert(before.last().status_of(h) == states.last().status_of(h));
            } else {
                assert(states[n].documents == states[0].documents);
                assert(states[n].has_document(h)) by {
                    let k = choose|k: int|
                        0 <= k < states[0].documents.len() && (#[trigger] states[0].documents[k]).hash
                            == h;
                    assert(states[n].documents[k].hash == h);
                }
            }
        }
    }
}

/// An outcome is no status of a document in flight.
proof fn lemma_settled(outcome: TagOutcome)
    ensures
        outcome_status(outcome) != "processing"@,
{
    reveal_strlit("processing");
    reveal_strlit("pending");
    reveal_strlit("tagged");
    reveal_strlit("failed");
    assert("processing"@.len() == 10);
}

/// No token is empty or holds white space.
pub open spec fn are_words(tokens: Seq<Seq<char>>) -> bool {
    forall|i: int|
        0 <= i < tokens.len() ==> (#[trigger] tokens[i]).len() > 0 && forall|k: int|
            0 <= k < tokens[i].len() ==> !text::is_whitespace(#[trigger] tokens[i][k])
}

/// A word after white space, or at the start, is one more word.
proof fn lemma_append_word(s: Seq<char>, w: Seq<char>, n: int)
    requires
        0 < n <= w.len(),
        s.len() == 0 || text::is_whitespace(s.last()),
        forall|k: int| 0 <= k < w.len() ==> !text::is_whitespace(#[trigger] w[k]),
    ensures
        text::words(s + w.take(n)) == text::words(s).push(w.take(n)),
    decreases n,
{
    if n == 1 {
        text::words_grow(s, w[0]);
        assert(s + w.take(1) =~= s.push(w[0]));
        assert(w.take(1) =~= seq![w[0]]);
    } else {
        lemma_append_word(s, w, n - 1);
        let before = s + w.take(n - 1);
        text::words_grow(before, w[n - 1]);
        assert(before.last() == w[n - 2]);
        assert(s + w.take(n) =~= before.push(w[n - 1]));
        let found = text::words(s).push(w.take(n - 1));
        assert(found.drop_last() =~= text::words(s));
        assert(w.take(n - 1).push(w[n - 1]) =~= w.take(n));
    }
}

/// The words of joined tokens are the tokens.
proof fn lemma_words_of_join(tokens: Seq<Seq<char>>)
    requires
        are_words(tokens),
    ensures
        text::words(text::join(tokens, " "@)) == tokens,
    decreases tokens.len(),
{
    reveal_strlit(" ");
    if tokens.len() == 0 {
        text::no_words_in_nothing(text::join(tokens, " "@));
        assert(text::words(text::join(tokens, " "@)) =~= tokens);
    } else {
        let rest = tokens.drop_last();
        let last = tokens.last();
        assert(are_words(rest)) by {
            assert forall|i: int| 0 <= i < rest.len() implies (#[trigger] rest[i]).len() > 0 && forall|
                k: int,
            |
                0 <= k < rest[i].len() ==> !text::is_whitespace(#[trigger] rest[i][k]) by {
                assert(rest[i] == tokens[i]);
            }
        }
        lemma_words_of_join(rest);
        assert(tokens[tokens.len() - 1] == last);
        assert(last.take(last.len() as int) =~= last);
        if tokens.len() == 1 {
            let nothing = Seq::<char>::empty();
            text::no_words_in_nothing(nothing);
            lemma_append_word(nothing, last, last.len() as int);
            assert(nothing + last =~= last);
            assert(text::words(last) =~= tokens);
        } else {
            let before = text::join(rest, " "@);
            let spaced = before + " "@;
            text::words_grow(before, ' ');
            assert(spaced =~= before.push(' '));
            lemma_append_word(spaced, last, last.len() as int);
            assert(rest.push(last) =~= tokens);
        }
    }
}

/// Every member of a list is among its members.
proof fn lemma_all_shared(v: Seq<Seq<char>>, n: int)
    requires
        0 <= n <= v.len(),
    ensures
        v.take(n).filter(|w: Seq<char>| v.contains(w)).len() == n,
    decreases n,
{
    reveal(Seq::filter);
    if n > 0 {
        lemma_all_shared(v, n - 1);
        assert(v.take(n).drop_last() =~= v.take(n - 1));
        assert(v.contains(v[n - 1]));
    } else {
        assert(v.take(0) =~= Seq::<Seq<char>>::empty());
    }
}

/// A cache entry qualifies for the tokens that it was written for, at any ratio: a
/// document with the same file-name tokens finds its tags.
pub proof fn entry_qualifies_for_its_own_tokens(
    e: model::CacheModel,
    tokens: Seq<Seq<char>>,
    num: int,
    den: int,
)
    requires
        tokens.len() > 0,
        are_words(tokens),
        e.tokens == text::join(tokens, " "@),
        0 <= num <= den,
    ensures
        store::overlap(e.tokens, tokens) == tokens.len(),
        store::qualifies(e, tokens, num, den),
{
    lemma_words_of_join(tokens);
    lemma_all_shared(tokens, tokens.len() as int);
    assert(tokens.take(tokens.len() as int) =~= tokens);
    assert(tokens.len() * den >= num * tokens.len()) by (nonlinear_arith)
        requires
            num <= den,
            tokens.len() >= 0,
    ;
}

// ── What is kept of a reply ──

/// Each of these names is the plain name of a person, and they stand in the order of the
/// persons.
pub open spec fn are_named_in_order(plain: Seq<Seq<char>>, persons: Seq<Seq<char>>) -> bool {
    exists|places: Seq<int>|
        {
            &&& #[trigger] places.len() == plain.len()
            &&& forall|k: int|
                0 <= k < places.len() ==> 0 <= #[trigger] places[k] < persons.len() && plain[k]
                    == text::trim(names::plain_letters(text::lowercase(persons[places[k]])))
            &&& forall|j: int, k: int|
                0 <= j < k < places.len() ==> #[trigger] places[j] < #[trigger] places[k]
        }
}

/// The names that come behind some tags: none of them is among the tags, none comes
/// twice, each is the plain name of a person, and the plain name of each person is among
/// the tags or the names.
proof fn lemma_persons(tags: Seq<Seq<char>>, persons: Seq<Seq<char>>) -> (plain: Seq<Seq<char>>)
    ensures
        with_persons(tags, persons) == tags + plain,
        are_named_in_order(plain, persons),
        plain.no_duplicates(),
        plain.len() <= persons.len(),
        forall|k: int| 0 <= k < plain.len() ==> !tags.contains(#[trigger] plain[k]),
        forall|k: int|
            0 <= k < plain.len() ==> (#[trigger] plain[k]).len() > 0 && exists|p: int|
                0 <= p < persons.len() && plain[k] == text::trim(
                    names::plain_letters(text::lowercase(#[trigger] persons[p])),
                ),
        forall|p: int|
            0 <= p < persons.len() && text::trim(
                names::plain_letters(text::lowercase(#[trigger] persons[p])),
            ).len() > 0 ==> (tags + plain).contains(
                text::trim(names::plain_letters(text::lowercase(persons[p]))),
            ),
    decreases persons.len(),
{
    if persons.len() == 0 {
        assert(tags + Seq::<Seq<char>>::empty() =~= tags);
        assert(Seq::<int>::empty().len() == Seq::<Seq<char>>::empty().len());
        assert(are_named_in_order(Seq::empty(), persons));
        Seq::empty()
    } else {
        let rest = persons.drop_last();
        let before = lemma_persons(tags, rest);
        let old_places = choose|places: Seq<int>|
            {
                &&& #[trigger] places.len() == before.len()
                &&& forall|k: int|
                    0 <= k < places.len() ==> 0 <= #[trigger] places[k] < rest.len() && before[k]
                        == text::trim(names::plain_letters(text::lowercase(rest[places[k]])))
                &&& forall|j: int, k: int|
                    0 <= j < k < places.len() ==> #[trigger] places[j] < #[trigger] places[k]
            };
        let last = persons.last();
        let name = text::trim(names::plain_letters(text::lowercase(last)));
        names::variants_are_distinct(last);
        let plain = if name.len() > 0 && !(tags + before).contains(name) {
            before.push(name)
        } else {
            before
        };
        assert((tags + before).push(name) =~= tags + before.push(name));
        assert(are_named_in_order(plain, persons)) by {
            let places = if plain.len() > before.len() {
                old_places.push(persons.len() - 1)
            } else {
                old_places
            };
            assert(places.len() == plain.len());
            assert forall|k: int| 0 <= k < places.len() implies 0 <= #[trigger] places[k]
                < persons.len() && plain[k] == text::trim(
                names::plain_letters(text::lowercase(persons[places[k]])),
            ) by {
                if k < old_places.len() {
                    assert(places[k] == old_places[k]);
                    assert(rest[old_places[k]] == persons[places[k]]);
                }
            }
            assert forall|j: int, k: int| 0 <= j < k < places.len() implies #[trigger] places[j]
                < #[trigger] places[k] by {
                assert(places[j] == old_places[j]);
                if k < old_places.len() {
                    assert(places[k] == old_places[k]);
                }
            }
        }
        assert forall|k: int| 0 <= k < plain.len() implies !tags.contains(#[trigger] plain[k]) by {
            if k == before.len() {
                if tags.contains(name) {
                    let t = choose|t: int| 0 <= t < tags.len() && tags[t] == name;
                    assert((tags + before)[t] == name);
                }
            }
        }
        assert(plain.no_duplicates()) by {
            if plain.len() > before.len() {
                assert forall|k: int| 0 <= k < before.len() implies before[k] != name by {
                    assert((tags + before)[tags.len() + k] == before[k]);
                }
            }
        }
        assert forall|k: int| 0 <= k < plain.len() implies (#[trigger] plain[k]).len() > 0
            && exists|p: int|
            0 <= p < persons.len() && plain[k] == text::trim(
                names::plain_letters(text::lowercase(#[trigger] persons[p])),
            ) by {
            if k < before.len() {
                assert(before[k] == plain[k]);
                let p = choose|p: int|
                    0 <= p < rest.len() && before[k] == text::trim(
                        names::plain_letters(text::lowercase(#[trigger] rest[p])),
                    );
                assert(persons[p] == rest[p]);
            } else {
                assert(persons[persons.len() - 1] == last);
            }
        }
        assert forall|p: int|
            0 <= p < persons.len() && text::trim(
                names::plain_letters(text::lowercase(#[trigger] persons[p])),
            ).len() > 0 implies (tags + plain).contains(
            text::trim(names::plain_letters(text::lowercase(persons[p]))),
        ) by {
            let x = text::trim(names::plain_letters(text::lowercase(persons[p])));
            if p < rest.len() {
                assert(rest[p] == persons[p]);
                let k = choose|k: int|
                    0 <= k < (tags + before).len() && (tags + before)[k] == x;
                assert((tags + plain)[k] == x);
            } else if plain.len() > before.len() {
                assert((tags + plain)[tags.len() as int + before.len()] == x);
            }
        }
        plain
    }
}

/// The tags that are kept for a response are its tags, in order, and behind them the
/// plain names of its persons: as many as there are, but no more than the document may
/// have. No name comes twice or is a tag already, and none is left out while there is
/// room.
pub proof fn first_tags_of_a_response_are_kept(r: provider::ResponseModel, max: int) -> (plain: Seq<
    Seq<char>,
>)
    requires
        max >= 0,
    ensures
        r.tags.len() + plain.len() <= max ==> kept_of(r, max) == r.tags + plain,
        r.tags.len() + plain.len() > max ==> kept_of(r, max).len() == max,
        forall|i: int|
            0 <= i < r.tags.len() && i < max ==> #[trigger] kept_of(r, max)[i] == r.tags[i],
        forall|i: int|
            r.tags.len() <= i < r.tags.len() + plain.len() && i < max ==> #[trigger] kept_of(
                r,
                max,
            )[i] == plain[i - r.tags.len()],
        plain.no_duplicates(),
        forall|k: int| 0 <= k < plain.len() ==> !r.tags.contains(#[trigger] plain[k]),
        forall|k: int|
            0 <= k < plain.len() ==> exists|p: int|
                0 <= p < r.entities.persons.len() && (#[trigger] plain[k]) == text::trim(
                    names::plain_letters(text::lowercase(#[trigger] r.entities.persons[p])),
                ),
        forall|p: int|
            0 <= p < r.entities.persons.len() && text::trim(
                names::plain_letters(text::lowercase(#[trigger] r.entities.persons[p])),
            ).len() > 0 ==> (r.tags + plain).contains(
                text::trim(names::plain_letters(text::lowercase(r.entities.persons[p]))),
            ),
        r.entities.persons.len() == 0 ==> plain.len() == 0,
        are_named_in_order(plain, r.entities.persons),
{
    let plain = lemma_persons(r.tags, r.entities.persons);
    let all = r.tags + plain;
    assert(with_persons(r.tags, r.entities.persons) == all);
    assert(all.take(all.len() as int) =~= all);
    assert forall|k: int| 0 <= k < plain.len() implies exists|p: int|
        0 <= p < r.entities.persons.len() && (#[trigger] plain[k]) == text::trim(
            names::plain_letters(text::lowercase(#[trigger] r.entities.persons[p])),
        ) by {
        assert(plain[k].len() > 0);
    }
    plain
}

/// A document that the provider has tagged keeps the tags of the reply: those that are
/// read back for it are the tags of the reply, from the first on, as many as there are or
/// as it may have, with the names of the persons behind them where there is room.
pub proof fn tagged_document_has_the_tags_of_the_reply(
    job: JobModel,
    question: Question,
    max_retries: u32,
    max_tags: int,
    response: TagResponse,
    m: StoreModel,
    b: BreakerModel,
    now: Seq<char>,
    now_ms: usize,
    action: TagAction,
    after: StoreModel,
    b2: BreakerModel,
)
    requires
        m.wf(),
        m.has_document(job.hash),
        max_tags >= 0,
        is_answered(
            job,
            question,
            max_retries,
            max_tags,
            Ok(response),
            m,
            b,
            now,
            now_ms,
            action,
            after,
            b2,
        ),
    ensures
        action == TagAction::Done(TagOutcome::Tagged),
        b2.tripped_at == 0 && b2.failures == 0 && !b2.probing,
        after.status_of(job.hash) is Some,
        after.status_of(job.hash)->0.status == "tagged"@,
        after.status_of(job.hash)->0.tags_json is Some,
        ({
            let kept = tag_json::kept_tags(after.status_of(job.hash)->0.tags_json->0);
            let n = response.tags@.len();
            &&& kept.len() <= max_tags
            &&& kept.len() >= n || kept.len() == max_tags
            &&& kept.len() <= n + response.entities.persons@.len()
            &&& forall|i: int| 0 <= i < n && i < max_tags ==> #[trigger] kept[i] == response.tags@[i]@
            &&& response.entities.persons@.len() == 0 && n <= max_tags ==> kept.len() == n
        }),
{
    tags_of_a_response_are_kept(
        job,
        question,
        max_retries,
        max_tags,
        response,
        m,
        b,
        now,
        now_ms,
        action,
        after,
        b2,
    );
    let r = response@;
    let plain = lemma_persons(r.tags, r.entities.persons);
    let again = first_tags_of_a_response_are_kept(r, max_tags);
    let kept = kept_of(r, max_tags);
    assert((r.tags + plain).len() == r.tags.len() + plain.len());
    assert forall|i: int| 0 <= i < response.tags@.len() && i < max_tags implies #[trigger] kept[i]
        == response.tags@[i]@ by {
        assert(r.tags[i] == response.tags@[i]@);
    }
}

/// What is kept for a document is an object with the tags, as an array of texts, at
/// "tags", and at "entities" an object with each list of entities that is not empty at
/// its own name.
pub proof fn tags_and_entities_are_kept_by_name(tags: Seq<Seq<char>>, e: provider::EntitiesModel)
    ensures
        kept_json(tags, e) is Object,
        ({
            let fields = kept_json(tags, e)->Object_0;
            let inner = fields["entities"@]->Object_0;
            &&& fields.contains_key("tags"@) && fields["tags"@] == json::text_array(tags)
            &&& fields.contains_key("entities"@) && fields["entities"@] is Object
            &&& inner.contains_key("persons"@) <==> e.persons.len() > 0
            &&& inner.contains_key("organizations"@) <==> e.organizations.len() > 0
            &&& inner.contains_key("years"@) <==> e.years.len() > 0
            &&& inner.contains_key("doc_id"@) <==> e.doc_id.len() > 0
            &&& inner.contains_key("amounts"@) <==> e.amounts.len() > 0
            &&& e.persons.len() > 0 ==> inner["persons"@] == json::text_array(e.persons)
            &&& e.organizations.len() > 0 ==> inner["organizations"@] == json::text_array(
                e.organizations,
            )
            &&& e.years.len() > 0 ==> inner["years"@] == json::text_array(e.years)
            &&& e.doc_id.len() > 0 ==> inner["doc_id"@] == json::text_array(e.doc_id)
            &&& e.amounts.len() > 0 ==> inner["amounts"@] == json::text_array(e.amounts)
        }),
{
    reveal_strlit("tags");
    reveal_strlit("entities");
    reveal_strlit("persons");
    reveal_strlit("organizations");
    reveal_strlit("years");
    reveal_strlit("doc_id");
    reveal_strlit("amounts");
    assert("tags"@.len() == 4 && "entities"@.len() == 8);
    assert("persons"@.len() == 7 && "organizations"@.len() == 13 && "years"@.len() == 5);
    assert("doc_id"@.len() == 6 && "amounts"@.len() == 7);
    assert("persons"@[0] == 'p' && "amounts"@[0] == 'a');
}

/// What is kept for a response: the tags that are kept of it, every form of the name of
/// each of its persons, and its other entities as they are.
pub proof fn every_form_of_each_person_is_kept(
    r: provider::ResponseModel,
    max: int,
    p: int,
    form: Seq<char>,
)
    requires
        0 <= p < r.entities.persons.len(),
        names::name_variants(r.entities.persons[p]).contains(form),
    ensures
        response_json(r, max) == kept_json(
            kept_of(r, max),
            provider::EntitiesModel {
                persons: person_forms(r.entities.persons),
                organizations: r.entities.organizations,
                years: r.entities.years,
                doc_id: r.entities.doc_id,
                amounts: r.entities.amounts,
            },
        ),
        person_forms(r.entities.persons).contains(form),
        person_forms(r.entities.persons).no_duplicates(),
{
    lemma_forms(r.entities.persons, p, form);
}

/// Every form of each person is among the forms, and none comes twice.
proof fn lemma_forms(persons: Seq<Seq<char>>, p: int, form: Seq<char>)
    requires
        0 <= p < persons.len(),
        names::name_variants(persons[p]).contains(form),
    ensures
        person_forms(persons).contains(form),
        person_forms(persons).no_duplicates(),
    decreases persons.len(),
{
    let rest = persons.drop_last();
    lemma_forms_distinct(persons);
    let variants = names::name_variants(persons.last());
    names::added_items_are_there(person_forms(rest), variants, form);
    if p < rest.len() {
        lemma_forms(rest, p, form);
    }
}

/// No form of a name comes twice.
proof fn lemma_forms_distinct(persons: Seq<Seq<char>>)
    ensures
        person_forms(persons).no_duplicates(),
    decreases persons.len(),
{
    if persons.len() > 0 {
        lemma_forms_distinct(persons.drop_last());
        names::added_items_are_there(
            person_forms(persons.drop_last()),
            names::name_variants(persons.last()),
            Seq::empty(),
        );
    }
}

// ── How a document is gone about ──

/// The time between two attempts: a second after the first, and twice as long after each
/// of the others, as far as it can be counted.
pub proof fn waits_double(attempt: u32)
    ensures
        backoff(0) == 1,
        attempt < 63 ==> backoff((attempt + 1) as u32) == 2 * backoff(attempt),
        attempt >= 64 ==> backoff(attempt) == u64::MAX,
        backoff(1) == 2 && backoff(2) == 4,
{
    lemma_backoff(attempt);
    lemma_backoff((attempt + 1) as u32);
    reveal_with_fuel(backoff, 4);
    if attempt < 63 {
        vstd::arithmetic::power2::lemma_pow2_unfold((attempt + 1) as nat);
        vstd::arithmetic::power2::lemma2_to64();
        vstd::arithmetic::power2::lemma2_to64_rest();
        if attempt < 62 {
            vstd::arithmetic::power2::lemma_pow2_strictly_increases((attempt + 1) as nat, 63);
        }
    }
}

/// The time after an attempt is a power of two, as far as it can be counted.
proof fn lemma_backoff(attempt: u32)
    ensures
        attempt < 64 ==> backoff(attempt) == vstd::arithmetic::power2::pow2(attempt as nat),
        attempt >= 64 ==> backoff(attempt) == u64::MAX,
    decreases attempt,
{
    vstd::arithmetic::power2::lemma2_to64();
    vstd::arithmetic::power2::lemma2_to64_rest();
    if attempt > 0 {
        lemma_backoff((attempt - 1) as u32);
        vstd::arithmetic::power2::lemma_pow2_unfold(attempt as nat);
        if attempt < 64 {
            if attempt < 63 {
                vstd::arithmetic::power2::lemma_pow2_strictly_increases(attempt as nat, 63);
            }
            assert(vstd::arithmetic::power2::pow2(63) == 0x8000000000000000);
        }
    }
}

/// How a document is gone about. While auto-tagging is off it waits; one that was tagged
/// with the same content is left alone; one that the breaker refuses fails; and any other
/// that is not tagged by its file name is asked about, as the first attempt, and nothing
/// of the store changes before the reply.
pub proof fn untagged_documents_are_asked_about(
    job: JobModel,
    enabled: bool,
    max_retries: u32,
    m: StoreModel,
    b: BreakerModel,
    now: Seq<char>,
    now_ms: usize,
    action: TagAction,
    after: StoreModel,
    b2: BreakerModel,
)
    requires
        m.wf(),
        m.has_document(job.hash),
        m.tags.len() <= usize::MAX,
        is_begun(job, enabled, max_retries, m, b, now, now_ms, action, after, b2),
    ensures
        !enabled ==> action == TagAction::Done(TagOutcome::Disabled) && (after.status_of(
            job.hash,
        ) matches Some(s) && s.status == "pending"@ && s.tags_json is None),
        enabled && (m.status_of(job.hash) matches Some(s) && s.hash_before == job.hash_before
            && s.status == "tagged"@) ==> action == TagAction::Done(TagOutcome::Reused) && after
            == m,
        enabled && !(m.status_of(job.hash) matches Some(s) && s.hash_before == job.hash_before
            && s.status == "tagged"@) && (names::filename_tokens(job.filename).len() < 5 || forall|
            i: int,
        |
            0 <= i < m.cache.len() ==> 5 * store::overlap(
                (#[trigger] m.cache[i]).tokens,
                names::filename_tokens(job.filename),
            ) < 4 * names::filename_tokens(job.filename).len()) ==> {
            &&& !b.allows(now_ms) ==> action == TagAction::Done(TagOutcome::Refused) && (
            after.status_of(job.hash) matches Some(s) && s.status == "failed"@ && s.last_error
                == Some("Skipped: API circuit breaker open (provider unavailable)"@))
            &&& b.allows(now_ms) && max_retries > 0 ==> after == m && b2 == b.after_request(now_ms)
                && (action matches TagAction::Ask(question) && question.attempt == 0
                && question.existing@.len() == m.tags.len() && (forall|i: int|
                0 <= i < m.tags.len() ==> text::texts(question.existing@).contains(
                    (#[trigger] m.tags[i]).name,
                )) && forall|x: int, y: int|
                0 <= x < y < m.tags.len() ==> !text::text_less(
                    (#[trigger] question.existing@[y])@,
                    (#[trigger] question.existing@[x])@,
                ))
            &&& !b.allows(now_ms) ==> b2 == b
            &&& b.allows(now_ms) && max_retries == 0 ==> action == TagAction::Done(
                TagOutcome::Failed,
            ) && (after.status_of(job.hash) matches Some(s) && s.status == "failed"@
                && s.last_error == Some(""@))
        },
        action matches TagAction::Done(outcome) && outcome == TagOutcome::Cached ==> exists|i: int|
            0 <= i < m.cache.len() && 5 * store::overlap(
                (#[trigger] m.cache[i]).tokens,
                names::filename_tokens(job.filename),
            ) >= 4 * names::filename_tokens(job.filename).len() && names::filename_tokens(
                job.filename,
            ).len() >= 5 && (after.status_of(job.hash) matches Some(s) && s.status == "tagged"@
                && s.tags_json == Some(m.cache[i].tags_json)),
{
    lemma_job_written(m, job, now);
    let tokens = names::filename_tokens(job.filename);
    if exists|i: int| is_cache_hit(m, tokens, i) {
        let i = choose|i: int| is_cache_hit(m, tokens, i);
        assert(store::qualifies(m.cache[i], tokens, 4, 5));
        assert(store::overlap(m.cache[i].tokens, tokens) * 5 >= 4 * tokens.len());
    }
    if let TagAction::Done(outcome) = action {
        if outcome == TagOutcome::Cached {
            let i = choose|i: int| #[trigger]
                is_cache_hit(m, tokens, i) && after == written(
                    m,
                    job_status(job, "tagged"@, Some(m.cache[i].tags_json), None, now),
                );
            assert(store::qualifies(m.cache[i], tokens, 4, 5));
            assert(store::overlap(m.cache[i].tokens, tokens) * 5 >= 4 * tokens.len());
        }
    }
    if let TagAction::Ask(question) = action {
        let existing = text::texts(question.existing@);
        let sorted = choose|sorted: Seq<model::TagModel>| #[trigger]
            store::is_sorted_by_key::<Tag>(m.tags, sorted) && existing == sorted.map_values(
                |t: model::TagModel| t.name,
            );
        let places = store::listed_rows_are_in_order::<Tag>(m.tags, sorted);
        assert forall|i: int| 0 <= i < m.tags.len() implies existing.contains(
            (#[trigger] m.tags[i]).name,
        ) by {
            assert(places.contains(i));
            let a = choose|a: int| 0 <= a < places.len() && places[a] == i;
            assert(sorted[a] == m.tags[i]);
            assert(existing[a] == m.tags[i].name);
        }
        assert(existing.len() == question.existing@.len());
        assert forall|x: int, y: int| 0 <= x < y < m.tags.len() implies !text::text_less(
            (#[trigger] question.existing@[y])@,
            (#[trigger] question.existing@[x])@,
        ) by {
            assert(existing[x] == question.existing@[x]@ && existing[y] == question.existing@[y]@);
            assert(existing[x] == sorted[x].name && existing[y] == sorted[y].name);
            assert(!text::text_less(Tag::key_of(sorted[y]), Tag::key_of(sorted[x])));
        }
    }
}

/// What comes of an error. A provider that was not there is asked again, after a time,
/// as long as attempts are left, and the store stays as it is; any other error, and the
/// last of the attempts, leaves the document failed with the words of the error.
pub proof fn failed_calls_are_tried_again(
    job: JobModel,
    question: Question,
    max_retries: u32,
    max_tags: int,
    e: TagError,
    m: StoreModel,
    b: BreakerModel,
    now: Seq<char>,
    now_ms: usize,
    action: TagAction,
    after: StoreModel,
    b2: BreakerModel,
)
    requires
        m.wf(),
        m.has_document(job.hash),
        is_answered(
            job,
            question,
            max_retries,
            max_tags,
            Err(e),
            m,
            b,
            now,
            now_ms,
            action,
            after,
            b2,
        ),
    ensures
        e is Unavailable && question.attempt + 1 < max_retries ==> after == m && (
        action matches TagAction::Wait(seconds, next) && seconds == backoff(question.attempt)
            && next.attempt == question.attempt + 1 && next.existing == question.existing),
        !(e is Unavailable) || question.attempt + 1 >= max_retries ==> action == TagAction::Done(
            TagOutcome::Failed,
        ) && (after.status_of(job.hash) matches Some(s) && s.status == "failed"@ && s.last_error
            == Some(provider::error_message(e)) && s.tags_json is None),
        e is Unavailable ==> b2 == b.after_failure(now_ms),
        !(e is Unavailable) ==> b2 == b.after_answer(),
{
    lemma_job_written(m, job, now);
}

/// What is kept of a response is cached under the tokens of the file name, with one space
/// between each two: a name with the same tokens has an entry with the same tags.
pub proof fn tags_are_cached_under_the_file_name(
    job: JobModel,
    max_tags: int,
    response: provider::ResponseModel,
    m: StoreModel,
    now: Seq<char>,
    after: StoreModel,
)
    requires
        is_kept(job, max_tags, response, m, now, after),
        names::filename_tokens(job.filename).len() > 0,
    ensures
        exists|i: int|
            0 <= i < after.cache.len() && (#[trigger] after.cache[i]).tokens == text::join(
                names::filename_tokens(job.filename),
                " "@,
            ) && after.cache[i].tags_json == json::json_render(response_json(response, max_tags)),
        names::filename_tokens(job.filename).len() > 0,
{
    let tokens = text::join(names::filename_tokens(job.filename), " "@);
    let kept = json::json_render(response_json(response, max_tags));
    let tagged = written(m, job_status(job, "tagged"@, Some(kept), None, now));
    if tagged.has_tokens(tokens) {
        let i = choose|i: int|
            0 <= i < tagged.cache.len() && (#[trigger] tagged.cache[i]).tokens == tokens;
        assert(after.cache[i].tokens == tokens);
    } else {
        assert(after.cache[tagged.cache.len() as int].tokens == tokens);
    }
}

/// An idle worker sweeps once a minute, shows the queue every two seconds, and looks for
/// rows that have been in flight for ten minutes.
pub proof fn idle_work_is_spaced_out(since: u64, now: u64)
    ensures
        now >= since ==> passed(since, now) == now - since,
        now < since ==> passed(since, now) == 0,
        SWEEP_INTERVAL_MS == 60 * 1000,
        QUEUE_REFRESH_MS == 2 * 1000,
        STALE_PROCESSING_AGE_MINUTES == 10,
        IDLE_CLAIM == 8 && STARTUP_CLAIM == 100 && WORKERS == 3 && REQUEST_WAIT_MS == 100,
{
}

/// Each outcome leaves a document with its own status, and a document is in the hands of
/// a worker where its row is in flight.
pub proof fn outcomes_are_shown_as_status(m: StoreModel, hash: Seq<char>)
    ensures
        outcome_status(TagOutcome::Disabled) == "pending"@,
        outcome_status(TagOutcome::Reused) == "tagged"@,
        outcome_status(TagOutcome::Cached) == "tagged"@,
        outcome_status(TagOutcome::Tagged) == "tagged"@,
        outcome_status(TagOutcome::Refused) == "failed"@,
        outcome_status(TagOutcome::Failed) == "failed"@,
        is_claimed(m, hash) <==> m.status_of(hash) is Some && m.status_of(hash)->0.status
            == "processing"@,
{
}

// ── What becomes of a document ──

/// What becomes of a document that goes through all tiers. One that the provider tagged
/// keeps the tags of a reply of the provider to a question about it, from the first on;
/// it was not tagged before with the same content, auto-tagging is on, and the breaker is
/// closed afterwards.
pub proof fn provider_tags_are_those_of_a_reply<P: TagProvider>(
    provider: P,
    job: JobModel,
    config: AutoTagConfig,
    m: StoreModel,
    b: BreakerModel,
    now: Seq<char>,
    after: StoreModel,
    b2: BreakerModel,
) -> (told: (Seq<Seq<char>>, TagResponse))
    requires
        m.wf(),
        m.has_document(job.hash),
        is_outcome(provider, job, config, m, b, now, TagOutcome::Tagged, after, b2),
    ensures
        config.enabled,
        provider.may_reply(job.filename, job.text, told.0, Ok(told.1)),
        !(m.status_of(job.hash) matches Some(s) && s.hash_before == job.hash_before && s.status
            == "tagged"@),
        b2.tripped_at == 0 && b2.failures == 0,
        after.status_of(job.hash) is Some,
        after.status_of(job.hash)->0.status == "tagged"@,
        after.status_of(job.hash)->0.tags_json is Some,
        ({
            let kept = tag_json::kept_tags(after.status_of(job.hash)->0.tags_json->0);
            let max = config.max_tags_per_doc as int;
            let n = told.1.tags@.len();
            &&& kept.len() <= max
            &&& kept.len() >= n || kept.len() == max
            &&& forall|i: int| 0 <= i < n && i < max ==> #[trigger] kept[i] == told.1.tags@[i]@
            &&& told.1.entities.persons@.len() == 0 && n <= max ==> kept.len() == n
        }),
{
    let (existing, response) = choose|existing: Seq<Seq<char>>, response: TagResponse| #[trigger]
        may_be_told(provider, job, m, existing, Ok(response)) && is_kept(
            job,
            config.max_tags_per_doc as int,
            response@,
            m,
            now,
            after,
        );
    let question = Question { attempt: 0, existing: arbitrary() };
    let action = TagAction::Done(TagOutcome::Tagged);
    tagged_document_has_the_tags_of_the_reply(
        job,
        question,
        config.max_retries,
        config.max_tags_per_doc as int,
        response,
        m,
        b,
        now,
        0,
        action,
        after,
        b.after_success(),
    );
    (existing, response)
}

/// What becomes of a document that the provider does not tag: it waits while auto-tagging
/// is off, is left alone where it was tagged with the same content, has the tags of a
/// document with much the same name, or has failed, with the words of an error of the
/// provider to a question about it, or because the breaker is open.
pub proof fn other_outcomes_are_written_down<P: TagProvider>(
    provider: P,
    job: JobModel,
    config: AutoTagConfig,
    m: StoreModel,
    b: BreakerModel,
    now: Seq<char>,
    outcome: TagOutcome,
    after: StoreModel,
    b2: BreakerModel,
)
    requires
        m.wf(),
        m.has_document(job.hash),
        is_outcome(provider, job, config, m, b, now, outcome, after, b2),
    ensures
        outcome == TagOutcome::Disabled ==> !config.enabled && b2 == b && (after.status_of(
            job.hash,
        ) matches Some(s) && s.status == "pending"@),
        outcome == TagOutcome::Reused ==> after == m && b2 == b && (m.status_of(
            job.hash,
        ) matches Some(s) && s.hash_before == job.hash_before && s.status == "tagged"@),
        outcome == TagOutcome::Cached ==> b2 == b && exists|i: int|
            0 <= i < m.cache.len() && 5 * store::overlap(
                (#[trigger] m.cache[i]).tokens,
                names::filename_tokens(job.filename),
            ) >= 4 * names::filename_tokens(job.filename).len() && (after.status_of(
                job.hash,
            ) matches Some(s) && s.status == "tagged"@ && s.tags_json == Some(
                m.cache[i].tags_json,
            )),
        outcome == TagOutcome::Refused ==> b2 == b && b.tripped_at != 0 && (after.status_of(
            job.hash,
        ) matches Some(s) && s.status == "failed"@ && s.last_error == Some(
            "Skipped: API circuit breaker open (provider unavailable)"@,
        )),
        outcome == TagOutcome::Failed ==> config.enabled && (after.status_of(
            job.hash,
        ) matches Some(s) && s.status == "failed"@ && s.tags_json is None && (
        config.max_retries > 0 ==> exists|existing: Seq<Seq<char>>, e: TagError|
            s.last_error == Some(provider::error_message(e)) && #[trigger] provider.may_reply(
                job.filename,
                job.text,
                existing,
                Err(e),
            ))),
        config.enabled || outcome == TagOutcome::Disabled,
{
    lemma_job_written(m, job, now);
    let tokens = names::filename_tokens(job.filename);
    if outcome == TagOutcome::Cached {
        let i = choose|i: int| #[trigger]
            is_cache_hit(m, tokens, i) && after == written(
                m,
                job_status(job, "tagged"@, Some(m.cache[i].tags_json), None, now),
            );
        assert(store::qualifies(m.cache[i], tokens, 4, 5));
        assert(store::overlap(m.cache[i].tokens, tokens) * 5 >= 4 * tokens.len());
    }
}

/// Work on a document leaves every other document, and the tags given by hand, as they
/// were, and the document itself with the status of the outcome.
pub proof fn work_changes_one_document(
    m: StoreModel,
    job: JobModel,
    outcome: TagOutcome,
    after: StoreModel,
    other: Seq<char>,
)
    requires
        is_worked_on(m, job, outcome, after),
        other != job.hash,
    ensures
        after.documents == m.documents && after.tags == m.tags && after.links == m.links,
        after.status_of(other) == m.status_of(other),
        m.has_document(job.hash) ==> (after.status_of(job.hash) matches Some(s) && s.status
            == outcome_status(outcome) && s.hash_before == job.hash_before),
{
}

/// A job is what its request asks for.
pub proof fn jobs_are_what_was_asked_for(
    hash: String,
    filename: String,
    body: String,
    hash_before: String,
    job: TagJob,
)
    ensures
        job_of(
            AutoTagRequest::TagDocument {
                content_hash: hash,
                filename: filename,
                text: body,
                content_hash_before_tag: hash_before,
            },
        ) == (JobModel {
            hash: hash@,
            filename: filename@,
            text: body@,
            hash_before: hash_before@,
        }),
        job@.hash == job.content_hash@ && job@.filename == job.filename@,
        job@.text == job.text@ && job@.hash_before == job.content_hash_before_tag@,
{
}

/// A document is for the provider where auto-tagging is on, it was not tagged before with
/// the same content, and no other has much the same file name.
pub proof fn new_documents_are_for_the_provider(job: JobModel, enabled: bool, m: StoreModel)
    ensures
        is_for_provider(job, enabled, m) ==> enabled && !(m.status_of(job.hash) matches Some(s)
            && s.hash_before == job.hash_before && s.status == "tagged"@),
        enabled && !(m.status_of(job.hash) matches Some(s) && s.hash_before == job.hash_before
            && s.status == "tagged"@) && names::filename_tokens(job.filename).len() < 5
            ==> is_for_provider(job, enabled, m),
        is_reusable(m, job) <==> (m.status_of(job.hash) matches Some(s) && s.hash_before
            == job.hash_before && s.status == "tagged"@),
{
}

/// The forms that are kept of some persons are those of one after another, each once.
pub proof fn forms_are_kept_one_person_after_another(persons: Seq<Seq<char>>, person: Seq<char>)
    ensures
        person_forms(Seq::empty()) == Seq::<Seq<char>>::empty(),
        person_forms(persons.push(person)) == names::add_all(
            person_forms(persons),
            names::name_variants(person),
        ),
{
    assert(persons.push(person).drop_last() =~= persons);
}

/// A document that is not tagged takes the tags of the cache entry that its name finds:
/// where the name has at least five tokens and the entry shares four in five of them, and
/// none of the others that do has more hits, or as many and stands before it.
pub proof fn known_names_take_the_tags_of_the_cache(
    job: JobModel,
    max_retries: u32,
    m: StoreModel,
    b: BreakerModel,
    now: Seq<char>,
    now_ms: usize,
    action: TagAction,
    after: StoreModel,
    b2: BreakerModel,
    i: int,
)
    requires
        m.wf(),
        m.has_document(job.hash),
        m.cache.len() <= 200,
        is_begun(job, true, max_retries, m, b, now, now_ms, action, after, b2),
        !(m.status_of(job.hash) matches Some(s) && s.hash_before == job.hash_before && s.status
            == "tagged"@),
        names::filename_tokens(job.filename).len() >= 5,
        0 <= i < m.cache.len(),
        5 * store::overlap(m.cache[i].tokens, names::filename_tokens(job.filename)) >= 4
            * names::filename_tokens(job.filename).len(),
        forall|j: int|
            0 <= j < m.cache.len() && j != i && 5 * store::overlap(
                (#[trigger] m.cache[j]).tokens,
                names::filename_tokens(job.filename),
            ) >= 4 * names::filename_tokens(job.filename).len() ==> m.cache[j].hits
                < m.cache[i].hits || (m.cache[j].hits == m.cache[i].hits && i < j),
    ensures
        action == TagAction::Done(TagOutcome::Cached),
        b2 == b,
        after.status_of(job.hash) matches Some(s) && s.status == "tagged"@ && s.tags_json == Some(
            m.cache[i].tags_json,
        ),
{
    let tokens = names::filename_tokens(job.filename);
    lemma_job_written(m, job, now);
    assert forall|j: int|
        0 <= j < m.cache.len() && store::qualifies(#[trigger] m.cache[j], tokens, 4, 5) && j
            != i implies store::ranks_before(m.cache, i, j) by {
        assert(5 * store::overlap(m.cache[j].tokens, tokens) >= 4 * tokens.len());
    }
    assert(store::qualifies(m.cache[i], tokens, 4, 5));
    assert(store::is_best_entry(m.cache, tokens, 4, 5, i));
    store::best_entry_serves(m.cache, tokens, 4, 5, i, i);
    assert(is_cache_hit(m, tokens, i));
    let k = choose|k: int| #[trigger]
        is_cache_hit(m, tokens, k) && after == written(
            m,
            job_status(job, "tagged"@, Some(m.cache[k].tags_json), None, now),
        );
    if k != i {
        assert(store::ranks_before(m.cache, k, i));
        assert(store::ranks_before(m.cache, i, k));
    }
}

/// A document that another worker has in hand is passed over, any other is tagged with the
/// whole of what the request says, and a request to stop stops the worker.
pub proof fn requests_are_taken_as_they_are(
    request: AutoTagRequest,
    tag_store: TagStore,
    r: RequestAction,
)
    requires
        call_ensures(accept_request, (request, &tag_store), r),
    ensures
        r is Stop <==> request is Shutdown,
        r is Skip <==> (request matches AutoTagRequest::TagDocument { content_hash, .. }
            && tag_store@.status_of(content_hash@) matches Some(s) && s.status == "processing"@),
        r matches RequestAction::Tag(job) ==> (request matches AutoTagRequest::TagDocument {
            content_hash,
            filename,
            text,
            content_hash_before_tag,
        } && job@.hash == content_hash@ && job@.filename == filename@ && job@.text == text@
            && job@.hash_before == content_hash_before_tag@),
{
}

/// The job of a row that was taken from the queue is that of its document, with the whole
/// text where it could be read.
pub proof fn claimed_rows_are_tagged_whole(row: AutoTagStatus, text: Option<String>, r: TagJob)
    requires
        call_ensures(job_for_claimed, (&row, text), r),
    ensures
        r@.hash == row@.hash && r@.filename == row@.filename && r@.hash_before == row@.hash_before,
        text is Some ==> r@.text == text->0@,
        text is None ==> r@.text.len() == 0,
{
}

/// An outcome is announced with the hash of its document, unless nothing was written: where
/// tagging is off only that the document waits was, and tags that are used again stand.
pub proof fn written_outcomes_are_announced(outcome: TagOutcome, job: TagJob, r: Option<String>)
    requires
        call_ensures(TagOutcome::completed_hash, (&outcome, &job), r),
    ensures
        r is None <==> outcome is Disabled || outcome is Reused,
        r is Some ==> r->0@ == job@.hash,
{
}

/// An idle worker sweeps once a minute has passed since it last did, and refreshes once two
/// seconds have; what it does then is put off as long again, and what it does not do is not
/// put off.
pub proof fn idle_worker_keeps_its_times(c: &mut IdleClock, now_ms: u64, r: IdlePlan)
    requires
        call_ensures(IdleClock::on_idle, (c, now_ms), r),
    ensures
        r.sweep <==> now_ms >= old(c).last_sweep_ms + 60000,
        r.refresh <==> now_ms >= old(c).last_refresh_ms + 2000,
        r.claim == 8,
        r.sweep ==> final(c).last_sweep_ms == now_ms,
        !r.sweep ==> final(c).last_sweep_ms == old(c).last_sweep_ms,
        r.refresh ==> final(c).last_refresh_ms == now_ms,
        !r.refresh ==> final(c).last_refresh_ms == old(c).last_refresh_ms,
{
}

} // verus!
