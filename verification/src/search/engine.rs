//! Searching the index: what is asked of it, and what is made of its answer.

use vstd::prelude::*;

use crate::error::PapervaultError;
use crate::indexer::pipeline::{IndexDocument, IndexedDocument, PlannedDocument};
use crate::search::query::{compute_highlight_spans, SearchRequest, SearchResult, SearchResults};
use crate::search::schema::SchemaFields;
use crate::tags::model;
use crate::text;

verus! {

/// A reader of an index.
#[verifier::external_type_specification]
#[verifier::external_body]
pub struct ExIndexReader(tantivy::IndexReader);

/// The state of an index that a reader sees.
#[verifier::external_type_specification]
#[verifier::external_body]
pub struct ExSearcher(tantivy::Searcher);

/// A query of several clauses.
#[verifier::external_type_specification]
#[verifier::external_body]
pub struct ExBooleanQuery(tantivy::query::BooleanQuery);

/// Where a document stands in an index.
#[verifier::external_type_specification]
#[verifier::external_body]
pub struct ExDocAddress(tantivy::DocAddress);

/// A document of an index.
#[verifier::external_type_specification]
#[verifier::external_body]
pub struct ExTantivyDocument(tantivy::TantivyDocument);

/// The error type of `tantivy`.
#[verifier::external_type_specification]
#[verifier::external_body]
pub struct ExTantivyError(tantivy::TantivyError);

/// How many bytes are set aside for each result that is asked for.
pub const BYTES_PER_RESULT: usize = 24;

/// What a clause asks of a document.
#[derive(Debug, Clone, Copy, PartialEq, Eq, Structural)]
pub enum Presence {
    /// The document has to hold the term.
    Must,
    /// It does not have to.
    Should,
    /// It must not.
    MustNot,
}

// ── Models ──

/// The clauses of a query: what is asked of a document, the place of a field, and the
/// text of a term.
pub uninterp spec fn query_clauses(query: tantivy::query::BooleanQuery) -> Seq<
    (Presence, nat, Seq<char>),
>;

/// Whether a reader may show this state of its index.
pub uninterp spec fn may_load(reader: tantivy::IndexReader, searcher: tantivy::Searcher) -> bool;

/// How many fields the schema of this state of the index has.
pub uninterp spec fn field_count(searcher: tantivy::Searcher) -> nat;

/// How many documents stand in this state of the index.
pub uninterp spec fn document_count(searcher: tantivy::Searcher) -> nat;

/// Whether the document at an address holds a term in the field at a place.
pub uninterp spec fn has_term(
    searcher: tantivy::Searcher,
    address: tantivy::DocAddress,
    field: nat,
    term: Seq<char>,
) -> bool;

/// Whether a document stands at an address in this state of the index.
pub uninterp spec fn stands_at(searcher: tantivy::Searcher, address: tantivy::DocAddress) -> bool;

/// Whether a search of this state of the index by these clauses may find so many
/// documents, and list those at these addresses as the best.
pub uninterp spec fn may_list(
    searcher: tantivy::Searcher,
    clauses: Seq<(Presence, nat, Seq<char>)>,
    limit: nat,
    listed: Seq<tantivy::DocAddress>,
    total: nat,
) -> bool;

/// Whether such a search may fail.
pub uninterp spec fn may_fail_to_list(
    searcher: tantivy::Searcher,
    clauses: Seq<(Presence, nat, Seq<char>)>,
    limit: nat,
) -> bool;

/// Whether reading the document at an address in this state of the index may fail.
pub uninterp spec fn may_fail_to_read(
    searcher: tantivy::Searcher,
    address: tantivy::DocAddress,
) -> bool;

/// Whether a document may be read at an address in this state of the index.
pub uninterp spec fn may_hold(
    searcher: tantivy::Searcher,
    address: tantivy::DocAddress,
    document: tantivy::TantivyDocument,
) -> bool;

/// There are clauses, and each asks for its term.
pub open spec fn asks_for_all(clauses: Seq<(Presence, nat, Seq<char>)>) -> bool {
    &&& clauses.len() > 0
    &&& forall|i: int| 0 <= i < clauses.len() ==> (#[trigger] clauses[i]).0 == Presence::Must
}

/// A document stands at an address, and holds the term of every clause.
pub open spec fn holds_all(
    searcher: tantivy::Searcher,
    clauses: Seq<(Presence, nat, Seq<char>)>,
    address: tantivy::DocAddress,
) -> bool {
    &&& stands_at(searcher, address)
    &&& forall|i: int|
        0 <= i < clauses.len() ==> has_term(
            searcher,
            address,
            (#[trigger] clauses[i]).1,
            clauses[i].2,
        )
}

/// The addresses of the documents that hold the term of every clause.
pub open spec fn holding_all(
    searcher: tantivy::Searcher,
    clauses: Seq<(Presence, nat, Seq<char>)>,
) -> Set<tantivy::DocAddress> {
    Set::new(|address: tantivy::DocAddress| holds_all(searcher, clauses, address))
}

/// What stands in a field of a document.
pub enum ValueModel {
    Text(Seq<char>),
    Number(i64),
    Other,
}

/// The values of a document, in the order in which they were added: the place of
/// a field, and what stands there.
pub uninterp spec fn document_values(document: tantivy::TantivyDocument) -> Seq<(nat, ValueModel)>;

/// What a value is read as, where it is a text.
pub open spec fn as_text(v: ValueModel) -> Option<Seq<char>> {
    match v {
        ValueModel::Text(t) => Some(t),
        _ => None,
    }
}

/// The values of one field, in order, each as a text where it is one.
pub open spec fn texts_in(values: Seq<(nat, ValueModel)>, field: nat) -> Seq<Option<Seq<char>>> {
    values.filter(|v: (nat, ValueModel)| v.0 == field).map_values(
        |v: (nat, ValueModel)| as_text(v.1),
    )
}

/// What a value is read as, where it is a number.
pub open spec fn as_number(v: ValueModel) -> Option<i64> {
    match v {
        ValueModel::Number(n) => Some(n),
        _ => None,
    }
}

/// The values of one field, in order, each as a number where it is one.
pub open spec fn numbers_in(values: Seq<(nat, ValueModel)>, field: nat) -> Seq<Option<i64>> {
    values.filter(|v: (nat, ValueModel)| v.0 == field).map_values(
        |v: (nat, ValueModel)| as_number(v.1),
    )
}

// ── Calls ──

/// `tantivy::IndexReader::searcher`: a state of the index that the reader may show.
/// Which one that is rests on what was committed and loaded when, and is not stated.
#[verifier::external_body]
fn loaded_state(reader: &tantivy::IndexReader) -> (r: tantivy::Searcher)
    ensures
        may_load(*reader, r),
{
    reader.searcher()
}

/// `tantivy::schema::Schema::num_fields` of `tantivy::Searcher::schema`: how many fields
/// the index has.
#[verifier::external_body]
fn count_fields(searcher: &tantivy::Searcher) -> (r: usize)
    ensures
        r == field_count(*searcher),
{
    searcher.schema().num_fields()
}

/// `tantivy::Searcher::num_docs`: how many documents stand in the index.
#[verifier::external_body]
fn count_documents(searcher: &tantivy::Searcher) -> (r: u64)
    ensures
        r == document_count(*searcher),
{
    searcher.num_docs()
}

/// `tantivy::query::BooleanQuery::new`, with a `TermQuery` for each of the clauses, under
/// the `Occur` of the same name. The clauses are what the query holds.
#[verifier::external_body]
fn query_of(clauses: &Vec<(Presence, tantivy::schema::Field, String)>) -> (r:
    tantivy::query::BooleanQuery)
    ensures
        query_clauses(r) == clauses@.map_values(
            |c: (Presence, tantivy::schema::Field, String)|
                (c.0, crate::search::schema::field_place(c.1), c.2@),
        ),
{
    let clause = |c: &(Presence, tantivy::schema::Field, String)| {
        let term = tantivy::Term::from_field_text(c.1, &c.2);
        let option = tantivy::schema::IndexRecordOption::Basic;
        let query = tantivy::query::TermQuery::new(term, option);
        let boxed: Box<dyn tantivy::query::Query> = Box::new(query);
        match c.0 {
            Presence::Must => (tantivy::query::Occur::Must, boxed),
            Presence::Should => (tantivy::query::Occur::Should, boxed),
            Presence::MustNot => (tantivy::query::Occur::MustNot, boxed),
        }
    };
    tantivy::query::BooleanQuery::new(clauses.iter().map(clause).collect())
}

/// `tantivy::Searcher::search` with a `MultiCollector` of `Count` and
/// `TopDocs::with_limit`. The number of documents that match, which is no more than
/// there are, and the addresses of the best of them, as many as there are up to the
/// limit and none twice. Where every clause asks for its term, the documents that
/// match are those that hold every term. Which of them are the best, and when the search
/// fails, is not stated.
///
/// `TopDocs` panics at a limit of 0, and sets memory aside for twice as many documents
/// as the limit says, twelve bytes for each, which must be no more than a `Vec` can
/// hold. A `TermQuery` looks its field up in the schema of the index by its place, and
/// panics where there is none.
#[verifier::external_body]
fn list_best(searcher: &tantivy::Searcher, query: &tantivy::query::BooleanQuery, limit: usize) -> (r:
    Result<(Vec<tantivy::DocAddress>, usize), tantivy::TantivyError>)
    requires
        1 <= limit,
        limit * BYTES_PER_RESULT <= isize::MAX,
        forall|i: int|
            0 <= i < query_clauses(*query).len() ==> (#[trigger] query_clauses(*query)[i]).1
                < field_count(*searcher),
    ensures
        r matches Ok((listed, total)) ==> {
            &&& listed@.len() == if total < limit {
                total
            } else {
                limit
            }
            &&& total <= document_count(*searcher)
            &&& may_list(*searcher, query_clauses(*query), limit as nat, listed@, total as nat)
            &&& listed@.no_duplicates()
            &&& forall|i: int|
                0 <= i < listed@.len() ==> stands_at(*searcher, #[trigger] listed@[i])
            &&& asks_for_all(query_clauses(*query)) ==> {
                &&& holding_all(*searcher, query_clauses(*query)).finite()
                &&& total == holding_all(*searcher, query_clauses(*query)).len()
                &&& forall|i: int, c: int|
                    0 <= i < listed@.len() && 0 <= c < query_clauses(*query).len() ==> has_term(
                        *searcher,
                        #[trigger] listed@[i],
                        (#[trigger] query_clauses(*query)[c]).1,
                        query_clauses(*query)[c].2,
                    )
            }
        },
        r is Err ==> may_fail_to_list(*searcher, query_clauses(*query), limit as nat),
{
    let mut multi = tantivy::collector::MultiCollector::new();
    let count = multi.add_collector(tantivy::collector::Count);
    let top = multi.add_collector(tantivy::collector::TopDocs::with_limit(limit));
    let mut fruit = searcher.search(query, &multi)?;
    let total = count.extract(&mut fruit);
    let listed = top.extract(&mut fruit).into_iter().map(|(_, address)| address).collect();
    Ok((listed, total))
}

/// `tantivy::Searcher::doc`: the document at an address, which must be one of this
/// state of the index. What stands there, and when it cannot be read, is not stated.
#[verifier::external_body]
fn read_document(searcher: &tantivy::Searcher, address: &tantivy::DocAddress) -> (r: Result<
    tantivy::TantivyDocument,
    tantivy::TantivyError,
>)
    requires
        stands_at(*searcher, *address),
    ensures
        r is Ok ==> may_hold(*searcher, *address, r->Ok_0),
        r is Err ==> may_fail_to_read(*searcher, *address),
{
    searcher.doc(*address)
}

/// `tantivy::TantivyDocument::get_all`, each value read by `as_str`: the values of
/// one field, in order.
#[verifier::external_body]
fn texts_of_field(document: &tantivy::TantivyDocument, field: tantivy::schema::Field) -> (r: Vec<
    Option<String>,
>)
    ensures
        r@.map_values(|t: Option<String>| model::opt_text(t)) == texts_in(
            document_values(*document),
            crate::search::schema::field_place(field),
        ),
{
    document.get_all(field).map(|v| tantivy::schema::Value::as_str(&v).map(String::from)).collect()
}

/// `tantivy::TantivyDocument::get_all`, each value read by `as_i64`: the values of
/// one field, in order.
#[verifier::external_body]
fn numbers_of_field(document: &tantivy::TantivyDocument, field: tantivy::schema::Field) -> (r: Vec<
    Option<i64>,
>)
    ensures
        r@ == numbers_in(document_values(*document), crate::search::schema::field_place(field)),
{
    document.get_all(field).map(|v| tantivy::schema::Value::as_i64(&v)).collect()
}

/// The message of a `tantivy` error, by its `Display`. What it says is not stated.
#[verifier::external_body]
fn tantivy_error_text(error: &tantivy::TantivyError) -> String {
    error.to_string()
}

// ── What is made of a document ──

/// What the index has stored of a document: the values of each field, in order,
/// each as a text where it is one.
#[derive(Debug, Clone)]
pub struct StoredDocument {
    pub file_name: Vec<Option<String>>,
    pub file_path: Vec<Option<String>>,
    pub file_type: Vec<Option<String>>,
    pub content_hash: Vec<Option<String>>,
    pub tags: Vec<Option<String>>,
    pub body: Vec<Option<String>>,
}

/// The texts of a field.
pub open spec fn opt_texts(v: Seq<Option<String>>) -> Seq<Option<Seq<char>>> {
    v.map_values(|t: Option<String>| model::opt_text(t))
}

/// The first value of a field, where it is a text, and a default otherwise.
pub open spec fn first_or(values: Seq<Option<Seq<char>>>, default: Seq<char>) -> Seq<char> {
    if values.len() > 0 && values[0] is Some {
        values[0]->0
    } else {
        default
    }
}

/// The values that are texts.
pub open spec fn only_texts(values: Seq<Option<Seq<char>>>) -> Seq<Seq<char>>
    decreases values.len(),
{
    if values.len() == 0 {
        Seq::empty()
    } else {
        match values.last() {
            Some(t) => only_texts(values.drop_last()).push(t),
            None => only_texts(values.drop_last()),
        }
    }
}

/// How many bytes of text are shown whole, and how many characters of a longer one.
pub const SNIPPET_LENGTH: usize = 200;

/// What is shown of a text: all of it, where it is short, and its beginning
/// otherwise.
pub open spec fn snippet_of(body: Seq<char>) -> Seq<char> {
    if crate::search::query::utf8_bytes(body).len() > SNIPPET_LENGTH {
        (if body.len() < SNIPPET_LENGTH {
            body
        } else {
            body.take(SNIPPET_LENGTH as int)
        }) + "..."@
    } else {
        body
    }
}

/// The spans are what is highlighted of the terms in a snippet.
pub open spec fn are_highlights(
    snippet: Seq<char>,
    lower: Seq<char>,
    terms: Seq<String>,
    spans: Seq<(usize, usize)>,
) -> bool {
    &&& crate::search::query::separated(spans)
    &&& crate::search::query::on_boundaries(crate::search::query::utf8_bytes(snippet), spans)
    &&& forall|p: int|
        #[trigger] crate::search::query::span_covers(spans, p) <==> crate::search::query::term_covers(
            crate::search::query::utf8_bytes(snippet),
            crate::search::query::utf8_bytes(lower),
            crate::search::query::term_bytes(terms),
            terms.len() as int,
            p,
        )
}

/// A result is what is shown of a document that was found by these terms.
pub open spec fn is_result(d: StoredDocument, terms: Seq<Seq<char>>, r: SearchResult) -> bool {
    &&& r.file_name@ == first_or(opt_texts(d.file_name@), "unknown"@)
    &&& r.file_path@ == first_or(opt_texts(d.file_path@), ""@)
    &&& r.file_type@ == first_or(opt_texts(d.file_type@), ""@)
    &&& r.content_hash@ == first_or(opt_texts(d.content_hash@), ""@)
    &&& text::texts(r.tags@) == only_texts(opt_texts(d.tags@))
    &&& r.match_count == d.body@.len()
    &&& r.snippet@ == snippet_of(first_or(opt_texts(d.body@), ""@))
    &&& r.lower_snippet@ == text::lowercase(r.snippet@)
    &&& text::texts(r.match_terms@) == terms
    &&& are_highlights(r.snippet@, r.lower_snippet@, r.match_terms@, r.highlight_spans@)
}

/// What the index has stored of a document is what stands in its fields.
pub open spec fn is_stored_as(
    document: tantivy::TantivyDocument,
    fields: SchemaFields,
    d: StoredDocument,
) -> bool {
    let values = document_values(document);
    &&& opt_texts(d.file_name@) == texts_in(values, crate::search::schema::field_place(fields.file_name))
    &&& opt_texts(d.file_path@) == texts_in(values, crate::search::schema::field_place(fields.file_path))
    &&& opt_texts(d.file_type@) == texts_in(values, crate::search::schema::field_place(fields.file_type))
    &&& opt_texts(d.content_hash@) == texts_in(values, crate::search::schema::field_place(fields.content_hash))
    &&& opt_texts(d.tags@) == texts_in(values, crate::search::schema::field_place(fields.tags))
    &&& opt_texts(d.body@) == texts_in(values, crate::search::schema::field_place(fields.body))
}

/// The first value of a field, where it is a text, and a default otherwise.
fn first_text(values: &Vec<Option<String>>, default: &str) -> (r: String)
    ensures
        r@ == first_or(opt_texts(values@), default@),
{
    if values.len() > 0 {
        assert(opt_texts(values@)[0] == model::opt_text(values@[0]));
        if let Some(t) = &values[0] {
            return text::copy_str(t.as_str());
        }
    }
    text::copy_str(default)
}

/// The values that are texts.
fn texts_among(values: &Vec<Option<String>>) -> (r: Vec<String>)
    ensures
        text::texts(r@) == only_texts(opt_texts(values@)),
{
    let ghost all = opt_texts(values@);
    let mut r: Vec<String> = Vec::new();
    let mut i: usize = 0;
    proof {
        assert(all.take(0) =~= Seq::<Option<Seq<char>>>::empty());
        assert(text::texts(r@) =~= only_texts(all.take(0)));
    }
    while i < values.len()
        invariant
            i <= values@.len(),
            all == opt_texts(values@),
            text::texts(r@) == only_texts(all.take(i as int)),
        decreases values@.len() - i,
    {
        let ghost before = r@;
        proof {
            assert(all.take(i + 1).drop_last() =~= all.take(i as int));
            assert(all.take(i + 1).last() == model::opt_text(values@[i as int]));
        }
        if let Some(t) = &values[i] {
            r.push(text::copy_str(t.as_str()));
            assert(text::texts(r@) =~= text::texts(before).push(t@));
        }
        i = i + 1;
    }
    assert(all.take(all.len() as int) =~= all);
    r
}

/// What is shown of a text.
pub fn make_snippet(body: &str) -> (r: String)
    ensures
        r@ == snippet_of(body@),
{
    if body.as_bytes().len() > SNIPPET_LENGTH {
        let chars: Vec<char> = text::chars_of(body);
        let n: usize = if chars.len() < SNIPPET_LENGTH {
            chars.len()
        } else {
            SNIPPET_LENGTH
        };
        let mut r: String = text::string_of(&chars, 0, n);
        proof {
            assert(body@.subrange(0, n as int) =~= if body@.len() < SNIPPET_LENGTH {
                body@
            } else {
                body@.take(SNIPPET_LENGTH as int)
            });
        }
        r.append("...");
        r
    } else {
        text::copy_str(body)
    }
}

/// What is shown of a document that was found by these terms.
pub fn result_of(d: &StoredDocument, terms: &Vec<String>) -> (r: SearchResult)
    ensures
        is_result(*d, text::texts(terms@), r),
{
    let body: String = first_text(&d.body, "");
    let snippet: String = make_snippet(body.as_str());
    let lower: String = text::to_lowercase(snippet.as_str());
    let match_terms: Vec<String> = text::clone_strings(terms);
    let spans: Vec<(usize, usize)> = compute_highlight_spans(
        snippet.as_str(),
        lower.as_str(),
        match_terms.as_slice(),
    );
    SearchResult {
        file_name: first_text(&d.file_name, "unknown"),
        file_path: first_text(&d.file_path, ""),
        file_type: first_text(&d.file_type, ""),
        snippet: snippet,
        match_count: d.body.len(),
        match_terms: match_terms,
        highlight_spans: spans,
        content_hash: first_text(&d.content_hash, ""),
        tags: texts_among(&d.tags),
        lower_snippet: lower,
    }
}

// ── Searching ──

/// The words of a query in lower case: each must occur in a document.
pub open spec fn search_words(query: Seq<char>) -> Seq<Seq<char>> {
    text::words(query).map_values(|w: Seq<char>| text::lowercase(w))
}

/// What a request asks of a document: every word must be in its text, and every tag
/// among its tags.
pub open spec fn request_clauses(request: SearchRequest, fields: SchemaFields) -> Seq<
    (Presence, nat, Seq<char>),
> {
    search_words(request.query@).map_values(
        |w: Seq<char>| (Presence::Must, crate::search::schema::field_place(fields.body), w),
    ) + text::texts(request.tag_filters@).map_values(
        |t: Seq<char>| (Presence::Must, crate::search::schema::field_place(fields.tags), t),
    )
}

/// How many results are asked of the index: as many as the request says, but no more
/// than there are documents.
pub open spec fn asked_limit(limit: nat, documents: nat) -> nat {
    if documents == 0 {
        1
    } else if limit < documents {
        limit
    } else {
        documents
    }
}

/// Results that a search of the index for a request may give. The number of hits is that
/// of the documents that hold every word and every tag of the request; the results are
/// as many, up to the limit, each made of another one of these documents.
pub open spec fn may_find(
    request: SearchRequest,
    fields: SchemaFields,
    searcher: tantivy::Searcher,
    r: SearchResults,
) -> bool {
    let clauses = request_clauses(request, fields);
    &&& holding_all(searcher, clauses).finite()
    &&& r.total_hits == holding_all(searcher, clauses).len()
    &&& r.items@.len() == if r.total_hits < request.limit {
        r.total_hits
    } else {
        request.limit
    }
    &&& exists|listed: Seq<tantivy::DocAddress>| #[trigger]
        is_made_of_listed(request, fields, searcher, r, listed)
}

/// The results are made of the documents at these addresses, which the index lists.
pub open spec fn is_made_of_listed(
    request: SearchRequest,
    fields: SchemaFields,
    searcher: tantivy::Searcher,
    r: SearchResults,
    listed: Seq<tantivy::DocAddress>,
) -> bool {
    let clauses = request_clauses(request, fields);
    &&& may_list(
        searcher,
        clauses,
        asked_limit(request.limit as nat, document_count(searcher)),
        listed,
        r.total_hits as nat,
    )
    &&& listed.no_duplicates()
    &&& listed.len() == r.items@.len()
    &&& forall|i: int|
        0 <= i < listed.len() ==> holds_all(searcher, clauses, #[trigger] listed[i]) && shows(
            searcher,
            listed[i],
            fields,
            search_words(request.query@),
            r.items@[i],
        )
}

/// A result is made of what the index holds at an address.
pub open spec fn shows(
    searcher: tantivy::Searcher,
    address: tantivy::DocAddress,
    fields: SchemaFields,
    words: Seq<Seq<char>>,
    r: SearchResult,
) -> bool {
    exists|document: tantivy::TantivyDocument, d: StoredDocument|
        may_hold(searcher, address, document) && #[trigger] is_stored_as(document, fields, d)
            && is_result(d, words, r)
}

/// What the index has stored of a document.
fn stored_document(document: &tantivy::TantivyDocument, fields: &SchemaFields) -> (r: StoredDocument)
    ensures
        is_stored_as(*document, *fields, r),
{
    StoredDocument {
        file_name: texts_of_field(document, fields.file_name),
        file_path: texts_of_field(document, fields.file_path),
        file_type: texts_of_field(document, fields.file_type),
        content_hash: texts_of_field(document, fields.content_hash),
        tags: texts_of_field(document, fields.tags),
        body: texts_of_field(document, fields.body),
    }
}

/// The words of a query in lower case.
pub fn words_to_find(query: &str) -> (r: Vec<String>)
    ensures
        text::texts(r@) == search_words(query@),
{
    let words: Vec<String> = text::split_words(query);
    let mut r: Vec<String> = Vec::new();
    let mut i: usize = 0;
    while i < words.len()
        invariant
            i <= words@.len(),
            text::texts(words@) == text::words(query@),
            r@.len() == i,
            forall|k: int| 0 <= k < i ==> (#[trigger] r@[k])@ == text::lowercase(words@[k]@),
        decreases words@.len() - i,
    {
        r.push(text::to_lowercase(words[i].as_str()));
        i = i + 1;
    }
    proof {
        assert forall|k: int| 0 <= k < r@.len() implies text::texts(r@)[k] == search_words(
            query@,
        )[k] by {
            assert(r@[k]@ == text::lowercase(words@[k]@));
            assert(text::texts(words@)[k] == words@[k]@);
        }
        assert(text::texts(r@) =~= search_words(query@));
    }
    r
}

/// The query of a request.
fn request_query(fields: &SchemaFields, request: &SearchRequest, words: &Vec<String>) -> (r:
    tantivy::query::BooleanQuery)
    requires
        text::texts(words@) == search_words(request.query@),
    ensures
        query_clauses(r) == request_clauses(*request, *fields),
{
    let mut clauses: Vec<(Presence, tantivy::schema::Field, String)> = Vec::new();
    let mut i: usize = 0;
    while i < words.len()
        invariant
            i <= words@.len(),
            clauses@.len() == i,
            forall|k: int|
                0 <= k < i ==> (#[trigger] clauses@[k]).0 == Presence::Must && clauses@[k].1
                    == fields.body && clauses@[k].2@ == words@[k]@,
        decreases words@.len() - i,
    {
        clauses.push((Presence::Must, fields.body, text::copy_str(words[i].as_str())));
        i = i + 1;
    }
    let mut j: usize = 0;
    while j < request.tag_filters.len()
        invariant
            j <= request.tag_filters@.len(),
            clauses@.len() == words@.len() + j,
            forall|k: int|
                0 <= k < words@.len() ==> (#[trigger] clauses@[k]).0 == Presence::Must
                    && clauses@[k].1 == fields.body && clauses@[k].2@ == words@[k]@,
            forall|k: int|
                words@.len() <= k < clauses@.len() ==> (#[trigger] clauses@[k]).0
                    == Presence::Must && clauses@[k].1 == fields.tags && clauses@[k].2@
                    == request.tag_filters@[k - words@.len()]@,
        decreases request.tag_filters@.len() - j,
    {
        clauses.push(
            (Presence::Must, fields.tags, text::copy_str(request.tag_filters[j].as_str())),
        );
        j = j + 1;
    }
    let query: tantivy::query::BooleanQuery = query_of(&clauses);
    proof {
        let asked = request_clauses(*request, *fields);
        assert forall|k: int| 0 <= k < asked.len() implies #[trigger] query_clauses(query)[k]
            == asked[k] by {
            if k < words@.len() {
                assert(text::texts(words@)[k] == words@[k]@);
                assert(clauses@[k].1 == fields.body);
            } else {
                let t = k - words@.len();
                assert(text::texts(request.tag_filters@)[t] == request.tag_filters@[t]@);
                assert(clauses@[k].1 == fields.tags);
            }
        }
        assert(text::texts(words@).len() == words@.len());
        assert(query_clauses(query) =~= asked);
    }
    query
}

/// Why a search is not made: the index has no field at one of the places, or what would
/// have to be set aside for the results is more than can be.
pub open spec fn refusal(body: nat, tags: nat, field_total: nat, asked: nat) -> Option<Seq<char>> {
    if body >= field_total || tags >= field_total {
        Some("the index lacks a field"@)
    } else if asked * BYTES_PER_RESULT > isize::MAX {
        Some("the index is too large"@)
    } else {
        None
    }
}

/// How many results are asked of an index with so many fields and documents, or why none
/// are.
pub fn results_to_ask(
    body: u32,
    tags: u32,
    field_total: usize,
    limit: usize,
    documents: u64,
) -> (r: Result<usize, PapervaultError>)
    requires
        1 <= limit,
    ensures
        match refusal(
            body as nat,
            tags as nat,
            field_total as nat,
            asked_limit(limit as nat, documents as nat),
        ) {
            Some(detail) => r matches Err(PapervaultError::Tantivy(d)) && d@ == detail,
            None => r matches Ok(n) && n == asked_limit(limit as nat, documents as nat) && n >= 1,
        },
{
    if body as usize >= field_total || tags as usize >= field_total {
        return Err(PapervaultError::Tantivy(text::copy_str("the index lacks a field")));
    }
    let asked: usize = if documents == 0 {
        1
    } else if (limit as u64) < documents {
        limit
    } else {
        documents as usize
    };
    let most: usize = isize::MAX as usize / BYTES_PER_RESULT;
    proof {
        assert(asked <= most <==> asked * BYTES_PER_RESULT <= isize::MAX) by (nonlinear_arith)
            requires
                most == isize::MAX as usize / BYTES_PER_RESULT,
                BYTES_PER_RESULT == 24,
        ;
    }
    if asked > most {
        return Err(PapervaultError::Tantivy(text::copy_str("the index is too large")));
    }
    Ok(asked)
}

/// The document at this place is the first that could not be read.
pub open spec fn is_first_failed(documents: Seq<Result<StoredDocument, String>>, k: int) -> bool {
    &&& 0 <= k < documents.len()
    &&& documents[k] is Err
    &&& forall|i: int| 0 <= i < k ==> (#[trigger] documents[i]) is Ok
}

/// What is made of what the index gave: an error where the search failed, or a document
/// could not be read, and else a result for each document, with the number of hits.
pub open spec fn is_made_of_found(
    total: Result<usize, String>,
    documents: Seq<Result<StoredDocument, String>>,
    words: Seq<Seq<char>>,
    r: Result<SearchResults, PapervaultError>,
) -> bool {
    match total {
        Err(detail) => r matches Err(PapervaultError::Tantivy(d)) && d@ == detail@,
        Ok(total) => match r {
            Ok(found) => {
                &&& found.total_hits == total
                &&& found.items@.len() == documents.len()
                &&& forall|i: int|
                    0 <= i < documents.len() ==> (#[trigger] documents[i]) is Ok && is_result(
                        documents[i]->Ok_0,
                        words,
                        found.items@[i],
                    )
            },
            Err(PapervaultError::Tantivy(d)) => exists|k: int| #[trigger]
                is_first_failed(documents, k) && d@ == documents[k]->Err_0@,
            Err(_) => false,
        },
    }
}

/// What is made of what the index gave: `total` is the number of hits, or why the search
/// failed, and each document is what was read of it, or why it could not be.
pub fn answer_of(
    total: Result<usize, String>,
    documents: &Vec<Result<StoredDocument, String>>,
    words: &Vec<String>,
) -> (r: Result<SearchResults, PapervaultError>)
    ensures
        is_made_of_found(total, documents@, text::texts(words@), r),
{
    let total_hits: usize = match total {
        Ok(n) => n,
        Err(detail) => return Err(PapervaultError::Tantivy(detail)),
    };
    let mut items: Vec<SearchResult> = Vec::new();
    let mut k: usize = 0;
    while k < documents.len()
        invariant
            k <= documents@.len(),
            items@.len() == k,
            total == Ok::<usize, String>(total_hits),
            forall|i: int|
                0 <= i < k ==> (#[trigger] documents@[i]) is Ok && is_result(
                    documents@[i]->Ok_0,
                    text::texts(words@),
                    items@[i],
                ),
        decreases documents@.len() - k,
    {
        match &documents[k] {
            Ok(d) => items.push(result_of(d, words)),
            Err(detail) => {
                assert(is_first_failed(documents@, k as int));
                return Err(PapervaultError::Tantivy(text::copy_str(detail.as_str())));
            },
        }
        k = k + 1;
    }
    Ok(SearchResults { items: items, total_hits: total_hits })
}

/// What may come of searching this state of the index for a request. A search that is
/// refused gives the reason; any other finds what the index holds, or fails where the
/// index fails to list the documents or to read one of them.
pub open spec fn is_answer(
    request: SearchRequest,
    fields: SchemaFields,
    searcher: tantivy::Searcher,
    r: Result<SearchResults, PapervaultError>,
) -> bool {
    let clauses = request_clauses(request, fields);
    let asked = asked_limit(request.limit as nat, document_count(searcher));
    match refusal(
        crate::search::schema::field_place(fields.body),
        crate::search::schema::field_place(fields.tags),
        field_count(searcher),
        asked,
    ) {
        Some(detail) => r matches Err(PapervaultError::Tantivy(d)) && d@ == detail,
        None => match r {
            Ok(found) => may_find(request, fields, searcher, found),
            Err(e) => {
                &&& e is Tantivy
                &&& may_fail_to_list(searcher, clauses, asked) || exists|a: tantivy::DocAddress|
                    #[trigger] may_fail_to_read(searcher, a) && holds_all(searcher, clauses, a)
            },
        },
    }
}

/// What was read at an address, or that it could not be.
pub open spec fn is_read_at(
    searcher: tantivy::Searcher,
    fields: SchemaFields,
    address: tantivy::DocAddress,
    read: Result<StoredDocument, String>,
) -> bool {
    match read {
        Ok(d) => exists|document: tantivy::TantivyDocument|
            may_hold(searcher, address, document) && #[trigger] is_stored_as(document, fields, d),
        Err(_) => may_fail_to_read(searcher, address),
    }
}

/// Reads the documents at some addresses, up to the first that cannot be.
fn read_listed(
    searcher: &tantivy::Searcher,
    fields: &SchemaFields,
    listed: &Vec<tantivy::DocAddress>,
) -> (r: Vec<Result<StoredDocument, String>>)
    requires
        forall|i: int| 0 <= i < listed@.len() ==> stands_at(*searcher, #[trigger] listed@[i]),
    ensures
        r@.len() <= listed@.len(),
        forall|i: int|
            0 <= i < r@.len() ==> is_read_at(*searcher, *fields, listed@[i], #[trigger] r@[i]),
        r@.len() < listed@.len() ==> r@.len() > 0 && r@.last() is Err,
{
    let mut r: Vec<Result<StoredDocument, String>> = Vec::new();
    let mut k: usize = 0;
    while k < listed.len()
        invariant
            k <= listed@.len(),
            r@.len() == k,
            forall|i: int| 0 <= i < listed@.len() ==> stands_at(*searcher, #[trigger] listed@[i]),
            forall|i: int|
                0 <= i < k ==> is_read_at(*searcher, *fields, listed@[i], #[trigger] r@[i]),
        decreases listed@.len() - k,
    {
        assert(stands_at(*searcher, listed@[k as int]));
        match read_document(searcher, &listed[k]) {
            Ok(document) => {
                let d: StoredDocument = stored_document(&document, fields);
                let read: Result<StoredDocument, String> = Ok(d);
                assert(is_stored_as(document, *fields, read->Ok_0));
                assert(is_read_at(*searcher, *fields, listed@[k as int], read));
                r.push(read);
            },
            Err(e) => {
                r.push(Err(tantivy_error_text(&e)));
                return r;
            },
        }
        k = k + 1;
    }
    r
}

/// Search with a reader: every word of the query must occur in the text of a
/// document, and every tag of the request among its tags. A query without words
/// finds nothing. A request by fields that the index does not have is an error.
pub fn search_with_reader(
    fields: &SchemaFields,
    reader: &tantivy::IndexReader,
    request: &SearchRequest,
) -> (r: Result<SearchResults, PapervaultError>)
    requires
        text::trim(request.query@).len() > 0 ==> 1 <= request.limit,
    ensures
        text::trim(request.query@).len() == 0 ==> (r matches Ok(found) && found.items@.len() == 0
            && found.total_hits == 0),
        text::trim(request.query@).len() > 0 ==> exists|searcher: tantivy::Searcher|
            may_load(*reader, searcher) && #[trigger] is_answer(*request, *fields, searcher, r),
{
    let trimmed: String = text::trim_text(request.query.as_str());
    if trimmed.as_str().is_empty() {
        return Ok(SearchResults { items: Vec::new(), total_hits: 0 });
    }
    let words: Vec<String> = words_to_find(request.query.as_str());
    let query: tantivy::query::BooleanQuery = request_query(fields, request, &words);
    let searcher: tantivy::Searcher = loaded_state(reader);
    let ghost clauses = request_clauses(*request, *fields);
    let limit: usize = match results_to_ask(
        crate::search::schema::place_of_field(&fields.body),
        crate::search::schema::place_of_field(&fields.tags),
        count_fields(&searcher),
        request.limit,
        count_documents(&searcher),
    ) {
        Ok(limit) => limit,
        Err(e) => {
            let refused: Result<SearchResults, PapervaultError> = Err(e);
            assert(is_answer(*request, *fields, searcher, refused));
            return refused;
        },
    };
    proof {
        text::text_that_is_not_blank_has_words(request.query@);
        assert(asks_for_all(clauses));
    }
    let (listed, total): (Vec<tantivy::DocAddress>, usize) = match list_best(
        &searcher,
        &query,
        limit,
    ) {
        Ok(found) => found,
        Err(e) => {
            let failed: Result<SearchResults, PapervaultError> = answer_of(
                Err(tantivy_error_text(&e)),
                &Vec::new(),
                &words,
            );
            assert(is_answer(*request, *fields, searcher, failed));
            return failed;
        },
    };
    let documents: Vec<Result<StoredDocument, String>> = read_listed(&searcher, fields, &listed);
    let answer: Result<SearchResults, PapervaultError> = answer_of(Ok(total), &documents, &words);
    proof {
        assert forall|i: int| 0 <= i < listed@.len() implies holds_all(
            searcher,
            clauses,
            #[trigger] listed@[i],
        ) by {
            assert(stands_at(searcher, listed@[i]));
        }
        if answer is Ok {
            let found = answer->Ok_0;
            assert(documents@.len() < listed@.len() ==> documents@[documents@.len() - 1] is Ok);
            assert forall|i: int| 0 <= i < listed@.len() implies holds_all(
                searcher,
                clauses,
                #[trigger] listed@[i],
            ) && shows(
                searcher,
                listed@[i],
                *fields,
                search_words(request.query@),
                found.items@[i],
            ) by {
                assert(is_read_at(searcher, *fields, listed@[i], documents@[i]));
                let d = documents@[i]->Ok_0;
                assert(is_result(d, search_words(request.query@), found.items@[i]));
            }
            assert(is_made_of_listed(*request, *fields, searcher, found, listed@));
            assert(may_find(*request, *fields, searcher, found));
        } else {
            let k = choose|k: int| #[trigger] is_first_failed(documents@, k);
            assert(is_read_at(searcher, *fields, listed@[k], documents@[k]));
            assert(may_fail_to_read(searcher, listed@[k]));
        }
        assert(is_answer(*request, *fields, searcher, answer));
    }
    answer
}

/// A document at an address holds every word of a query in its text, and every tag among
/// its tags.
pub open spec fn holds_words_and_tags(
    searcher: tantivy::Searcher,
    address: tantivy::DocAddress,
    request: SearchRequest,
    fields: SchemaFields,
) -> bool {
    &&& stands_at(searcher, address)
    &&& forall|i: int|
        0 <= i < search_words(request.query@).len() ==> has_term(
            searcher,
            address,
            crate::search::schema::field_place(fields.body),
            #[trigger] search_words(request.query@)[i],
        )
    &&& forall|i: int|
        0 <= i < request.tag_filters@.len() ==> has_term(
            searcher,
            address,
            crate::search::schema::field_place(fields.tags),
            (#[trigger] request.tag_filters@[i])@,
        )
}

/// Every result is made of a document that holds every word and every tag that was asked
/// for, each of another one, and the number of hits is that of all such documents, also
/// of those that the limit leaves out.
pub proof fn results_hold_every_word_and_tag(
    request: SearchRequest,
    fields: SchemaFields,
    searcher: tantivy::Searcher,
    r: SearchResults,
)
    requires
        may_find(request, fields, searcher, r),
    ensures
        exists|listed: Seq<tantivy::DocAddress>|
            {
                &&& #[trigger] listed.no_duplicates()
                &&& listed.len() == r.items@.len()
                &&& forall|i: int|
                    0 <= i < listed.len() ==> holds_words_and_tags(
                        searcher,
                        #[trigger] listed[i],
                        request,
                        fields,
                    ) && shows(
                        searcher,
                        listed[i],
                        fields,
                        search_words(request.query@),
                        r.items@[i],
                    )
            },
        r.total_hits == Set::new(
            |a: tantivy::DocAddress| holds_words_and_tags(searcher, a, request, fields),
        ).len(),
{
    let clauses = request_clauses(request, fields);
    let words = search_words(request.query@);
    let tags = text::texts(request.tag_filters@);
    assert forall|a: tantivy::DocAddress| #[trigger]
        holds_words_and_tags(searcher, a, request, fields) == holds_all(searcher, clauses, a) by {
        if holds_all(searcher, clauses, a) {
            assert forall|i: int| 0 <= i < words.len() implies has_term(
                searcher,
                a,
                crate::search::schema::field_place(fields.body),
                #[trigger] words[i],
            ) by {
                assert(clauses[i].2 == words[i]);
            }
            assert forall|i: int| 0 <= i < request.tag_filters@.len() implies has_term(
                searcher,
                a,
                crate::search::schema::field_place(fields.tags),
                (#[trigger] request.tag_filters@[i])@,
            ) by {
                assert(tags[i] == request.tag_filters@[i]@);
                assert(clauses[words.len() + i].2 == tags[i]);
            }
        }
        if holds_words_and_tags(searcher, a, request, fields) {
            assert forall|i: int| 0 <= i < clauses.len() implies has_term(
                searcher,
                a,
                (#[trigger] clauses[i]).1,
                clauses[i].2,
            ) by {
                if i < words.len() {
                    assert(clauses[i].2 == words[i]);
                } else {
                    let t = i - words.len();
                    assert(tags[t] == request.tag_filters@[t]@);
                    assert(clauses[i].2 == tags[t]);
                }
            }
        }
    }
    assert(Set::new(|a: tantivy::DocAddress| holds_words_and_tags(searcher, a, request, fields))
        =~= holding_all(searcher, clauses));
    let listed = choose|listed: Seq<tantivy::DocAddress>| #[trigger]
        is_made_of_listed(request, fields, searcher, r, listed);
    assert forall|i: int| 0 <= i < listed.len() implies holds_words_and_tags(
        searcher,
        #[trigger] listed[i],
        request,
        fields,
    ) && shows(searcher, listed[i], fields, search_words(request.query@), r.items@[i]) by {
        assert(holds_words_and_tags(searcher, listed[i], request, fields) == holds_all(
            searcher,
            clauses,
            listed[i],
        ));
    }
    assert(listed.no_duplicates());
}

// ── What the index knows of a file ──

/// The first value of a field, where it is a number, and 0 otherwise.
pub open spec fn number_or_zero(values: Seq<Option<i64>>) -> i64 {
    if values.len() > 0 && values[0] is Some {
        values[0]->0
    } else {
        0
    }
}

/// A document of the index: its content hash, path, type and modification time, as
/// they are stored, with what is on disk at its path.
pub open spec fn is_indexed_document(
    document: tantivy::TantivyDocument,
    fields: SchemaFields,
    file_size: Option<i64>,
    d: IndexedDocument,
) -> bool {
    let values = document_values(document);
    &&& d.content_hash@ == first_or(
        texts_in(values, crate::search::schema::field_place(fields.content_hash)),
        ""@,
    )
    &&& d.file_path@ == first_or(
        texts_in(values, crate::search::schema::field_place(fields.file_path)),
        ""@,
    )
    &&& d.file_type@ == first_or(
        texts_in(values, crate::search::schema::field_place(fields.file_type)),
        ""@,
    )
    &&& d.modified_ts == number_or_zero(
        numbers_in(values, crate::search::schema::field_place(fields.modified_ts)),
    )
    &&& d.file_exists == (file_size is Some)
    &&& d.file_size == match file_size {
        Some(size) => size,
        None => 0,
    }
}

/// The path that the index has for a document; empty where it has none.
pub fn path_in_index(document: &tantivy::TantivyDocument, fields: &SchemaFields) -> (r: String)
    ensures
        r@ == first_or(
            texts_in(
                document_values(*document),
                crate::search::schema::field_place(fields.file_path),
            ),
            ""@,
        ),
{
    first_text(&texts_of_field(document, fields.file_path), "")
}

/// What the index knows of a file, with the size of the file at its path, where
/// there is one.
pub fn indexed_document(
    document: &tantivy::TantivyDocument,
    fields: &SchemaFields,
    file_size: Option<i64>,
) -> (r: IndexedDocument)
    ensures
        is_indexed_document(*document, *fields, file_size, r),
{
    let times: Vec<Option<i64>> = numbers_of_field(document, fields.modified_ts);
    let modified: i64 = if times.len() > 0 {
        match times[0] {
            Some(n) => n,
            None => 0,
        }
    } else {
        0
    };
    IndexedDocument {
        content_hash: first_text(&texts_of_field(document, fields.content_hash), ""),
        file_path: path_in_index(document, fields),
        file_type: first_text(&texts_of_field(document, fields.file_type), ""),
        modified_ts: modified,
        file_exists: file_size.is_some(),
        file_size: match file_size {
            Some(size) => size,
            None => 0,
        },
    }
}

// ── Writing ──

/// `tantivy::TantivyDocument::new`: a document without values.
#[verifier::external_body]
fn new_document() -> (r: tantivy::TantivyDocument)
    ensures
        document_values(r) == Seq::<(nat, ValueModel)>::empty(),
{
    tantivy::TantivyDocument::new()
}

/// `tantivy::TantivyDocument::add_text`: a text behind the values that are there.
#[verifier::external_body]
fn add_text_value(document: &mut tantivy::TantivyDocument, field: tantivy::schema::Field, value: &str)
    ensures
        document_values(*final(document)) == document_values(*old(document)).push(
            (crate::search::schema::field_place(field), ValueModel::Text(value@)),
        ),
{
    document.add_text(field, value);
}

/// `tantivy::TantivyDocument::add_i64`: a number behind the values that are there.
#[verifier::external_body]
fn add_number_value(document: &mut tantivy::TantivyDocument, field: tantivy::schema::Field, value: i64)
    ensures
        document_values(*final(document)) == document_values(*old(document)).push(
            (crate::search::schema::field_place(field), ValueModel::Number(value)),
        ),
{
    document.add_i64(field, value);
}

/// A text in a field.
pub open spec fn text_value(field: tantivy::schema::Field, value: Seq<char>) -> (nat, ValueModel) {
    (crate::search::schema::field_place(field), ValueModel::Text(value))
}

/// The values that the index gets for a document: one for each field, and one for
/// each tag.
pub open spec fn values_of(fields: SchemaFields, d: IndexDocument) -> Seq<(nat, ValueModel)> {
    seq![
        text_value(fields.doc_id, d.doc_id@),
        text_value(fields.file_path, d.file_path@),
        text_value(fields.file_name, d.file_name@),
        text_value(fields.body, d.body@),
        text_value(fields.file_type, d.file_type@),
        (crate::search::schema::field_place(fields.modified_ts), ValueModel::Number(d.modified_ts)),
        text_value(fields.content_hash, d.content_hash@),
    ] + text::texts(d.tags@).map_values(|t: Seq<char>| text_value(fields.tags, t))
}

/// The document that the index gets.
pub fn build_document(fields: &SchemaFields, d: &IndexDocument) -> (r: tantivy::TantivyDocument)
    ensures
        document_values(r) == values_of(*fields, *d),
{
    let mut document: tantivy::TantivyDocument = new_document();
    add_text_value(&mut document, fields.doc_id, d.doc_id.as_str());
    add_text_value(&mut document, fields.file_path, d.file_path.as_str());
    add_text_value(&mut document, fields.file_name, d.file_name.as_str());
    add_text_value(&mut document, fields.body, d.body.as_str());
    add_text_value(&mut document, fields.file_type, d.file_type.as_str());
    add_number_value(&mut document, fields.modified_ts, d.modified_ts);
    add_text_value(&mut document, fields.content_hash, d.content_hash.as_str());
    let ghost all = values_of(*fields, *d);
    assert(document_values(document) =~= all.take(7));
    let mut i: usize = 0;
    while i < d.tags.len()
        invariant
            i <= d.tags@.len(),
            all == values_of(*fields, *d),
            document_values(document) == all.take(7 + i),
        decreases d.tags@.len() - i,
    {
        add_text_value(&mut document, fields.tags, d.tags[i].as_str());
        proof {
            assert(text::texts(d.tags@)[i as int] == d.tags@[i as int]@);
            assert(all[7 + i] == text_value(fields.tags, d.tags@[i as int]@));
            assert(document_values(document) =~= all.take(7 + i + 1));
        }
        i = i + 1;
    }
    assert(all.take(all.len() as int) =~= all);
    document
}

/// One more value shows in its own field, and in no other.
proof fn lemma_texts_in_push(values: Seq<(nat, ValueModel)>, v: (nat, ValueModel), field: nat)
    ensures
        texts_in(values.push(v), field) == if v.0 == field {
            texts_in(values, field).push(as_text(v.1))
        } else {
            texts_in(values, field)
        },
{
    reveal(Seq::filter);
    let p = |x: (nat, ValueModel)| x.0 == field;
    let all = values.push(v);
    assert(all.drop_last() =~= values);
    assert(all.last() == v);
    if v.0 == field {
        assert(all.filter(p) =~= values.filter(p).push(v));
    }
    assert(texts_in(all, field) =~= if v.0 == field {
        texts_in(values, field).push(as_text(v.1))
    } else {
        texts_in(values, field)
    });
}

/// Tags behind other values show in the field of the tags, and in no other.
proof fn lemma_texts_in_tags(
    values: Seq<(nat, ValueModel)>,
    tags: Seq<Seq<char>>,
    tag_field: tantivy::schema::Field,
    field: nat,
)
    ensures
        texts_in(values + tags.map_values(|t: Seq<char>| text_value(tag_field, t)), field)
            == texts_in(values, field) + if field == crate::search::schema::field_place(tag_field) {
            tags.map_values(|t: Seq<char>| Some(t))
        } else {
            Seq::empty()
        },
    decreases tags.len(),
{
    let f = |t: Seq<char>| text_value(tag_field, t);
    let g = |t: Seq<char>| Some(t);
    if tags.len() == 0 {
        assert(values + tags.map_values(f) =~= values);
        assert(tags.map_values(g) =~= Seq::<Option<Seq<char>>>::empty());
    } else {
        let rest = tags.drop_last();
        lemma_texts_in_tags(values, rest, tag_field, field);
        let before = values + rest.map_values(f);
        assert(values + tags.map_values(f) =~= before.push(f(tags.last())));
        lemma_texts_in_push(before, f(tags.last()), field);
        assert(tags.map_values(g) =~= rest.map_values(g).push(Some(tags.last())));
    }
    assert(texts_in(values + tags.map_values(f), field) =~= texts_in(values, field) + if field
        == crate::search::schema::field_place(tag_field) {
        tags.map_values(g)
    } else {
        Seq::empty()
    });
}

/// Texts are all texts.
proof fn lemma_only_texts(texts: Seq<Seq<char>>)
    ensures
        only_texts(texts.map_values(|t: Seq<char>| Some(t))) == texts,
    decreases texts.len(),
{
    let all = texts.map_values(|t: Seq<char>| Some(t));
    if texts.len() > 0 {
        let rest = texts.drop_last();
        lemma_only_texts(rest);
        assert(all.drop_last() =~= rest.map_values(|t: Seq<char>| Some(t)));
        assert(only_texts(all) =~= rest.push(texts.last()));
        assert(rest.push(texts.last()) =~= texts);
    } else {
        assert(only_texts(all) =~= texts);
    }
}

/// What a document as it was built shows in each of its fields.
proof fn lemma_texts_of_fields(
    schema: tantivy::schema::Schema,
    fields: SchemaFields,
    d: IndexDocument,
)
    requires
        fields.are_of(schema),
    ensures
        ({
            let values = values_of(fields, d);
            let places = fields.places();
            &&& texts_in(values, places[1]) == seq![Some(d.file_path@)]
            &&& texts_in(values, places[2]) == seq![Some(d.file_name@)]
            &&& texts_in(values, places[3]) == seq![Some(d.body@)]
            &&& texts_in(values, places[4]) == seq![Some(d.file_type@)]
            &&& texts_in(values, places[5]) == seq![None::<Seq<char>>]
            &&& texts_in(values, places[6]) == seq![Some(d.content_hash@)]
            &&& texts_in(values, places[7]) == text::texts(d.tags@).map_values(
                |t: Seq<char>| Some(t),
            )
        }),
{
    crate::search::schema::fields_are_apart(schema, fields);
    let places = fields.places();
    let none = Seq::<(nat, ValueModel)>::empty();
    let tags = text::texts(d.tags@);
    let v1 = none.push(text_value(fields.doc_id, d.doc_id@));
    let v2 = v1.push(text_value(fields.file_path, d.file_path@));
    let v3 = v2.push(text_value(fields.file_name, d.file_name@));
    let v4 = v3.push(text_value(fields.body, d.body@));
    let v5 = v4.push(text_value(fields.file_type, d.file_type@));
    let number = (places[5], ValueModel::Number(d.modified_ts));
    let v6 = v5.push(number);
    let v7 = v6.push(text_value(fields.content_hash, d.content_hash@));
    assert(values_of(fields, d) =~= v7 + tags.map_values(|t: Seq<char>| text_value(fields.tags, t)));
    assert forall|k: int| 0 <= k < 8 implies texts_in(values_of(fields, d), #[trigger] places[k])
        == texts_in(v7, places[k]) + if k == 7 {
        tags.map_values(|t: Seq<char>| Some(t))
    } else {
        Seq::empty()
    } by {
        lemma_texts_in_tags(v7, tags, fields.tags, places[k]);
        assert(places[7] == crate::search::schema::field_place(fields.tags));
    }
    assert forall|k: int| 0 <= k < 8 implies texts_in(v7, #[trigger] places[k]) == if k == 1 {
        seq![Some(d.file_path@)]
    } else if k == 2 {
        seq![Some(d.file_name@)]
    } else if k == 3 {
        seq![Some(d.body@)]
    } else if k == 4 {
        seq![Some(d.file_type@)]
    } else if k == 6 {
        seq![Some(d.content_hash@)]
    } else if k == 0 {
        seq![Some(d.doc_id@)]
    } else if k == 5 {
        seq![None]
    } else {
        Seq::empty()
    } by {
        let f = places[k];
        reveal(Seq::filter);
        assert(texts_in(none, f) =~= Seq::<Option<Seq<char>>>::empty());
        lemma_texts_in_push(none, text_value(fields.doc_id, d.doc_id@), f);
        lemma_texts_in_push(v1, text_value(fields.file_path, d.file_path@), f);
        lemma_texts_in_push(v2, text_value(fields.file_name, d.file_name@), f);
        lemma_texts_in_push(v3, text_value(fields.body, d.body@), f);
        lemma_texts_in_push(v4, text_value(fields.file_type, d.file_type@), f);
        lemma_texts_in_push(v5, number, f);
        lemma_texts_in_push(v6, text_value(fields.content_hash, d.content_hash@), f);
        assert(places[0] == text_value(fields.doc_id, d.doc_id@).0);
        assert(places[1] == text_value(fields.file_path, d.file_path@).0);
        assert(places[2] == text_value(fields.file_name, d.file_name@).0);
        assert(places[3] == text_value(fields.body, d.body@).0);
        assert(places[4] == text_value(fields.file_type, d.file_type@).0);
        assert(places[6] == text_value(fields.content_hash, d.content_hash@).0);
    }
    assert(texts_in(v7, places[7]) + tags.map_values(|t: Seq<char>| Some(t)) =~= tags.map_values(
        |t: Seq<char>| Some(t),
    ));
    let no_more = Seq::<Option<Seq<char>>>::empty();
    assert(texts_in(v7, places[1]) + no_more =~= seq![Some(d.file_path@)]);
    assert(texts_in(v7, places[2]) + no_more =~= seq![Some(d.file_name@)]);
    assert(texts_in(v7, places[3]) + no_more =~= seq![Some(d.body@)]);
    assert(texts_in(v7, places[4]) + no_more =~= seq![Some(d.file_type@)]);
    assert(texts_in(v7, places[5]) + no_more =~= seq![None::<Seq<char>>]);
    assert(texts_in(v7, places[6]) + no_more =~= seq![Some(d.content_hash@)]);
}

/// What a document as it was built shows as its modification time.
proof fn lemma_number_of_field(
    schema: tantivy::schema::Schema,
    fields: SchemaFields,
    d: IndexDocument,
)
    requires
        fields.are_of(schema),
    ensures
        numbers_in(values_of(fields, d), fields.places()[5]) == seq![Some(d.modified_ts)],
{
    crate::search::schema::fields_are_apart(schema, fields);
    lemma_texts_of_fields(schema, fields, d);
    let values = values_of(fields, d);
    let places = fields.places();
    let p = |v: (nat, ValueModel)| v.0 == places[5];
    let kept = values.filter(p);
    assert(texts_in(values, places[5]).len() == kept.len());
    assert(kept.len() == 1);
    values.lemma_filter_pred(p, 0);
    assert(kept.contains(kept[0]));
    values.lemma_filter_contains_rev(p, kept[0]);
    let i = choose|i: int| 0 <= i < values.len() && values[i] == kept[0];
    if i >= 7 {
        assert(values[i].0 == places[7]);
    } else {
        assert(values[i].0 == places[i]);
    }
    assert(i == 5);
    assert(numbers_in(values, places[5]) =~= seq![Some(d.modified_ts)]);
}

/// What was indexed is what is shown: a result that is read from a document as it
/// was built has the name, the path, the type, the content hash and the tags that
/// went in, and the beginning of the text.
pub proof fn indexed_document_is_shown_as_it_was(
    schema: tantivy::schema::Schema,
    fields: SchemaFields,
    d: IndexDocument,
    document: tantivy::TantivyDocument,
    stored: StoredDocument,
    words: Seq<Seq<char>>,
    r: SearchResult,
)
    requires
        fields.are_of(schema),
        document_values(document) == values_of(fields, d),
        is_stored_as(document, fields, stored),
        is_result(stored, words, r),
    ensures
        r.file_name@ == d.file_name@,
        r.file_path@ == d.file_path@,
        r.file_type@ == d.file_type@,
        r.content_hash@ == d.content_hash@,
        text::texts(r.tags@) == text::texts(d.tags@),
        r.snippet@ == snippet_of(d.body@),
        r.match_count == 1,
{
    lemma_texts_of_fields(schema, fields, d);
    let places = fields.places();
    let tags = text::texts(d.tags@);
    lemma_only_texts(tags);
    assert(opt_texts(stored.file_name@) == texts_in(values_of(fields, d), places[2]));
    assert(opt_texts(stored.file_path@) == texts_in(values_of(fields, d), places[1]));
    assert(opt_texts(stored.file_type@) == texts_in(values_of(fields, d), places[4]));
    assert(opt_texts(stored.content_hash@) == texts_in(values_of(fields, d), places[6]));
    assert(opt_texts(stored.body@) == texts_in(values_of(fields, d), places[3]));
    assert(opt_texts(stored.tags@) == texts_in(values_of(fields, d), places[7]));
    assert(stored.body@.len() == opt_texts(stored.body@).len());
}

/// What was indexed is what is reconciled: a document that the store has lost is
/// written back with the content hash, the path, the type and the modification time
/// that went into the index.
pub proof fn indexed_document_is_reconciled_as_it_was(
    schema: tantivy::schema::Schema,
    fields: SchemaFields,
    d: IndexDocument,
    document: tantivy::TantivyDocument,
    file_size: i64,
    found: IndexedDocument,
    now: Seq<char>,
)
    requires
        fields.are_of(schema),
        document_values(document) == values_of(fields, d),
        is_indexed_document(document, fields, Some(file_size), found),
        d.file_path@.len() > 0,
    ensures
        crate::indexer::pipeline::backfill_row(found, now) == crate::tags::store::document_model(
            d.content_hash@,
            d.file_path@,
            d.file_type@,
            file_size,
            d.modified_ts,
            now,
        ),
{
    lemma_texts_of_fields(schema, fields, d);
    lemma_number_of_field(schema, fields, d);
    assert(fields.places()[5] == crate::search::schema::field_place(fields.modified_ts));
    assert(fields.places()[1] == crate::search::schema::field_place(fields.file_path));
    assert(fields.places()[4] == crate::search::schema::field_place(fields.file_type));
    assert(fields.places()[6] == crate::search::schema::field_place(fields.content_hash));
}

/// One thing that is asked of the index.
#[derive(Debug, Clone)]
pub enum IndexOp {
    /// Delete every document with this content hash.
    Delete(String),
    /// Add a document.
    Add(IndexDocument),
}

/// The documents of an index that held `docs`, once one thing was asked of it.
pub open spec fn after_op(docs: Seq<IndexDocument>, op: IndexOp) -> Seq<IndexDocument> {
    match op {
        IndexOp::Delete(hash) => docs.filter(|d: IndexDocument| d.content_hash@ != hash@),
        IndexOp::Add(d) => docs.push(d),
    }
}

/// The documents of an index, once several things were asked of it in order.
pub open spec fn after_ops(docs: Seq<IndexDocument>, ops: Seq<IndexOp>) -> Seq<IndexDocument>
    decreases ops.len(),
{
    if ops.len() == 0 {
        docs
    } else {
        after_op(after_ops(docs, ops.drop_last()), ops.last())
    }
}

/// What is asked of the index for a planned document: the document that the file
/// was before goes, every document with the same content goes, and the document
/// enters.
pub open spec fn are_index_ops(plan: PlannedDocument, ops: Seq<IndexOp>) -> bool {
    match plan.delete_hash {
        Some(stale) => {
            &&& ops.len() == 3
            &&& ops[0] matches IndexOp::Delete(h) && h@ == stale@
            &&& ops[1] matches IndexOp::Delete(h) && h@ == plan.document.content_hash@
            &&& ops[2] == IndexOp::Add(plan.document)
        },
        None => {
            &&& ops.len() == 2
            &&& ops[0] matches IndexOp::Delete(h) && h@ == plan.document.content_hash@
            &&& ops[1] == IndexOp::Add(plan.document)
        },
    }
}

/// What is asked of the index for a planned document.
pub fn index_ops(plan: PlannedDocument) -> (r: Vec<IndexOp>)
    ensures
        are_index_ops(plan, r@),
{
    let mut ops: Vec<IndexOp> = Vec::new();
    if let Some(stale) = plan.delete_hash {
        ops.push(IndexOp::Delete(stale));
    }
    ops.push(IndexOp::Delete(text::copy_str(plan.document.content_hash.as_str())));
    ops.push(IndexOp::Add(plan.document));
    ops
}

/// What a deletion leaves.
proof fn lemma_deleted(docs: Seq<IndexDocument>, op: IndexOp)
    requires
        op is Delete,
    ensures
        forall|i: int|
            0 <= i < after_op(docs, op).len() ==> docs.contains(#[trigger] after_op(docs, op)[i])
                && after_op(docs, op)[i].content_hash@ != op->Delete_0@,
{
    let p = |x: IndexDocument| x.content_hash@ != op->Delete_0@;
    let kept = docs.filter(p);
    assert forall|i: int| 0 <= i < kept.len() implies docs.contains(#[trigger] kept[i])
        && kept[i].content_hash@ != op->Delete_0@ by {
        docs.lemma_filter_pred(p, i);
        assert(kept.contains(kept[i]));
        docs.lemma_filter_contains_rev(p, kept[i]);
    }
}

/// Indexing a file leaves one document with its content, the one that was added
/// last, and none with the content that the file had before.
pub proof fn indexing_leaves_one_document(
    docs: Seq<IndexDocument>,
    plan: PlannedDocument,
    ops: Seq<IndexOp>,
)
    requires
        are_index_ops(plan, ops),
        plan.delete_hash matches Some(stale) ==> stale@ != plan.document.content_hash@,
    ensures
        ({
            let after = after_ops(docs, ops);
            &&& after.len() > 0
            &&& after.last() == plan.document
            &&& forall|i: int|
                0 <= i < after.len() - 1 ==> (#[trigger] after[i]).content_hash@
                    != plan.document.content_hash@
            &&& plan.delete_hash matches Some(stale) ==> forall|i: int|
                0 <= i < after.len() ==> (#[trigger] after[i]).content_hash@ != stale@
        }),
{
    reveal_with_fuel(after_ops, 4);
    let n = ops.len();
    let rest = ops.drop_last();
    let before = after_ops(docs, rest.drop_last());
    let cleared = after_op(before, ops[n - 2]);
    lemma_deleted(before, ops[n - 2]);
    if plan.delete_hash is Some {
        lemma_deleted(docs, ops[0]);
        assert(rest.drop_last() =~= seq![ops[0]]);
        assert(rest.drop_last().drop_last() =~= Seq::<IndexOp>::empty());
        assert(before == after_op(docs, ops[0]));
    } else {
        assert(rest.drop_last() =~= Seq::<IndexOp>::empty());
    }
    let after = after_ops(docs, ops);
    assert(after == cleared.push(plan.document));
    if let Some(stale) = plan.delete_hash {
        assert forall|i: int| 0 <= i < after.len() implies (#[trigger] after[i]).content_hash@
            != stale@ by {
            if i < cleared.len() {
                assert(before.contains(cleared[i]));
                let k = choose|k: int| 0 <= k < before.len() && before[k] == cleared[i];
                assert(before[k].content_hash@ != stale@);
            }
        }
    }
}

// ── What is found ──

/// The words that are looked for are those of the query, each of them, in order and in
/// lower case.
pub proof fn every_word_of_a_query_is_looked_for(query: Seq<char>)
    ensures
        search_words(query).len() == text::words(query).len(),
        forall|i: int|
            0 <= i < text::words(query).len() ==> #[trigger] search_words(query)[i]
                == text::lowercase(text::words(query)[i]),
{
}

/// What a request asks of the index: each word of its query in the text of a document,
/// each of its tags among the tags, and nothing else.
pub proof fn every_word_and_tag_is_asked_for(request: SearchRequest, fields: SchemaFields)
    ensures
        ({
            let clauses = request_clauses(request, fields);
            let n = text::words(request.query@).len();
            &&& clauses.len() == n + request.tag_filters@.len()
            &&& forall|i: int|
                0 <= i < n ==> #[trigger] clauses[i] == (
                    Presence::Must,
                    crate::search::schema::field_place(fields.body),
                    text::lowercase(text::words(request.query@)[i]),
                )
            &&& forall|i: int|
                0 <= i < request.tag_filters@.len() ==> #[trigger] clauses[n + i] == (
                    Presence::Must,
                    crate::search::schema::field_place(fields.tags),
                    request.tag_filters@[i]@,
                )
        }),
{
}

/// A document at an address holds every word of a text, lower-cased, and every one of
/// some tags.
pub open spec fn holds_each_word_and_tag(
    searcher: tantivy::Searcher,
    address: tantivy::DocAddress,
    fields: SchemaFields,
    words: Seq<Seq<char>>,
    tags: Seq<String>,
) -> bool {
    &&& stands_at(searcher, address)
    &&& forall|i: int|
        0 <= i < words.len() ==> has_term(
            searcher,
            address,
            crate::search::schema::field_place(fields.body),
            text::lowercase(#[trigger] words[i]),
        )
    &&& forall|i: int|
        0 <= i < tags.len() ==> has_term(
            searcher,
            address,
            crate::search::schema::field_place(fields.tags),
            (#[trigger] tags[i])@,
        )
}

/// A document is among those that match where it holds every word and tag.
proof fn lemma_matches(
    searcher: tantivy::Searcher,
    address: tantivy::DocAddress,
    request: SearchRequest,
    fields: SchemaFields,
)
    ensures
        holds_all(searcher, request_clauses(request, fields), address) <==> holds_each_word_and_tag(
            searcher,
            address,
            fields,
            text::words(request.query@),
            request.tag_filters@,
        ),
{
    let clauses = request_clauses(request, fields);
    let words = text::words(request.query@);
    let tags = request.tag_filters@;
    every_word_and_tag_is_asked_for(request, fields);
    if holds_all(searcher, clauses, address) {
        assert forall|i: int| 0 <= i < words.len() implies has_term(
            searcher,
            address,
            crate::search::schema::field_place(fields.body),
            text::lowercase(#[trigger] words[i]),
        ) by {
            assert(has_term(searcher, address, clauses[i].1, clauses[i].2));
        }
        assert forall|i: int| 0 <= i < tags.len() implies has_term(
            searcher,
            address,
            crate::search::schema::field_place(fields.tags),
            (#[trigger] tags[i])@,
        ) by {
            let k = words.len() + i;
            assert(has_term(searcher, address, clauses[k].1, clauses[k].2));
        }
    }
    if holds_each_word_and_tag(searcher, address, fields, words, tags) {
        assert forall|i: int| 0 <= i < clauses.len() implies has_term(
            searcher,
            address,
            (#[trigger] clauses[i]).1,
            clauses[i].2,
        ) by {
            if i < words.len() {
                assert(has_term(
                    searcher,
                    address,
                    crate::search::schema::field_place(fields.body),
                    text::lowercase(words[i]),
                ));
            } else {
                let k = i - words.len();
                assert(has_term(
                    searcher,
                    address,
                    crate::search::schema::field_place(fields.tags),
                    tags[k]@,
                ));
                assert(clauses[words.len() + k] == clauses[i]);
            }
        }
    }
}

/// What a search finds: the results stand in the order in which the index lists their
/// documents; each is made of another document that holds, in lower case, every word of
/// the query in its text, and every tag of the request among its tags; the number of hits
/// is that of all such documents, and there are as many results as hits, up to the limit.
pub proof fn found_documents_hold_the_whole_query(
    request: SearchRequest,
    fields: SchemaFields,
    searcher: tantivy::Searcher,
    found: SearchResults,
) -> (r: (Seq<tantivy::DocAddress>, Seq<Seq<char>>))
    requires
        is_answer(request, fields, searcher, Ok(found)),
    ensures
        r.0.no_duplicates(),
        r.0.len() == found.items@.len(),
        may_list(
            searcher,
            request_clauses(request, fields),
            if document_count(searcher) == 0 {
                1
            } else if request.limit < document_count(searcher) {
                request.limit as nat
            } else {
                document_count(searcher)
            },
            r.0,
            found.total_hits as nat,
        ),
        r.1.len() == text::words(request.query@).len(),
        forall|k: int|
            0 <= k < r.1.len() ==> #[trigger] r.1[k] == text::lowercase(
                text::words(request.query@)[k],
            ),
        forall|i: int|
            0 <= i < r.0.len() ==> shows(searcher, #[trigger] r.0[i], fields, r.1, found.items@[i])
                && holds_each_word_and_tag(
                searcher,
                r.0[i],
                fields,
                text::words(request.query@),
                request.tag_filters@,
            ),
        Set::new(
            |a: tantivy::DocAddress|
                holds_each_word_and_tag(
                    searcher,
                    a,
                    fields,
                    text::words(request.query@),
                    request.tag_filters@,
                ),
        ).finite(),
        found.total_hits == Set::new(
            |a: tantivy::DocAddress|
                holds_each_word_and_tag(
                    searcher,
                    a,
                    fields,
                    text::words(request.query@),
                    request.tag_filters@,
                ),
        ).len(),
        found.total_hits <= request.limit ==> found.items@.len() == found.total_hits,
        found.total_hits > request.limit ==> found.items@.len() == request.limit,
{
    let clauses = request_clauses(request, fields);
    assert(may_find(request, fields, searcher, found));
    let listed = choose|listed: Seq<tantivy::DocAddress>| #[trigger]
        is_made_of_listed(request, fields, searcher, found, listed);
    let all = Set::new(
        |a: tantivy::DocAddress|
            holds_each_word_and_tag(
                searcher,
                a,
                fields,
                text::words(request.query@),
                request.tag_filters@,
            ),
    );
    assert forall|a: tantivy::DocAddress| #[trigger]
        all.contains(a) == holding_all(searcher, clauses).contains(a) by {
        lemma_matches(searcher, a, request, fields);
    }
    assert(all =~= holding_all(searcher, clauses));
    assert forall|i: int| 0 <= i < listed.len() implies holds_each_word_and_tag(
        searcher,
        #[trigger] listed[i],
        fields,
        text::words(request.query@),
        request.tag_filters@,
    ) by {
        lemma_matches(searcher, listed[i], request, fields);
    }
    (listed, search_words(request.query@))
}

/// A search is refused where the index has no field for the text or for the tags, or
/// where its results could not be set aside, and nowhere else; it asks for no more results
/// than the request, and for no more than there are documents.
pub proof fn searches_are_refused_only_without_fields_or_room(
    body: nat,
    tags: nat,
    field_total: nat,
    limit: nat,
    documents: nat,
)
    requires
        limit >= 1,
    ensures
        body >= field_total || tags >= field_total ==> refusal(
            body,
            tags,
            field_total,
            asked_limit(limit, documents),
        ) == Some("the index lacks a field"@),
        body < field_total && tags < field_total && asked_limit(limit, documents) * 24 <= isize::MAX
            ==> refusal(body, tags, field_total, asked_limit(limit, documents)) is None,
        body < field_total && tags < field_total && asked_limit(limit, documents) * 24 > isize::MAX
            ==> refusal(body, tags, field_total, asked_limit(limit, documents)) == Some(
            "the index is too large"@,
        ),
        1 <= asked_limit(limit, documents) <= limit,
        documents >= 1 ==> asked_limit(limit, documents) <= documents && (asked_limit(
            limit,
            documents,
        ) == limit || asked_limit(limit, documents) == documents),
{
}

/// The texts among some values are all of them, where each is a text.
proof fn lemma_texts_are_kept(values: Seq<Option<Seq<char>>>)
    requires
        forall|i: int| 0 <= i < values.len() ==> (#[trigger] values[i]) is Some,
    ensures
        only_texts(values).len() == values.len(),
        forall|i: int| 0 <= i < values.len() ==> #[trigger] only_texts(values)[i] == values[i]->0,
    decreases values.len(),
{
    if values.len() > 0 {
        let rest = values.drop_last();
        assert forall|i: int| 0 <= i < rest.len() implies (#[trigger] rest[i]) is Some by {
            assert(rest[i] == values[i]);
        }
        assert(values[values.len() - 1] is Some);
        lemma_texts_are_kept(rest);
        assert forall|i: int| 0 <= i < values.len() implies #[trigger] only_texts(values)[i]
            == values[i]->0 by {
            if i < values.len() - 1 {
                assert(rest[i] == values[i]);
                assert(only_texts(rest)[i] == values[i]->0);
            }
        }
    }
}

/// A result shows what is stored of its document: the first name, path, type and hash,
/// every tag in order, and of the text all of it where it takes up to 200 bytes, and else
/// its first 200 characters and three dots. It carries the words that were looked for.
pub proof fn results_show_what_is_stored(d: StoredDocument, words: Seq<Seq<char>>, r: SearchResult)
    requires
        is_result(d, words, r),
    ensures
        d.file_name@.len() > 0 && d.file_name@[0] is Some ==> r.file_name@ == d.file_name@[0]->0@,
        d.file_path@.len() > 0 && d.file_path@[0] is Some ==> r.file_path@ == d.file_path@[0]->0@,
        d.file_type@.len() > 0 && d.file_type@[0] is Some ==> r.file_type@ == d.file_type@[0]->0@,
        d.content_hash@.len() > 0 && d.content_hash@[0] is Some ==> r.content_hash@
            == d.content_hash@[0]->0@,
        d.file_name@.len() == 0 ==> r.file_name@ == "unknown"@,
        d.file_path@.len() == 0 ==> r.file_path@ == ""@,
        (forall|i: int| 0 <= i < d.tags@.len() ==> (#[trigger] d.tags@[i]) is Some) ==> r.tags@.len()
            == d.tags@.len() && forall|i: int|
            0 <= i < d.tags@.len() ==> (#[trigger] r.tags@[i])@ == d.tags@[i]->0@,
        d.body@.len() > 0 && d.body@[0] is Some ==> {
            let body = d.body@[0]->0@;
            let bytes = vstd::utf8::encode_utf8(body);
            &&& bytes.len() <= 200 ==> r.snippet@ == body
            &&& bytes.len() > 200 && body.len() >= 200 ==> r.snippet@ == body.take(200) + "..."@
            &&& bytes.len() > 200 && body.len() < 200 ==> r.snippet@ == body + "..."@
        },
        r.lower_snippet@ == text::lowercase(r.snippet@),
        r.match_terms@.len() == words.len(),
        forall|i: int| 0 <= i < words.len() ==> (#[trigger] r.match_terms@[i])@ == words[i],
        r.match_count == d.body@.len(),
{
    let names = opt_texts(d.file_name@);
    let paths = opt_texts(d.file_path@);
    let types = opt_texts(d.file_type@);
    let hashes = opt_texts(d.content_hash@);
    let bodies = opt_texts(d.body@);
    let tags = opt_texts(d.tags@);
    assert(names.len() > 0 ==> names[0] == model::opt_text(d.file_name@[0]));
    assert(paths.len() > 0 ==> paths[0] == model::opt_text(d.file_path@[0]));
    assert(types.len() > 0 ==> types[0] == model::opt_text(d.file_type@[0]));
    assert(hashes.len() > 0 ==> hashes[0] == model::opt_text(d.content_hash@[0]));
    assert(bodies.len() > 0 ==> bodies[0] == model::opt_text(d.body@[0]));
    if forall|i: int| 0 <= i < d.tags@.len() ==> (#[trigger] d.tags@[i]) is Some {
        assert forall|i: int| 0 <= i < tags.len() implies (#[trigger] tags[i]) is Some by {
            assert(d.tags@[i] is Some);
        }
        lemma_texts_are_kept(tags);
        assert(text::texts(r.tags@).len() == r.tags@.len());
        assert forall|i: int| 0 <= i < d.tags@.len() implies (#[trigger] r.tags@[i])@
            == d.tags@[i]->0@ by {
            assert(text::texts(r.tags@)[i] == r.tags@[i]@);
            assert(only_texts(tags)[i] == tags[i]->0);
            assert(d.tags@[i] is Some);
        }
    }
    assert(text::texts(r.match_terms@).len() == r.match_terms@.len());
    assert forall|i: int| 0 <= i < words.len() implies (#[trigger] r.match_terms@[i])@ == words[i] by {
        assert(text::texts(r.match_terms@)[i] == r.match_terms@[i]@);
    }
}

/// What a result highlights, as bytes.
proof fn lemma_terms(d: StoredDocument, words: Seq<Seq<char>>, r: SearchResult)
    requires
        is_result(d, words, r),
    ensures
        r.match_terms@.len() == words.len(),
        crate::search::query::term_bytes(r.match_terms@).len() == words.len(),
        forall|t: int|
            0 <= t < words.len() ==> #[trigger] crate::search::query::term_bytes(r.match_terms@)[t]
                == vstd::utf8::encode_utf8(words[t]),
{
    assert(text::texts(r.match_terms@).len() == r.match_terms@.len());
    assert forall|t: int| 0 <= t < words.len() implies #[trigger] crate::search::query::term_bytes(
        r.match_terms@,
    )[t] == vstd::utf8::encode_utf8(words[t]) by {
        assert(text::texts(r.match_terms@)[t] == r.match_terms@[t]@);
    }
}

/// A byte of what is shown that is highlighted lies in a word of the query that stands
/// there, whatever the case of its letters.
pub proof fn only_words_of_the_query_are_highlighted(
    d: StoredDocument,
    words: Seq<Seq<char>>,
    r: SearchResult,
    k: int,
    p: int,
) -> (found: (int, int))
    requires
        is_result(d, words, r),
        0 <= k < r.highlight_spans@.len(),
        r.highlight_spans@[k].0 <= p < r.highlight_spans@[k].1,
    ensures
        0 <= found.0 < words.len(),
        found.1 <= p < found.1 + vstd::utf8::encode_utf8(words[found.0]).len(),
        crate::search::query::occurs_at(
            vstd::utf8::encode_utf8(text::lowercase(r.snippet@)),
            vstd::utf8::encode_utf8(words[found.0]),
            found.1,
        ),
{
    let shown = vstd::utf8::encode_utf8(r.snippet@);
    let lower = vstd::utf8::encode_utf8(text::lowercase(r.snippet@));
    let terms = crate::search::query::term_bytes(r.match_terms@);
    let n = r.match_terms@.len() as int;
    lemma_terms(d, words, r);
    assert(crate::search::query::span_covers(r.highlight_spans@, p));
    assert(crate::search::query::term_covers(shown, lower, terms, n, p));
    let (t, at) = choose|t: int, start: int|
        0 <= t < n && #[trigger] crate::search::query::is_term_span(
            shown,
            lower,
            terms[t],
            (start, start + terms[t].len()),
        ) && start <= p < start + terms[t].len();
    crate::search::query::scans_find_what_stands(lower, terms[t], 0, at);
    (t, at)
}

/// Where every byte of what is shown begins a character, a word of the query is
/// highlighted wherever it stands there, whatever the case of its letters: each place
/// lies in one that is highlighted whole.
pub proof fn every_word_of_the_query_is_highlighted(
    d: StoredDocument,
    words: Seq<Seq<char>>,
    r: SearchResult,
    t: int,
    at: int,
) -> (found: (int, int))
    requires
        is_result(d, words, r),
        0 <= t < words.len(),
        vstd::utf8::encode_utf8(words[t]).len() > 0,
        crate::search::query::occurs_at(
            vstd::utf8::encode_utf8(text::lowercase(r.snippet@)),
            vstd::utf8::encode_utf8(words[t]),
            at,
        ),
        forall|b: int|
            0 <= b <= vstd::utf8::encode_utf8(text::lowercase(r.snippet@)).len()
                ==> #[trigger] vstd::utf8::is_char_boundary(
                vstd::utf8::encode_utf8(r.snippet@),
                b,
            ),
    ensures
        0 <= found.0 < r.highlight_spans@.len(),
        found.1 <= at < found.1 + vstd::utf8::encode_utf8(words[t]).len(),
        crate::search::query::occurs_at(
            vstd::utf8::encode_utf8(text::lowercase(r.snippet@)),
            vstd::utf8::encode_utf8(words[t]),
            found.1,
        ),
        r.highlight_spans@[found.0].0 <= found.1,
        found.1 + vstd::utf8::encode_utf8(words[t]).len() <= r.highlight_spans@[found.0].1,
{
    lemma_terms(d, words, r);
    assert(text::texts(r.match_terms@)[t] == r.match_terms@[t]@);
    assert forall|p: int|
        #[trigger] crate::search::query::span_covers(r.highlight_spans@, p)
            <==> crate::search::query::term_covers(
            crate::search::query::utf8_bytes(r.snippet@),
            crate::search::query::utf8_bytes(r.lower_snippet@),
            crate::search::query::term_bytes(r.match_terms@),
            r.match_terms@.len() as int,
            p,
        ) by {}
    crate::search::query::terms_are_highlighted_whole(
        r.snippet@,
        r.lower_snippet@,
        r.match_terms@,
        r.highlight_spans@,
        t,
        at,
    )
}

/// The index gets the whole of a document: its text, its name, its path, its type, its
/// hash, its time and each of its tags, each in its own field.
pub proof fn documents_are_indexed_whole(
    schema: tantivy::schema::Schema,
    fields: SchemaFields,
    d: IndexDocument,
)
    requires
        fields.are_of(schema),
    ensures
        ({
            let values = values_of(fields, d);
            &&& texts_in(values, crate::search::schema::field_place(fields.body)) == seq![
                Some(d.body@),
            ]
            &&& texts_in(values, crate::search::schema::field_place(fields.file_name)) == seq![
                Some(d.file_name@),
            ]
            &&& texts_in(values, crate::search::schema::field_place(fields.file_path)) == seq![
                Some(d.file_path@),
            ]
            &&& texts_in(values, crate::search::schema::field_place(fields.file_type)) == seq![
                Some(d.file_type@),
            ]
            &&& texts_in(values, crate::search::schema::field_place(fields.content_hash)) == seq![
                Some(d.content_hash@),
            ]
            &&& numbers_in(values, crate::search::schema::field_place(fields.modified_ts)) == seq![
                Some(d.modified_ts),
            ]
            &&& texts_in(values, crate::search::schema::field_place(fields.tags)).len()
                == d.tags@.len()
            &&& forall|i: int|
                0 <= i < d.tags@.len() ==> #[trigger] texts_in(
                    values,
                    crate::search::schema::field_place(fields.tags),
                )[i] == Some(d.tags@[i]@)
            &&& values.len() == 7 + d.tags@.len()
            &&& values[0] == (
                crate::search::schema::field_place(fields.doc_id),
                ValueModel::Text(d.doc_id@),
            )
        }),
{
    lemma_texts_of_fields(schema, fields, d);
    lemma_number_of_field(schema, fields, d);
    let places = fields.places();
    assert(places[1] == crate::search::schema::field_place(fields.file_path));
    assert(places[7] == crate::search::schema::field_place(fields.tags));
}

/// Indexing a file leaves every other document as it was.
pub proof fn indexing_leaves_the_other_documents(
    docs: Seq<IndexDocument>,
    plan: PlannedDocument,
    ops: Seq<IndexOp>,
    i: int,
)
    requires
        are_index_ops(plan, ops),
        0 <= i < docs.len(),
        docs[i].content_hash@ != plan.document.content_hash@,
        plan.delete_hash matches Some(stale) ==> docs[i].content_hash@ != stale@,
    ensures
        after_ops(docs, ops).contains(docs[i]),
{
    broadcast use vstd::seq_lib::group_seq_properties;

    reveal_with_fuel(after_ops, 4);
    let d = docs[i];
    assert(docs.contains(d));
    lemma_kept_by(docs, ops[0], d);
    let first = after_op(docs, ops[0]);
    assert(ops.take(1).drop_last() =~= Seq::<IndexOp>::empty());
    if plan.delete_hash is Some {
        lemma_kept_by(first, ops[1], d);
        lemma_kept_by(after_op(first, ops[1]), ops[2], d);
        assert(ops.drop_last().drop_last().drop_last() =~= Seq::<IndexOp>::empty());
        assert(ops.drop_last().drop_last().last() == ops[0]);
        assert(ops.drop_last().last() == ops[1]);
    } else {
        lemma_kept_by(first, ops[1], d);
        assert(ops.drop_last().drop_last() =~= Seq::<IndexOp>::empty());
        assert(ops.drop_last().last() == ops[0]);
    }
}

/// What does not go stays.
proof fn lemma_kept_by(docs: Seq<IndexDocument>, op: IndexOp, d: IndexDocument)
    requires
        docs.contains(d),
        op matches IndexOp::Delete(hash) ==> d.content_hash@ != hash@,
    ensures
        after_op(docs, op).contains(d),
{
    match op {
        IndexOp::Delete(hash) => {
            let p = |x: IndexDocument| x.content_hash@ != hash@;
            let k = choose|k: int| 0 <= k < docs.len() && docs[k] == d;
            assert(p(docs[k]));
            docs.lemma_filter_contains(p, k);
        },
        IndexOp::Add(added) => {
            let k = choose|k: int| 0 <= k < docs.len() && docs[k] == d;
            assert(docs.push(added)[k] == d);
        },
    }
}

/// What is made of what the index gave: where every document was read, a result for each,
/// in order, and the number of hits as it was told; else the first failure.
pub proof fn answers_are_made_of_each_document(
    total: Result<usize, String>,
    documents: Seq<Result<StoredDocument, String>>,
    words: Seq<Seq<char>>,
    r: Result<SearchResults, PapervaultError>,
    k: int,
)
    requires
        is_made_of_found(total, documents, words, r),
    ensures
        total matches Err(detail) ==> (r matches Err(PapervaultError::Tantivy(d)) && d@ == detail@),
        total is Ok && (forall|i: int| 0 <= i < documents.len() ==> (#[trigger] documents[i]) is Ok)
            ==> r is Ok && r->Ok_0.total_hits == total->Ok_0 && r->Ok_0.items@.len()
            == documents.len() && forall|i: int|
            0 <= i < documents.len() ==> is_result(
                (#[trigger] documents[i])->Ok_0,
                words,
                r->Ok_0.items@[i],
            ),
        total is Ok && 0 <= k < documents.len() && documents[k] is Err && (forall|i: int|
            0 <= i < k ==> (#[trigger] documents[i]) is Ok) ==> (r matches Err(
            PapervaultError::Tantivy(d),
        ) && d@ == documents[k]->Err_0@),
{
    if total is Ok {
        if let Err(PapervaultError::Tantivy(d)) = r {
            let j = choose|j: int| #[trigger]
                is_first_failed(documents, j) && d@ == documents[j]->Err_0@;
            assert(documents[j] is Err);
            if 0 <= k < documents.len() && documents[k] is Err && (forall|i: int|
                0 <= i < k ==> (#[trigger] documents[i]) is Ok) {
                assert(j == k) by {
                    if j < k {
                        assert(documents[j] is Ok);
                    } else if k < j {
                        assert(documents[k] is Ok);
                    }
                }
            }
        }
        if let Ok(found) = r {
            if 0 <= k < documents.len() {
                assert(documents[k] is Ok);
            }
        }
    }
}

/// The parts that are highlighted are not empty, stand in order and apart from each other,
/// and begin and end where characters do.
pub proof fn highlights_stand_apart(d: StoredDocument, words: Seq<Seq<char>>, r: SearchResult, i: int)
    requires
        is_result(d, words, r),
        0 <= i < r.highlight_spans@.len(),
    ensures
        r.highlight_spans@[i].0 < r.highlight_spans@[i].1,
        i + 1 < r.highlight_spans@.len() ==> r.highlight_spans@[i].1 < r.highlight_spans@[i + 1].0,
        vstd::utf8::is_char_boundary(
            vstd::utf8::encode_utf8(r.snippet@),
            r.highlight_spans@[i].0 as int,
        ),
        vstd::utf8::is_char_boundary(
            vstd::utf8::encode_utf8(r.snippet@),
            r.highlight_spans@[i].1 as int,
        ),
{
    if i + 1 < r.highlight_spans@.len() {
        assert(r.highlight_spans@[i].1 < r.highlight_spans@[i + 1].0);
    }
}

/// A field that holds no text shows its default, or nothing.
pub proof fn missing_values_have_defaults(
    values: Seq<Option<Seq<char>>>,
    default: Seq<char>,
    t: Seq<char>,
    numbers: Seq<Option<i64>>,
    v: (nat, ValueModel),
    all: Seq<(nat, ValueModel)>,
    field: nat,
)
    ensures
        values.len() == 0 ==> first_or(values, default) == default,
        values.len() > 0 && values[0] is None ==> first_or(values, default) == default,
        values.len() > 0 && values[0] is Some ==> first_or(values, default) == values[0]->0,
        only_texts(values.push(Some(t))) == only_texts(values).push(t),
        only_texts(values.push(None)) == only_texts(values),
        numbers.len() == 0 ==> number_or_zero(numbers) == 0,
        numbers.len() > 0 && numbers[0] is Some ==> number_or_zero(numbers) == numbers[0]->0,
        v.0 == field && (v.1 matches ValueModel::Text(x) && x == t) ==> texts_in(
            all.push(v),
            field,
        ) == texts_in(all, field).push(Some(t)),
        v.0 != field ==> texts_in(all.push(v), field) == texts_in(all, field),
{
    assert(values.push(Some(t)).drop_last() =~= values);
    assert(values.push(None).drop_last() =~= values);
    lemma_texts_in_push(all, v, field);
}

/// What the index knows of a document is what stands in its fields, and what is on disk at
/// its path.
pub proof fn indexed_documents_are_read_from_their_fields(
    document: tantivy::TantivyDocument,
    fields: SchemaFields,
    size: Option<i64>,
    d: IndexedDocument,
    hash: Seq<char>,
    path: Seq<char>,
    kind: Seq<char>,
)
    requires
        is_indexed_document(document, fields, size, d),
    ensures
        ({
            let values = document_values(document);
            &&& texts_in(values, crate::search::schema::field_place(fields.content_hash)) == seq![
                Some(hash),
            ] ==> d.content_hash@ == hash
            &&& texts_in(values, crate::search::schema::field_place(fields.file_path)) == seq![
                Some(path),
            ] ==> d.file_path@ == path
            &&& texts_in(values, crate::search::schema::field_place(fields.file_type)) == seq![
                Some(kind),
            ] ==> d.file_type@ == kind
            &&& size is None ==> !d.file_exists && d.file_size == 0
            &&& size is Some ==> d.file_exists && d.file_size == size->0
        }),
{
}

/// What is looked for has a word for each of the query, in lower case and in order.
pub proof fn words_to_find_are_those_of_the_query(query: &str, r: Vec<String>, i: int)
    requires
        call_ensures(words_to_find, (query,), r),
    ensures
        r@.len() == text::words(query@).len(),
        0 <= i < r@.len() ==> r@[i]@ == text::lowercase(text::words(query@)[i]),
{
    assert(text::texts(r@).len() == r@.len());
    if 0 <= i < r@.len() {
        assert(text::texts(r@)[i] == r@[i]@);
    }
}

} // verus!
