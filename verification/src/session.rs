//! What the window keeps of the search, and how it changes.

use vstd::prelude::*;

use crate::indexer::pipeline;
use crate::search::query::{ResultModel, SearchRequest, SearchResult, SearchResults};
use crate::tags::model;
use crate::tags::model::Tag;
use crate::tags::store;
use crate::tags::store::TagStore;
use crate::text;

verus! {

// ── Sets of texts ──

/// Whether a text is another one.
pub open spec fn other_than(name: Seq<char>) -> spec_fn(Seq<char>) -> bool {
    |t: Seq<char>| t != name
}

/// The texts with one of them put in, where it was not there, or taken out.
pub open spec fn toggled(texts: Seq<Seq<char>>, name: Seq<char>) -> Seq<Seq<char>> {
    if texts.contains(name) {
        texts.filter(other_than(name))
    } else {
        texts.push(name)
    }
}

/// Put a text in, where it was not there, or take it out.
pub fn toggle(texts: &mut Vec<String>, name: &str)
    ensures
        text::texts(final(texts)@) == toggled(text::texts(old(texts)@), name@),
{
    let ghost before = text::texts(texts@);
    if !text::contains_text(texts.as_slice(), name) {
        texts.push(text::copy_str(name));
        assert(text::texts(texts@) =~= before.push(name@));
        return;
    }
    let ghost p = other_than(name@);
    let mut kept: Vec<String> = Vec::new();
    let mut i: usize = 0;
    proof {
        reveal(Seq::filter);
        assert(before.take(0) =~= Seq::<Seq<char>>::empty());
        assert(text::texts(kept@) =~= before.take(0).filter(p));
    }
    while i < texts.len()
        invariant
            i <= texts@.len(),
            before == text::texts(texts@),
            p == other_than(name@),
            text::texts(kept@) == before.take(i as int).filter(p),
        decreases texts@.len() - i,
    {
        let ghost kept0 = kept@;
        proof {
            reveal(Seq::filter);
            assert(before.take(i + 1).drop_last() =~= before.take(i as int));
            assert(before.take(i + 1).last() == texts@[i as int]@);
        }
        if !text::same_text(texts[i].as_str(), name) {
            kept.push(text::copy_str(texts[i].as_str()));
            assert(text::texts(kept@) =~= text::texts(kept0).push(texts@[i as int]@));
        }
        i = i + 1;
    }
    assert(before.take(before.len() as int) =~= before);
    *texts = kept;
}

/// Toggling twice leaves the same texts.
pub proof fn toggling_twice_changes_nothing(texts: Seq<Seq<char>>, name: Seq<char>)
    ensures
        toggled(texts, name).contains(name) == !texts.contains(name),
        forall|t: Seq<char>| t != name ==> #[trigger] toggled(texts, name).contains(t)
            == texts.contains(t),
        forall|t: Seq<char>| #[trigger]
            toggled(toggled(texts, name), name).contains(t) == texts.contains(t),
{
    lemma_toggled(texts, name);
    lemma_toggled(toggled(texts, name), name);
}

/// What toggling does to the texts.
proof fn lemma_toggled(texts: Seq<Seq<char>>, name: Seq<char>)
    ensures
        toggled(texts, name).contains(name) == !texts.contains(name),
        forall|t: Seq<char>| t != name ==> #[trigger] toggled(texts, name).contains(t)
            == texts.contains(t),
{
    let p = other_than(name);
    let after = toggled(texts, name);
    if texts.contains(name) {
        if after.contains(name) {
            let i = choose|i: int| 0 <= i < after.len() && after[i] == name;
            texts.lemma_filter_pred(p, i);
        }
        assert forall|t: Seq<char>| t != name implies #[trigger] after.contains(t) == texts.contains(
            t,
        ) by {
            if texts.contains(t) {
                let i = choose|i: int| 0 <= i < texts.len() && texts[i] == t;
                texts.lemma_filter_contains(p, i);
            }
            if after.contains(t) {
                texts.lemma_filter_contains_rev(p, t);
            }
        }
    } else {
        assert(after[texts.len() as int] == name);
        assert forall|t: Seq<char>| t != name implies #[trigger] after.contains(t) == texts.contains(
            t,
        ) by {
            if texts.contains(t) {
                let i = choose|i: int| 0 <= i < texts.len() && texts[i] == t;
                assert(after[i] == t);
            }
            if after.contains(t) {
                let i = choose|i: int| 0 <= i < after.len() && after[i] == t;
                assert(texts[i] == t);
            }
        }
    }
}

// ── The search ──

/// How many results are shown.
pub const SHOWN_RESULTS: usize = 50;

/// How many results are asked for where tags filter them: the filter must have
/// enough to choose from.
pub const FILTERED_RESULTS: usize = 200;

/// What the window keeps of the search.
#[derive(Debug, Clone)]
pub struct SearchState {
    pub query: String,
    pub results: Vec<SearchResult>,
    pub total_hits: usize,
    pub selected_result: Option<usize>,
    /// Stable document identity — survives search query changes.
    pub selected_hash: Option<String>,
    pub active_tag_filters: Vec<String>,
}

/// What the window keeps of the search.
#[verifier::ext_equal]
pub struct SearchModel {
    pub query: Seq<char>,
    pub results: Seq<ResultModel>,
    pub total_hits: usize,
    pub selected_result: Option<usize>,
    pub selected_hash: Option<Seq<char>>,
    pub filters: Seq<Seq<char>>,
}

impl View for SearchState {
    type V = SearchModel;

    open spec fn view(&self) -> SearchModel {
        SearchModel {
            query: self.query@,
            results: model::views(self.results@),
            total_hits: self.total_hits,
            selected_result: self.selected_result,
            selected_hash: model::opt_text(self.selected_hash),
            filters: text::texts(self.active_tag_filters@),
        }
    }
}

/// A result with the tags that the store has for its document, also where it has
/// none, and its terms in lower case. The tags that came with the result may be
/// stale: it keeps them only where there is no store.
pub open spec fn is_shown_as(m: Option<store::StoreModel>, a: ResultModel, b: ResultModel) -> bool {
    &&& b == (ResultModel {
        match_terms: a.match_terms.map_values(|t: Seq<char>| text::lowercase(t)),
        tags: b.tags,
        ..a
    })
    &&& match m {
        Some(m) => pipeline::are_tag_names(m, a.content_hash, b.tags),
        None => b.tags == a.tags,
    }
}

/// Each result is shown as the other says.
pub open spec fn are_shown_as(
    m: Option<store::StoreModel>,
    found: Seq<ResultModel>,
    shown: Seq<ResultModel>,
) -> bool {
    &&& shown.len() == found.len()
    &&& forall|i: int| 0 <= i < found.len() ==> is_shown_as(m, found[i], #[trigger] shown[i])
}

/// A result has every one of these tags.
pub open spec fn has_tags(filters: Seq<Seq<char>>, r: ResultModel) -> bool {
    forall|i: int| 0 <= i < filters.len() ==> r.tags.contains(#[trigger] filters[i])
}

/// The results that have every one of these tags.
pub open spec fn filtered(filters: Seq<Seq<char>>, shown: Seq<ResultModel>) -> Seq<ResultModel> {
    shown.filter(|r: ResultModel| has_tags(filters, r))
}

/// The first results, as many as are shown.
pub open spec fn first_shown(results: Seq<ResultModel>) -> Seq<ResultModel> {
    if results.len() > SHOWN_RESULTS {
        results.take(SHOWN_RESULTS as int)
    } else {
        results
    }
}

/// The place of a document among results: the first with its content hash.
pub open spec fn is_place(results: Seq<ResultModel>, hash: Option<Seq<char>>, place: Option<usize>) -> bool {
    match place {
        Some(i) => {
            &&& i < results.len()
            &&& hash == Some(results[i as int].content_hash)
            &&& forall|j: int| 0 <= j < i ==> hash != Some((#[trigger] results[j]).content_hash)
        },
        None => forall|j: int|
            0 <= j < results.len() ==> hash != Some((#[trigger] results[j]).content_hash),
    }
}

/// The search once results came: they are shown with the tags of the store, those
/// without a tag that is filtered by are left out, and the document that was
/// selected stays selected where it is among them.
pub open spec fn is_after_results(
    before: SearchModel,
    m: Option<store::StoreModel>,
    found: Seq<ResultModel>,
    total: usize,
    after: SearchModel,
) -> bool {
    &&& after.query == before.query
    &&& after.filters == before.filters
    &&& if before.filters.len() > 0 && m is None {
        // Without a store the tags cannot be told: nothing is shown.
        &&& after.results == Seq::<ResultModel>::empty()
        &&& after.total_hits == 0
        &&& after.selected_result == before.selected_result
        &&& after.selected_hash == before.selected_hash
    } else {
        &&& exists|shown: Seq<ResultModel>| #[trigger]
            are_shown_as(m, found, shown) && if before.filters.len() == 0 {
                after.results == shown && after.total_hits == total
            } else {
                after.results == first_shown(filtered(before.filters, shown)) && after.total_hits
                    == filtered(before.filters, shown).len()
            }
        &&& is_place(after.results, before.selected_hash, after.selected_result)
        &&& after.selected_hash == if after.selected_result is Some {
            before.selected_hash
        } else {
            None
        }
    }
}

/// The terms in lower case.
fn lower_terms(terms: &Vec<String>) -> (r: Vec<String>)
    ensures
        text::texts(r@) == text::texts(terms@).map_values(|t: Seq<char>| text::lowercase(t)),
{
    let mut r: Vec<String> = Vec::new();
    let mut i: usize = 0;
    while i < terms.len()
        invariant
            i <= terms@.len(),
            r@.len() == i,
            forall|k: int| 0 <= k < i ==> (#[trigger] r@[k])@ == text::lowercase(terms@[k]@),
        decreases terms@.len() - i,
    {
        r.push(text::to_lowercase(terms[i].as_str()));
        i = i + 1;
    }
    assert(text::texts(r@) =~= text::texts(terms@).map_values(|t: Seq<char>| text::lowercase(t)));
    r
}

/// A result as it is shown.
fn show_result(item: &SearchResult, tags: Option<&TagStore>) -> (r: SearchResult)
    ensures
        is_shown_as(
            match tags {
                Some(t) => Some(t@),
                None => None,
            },
            item@,
            r@,
        ),
{
    let terms: Vec<String> = lower_terms(&item.match_terms);
    let names: Vec<String> = match tags {
        Some(t) => pipeline::tag_names(t, item.content_hash.as_str()),
        None => text::clone_strings(&item.tags),
    };
    item.with_terms_and_tags(terms, names)
}

/// Whether a result has every one of these tags.
fn result_has_tags(filters: &Vec<String>, item: &SearchResult) -> (r: bool)
    ensures
        r == has_tags(text::texts(filters@), item@),
{
    let mut i: usize = 0;
    while i < filters.len()
        invariant
            i <= filters@.len(),
            forall|k: int|
                0 <= k < i ==> item@.tags.contains(#[trigger] text::texts(filters@)[k]),
        decreases filters@.len() - i,
    {
        assert(text::texts(filters@)[i as int] == filters@[i as int]@);
        if !text::contains_text(item.tags.as_slice(), filters[i].as_str()) {
            return false;
        }
        i = i + 1;
    }
    true
}

/// The results that have every one of these tags.
fn keep_tagged(filters: &Vec<String>, shown: &Vec<SearchResult>) -> (r: Vec<SearchResult>)
    ensures
        model::views(r@) == filtered(text::texts(filters@), model::views(shown@)),
{
    let ghost all = model::views(shown@);
    let ghost p = |x: ResultModel| has_tags(text::texts(filters@), x);
    let mut r: Vec<SearchResult> = Vec::new();
    let mut i: usize = 0;
    proof {
        reveal(Seq::filter);
        assert(all.take(0) =~= Seq::<ResultModel>::empty());
        assert(model::views(r@) =~= all.take(0).filter(p));
    }
    while i < shown.len()
        invariant
            i <= shown@.len(),
            all == model::views(shown@),
            p == (|x: ResultModel| has_tags(text::texts(filters@), x)),
            model::views(r@) == all.take(i as int).filter(p),
        decreases shown@.len() - i,
    {
        let ghost r0 = r@;
        proof {
            reveal(Seq::filter);
            assert(all.take(i + 1).drop_last() =~= all.take(i as int));
            assert(all.take(i + 1).last() == shown@[i as int]@);
        }
        if result_has_tags(filters, &shown[i]) {
            r.push(shown[i].duplicate());
            assert(model::views(r@) =~= model::views(r0).push(shown@[i as int]@));
        }
        i = i + 1;
    }
    assert(all.take(all.len() as int) =~= all);
    r
}

/// Nothing was searched for.
pub open spec fn blank_search() -> SearchModel {
    SearchModel {
        query: Seq::empty(),
        results: Seq::empty(),
        total_hits: 0,
        selected_result: None,
        selected_hash: None,
        filters: Seq::empty(),
    }
}

impl SearchState {
    /// Nothing was searched for yet.
    pub fn new() -> (r: Self)
        ensures
            r@ == blank_search(),
    {
        let r = SearchState {
            query: String::new(),
            results: Vec::new(),
            total_hits: 0,
            selected_result: None,
            selected_hash: None,
            active_tag_filters: Vec::new(),
        };
        assert(r@.results =~= Seq::<ResultModel>::empty());
        assert(r@.filters =~= Seq::<Seq<char>>::empty());
        r
    }

    /// What is asked of the index: nothing for a blank query. The tags are not
    /// asked for there, since the index may be behind the store.
    pub fn search_request(&self) -> (r: Option<SearchRequest>)
        ensures
            r is Some <==> text::trim(self.query@).len() > 0,
            r is Some ==> {
                &&& r->0.query@ == text::trim(self.query@)
                &&& r->0.tag_filters@.len() == 0
                &&& !r->0.fuzzy
                &&& r->0.limit == if self.active_tag_filters@.len() == 0 {
                    SHOWN_RESULTS
                } else {
                    FILTERED_RESULTS
                }
            },
    {
        let query: String = text::trim_text(self.query.as_str());
        if query.as_str().is_empty() {
            return None;
        }
        let limit: usize = if self.active_tag_filters.len() == 0 {
            SHOWN_RESULTS
        } else {
            FILTERED_RESULTS
        };
        Some(SearchRequest::new(query).with_limit(limit))
    }

    /// The query is blank: nothing is shown and nothing is selected.
    pub fn clear(&mut self)
        ensures
            final(self)@ == (SearchModel {
                results: Seq::empty(),
                total_hits: 0,
                selected_result: None,
                selected_hash: None,
                ..old(self)@
            }),
    {
        self.results = Vec::new();
        self.total_hits = 0;
        self.selected_result = None;
        self.selected_hash = None;
        assert(self@.results =~= Seq::<ResultModel>::empty());
    }

    /// Results came from the index.
    pub fn apply_results(&mut self, found: &SearchResults, tags: Option<&TagStore>)
        ensures
            is_after_results(
                old(self)@,
                match tags {
                    Some(t) => Some(t@),
                    None => None,
                },
                model::views(found.items@),
                found.total_hits,
                final(self)@,
            ),
    {
        let ghost before = self@;
        let ghost m: Option<store::StoreModel> = match tags {
            Some(t) => Some(t@),
            None => None,
        };
        if self.active_tag_filters.len() > 0 && tags.is_none() {
            self.results = Vec::new();
            self.total_hits = 0;
            assert(self@.results =~= Seq::<ResultModel>::empty());
            return;
        }
        let ghost items = model::views(found.items@);
        let mut shown: Vec<SearchResult> = Vec::new();
        let mut i: usize = 0;
        while i < found.items.len()
            invariant
                i <= found.items@.len(),
                items == model::views(found.items@),
                m == (match tags {
                    Some(t) => Some(t@),
                    None => None::<store::StoreModel>,
                }),
                shown@.len() == i,
                forall|k: int| 0 <= k < i ==> is_shown_as(m, items[k], (#[trigger] shown@[k])@),
            decreases found.items@.len() - i,
        {
            assert(items[i as int] == found.items@[i as int]@);
            shown.push(show_result(&found.items[i], tags));
            i = i + 1;
        }
        let ghost all = model::views(shown@);
        proof {
            assert forall|k: int| 0 <= k < items.len() implies is_shown_as(
                m,
                items[k],
                #[trigger] all[k],
            ) by {
                assert(all[k] == shown@[k]@);
            }
            assert(are_shown_as(m, items, all));
        }
        if self.active_tag_filters.len() > 0 {
            let mut kept: Vec<SearchResult> = keep_tagged(&self.active_tag_filters, &shown);
            self.total_hits = kept.len();
            let ghost full = model::views(kept@);
            if kept.len() > SHOWN_RESULTS {
                kept.truncate(SHOWN_RESULTS);
            }
            assert(model::views(kept@) =~= first_shown(full));
            self.results = kept;
        } else {
            self.total_hits = found.total_hits;
            self.results = shown;
        }
        self.selected_result = self.place_of_selected();
        if self.selected_result.is_none() {
            self.selected_hash = None;
        }
    }

    /// Where the selected document stands among the results.
    fn place_of_selected(&self) -> (r: Option<usize>)
        ensures
            is_place(self@.results, self@.selected_hash, r),
    {
        let hash: &String = match &self.selected_hash {
            Some(hash) => hash,
            None => return None,
        };
        let mut i: usize = 0;
        while i < self.results.len()
            invariant
                i <= self.results@.len(),
                self@.selected_hash == Some(hash@),
                forall|k: int|
                    0 <= k < i ==> (#[trigger] self@.results[k]).content_hash != hash@,
            decreases self.results@.len() - i,
        {
            assert(self@.results[i as int] == self.results@[i as int]@);
            if text::same_text(self.results[i].content_hash.as_str(), hash.as_str()) {
                return Some(i);
            }
            i = i + 1;
        }
        None
    }

    /// The path of the selected document, where it is among the results: that of the
    /// first with its content hash.
    pub fn selected_path(&self) -> (r: Option<String>)
        ensures
            exists|place: Option<usize>| #[trigger]
                is_place(self@.results, self@.selected_hash, place) && model::opt_text(r) == match place {
                    Some(i) => Some(self@.results[i as int].file_path),
                    None => None,
                },
    {
        match self.place_of_selected() {
            Some(i) => {
                assert(is_place(self@.results, self@.selected_hash, Some(i)));
                assert(self@.results[i as int] == self.results@[i as int]@);
                Some(text::copy_str(self.results[i].file_path.as_str()))
            },
            None => {
                assert(is_place(self@.results, self@.selected_hash, None));
                None
            },
        }
    }

    /// Filter by a tag, or no longer.
    pub fn toggle_tag_filter(&mut self, tag_name: &str)
        ensures
            final(self)@ == (SearchModel {
                filters: toggled(old(self)@.filters, tag_name@),
                ..old(self)@
            }),
    {
        toggle(&mut self.active_tag_filters, tag_name);
    }
}

/// The store has the truth about tags: a document that has none there is shown
/// without any, whatever came with its result, and passes no tag filter.
pub proof fn untagged_document_is_shown_untagged(
    m: store::StoreModel,
    found: ResultModel,
    shown: ResultModel,
    filters: Seq<Seq<char>>,
)
    requires
        is_shown_as(Some(m), found, shown),
        m.tags_of(found.content_hash).len() == 0,
    ensures
        shown.tags.len() == 0,
        filters.len() > 0 ==> !has_tags(filters, shown),
{
    let tags = choose|tags: Seq<model::TagModel>| #[trigger]
        store::is_sorted_by_key::<Tag>(m.tags_of(found.content_hash), tags) && shown.tags
            == tags.map_values(|t: model::TagModel| t.name);
    assert(store::is_sorted_by_key::<Tag>(m.tags_of(found.content_hash), tags));
    assert(tags.len() == m.tags_of(found.content_hash).len());
    if filters.len() > 0 {
        assert(!shown.tags.contains(filters[0]));
    }
}

/// Every result that is shown has every tag that is filtered by.
pub proof fn shown_results_have_the_tags(
    before: SearchModel,
    m: Option<store::StoreModel>,
    found: Seq<ResultModel>,
    total: usize,
    after: SearchModel,
)
    requires
        is_after_results(before, m, found, total, after),
    ensures
        forall|i: int|
            0 <= i < after.results.len() ==> has_tags(before.filters, #[trigger] after.results[i]),
        before.filters.len() > 0 ==> after.results.len() <= SHOWN_RESULTS,
        (before.filters.len() == 0 || m is Some) && after.selected_result is Some
            ==> after.selected_result->0 < after.results.len() && after.selected_hash == Some(
            after.results[after.selected_result->0 as int].content_hash,
        ),
{
    if before.filters.len() > 0 && m is Some {
        let shown = choose|shown: Seq<ResultModel>| #[trigger]
            are_shown_as(m, found, shown) && after.results == first_shown(
                filtered(before.filters, shown),
            ) && after.total_hits == filtered(before.filters, shown).len();
        let p = |r: ResultModel| has_tags(before.filters, r);
        assert forall|i: int| 0 <= i < after.results.len() implies has_tags(
            before.filters,
            #[trigger] after.results[i],
        ) by {
            shown.lemma_filter_pred(p, i);
            assert(p(filtered(before.filters, shown)[i]));
        }
    }
}

// ── What is shown of a search ──

/// A result is shown as it was found, with its terms in lower case, and with the names of
/// the tags that the store has for its document.
pub proof fn results_are_shown_with_the_tags_of_the_store(
    m: store::StoreModel,
    found: ResultModel,
    shown: ResultModel,
    t: model::TagModel,
)
    requires
        is_shown_as(Some(m), found, shown),
        m.wf(),
        m.tags.len() <= usize::MAX,
    ensures
        shown.file_name == found.file_name && shown.file_path == found.file_path,
        shown.file_type == found.file_type && shown.snippet == found.snippet,
        shown.content_hash == found.content_hash && shown.match_count == found.match_count,
        shown.highlight_spans == found.highlight_spans && shown.lower_snippet
            == found.lower_snippet,
        shown.match_terms.len() == found.match_terms.len(),
        forall|i: int|
            0 <= i < found.match_terms.len() ==> #[trigger] shown.match_terms[i]
                == text::lowercase(found.match_terms[i]),
        shown.tags.len() == m.tags_of(found.content_hash).len(),
        m.tags.contains(t) && m.has_link(found.content_hash, t.id) ==> shown.tags.contains(t.name),
        forall|i: int|
            0 <= i < shown.tags.len() ==> pipeline::has_tag_named(
                m,
                found.content_hash,
                #[trigger] shown.tags[i],
            ),
{
    pipeline::tag_names_are_those_of_the_document(m, found.content_hash, shown.tags, t);
}

/// Without a filter every result is shown, in the order in which they were found, and the
/// number of hits is that of the index.
pub proof fn every_result_is_shown(
    before: SearchModel,
    m: Option<store::StoreModel>,
    found: Seq<ResultModel>,
    total: usize,
    after: SearchModel,
)
    requires
        is_after_results(before, m, found, total, after),
        before.filters.len() == 0,
    ensures
        after.results.len() == found.len(),
        after.total_hits == total,
        forall|i: int| 0 <= i < found.len() ==> is_shown_as(m, found[i], #[trigger] after.results[i]),
        after.query == before.query && after.filters == before.filters,
{
}

/// With a filter, a result is shown where its document has every tag that is filtered by:
/// the number of hits is that of all such results, of which the first 50 are shown.
pub proof fn filtered_results_are_counted(
    before: SearchModel,
    m: store::StoreModel,
    found: Seq<ResultModel>,
    total: usize,
    after: SearchModel,
) -> (shown: Seq<ResultModel>)
    requires
        is_after_results(before, Some(m), found, total, after),
        before.filters.len() > 0,
    ensures
        shown.len() == found.len(),
        forall|i: int| 0 <= i < found.len() ==> is_shown_as(Some(m), found[i], #[trigger] shown[i]),
        after.total_hits == shown.filter(
            |r: ResultModel|
                forall|k: int|
                    0 <= k < before.filters.len() ==> r.tags.contains(#[trigger] before.filters[k]),
        ).len(),
        after.total_hits <= 50 ==> after.results.len() == after.total_hits,
        after.total_hits > 50 ==> after.results.len() == 50,
        forall|i: int|
            0 <= i < after.results.len() ==> #[trigger] after.results[i] == shown.filter(
                |r: ResultModel|
                    forall|k: int|
                        0 <= k < before.filters.len() ==> r.tags.contains(
                            #[trigger] before.filters[k],
                        ),
            )[i],
        forall|i: int|
            0 <= i < shown.len() && (forall|k: int|
                0 <= k < before.filters.len() ==> (#[trigger] shown[i]).tags.contains(
                    #[trigger] before.filters[k],
                )) && after.total_hits <= 50 ==> after.results.contains(shown[i]),
        forall|i: int| 0 <= i < after.results.len() ==> shown.contains(#[trigger] after.results[i]),
{
    let shown = choose|shown: Seq<ResultModel>| #[trigger]
        are_shown_as(Some(m), found, shown) && after.results == first_shown(
            filtered(before.filters, shown),
        ) && after.total_hits == filtered(before.filters, shown).len();
    let p = |r: ResultModel| has_tags(before.filters, r);
    let q = |r: ResultModel|
        forall|k: int|
            0 <= k < before.filters.len() ==> r.tags.contains(#[trigger] before.filters[k]);
    assert(p =~= q);
    let kept = filtered(before.filters, shown);
    assert forall|i: int|
        0 <= i < shown.len() && (forall|k: int|
            0 <= k < before.filters.len() ==> (#[trigger] shown[i]).tags.contains(
                #[trigger] before.filters[k],
            )) && after.total_hits <= 50 implies after.results.contains(shown[i]) by {
        assert(has_tags(before.filters, shown[i])) by {
            assert forall|k: int| 0 <= k < before.filters.len() implies shown[i].tags.contains(
                #[trigger] before.filters[k],
            ) by {}
        }
        shown.lemma_filter_contains(p, i);
        assert(after.results == kept);
    }
    assert forall|i: int| 0 <= i < after.results.len() implies shown.contains(
        #[trigger] after.results[i],
    ) by {
        assert(kept[i] == after.results[i]);
        assert(kept.contains(after.results[i]));
        shown.lemma_filter_contains_rev(p, after.results[i]);
    }
    shown
}

/// The document that was selected stays selected where it is among the results, at the
/// first of its places, and is no longer selected where it is not.
pub proof fn selected_document_stays_selected(
    before: SearchModel,
    m: Option<store::StoreModel>,
    found: Seq<ResultModel>,
    total: usize,
    after: SearchModel,
    i: int,
)
    requires
        is_after_results(before, m, found, total, after),
        before.filters.len() == 0 || m is Some,
    ensures
        0 <= i < after.results.len() && before.selected_hash == Some(after.results[i].content_hash)
            ==> after.selected_result is Some && after.selected_result->0 <= i
            && after.selected_hash == before.selected_hash && before.selected_hash == Some(
            after.results[after.selected_result->0 as int].content_hash,
        ),
        (forall|k: int|
            0 <= k < after.results.len() ==> before.selected_hash != Some(
                (#[trigger] after.results[k]).content_hash,
            )) ==> after.selected_result is None && after.selected_hash is None,
{
}

/// Fifty results are shown, and two hundred are asked for where tags filter them.
pub proof fn fifty_results_are_shown(
    filters: Seq<Seq<char>>,
    r: ResultModel,
    results: Seq<ResultModel>,
)
    ensures
        SHOWN_RESULTS == 50 && FILTERED_RESULTS == 200,
        has_tags(filters, r) <==> forall|i: int|
            0 <= i < filters.len() ==> r.tags.contains(#[trigger] filters[i]),
        results.len() <= 50 ==> first_shown(results) == results,
        results.len() > 50 ==> first_shown(results) == results.take(50),
        blank_search().query.len() == 0 && blank_search().results.len() == 0
            && blank_search().filters.len() == 0 && blank_search().total_hits == 0,
        blank_search().selected_result is None && blank_search().selected_hash is None,
{
}

/// The search is seen as all that the window keeps of it.
pub proof fn search_is_seen_whole(s: SearchState)
    ensures
        s@.query == s.query@ && s@.total_hits == s.total_hits,
        s@.results == model::views(s.results@) && s@.filters == text::texts(
            s.active_tag_filters@,
        ),
        s@.selected_result == s.selected_result && s@.selected_hash == model::opt_text(
            s.selected_hash,
        ),
{
}

/// The index is asked for the query as it is typed, without the white space round it, for
/// fifty results, or two hundred where tags are filtered for; nothing is asked for a blank
/// one.
pub proof fn searches_ask_for_the_query(s: SearchState, r: Option<SearchRequest>)
    requires
        call_ensures(SearchState::search_request, (&s,), r),
    ensures
        r is None <==> text::trim(s.query@).len() == 0,
        r is Some ==> r->0.query@ == text::trim(s.query@) && !r->0.fuzzy
            && r->0.tag_filters@.len() == 0,
        r is Some && s@.filters.len() == 0 ==> r->0.limit == 50,
        r is Some && s@.filters.len() > 0 ==> r->0.limit == 200,
{
}

} // verus!
