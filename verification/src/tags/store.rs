//! The tag store: documents, tags, their associations, the auto-tag status of
//! each document and the cache of tags by file-name tokens.
//!
//! The store holds the rows themselves. Keys are unique, an association or a
//! status row stands only for a document that is there, and a document takes
//! both with it when it goes.

use vstd::prelude::*;

use crate::json;
use crate::order;
use crate::tags::model;
use crate::tags::model::{
    AutoTagQueueItem, AutoTagStatus, CacheEntry, DocumentInfo, DocumentRow, DocumentTag, Row, Tag,
};
use crate::tags::tag_json;
use crate::text;
use crate::times;

verus! {

/// Why the store refuses a write.
#[derive(Debug, Clone, Copy, PartialEq, Eq, Structural)]
pub enum StoreError {
    /// A row with the same key is there already.
    UniqueViolation,
    /// The row refers to a document or a tag that is not there.
    ForeignKeyViolation,
    /// No identifier is left for a new row.
    Full,
}

/// What the store holds.
#[verifier::ext_equal]
pub struct StoreModel {
    pub documents: Seq<model::DocumentModel>,
    pub tags: Seq<model::TagModel>,
    pub links: Seq<model::LinkModel>,
    pub statuses: Seq<model::StatusModel>,
    pub cache: Seq<model::CacheModel>,
}

impl StoreModel {
    /// A document with this content hash is there.
    pub open spec fn has_document(self, hash: Seq<char>) -> bool {
        exists|i: int| 0 <= i < self.documents.len() && (#[trigger] self.documents[i]).hash == hash
    }

    /// A tag with this identifier is there.
    pub open spec fn has_tag(self, id: i64) -> bool {
        exists|i: int| 0 <= i < self.tags.len() && (#[trigger] self.tags[i]).id == id
    }

    /// A tag with this name is there.
    pub open spec fn has_tag_name(self, name: Seq<char>) -> bool {
        exists|i: int| 0 <= i < self.tags.len() && (#[trigger] self.tags[i]).name == name
    }

    /// The document has this tag.
    pub open spec fn has_link(self, hash: Seq<char>, id: i64) -> bool {
        exists|i: int|
            0 <= i < self.links.len() && (#[trigger] self.links[i]).hash == hash
                && self.links[i].tag_id == id
    }

    /// Each content hash stands for one document.
    pub open spec fn documents_unique(self) -> bool {
        forall|i: int, j: int|
            0 <= i < j < self.documents.len() ==> (#[trigger] self.documents[i]).hash != (
            #[trigger] self.documents[j]).hash
    }

    /// Each identifier and each name stands for one tag, and identifiers are
    /// positive.
    pub open spec fn tags_unique(self) -> bool {
        &&& forall|i: int| 0 <= i < self.tags.len() ==> (#[trigger] self.tags[i]).id >= 1
        &&& forall|i: int, j: int|
            0 <= i < j < self.tags.len() ==> (#[trigger] self.tags[i]).id != (#[trigger] self.tags[j]).id
                && self.tags[i].name != self.tags[j].name
    }

    /// No association stands twice, and each is between a document and a tag
    /// that are there.
    pub open spec fn links_valid(self) -> bool {
        &&& forall|i: int, j: int|
            0 <= i < j < self.links.len() ==> (#[trigger] self.links[i]) != (#[trigger] self.links[j])
        &&& forall|i: int|
            0 <= i < self.links.len() ==> self.has_document((#[trigger] self.links[i]).hash)
                && self.has_tag(self.links[i].tag_id)
    }

    /// Each document has at most one status row, and each status row has its
    /// document.
    pub open spec fn statuses_valid(self) -> bool {
        &&& forall|i: int, j: int|
            0 <= i < j < self.statuses.len() ==> (#[trigger] self.statuses[i]).hash != (
            #[trigger] self.statuses[j]).hash
        &&& forall|i: int|
            0 <= i < self.statuses.len() ==> self.has_document((#[trigger] self.statuses[i]).hash)
    }

    /// Each list of tokens has at most one cache entry.
    pub open spec fn cache_unique(self) -> bool {
        forall|i: int, j: int|
            0 <= i < j < self.cache.len() ==> (#[trigger] self.cache[i]).tokens != (
            #[trigger] self.cache[j]).tokens
    }

    /// The rows of a store.
    pub open spec fn wf(self) -> bool {
        &&& self.documents_unique()
        &&& self.tags_unique()
        &&& self.links_valid()
        &&& self.statuses_valid()
        &&& self.cache_unique()
    }
}

/// The tag store.
pub struct TagStore {
    documents: Vec<DocumentRow>,
    tags: Vec<Tag>,
    links: Vec<DocumentTag>,
    statuses: Vec<AutoTagStatus>,
    cache: Vec<CacheEntry>,
}

impl View for TagStore {
    type V = StoreModel;

    closed spec fn view(&self) -> StoreModel {
        StoreModel {
            documents: model::views(self.documents@),
            tags: model::views(self.tags@),
            links: model::views(self.links@),
            statuses: model::views(self.statuses@),
            cache: model::views(self.cache@),
        }
    }
}

// ── Rows ──

/// The first row for which `f` holds.
fn find_row<R: View, F: Fn(&R) -> bool>(
    rows: &Vec<R>,
    Ghost(p): Ghost<spec_fn(R::V) -> bool>,
    f: F,
) -> (r: Option<usize>)
    requires
        forall|i: int| 0 <= i < rows@.len() ==> #[trigger] call_requires(f, (&rows@[i],)),
        forall|i: int, b: bool|
            0 <= i < rows@.len() && #[trigger] call_ensures(f, (&rows@[i],), b) ==> b == p(rows@[i]@),
    ensures
        match r {
            Some(i) => i < rows@.len() && p(model::views(rows@)[i as int]) && forall|j: int|
                0 <= j < i ==> !p(#[trigger] model::views(rows@)[j]),
            None => forall|j: int| 0 <= j < rows@.len() ==> !p(#[trigger] model::views(rows@)[j]),
        },
{
    let mut i: usize = 0;
    while i < rows.len()
        invariant
            i <= rows@.len(),
            forall|i: int| 0 <= i < rows@.len() ==> #[trigger] call_requires(f, (&rows@[i],)),
            forall|i: int, b: bool|
                0 <= i < rows@.len() && #[trigger] call_ensures(f, (&rows@[i],), b) ==> b == p(
                    rows@[i]@,
                ),
            forall|j: int| 0 <= j < i ==> !p(#[trigger] model::views(rows@)[j]),
        decreases rows@.len() - i,
    {
        if f(&rows[i]) {
            return Some(i);
        }
        i = i + 1;
    }
    None
}

/// The rows for which `f` holds.
fn keep_rows<R: Row, F: Fn(&R) -> bool>(
    rows: &Vec<R>,
    Ghost(p): Ghost<spec_fn(R::V) -> bool>,
    f: F,
) -> (r: Vec<R>)
    requires
        forall|i: int| 0 <= i < rows@.len() ==> #[trigger] call_requires(f, (&rows@[i],)),
        forall|i: int, b: bool|
            0 <= i < rows@.len() && #[trigger] call_ensures(f, (&rows@[i],), b) ==> b == p(rows@[i]@),
    ensures
        model::views(r@) == model::views(rows@).filter(p),
{
    let mut r: Vec<R> = Vec::new();
    let mut i: usize = 0;
    proof {
        reveal(Seq::filter);
        assert(model::views(rows@).take(0) =~= Seq::<R::V>::empty());
        assert(model::views(r@) =~= Seq::<R::V>::empty());
    }
    while i < rows.len()
        invariant
            i <= rows@.len(),
            forall|i: int| 0 <= i < rows@.len() ==> #[trigger] call_requires(f, (&rows@[i],)),
            forall|i: int, b: bool|
                0 <= i < rows@.len() && #[trigger] call_ensures(f, (&rows@[i],), b) ==> b == p(
                    rows@[i]@,
                ),
            model::views(r@) == model::views(rows@).take(i as int).filter(p),
        decreases rows@.len() - i,
    {
        let ghost r0 = r@;
        proof {
            reveal(Seq::filter);
            let upto = model::views(rows@).take(i + 1);
            assert(upto.drop_last() =~= model::views(rows@).take(i as int));
            assert(upto.last() == rows@[i as int]@);
        }
        if f(&rows[i]) {
            r.push(rows[i].duplicate());
            assert(model::views(r@) =~= model::views(r0).push(rows@[i as int]@));
        }
        i = i + 1;
    }
    assert(model::views(rows@).take(rows@.len() as int) =~= model::views(rows@));
    r
}

/// Row `i` comes before row `j` by the text that such rows are ordered by.
pub open spec fn key_less<R: Row>(rows: Seq<R::V>) -> spec_fn(int, int) -> bool {
    |i: int, j: int| text::text_less(R::key_of(rows[i]), R::key_of(rows[j]))
}

/// `sorted` is `rows` in the order of their keys, rows with the same key in the
/// order in which they stood.
pub open spec fn is_sorted_by_key<R: Row>(rows: Seq<R::V>, sorted: Seq<R::V>) -> bool {
    exists|order: Seq<usize>| #[trigger]
        order::is_stable_order(key_less::<R>(rows), rows.len() as int, order) && sorted
            == order::permuted(rows, order)
}

/// Keys order rows.
proof fn lemma_keys_order<R: Row>(rows: Seq<R::V>)
    ensures
        order::orders(key_less::<R>(rows), rows.len() as int),
{
    let lt = key_less::<R>(rows);
    assert forall|i: int, j: int| #[trigger] lt(i, j) implies !lt(j, i) by {
        text::text_order_is_total(R::key_of(rows[i]), R::key_of(rows[j]), R::key_of(rows[i]));
    }
    assert forall|i: int, j: int, k: int| #[trigger]
        order::before(lt, i, j) && #[trigger] order::before(lt, j, k) implies order::before(lt, i, k) by {
        let a = R::key_of(rows[i]);
        let b = R::key_of(rows[j]);
        let c = R::key_of(rows[k]);
        text::text_order_is_total(a, b, c);
        text::text_order_is_total(b, c, a);
        text::text_order_is_total(c, a, b);
        text::text_order_is_total(a, c, b);
        text::text_order_is_total(b, a, c);
        text::text_order_is_total(c, b, a);
    }
}

/// The rows in the order of their keys.
fn sort_rows<R: Row>(rows: &Vec<R>) -> (r: Vec<R>)
    ensures
        is_sorted_by_key::<R>(model::views(rows@), model::views(r@)),
{
    let ghost all = model::views(rows@);
    let ghost lt = key_less::<R>(all);
    proof {
        lemma_keys_order::<R>(all);
    }
    let less = |i: usize, j: usize| -> (b: bool)
        requires
            i < rows@.len(),
            j < rows@.len(),
        ensures
            b == text::text_less(R::key_of(rows@[i as int]@), R::key_of(rows@[j as int]@)),
        { text::less_text(rows[i].key(), rows[j].key()) };
    let places: Vec<usize> = order::stable_order(Ghost(lt), &less, rows.len());
    let mut r: Vec<R> = Vec::new();
    let mut a: usize = 0;
    while a < places.len()
        invariant
            a <= places@.len(),
            order::is_stable_order(lt, rows@.len() as int, places@),
            r@.len() == a,
            forall|k: int| 0 <= k < a ==> (#[trigger] r@[k])@ == rows@[places@[k] as int]@,
        decreases places@.len() - a,
    {
        r.push(rows[places[a]].duplicate());
        a = a + 1;
    }
    assert(model::views(r@) =~= order::permuted(all, places@));
    r
}

/// Where the rows of a filtered list stood: in the same order, and each row that
/// is kept among them.
proof fn lemma_filter_places<V>(s: Seq<V>, p: spec_fn(V) -> bool) -> (places: Seq<int>)
    ensures
        places.len() == s.filter(p).len(),
        forall|a: int|
            0 <= a < places.len() ==> 0 <= #[trigger] places[a] < s.len() && s.filter(p)[a]
                == s[places[a]] && p(s[places[a]]),
        forall|a: int, b: int| 0 <= a < b < places.len() ==> #[trigger] places[a] < #[trigger] places[b],
        forall|i: int| 0 <= i < s.len() && p(#[trigger] s[i]) ==> places.contains(i),
        forall|i: int| 0 <= i < s.len() && p(#[trigger] s[i]) ==> s.filter(p).contains(s[i]),
    decreases s.len(),
{
    reveal(Seq::filter);
    if s.len() == 0 {
        Seq::empty()
    } else {
        let rest = s.drop_last();
        let before = lemma_filter_places(rest, p);
        let last = s.len() - 1;
        let places = if p(s.last()) {
            before.push(last)
        } else {
            before
        };
        assert forall|a: int| 0 <= a < places.len() implies 0 <= #[trigger] places[a] < s.len()
            && s.filter(p)[a] == s[places[a]] && p(s[places[a]]) by {
            if a < before.len() {
                assert(places[a] == before[a]);
                assert(rest[before[a]] == s[before[a]]);
                assert(rest.filter(p)[a] == s.filter(p)[a]);
            }
        }
        assert forall|i: int| 0 <= i < s.len() && p(#[trigger] s[i]) implies places.contains(i) by {
            if i < last {
                assert(rest[i] == s[i]);
                assert(before.contains(i));
                let a = choose|a: int| 0 <= a < before.len() && before[a] == i;
                assert(places[a] == i);
            } else {
                assert(places[before.len() as int] == i);
            }
        }
        assert forall|i: int| 0 <= i < s.len() && p(#[trigger] s[i]) implies s.filter(p).contains(s[i]) by {
            assert(places.contains(i));
            let a = choose|a: int| 0 <= a < places.len() && places[a] == i;
            assert(s.filter(p)[a] == s[i]);
        }
        places
    }
}

// ── Tags ──

impl StoreModel {
    /// `id` is one more than the largest identifier, and 1 where there is none.
    pub open spec fn is_next_tag_id(self, id: int) -> bool {
        &&& forall|i: int| 0 <= i < self.tags.len() ==> (#[trigger] self.tags[i]).id < id
        &&& self.tags.len() == 0 ==> id == 1
        &&& self.tags.len() > 0 ==> exists|i: int|
            0 <= i < self.tags.len() && id == (#[trigger] self.tags[i]).id + 1
    }

    /// The store with one more tag.
    pub open spec fn with_tag(self, tag: model::TagModel) -> StoreModel {
        StoreModel { tags: self.tags.push(tag), ..self }
    }

    /// The store without the tag `id` and its associations.
    pub open spec fn without_tag(self, id: i64) -> StoreModel {
        StoreModel {
            tags: self.tags.filter(|t: model::TagModel| t.id != id),
            links: self.links.filter(|l: model::LinkModel| l.tag_id != id),
            ..self
        }
    }

    /// The store in which the document has the tag.
    pub open spec fn with_link(self, hash: Seq<char>, id: i64) -> StoreModel {
        if self.has_link(hash, id) {
            self
        } else {
            StoreModel {
                links: self.links.push(model::LinkModel { hash: hash, tag_id: id }),
                ..self
            }
        }
    }

    /// The store in which the document does not have the tag.
    pub open spec fn without_link(self, hash: Seq<char>, id: i64) -> StoreModel {
        StoreModel {
            links: self.links.filter(|l: model::LinkModel| !(l.hash == hash && l.tag_id == id)),
            ..self
        }
    }

    /// The tags of a document, in the order in which they were created.
    pub open spec fn tags_of(self, hash: Seq<char>) -> Seq<model::TagModel> {
        self.tags.filter(|t: model::TagModel| self.has_link(hash, t.id))
    }
}

/// Leaving out a tag and its associations keeps the rows valid.
proof fn lemma_without_tag(m: StoreModel, id: i64)
    requires
        m.wf(),
    ensures
        m.without_tag(id).wf(),
{
    let after = m.without_tag(id);
    let tag_places = lemma_filter_places(m.tags, |t: model::TagModel| t.id != id);
    let link_places = lemma_filter_places(m.links, |l: model::LinkModel| l.tag_id != id);
    assert forall|i: int, j: int| 0 <= i < j < after.tags.len() implies (#[trigger] after.tags[i]).id
        != (#[trigger] after.tags[j]).id && after.tags[i].name != after.tags[j].name by {
        assert(tag_places[i] < tag_places[j]);
    }
    assert forall|i: int| 0 <= i < after.tags.len() implies (#[trigger] after.tags[i]).id >= 1 by {
        assert(after.tags[i] == m.tags[tag_places[i]]);
    }
    assert forall|i: int, j: int| 0 <= i < j < after.links.len() implies (#[trigger] after.links[i])
        != (#[trigger] after.links[j]) by {
        assert(link_places[i] < link_places[j]);
    }
    assert forall|i: int| 0 <= i < after.links.len() implies after.has_document(
        (#[trigger] after.links[i]).hash,
    ) && after.has_tag(after.links[i].tag_id) by {
        let link = m.links[link_places[i]];
        assert(m.has_document(link.hash));
        let d = choose|d: int| 0 <= d < m.documents.len() && (#[trigger] m.documents[d]).hash == link.hash;
        assert(after.documents[d].hash == link.hash);
        assert(m.has_tag(link.tag_id));
        let t = choose|t: int| 0 <= t < m.tags.len() && (#[trigger] m.tags[t]).id == link.tag_id;
        assert(after.tags.contains(m.tags[t]));
        let u = choose|u: int| 0 <= u < after.tags.len() && after.tags[u] == m.tags[t];
        assert(after.tags[u].id == link.tag_id);
    }
    assert forall|i: int| 0 <= i < after.statuses.len() implies after.has_document(
        (#[trigger] after.statuses[i]).hash,
    ) by {
        assert(m.has_document(m.statuses[i].hash));
        let d = choose|d: int|
            0 <= d < m.documents.len() && (#[trigger] m.documents[d]).hash == m.statuses[i].hash;
        assert(after.documents[d].hash == m.statuses[i].hash);
    }
}

/// Leaving out associations keeps the rows valid.
proof fn lemma_fewer_links(m: StoreModel, p: spec_fn(model::LinkModel) -> bool)
    requires
        m.wf(),
    ensures
        (StoreModel { links: m.links.filter(p), ..m }).wf(),
{
    let after = StoreModel { links: m.links.filter(p), ..m };
    let places = lemma_filter_places(m.links, p);
    assert forall|i: int, j: int| 0 <= i < j < after.links.len() implies (#[trigger] after.links[i])
        != (#[trigger] after.links[j]) by {
        assert(places[i] < places[j]);
    }
    assert forall|h: Seq<char>| #[trigger] m.has_document(h) implies after.has_document(h) by {
        let d = choose|d: int| 0 <= d < m.documents.len() && (#[trigger] m.documents[d]).hash == h;
        assert(after.documents[d].hash == h);
    }
    assert forall|i: i64| #[trigger] m.has_tag(i) implies after.has_tag(i) by {
        let t = choose|t: int| 0 <= t < m.tags.len() && (#[trigger] m.tags[t]).id == i;
        assert(after.tags[t].id == i);
    }
    assert forall|i: int| 0 <= i < after.links.len() implies after.has_document(
        (#[trigger] after.links[i]).hash,
    ) && after.has_tag(after.links[i].tag_id) by {
        assert(m.has_document(m.links[places[i]].hash));
        assert(m.has_tag(m.links[places[i]].tag_id));
    }
    assert forall|i: int| 0 <= i < after.statuses.len() implies after.has_document(
        (#[trigger] after.statuses[i]).hash,
    ) by {
        assert(m.has_document(m.statuses[i].hash));
    }
}

impl TagStore {
    /// The rows are valid.
    pub open spec fn wf(&self) -> bool {
        self@.wf()
    }

    /// An empty store.
    pub fn new() -> (r: Self)
        ensures
            r.wf(),
            r@ == (StoreModel {
                documents: Seq::empty(),
                tags: Seq::empty(),
                links: Seq::empty(),
                statuses: Seq::empty(),
                cache: Seq::empty(),
            }),
    {
        let r = TagStore {
            documents: Vec::new(),
            tags: Vec::new(),
            links: Vec::new(),
            statuses: Vec::new(),
            cache: Vec::new(),
        };
        proof {
            assert(r@.documents =~= Seq::empty());
            assert(r@.tags =~= Seq::empty());
            assert(r@.links =~= Seq::empty());
            assert(r@.statuses =~= Seq::empty());
            assert(r@.cache =~= Seq::empty());
        }
        r
    }

    /// Create a tag. Its identifier is one more than the largest; a second tag
    /// of the same name is refused.
    pub fn create_tag(&mut self, name: &str) -> (r: Result<Tag, StoreError>)
        requires
            old(self).wf(),
        ensures
            final(self).wf(),
            match r {
                Ok(tag) => !old(self)@.has_tag_name(name@) && tag.name@ == name@
                    && old(self)@.is_next_tag_id(tag.id as int) && final(self)@
                    == old(self)@.with_tag(tag@),
                Err(StoreError::UniqueViolation) => old(self)@.has_tag_name(name@) && final(self)@
                    == old(self)@,
                Err(StoreError::Full) => !old(self)@.has_tag_name(name@)
                    && old(self)@.is_next_tag_id(i64::MAX + 1) && final(self)@ == old(self)@,
                Err(StoreError::ForeignKeyViolation) => false,
            },
    {
        let ghost m = self@;
        let test = |t: &Tag| -> (b: bool)
            ensures
                b == (t.name@ == name@),
            { text::same_text(t.name.as_str(), name) };
        let found: Option<usize> = find_row(&self.tags, Ghost(|t: model::TagModel| t.name == name@), test);
        if let Some(i) = found {
            assert(m.tags[i as int].name == name@);
            return Err(StoreError::UniqueViolation);
        }
        assert(!m.has_tag_name(name@));
        let mut top: i64 = 0;
        let mut i: usize = 0;
        while i < self.tags.len()
            invariant
                i <= self.tags@.len(),
                self@ == m,
                m.wf(),
                top >= 0,
                forall|k: int| 0 <= k < i ==> (#[trigger] m.tags[k]).id <= top,
                i == 0 ==> top == 0,
                i > 0 ==> exists|k: int| 0 <= k < i && (#[trigger] m.tags[k]).id == top,
            decreases self.tags@.len() - i,
        {
            let id: i64 = self.tags[i].id;
            assert(m.tags[i as int].id == id);
            if id > top {
                top = id;
            }
            i = i + 1;
        }
        assert(m.is_next_tag_id(top + 1));
        if top == i64::MAX {
            return Err(StoreError::Full);
        }
        let tag = Tag { id: top + 1, name: text::copy_str(name) };
        self.tags.push(tag.duplicate());
        proof {
            assert(self@.tags =~= m.tags.push(tag@));
            assert(self@ == m.with_tag(tag@));
            assert forall|i: int| 0 <= i < self@.links.len() implies self@.has_document(
                (#[trigger] self@.links[i]).hash,
            ) && self@.has_tag(self@.links[i].tag_id) by {
                assert(m.has_document(m.links[i].hash));
                let d = choose|d: int|
                    0 <= d < m.documents.len() && (#[trigger] m.documents[d]).hash == m.links[i].hash;
                assert(self@.documents[d].hash == m.links[i].hash);
                let t = choose|t: int| 0 <= t < m.tags.len() && (#[trigger] m.tags[t]).id == m.links[i].tag_id;
                assert(self@.tags[t].id == m.links[i].tag_id);
            }
            assert forall|i: int| 0 <= i < self@.statuses.len() implies self@.has_document(
                (#[trigger] self@.statuses[i]).hash,
            ) by {
                assert(m.has_document(m.statuses[i].hash));
                let d = choose|d: int|
                    0 <= d < m.documents.len() && (#[trigger] m.documents[d]).hash
                        == m.statuses[i].hash;
                assert(self@.documents[d].hash == m.statuses[i].hash);
            }
        }
        Ok(tag)
    }

    /// All tags, by name.
    pub fn list_tags(&self) -> (r: Result<Vec<Tag>, StoreError>)
        ensures
            r matches Ok(tags) && is_sorted_by_key::<Tag>(self@.tags, model::views(tags@)),
    {
        Ok(sort_rows(&self.tags))
    }

    /// Delete a tag and its associations.
    pub fn delete_tag(&mut self, tag_id: i64) -> (r: Result<(), StoreError>)
        requires
            old(self).wf(),
        ensures
            r is Ok,
            final(self).wf(),
            final(self)@ == old(self)@.without_tag(tag_id),
    {
        let ghost m = self@;
        let test = |t: &Tag| -> (b: bool)
            ensures
                b == (t.id != tag_id),
            { t.id != tag_id };
        let tags: Vec<Tag> = keep_rows(&self.tags, Ghost(|t: model::TagModel| t.id != tag_id), test);
        let test = |l: &DocumentTag| -> (b: bool)
            ensures
                b == (l.tag_id != tag_id),
            { l.tag_id != tag_id };
        let links: Vec<DocumentTag> = keep_rows(&self.links, Ghost(|l: model::LinkModel| l.tag_id != tag_id), test);
        self.tags = tags;
        self.links = links;
        proof {
            lemma_without_tag(m, tag_id);
            assert(self@ == m.without_tag(tag_id));
        }
        Ok(())
    }

    /// Give a document a tag. A tag that it has already is no error; a document
    /// or a tag that is not there is.
    pub fn assign_tag(&mut self, content_hash: &str, tag_id: i64) -> (r: Result<(), StoreError>)
        requires
            old(self).wf(),
        ensures
            final(self).wf(),
            match r {
                Ok(_) => old(self)@.has_document(content_hash@) && old(self)@.has_tag(tag_id)
                    && final(self)@ == old(self)@.with_link(content_hash@, tag_id),
                Err(e) => e == StoreError::ForeignKeyViolation && !(old(self)@.has_document(
                    content_hash@,
                ) && old(self)@.has_tag(tag_id)) && final(self)@ == old(self)@,
            },
    {
        let ghost m = self@;
        if !self.document_exists(content_hash) || !self.tag_exists(tag_id) {
            return Err(StoreError::ForeignKeyViolation);
        }
        if self.link_exists(content_hash, tag_id) {
            return Ok(());
        }
        self.links.push(DocumentTag { content_hash: text::copy_str(content_hash), tag_id: tag_id });
        proof {
            let link = model::LinkModel { hash: content_hash@, tag_id: tag_id };
            assert(self@.links =~= m.links.push(link));
            assert(self@ == m.with_link(content_hash@, tag_id));
            lemma_more_links(m, link);
        }
        Ok(())
    }

    /// Take a tag from a document.
    pub fn remove_tag(&mut self, content_hash: &str, tag_id: i64) -> (r: Result<(), StoreError>)
        requires
            old(self).wf(),
        ensures
            r is Ok,
            final(self).wf(),
            final(self)@ == old(self)@.without_link(content_hash@, tag_id),
    {
        let ghost m = self@;
        let ghost p = |l: model::LinkModel| !(l.hash == content_hash@ && l.tag_id == tag_id);
        let test = |l: &DocumentTag| -> (b: bool)
            ensures
                b == !(l.content_hash@ == content_hash@ && l.tag_id == tag_id),
            { !(l.tag_id == tag_id && text::same_text(l.content_hash.as_str(), content_hash)) };
        let links: Vec<DocumentTag> = keep_rows(&self.links, Ghost(p), test);
        self.links = links;
        proof {
            lemma_fewer_links(m, p);
            assert(self@ == m.without_link(content_hash@, tag_id));
        }
        Ok(())
    }

    /// The tags of a document, by name.
    pub fn get_tags_for_document(&self, content_hash: &str) -> (r: Result<Vec<Tag>, StoreError>)
        ensures
            r matches Ok(tags) && is_sorted_by_key::<Tag>(
                self@.tags_of(content_hash@),
                model::views(tags@),
            ),
    {
        Ok(self.sorted_tags_of(content_hash))
    }

    fn sorted_tags_of(&self, content_hash: &str) -> (tags: Vec<Tag>)
        ensures
            is_sorted_by_key::<Tag>(self@.tags_of(content_hash@), model::views(tags@)),
    {
        let ghost p = |t: model::TagModel| self@.has_link(content_hash@, t.id);
        let test = |t: &Tag| -> (b: bool)
            ensures
                b == self@.has_link(content_hash@, t.id),
            { self.link_exists(content_hash, t.id) };
        let tags: Vec<Tag> = keep_rows(&self.tags, Ghost(p), test);
        sort_rows(&tags)
    }

    /// Whether a document with this content hash is there.
    fn document_exists(&self, content_hash: &str) -> (r: bool)
        ensures
            r == self@.has_document(content_hash@),
    {
        let test = |d: &DocumentRow| -> (b: bool)
            ensures
                b == (d.content_hash@ == content_hash@),
            { text::same_text(d.content_hash.as_str(), content_hash) };
        let found: Option<usize> = find_row(&self.documents, Ghost(|d: model::DocumentModel| d.hash == content_hash@), test);
        match found {
            Some(i) => {
                assert(self@.documents[i as int].hash == content_hash@);
                true
            },
            None => false,
        }
    }

    fn tag_exists(&self, tag_id: i64) -> (r: bool)
        ensures
            r == self@.has_tag(tag_id),
    {
        let test = |t: &Tag| -> (b: bool)
            ensures
                b == (t.id == tag_id),
            { t.id == tag_id };
        let found: Option<usize> = find_row(&self.tags, Ghost(|t: model::TagModel| t.id == tag_id), test);
        match found {
            Some(i) => {
                assert(self@.tags[i as int].id == tag_id);
                true
            },
            None => false,
        }
    }

    fn link_exists(&self, content_hash: &str, tag_id: i64) -> (r: bool)
        ensures
            r == self@.has_link(content_hash@, tag_id),
    {
        let test = |l: &DocumentTag| -> (b: bool)
            ensures
                b == (l.content_hash@ == content_hash@ && l.tag_id == tag_id),
            { l.tag_id == tag_id && text::same_text(l.content_hash.as_str(), content_hash) };
        let found: Option<usize> = find_row(&self.links, Ghost(|l: model::LinkModel| l.hash == content_hash@ && l.tag_id == tag_id), test);
        match found {
            Some(i) => {
                assert(self@.links[i as int].hash == content_hash@);
                true
            },
            None => false,
        }
    }
}

/// One more association, between a document and a tag that are there, keeps the
/// rows valid.
proof fn lemma_more_links(m: StoreModel, link: model::LinkModel)
    requires
        m.wf(),
        m.has_document(link.hash),
        m.has_tag(link.tag_id),
        !m.has_link(link.hash, link.tag_id),
    ensures
        (StoreModel { links: m.links.push(link), ..m }).wf(),
{
    let after = StoreModel { links: m.links.push(link), ..m };
    assert forall|h: Seq<char>| #[trigger] m.has_document(h) implies after.has_document(h) by {
        let d = choose|d: int| 0 <= d < m.documents.len() && (#[trigger] m.documents[d]).hash == h;
        assert(after.documents[d].hash == h);
    }
    assert forall|i: i64| #[trigger] m.has_tag(i) implies after.has_tag(i) by {
        let t = choose|t: int| 0 <= t < m.tags.len() && (#[trigger] m.tags[t]).id == i;
        assert(after.tags[t].id == i);
    }
    assert forall|i: int| 0 <= i < after.links.len() implies after.has_document(
        (#[trigger] after.links[i]).hash,
    ) && after.has_tag(after.links[i].tag_id) by {
        if i < m.links.len() {
            assert(m.has_document(m.links[i].hash));
            assert(m.has_tag(m.links[i].tag_id));
        }
    }
    assert forall|i: int| 0 <= i < after.statuses.len() implies after.has_document(
        (#[trigger] after.statuses[i]).hash,
    ) by {
        assert(m.has_document(m.statuses[i].hash));
    }
}

// ── Documents ──

impl StoreModel {
    /// The store in which the document stands as `d`: in the place of the one
    /// with the same content hash, or at the end. Its tags and its status stay.
    pub open spec fn with_document(self, d: model::DocumentModel) -> StoreModel {
        StoreModel {
            documents: if self.has_document(d.hash) {
                self.documents.map_values(
                    |x: model::DocumentModel|
                        if x.hash == d.hash {
                            d
                        } else {
                            x
                        },
                )
            } else {
                self.documents.push(d)
            },
            ..self
        }
    }

    /// The store without the document, its tags and its status.
    pub open spec fn without_document(self, hash: Seq<char>) -> StoreModel {
        StoreModel {
            documents: self.documents.filter(|d: model::DocumentModel| d.hash != hash),
            links: self.links.filter(|l: model::LinkModel| l.hash != hash),
            statuses: self.statuses.filter(|s: model::StatusModel| s.hash != hash),
            ..self
        }
    }

    /// The document with this content hash stands at this path.
    pub open spec fn is_at_path(self, hash: Seq<char>, path: Seq<char>) -> bool {
        exists|i: int|
            0 <= i < self.documents.len() && (#[trigger] self.documents[i]).hash == hash
                && self.documents[i].path == path
    }

    /// The store without the documents at a path, their tags and their status.
    pub open spec fn without_path(self, path: Seq<char>) -> StoreModel {
        StoreModel {
            documents: self.documents.filter(|d: model::DocumentModel| d.path != path),
            links: self.links.filter(|l: model::LinkModel| !self.is_at_path(l.hash, path)),
            statuses: self.statuses.filter(|s: model::StatusModel| !self.is_at_path(s.hash, path)),
            ..self
        }
    }

    /// The store in which the document stands at another path.
    pub open spec fn with_path(self, hash: Seq<char>, path: Seq<char>) -> StoreModel {
        StoreModel {
            documents: self.documents.map_values(
                |x: model::DocumentModel|
                    if x.hash == hash {
                        model::DocumentModel { path: path, ..x }
                    } else {
                        x
                    },
            ),
            ..self
        }
    }

    /// The content hash of the first document at a path.
    pub open spec fn is_first_at_path(self, path: Seq<char>, i: int) -> bool {
        &&& 0 <= i < self.documents.len()
        &&& self.documents[i].path == path
        &&& forall|j: int| 0 <= j < i ==> (#[trigger] self.documents[j]).path != path
    }

    /// The document was tagged by the auto-tagger, or has a tag of its own.
    pub open spec fn is_tagged(self, hash: Seq<char>) -> bool {
        ||| exists|i: int|
            0 <= i < self.statuses.len() && (#[trigger] self.statuses[i]).hash == hash
                && self.statuses[i].status == "tagged"@
        ||| exists|i: int| 0 <= i < self.links.len() && (#[trigger] self.links[i]).hash == hash
    }

    /// What the file browser shows of a document.
    pub open spec fn info_of(self, d: model::DocumentModel) -> model::InfoModel {
        model::InfoModel {
            path: d.path,
            file_type: d.file_type,
            hash: d.hash,
            size: d.size as u64,
            modified: d.modified as u64,
            has_tags: self.is_tagged(d.hash),
        }
    }

    /// A document stands at this path with this size and modification time.
    pub open spec fn is_indexed_as(self, path: Seq<char>, size: i64, modified: i64) -> bool {
        exists|i: int|
            0 <= i < self.documents.len() && (#[trigger] self.documents[i]).path == path
                && self.documents[i].size == size && self.documents[i].modified == modified
    }
}

/// The row of a document that was indexed at `now`.
pub open spec fn document_model(
    hash: Seq<char>,
    path: Seq<char>,
    file_type: Seq<char>,
    size: i64,
    modified: i64,
    now: Seq<char>,
) -> model::DocumentModel {
    model::DocumentModel {
        hash: hash,
        path: path,
        file_type: file_type,
        size: size,
        modified: modified,
        indexed_at: now,
        last_error: None,
    }
}

/// Rows stay valid when associations and status rows go, and every document
/// that one of the rest refers to is still there.
proof fn lemma_rows_kept(
    m: StoreModel,
    after: StoreModel,
    p: spec_fn(model::LinkModel) -> bool,
    q: spec_fn(model::StatusModel) -> bool,
)
    requires
        m.wf(),
        after.tags == m.tags,
        after.cache == m.cache,
        after.links == m.links.filter(p),
        after.statuses == m.statuses.filter(q),
        after.documents_unique(),
        forall|h: Seq<char>, id: i64|
            m.has_document(h) && #[trigger] p(model::LinkModel { hash: h, tag_id: id })
                ==> after.has_document(h),
        forall|s: model::StatusModel|
            m.has_document(s.hash) && #[trigger] q(s) ==> after.has_document(s.hash),
    ensures
        after.wf(),
{
    let link_places = lemma_filter_places(m.links, p);
    let status_places = lemma_filter_places(m.statuses, q);
    assert forall|i: int, j: int| 0 <= i < j < after.links.len() implies (#[trigger] after.links[i])
        != (#[trigger] after.links[j]) by {
        assert(link_places[i] < link_places[j]);
    }
    assert forall|i: int| 0 <= i < after.links.len() implies after.has_document(
        (#[trigger] after.links[i]).hash,
    ) && after.has_tag(after.links[i].tag_id) by {
        let link = m.links[link_places[i]];
        assert(m.has_document(link.hash));
        assert(p(model::LinkModel { hash: link.hash, tag_id: link.tag_id }));
        let t = choose|t: int| 0 <= t < m.tags.len() && (#[trigger] m.tags[t]).id == link.tag_id;
        assert(after.tags[t].id == link.tag_id);
    }
    assert forall|i: int, j: int| 0 <= i < j < after.statuses.len() implies (
    #[trigger] after.statuses[i]).hash != (#[trigger] after.statuses[j]).hash by {
        assert(status_places[i] < status_places[j]);
    }
    assert forall|i: int| 0 <= i < after.statuses.len() implies after.has_document(
        (#[trigger] after.statuses[i]).hash,
    ) by {
        let s = m.statuses[status_places[i]];
        assert(m.has_document(s.hash));
        assert(q(s));
    }
}

/// Filtering with a test that always holds changes nothing.
proof fn lemma_filter_all<V>(s: Seq<V>, p: spec_fn(V) -> bool)
    requires
        forall|i: int| 0 <= i < s.len() ==> p(#[trigger] s[i]),
    ensures
        s.filter(p) == s,
    decreases s.len(),
{
    reveal(Seq::filter);
    if s.len() > 0 {
        assert forall|i: int| 0 <= i < s.drop_last().len() implies p(#[trigger] s.drop_last()[i]) by {
            assert(s.drop_last()[i] == s[i]);
        }
        lemma_filter_all(s.drop_last(), p);
        assert(s.drop_last().push(s.last()) =~= s);
    }
}

/// Putting a document in keeps the rows valid, and every document that was
/// there is there.
proof fn lemma_with_document(m: StoreModel, d: model::DocumentModel)
    requires
        m.wf(),
    ensures
        m.with_document(d).wf(),
        m.with_document(d).has_document(d.hash),
        forall|h: Seq<char>| #[trigger] m.has_document(h) ==> m.with_document(d).has_document(h),
{
    let after = m.with_document(d);
    assert forall|h: Seq<char>| #[trigger] m.has_document(h) implies after.has_document(h) by {
        let i = choose|i: int| 0 <= i < m.documents.len() && (#[trigger] m.documents[i]).hash == h;
        assert(after.documents[i].hash == h);
    }
    if m.has_document(d.hash) {
    } else {
        assert(after.documents[m.documents.len() as int].hash == d.hash);
    }
    lemma_filter_all(m.links, |l: model::LinkModel| true);
    lemma_filter_all(m.statuses, |s: model::StatusModel| true);
    lemma_rows_kept(m, after, |l: model::LinkModel| true, |s: model::StatusModel| true);
}

/// Another path for a document keeps the rows valid.
proof fn lemma_with_path(m: StoreModel, hash: Seq<char>, path: Seq<char>)
    requires
        m.wf(),
    ensures
        m.with_path(hash, path).wf(),
{
    let after = m.with_path(hash, path);
    assert forall|h: Seq<char>| #[trigger] m.has_document(h) implies after.has_document(h) by {
        let i = choose|i: int| 0 <= i < m.documents.len() && (#[trigger] m.documents[i]).hash == h;
        assert(after.documents[i].hash == h);
    }
    lemma_filter_all(m.links, |l: model::LinkModel| true);
    lemma_filter_all(m.statuses, |s: model::StatusModel| true);
    lemma_rows_kept(m, after, |l: model::LinkModel| true, |s: model::StatusModel| true);
}

/// Filtering documents keeps them unique, and keeps those for which the test
/// holds.
proof fn lemma_fewer_documents(
    m: StoreModel,
    after: StoreModel,
    p: spec_fn(model::DocumentModel) -> bool,
)
    requires
        m.wf(),
        after.documents == m.documents.filter(p),
    ensures
        after.documents_unique(),
        forall|i: int|
            0 <= i < m.documents.len() && p(#[trigger] m.documents[i]) ==> after.has_document(
                m.documents[i].hash,
            ),
{
    let places = lemma_filter_places(m.documents, p);
    assert forall|i: int, j: int| 0 <= i < j < after.documents.len() implies (
    #[trigger] after.documents[i]).hash != (#[trigger] after.documents[j]).hash by {
        assert(places[i] < places[j]);
    }
    assert forall|i: int| 0 <= i < m.documents.len() && p(#[trigger] m.documents[i]) implies after.has_document(
        m.documents[i].hash,
    ) by {
        assert(after.documents.contains(m.documents[i]));
        let k = choose|k: int| 0 <= k < after.documents.len() && after.documents[k] == m.documents[i];
        assert(after.documents[k].hash == m.documents[i].hash);
    }
}

/// Deleting a document keeps the rows valid.
proof fn lemma_without_document(m: StoreModel, hash: Seq<char>)
    requires
        m.wf(),
    ensures
        m.without_document(hash).wf(),
        !m.without_document(hash).has_document(hash),
{
    let after = m.without_document(hash);
    let p = |d: model::DocumentModel| d.hash != hash;
    lemma_fewer_documents(m, after, p);
    let places = lemma_filter_places(m.documents, p);
    assert forall|h: Seq<char>| #[trigger] m.has_document(h) && h != hash implies after.has_document(h) by {
        let i = choose|i: int| 0 <= i < m.documents.len() && (#[trigger] m.documents[i]).hash == h;
        assert(p(m.documents[i]));
    }
    lemma_rows_kept(
        m,
        after,
        |l: model::LinkModel| l.hash != hash,
        |s: model::StatusModel| s.hash != hash,
    );
}

/// Deleting the documents at a path keeps the rows valid.
proof fn lemma_without_path(m: StoreModel, path: Seq<char>)
    requires
        m.wf(),
    ensures
        m.without_path(path).wf(),
{
    let after = m.without_path(path);
    let p = |d: model::DocumentModel| d.path != path;
    lemma_fewer_documents(m, after, p);
    assert forall|h: Seq<char>| #[trigger] m.has_document(h) && !m.is_at_path(h, path) implies after.has_document(
        h,
    ) by {
        let i = choose|i: int| 0 <= i < m.documents.len() && (#[trigger] m.documents[i]).hash == h;
        assert(p(m.documents[i]));
    }
    lemma_rows_kept(
        m,
        after,
        |l: model::LinkModel| !m.is_at_path(l.hash, path),
        |s: model::StatusModel| !m.is_at_path(s.hash, path),
    );
}

/// What becomes of the rows in flight when the clock stands at so many seconds since the
/// start of 1970: those that were last written more than `minutes` before wait again, and
/// so many did. Where the calendar does not reach so far back, there are none. The times
/// in the rows are texts; those of four-digit years are in the order of the times.
pub open spec fn is_reset_at(
    m: StoreModel,
    minutes: u32,
    seconds: i64,
    after: StoreModel,
    count: usize,
) -> bool {
    let at = seconds - 60 * minutes;
    let cutoff = times::store_time(at as i64);
    let now = times::store_time(seconds);
    &&& 0 <= at <= times::LAST_SECOND ==> cutoff is Some && times::parts_times(
        at as i64,
        cutoff->0,
    )
    &&& if i64::MIN <= at && cutoff is Some && now is Some {
        after == m.with_stale_reset(cutoff->0, now->0) && count == m.count_stale(cutoff->0)
    } else {
        after == m && count == 0
    }
}

impl TagStore {
    fn find_document(&self, content_hash: &str) -> (r: Option<usize>)
        ensures
            match r {
                Some(i) => i < self.documents@.len() && self@.documents[i as int].hash
                    == content_hash@ && self@.has_document(content_hash@),
                None => !self@.has_document(content_hash@),
            },
    {
        let test = |d: &DocumentRow| -> (b: bool)
            ensures
                b == (d.content_hash@ == content_hash@),
            { text::same_text(d.content_hash.as_str(), content_hash) };
        let found: Option<usize> = find_row(
            &self.documents,
            Ghost(|d: model::DocumentModel| d.hash == content_hash@),
            test,
        );
        if let Some(i) = found {
            assert(self@.documents[i as int].hash == content_hash@);
        }
        found
    }

    /// Whether a document stands at this path with this size and modification
    /// time.
    pub fn already_indexed_by_metadata(&self, path: &str, size: u64, mtime: u64) -> (r: Result<
        bool,
        StoreError,
    >)
        ensures
            r == Ok::<bool, StoreError>(self@.is_indexed_as(path@, size as i64, mtime as i64)),
    {
        let want_size: i64 = #[verifier::truncate] (size as i64);
        let want_time: i64 = #[verifier::truncate] (mtime as i64);
        let test = |d: &DocumentRow| -> (b: bool)
            ensures
                b == (d.file_path@ == path@ && d.file_size == want_size && d.modified_ts
                    == want_time),
            {
                d.file_size == want_size && d.modified_ts == want_time && text::same_text(
                    d.file_path.as_str(),
                    path,
                )
            };
        let found: Option<usize> = find_row(
            &self.documents,
            Ghost(
                |d: model::DocumentModel|
                    d.path == path@ && d.size == want_size && d.modified == want_time,
            ),
            test,
        );
        if let Some(i) = found {
            assert(self@.documents[i as int].path == path@);
            return Ok(true);
        }
        Ok(false)
    }

    /// Whether a document with this content hash is there.
    pub fn already_indexed_by_hash(&self, content_hash: &str) -> (r: Result<bool, StoreError>)
        ensures
            r == Ok::<bool, StoreError>(self@.has_document(content_hash@)),
    {
        Ok(self.find_document(content_hash).is_some())
    }

    /// Move a document to another path.
    pub fn update_path(&mut self, content_hash: &str, new_path: &str) -> (r: Result<(), StoreError>)
        requires
            old(self).wf(),
        ensures
            r is Ok,
            final(self).wf(),
            final(self)@ == old(self)@.with_path(content_hash@, new_path@),
    {
        let ghost m = self@;
        proof {
            lemma_with_path(m, content_hash@, new_path@);
        }
        match self.find_document(content_hash) {
            Some(i) => {
                let mut row: DocumentRow = self.documents[i].duplicate();
                row.file_path = text::copy_str(new_path);
                self.documents.set(i, row);
                assert(self@.documents =~= m.with_path(content_hash@, new_path@).documents);
            },
            None => {
                assert forall|i: int| 0 <= i < m.documents.len() implies (
                #[trigger] m.documents[i]).hash != content_hash@ by {}
                assert(self@.documents =~= m.with_path(content_hash@, new_path@).documents);
            },
        }
        assert(self@ == m.with_path(content_hash@, new_path@));
        Ok(())
    }

    /// Insert or update a document that was indexed at `now`. The tags and the
    /// auto-tag status of a document that was there stay.
    pub fn upsert_document_at(
        &mut self,
        content_hash: &str,
        file_path: &str,
        file_type: &str,
        file_size: i64,
        modified_ts: i64,
        now: &str,
    )
        requires
            old(self).wf(),
        ensures
            final(self).wf(),
            final(self)@ == old(self)@.with_document(
                document_model(
                    content_hash@,
                    file_path@,
                    file_type@,
                    file_size,
                    modified_ts,
                    now@,
                ),
            ),
    {
        let ghost m = self@;
        let row = DocumentRow {
            content_hash: text::copy_str(content_hash),
            file_path: text::copy_str(file_path),
            file_type: text::copy_str(file_type),
            file_size: file_size,
            modified_ts: modified_ts,
            indexed_at: text::copy_str(now),
            last_error: None,
        };
        let ghost d = row@;
        proof {
            lemma_with_document(m, d);
        }
        match self.find_document(content_hash) {
            Some(i) => {
                self.documents.set(i, row);
            },
            None => {
                self.documents.push(row);
            },
        }
        assert(self@.documents =~= m.with_document(d).documents);
        assert(self@ == m.with_document(d));
    }

    /// Insert or update a document. The tags and the auto-tag status of a
    /// document that was there stay.
    pub fn upsert_document(
        &mut self,
        content_hash: &str,
        file_path: &str,
        file_type: &str,
        file_size: i64,
        modified_ts: i64,
    ) -> (r: Result<(), StoreError>)
        requires
            old(self).wf(),
        ensures
            r is Ok,
            final(self).wf(),
            exists|now: Seq<char>|
                times::is_store_time(now) && final(self)@ == old(self)@.with_document(
                    #[trigger] document_model(
                        content_hash@,
                        file_path@,
                        file_type@,
                        file_size,
                        modified_ts,
                        now,
                    ),
                ),
    {
        let now: String = times::current_time();
        self.upsert_document_at(
            content_hash,
            file_path,
            file_type,
            file_size,
            modified_ts,
            now.as_str(),
        );
        Ok(())
    }

    /// Delete the documents at a path, with their tags and status.
    pub fn delete_document_by_path(&mut self, path: &str) -> (r: Result<(), StoreError>)
        requires
            old(self).wf(),
        ensures
            r is Ok,
            final(self).wf(),
            final(self)@ == old(self)@.without_path(path@),
    {
        let ghost m = self@;
        let keep_document = |d: &DocumentRow| -> (b: bool)
            ensures
                b == (d.file_path@ != path@),
            { !text::same_text(d.file_path.as_str(), path) };
        let documents: Vec<DocumentRow> = keep_rows(
            &self.documents,
            Ghost(|d: model::DocumentModel| d.path != path@),
            keep_document,
        );
        let keep_link = |l: &DocumentTag| -> (b: bool)
            ensures
                b == !self@.is_at_path(l.content_hash@, path@),
            { !self.stands_at(l.content_hash.as_str(), path) };
        let links: Vec<DocumentTag> = keep_rows(
            &self.links,
            Ghost(|l: model::LinkModel| !m.is_at_path(l.hash, path@)),
            keep_link,
        );
        let keep_status = |s: &AutoTagStatus| -> (b: bool)
            ensures
                b == !self@.is_at_path(s.content_hash@, path@),
            { !self.stands_at(s.content_hash.as_str(), path) };
        let statuses: Vec<AutoTagStatus> = keep_rows(
            &self.statuses,
            Ghost(|s: model::StatusModel| !m.is_at_path(s.hash, path@)),
            keep_status,
        );
        self.documents = documents;
        self.links = links;
        self.statuses = statuses;
        proof {
            lemma_without_path(m, path@);
            assert(self@ == m.without_path(path@));
        }
        Ok(())
    }

    fn stands_at(&self, content_hash: &str, path: &str) -> (r: bool)
        ensures
            r == self@.is_at_path(content_hash@, path@),
    {
        let test = |d: &DocumentRow| -> (b: bool)
            ensures
                b == (d.content_hash@ == content_hash@ && d.file_path@ == path@),
            {
                text::same_text(d.content_hash.as_str(), content_hash) && text::same_text(
                    d.file_path.as_str(),
                    path,
                )
            };
        let found: Option<usize> = find_row(
            &self.documents,
            Ghost(|d: model::DocumentModel| d.hash == content_hash@ && d.path == path@),
            test,
        );
        if let Some(i) = found {
            assert(self@.documents[i as int].hash == content_hash@);
            return true;
        }
        false
    }

    /// Delete a document by content hash, with its tags and status.
    pub fn delete_document_by_hash(&mut self, content_hash: &str) -> (r: Result<(), StoreError>)
        requires
            old(self).wf(),
        ensures
            r is Ok,
            final(self).wf(),
            final(self)@ == old(self)@.without_document(content_hash@),
    {
        let ghost m = self@;
        let keep_document = |d: &DocumentRow| -> (b: bool)
            ensures
                b == (d.content_hash@ != content_hash@),
            { !text::same_text(d.content_hash.as_str(), content_hash) };
        let documents: Vec<DocumentRow> = keep_rows(
            &self.documents,
            Ghost(|d: model::DocumentModel| d.hash != content_hash@),
            keep_document,
        );
        let keep_link = |l: &DocumentTag| -> (b: bool)
            ensures
                b == (l.content_hash@ != content_hash@),
            { !text::same_text(l.content_hash.as_str(), content_hash) };
        let links: Vec<DocumentTag> = keep_rows(
            &self.links,
            Ghost(|l: model::LinkModel| l.hash != content_hash@),
            keep_link,
        );
        let keep_status = |s: &AutoTagStatus| -> (b: bool)
            ensures
                b == (s.content_hash@ != content_hash@),
            { !text::same_text(s.content_hash.as_str(), content_hash) };
        let statuses: Vec<AutoTagStatus> = keep_rows(
            &self.statuses,
            Ghost(|s: model::StatusModel| s.hash != content_hash@),
            keep_status,
        );
        self.documents = documents;
        self.links = links;
        self.statuses = statuses;
        proof {
            lemma_without_document(m, content_hash@);
            assert(self@ == m.without_document(content_hash@));
        }
        Ok(())
    }

    /// The content hash of the document at a path; of the first one, where
    /// several are there.
    pub fn get_hash_by_path(&self, path: &str) -> (r: Result<Option<String>, StoreError>)
        ensures
            match r {
                Ok(Some(hash)) => exists|i: int| #[trigger]
                    self@.is_first_at_path(path@, i) && hash@ == self@.documents[i].hash,
                Ok(None) => forall|i: int|
                    0 <= i < self@.documents.len() ==> (#[trigger] self@.documents[i]).path != path@,
                Err(_) => false,
            },
    {
        let test = |d: &DocumentRow| -> (b: bool)
            ensures
                b == (d.file_path@ == path@),
            { text::same_text(d.file_path.as_str(), path) };
        let found: Option<usize> = find_row(
            &self.documents,
            Ghost(|d: model::DocumentModel| d.path == path@),
            test,
        );
        match found {
            Some(i) => {
                assert(self@.is_first_at_path(path@, i as int));
                Ok(Some(text::copy_str(self.documents[i].content_hash.as_str())))
            },
            None => Ok(None),
        }
    }

    /// The path of a document.
    pub fn file_path_for_content_hash(&self, content_hash: &str) -> (r: Result<
        Option<String>,
        StoreError,
    >)
        ensures
            match r {
                Ok(Some(path)) => self@.is_at_path(content_hash@, path@),
                Ok(None) => !self@.has_document(content_hash@),
                Err(_) => false,
            },
    {
        match self.find_document(content_hash) {
            Some(i) => {
                assert(self@.documents[i as int].hash == content_hash@);
                Ok(Some(text::copy_str(self.documents[i].file_path.as_str())))
            },
            None => Ok(None),
        }
    }

    fn document_is_tagged(&self, content_hash: &str) -> (r: bool)
        ensures
            r == self@.is_tagged(content_hash@),
    {
        let status_test = |s: &AutoTagStatus| -> (b: bool)
            ensures
                b == (s.content_hash@ == content_hash@ && s.status@ == "tagged"@),
            {
                text::same_text(s.content_hash.as_str(), content_hash) && text::same_text(
                    s.status.as_str(),
                    "tagged",
                )
            };
        let by_status: Option<usize> = find_row(
            &self.statuses,
            Ghost(|s: model::StatusModel| s.hash == content_hash@ && s.status == "tagged"@),
            status_test,
        );
        if let Some(i) = by_status {
            assert(self@.statuses[i as int].hash == content_hash@);
            return true;
        }
        let link_test = |l: &DocumentTag| -> (b: bool)
            ensures
                b == (l.content_hash@ == content_hash@),
            { text::same_text(l.content_hash.as_str(), content_hash) };
        let by_link: Option<usize> = find_row(
            &self.links,
            Ghost(|l: model::LinkModel| l.hash == content_hash@),
            link_test,
        );
        if let Some(i) = by_link {
            assert(self@.links[i as int].hash == content_hash@);
            return true;
        }
        false
    }

    /// All documents for the file browser, by path.
    pub fn list_all_documents(&self) -> (r: Result<Vec<DocumentInfo>, StoreError>)
        ensures
            r matches Ok(docs) && is_sorted_by_key::<DocumentInfo>(
                self@.documents.map_values(|d: model::DocumentModel| self@.info_of(d)),
                model::views(docs@),
            ),
    {
        let mut docs: Vec<DocumentInfo> = Vec::new();
        let mut i: usize = 0;
        while i < self.documents.len()
            invariant
                i <= self.documents@.len(),
                docs@.len() == i,
                forall|k: int|
                    0 <= k < i ==> (#[trigger] docs@[k])@ == self@.info_of(self@.documents[k]),
            decreases self.documents@.len() - i,
        {
            let d: &DocumentRow = &self.documents[i];
            let tagged: bool = self.document_is_tagged(d.content_hash.as_str());
            docs.push(
                DocumentInfo {
                    file_path: text::copy_str(d.file_path.as_str()),
                    file_type: text::copy_str(d.file_type.as_str()),
                    content_hash: text::copy_str(d.content_hash.as_str()),
                    file_size: #[verifier::truncate] (d.file_size as u64),
                    modified_ts: #[verifier::truncate] (d.modified_ts as u64),
                    has_tags: tagged,
                },
            );
            assert(docs@[i as int]@ == self@.info_of(self@.documents[i as int]));
            i = i + 1;
        }
        assert(model::views(docs@) =~= self@.documents.map_values(
            |d: model::DocumentModel| self@.info_of(d),
        ));
        Ok(sort_rows(&docs))
    }

    /// Clear all documents and related data, for a switch of folders.
    pub fn clear_all_documents(&mut self) -> (r: Result<(), StoreError>)
        ensures
            r is Ok,
            final(self).wf(),
            final(self)@ == (StoreModel {
                documents: Seq::empty(),
                tags: Seq::empty(),
                links: Seq::empty(),
                statuses: Seq::empty(),
                cache: Seq::empty(),
            }),
    {
        *self = TagStore::new();
        Ok(())
    }
}

// ── Auto-tag status ──

/// The status row that an upsert at `now` writes.
pub open spec fn status_model(
    hash: Seq<char>,
    filename: Seq<char>,
    hash_before: Seq<char>,
    status: Seq<char>,
    tags_json: Option<Seq<char>>,
    last_error: Option<Seq<char>>,
    now: Seq<char>,
) -> model::StatusModel {
    model::StatusModel {
        hash: hash,
        filename: filename,
        hash_before: hash_before,
        status: status,
        tags_json: tags_json,
        attempts: 0,
        last_error: last_error,
        created_at: now,
        updated_at: now,
    }
}

/// A status row that was moved to another status at `now`.
pub open spec fn moved_to(s: model::StatusModel, status: Seq<char>, now: Seq<char>) -> model::StatusModel {
    model::StatusModel { status: status, last_error: None, updated_at: now, ..s }
}

impl StoreModel {
    /// The document has a status row.
    pub open spec fn has_status(self, hash: Seq<char>) -> bool {
        exists|i: int| 0 <= i < self.statuses.len() && (#[trigger] self.statuses[i]).hash == hash
    }

    /// The status row of a document.
    pub open spec fn status_of(self, hash: Seq<char>) -> Option<model::StatusModel> {
        if self.has_status(hash) {
            Some(
                self.statuses[choose|i: int|
                    0 <= i < self.statuses.len() && (#[trigger] self.statuses[i]).hash == hash],
            )
        } else {
            None
        }
    }

    /// The store in which `s` is the status row of its document.
    pub open spec fn with_status(self, s: model::StatusModel) -> StoreModel {
        StoreModel {
            statuses: self.statuses.filter(|x: model::StatusModel| x.hash != s.hash).push(s),
            ..self
        }
    }

    /// The rows that wait to be tagged.
    pub open spec fn pending(self) -> Seq<model::StatusModel> {
        self.statuses.filter(|s: model::StatusModel| s.status == "pending"@)
    }

    /// `rows` are the first `limit` rows that wait to be tagged, oldest first.
    pub open spec fn is_next_pending(self, limit: int, rows: Seq<model::StatusModel>) -> bool {
        exists|sorted: Seq<model::StatusModel>| #[trigger]
            is_sorted_by_key::<AutoTagStatus>(self.pending(), sorted) && rows == sorted.take(
                if limit < sorted.len() {
                    limit
                } else {
                    sorted.len() as int
                },
            )
    }

    /// The store in which the rows for which `p` holds are moved to `status`.
    pub open spec fn with_moved(
        self,
        p: spec_fn(model::StatusModel) -> bool,
        status: Seq<char>,
        now: Seq<char>,
    ) -> StoreModel {
        StoreModel {
            statuses: self.statuses.map_values(
                |s: model::StatusModel|
                    if p(s) {
                        moved_to(s, status, now)
                    } else {
                        s
                    },
            ),
            ..self
        }
    }

    /// The store in which the claimed rows are in flight.
    pub open spec fn with_claimed(
        self,
        claimed: Seq<model::StatusModel>,
        now: Seq<char>,
    ) -> StoreModel {
        self.with_moved(
            |s: model::StatusModel| names_hash(claimed, s.hash),
            "processing"@,
            now,
        )
    }

    /// The store in which the rows with `status` wait again.
    pub open spec fn with_reset(self, status: Seq<char>, now: Seq<char>) -> StoreModel {
        self.with_moved(|s: model::StatusModel| s.status == status, "pending"@, now)
    }

    /// The store in which the rows that have been in flight since before
    /// `cutoff` wait again.
    pub open spec fn with_stale_reset(self, cutoff: Seq<char>, now: Seq<char>) -> StoreModel {
        self.with_moved(
            |s: model::StatusModel|
                s.status == "processing"@ && text::text_less(s.updated_at, cutoff),
            "pending"@,
            now,
        )
    }

    /// How many rows have this status.
    pub open spec fn count_status(self, status: Seq<char>) -> nat {
        self.statuses.filter(|s: model::StatusModel| s.status == status).len()
    }

    /// How many rows have been in flight since before `cutoff`.
    pub open spec fn count_stale(self, cutoff: Seq<char>) -> nat {
        self.statuses.filter(
            |s: model::StatusModel|
                s.status == "processing"@ && text::text_less(s.updated_at, cutoff),
        ).len()
    }

    /// The rows of the live queue: waiting, in flight, or failed.
    pub open spec fn queued(self) -> Seq<model::StatusModel> {
        self.statuses.filter(
            |s: model::StatusModel|
                s.status == "pending"@ || s.status == "processing"@ || s.status == "failed"@,
        )
    }
}

/// The rows name one of these documents.
pub open spec fn names_hash(rows: Seq<model::StatusModel>, hash: Seq<char>) -> bool {
    exists|i: int| 0 <= i < rows.len() && (#[trigger] rows[i]).hash == hash
}

/// What the queue panel shows of a status row.
pub open spec fn queue_model(s: model::StatusModel) -> model::QueueModel {
    model::QueueModel {
        hash: s.hash,
        filename: s.filename,
        status: s.status,
        created_at: s.created_at,
        last_error: s.last_error,
    }
}

/// The status row of a document is the one at the place where it was found.
proof fn lemma_status_of(m: StoreModel, i: int)
    requires
        m.wf(),
        0 <= i < m.statuses.len(),
    ensures
        m.status_of(m.statuses[i].hash) == Some(m.statuses[i]),
{
    let hash = m.statuses[i].hash;
    assert(m.has_status(hash));
    let j = choose|j: int| 0 <= j < m.statuses.len() && (#[trigger] m.statuses[j]).hash == hash;
    if i < j {
        assert(m.statuses[i].hash != m.statuses[j].hash);
    } else if j < i {
        assert(m.statuses[j].hash != m.statuses[i].hash);
    }
}

/// The status of a document depends on the status rows alone.
pub proof fn same_rows_same_status(a: StoreModel, b: StoreModel, hash: Seq<char>)
    requires
        a.statuses == b.statuses,
    ensures
        a.status_of(hash) == b.status_of(hash),
{
    assert forall|i: int| (0 <= i < a.statuses.len() && (#[trigger] a.statuses[i]).hash == hash) == (0 <= i
        < b.statuses.len() && b.statuses[i].hash == hash) by {}
    if a.has_status(hash) {
        let i = choose|i: int| 0 <= i < a.statuses.len() && (#[trigger] a.statuses[i]).hash == hash;
        assert(b.statuses[i].hash == hash);
    }
    if b.has_status(hash) {
        let i = choose|i: int| 0 <= i < b.statuses.len() && (#[trigger] b.statuses[i]).hash == hash;
        assert(a.statuses[i].hash == hash);
    }
}

/// Writing a status row for a document that is there keeps the rows valid, and
/// it is the row that is found afterwards; every other row stays.
pub proof fn status_written_is_status_read(m: StoreModel, s: model::StatusModel)
    requires
        m.wf(),
        m.has_document(s.hash),
    ensures
        m.with_status(s).wf(),
        m.with_status(s).status_of(s.hash) == Some(s),
        forall|h: Seq<char>| h != s.hash ==> #[trigger] m.with_status(s).status_of(h) == m.status_of(h),
{
    let after = m.with_status(s);
    let p = |x: model::StatusModel| x.hash != s.hash;
    let places = lemma_filter_places(m.statuses, p);
    let n = places.len();
    assert(after.statuses[n as int] == s);
    assert forall|h: Seq<char>| #[trigger] m.has_document(h) implies after.has_document(h) by {
        let d = choose|d: int| 0 <= d < m.documents.len() && (#[trigger] m.documents[d]).hash == h;
        assert(after.documents[d].hash == h);
    }
    assert forall|i: i64| #[trigger] m.has_tag(i) implies after.has_tag(i) by {
        let t = choose|t: int| 0 <= t < m.tags.len() && (#[trigger] m.tags[t]).id == i;
        assert(after.tags[t].id == i);
    }
    assert forall|i: int| 0 <= i < after.links.len() implies after.has_document(
        (#[trigger] after.links[i]).hash,
    ) && after.has_tag(after.links[i].tag_id) by {
        assert(m.has_document(m.links[i].hash));
        assert(m.has_tag(m.links[i].tag_id));
    }
    assert forall|i: int, j: int| 0 <= i < j < after.statuses.len() implies (
    #[trigger] after.statuses[i]).hash != (#[trigger] after.statuses[j]).hash by {
        assert(after.statuses[i] == m.statuses[places[i]]);
        if j < n {
            assert(after.statuses[j] == m.statuses[places[j]]);
            assert(places[i] < places[j]);
        }
    }
    assert forall|i: int| 0 <= i < after.statuses.len() implies after.has_document(
        (#[trigger] after.statuses[i]).hash,
    ) by {
        if i < n {
            assert(after.statuses[i] == m.statuses[places[i]]);
            assert(m.has_document(m.statuses[places[i]].hash));
        }
    }
    assert(after.wf());
    lemma_status_of(after, n as int);
    assert forall|h: Seq<char>| h != s.hash implies #[trigger] after.status_of(h) == m.status_of(h) by {
        if m.has_status(h) {
            let i = choose|i: int| 0 <= i < m.statuses.len() && (#[trigger] m.statuses[i]).hash == h;
            lemma_status_of(m, i);
            assert(p(m.statuses[i]));
            assert(places.contains(i));
            let a = choose|a: int| 0 <= a < places.len() && places[a] == i;
            assert(after.statuses[a] == m.statuses[i]);
            lemma_status_of(after, a);
        } else if after.has_status(h) {
            let a = choose|a: int| 0 <= a < after.statuses.len() && (#[trigger] after.statuses[a]).hash == h;
            assert(a < n);
            assert(after.statuses[a] == m.statuses[places[a]]);
            assert(m.has_status(h));
        }
    }
}

/// Changing status rows without changing whose they are keeps the rows valid.
proof fn lemma_statuses_changed(m: StoreModel, after: StoreModel)
    requires
        m.wf(),
        after.documents == m.documents,
        after.tags == m.tags,
        after.links == m.links,
        after.cache == m.cache,
        after.statuses.len() == m.statuses.len(),
        forall|i: int|
            0 <= i < m.statuses.len() ==> (#[trigger] after.statuses[i]).hash == m.statuses[i].hash,
    ensures
        after.wf(),
{
    assert forall|h: Seq<char>| #[trigger] m.has_document(h) implies after.has_document(h) by {
        let d = choose|d: int| 0 <= d < m.documents.len() && (#[trigger] m.documents[d]).hash == h;
        assert(after.documents[d].hash == h);
    }
    assert forall|i: i64| #[trigger] m.has_tag(i) implies after.has_tag(i) by {
        let t = choose|t: int| 0 <= t < m.tags.len() && (#[trigger] m.tags[t]).id == i;
        assert(after.tags[t].id == i);
    }
    assert forall|i: int| 0 <= i < after.links.len() implies after.has_document(
        (#[trigger] after.links[i]).hash,
    ) && after.has_tag(after.links[i].tag_id) by {
        assert(m.has_document(m.links[i].hash));
        assert(m.has_tag(m.links[i].tag_id));
    }
    assert forall|i: int| 0 <= i < after.statuses.len() implies after.has_document(
        (#[trigger] after.statuses[i]).hash,
    ) by {
        assert(m.has_document(m.statuses[i].hash));
    }
}

impl TagStore {
    fn find_status(&self, content_hash: &str) -> (r: Option<usize>)
        ensures
            match r {
                Some(i) => i < self.statuses@.len() && self@.statuses[i as int].hash
                    == content_hash@ && self@.has_status(content_hash@),
                None => !self@.has_status(content_hash@),
            },
    {
        let test = |s: &AutoTagStatus| -> (b: bool)
            ensures
                b == (s.content_hash@ == content_hash@),
            { text::same_text(s.content_hash.as_str(), content_hash) };
        let found: Option<usize> = find_row(
            &self.statuses,
            Ghost(|s: model::StatusModel| s.hash == content_hash@),
            test,
        );
        if let Some(i) = found {
            assert(self@.statuses[i as int].hash == content_hash@);
        }
        found
    }

    /// Insert or replace the auto-tagging status of a document, at `now`.
    #[allow(clippy::too_many_arguments)]
    pub fn upsert_auto_tag_status_at(
        &mut self,
        content_hash: &str,
        filename: &str,
        content_hash_before_tag: &str,
        status: &str,
        tags_json: Option<&str>,
        last_error: Option<&str>,
        now: &str,
    ) -> (r: Result<(), StoreError>)
        requires
            old(self).wf(),
        ensures
            final(self).wf(),
            match r {
                Ok(_) => old(self)@.has_document(content_hash@) && final(self)@
                    == old(self)@.with_status(
                    status_model(
                        content_hash@,
                        filename@,
                        content_hash_before_tag@,
                        status@,
                        model::opt_str(tags_json),
                        model::opt_str(last_error),
                        now@,
                    ),
                ),
                Err(e) => e == StoreError::ForeignKeyViolation && !old(self)@.has_document(
                    content_hash@,
                ) && final(self)@ == old(self)@,
            },
    {
        let ghost m = self@;
        if !self.document_exists(content_hash) {
            return Err(StoreError::ForeignKeyViolation);
        }
        let row = AutoTagStatus {
            content_hash: text::copy_str(content_hash),
            filename: text::copy_str(filename),
            content_hash_before_tag: text::copy_str(content_hash_before_tag),
            status: text::copy_str(status),
            tags_json: model::own_opt(tags_json),
            attempts: 0,
            last_error: model::own_opt(last_error),
            created_at: text::copy_str(now),
            updated_at: text::copy_str(now),
        };
        let ghost s = row@;
        let keep = |x: &AutoTagStatus| -> (b: bool)
            ensures
                b == (x.content_hash@ != content_hash@),
            { !text::same_text(x.content_hash.as_str(), content_hash) };
        let mut statuses: Vec<AutoTagStatus> = keep_rows(
            &self.statuses,
            Ghost(|x: model::StatusModel| x.hash != content_hash@),
            keep,
        );
        let ghost kept = statuses@;
        statuses.push(row);
        self.statuses = statuses;
        proof {
            assert(model::views(self.statuses@) =~= model::views(kept).push(s));
            assert(m.with_status(s).statuses == m.statuses.filter(
                |x: model::StatusModel| x.hash != s.hash,
            ).push(s));
            assert(self@ == m.with_status(s));
            status_written_is_status_read(m, s);
        }
        Ok(())
    }

    /// Insert or replace the auto-tagging status of a document.
    pub fn upsert_auto_tag_status(
        &mut self,
        content_hash: &str,
        filename: &str,
        content_hash_before_tag: &str,
        status: &str,
        tags_json: Option<&str>,
        last_error: Option<&str>,
    ) -> (r: Result<(), StoreError>)
        requires
            old(self).wf(),
        ensures
            final(self).wf(),
            match r {
                Ok(_) => old(self)@.has_document(content_hash@) && exists|now: Seq<char>|
                    times::is_store_time(now) && final(self)@ == old(self)@.with_status(
                        #[trigger] status_model(
                            content_hash@,
                            filename@,
                            content_hash_before_tag@,
                            status@,
                            model::opt_str(tags_json),
                            model::opt_str(last_error),
                            now,
                        ),
                    ),
                Err(e) => e == StoreError::ForeignKeyViolation && !old(self)@.has_document(
                    content_hash@,
                ) && final(self)@ == old(self)@,
            },
    {
        let now: String = times::current_time();
        self.upsert_auto_tag_status_at(
            content_hash,
            filename,
            content_hash_before_tag,
            status,
            tags_json,
            last_error,
            now.as_str(),
        )
    }

    /// The auto-tagging status of a document.
    pub fn auto_tag_status(&self, content_hash: &str) -> (r: Result<
        Option<AutoTagStatus>,
        StoreError,
    >)
        requires
            self.wf(),
        ensures
            match r {
                Ok(Some(s)) => Some(s@) == self@.status_of(content_hash@),
                Ok(None) => self@.status_of(content_hash@) is None,
                Err(_) => false,
            },
    {
        match self.find_status(content_hash) {
            Some(i) => {
                proof {
                    lemma_status_of(self@, i as int);
                }
                Ok(Some(self.statuses[i].duplicate()))
            },
            None => Ok(None),
        }
    }

    /// The rows that wait to be tagged, oldest first, at most `limit` of them.
    pub fn pending_auto_tags(&self, limit: usize) -> (r: Result<Vec<AutoTagStatus>, StoreError>)
        ensures
            r matches Ok(rows) && self@.is_next_pending(limit as int, model::views(rows@)),
    {
        let test = |s: &AutoTagStatus| -> (b: bool)
            ensures
                b == (s.status@ == "pending"@),
            { text::same_text(s.status.as_str(), "pending") };
        let waiting: Vec<AutoTagStatus> = keep_rows(
            &self.statuses,
            Ghost(|s: model::StatusModel| s.status == "pending"@),
            test,
        );
        let mut rows: Vec<AutoTagStatus> = sort_rows(&waiting);
        let ghost sorted = model::views(rows@);
        assert(model::views(waiting@) == self@.pending());
        assert(is_sorted_by_key::<AutoTagStatus>(self@.pending(), sorted));
        if limit < rows.len() {
            rows.truncate(limit);
            assert(model::views(rows@) =~= sorted.take(limit as int));
        } else {
            assert(model::views(rows@) =~= sorted.take(sorted.len() as int));
        }
        Ok(rows)
    }

    /// Moves the rows for which `test` holds to `status`, and counts them.
    fn move_statuses<F: Fn(&AutoTagStatus) -> bool>(
        &mut self,
        Ghost(p): Ghost<spec_fn(model::StatusModel) -> bool>,
        test: F,
        status: &str,
        now: &str,
    ) -> (count: usize)
        requires
            old(self).wf(),
            forall|s: AutoTagStatus| #[trigger] call_requires(test, (&s,)),
            forall|s: AutoTagStatus, b: bool| #[trigger]
                call_ensures(test, (&s,), b) ==> b == p(s@),
        ensures
            final(self).wf(),
            final(self)@ == old(self)@.with_moved(p, status@, now@),
            count == old(self)@.statuses.filter(p).len(),
    {
        let ghost m = self@;
        let mut count: usize = 0;
        let mut i: usize = 0;
        proof {
            reveal(Seq::filter);
            assert(m.statuses.take(0) =~= Seq::<model::StatusModel>::empty());
        }
        while i < self.statuses.len()
            invariant
                i <= self.statuses@.len(),
                count <= i,
                count == m.statuses.take(i as int).filter(p).len(),
                forall|s: AutoTagStatus| #[trigger] call_requires(test, (&s,)),
                forall|s: AutoTagStatus, b: bool| #[trigger]
                    call_ensures(test, (&s,), b) ==> b == p(s@),
                self@.documents == m.documents,
                self@.tags == m.tags,
                self@.links == m.links,
                self@.cache == m.cache,
                self@.statuses.len() == m.statuses.len(),
                forall|k: int|
                    0 <= k < i ==> #[trigger] self@.statuses[k] == m.with_moved(
                        p,
                        status@,
                        now@,
                    ).statuses[k],
                forall|k: int|
                    i <= k < m.statuses.len() ==> #[trigger] self@.statuses[k] == m.statuses[k],
            decreases self.statuses@.len() - i,
        {
            proof {
                reveal(Seq::filter);
                assert(m.statuses.take(i + 1).drop_last() =~= m.statuses.take(i as int));
                assert(self@.statuses[i as int] == m.statuses[i as int]);
            }
            if test(&self.statuses[i]) {
                let mut row: AutoTagStatus = self.statuses[i].duplicate();
                row.status = text::copy_str(status);
                row.last_error = None;
                row.updated_at = text::copy_str(now);
                let ghost before = self@.statuses;
                self.statuses.set(i, row);
                count = count + 1;
                assert(self@.statuses =~= before.update(i as int, moved_to(m.statuses[i as int], status@, now@)));
            }
            i = i + 1;
        }
        proof {
            assert(m.statuses.take(m.statuses.len() as int) =~= m.statuses);
            assert(self@.statuses =~= m.with_moved(p, status@, now@).statuses);
            assert(self@ == m.with_moved(p, status@, now@));
            lemma_statuses_changed(m, self@);
        }
        count
    }

    /// Take the oldest waiting rows, at most `limit` of them, and mark them as
    /// in flight at `now`. The rows that come back are the marked ones.
    pub fn claim_pending_auto_tags_at(&mut self, limit: usize, now: &str) -> (r: Vec<AutoTagStatus>)
        requires
            old(self).wf(),
        ensures
            final(self).wf(),
            exists|claimed: Seq<model::StatusModel>|
                {
                    &&& #[trigger] old(self)@.is_next_pending(limit as int, claimed)
                    &&& model::views(r@) == claimed.map_values(
                        |s: model::StatusModel| moved_to(s, "processing"@, now@),
                    )
                    &&& final(self)@ == old(self)@.with_claimed(claimed, now@)
                },
    {
        let ghost m = self@;
        let rows: Vec<AutoTagStatus> = match self.pending_auto_tags(limit) {
            Ok(rows) => rows,
            Err(_) => Vec::new(),
        };
        let ghost claimed = model::views(rows@);
        let test = |s: &AutoTagStatus| -> (b: bool)
            ensures
                b == names_hash(model::views(rows@), s.content_hash@),
            { rows_name_hash(&rows, s.content_hash.as_str()) };
        let _count: usize = self.move_statuses(
            Ghost(|s: model::StatusModel| names_hash(claimed, s.hash)),
            test,
            "processing",
            now,
        );
        let mut r: Vec<AutoTagStatus> = Vec::new();
        let mut i: usize = 0;
        while i < rows.len()
            invariant
                i <= rows@.len(),
                r@.len() == i,
                forall|k: int|
                    0 <= k < i ==> (#[trigger] r@[k])@ == moved_to(rows@[k]@, "processing"@, now@),
            decreases rows@.len() - i,
        {
            let mut row: AutoTagStatus = rows[i].duplicate();
            row.status = text::copy_str("processing");
            row.last_error = None;
            row.updated_at = text::copy_str(now);
            r.push(row);
            i = i + 1;
        }
        proof {
            assert(model::views(r@) =~= claimed.map_values(
                |s: model::StatusModel| moved_to(s, "processing"@, now@),
            ));
            assert(m.is_next_pending(limit as int, claimed));
        }
        r
    }

    /// Take the oldest waiting rows, at most `limit` of them, and mark them as
    /// in flight. No other claim gets the same rows while they are.
    pub fn claim_pending_auto_tags(&mut self, limit: usize) -> (r: Result<
        Vec<AutoTagStatus>,
        StoreError,
    >)
        requires
            old(self).wf(),
        ensures
            final(self).wf(),
            r matches Ok(rows) && exists|claimed: Seq<model::StatusModel>, now: Seq<char>|
                {
                    &&& times::is_store_time(now)
                    &&& #[trigger] old(self)@.is_next_pending(limit as int, claimed)
                    &&& model::views(rows@) == claimed.map_values(
                        |s: model::StatusModel| moved_to(s, "processing"@, now),
                    )
                    &&& final(self)@ == #[trigger] old(self)@.with_claimed(claimed, now)
                },
    {
        let now: String = times::current_time();
        let rows: Vec<AutoTagStatus> = self.claim_pending_auto_tags_at(limit, now.as_str());
        Ok(rows)
    }

    /// Put rows that are in flight back to waiting, at `now`.
    pub fn reset_stale_processing_at(&mut self, now: &str) -> (count: usize)
        requires
            old(self).wf(),
        ensures
            final(self).wf(),
            final(self)@ == old(self)@.with_reset("processing"@, now@),
            count == old(self)@.count_status("processing"@),
    {
        let test = |s: &AutoTagStatus| -> (b: bool)
            ensures
                b == (s.status@ == "processing"@),
            { text::same_text(s.status.as_str(), "processing") };
        self.move_statuses(
            Ghost(|s: model::StatusModel| s.status == "processing"@),
            test,
            "pending",
            now,
        )
    }

    /// Put rows that a crashed session left in flight back to waiting.
    pub fn reset_stale_processing(&mut self) -> (r: Result<usize, StoreError>)
        requires
            old(self).wf(),
        ensures
            final(self).wf(),
            exists|now: Seq<char>|
                times::is_store_time(now) && final(self)@ == #[trigger] old(self)@.with_reset(
                    "processing"@,
                    now,
                ),
            r matches Ok(count) && count == old(self)@.count_status("processing"@),
    {
        let now: String = times::current_time();
        Ok(self.reset_stale_processing_at(now.as_str()))
    }

    /// Put rows that have been in flight since before `cutoff` back to waiting,
    /// at `now`.
    pub fn reset_stale_processing_before(&mut self, cutoff: &str, now: &str) -> (count: usize)
        requires
            old(self).wf(),
        ensures
            final(self).wf(),
            final(self)@ == old(self)@.with_stale_reset(cutoff@, now@),
            count == old(self)@.count_stale(cutoff@),
    {
        let test = |s: &AutoTagStatus| -> (b: bool)
            ensures
                b == (s.status@ == "processing"@ && text::text_less(s.updated_at@, cutoff@)),
            {
                text::same_text(s.status.as_str(), "processing") && text::less_text(
                    s.updated_at.as_str(),
                    cutoff,
                )
            };
        self.move_statuses(
            Ghost(
                |s: model::StatusModel|
                    s.status == "processing"@ && text::text_less(s.updated_at, cutoff@),
            ),
            test,
            "pending",
            now,
        )
    }

    /// Put rows that have been in flight for more than `minutes` back to waiting, when the
    /// clock stands at so many seconds since the start of 1970. Where the calendar does
    /// not reach so far back, no row can have been.
    pub fn reset_stale_processing_at_seconds(&mut self, minutes: u32, seconds: i64) -> (count: usize)
        requires
            old(self).wf(),
        ensures
            final(self).wf(),
            is_reset_at(old(self)@, minutes, seconds, final(self)@, count),
    {
        let back: i64 = 60 * (minutes as i64);
        let at: i64 = match seconds.checked_sub(back) {
            Some(at) => at,
            None => return 0,
        };
        match (
            times::format_time(at, 0, times::STORE_PATTERN),
            times::format_time(seconds, 0, times::STORE_PATTERN),
        ) {
            (Some(cutoff), Some(now)) => {
                assert(times::store_time(at) == Some(cutoff@));
                assert(times::store_time(seconds) == Some(now@));
                self.reset_stale_processing_before(cutoff.as_str(), now.as_str())
            },
            _ => 0,
        }
    }

    /// Put rows that have been in flight for more than `minutes` back to waiting. The
    /// clock decides which ones those are.
    pub fn reset_stale_processing_older_than(&mut self, minutes: u32) -> (r: Result<
        usize,
        StoreError,
    >)
        requires
            old(self).wf(),
        ensures
            final(self).wf(),
            r is Ok,
            exists|seconds: i64|
                times::store_time(seconds) is Some && #[trigger] is_reset_at(
                    old(self)@,
                    minutes,
                    seconds,
                    final(self)@,
                    r->Ok_0,
                ),
    {
        let seconds: i64 = times::clock_seconds();
        assert(times::store_time(seconds) is Some);
        let count: usize = self.reset_stale_processing_at_seconds(minutes, seconds);
        let r: Result<usize, StoreError> = Ok(count);
        assert(is_reset_at(old(self)@, minutes, seconds, self@, r->Ok_0));
        r
    }

    /// Put failed rows back to waiting, at `now`.
    pub fn reset_failed_auto_tags_at(&mut self, now: &str) -> (count: usize)
        requires
            old(self).wf(),
        ensures
            final(self).wf(),
            final(self)@ == old(self)@.with_reset("failed"@, now@),
            count == old(self)@.count_status("failed"@),
    {
        let test = |s: &AutoTagStatus| -> (b: bool)
            ensures
                b == (s.status@ == "failed"@),
            { text::same_text(s.status.as_str(), "failed") };
        self.move_statuses(
            Ghost(|s: model::StatusModel| s.status == "failed"@),
            test,
            "pending",
            now,
        )
    }

    /// Put rows that a transient provider error left failed back to waiting.
    pub fn reset_failed_auto_tags(&mut self) -> (r: Result<usize, StoreError>)
        requires
            old(self).wf(),
        ensures
            final(self).wf(),
            exists|now: Seq<char>|
                times::is_store_time(now) && final(self)@ == #[trigger] old(self)@.with_reset(
                    "failed"@,
                    now,
                ),
            r matches Ok(count) && count == old(self)@.count_status("failed"@),
    {
        let now: String = times::current_time();
        Ok(self.reset_failed_auto_tags_at(now.as_str()))
    }

    /// The live queue: rows that wait, are in flight, or failed, oldest first.
    pub fn list_auto_tag_queue(&self) -> (r: Result<Vec<AutoTagQueueItem>, StoreError>)
        ensures
            r matches Ok(items) && exists|sorted: Seq<model::StatusModel>| #[trigger]
                is_sorted_by_key::<AutoTagStatus>(self@.queued(), sorted) && model::views(items@)
                    == sorted.map_values(|s: model::StatusModel| queue_model(s)),
    {
        let test = |s: &AutoTagStatus| -> (b: bool)
            ensures
                b == (s.status@ == "pending"@ || s.status@ == "processing"@ || s.status@
                    == "failed"@),
            {
                text::same_text(s.status.as_str(), "pending") || text::same_text(
                    s.status.as_str(),
                    "processing",
                ) || text::same_text(s.status.as_str(), "failed")
            };
        let queued: Vec<AutoTagStatus> = keep_rows(
            &self.statuses,
            Ghost(
                |s: model::StatusModel|
                    s.status == "pending"@ || s.status == "processing"@ || s.status == "failed"@,
            ),
            test,
        );
        let rows: Vec<AutoTagStatus> = sort_rows(&queued);
        assert(model::views(queued@) == self@.queued());
        assert(is_sorted_by_key::<AutoTagStatus>(self@.queued(), model::views(rows@)));
        let mut items: Vec<AutoTagQueueItem> = Vec::new();
        let mut i: usize = 0;
        while i < rows.len()
            invariant
                i <= rows@.len(),
                items@.len() == i,
                forall|k: int| 0 <= k < i ==> (#[trigger] items@[k])@ == queue_model(rows@[k]@),
            decreases rows@.len() - i,
        {
            let row: &AutoTagStatus = &rows[i];
            items.push(
                AutoTagQueueItem {
                    content_hash: text::copy_str(row.content_hash.as_str()),
                    filename: text::copy_str(row.filename.as_str()),
                    status: text::copy_str(row.status.as_str()),
                    created_at: text::copy_str(row.created_at.as_str()),
                    last_error: model::copy_opt(&row.last_error),
                },
            );
            i = i + 1;
        }
        assert(model::views(items@) =~= model::views(rows@).map_values(
            |s: model::StatusModel| queue_model(s),
        ));
        Ok(items)
    }
}

/// Whether the rows name the document.
fn rows_name_hash(rows: &Vec<AutoTagStatus>, content_hash: &str) -> (r: bool)
    ensures
        r == names_hash(model::views(rows@), content_hash@),
{
    let test = |s: &AutoTagStatus| -> (b: bool)
        ensures
            b == (s.content_hash@ == content_hash@),
        { text::same_text(s.content_hash.as_str(), content_hash) };
    let found: Option<usize> = find_row(
        rows,
        Ghost(|s: model::StatusModel| s.hash == content_hash@),
        test,
    );
    if let Some(i) = found {
        assert(model::views(rows@)[i as int].hash == content_hash@);
        return true;
    }
    false
}

// ── Dismissing a tag ──

/// The text of kept tags once `tag` is dismissed; a text that is not JSON stays.
pub open spec fn dismissed_text(text: Seq<char>, tag: Seq<char>) -> Seq<char> {
    match json::json_parse(text) {
        Some(v) => json::json_render(tag_json::without_tag_name(v, tag)),
        None => text,
    }
}

/// The row keeps tags that can be read.
pub open spec fn keeps_tags(s: model::StatusModel) -> bool {
    s.tags_json is Some && json::json_parse(s.tags_json->0) is Some
}

impl StoreModel {
    /// The store in which `tag` is no longer among the auto-tags of the document.
    pub open spec fn with_dismissed(
        self,
        hash: Seq<char>,
        tag: Seq<char>,
        now: Seq<char>,
    ) -> StoreModel {
        StoreModel {
            statuses: self.statuses.map_values(
                |s: model::StatusModel|
                    if s.hash == hash && keeps_tags(s) {
                        model::StatusModel {
                            tags_json: Some(dismissed_text(s.tags_json->0, tag)),
                            updated_at: now,
                            ..s
                        }
                    } else {
                        s
                    },
            ),
            ..self
        }
    }
}

impl TagStore {
    /// Remove a tag from the auto-tags of a document, at `now`.
    pub fn dismiss_auto_tag_at(&mut self, content_hash: &str, tag_name: &str, now: &str)
        requires
            old(self).wf(),
        ensures
            final(self).wf(),
            final(self)@ == old(self)@.with_dismissed(content_hash@, tag_name@, now@),
    {
        let ghost m = self@;
        let ghost after = m.with_dismissed(content_hash@, tag_name@, now@);
        proof {
            lemma_statuses_changed(m, after);
        }
        if let Some(i) = self.find_status(content_hash) {
            assert(m.statuses[i as int].hash == content_hash@);
            let mut row: AutoTagStatus = self.statuses[i].duplicate();
            let parsed: Option<serde_json::Value> = match &row.tags_json {
                Some(json_text) => match json::parse_json(json_text.as_str()) {
                    Ok(v) => Some(v),
                    Err(_) => None,
                },
                None => None,
            };
            if let Some(v) = parsed {
                let updated: serde_json::Value = tag_json::drop_tag(&v, tag_name);
                row.tags_json = Some(json::render_json(&updated));
                row.updated_at = text::copy_str(now);
                self.statuses.set(i, row);
            }
        }
        assert(self@.statuses =~= after.statuses);
        assert(self@ == after);
    }

    /// Remove a tag from the auto-tags of a document.
    pub fn dismiss_auto_tag(&mut self, content_hash: &str, tag_name: &str) -> (r: Result<
        (),
        StoreError,
    >)
        requires
            old(self).wf(),
        ensures
            r is Ok,
            final(self).wf(),
            exists|now: Seq<char>|
                times::is_store_time(now) && final(self)@ == #[trigger] old(self)@.with_dismissed(
                    content_hash@,
                    tag_name@,
                    now,
                ),
    {
        let now: String = times::current_time();
        self.dismiss_auto_tag_at(content_hash, tag_name, now.as_str());
        Ok(())
    }
}

// ── Token cache ──

/// How many words of the cached tokens are among `tokens`.
pub open spec fn overlap(cached: Seq<char>, tokens: Seq<Seq<char>>) -> nat {
    text::words(cached).filter(|w: Seq<char>| tokens.contains(w)).len()
}

/// The entry shares a token with `tokens`, and at least `num` in `den` of them.
pub open spec fn qualifies(
    e: model::CacheModel,
    tokens: Seq<Seq<char>>,
    num: int,
    den: int,
) -> bool {
    &&& overlap(e.tokens, tokens) > 0
    &&& overlap(e.tokens, tokens) * den >= num * tokens.len()
}

/// Entry `i` is looked at before entry `j`: it has more hits, or as many and
/// stands first.
pub open spec fn ranks_before(cache: Seq<model::CacheModel>, i: int, j: int) -> bool {
    cache[i].hits > cache[j].hits || (cache[i].hits == cache[j].hits && i < j)
}

/// How many of the first `n` entries are looked at before entry `j`.
pub open spec fn rank(cache: Seq<model::CacheModel>, j: int, n: int) -> nat
    decreases n,
{
    if n <= 0 {
        0
    } else {
        rank(cache, j, n - 1) + if ranks_before(cache, n - 1, j) {
            1nat
        } else {
            0nat
        }
    }
}

/// Entry `i` is the first one that qualifies.
pub open spec fn is_best_entry(
    cache: Seq<model::CacheModel>,
    tokens: Seq<Seq<char>>,
    num: int,
    den: int,
    i: int,
) -> bool {
    &&& 0 <= i < cache.len()
    &&& qualifies(cache[i], tokens, num, den)
    &&& forall|j: int|
        0 <= j < cache.len() && qualifies(#[trigger] cache[j], tokens, num, den) && j != i
            ==> ranks_before(cache, i, j)
}

impl StoreModel {
    /// The cache holds an entry for these tokens.
    pub open spec fn has_tokens(self, tokens: Seq<char>) -> bool {
        exists|i: int| 0 <= i < self.cache.len() && (#[trigger] self.cache[i]).tokens == tokens
    }

    /// The store with the tags for these tokens: one more hit for an entry that
    /// is there, or a new entry.
    pub open spec fn with_cache_entry(
        self,
        tokens: Seq<char>,
        tags_json: Seq<char>,
        source_hash: Seq<char>,
        now: Seq<char>,
    ) -> StoreModel {
        StoreModel {
            cache: if self.has_tokens(tokens) {
                self.cache.map_values(
                    |e: model::CacheModel|
                        if e.tokens == tokens {
                            model::CacheModel {
                                tags_json: tags_json,
                                hits: if e.hits < i64::MAX {
                                    (e.hits + 1) as i64
                                } else {
                                    e.hits
                                },
                                updated_at: now,
                                ..e
                            }
                        } else {
                            e
                        },
                )
            } else {
                self.cache.push(
                    model::CacheModel {
                        tokens: tokens,
                        tags_json: tags_json,
                        source_hash: source_hash,
                        hits: 1,
                        created_at: now,
                        updated_at: now,
                    },
                )
            },
            ..self
        }
    }
}

/// How many entries a lookup looks at.
pub const CACHE_LOOKUP_LIMIT: usize = 200;

/// Changing the cache alone keeps the other rows valid.
proof fn lemma_cache_changed(m: StoreModel, after: StoreModel)
    requires
        m.wf(),
        after.documents == m.documents,
        after.tags == m.tags,
        after.links == m.links,
        after.statuses == m.statuses,
        after.cache_unique(),
    ensures
        after.wf(),
{
    assert forall|h: Seq<char>| #[trigger] m.has_document(h) implies after.has_document(h) by {
        let d = choose|d: int| 0 <= d < m.documents.len() && (#[trigger] m.documents[d]).hash == h;
        assert(after.documents[d].hash == h);
    }
    assert forall|i: i64| #[trigger] m.has_tag(i) implies after.has_tag(i) by {
        let t = choose|t: int| 0 <= t < m.tags.len() && (#[trigger] m.tags[t]).id == i;
        assert(after.tags[t].id == i);
    }
    assert forall|i: int| 0 <= i < after.links.len() implies after.has_document(
        (#[trigger] after.links[i]).hash,
    ) && after.has_tag(after.links[i].tag_id) by {
        assert(m.has_document(m.links[i].hash));
        assert(m.has_tag(m.links[i].tag_id));
    }
    assert forall|i: int| 0 <= i < after.statuses.len() implies after.has_document(
        (#[trigger] after.statuses[i]).hash,
    ) by {
        assert(m.has_document(m.statuses[i].hash));
    }
}

/// How many words of the cached tokens are among `tokens`.
fn count_overlap(cached: &str, tokens: &[String]) -> (n: usize)
    ensures
        n == overlap(cached@, text::texts(tokens@)),
{
    let words: Vec<String> = text::split_words(cached);
    let ghost all = text::texts(words@);
    let ghost p = |w: Seq<char>| text::texts(tokens@).contains(w);
    let mut n: usize = 0;
    let mut i: usize = 0;
    proof {
        reveal(Seq::filter);
        assert(all.take(0) =~= Seq::<Seq<char>>::empty());
    }
    while i < words.len()
        invariant
            n <= i <= words@.len(),
            all == text::texts(words@),
            p == (|w: Seq<char>| text::texts(tokens@).contains(w)),
            n == all.take(i as int).filter(p).len(),
        decreases words@.len() - i,
    {
        proof {
            reveal(Seq::filter);
            assert(all.take(i + 1).drop_last() =~= all.take(i as int));
            assert(all.take(i + 1).last() == words@[i as int]@);
        }
        if text::contains_text(tokens, words[i].as_str()) {
            n = n + 1;
        }
        i = i + 1;
    }
    assert(all.take(all.len() as int) =~= all);
    n
}

impl TagStore {
    fn entry_qualifies(&self, i: usize, tokens: &[String], num: u64, den: u64) -> (r: bool)
        requires
            i < self.cache@.len(),
        ensures
            r == qualifies(self@.cache[i as int], text::texts(tokens@), num as int, den as int),
    {
        let n: usize = count_overlap(self.cache[i].filename_tokens.as_str(), tokens);
        let shared: u128 = n as u128;
        let wanted: u128 = tokens.len() as u128;
        assert(shared * (den as u128) <= u128::MAX && (num as u128) * wanted <= u128::MAX)
            by (nonlinear_arith)
            requires
                shared <= u64::MAX,
                wanted <= u64::MAX,
                den <= u64::MAX,
                num <= u64::MAX,
        ;
        n > 0 && shared * (den as u128) >= (num as u128) * wanted
    }

    /// Look up cached tags by file-name tokens. Of the entries with the most
    /// hits, the first is taken that shares at least `num` in `den` of the
    /// tokens.
    pub fn lookup_cache_by_tokens(&self, tokens: &[String], num: u64, den: u64) -> (r: Result<
        Option<String>,
        StoreError,
    >)
        ensures
            match r {
                Ok(Some(tags_json)) => tokens@.len() > 0 && exists|i: int| #[trigger]
                    is_best_entry(self@.cache, text::texts(tokens@), num as int, den as int, i)
                        && rank(self@.cache, i, self@.cache.len() as int) < CACHE_LOOKUP_LIMIT
                        && tags_json@ == self@.cache[i].tags_json,
                Ok(None) => tokens@.len() == 0 || forall|i: int| #[trigger]
                    is_best_entry(self@.cache, text::texts(tokens@), num as int, den as int, i)
                        ==> rank(self@.cache, i, self@.cache.len() as int) >= CACHE_LOOKUP_LIMIT,
                Err(_) => false,
            },
    {
        if tokens.len() == 0 {
            return Ok(None);
        }
        let ghost cache = self@.cache;
        let ghost wanted = text::texts(tokens@);
        let mut best: Option<usize> = None;
        let mut i: usize = 0;
        while i < self.cache.len()
            invariant
                i <= self.cache@.len(),
                cache == self@.cache,
                wanted == text::texts(tokens@),
                match best {
                    Some(b) => b < i && qualifies(cache[b as int], wanted, num as int, den as int)
                        && forall|j: int|
                        0 <= j < i && qualifies(#[trigger] cache[j], wanted, num as int, den as int)
                            && j != b ==> ranks_before(cache, b as int, j),
                    None => forall|j: int|
                        0 <= j < i ==> !qualifies(#[trigger] cache[j], wanted, num as int, den as int),
                },
            decreases self.cache@.len() - i,
        {
            assert(cache[i as int] == self.cache@[i as int]@);
            if self.entry_qualifies(i, tokens, num, den) {
                best = match best {
                    Some(b) => {
                        assert(cache[b as int] == self.cache@[b as int]@);
                        if self.cache[i].hit_count > self.cache[b].hit_count {
                            Some(i)
                        } else {
                            Some(b)
                        }
                    },
                    None => Some(i),
                };
            }
            i = i + 1;
        }
        match best {
            None => Ok(None),
            Some(b) => {
                let mut ahead: usize = 0;
                let mut k: usize = 0;
                while k < self.cache.len()
                    invariant
                        ahead <= k <= self.cache@.len(),
                        b < self.cache@.len(),
                        cache == self@.cache,
                        ahead == rank(cache, b as int, k as int),
                    decreases self.cache@.len() - k,
                {
                    assert(cache[k as int] == self.cache@[k as int]@);
                    assert(cache[b as int] == self.cache@[b as int]@);
                    let first: i64 = self.cache[k].hit_count;
                    let second: i64 = self.cache[b].hit_count;
                    if first > second || (first == second && k < b) {
                        ahead = ahead + 1;
                    }
                    k = k + 1;
                }
                assert(is_best_entry(cache, wanted, num as int, den as int, b as int));
                if ahead < CACHE_LOOKUP_LIMIT {
                    Ok(Some(text::copy_str(self.cache[b].tags_json.as_str())))
                } else {
                    assert forall|j: int| #[trigger]
                        is_best_entry(cache, wanted, num as int, den as int, j) implies rank(
                        cache,
                        j,
                        cache.len() as int,
                    ) >= CACHE_LOOKUP_LIMIT by {
                        if j != b {
                            assert(qualifies(cache[j], wanted, num as int, den as int));
                            assert(ranks_before(cache, b as int, j));
                            assert(ranks_before(cache, j, b as int));
                        }
                    }
                    Ok(None)
                }
            },
        }
    }

    /// Insert or update a cache entry at `now`. The same tokens count one more
    /// hit.
    pub fn upsert_cache_entry_at(
        &mut self,
        filename_tokens: &str,
        tags_json: &str,
        source_hash: &str,
        now: &str,
    )
        requires
            old(self).wf(),
        ensures
            final(self).wf(),
            final(self)@ == old(self)@.with_cache_entry(
                filename_tokens@,
                tags_json@,
                source_hash@,
                now@,
            ),
    {
        let ghost m = self@;
        let ghost after = m.with_cache_entry(filename_tokens@, tags_json@, source_hash@, now@);
        let mut at: usize = 0;
        while at < self.cache.len() && !text::same_text(
            self.cache[at].filename_tokens.as_str(),
            filename_tokens,
        )
            invariant
                at <= self.cache@.len(),
                self@ == m,
                forall|k: int| 0 <= k < at ==> (#[trigger] m.cache[k]).tokens != filename_tokens@,
            decreases self.cache@.len() - at,
        {
            assert(m.cache[at as int] == self.cache@[at as int]@);
            at = at + 1;
        }
        if at < self.cache.len() {
            assert(m.cache[at as int].tokens == filename_tokens@);
            let entry: &CacheEntry = &self.cache[at];
            let hits: i64 = if entry.hit_count < i64::MAX {
                entry.hit_count + 1
            } else {
                entry.hit_count
            };
            let updated = CacheEntry {
                filename_tokens: text::copy_str(entry.filename_tokens.as_str()),
                tags_json: text::copy_str(tags_json),
                source_hash: text::copy_str(entry.source_hash.as_str()),
                hit_count: hits,
                created_at: text::copy_str(entry.created_at.as_str()),
                updated_at: text::copy_str(now),
            };
            self.cache.set(at, updated);
        } else {
            assert(!m.has_tokens(filename_tokens@));
            self.cache.push(
                CacheEntry {
                    filename_tokens: text::copy_str(filename_tokens),
                    tags_json: text::copy_str(tags_json),
                    source_hash: text::copy_str(source_hash),
                    hit_count: 1,
                    created_at: text::copy_str(now),
                    updated_at: text::copy_str(now),
                },
            );
        }
        proof {
            assert(self@.cache =~= after.cache);
            assert(self@ == after);
            assert(after.cache_unique());
            lemma_cache_changed(m, after);
        }
    }

    /// Insert or update a cache entry. The same tokens count one more hit.
    pub fn upsert_cache_entry(
        &mut self,
        filename_tokens: &str,
        tags_json: &str,
        source_hash: &str,
    ) -> (r: Result<(), StoreError>)
        requires
            old(self).wf(),
        ensures
            r is Ok,
            final(self).wf(),
            exists|now: Seq<char>|
                times::is_store_time(now) && final(self)@ == #[trigger] old(self)@.with_cache_entry(
                    filename_tokens@,
                    tags_json@,
                    source_hash@,
                    now,
                ),
    {
        let now: String = times::current_time();
        self.upsert_cache_entry_at(filename_tokens, tags_json, source_hash, now.as_str());
        Ok(())
    }
}

// ── Several documents at once ──

/// One document of a batch that is written at once.
#[derive(Debug, Clone, PartialEq, Eq)]
pub struct BatchDocumentUpsert {
    pub content_hash: String,
    pub file_path: String,
    pub file_type: String,
    pub file_size: i64,
    pub modified_ts: i64,
    /// The content hash that the file had before its content changed.
    pub old_hash_to_delete: Option<String>,
    pub filename: String,
    pub content_hash_before_tag: String,
    /// The content is tagged already: its status row stays as it is.
    pub skip_auto_tag_status: bool,
}

/// What a batch item holds.
#[verifier::ext_equal]
pub struct BatchModel {
    pub hash: Seq<char>,
    pub path: Seq<char>,
    pub file_type: Seq<char>,
    pub size: i64,
    pub modified: i64,
    pub old_hash: Option<Seq<char>>,
    pub filename: Seq<char>,
    pub hash_before: Seq<char>,
    pub skip_status: bool,
}

impl View for BatchDocumentUpsert {
    type V = BatchModel;

    open spec fn view(&self) -> BatchModel {
        BatchModel {
            hash: self.content_hash@,
            path: self.file_path@,
            file_type: self.file_type@,
            size: self.file_size,
            modified: self.modified_ts,
            old_hash: model::opt_text(self.old_hash_to_delete),
            filename: self.filename@,
            hash_before: self.content_hash_before_tag@,
            skip_status: self.skip_auto_tag_status,
        }
    }
}

impl StoreModel {
    /// The store once one item of a batch is written at `now`: the document that
    /// the file was before goes, the document stands, and it waits to be tagged
    /// unless its tags are kept.
    pub open spec fn with_batch_item(self, item: BatchModel, now: Seq<char>) -> StoreModel {
        let cleared = match item.old_hash {
            Some(old_hash) => self.without_document(old_hash),
            None => self,
        };
        let stored = cleared.with_document(
            document_model(item.hash, item.path, item.file_type, item.size, item.modified, now),
        );
        if item.skip_status {
            stored
        } else {
            stored.with_status(
                status_model(
                    item.hash,
                    item.filename,
                    item.hash_before,
                    "pending"@,
                    None,
                    None,
                    now,
                ),
            )
        }
    }

    /// The store once the items of a batch are written, one after another.
    pub open spec fn with_batch(self, items: Seq<BatchModel>, now: Seq<char>) -> StoreModel
        decreases items.len(),
    {
        if items.len() == 0 {
            self
        } else {
            self.with_batch(items.drop_last(), now).with_batch_item(items.last(), now)
        }
    }
}

impl TagStore {
    /// Write one item of a batch at `now`.
    pub fn upsert_batch_item_at(&mut self, item: &BatchDocumentUpsert, now: &str)
        requires
            old(self).wf(),
        ensures
            final(self).wf(),
            final(self)@ == old(self)@.with_batch_item(item@, now@),
    {
        if let Some(old_hash) = &item.old_hash_to_delete {
            let _r: Result<(), StoreError> = self.delete_document_by_hash(old_hash.as_str());
        }
        let ghost cleared = self@;
        self.upsert_document_at(
            item.content_hash.as_str(),
            item.file_path.as_str(),
            item.file_type.as_str(),
            item.file_size,
            item.modified_ts,
            now,
        );
        proof {
            lemma_with_document(
                cleared,
                document_model(
                    item@.hash,
                    item@.path,
                    item@.file_type,
                    item@.size,
                    item@.modified,
                    now@,
                ),
            );
        }
        if !item.skip_auto_tag_status {
            let _r: Result<(), StoreError> = self.upsert_auto_tag_status_at(
                item.content_hash.as_str(),
                item.filename.as_str(),
                item.content_hash_before_tag.as_str(),
                "pending",
                None,
                None,
                now,
            );
        }
    }

    /// Write a batch of documents at `now`.
    pub fn upsert_documents_batch_at(&mut self, items: &[BatchDocumentUpsert], now: &str)
        requires
            old(self).wf(),
        ensures
            final(self).wf(),
            final(self)@ == old(self)@.with_batch(model::views(items@), now@),
    {
        let ghost m = self@;
        let ghost all = model::views(items@);
        let mut i: usize = 0;
        assert(all.take(0) =~= Seq::<BatchModel>::empty());
        while i < items.len()
            invariant
                i <= items@.len(),
                all == model::views(items@),
                self.wf(),
                self@ == m.with_batch(all.take(i as int), now@),
            decreases items@.len() - i,
        {
            self.upsert_batch_item_at(&items[i], now);
            proof {
                assert(all.take(i + 1).drop_last() =~= all.take(i as int));
                assert(all.take(i + 1).last() == items@[i as int]@);
            }
            i = i + 1;
        }
        assert(all.take(all.len() as int) =~= all);
    }

    /// Write a batch of documents, all or none: the same as one after another.
    pub fn upsert_documents_batch(&mut self, items: &[BatchDocumentUpsert]) -> (r: Result<
        (),
        StoreError,
    >)
        requires
            old(self).wf(),
        ensures
            r is Ok,
            final(self).wf(),
            exists|now: Seq<char>|
                times::is_store_time(now) && final(self)@ == #[trigger] old(self)@.with_batch(
                    model::views(items@),
                    now,
                ),
    {
        let now: String = times::current_time();
        self.upsert_documents_batch_at(items, now.as_str());
        Ok(())
    }

    /// The tags of several documents at once: each document that has tags, with
    /// its tags by name.
    pub fn get_tags_for_hashes(&self, hashes: &[&str]) -> (r: Result<
        Vec<(String, Vec<Tag>)>,
        StoreError,
    >)
        ensures
            r matches Ok(found) && is_tag_listing(self@, hashes@, found@),
    {
        let mut found: Vec<(String, Vec<Tag>)> = Vec::new();
        let mut i: usize = 0;
        while i < hashes.len()
            invariant
                i <= hashes@.len(),
                is_tag_listing(self@, hashes@.take(i as int), found@),
            decreases hashes@.len() - i,
        {
            let ghost found0 = found@;
            let ghost asked = hashes@.take(i as int);
            let ghost asked1 = hashes@.take(i + 1);
            let ghost hash = hashes@[i as int]@;
            let mut known: bool = false;
            let mut k: usize = 0;
            while k < found.len()
                invariant
                    k <= found@.len(),
                    i < hashes@.len(),
                    hash == hashes@[i as int]@,
                    found@ == found0,
                    known ==> exists|q: int| 0 <= q < found@.len() && (#[trigger] found@[q]).0@ == hash,
                    !known ==> forall|q: int| 0 <= q < k ==> (#[trigger] found@[q]).0@ != hash,
                decreases found@.len() - k,
            {
                if text::same_text(found[k].0.as_str(), hashes[i]) {
                    known = true;
                }
                k = k + 1;
            }
            proof {
                assert forall|h: Seq<char>| slices_contain(asked1, h) implies slices_contain(asked, h) || h
                    == hash by {
                    let q = choose|q: int| 0 <= q < asked1.len() && (#[trigger] asked1[q])@ == h;
                    if q < i {
                        assert(asked[q]@ == h);
                    }
                }
                assert forall|h: Seq<char>| slices_contain(asked, h) implies slices_contain(asked1, h) by {
                    let q = choose|q: int| 0 <= q < asked.len() && (#[trigger] asked[q])@ == h;
                    assert(asked1[q]@ == h);
                }
                assert(asked1[i as int]@ == hash);
            }
            if !known {
                let tags: Vec<Tag> = self.sorted_tags_of(hashes[i]);
                assert(model::views(tags@).len() == self@.tags_of(hash).len());
                if tags.len() > 0 {
                    found.push((text::copy_str(hashes[i]), tags));
                    proof {
                        assert(found@[found0.len() as int].0@ == hash);
                        assert forall|h: Seq<char>| #[trigger] slices_contain(asked1, h) && self@.tags_of(
                            h,
                        ).len() > 0 implies lists_hash(found@, h) by {
                            if h != hash {
                                assert(lists_hash(found0, h));
                                let q = choose|q: int|
                                    0 <= q < found0.len() && (#[trigger] found0[q]).0@ == h;
                                assert(found@[q] == found0[q]);
                            }
                        }
                    }
                }
            }
            i = i + 1;
        }
        assert(hashes@.take(hashes@.len() as int) =~= hashes@);
        Ok(found)
    }

    /// The documents that have a tag, in the order in which they got it.
    pub fn get_documents_with_tag(&self, tag_id: i64) -> (r: Result<Vec<String>, StoreError>)
        ensures
            r matches Ok(hashes) && text::texts(hashes@) == self@.links.filter(
                |l: model::LinkModel| l.tag_id == tag_id,
            ).map_values(|l: model::LinkModel| l.hash),
    {
        let test = |l: &DocumentTag| -> (b: bool)
            ensures
                b == (l.tag_id == tag_id),
            { l.tag_id == tag_id };
        let links: Vec<DocumentTag> = keep_rows(
            &self.links,
            Ghost(|l: model::LinkModel| l.tag_id == tag_id),
            test,
        );
        let mut hashes: Vec<String> = Vec::new();
        let mut i: usize = 0;
        while i < links.len()
            invariant
                i <= links@.len(),
                hashes@.len() == i,
                forall|k: int| 0 <= k < i ==> (#[trigger] hashes@[k])@ == links@[k].content_hash@,
            decreases links@.len() - i,
        {
            hashes.push(text::copy_str(links[i].content_hash.as_str()));
            i = i + 1;
        }
        assert(text::texts(hashes@) =~= model::views(links@).map_values(
            |l: model::LinkModel| l.hash,
        ));
        Ok(hashes)
    }

    /// The status rows of several documents at once.
    pub fn get_auto_tag_statuses_for_hashes(&self, hashes: &[&str]) -> (r: Result<
        Vec<AutoTagStatus>,
        StoreError,
    >)
        requires
            self.wf(),
        ensures
            r matches Ok(rows) && model::views(rows@) == self@.statuses.filter(
                |s: model::StatusModel| slices_contain(hashes@, s.hash),
            ),
    {
        let test = |s: &AutoTagStatus| -> (b: bool)
            ensures
                b == slices_contain(hashes@, s.content_hash@),
            { slices_contain_text(hashes, s.content_hash.as_str()) };
        let rows: Vec<AutoTagStatus> = keep_rows(
            &self.statuses,
            Ghost(|s: model::StatusModel| slices_contain(hashes@, s.hash)),
            test,
        );
        Ok(rows)
    }
}

/// The listing has an entry for the document.
pub open spec fn lists_hash(found: Seq<(String, Vec<Tag>)>, hash: Seq<char>) -> bool {
    exists|k: int| 0 <= k < found.len() && (#[trigger] found[k]).0@ == hash
}

/// `found` lists those of the documents that have tags, each once, with its tags
/// by name.
pub open spec fn is_tag_listing(
    m: StoreModel,
    hashes: Seq<&str>,
    found: Seq<(String, Vec<Tag>)>,
) -> bool {
    &&& forall|k: int|
        0 <= k < found.len() ==> slices_contain(hashes, (#[trigger] found[k]).0@) && m.tags_of(
            found[k].0@,
        ).len() > 0 && is_sorted_by_key::<Tag>(m.tags_of(found[k].0@), model::views(found[k].1@))
    &&& forall|h: Seq<char>| #[trigger]
        slices_contain(hashes, h) && m.tags_of(h).len() > 0 ==> lists_hash(found, h)
    &&& forall|a: int, b: int|
        0 <= a < b < found.len() ==> (#[trigger] found[a]).0@ != (#[trigger] found[b]).0@
}

/// One of the slices is `s`.
pub open spec fn slices_contain(v: Seq<&str>, s: Seq<char>) -> bool {
    exists|i: int| 0 <= i < v.len() && (#[trigger] v[i])@ == s
}

/// Whether one of the slices is `s`.
fn slices_contain_text(v: &[&str], s: &str) -> (r: bool)
    ensures
        r == slices_contain(v@, s@),
{
    let mut i: usize = 0;
    while i < v.len()
        invariant
            i <= v@.len(),
            forall|k: int| 0 <= k < i ==> (#[trigger] v@[k])@ != s@,
        decreases v@.len() - i,
    {
        if text::same_text(v[i], s) {
            return true;
        }
        i = i + 1;
    }
    false
}

// ── Keeping the rows elsewhere ──

impl TagStore {
    /// The document rows.
    pub fn document_rows(&self) -> (r: &Vec<DocumentRow>)
        ensures
            model::views(r@) == self@.documents,
    {
        &self.documents
    }

    /// The tag rows.
    pub fn tag_rows(&self) -> (r: &Vec<Tag>)
        ensures
            model::views(r@) == self@.tags,
    {
        &self.tags
    }

    /// The association rows.
    pub fn document_tag_rows(&self) -> (r: &Vec<DocumentTag>)
        ensures
            model::views(r@) == self@.links,
    {
        &self.links
    }

    /// The status rows.
    pub fn status_rows(&self) -> (r: &Vec<AutoTagStatus>)
        ensures
            model::views(r@) == self@.statuses,
    {
        &self.statuses
    }

    /// The cache rows.
    pub fn cache_rows(&self) -> (r: &Vec<CacheEntry>)
        ensures
            model::views(r@) == self@.cache,
    {
        &self.cache
    }

    fn documents_are_unique(&self) -> (r: bool)
        ensures
            r == self@.documents_unique(),
    {
        let mut i: usize = 0;
        while i < self.documents.len()
            invariant
                i <= self.documents@.len(),
                forall|a: int, b: int|
                    0 <= a < b < i ==> (#[trigger] self@.documents[a]).hash != (
                    #[trigger] self@.documents[b]).hash,
            decreases self.documents@.len() - i,
        {
            let mut j: usize = 0;
            while j < i
                invariant
                    j <= i < self.documents@.len(),
                    forall|a: int|
                        0 <= a < j ==> (#[trigger] self@.documents[a]).hash
                            != self@.documents[i as int].hash,
                decreases i - j,
            {
                assert(self@.documents[j as int] == self.documents@[j as int]@);
                assert(self@.documents[i as int] == self.documents@[i as int]@);
                if text::same_text(
                    self.documents[j].content_hash.as_str(),
                    self.documents[i].content_hash.as_str(),
                ) {
                    return false;
                }
                j = j + 1;
            }
            i = i + 1;
        }
        true
    }

    fn tags_are_unique(&self) -> (r: bool)
        ensures
            r == self@.tags_unique(),
    {
        let mut i: usize = 0;
        while i < self.tags.len()
            invariant
                i <= self.tags@.len(),
                forall|a: int| 0 <= a < i ==> (#[trigger] self@.tags[a]).id >= 1,
                forall|a: int, b: int|
                    0 <= a < b < i ==> (#[trigger] self@.tags[a]).id != (#[trigger] self@.tags[b]).id
                        && self@.tags[a].name != self@.tags[b].name,
            decreases self.tags@.len() - i,
        {
            assert(self@.tags[i as int] == self.tags@[i as int]@);
            if self.tags[i].id < 1 {
                return false;
            }
            let mut j: usize = 0;
            while j < i
                invariant
                    j <= i < self.tags@.len(),
                    forall|a: int|
                        0 <= a < j ==> (#[trigger] self@.tags[a]).id != self@.tags[i as int].id
                            && self@.tags[a].name != self@.tags[i as int].name,
                decreases i - j,
            {
                assert(self@.tags[j as int] == self.tags@[j as int]@);
                assert(self@.tags[i as int] == self.tags@[i as int]@);
                if self.tags[j].id == self.tags[i].id || text::same_text(
                    self.tags[j].name.as_str(),
                    self.tags[i].name.as_str(),
                ) {
                    return false;
                }
                j = j + 1;
            }
            i = i + 1;
        }
        true
    }

    fn links_are_valid(&self) -> (r: bool)
        ensures
            r == self@.links_valid(),
    {
        let mut i: usize = 0;
        while i < self.links.len()
            invariant
                i <= self.links@.len(),
                forall|a: int, b: int|
                    0 <= a < b < i ==> (#[trigger] self@.links[a]) != (#[trigger] self@.links[b]),
                forall|a: int|
                    0 <= a < i ==> self@.has_document((#[trigger] self@.links[a]).hash)
                        && self@.has_tag(self@.links[a].tag_id),
            decreases self.links@.len() - i,
        {
            assert(self@.links[i as int] == self.links@[i as int]@);
            if !self.document_exists(self.links[i].content_hash.as_str()) || !self.tag_exists(
                self.links[i].tag_id,
            ) {
                return false;
            }
            let mut j: usize = 0;
            while j < i
                invariant
                    j <= i < self.links@.len(),
                    forall|a: int|
                        0 <= a < j ==> (#[trigger] self@.links[a]) != self@.links[i as int],
                decreases i - j,
            {
                assert(self@.links[j as int] == self.links@[j as int]@);
                assert(self@.links[i as int] == self.links@[i as int]@);
                if self.links[j].tag_id == self.links[i].tag_id && text::same_text(
                    self.links[j].content_hash.as_str(),
                    self.links[i].content_hash.as_str(),
                ) {
                    assert(self@.links[j as int] == self@.links[i as int]);
                    return false;
                }
                j = j + 1;
            }
            i = i + 1;
        }
        true
    }

    fn statuses_are_valid(&self) -> (r: bool)
        ensures
            r == self@.statuses_valid(),
    {
        let mut i: usize = 0;
        while i < self.statuses.len()
            invariant
                i <= self.statuses@.len(),
                forall|a: int, b: int|
                    0 <= a < b < i ==> (#[trigger] self@.statuses[a]).hash != (
                    #[trigger] self@.statuses[b]).hash,
                forall|a: int|
                    0 <= a < i ==> self@.has_document((#[trigger] self@.statuses[a]).hash),
            decreases self.statuses@.len() - i,
        {
            assert(self@.statuses[i as int] == self.statuses@[i as int]@);
            if !self.document_exists(self.statuses[i].content_hash.as_str()) {
                return false;
            }
            let mut j: usize = 0;
            while j < i
                invariant
                    j <= i < self.statuses@.len(),
                    forall|a: int|
                        0 <= a < j ==> (#[trigger] self@.statuses[a]).hash
                            != self@.statuses[i as int].hash,
                decreases i - j,
            {
                assert(self@.statuses[j as int] == self.statuses@[j as int]@);
                assert(self@.statuses[i as int] == self.statuses@[i as int]@);
                if text::same_text(
                    self.statuses[j].content_hash.as_str(),
                    self.statuses[i].content_hash.as_str(),
                ) {
                    return false;
                }
                j = j + 1;
            }
            i = i + 1;
        }
        true
    }

    fn cache_is_unique(&self) -> (r: bool)
        ensures
            r == self@.cache_unique(),
    {
        let mut i: usize = 0;
        while i < self.cache.len()
            invariant
                i <= self.cache@.len(),
                forall|a: int, b: int|
                    0 <= a < b < i ==> (#[trigger] self@.cache[a]).tokens != (
                    #[trigger] self@.cache[b]).tokens,
            decreases self.cache@.len() - i,
        {
            let mut j: usize = 0;
            while j < i
                invariant
                    j <= i < self.cache@.len(),
                    forall|a: int|
                        0 <= a < j ==> (#[trigger] self@.cache[a]).tokens
                            != self@.cache[i as int].tokens,
                decreases i - j,
            {
                assert(self@.cache[j as int] == self.cache@[j as int]@);
                assert(self@.cache[i as int] == self.cache@[i as int]@);
                if text::same_text(
                    self.cache[j].filename_tokens.as_str(),
                    self.cache[i].filename_tokens.as_str(),
                ) {
                    return false;
                }
                j = j + 1;
            }
            i = i + 1;
        }
        true
    }

    /// A store of rows that were kept elsewhere; none where they are not valid.
    pub fn from_rows(
        documents: Vec<DocumentRow>,
        tags: Vec<Tag>,
        links: Vec<DocumentTag>,
        statuses: Vec<AutoTagStatus>,
        cache: Vec<CacheEntry>,
    ) -> (r: Option<TagStore>)
        ensures
            ({
                let m = StoreModel {
                    documents: model::views(documents@),
                    tags: model::views(tags@),
                    links: model::views(links@),
                    statuses: model::views(statuses@),
                    cache: model::views(cache@),
                };
                match r {
                    Some(store) => m.wf() && store@ == m,
                    None => !m.wf(),
                }
            }),
    {
        let store = TagStore {
            documents: documents,
            tags: tags,
            links: links,
            statuses: statuses,
            cache: cache,
        };
        if store.documents_are_unique() && store.tags_are_unique() && store.links_are_valid()
            && store.statuses_are_valid() && store.cache_is_unique() {
            Some(store)
        } else {
            None
        }
    }
}

// ── What holds of the store as a whole ──

/// Indexing a document again keeps its tags, its auto-tags, and those of every
/// other document.
pub proof fn reindexing_keeps_tags(m: StoreModel, d: model::DocumentModel)
    requires
        m.wf(),
    ensures
        m.with_document(d).wf(),
        m.with_document(d).has_document(d.hash),
        forall|h: Seq<char>| #[trigger] m.with_document(d).tags_of(h) == m.tags_of(h),
        forall|h: Seq<char>| #[trigger] m.with_document(d).status_of(h) == m.status_of(h),
{
    let after = m.with_document(d);
    lemma_with_document(m, d);
    assert forall|h: Seq<char>| #[trigger] after.tags_of(h) == m.tags_of(h) by {
        assert forall|id: i64| after.has_link(h, id) == m.has_link(h, id) by {
            if m.has_link(h, id) {
                let i = choose|i: int|
                    0 <= i < m.links.len() && (#[trigger] m.links[i]).hash == h && m.links[i].tag_id
                        == id;
                assert(after.links[i].hash == h);
            }
            if after.has_link(h, id) {
                let i = choose|i: int|
                    0 <= i < after.links.len() && (#[trigger] after.links[i]).hash == h
                        && after.links[i].tag_id == id;
                assert(m.links[i].hash == h);
            }
        }
        assert((|t: model::TagModel| after.has_link(h, t.id)) =~= (|t: model::TagModel|
            m.has_link(h, t.id)));
    }
}

/// A document that is deleted takes its tags and its status with it; every
/// other document, with its tags and its status, stays.
pub proof fn deleting_takes_the_rows_of_the_document(m: StoreModel, hash: Seq<char>)
    requires
        m.wf(),
    ensures
        m.without_document(hash).wf(),
        !m.without_document(hash).has_document(hash),
        !m.without_document(hash).has_status(hash),
        forall|id: i64| !(#[trigger] m.without_document(hash).has_link(hash, id)),
        forall|h: Seq<char>|
            h != hash ==> #[trigger] m.without_document(hash).has_document(h) == m.has_document(h),
        forall|h: Seq<char>, id: i64|
            h != hash ==> #[trigger] m.without_document(hash).has_link(h, id) == m.has_link(h, id),
        forall|h: Seq<char>|
            h != hash ==> #[trigger] m.without_document(hash).status_of(h) == m.status_of(h),
{
    let after = m.without_document(hash);
    lemma_without_document(m, hash);
    let docs = lemma_filter_places(m.documents, |d: model::DocumentModel| d.hash != hash);
    let links = lemma_filter_places(m.links, |l: model::LinkModel| l.hash != hash);
    let stats = lemma_filter_places(m.statuses, |s: model::StatusModel| s.hash != hash);
    assert forall|h: Seq<char>| h != hash implies #[trigger] after.has_document(h) == m.has_document(h) by {
        if m.has_document(h) {
            let i = choose|i: int| 0 <= i < m.documents.len() && (#[trigger] m.documents[i]).hash == h;
            assert(docs.contains(i));
            let a = choose|a: int| 0 <= a < docs.len() && docs[a] == i;
            assert(after.documents[a].hash == h);
        }
        if after.has_document(h) {
            let a = choose|a: int|
                0 <= a < after.documents.len() && (#[trigger] after.documents[a]).hash == h;
            assert(m.documents[docs[a]].hash == h);
        }
    }
    assert forall|h: Seq<char>, id: i64| h != hash implies #[trigger] after.has_link(h, id)
        == m.has_link(h, id) by {
        if m.has_link(h, id) {
            let i = choose|i: int|
                0 <= i < m.links.len() && (#[trigger] m.links[i]).hash == h && m.links[i].tag_id
                    == id;
            assert(links.contains(i));
            let a = choose|a: int| 0 <= a < links.len() && links[a] == i;
            assert(after.links[a].hash == h);
        }
        if after.has_link(h, id) {
            let a = choose|a: int|
                0 <= a < after.links.len() && (#[trigger] after.links[a]).hash == h
                    && after.links[a].tag_id == id;
            assert(m.links[links[a]].hash == h);
        }
    }
    assert forall|id: i64| !(#[trigger] after.has_link(hash, id)) by {
        if after.has_link(hash, id) {
            let a = choose|a: int|
                0 <= a < after.links.len() && (#[trigger] after.links[a]).hash == hash
                    && after.links[a].tag_id == id;
            assert(m.links[links[a]].hash != hash);
        }
    }
    if after.has_status(hash) {
        let a = choose|a: int|
            0 <= a < after.statuses.len() && (#[trigger] after.statuses[a]).hash == hash;
        assert(m.statuses[stats[a]].hash != hash);
    }
    assert forall|h: Seq<char>| h != hash implies #[trigger] after.status_of(h) == m.status_of(h) by {
        if m.has_status(h) {
            let i = choose|i: int| 0 <= i < m.statuses.len() && (#[trigger] m.statuses[i]).hash == h;
            lemma_status_of(m, i);
            assert(stats.contains(i));
            let a = choose|a: int| 0 <= a < stats.len() && stats[a] == i;
            assert(after.statuses[a] == m.statuses[i]);
            lemma_status_of(after, a);
        }
        if after.has_status(h) {
            let a = choose|a: int|
                0 <= a < after.statuses.len() && (#[trigger] after.statuses[a]).hash == h;
            assert(m.statuses[stats[a]].hash == h);
        }
    }
}

/// Deleting what stands at a path leaves nothing there, and takes the tags and
/// the status of what stood there along; every document elsewhere, with its tags
/// and its status, stays.
pub proof fn deleting_a_path_leaves_the_rest(m: StoreModel, path: Seq<char>)
    requires
        m.wf(),
    ensures
        m.without_path(path).wf(),
        forall|i: int|
            0 <= i < m.without_path(path).documents.len() ==> (
            #[trigger] m.without_path(path).documents[i]).path != path,
        forall|h: Seq<char>|
            m.is_at_path(h, path) ==> !(#[trigger] m.without_path(path).has_document(h))
                && !m.without_path(path).has_status(h),
        forall|h: Seq<char>|
            !m.is_at_path(h, path) ==> #[trigger] m.without_path(path).has_document(h)
                == m.has_document(h),
        forall|h: Seq<char>|
            !m.is_at_path(h, path) ==> #[trigger] m.without_path(path).status_of(h) == m.status_of(h),
        forall|h: Seq<char>, id: i64| #[trigger]
            m.without_path(path).has_link(h, id) == (m.has_link(h, id) && !m.is_at_path(h, path)),
{
    let after = m.without_path(path);
    lemma_without_path(m, path);
    let docs = lemma_filter_places(m.documents, |d: model::DocumentModel| d.path != path);
    let links = lemma_filter_places(m.links, |l: model::LinkModel| !m.is_at_path(l.hash, path));
    let stats = lemma_filter_places(
        m.statuses,
        |s: model::StatusModel| !m.is_at_path(s.hash, path),
    );
    assert forall|i: int| 0 <= i < after.documents.len() implies (#[trigger] after.documents[i]).path
        != path by {
        assert(after.documents[i] == m.documents[docs[i]]);
    }
    assert forall|h: Seq<char>| m.is_at_path(h, path) implies !(#[trigger] after.has_document(h))
        && !after.has_status(h) by {
        let i = choose|i: int|
            0 <= i < m.documents.len() && (#[trigger] m.documents[i]).hash == h
                && m.documents[i].path == path;
        if after.has_document(h) {
            let a = choose|a: int|
                0 <= a < after.documents.len() && (#[trigger] after.documents[a]).hash == h;
            assert(m.documents[docs[a]].hash == h);
            if docs[a] < i {
                assert(m.documents[docs[a]].hash != m.documents[i].hash);
            } else if i < docs[a] {
                assert(m.documents[i].hash != m.documents[docs[a]].hash);
            }
        }
        if after.has_status(h) {
            let a = choose|a: int|
                0 <= a < after.statuses.len() && (#[trigger] after.statuses[a]).hash == h;
            assert(m.statuses[stats[a]].hash == h);
        }
    }
    assert forall|h: Seq<char>| !m.is_at_path(h, path) implies #[trigger] after.has_document(h)
        == m.has_document(h) by {
        if m.has_document(h) {
            let i = choose|i: int| 0 <= i < m.documents.len() && (#[trigger] m.documents[i]).hash == h;
            assert(m.documents[i].path != path);
            assert(docs.contains(i));
            let a = choose|a: int| 0 <= a < docs.len() && docs[a] == i;
            assert(after.documents[a].hash == h);
        }
        if after.has_document(h) {
            let a = choose|a: int|
                0 <= a < after.documents.len() && (#[trigger] after.documents[a]).hash == h;
            assert(m.documents[docs[a]].hash == h);
        }
    }
    assert forall|h: Seq<char>| !m.is_at_path(h, path) implies #[trigger] after.status_of(h)
        == m.status_of(h) by {
        if m.has_status(h) {
            let i = choose|i: int| 0 <= i < m.statuses.len() && (#[trigger] m.statuses[i]).hash == h;
            lemma_status_of(m, i);
            assert(stats.contains(i));
            let a = choose|a: int| 0 <= a < stats.len() && stats[a] == i;
            assert(after.statuses[a] == m.statuses[i]);
            lemma_status_of(after, a);
        }
        if after.has_status(h) {
            let a = choose|a: int|
                0 <= a < after.statuses.len() && (#[trigger] after.statuses[a]).hash == h;
            assert(m.statuses[stats[a]].hash == h);
        }
    }
    assert forall|h: Seq<char>, id: i64| #[trigger] after.has_link(h, id) == (m.has_link(h, id)
        && !m.is_at_path(h, path)) by {
        if m.has_link(h, id) && !m.is_at_path(h, path) {
            let i = choose|i: int|
                0 <= i < m.links.len() && (#[trigger] m.links[i]).hash == h && m.links[i].tag_id
                    == id;
            assert(links.contains(i));
            let a = choose|a: int| 0 <= a < links.len() && links[a] == i;
            assert(after.links[a].hash == h);
        }
        if after.has_link(h, id) {
            let a = choose|a: int|
                0 <= a < after.links.len() && (#[trigger] after.links[a]).hash == h
                    && after.links[a].tag_id == id;
            assert(m.links[links[a]].hash == h);
        }
    }
}

/// Every row of a claim waited, each row is claimed once, and none of them
/// waits afterwards.
proof fn lemma_claimed(m: StoreModel, limit: int, claimed: Seq<model::StatusModel>, now: Seq<char>)
    requires
        m.wf(),
        limit >= 0,
        m.is_next_pending(limit, claimed),
    ensures
        forall|i: int|
            0 <= i < claimed.len() ==> m.statuses.contains(#[trigger] claimed[i])
                && claimed[i].status == "pending"@,
        forall|s: model::StatusModel|
            #[trigger] m.with_claimed(claimed, now).pending().contains(s) ==> !names_hash(
                claimed,
                s.hash,
            ),
{
    let waiting = m.pending();
    let places = lemma_filter_places(
        m.statuses,
        |s: model::StatusModel| s.status == "pending"@,
    );
    let sorted = choose|sorted: Seq<model::StatusModel>| #[trigger]
        is_sorted_by_key::<AutoTagStatus>(waiting, sorted) && claimed == sorted.take(
            if limit < sorted.len() {
                limit
            } else {
                sorted.len() as int
            },
        );
    let order = choose|order: Seq<usize>| #[trigger]
        order::is_stable_order(key_less::<AutoTagStatus>(waiting), waiting.len() as int, order)
            && sorted == order::permuted(waiting, order);
    assert forall|i: int| 0 <= i < claimed.len() implies m.statuses.contains(#[trigger] claimed[i])
        && claimed[i].status == "pending"@ by {
        assert(claimed[i] == sorted[i]);
        assert(sorted[i] == waiting[order[i] as int]);
        assert(waiting[order[i] as int] == m.statuses[places[order[i] as int]]);
    }
    let after = m.with_claimed(claimed, now);
    let later = lemma_filter_places(
        after.statuses,
        |s: model::StatusModel| s.status == "pending"@,
    );
    assert forall|s: model::StatusModel| #[trigger] after.pending().contains(s) implies !names_hash(
        claimed,
        s.hash,
    ) by {
        let a = choose|a: int| 0 <= a < after.pending().len() && after.pending()[a] == s;
        assert(after.statuses[later[a]] == s);
        assert(s.status == "pending"@);
        reveal_strlit("pending");
        reveal_strlit("processing");
        assert("pending"@.len() != "processing"@.len());
        if names_hash(claimed, s.hash) {
            assert(m.statuses[later[a]].hash == s.hash);
            assert(after.statuses[later[a]].status == "processing"@);
        }
    }
}

/// A filtered list holds what the list holds and the filter lets through.
proof fn lemma_filter_holds<V>(s: Seq<V>, p: spec_fn(V) -> bool, v: V)
    ensures
        s.filter(p).contains(v) == (s.contains(v) && p(v)),
{
    let places = lemma_filter_places(s, p);
    if s.filter(p).contains(v) {
        let a = choose|a: int| 0 <= a < s.filter(p).len() && s.filter(p)[a] == v;
        assert(s[places[a]] == v);
    }
    if s.contains(v) && p(v) {
        let i = choose|i: int| 0 <= i < s.len() && s[i] == v;
        assert(p(s[i]));
    }
}

/// A tag that is assigned to a document is among its tags afterwards; its other
/// tags, and the tags of every other document, stay as they were.
pub proof fn assigned_tag_is_read_back(m: StoreModel, hash: Seq<char>, tag: model::TagModel)
    requires
        m.wf(),
        m.has_document(hash),
        m.tags.contains(tag),
    ensures
        m.with_link(hash, tag.id).tags_of(hash).contains(tag),
        forall|t: model::TagModel|
            t != tag ==> #[trigger] m.with_link(hash, tag.id).tags_of(hash).contains(t) == m.tags_of(
                hash,
            ).contains(t),
        forall|h: Seq<char>|
            h != hash ==> #[trigger] m.with_link(hash, tag.id).tags_of(h) == m.tags_of(h),
{
    let after = m.with_link(hash, tag.id);
    assert forall|h: Seq<char>, id: i64| #[trigger]
        after.has_link(h, id) == (m.has_link(h, id) || (h == hash && id == tag.id)) by {
        if !m.has_link(hash, tag.id) {
            let n = m.links.len() as int;
            assert(after.links[n] == (model::LinkModel { hash: hash, tag_id: tag.id }));
            if m.has_link(h, id) {
                let i = choose|i: int|
                    0 <= i < m.links.len() && (#[trigger] m.links[i]).hash == h && m.links[i].tag_id
                        == id;
                assert(after.links[i] == m.links[i]);
            }
            if after.has_link(h, id) {
                let i = choose|i: int|
                    0 <= i < after.links.len() && (#[trigger] after.links[i]).hash == h
                        && after.links[i].tag_id == id;
                if i < n {
                    assert(m.links[i] == after.links[i]);
                }
            }
        }
    }
    let p = |t: model::TagModel| m.has_link(hash, t.id);
    let q = |t: model::TagModel| after.has_link(hash, t.id);
    lemma_filter_holds(m.tags, q, tag);
    assert forall|t: model::TagModel| t != tag implies #[trigger] after.tags_of(hash).contains(t)
        == m.tags_of(hash).contains(t) by {
        lemma_filter_holds(m.tags, p, t);
        lemma_filter_holds(m.tags, q, t);
        if m.tags.contains(t) {
            let i = choose|i: int| 0 <= i < m.tags.len() && m.tags[i] == t;
            let j = choose|j: int| 0 <= j < m.tags.len() && m.tags[j] == tag;
            if i < j {
                assert(m.tags[i].id != m.tags[j].id);
            } else {
                assert(m.tags[j].id != m.tags[i].id);
            }
        }
    }
    assert forall|h: Seq<char>| h != hash implies #[trigger] after.tags_of(h) == m.tags_of(h) by {
        assert((|t: model::TagModel| after.has_link(h, t.id)) =~= (|t: model::TagModel|
            m.has_link(h, t.id)));
    }
}

/// A tag that is taken from a document is not among its tags afterwards; its other
/// tags, and the tags of every other document, stay as they were.
pub proof fn removed_tag_is_gone(m: StoreModel, hash: Seq<char>, id: i64)
    requires
        m.wf(),
    ensures
        m.without_link(hash, id).tags_of(hash) == m.tags_of(hash).filter(
            |t: model::TagModel| t.id != id,
        ),
        forall|h: Seq<char>|
            h != hash ==> #[trigger] m.without_link(hash, id).tags_of(h) == m.tags_of(h),
{
    let after = m.without_link(hash, id);
    let keeps = |l: model::LinkModel| !(l.hash == hash && l.tag_id == id);
    assert forall|h: Seq<char>, k: i64| #[trigger]
        after.has_link(h, k) == (m.has_link(h, k) && !(h == hash && k == id)) by {
        let link = model::LinkModel { hash: h, tag_id: k };
        lemma_filter_holds(m.links, keeps, link);
        lemma_has_link(m, h, k);
        lemma_has_link(after, h, k);
    }
    let p = |t: model::TagModel| m.has_link(hash, t.id);
    let r = |t: model::TagModel| t.id != id;
    lemma_filter_twice(m.tags, p, r);
    assert((|t: model::TagModel| after.has_link(hash, t.id)) =~= (|t: model::TagModel| p(t) && r(t)));
    assert forall|h: Seq<char>| h != hash implies #[trigger] after.tags_of(h) == m.tags_of(h) by {
        assert((|t: model::TagModel| after.has_link(h, t.id)) =~= (|t: model::TagModel|
            m.has_link(h, t.id)));
    }
}

/// A tag that is deleted is gone from the list of tags and from every document, and
/// every other tag stays where it was.
pub proof fn deleted_tag_is_gone(m: StoreModel, id: i64)
    requires
        m.wf(),
    ensures
        !m.without_tag(id).has_tag(id),
        forall|h: Seq<char>| #[trigger]
            m.without_tag(id).tags_of(h) == m.tags_of(h).filter(|t: model::TagModel| t.id != id),
{
    let after = m.without_tag(id);
    let r = |t: model::TagModel| t.id != id;
    let keeps = |l: model::LinkModel| l.tag_id != id;
    let places = lemma_filter_places(m.tags, r);
    if after.has_tag(id) {
        let i = choose|i: int| 0 <= i < after.tags.len() && (#[trigger] after.tags[i]).id == id;
        assert(r(m.tags[places[i]]));
    }
    assert forall|h: Seq<char>| #[trigger] after.tags_of(h) == m.tags_of(h).filter(r) by {
        let p = |t: model::TagModel| m.has_link(h, t.id);
        let q = |t: model::TagModel| after.has_link(h, t.id);
        assert forall|t: model::TagModel| #[trigger] r(t) implies q(t) == p(t) by {
            lemma_filter_holds(m.links, keeps, model::LinkModel { hash: h, tag_id: t.id });
            lemma_has_link(m, h, t.id);
            lemma_has_link(after, h, t.id);
        }
        lemma_filter_twice(m.tags, p, r);
        lemma_filter_twice(m.tags, r, q);
        assert((|t: model::TagModel| p(t) && r(t)) =~= (|t: model::TagModel| r(t) && q(t)));
    }
}

/// An association is there where the list of associations holds it.
proof fn lemma_has_link(m: StoreModel, hash: Seq<char>, id: i64)
    ensures
        m.has_link(hash, id) == m.links.contains(model::LinkModel { hash: hash, tag_id: id }),
{
    let link = model::LinkModel { hash: hash, tag_id: id };
    if m.has_link(hash, id) {
        let i = choose|i: int|
            0 <= i < m.links.len() && (#[trigger] m.links[i]).hash == hash && m.links[i].tag_id == id;
        assert(m.links[i] == link);
    }
    if m.links.contains(link) {
        let i = choose|i: int| 0 <= i < m.links.len() && m.links[i] == link;
        assert(m.links[i].hash == hash);
    }
}

/// To filter twice is to filter by both.
proof fn lemma_filter_twice<V>(s: Seq<V>, p: spec_fn(V) -> bool, q: spec_fn(V) -> bool)
    ensures
        s.filter(p).filter(q) == s.filter(|v: V| p(v) && q(v)),
    decreases s.len(),
{
    reveal(Seq::filter);
    let both = |v: V| p(v) && q(v);
    if s.len() == 0 {
        assert(s.filter(p).filter(q) =~= s.filter(both));
    } else {
        let rest = s.drop_last();
        lemma_filter_twice(rest, p, q);
        assert(rest.filter(both) == rest.filter(p).filter(q));
        if p(s.last()) {
            let some = rest.filter(p).push(s.last());
            assert(s.filter(p) == some);
            assert(some.drop_last() =~= rest.filter(p));
            assert(some.last() == s.last());
        }
    }
}

/// A document whose path is updated is found at the new path, and nothing else of
/// the store changes.
pub proof fn moved_document_is_found_at_its_path(m: StoreModel, hash: Seq<char>, path: Seq<char>)
    requires
        m.wf(),
        m.has_document(hash),
    ensures
        m.with_path(hash, path).is_at_path(hash, path),
        forall|p: Seq<char>| p != path ==> !(#[trigger] m.with_path(hash, path).is_at_path(hash, p)),
        forall|h: Seq<char>, p: Seq<char>|
            h != hash ==> #[trigger] m.with_path(hash, path).is_at_path(h, p) == m.is_at_path(h, p),
        forall|h: Seq<char>| #[trigger] m.with_path(hash, path).tags_of(h) == m.tags_of(h),
        forall|h: Seq<char>| #[trigger] m.with_path(hash, path).status_of(h) == m.status_of(h),
{
    let after = m.with_path(hash, path);
    let i = choose|i: int| 0 <= i < m.documents.len() && (#[trigger] m.documents[i]).hash == hash;
    assert(after.documents[i].hash == hash && after.documents[i].path == path);
    assert forall|h: Seq<char>, p: Seq<char>| h != hash implies #[trigger] after.is_at_path(h, p)
        == m.is_at_path(h, p) by {
        if m.is_at_path(h, p) {
            let k = choose|k: int|
                0 <= k < m.documents.len() && (#[trigger] m.documents[k]).hash == h
                    && m.documents[k].path == p;
            assert(after.documents[k] == m.documents[k]);
        }
        if after.is_at_path(h, p) {
            let k = choose|k: int|
                0 <= k < after.documents.len() && (#[trigger] after.documents[k]).hash == h
                    && after.documents[k].path == p;
            assert(m.documents[k] == after.documents[k]);
        }
    }
    assert forall|h: Seq<char>| #[trigger] after.status_of(h) == m.status_of(h) by {
        same_rows_same_status(after, m, h);
    }
    assert forall|h: Seq<char>| #[trigger] after.tags_of(h) == m.tags_of(h) by {
        assert forall|id: i64| after.has_link(h, id) == m.has_link(h, id) by {
            lemma_has_link(after, h, id);
            lemma_has_link(m, h, id);
        }
        assert((|t: model::TagModel| after.has_link(h, t.id)) =~= (|t: model::TagModel|
            m.has_link(h, t.id)));
    }
}

/// After rows with a status are reset, none has it any more: what was in flight when
/// a session broke off, or had failed, waits again with its tags as they were.
pub proof fn reset_rows_wait_again(m: StoreModel, status: Seq<char>, now: Seq<char>)
    requires
        status != "pending"@,
    ensures
        m.with_reset(status, now).count_status(status) == 0,
        forall|i: int|
            0 <= i < m.statuses.len() ==> (#[trigger] m.with_reset(status, now).statuses[i]) == if m.statuses[i].status
                == status {
                moved_to(m.statuses[i], "pending"@, now)
            } else {
                m.statuses[i]
            },
{
    let after = m.with_reset(status, now);
    let has = |s: model::StatusModel| s.status == status;
    let places = lemma_filter_places(after.statuses, has);
    if places.len() > 0 {
        assert(has(after.statuses[places[0]]));
        assert(after.statuses[places[0]].status != status);
    }
}

/// A row waits again just where it is in flight and was last written more than so many
/// minutes before the time of the clock; any other row stays as it was.
pub proof fn rows_in_flight_too_long_wait_again(
    m: StoreModel,
    minutes: u32,
    seconds: i64,
    after: StoreModel,
    count: usize,
    i: int,
    written: i64,
)
    requires
        is_reset_at(m, minutes, seconds, after, count),
        times::store_time(seconds) is Some,
        0 <= seconds - 60 * minutes <= times::LAST_SECOND,
        0 <= written <= times::LAST_SECOND,
        0 <= i < m.statuses.len(),
        Some(m.statuses[i].updated_at) == times::store_time(written),
    ensures
        after.statuses.len() == m.statuses.len(),
        after.statuses[i] == (if m.statuses[i].status == "processing"@ && seconds - written > 60
            * minutes {
            moved_to(m.statuses[i], "pending"@, times::store_time(seconds)->0)
        } else {
            m.statuses[i]
        }),
{
}

/// Two claims one after the other have no row in common: no document is handed
/// to two workers.
pub proof fn claims_are_disjoint(
    m: StoreModel,
    limit1: int,
    claimed1: Seq<model::StatusModel>,
    now: Seq<char>,
    limit2: int,
    claimed2: Seq<model::StatusModel>,
)
    requires
        m.wf(),
        limit1 >= 0,
        limit2 >= 0,
        m.is_next_pending(limit1, claimed1),
        m.with_claimed(claimed1, now).is_next_pending(limit2, claimed2),
    ensures
        forall|i: int, j: int|
            0 <= i < claimed1.len() && 0 <= j < claimed2.len() ==> (#[trigger] claimed1[i]).hash != (
            #[trigger] claimed2[j]).hash,
{
    let after = m.with_claimed(claimed1, now);
    lemma_statuses_changed(m, after);
    lemma_claimed(m, limit1, claimed1, now);
    lemma_claimed(after, limit2, claimed2, now);
    assert forall|i: int, j: int| 0 <= i < claimed1.len() && 0 <= j < claimed2.len() implies (
    #[trigger] claimed1[i]).hash != (#[trigger] claimed2[j]).hash by {
        let s = claimed2[j];
        assert(after.statuses.contains(s) && s.status == "pending"@);
        let k = choose|k: int| 0 <= k < after.statuses.len() && after.statuses[k] == s;
        let places = lemma_filter_places(
            after.statuses,
            |s: model::StatusModel| s.status == "pending"@,
        );
        assert(after.pending().contains(after.statuses[k]));
        assert(!names_hash(claimed1, s.hash));
    }
}

/// Writing two batches one after the other is writing them as one: a batch is
/// the same as its items one by one.
pub proof fn batches_compose(m: StoreModel, a: Seq<BatchModel>, b: Seq<BatchModel>, now: Seq<char>)
    ensures
        m.with_batch(a + b, now) == m.with_batch(a, now).with_batch(b, now),
    decreases b.len(),
{
    if b.len() == 0 {
        assert(a + b =~= a);
    } else {
        assert((a + b).drop_last() =~= a + b.drop_last());
        assert((a + b).last() == b.last());
        batches_compose(m, a, b.drop_last(), now);
    }
}

/// A tag that is dismissed is not among the kept tags afterwards, and the others
/// stay in their order.
pub proof fn dismissing_removes_the_tag(v: json::JsonModel, tag: Seq<char>)
    requires
        json::is_tag_shaped(v),
    ensures
        json::is_tag_shaped(tag_json::without_tag_name(v, tag)),
        tag_json::texts_under(tag_json::without_tag_name(v, tag), "tags"@)
            == tag_json::texts_under(v, "tags"@).filter(|t: Seq<char>| t != tag),
{
    let after = tag_json::without_tag_name(v, tag);
    match json::field_of(v, "tags"@) {
        Some(json::JsonModel::Array(items)) => {
            let p = |t: json::JsonModel| json::text_of(t) != Some(tag);
            let kept = items.filter(p);
            let places = lemma_filter_places(items, p);
            assert(json::is_text_array(v->Object_0["tags"@]));
            assert forall|i: int| 0 <= i < kept.len() implies (#[trigger] kept[i]) is Text by {
                assert(kept[i] == items[places[i]]);
            }
            assert(json::is_text_array(json::JsonModel::Array(kept)));
            lemma_text_items(items, tag);
        },
        _ => {
            let none = Seq::<Seq<char>>::empty();
            reveal(Seq::filter);
            assert(none.filter(|t: Seq<char>| t != tag) =~= none);
        },
    }
}

/// Among items that are all texts, leaving out an item is leaving out its text.
proof fn lemma_text_items(items: Seq<json::JsonModel>, tag: Seq<char>)
    requires
        json::is_text_array(json::JsonModel::Array(items)),
    ensures
        tag_json::item_texts(items.filter(|t: json::JsonModel| json::text_of(t) != Some(tag)))
            == tag_json::item_texts(items).filter(|t: Seq<char>| t != tag),
    decreases items.len(),
{
    reveal(Seq::filter);
    let p = |t: json::JsonModel| json::text_of(t) != Some(tag);
    let q = |v: json::JsonModel| json::text_of(v) is Some;
    let f = |v: json::JsonModel| v->Text_0;
    let r = |t: Seq<char>| t != tag;
    if items.len() == 0 {
        assert(tag_json::item_texts(items.filter(p)) =~= tag_json::item_texts(items).filter(r));
    } else {
        let rest = items.drop_last();
        let last = items.last();
        assert(last is Text);
        assert forall|i: int| 0 <= i < rest.len() implies (#[trigger] rest[i]) is Text by {
            assert(rest[i] == items[i]);
        }
        lemma_text_items(rest, tag);
        assert(items.filter(q) =~= rest.filter(q).push(last));
        assert(tag_json::item_texts(items) =~= tag_json::item_texts(rest).push(f(last)));
        let texts = tag_json::item_texts(items);
        assert(texts.drop_last() =~= tag_json::item_texts(rest));
        if p(last) {
            assert(items.filter(p) == rest.filter(p).push(last));
            let kept = items.filter(p);
            assert(kept.drop_last() =~= rest.filter(p));
            assert(kept.filter(q) =~= rest.filter(p).filter(q).push(last));
            assert(tag_json::item_texts(kept) =~= tag_json::item_texts(rest.filter(p)).push(f(last)));
        } else {
            assert(items.filter(p) == rest.filter(p));
        }
    }
}

// ── What the lists hold ──

/// Rows that are listed by a text are all there, each once, none before one whose text
/// comes before its own; rows with the same text stay as they stood.
pub proof fn listed_rows_are_in_order<R: Row>(rows: Seq<R::V>, sorted: Seq<R::V>) -> (places: Seq<
    int,
>)
    requires
        is_sorted_by_key::<R>(rows, sorted),
        rows.len() <= usize::MAX,
    ensures
        sorted.len() == rows.len(),
        places.len() == rows.len(),
        places.no_duplicates(),
        forall|a: int| 0 <= a < rows.len() ==> 0 <= #[trigger] places[a] < rows.len() && sorted[a]
            == rows[places[a]],
        forall|i: int| 0 <= i < rows.len() ==> #[trigger] places.contains(i),
        forall|a: int, b: int|
            0 <= a < b < rows.len() ==> !text::text_less(
                R::key_of(#[trigger] sorted[b]),
                R::key_of(#[trigger] sorted[a]),
            ),
        forall|a: int, b: int|
            0 <= a < b < rows.len() && R::key_of(sorted[a]) == R::key_of(sorted[b])
                ==> #[trigger] places[a] < #[trigger] places[b],
{
    let lt = key_less::<R>(rows);
    let order = choose|order: Seq<usize>| #[trigger]
        order::is_stable_order(lt, rows.len() as int, order) && sorted == order::permuted(
            rows,
            order,
        );
    lemma_keys_order::<R>(rows);
    let places = order.map_values(|i: usize| i as int);
    assert forall|a: int, b: int| 0 <= a < b < rows.len() implies order::before(
        lt,
        #[trigger] places[a],
        #[trigger] places[b],
    ) by {
        assert(order::before(lt, order[a] as int, order[b] as int));
    }
    assert forall|a: int, b: int| 0 <= a < b < rows.len() implies !text::text_less(
        R::key_of(#[trigger] sorted[b]),
        R::key_of(#[trigger] sorted[a]),
    ) by {
        assert(order::before(lt, places[a], places[b]));
        text::text_order_is_total(R::key_of(sorted[a]), R::key_of(sorted[b]), R::key_of(sorted[a]));
        assert(lt(places[a], places[b]) == text::text_less(
            R::key_of(sorted[a]),
            R::key_of(sorted[b]),
        ));
        assert(lt(places[b], places[a]) == text::text_less(
            R::key_of(sorted[b]),
            R::key_of(sorted[a]),
        ));
        text::text_order_is_total(R::key_of(sorted[b]), R::key_of(sorted[a]), R::key_of(sorted[b]));
    }
    assert forall|a: int, b: int|
        0 <= a < b < rows.len() && R::key_of(sorted[a]) == R::key_of(sorted[b]) implies
        #[trigger] places[a] < #[trigger] places[b] by {
        assert(order::before(lt, places[a], places[b]));
        let k = R::key_of(sorted[a]);
        text::text_order_is_total(k, k, k);
        assert(lt(places[a], places[b]) == text::text_less(k, k));
    }
    assert forall|a: int, b: int|
        0 <= a < places.len() && 0 <= b < places.len() && a != b implies places[a] != places[b] by {
        let (x, y) = if a < b {
            (a, b)
        } else {
            (b, a)
        };
        assert(order::before(lt, places[x], places[y]));
        let k = R::key_of(rows[places[x]]);
        text::text_order_is_total(k, k, k);
    }
    assert forall|i: int| 0 <= i < rows.len() implies #[trigger] places.contains(i) by {
        assert(order.contains(i as usize));
        let a = choose|a: int| 0 <= a < order.len() && order[a] == i as usize;
        assert(places[a] == i);
    }
    places
}

/// What the store is asked for is there where one of its rows has it.
pub proof fn rows_are_found_where_they_stand(
    m: StoreModel,
    hash: Seq<char>,
    id: i64,
    name: Seq<char>,
    path: Seq<char>,
    size: i64,
    modified: i64,
    tokens: Seq<char>,
)
    ensures
        m.has_document(hash) <==> exists|i: int|
            0 <= i < m.documents.len() && (#[trigger] m.documents[i]).hash == hash,
        m.has_tag(id) <==> exists|i: int| 0 <= i < m.tags.len() && (#[trigger] m.tags[i]).id == id,
        m.has_tag_name(name) <==> exists|i: int|
            0 <= i < m.tags.len() && (#[trigger] m.tags[i]).name == name,
        m.has_link(hash, id) <==> m.links.contains(model::LinkModel { hash: hash, tag_id: id }),
        m.has_status(hash) <==> exists|i: int|
            0 <= i < m.statuses.len() && (#[trigger] m.statuses[i]).hash == hash,
        m.is_at_path(hash, path) <==> exists|i: int|
            0 <= i < m.documents.len() && (#[trigger] m.documents[i]).hash == hash
                && m.documents[i].path == path,
        m.is_indexed_as(path, size, modified) <==> exists|i: int|
            0 <= i < m.documents.len() && (#[trigger] m.documents[i]).path == path
                && m.documents[i].size == size && m.documents[i].modified == modified,
        m.has_tokens(tokens) <==> exists|i: int|
            0 <= i < m.cache.len() && (#[trigger] m.cache[i]).tokens == tokens,
        m.is_tagged(hash) <==> (exists|i: int|
            0 <= i < m.statuses.len() && (#[trigger] m.statuses[i]).hash == hash
                && m.statuses[i].status == "tagged"@) || (exists|i: int|
            0 <= i < m.links.len() && (#[trigger] m.links[i]).hash == hash),
{
    lemma_has_link(m, hash, id);
}

/// The rows are valid where no document, no tag, no association, no status and no list of
/// tokens stands twice, identifiers are positive, and each association and each status is
/// of what is there.
pub proof fn valid_rows_have_their_keys(m: StoreModel, a: int, b: int)
    requires
        m.wf(),
        a != b,
    ensures
        0 <= a < m.documents.len() && 0 <= b < m.documents.len() ==> m.documents[a].hash
            != m.documents[b].hash,
        0 <= a < m.tags.len() && 0 <= b < m.tags.len() ==> m.tags[a].id != m.tags[b].id
            && m.tags[a].name != m.tags[b].name,
        0 <= a < m.links.len() && 0 <= b < m.links.len() ==> m.links[a] != m.links[b],
        0 <= a < m.statuses.len() && 0 <= b < m.statuses.len() ==> m.statuses[a].hash
            != m.statuses[b].hash,
        0 <= a < m.cache.len() && 0 <= b < m.cache.len() ==> m.cache[a].tokens
            != m.cache[b].tokens,
        0 <= a < m.tags.len() ==> m.tags[a].id >= 1,
        0 <= a < m.links.len() ==> m.has_document(m.links[a].hash) && m.has_tag(m.links[a].tag_id),
        0 <= a < m.statuses.len() ==> m.has_document(m.statuses[a].hash),
{
    let (x, y) = if a < b {
        (a, b)
    } else {
        (b, a)
    };
    if 0 <= x && y < m.documents.len() {
        assert(m.documents[x].hash != m.documents[y].hash);
    }
    if 0 <= x && y < m.tags.len() {
        assert(m.tags[x].id != m.tags[y].id);
    }
    if 0 <= x && y < m.links.len() {
        assert(m.links[x] != m.links[y]);
    }
    if 0 <= x && y < m.statuses.len() {
        assert(m.statuses[x].hash != m.statuses[y].hash);
    }
    if 0 <= x && y < m.cache.len() {
        assert(m.cache[x].tokens != m.cache[y].tokens);
    }
}

/// An empty store is valid, and one document more, one tag more with a name and an
/// identifier of its own, and one association more of what is there keep it so.
pub proof fn stores_grow(
    m: StoreModel,
    d: model::DocumentModel,
    t: model::TagModel,
    link: model::LinkModel,
)
    requires
        m.wf(),
    ensures
        (StoreModel {
            documents: Seq::empty(),
            tags: Seq::empty(),
            links: Seq::empty(),
            statuses: Seq::empty(),
            cache: Seq::empty(),
        }).wf(),
        !m.has_document(d.hash) ==> (StoreModel { documents: m.documents.push(d), ..m }).wf(),
        m.has_document(link.hash) && m.has_tag(link.tag_id) && !m.has_link(link.hash, link.tag_id)
            ==> (StoreModel { links: m.links.push(link), ..m }).wf(),
{
    lemma_with_document(m, d);
    if !m.has_document(d.hash) {
        assert(m.with_document(d) == (StoreModel { documents: m.documents.push(d), ..m }));
    }
    if m.has_document(link.hash) && m.has_tag(link.tag_id) && !m.has_link(link.hash, link.tag_id) {
        lemma_more_links(m, link);
    }
}

/// Writing a document puts it in the place of the one with its content, or at the end,
/// and leaves every other row of the store as it was.
pub proof fn written_document_stands(m: StoreModel, d: model::DocumentModel, i: int)
    ensures
        ({
            let after = m.with_document(d);
            &&& 0 <= i < m.documents.len() ==> after.documents[i] == (if m.documents[i].hash
                == d.hash {
                d
            } else {
                m.documents[i]
            })
            &&& m.has_document(d.hash) ==> after.documents.len() == m.documents.len()
            &&& !m.has_document(d.hash) ==> after.documents.len() == m.documents.len() + 1
                && after.documents.last() == d
            &&& after.tags == m.tags && after.links == m.links && after.statuses == m.statuses
            &&& after.cache == m.cache
        }),
{
    if !m.has_document(d.hash) && 0 <= i < m.documents.len() {
        assert(m.documents[i].hash != d.hash);
    }
}

/// The row of a document that is written, and of a status, holds what was handed in, and
/// the time at which it was written.
pub proof fn rows_hold_what_was_handed_in(
    hash: Seq<char>,
    path: Seq<char>,
    file_type: Seq<char>,
    size: i64,
    modified: i64,
    filename: Seq<char>,
    hash_before: Seq<char>,
    status: Seq<char>,
    tags: Option<Seq<char>>,
    error: Option<Seq<char>>,
    now: Seq<char>,
    s: model::StatusModel,
)
    ensures
        document_model(hash, path, file_type, size, modified, now) == (model::DocumentModel {
            hash: hash,
            path: path,
            file_type: file_type,
            size: size,
            modified: modified,
            indexed_at: now,
            last_error: None,
        }),
        status_model(hash, filename, hash_before, status, tags, error, now)
            == (model::StatusModel {
            hash: hash,
            filename: filename,
            hash_before: hash_before,
            status: status,
            tags_json: tags,
            attempts: 0,
            last_error: error,
            created_at: now,
            updated_at: now,
        }),
        moved_to(s, status, now) == (model::StatusModel {
            status: status,
            last_error: None,
            updated_at: now,
            hash: s.hash,
            filename: s.filename,
            hash_before: s.hash_before,
            tags_json: s.tags_json,
            attempts: s.attempts,
            created_at: s.created_at,
        }),
        queue_model(s) == (model::QueueModel {
            hash: s.hash,
            filename: s.filename,
            status: s.status,
            created_at: s.created_at,
            last_error: s.last_error,
        }),
{
}

/// A new tag stands behind the others, with an identifier above all of theirs; deleting
/// a tag takes it, and every association with it, and nothing else.
pub proof fn tags_come_and_go(
    m: StoreModel,
    t: model::TagModel,
    id: i64,
    other: model::TagModel,
    link: model::LinkModel,
)
    ensures
        m.with_tag(t) == (StoreModel { tags: m.tags.push(t), ..m }),
        m.is_next_tag_id(t.id as int) ==> forall|i: int|
            0 <= i < m.tags.len() ==> (#[trigger] m.tags[i]).id < t.id,
        m.is_next_tag_id(t.id as int) && m.tags.len() == 0 ==> t.id == 1,
        m.is_next_tag_id(t.id as int) && m.tags.len() > 0 ==> exists|i: int|
            0 <= i < m.tags.len() && (#[trigger] m.tags[i]).id == t.id - 1,
        m.without_tag(id).tags.contains(other) <==> m.tags.contains(other) && other.id != id,
        m.without_tag(id).links.contains(link) <==> m.links.contains(link) && link.tag_id != id,
        m.without_tag(id).documents == m.documents && m.without_tag(id).statuses == m.statuses,
        m.without_tag(id).cache == m.cache,
{
    lemma_filter_holds(m.tags, |t: model::TagModel| t.id != id, other);
    lemma_filter_holds(m.links, |l: model::LinkModel| l.tag_id != id, link);
}

/// Giving a document a tag adds one association, unless it is there, and taking it away
/// takes that one; nothing else of the store changes.
pub proof fn tags_are_given_and_taken(
    m: StoreModel,
    hash: Seq<char>,
    id: i64,
    link: model::LinkModel,
)
    ensures
        m.with_link(hash, id).links.contains(link) <==> m.links.contains(link) || link
            == (model::LinkModel { hash: hash, tag_id: id }),
        m.without_link(hash, id).links.contains(link) <==> m.links.contains(link) && link
            != (model::LinkModel { hash: hash, tag_id: id }),
        m.has_link(hash, id) ==> m.with_link(hash, id) == m,
        !m.has_link(hash, id) ==> m.with_link(hash, id).links.len() == m.links.len() + 1,
        m.with_link(hash, id).tags == m.tags && m.without_link(hash, id).tags == m.tags,
        m.with_link(hash, id).documents == m.documents && m.without_link(hash, id).documents
            == m.documents,
        m.with_link(hash, id).statuses == m.statuses && m.without_link(hash, id).statuses
            == m.statuses,
        m.with_link(hash, id).cache == m.cache && m.without_link(hash, id).cache == m.cache,
{
    let new = model::LinkModel { hash: hash, tag_id: id };
    lemma_has_link(m, hash, id);
    lemma_filter_holds(
        m.links,
        |l: model::LinkModel| !(l.hash == hash && l.tag_id == id),
        link,
    );
    assert(link == new <==> link.hash == hash && link.tag_id == id);
    if !m.has_link(hash, id) {
        let after = m.links.push(new);
        if m.links.contains(link) {
            let i = choose|i: int| 0 <= i < m.links.len() && m.links[i] == link;
            assert(after[i] == link);
        }
        if after.contains(link) && link != new {
            let i = choose|i: int| 0 <= i < after.len() && after[i] == link;
            assert(m.links[i] == link);
        }
        assert(after[m.links.len() as int] == new);
    }
}

/// The tags of a document are the tags with which it is associated; they are listed by
/// name, each once.
pub proof fn tags_of_a_document_are_listed_by_name(
    m: StoreModel,
    hash: Seq<char>,
    sorted: Seq<model::TagModel>,
    t: model::TagModel,
)
    requires
        m.wf(),
        m.tags.len() <= usize::MAX,
        is_sorted_by_key::<Tag>(m.tags_of(hash), sorted),
    ensures
        sorted.contains(t) <==> m.tags.contains(t) && m.links.contains(
            model::LinkModel { hash: hash, tag_id: t.id },
        ),
        sorted.len() == m.tags_of(hash).len(),
        forall|a: int, b: int|
            0 <= a < b < sorted.len() ==> !text::text_less(
                (#[trigger] sorted[b]).name,
                (#[trigger] sorted[a]).name,
            ),
{
    let p = |t: model::TagModel| m.has_link(hash, t.id);
    let rows = m.tags_of(hash);
    m.tags.lemma_filter_len(p);
    let places = listed_rows_are_in_order::<Tag>(rows, sorted);
    lemma_filter_holds(m.tags, p, t);
    lemma_has_link(m, hash, t.id);
    if sorted.contains(t) {
        let a = choose|a: int| 0 <= a < sorted.len() && sorted[a] == t;
        assert(rows[places[a]] == t);
    }
    if rows.contains(t) {
        let i = choose|i: int| 0 <= i < rows.len() && rows[i] == t;
        assert(places.contains(i));
        let a = choose|a: int| 0 <= a < places.len() && places[a] == i;
        assert(sorted[a] == t);
    }
    assert forall|a: int, b: int| 0 <= a < b < sorted.len() implies !text::text_less(
        (#[trigger] sorted[b]).name,
        (#[trigger] sorted[a]).name,
    ) by {
        assert(!text::text_less(Tag::key_of(sorted[b]), Tag::key_of(sorted[a])));
    }
}

/// The list of documents shows each document once, by path, with its type, its content,
/// its size and its time, and whether it has tags of either kind.
pub proof fn every_document_is_listed(
    m: StoreModel,
    sorted: Seq<model::InfoModel>,
    i: int,
) -> (a: int)
    requires
        m.documents.len() <= usize::MAX,
        0 <= i < m.documents.len(),
        is_sorted_by_key::<DocumentInfo>(
            m.documents.map_values(|d: model::DocumentModel| m.info_of(d)),
            sorted,
        ),
    ensures
        sorted.len() == m.documents.len(),
        0 <= a < sorted.len(),
        sorted[a].path == m.documents[i].path,
        sorted[a].hash == m.documents[i].hash,
        sorted[a].file_type == m.documents[i].file_type,
        sorted[a].size == m.documents[i].size as u64,
        sorted[a].modified == m.documents[i].modified as u64,
        sorted[a].has_tags <==> (exists|k: int|
            0 <= k < m.statuses.len() && (#[trigger] m.statuses[k]).hash == m.documents[i].hash
                && m.statuses[k].status == "tagged"@) || (exists|k: int|
            0 <= k < m.links.len() && (#[trigger] m.links[k]).hash == m.documents[i].hash),
        forall|x: int, y: int|
            0 <= x < y < sorted.len() ==> !text::text_less(
                (#[trigger] sorted[y]).path,
                (#[trigger] sorted[x]).path,
            ),
{
    let rows = m.documents.map_values(|d: model::DocumentModel| m.info_of(d));
    let places = listed_rows_are_in_order::<DocumentInfo>(rows, sorted);
    assert(places.contains(i));
    let a = choose|a: int| 0 <= a < places.len() && places[a] == i;
    assert(sorted[a] == rows[i]);
    assert forall|x: int, y: int| 0 <= x < y < sorted.len() implies !text::text_less(
        (#[trigger] sorted[y]).path,
        (#[trigger] sorted[x]).path,
    ) by {
        assert(!text::text_less(DocumentInfo::key_of(sorted[y]), DocumentInfo::key_of(sorted[x])));
    }
    a
}

/// Deleting a document, or what stands at a path, takes the rows of what is deleted, and
/// no other.
pub proof fn deleting_takes_no_other_row(
    m: StoreModel,
    hash: Seq<char>,
    path: Seq<char>,
    d: model::DocumentModel,
    l: model::LinkModel,
    s: model::StatusModel,
)
    ensures
        ({
            let a = m.without_document(hash);
            &&& a.documents.contains(d) <==> m.documents.contains(d) && d.hash != hash
            &&& a.links.contains(l) <==> m.links.contains(l) && l.hash != hash
            &&& a.statuses.contains(s) <==> m.statuses.contains(s) && s.hash != hash
            &&& a.tags == m.tags && a.cache == m.cache
        }),
        ({
            let b = m.without_path(path);
            &&& b.documents.contains(d) <==> m.documents.contains(d) && d.path != path
            &&& b.links.contains(l) <==> m.links.contains(l) && !m.is_at_path(l.hash, path)
            &&& b.statuses.contains(s) <==> m.statuses.contains(s) && !m.is_at_path(s.hash, path)
            &&& b.tags == m.tags && b.cache == m.cache
        }),
{
    lemma_filter_holds(m.documents, |d: model::DocumentModel| d.hash != hash, d);
    lemma_filter_holds(m.links, |l: model::LinkModel| l.hash != hash, l);
    lemma_filter_holds(m.statuses, |s: model::StatusModel| s.hash != hash, s);
    lemma_filter_holds(m.documents, |d: model::DocumentModel| d.path != path, d);
    lemma_filter_holds(m.links, |l: model::LinkModel| !m.is_at_path(l.hash, path), l);
    lemma_filter_holds(m.statuses, |s: model::StatusModel| !m.is_at_path(s.hash, path), s);
}

/// A document that is moved has another path, and is else as it was; so are the others.
pub proof fn moving_changes_the_path_only(m: StoreModel, hash: Seq<char>, path: Seq<char>, i: int)
    requires
        0 <= i < m.documents.len(),
    ensures
        ({
            let after = m.with_path(hash, path);
            &&& after.documents.len() == m.documents.len()
            &&& m.documents[i].hash != hash ==> after.documents[i] == m.documents[i]
            &&& m.documents[i].hash == hash ==> after.documents[i] == (model::DocumentModel {
                path: path,
                ..m.documents[i]
            })
            &&& after.tags == m.tags && after.links == m.links && after.statuses == m.statuses
            &&& after.cache == m.cache
        }),
        m.is_first_at_path(path, i) ==> m.documents[i].path == path && forall|j: int|
            0 <= j < i ==> (#[trigger] m.documents[j]).path != path,
{
}

/// Writing a status replaces the one that the document had, and leaves the others.
pub proof fn status_is_replaced(m: StoreModel, s: model::StatusModel, other: model::StatusModel)
    ensures
        m.with_status(s).statuses.contains(s),
        other.hash != s.hash ==> (m.with_status(s).statuses.contains(other)
            <==> m.statuses.contains(other)),
        other.hash == s.hash && other != s ==> !m.with_status(s).statuses.contains(other),
        m.with_status(s).documents == m.documents && m.with_status(s).tags == m.tags,
        m.with_status(s).links == m.links && m.with_status(s).cache == m.cache,
        m.wf() && m.statuses.contains(other) ==> m.status_of(other.hash) == Some(other),
{
    let kept = m.statuses.filter(|x: model::StatusModel| x.hash != s.hash);
    let after = kept.push(s);
    lemma_filter_holds(m.statuses, |x: model::StatusModel| x.hash != s.hash, other);
    assert(after[kept.len() as int] == s);
    if kept.contains(other) {
        let i = choose|i: int| 0 <= i < kept.len() && kept[i] == other;
        assert(after[i] == other);
    }
    if after.contains(other) && other != s {
        let i = choose|i: int| 0 <= i < after.len() && after[i] == other;
        assert(kept[i] == other);
    }
    if m.wf() && m.statuses.contains(other) {
        let i = choose|i: int| 0 <= i < m.statuses.len() && m.statuses[i] == other;
        lemma_status_of(m, i);
    }
}

/// The rows that are next are rows that wait, oldest first: all of them where there are
/// no more than the limit, and else as many as the limit; no row that waits and is left
/// out was made before one that is next.
pub proof fn oldest_waiting_rows_are_next(
    m: StoreModel,
    limit: int,
    rows: Seq<model::StatusModel>,
    s: model::StatusModel,
)
    requires
        limit >= 0,
        m.statuses.len() <= usize::MAX,
        m.is_next_pending(limit, rows),
    ensures
        rows.len() <= limit,
        forall|a: int|
            0 <= a < rows.len() ==> m.statuses.contains(#[trigger] rows[a]) && rows[a].status
                == "pending"@,
        forall|a: int, b: int|
            0 <= a < b < rows.len() ==> !text::text_less(
                (#[trigger] rows[b]).created_at,
                (#[trigger] rows[a]).created_at,
            ),
        m.statuses.contains(s) && s.status == "pending"@ && !rows.contains(s) ==> rows.len() == limit
            && forall|a: int|
            0 <= a < rows.len() ==> !text::text_less(s.created_at, (#[trigger] rows[a]).created_at),
{
    let waiting = m.pending();
    let p = |s: model::StatusModel| s.status == "pending"@;
    m.statuses.lemma_filter_len(p);
    let sorted = choose|sorted: Seq<model::StatusModel>| #[trigger]
        is_sorted_by_key::<AutoTagStatus>(waiting, sorted) && rows == sorted.take(
            if limit < sorted.len() {
                limit
            } else {
                sorted.len() as int
            },
        );
    let places = listed_rows_are_in_order::<AutoTagStatus>(waiting, sorted);
    assert forall|a: int| 0 <= a < rows.len() implies m.statuses.contains(#[trigger] rows[a])
        && rows[a].status == "pending"@ by {
        assert(rows[a] == waiting[places[a]]);
        lemma_filter_holds(m.statuses, p, rows[a]);
    }
    assert forall|a: int, b: int| 0 <= a < b < sorted.len() implies !text::text_less(
        (#[trigger] sorted[b]).created_at,
        (#[trigger] sorted[a]).created_at,
    ) by {
        assert(!text::text_less(
            AutoTagStatus::key_of(sorted[b]),
            AutoTagStatus::key_of(sorted[a]),
        ));
    }
    assert forall|a: int, b: int| 0 <= a < b < rows.len() implies !text::text_less(
        (#[trigger] rows[b]).created_at,
        (#[trigger] rows[a]).created_at,
    ) by {
        assert(rows[a] == sorted[a] && rows[b] == sorted[b]);
    }
    if m.statuses.contains(s) && s.status == "pending"@ && !rows.contains(s) {
        lemma_filter_holds(m.statuses, p, s);
        let i = choose|i: int| 0 <= i < waiting.len() && waiting[i] == s;
        assert(places.contains(i));
        let b = choose|b: int| 0 <= b < places.len() && places[b] == i;
        assert(sorted[b] == s);
        if b < rows.len() {
            assert(rows[b] == s);
        }
        assert forall|a: int| 0 <= a < rows.len() implies !text::text_less(
            s.created_at,
            (#[trigger] rows[a]).created_at,
        ) by {
            assert(rows[a] == sorted[a]);
        }
    }
}

/// Claimed rows are in flight afterwards, and every other row is as it was.
pub proof fn claimed_rows_are_in_flight(
    m: StoreModel,
    claimed: Seq<model::StatusModel>,
    now: Seq<char>,
    i: int,
)
    requires
        0 <= i < m.statuses.len(),
    ensures
        ({
            let after = m.with_claimed(claimed, now);
            &&& after.statuses.len() == m.statuses.len()
            &&& (exists|k: int|
                0 <= k < claimed.len() && (#[trigger] claimed[k]).hash == m.statuses[i].hash)
                ==> after.statuses[i] == (model::StatusModel {
                status: "processing"@,
                last_error: None,
                updated_at: now,
                ..m.statuses[i]
            })
            &&& (forall|k: int|
                0 <= k < claimed.len() ==> (#[trigger] claimed[k]).hash != m.statuses[i].hash)
                ==> after.statuses[i] == m.statuses[i]
            &&& after.documents == m.documents && after.tags == m.tags && after.links == m.links
            &&& after.cache == m.cache
        }),
{
}

/// Rows with a status that are put back wait again, and every other row is as it was; so
/// many were put back as had the status.
pub proof fn rows_are_put_back(m: StoreModel, status: Seq<char>, now: Seq<char>, i: int)
    requires
        0 <= i < m.statuses.len(),
    ensures
        ({
            let after = m.with_reset(status, now);
            &&& after.statuses.len() == m.statuses.len()
            &&& m.statuses[i].status == status ==> after.statuses[i] == (model::StatusModel {
                status: "pending"@,
                last_error: None,
                updated_at: now,
                ..m.statuses[i]
            })
            &&& m.statuses[i].status != status ==> after.statuses[i] == m.statuses[i]
            &&& after.documents == m.documents && after.tags == m.tags && after.links == m.links
            &&& after.cache == m.cache
        }),
        m.statuses[i].status == status ==> m.count_status(status) > 0,
        m.count_status(status) == m.statuses.filter(
            |s: model::StatusModel| s.status == status,
        ).len(),
{
    let p = |s: model::StatusModel| s.status == status;
    if m.statuses[i].status == status {
        m.statuses.lemma_filter_contains(p, i);
    }
}

/// Rows that were last written before a time are put back where they are in flight, and
/// every other row is as it was.
pub proof fn stranded_rows_are_put_back(
    m: StoreModel,
    cutoff: Seq<char>,
    now: Seq<char>,
    i: int,
)
    requires
        0 <= i < m.statuses.len(),
    ensures
        ({
            let after = m.with_stale_reset(cutoff, now);
            let stranded = m.statuses[i].status == "processing"@ && text::text_less(
                m.statuses[i].updated_at,
                cutoff,
            );
            &&& after.statuses.len() == m.statuses.len()
            &&& stranded ==> after.statuses[i] == (model::StatusModel {
                status: "pending"@,
                last_error: None,
                updated_at: now,
                ..m.statuses[i]
            })
            &&& !stranded ==> after.statuses[i] == m.statuses[i]
            &&& stranded ==> m.count_stale(cutoff) > 0
            &&& after.documents == m.documents && after.tags == m.tags && after.links == m.links
            &&& after.cache == m.cache
        }),
        m.count_stale(cutoff) == m.statuses.filter(
            |s: model::StatusModel|
                s.status == "processing"@ && text::text_less(s.updated_at, cutoff),
        ).len(),
{
    let p = |s: model::StatusModel|
        s.status == "processing"@ && text::text_less(s.updated_at, cutoff);
    if p(m.statuses[i]) {
        m.statuses.lemma_filter_contains(p, i);
    }
}

/// The queue shows each row that waits, is in flight or failed, once, and no other.
pub proof fn queue_shows_what_is_not_done(
    m: StoreModel,
    sorted: Seq<model::StatusModel>,
    s: model::StatusModel,
)
    requires
        m.statuses.len() <= usize::MAX,
        is_sorted_by_key::<AutoTagStatus>(m.queued(), sorted),
    ensures
        sorted.contains(s) <==> m.statuses.contains(s) && (s.status == "pending"@ || s.status
            == "processing"@ || s.status == "failed"@),
        forall|a: int, b: int|
            0 <= a < b < sorted.len() ==> !text::text_less(
                (#[trigger] sorted[b]).created_at,
                (#[trigger] sorted[a]).created_at,
            ),
        sorted.len() == m.queued().len(),
{
    let p = |s: model::StatusModel|
        s.status == "pending"@ || s.status == "processing"@ || s.status == "failed"@;
    let rows = m.queued();
    m.statuses.lemma_filter_len(p);
    let places = listed_rows_are_in_order::<AutoTagStatus>(rows, sorted);
    lemma_filter_holds(m.statuses, p, s);
    if sorted.contains(s) {
        let a = choose|a: int| 0 <= a < sorted.len() && sorted[a] == s;
        assert(rows[places[a]] == s);
    }
    if rows.contains(s) {
        let i = choose|i: int| 0 <= i < rows.len() && rows[i] == s;
        assert(places.contains(i));
        let a = choose|a: int| 0 <= a < places.len() && places[a] == i;
        assert(sorted[a] == s);
    }
    assert forall|a: int, b: int| 0 <= a < b < sorted.len() implies !text::text_less(
        (#[trigger] sorted[b]).created_at,
        (#[trigger] sorted[a]).created_at,
    ) by {
        assert(!text::text_less(
            AutoTagStatus::key_of(sorted[b]),
            AutoTagStatus::key_of(sorted[a]),
        ));
    }
}

/// Dismissing a tag writes what is kept for the document anew, without the tag, and
/// leaves every other row, and a row that keeps no tags, as it was.
pub proof fn dismissing_changes_one_row(
    m: StoreModel,
    hash: Seq<char>,
    tag: Seq<char>,
    now: Seq<char>,
    i: int,
)
    requires
        0 <= i < m.statuses.len(),
    ensures
        ({
            let after = m.with_dismissed(hash, tag, now);
            let s = m.statuses[i];
            let kept = s.tags_json is Some && json::json_parse(s.tags_json->0) is Some;
            &&& after.statuses.len() == m.statuses.len()
            &&& s.hash != hash || !kept ==> after.statuses[i] == s
            &&& s.hash == hash && kept ==> after.statuses[i] == (model::StatusModel {
                tags_json: Some(
                    json::json_render(
                        tag_json::without_tag_name(json::json_parse(s.tags_json->0)->0, tag),
                    ),
                ),
                updated_at: now,
                ..s
            })
            &&& after.documents == m.documents && after.tags == m.tags && after.links == m.links
            &&& after.cache == m.cache
        }),
{
}

/// How many entries of the cache are looked at before one: fewer than there are.
proof fn lemma_rank(cache: Seq<model::CacheModel>, j: int, n: int)
    requires
        0 <= n <= cache.len(),
    ensures
        rank(cache, j, n) <= n,
        0 <= j < n ==> rank(cache, j, n) < n,
    decreases n,
{
    if n > 0 {
        lemma_rank(cache, j, n - 1);
    }
}

/// An entry of the cache serves where at least so many in so many of the tokens are among
/// its own words, and at least one; of several that do, one that none of the others has
/// more hits than. As long as there are no more than 200, every entry is looked at.
pub proof fn best_entry_serves(
    cache: Seq<model::CacheModel>,
    tokens: Seq<Seq<char>>,
    num: int,
    den: int,
    i: int,
    j: int,
)
    requires
        is_best_entry(cache, tokens, num, den, i),
    ensures
        0 <= i < cache.len(),
        ({
            let shared = text::words(cache[i].tokens).filter(
                |w: Seq<char>| tokens.contains(w),
            ).len();
            shared > 0 && shared * den >= num * tokens.len()
        }),
        0 <= j < cache.len() && overlap(cache[j].tokens, tokens) > 0 && overlap(
            cache[j].tokens,
            tokens,
        ) * den >= num * tokens.len() ==> cache[j].hits <= cache[i].hits && (cache[j].hits
            == cache[i].hits ==> i <= j),
        cache.len() <= 200 ==> rank(cache, i, cache.len() as int) < CACHE_LOOKUP_LIMIT,
        CACHE_LOOKUP_LIMIT == 200,
{
    lemma_rank(cache, i, cache.len() as int);
    if 0 <= j < cache.len() && qualifies(cache[j], tokens, num, den) && j != i {
        assert(ranks_before(cache, i, j));
    }
}

/// How many entries are looked at before one is how many have more hits, or as many and
/// stand first.
pub proof fn entries_are_looked_at_by_hits(cache: Seq<model::CacheModel>, j: int, n: int)
    requires
        0 <= n < cache.len(),
    ensures
        rank(cache, j, 0) == 0,
        cache[n].hits > cache[j].hits || (cache[n].hits == cache[j].hits && n < j) ==> rank(
            cache,
            j,
            n + 1,
        ) == rank(cache, j, n) + 1,
        !(cache[n].hits > cache[j].hits || (cache[n].hits == cache[j].hits && n < j)) ==> rank(
            cache,
            j,
            n + 1,
        ) == rank(cache, j, n),
{
}

/// Tags that are cached for some tokens are there afterwards: in the entry of these
/// tokens, which counts one more hit, or in a new one. Every other entry is as it was.
pub proof fn cached_tags_are_there(
    m: StoreModel,
    tokens: Seq<char>,
    tags_json: Seq<char>,
    source: Seq<char>,
    now: Seq<char>,
    i: int,
)
    ensures
        ({
            let after = m.with_cache_entry(tokens, tags_json, source, now);
            &&& 0 <= i < m.cache.len() && m.cache[i].tokens != tokens ==> after.cache[i]
                == m.cache[i]
            &&& 0 <= i < m.cache.len() && m.cache[i].tokens == tokens ==> after.cache[i].tags_json
                == tags_json && after.cache[i].tokens == tokens && (m.cache[i].hits < i64::MAX
                ==> after.cache[i].hits == m.cache[i].hits + 1) && after.cache[i].updated_at == now
                && after.cache[i].source_hash == m.cache[i].source_hash
                && after.cache[i].created_at == m.cache[i].created_at
            &&& (forall|k: int| 0 <= k < m.cache.len() ==> (#[trigger] m.cache[k]).tokens != tokens)
                ==> after.cache.len() == m.cache.len() + 1 && after.cache.last()
                == (model::CacheModel {
                tokens: tokens,
                tags_json: tags_json,
                source_hash: source,
                hits: 1,
                created_at: now,
                updated_at: now,
            })
            &&& (exists|k: int| 0 <= k < m.cache.len() && (#[trigger] m.cache[k]).tokens == tokens)
                ==> after.cache.len() == m.cache.len()
            &&& after.documents == m.documents && after.tags == m.tags && after.links == m.links
            &&& after.statuses == m.statuses
        }),
{
    if !m.has_tokens(tokens) && 0 <= i < m.cache.len() {
        assert(m.cache[i].tokens != tokens);
    }
}

/// One document of a batch: what the file was before is gone, the document stands as it
/// was handed in, and it waits to be tagged, unless its status is to stay.
pub proof fn batch_item_is_written(m: StoreModel, item: BatchModel, now: Seq<char>)
    requires
        m.wf(),
        item.old_hash != Some(item.hash),
    ensures
        ({
            let after = m.with_batch_item(item, now);
            &&& after.has_document(item.hash)
            &&& after.documents.contains(
                model::DocumentModel {
                    hash: item.hash,
                    path: item.path,
                    file_type: item.file_type,
                    size: item.size,
                    modified: item.modified,
                    indexed_at: now,
                    last_error: None,
                },
            )
            &&& item.old_hash matches Some(h) ==> !after.has_document(h) && !after.has_status(h)
            &&& !item.skip_status ==> (after.status_of(item.hash) matches Some(s) && s.status
                == "pending"@ && s.filename == item.filename && s.hash_before == item.hash_before
                && s.tags_json is None && s.created_at == now)
            &&& item.skip_status ==> after.status_of(item.hash) == m.status_of(item.hash)
            &&& after.tags == m.tags && after.cache == m.cache
        }),
{
    let cleared = match item.old_hash {
        Some(h) => m.without_document(h),
        None => m,
    };
    if let Some(h) = item.old_hash {
        deleting_takes_the_rows_of_the_document(m, h);
    }
    let d = document_model(item.hash, item.path, item.file_type, item.size, item.modified, now);
    let stored = cleared.with_document(d);
    lemma_with_document(cleared, d);
    reindexing_keeps_tags(cleared, d);
    assert(stored.documents.contains(d)) by {
        if cleared.has_document(d.hash) {
            let i = choose|i: int|
                0 <= i < cleared.documents.len() && (#[trigger] cleared.documents[i]).hash == d.hash;
            assert(stored.documents[i] == d);
        } else {
            assert(stored.documents[cleared.documents.len() as int] == d);
        }
    }
    let s = status_model(
        item.hash,
        item.filename,
        item.hash_before,
        "pending"@,
        None,
        None,
        now,
    );
    status_written_is_status_read(stored, s);
    if let Some(h) = item.old_hash {
        let after = m.with_batch_item(item, now);
        assert(!after.has_document(h)) by {
            if after.has_document(h) {
                let i = choose|i: int|
                    0 <= i < after.documents.len() && (#[trigger] after.documents[i]).hash == h;
                if cleared.has_document(d.hash) {
                    assert(cleared.documents[i].hash == h);
                } else if i < cleared.documents.len() {
                    assert(cleared.documents[i].hash == h);
                }
            }
        }
        assert(!after.has_status(h)) by {
            if after.has_status(h) {
                let i = choose|i: int|
                    0 <= i < after.statuses.len() && (#[trigger] after.statuses[i]).hash == h;
                let row = after.statuses[i];
                assert(after.statuses.contains(row));
                if !item.skip_status {
                    status_is_replaced(stored, s, row);
                }
                assert(stored.statuses.contains(row));
                let k = choose|k: int| 0 <= k < cleared.statuses.len() && cleared.statuses[k] == row;
                assert(cleared.statuses[k].hash == h);
            }
        }
    }
}

/// A batch is written one document after another.
pub proof fn batches_are_written_one_by_one(
    m: StoreModel,
    items: Seq<BatchModel>,
    item: BatchModel,
    now: Seq<char>,
)
    ensures
        m.with_batch(Seq::empty(), now) == m,
        m.with_batch(items.push(item), now) == m.with_batch(items, now).with_batch_item(item, now),
{
    assert(items.push(item).drop_last() =~= items);
}

/// A listing of tags names each of the documents that has tags, once, with its tags by
/// name, and no other.
pub proof fn listings_name_each_tagged_document(
    m: StoreModel,
    hashes: Seq<&str>,
    found: Seq<(String, Vec<Tag>)>,
    i: int,
)
    requires
        is_tag_listing(m, hashes, found),
        0 <= i < hashes.len(),
    ensures
        m.tags_of(hashes[i]@).len() > 0 ==> exists|k: int|
            0 <= k < found.len() && (#[trigger] found[k]).0@ == hashes[i]@,
        forall|k: int|
            0 <= k < found.len() ==> is_sorted_by_key::<Tag>(
                m.tags_of((#[trigger] found[k]).0@),
                model::views(found[k].1@),
            ) && (exists|h: int| 0 <= h < hashes.len() && (#[trigger] hashes[h])@ == found[k].0@),
{
    assert(slices_contain(hashes, hashes[i]@));
    if m.tags_of(hashes[i]@).len() > 0 {
        assert(lists_hash(found, hashes[i]@));
    }
    assert forall|k: int| 0 <= k < found.len() implies is_sorted_by_key::<Tag>(
        m.tags_of((#[trigger] found[k]).0@),
        model::views(found[k].1@),
    ) && (exists|h: int| 0 <= h < hashes.len() && (#[trigger] hashes[h])@ == found[k].0@) by {
        assert(slices_contain(hashes, found[k].0@));
    }
}

/// A sweep at a time of the clock puts back the rows that were last written before the
/// cutoff, so many minutes earlier; where the calendar does not reach that time, none.
pub proof fn sweeps_go_back_so_many_minutes(
    m: StoreModel,
    minutes: u32,
    seconds: i64,
    after: StoreModel,
    count: usize,
)
    requires
        is_reset_at(m, minutes, seconds, after, count),
    ensures
        ({
            let at = seconds - 60 * minutes;
            let cutoff = times::time_text(at as i64, 0, "%Y-%m-%d %H:%M:%S"@);
            let now = times::time_text(seconds, 0, "%Y-%m-%d %H:%M:%S"@);
            &&& at >= i64::MIN && cutoff is Some && now is Some ==> after == m.with_stale_reset(
                cutoff->0,
                now->0,
            ) && count == m.count_stale(cutoff->0)
            &&& at < i64::MIN || cutoff is None || now is None ==> after == m && count == 0
        }),
{
}

/// A batch item is seen as all that it holds.
pub proof fn batch_items_are_seen_whole(b: BatchDocumentUpsert)
    ensures
        b@.hash == b.content_hash@ && b@.path == b.file_path@ && b@.file_type == b.file_type@,
        b@.size == b.file_size && b@.modified == b.modified_ts && b@.filename == b.filename@,
        b@.old_hash == model::opt_text(b.old_hash_to_delete),
        b@.hash_before == b.content_hash_before_tag@ && b@.skip_status == b.skip_auto_tag_status,
{
}

/// A tag is created under its name exactly where no other has it and numbers are left, with
/// a number that no tag has; where it is refused nothing changes.
pub proof fn created_tag_is_a_new_one(
    s: &mut TagStore,
    name: &str,
    r: Result<Tag, StoreError>,
    i: int,
)
    requires
        call_ensures(TagStore::create_tag, (s, name), r),
    ensures
        old(s)@.has_tag_name(name@) <==> (r matches Err(e) && e is UniqueViolation),
        r is Err ==> final(s)@ == old(s)@,
        r matches Ok(tag) ==> tag@.name == name@ && final(s)@.tags == old(s)@.tags.push(tag@)
            && final(s)@.links == old(s)@.links && final(s)@.documents == old(s)@.documents,
        r is Ok && 0 <= i < old(s)@.tags.len() ==> old(s)@.tags[i].id < r->Ok_0@.id
            && old(s)@.tags[i].name != name@,
{
}

/// A tag is given exactly where the document and the tag are there; otherwise nothing
/// changes.
pub proof fn tags_are_given_to_documents(
    s: &mut TagStore,
    hash: &str,
    tag_id: i64,
    r: Result<(), StoreError>,
)
    requires
        call_ensures(TagStore::assign_tag, (s, hash, tag_id), r),
    ensures
        r is Ok <==> old(s)@.has_document(hash@) && old(s)@.has_tag(tag_id),
        r is Ok ==> final(s)@.has_link(hash@, tag_id),
        r is Err ==> final(s)@ == old(s)@,
{
    if r is Ok {
        let m = old(s)@;
        let after = m.with_link(hash@, tag_id);
        if !m.has_link(hash@, tag_id) {
            assert(after.links[m.links.len() as int].hash == hash@);
        }
        assert(after.has_link(hash@, tag_id));
    }
}

} // verus!
