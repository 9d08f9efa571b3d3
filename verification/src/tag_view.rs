//! What is shown of the tags that the auto-tagger found: a cache of them, so that
//! the store is asked once and not for every frame.

use vstd::prelude::*;

use crate::json;
use crate::json::JsonModel;
use crate::tags::model;
use crate::tags::store;
use crate::tags::store::TagStore;
use crate::tags::tag_json;
use crate::text;

verus! {

/// How many documents the cache may hold before it is emptied.
pub const MAX_ENTRIES: usize = 4096;

/// What is shown of the tags of one document: parsed once, read many times.
pub struct CachedAutoTag {
    pub filename: String,
    pub value: serde_json::Value,
}

/// What is shown of the tags of one document.
#[verifier::ext_equal]
pub struct ShownTags {
    pub filename: Seq<char>,
    pub value: JsonModel,
}

impl View for CachedAutoTag {
    type V = ShownTags;

    open spec fn view(&self) -> ShownTags {
        ShownTags { filename: self.filename@, value: json::json_model(self.value) }
    }
}

/// What is shown of the tags of a document, where anything is.
pub open spec fn opt_shown(o: Option<CachedAutoTag>) -> Option<ShownTags> {
    match o {
        Some(c) => Some(c@),
        None => None,
    }
}

/// What the store has to show of the tags of a document: nothing, where it has no
/// status row, the row keeps no tags, or what it keeps is not JSON.
pub open spec fn fetched(m: store::StoreModel, hash: Seq<char>) -> Option<ShownTags> {
    match m.status_of(hash) {
        Some(s) => match s.tags_json {
            Some(t) => match json::json_parse(t) {
                Some(v) => Some(ShownTags { filename: s.filename, value: v }),
                None => None,
            },
            None => None,
        },
        None => None,
    }
}

/// What a store that may be missing has to show.
pub open spec fn fetched_from(m: Option<store::StoreModel>, hash: Seq<char>) -> Option<ShownTags> {
    match m {
        Some(m) => fetched(m, hash),
        None => None,
    }
}

/// The cache: for each document that was asked for, what is shown of its tags, or
/// that there is nothing to show.
pub struct AutoTagCache {
    entries: Vec<(String, Option<CachedAutoTag>)>,
}

/// The cache by content hash.
pub open spec fn entry_models(entries: Seq<(String, Option<CachedAutoTag>)>) -> Map<
    Seq<char>,
    Option<ShownTags>,
>
    decreases entries.len(),
{
    if entries.len() == 0 {
        Map::empty()
    } else {
        let (hash, shown) = entries.last();
        entry_models(entries.drop_last()).insert(hash@, opt_shown(shown))
    }
}

impl View for AutoTagCache {
    type V = Map<Seq<char>, Option<ShownTags>>;

    closed spec fn view(&self) -> Map<Seq<char>, Option<ShownTags>> {
        entry_models(self.entries@)
    }
}

/// The cache once the documents were asked for: those that it had stay as they
/// were, and each other is what the store shows.
pub open spec fn filled(
    cache: Map<Seq<char>, Option<ShownTags>>,
    m: Option<store::StoreModel>,
    hashes: Seq<Seq<char>>,
) -> Map<Seq<char>, Option<ShownTags>>
    decreases hashes.len(),
{
    if hashes.len() == 0 {
        cache
    } else {
        let before = filled(cache, m, hashes.drop_last());
        if before.dom().contains(hashes.last()) {
            before
        } else {
            before.insert(hashes.last(), fetched_from(m, hashes.last()))
        }
    }
}

/// Some of the documents are not in the cache.
pub open spec fn lacks_one(cache: Map<Seq<char>, Option<ShownTags>>, hashes: Seq<Seq<char>>) -> bool {
    exists|i: int| 0 <= i < hashes.len() && !cache.dom().contains(#[trigger] hashes[i])
}

/// The tags under "tags" of what is shown.
pub open spec fn shown_tags(shown: Option<ShownTags>) -> Seq<Seq<char>> {
    match shown {
        Some(s) => tag_json::texts_under(s.value, "tags"@),
        None => Seq::empty(),
    }
}

/// No two entries are of the same document.
spec fn entries_distinct(entries: Seq<(String, Option<CachedAutoTag>)>) -> bool {
    forall|i: int, j: int|
        0 <= i < j < entries.len() ==> (#[trigger] entries[i]).0@ != (#[trigger] entries[j]).0@
}

/// The documents of the cache are those of its entries.
proof fn lemma_entries(entries: Seq<(String, Option<CachedAutoTag>)>)
    requires
        entries_distinct(entries),
    ensures
        forall|h: Seq<char>| #[trigger]
            entry_models(entries).dom().contains(h) <==> exists|i: int|
                0 <= i < entries.len() && (#[trigger] entries[i]).0@ == h,
        forall|i: int|
            0 <= i < entries.len() ==> entry_models(entries)[(#[trigger] entries[i]).0@]
                == opt_shown(entries[i].1),
        entry_models(entries).dom().finite(),
        entry_models(entries).dom().len() == entries.len(),
    decreases entries.len(),
{
    if entries.len() > 0 {
        let rest = entries.drop_last();
        assert(entries_distinct(rest)) by {
            assert forall|i: int, j: int| 0 <= i < j < rest.len() implies (#[trigger] rest[i]).0@ != (
            #[trigger] rest[j]).0@ by {
                assert(entries[i].0@ != entries[j].0@);
            }
        }
        lemma_entries(rest);
        let last = entries.last();
        assert forall|h: Seq<char>| #[trigger]
            entry_models(entries).dom().contains(h) <==> exists|i: int|
                0 <= i < entries.len() && (#[trigger] entries[i]).0@ == h by {
            if entry_models(rest).dom().contains(h) {
                let i = choose|i: int| 0 <= i < rest.len() && (#[trigger] rest[i]).0@ == h;
                assert(entries[i].0@ == h);
            }
            if exists|i: int| 0 <= i < entries.len() && (#[trigger] entries[i]).0@ == h {
                let i = choose|i: int| 0 <= i < entries.len() && (#[trigger] entries[i]).0@ == h;
                if i < rest.len() {
                    assert(rest[i].0@ == h);
                }
            }
            if h == last.0@ {
                assert(entries[entries.len() - 1].0@ == h);
            }
        }
        assert forall|i: int| 0 <= i < entries.len() implies entry_models(
            entries,
        )[(#[trigger] entries[i]).0@] == opt_shown(entries[i].1) by {
            if i < rest.len() {
                assert(rest[i] == entries[i]);
                assert(entries[i].0@ != entries[entries.len() - 1].0@);
            }
        }
        assert(!entry_models(rest).dom().contains(last.0@)) by {
            if entry_models(rest).dom().contains(last.0@) {
                let i = choose|i: int| 0 <= i < rest.len() && (#[trigger] rest[i]).0@ == last.0@;
                assert(entries[i].0@ != entries[entries.len() - 1].0@);
            }
        }
    }
}

impl AutoTagCache {
    /// No two entries are of the same document.
    pub closed spec fn wf(&self) -> bool {
        entries_distinct(self.entries@)
    }

    /// Nothing was asked for yet.
    pub fn new() -> (r: Self)
        ensures
            r.wf(),
            r@ == Map::<Seq<char>, Option<ShownTags>>::empty(),
    {
        AutoTagCache { entries: Vec::new() }
    }

    /// How many documents the cache holds.
    pub fn len(&self) -> (r: usize)
        requires
            self.wf(),
        ensures
            r == self@.dom().len(),
            self@.dom().finite(),
    {
        proof {
            lemma_entries(self.entries@);
        }
        self.entries.len()
    }

    /// Where the entry of a document stands.
    fn find(&self, content_hash: &str) -> (r: Option<usize>)
        requires
            self.wf(),
        ensures
            r is Some <==> self@.dom().contains(content_hash@),
            r matches Some(i) ==> i < self.entries@.len() && self.entries@[i as int].0@
                == content_hash@ && self@[content_hash@] == opt_shown(self.entries@[i as int].1),
    {
        proof {
            lemma_entries(self.entries@);
        }
        let mut i: usize = 0;
        while i < self.entries.len()
            invariant
                i <= self.entries@.len(),
                self.wf(),
                forall|k: int| 0 <= k < i ==> (#[trigger] self.entries@[k]).0@ != content_hash@,
            decreases self.entries@.len() - i,
        {
            if text::same_text(self.entries[i].0.as_str(), content_hash) {
                proof {
                    lemma_entries(self.entries@);
                    assert(self.entries@[i as int].0@ == content_hash@);
                }
                return Some(i);
            }
            i = i + 1;
        }
        None
    }

    /// Whether the cache has a document.
    pub fn contains(&self, content_hash: &str) -> (r: bool)
        requires
            self.wf(),
        ensures
            r == self@.dom().contains(content_hash@),
    {
        self.find(content_hash).is_some()
    }

    /// Keep what is shown of the tags of a document.
    fn put(&mut self, content_hash: &str, shown: Option<CachedAutoTag>)
        requires
            old(self).wf(),
            !old(self)@.dom().contains(content_hash@),
        ensures
            final(self).wf(),
            final(self)@ == old(self)@.insert(content_hash@, opt_shown(shown)),
    {
        let ghost before = self.entries@;
        proof {
            lemma_entries(before);
        }
        self.entries.push((text::copy_str(content_hash), shown));
        proof {
            assert(self.entries@.drop_last() =~= before);
            assert forall|i: int, j: int| 0 <= i < j < self.entries@.len() implies (
            #[trigger] self.entries@[i]).0@ != (#[trigger] self.entries@[j]).0@ by {
                if j == before.len() {
                    assert(before[i].0@ == self.entries@[i].0@);
                }
            }
        }
    }

    /// Drop the entry of one document: its tags have changed.
    pub fn invalidate_auto_tag(&mut self, content_hash: &str)
        requires
            old(self).wf(),
        ensures
            final(self).wf(),
            final(self)@ == old(self)@.remove(content_hash@),
    {
        proof {
            lemma_entries(self.entries@);
        }
        let ghost all = self@;
        match self.find(content_hash) {
            Some(i) => {
                let ghost before = self.entries@;
                let _gone: (String, Option<CachedAutoTag>) = self.entries.remove(i);
                proof {
                    let after = self.entries@;
                    assert forall|a: int, b: int| 0 <= a < b < after.len() implies (
                    #[trigger] after[a]).0@ != (#[trigger] after[b]).0@ by {
                        let pa = if a < i {
                            a
                        } else {
                            a + 1
                        };
                        let pb = if b < i {
                            b
                        } else {
                            b + 1
                        };
                        assert(after[a] == before[pa]);
                        assert(after[b] == before[pb]);
                        assert(before[pa].0@ != before[pb].0@);
                    }
                    lemma_entries(after);
                    assert forall|h: Seq<char>| #[trigger]
                        entry_models(after).dom().contains(h) == all.remove(
                            content_hash@,
                        ).dom().contains(h) by {
                        if entry_models(after).dom().contains(h) {
                            let a = choose|a: int| 0 <= a < after.len() && (#[trigger] after[a]).0@ == h;
                            let pa = if a < i {
                                a
                            } else {
                                a + 1
                            };
                            assert(before[pa].0@ == h);
                            if pa < i {
                                assert(before[pa].0@ != before[i as int].0@);
                            } else {
                                assert(before[i as int].0@ != before[pa].0@);
                            }
                        }
                        if all.remove(content_hash@).dom().contains(h) {
                            let p = choose|p: int| 0 <= p < before.len() && (#[trigger] before[p]).0@ == h;
                            let a = if p < i {
                                p
                            } else {
                                p - 1
                            };
                            assert(after[a].0@ == h);
                        }
                    }
                    assert forall|h: Seq<char>| #[trigger]
                        entry_models(after).dom().contains(h) implies entry_models(after)[h]
                        == all.remove(content_hash@)[h] by {
                        let a = choose|a: int| 0 <= a < after.len() && (#[trigger] after[a]).0@ == h;
                        let pa = if a < i {
                            a
                        } else {
                            a + 1
                        };
                        assert(before[pa] == after[a]);
                        assert(entry_models(before)[before[pa].0@] == opt_shown(before[pa].1));
                    }
                    assert(self@ =~= all.remove(content_hash@));
                }
            },
            None => {
                assert(all.remove(content_hash@) =~= all);
            },
        }
    }

    /// Drop every entry: every document was queued again.
    pub fn clear_auto_tag_cache(&mut self)
        ensures
            final(self).wf(),
            final(self)@ == Map::<Seq<char>, Option<ShownTags>>::empty(),
    {
        self.entries = Vec::new();
    }

    /// Fetch what is shown of the tags of these documents and keep it. Documents
    /// that were fetched before stay as they were; those that have nothing to show
    /// are kept as such, so that they are not asked for again. A cache that has
    /// grown too large is emptied.
    pub fn ensure_auto_tag_cache(&mut self, hashes: &[&str], tags: Option<&TagStore>)
        requires
            old(self).wf(),
            tags matches Some(t) ==> t.wf(),
        ensures
            final(self).wf(),
            ({
                let asked = hashes@.map_values(|h: &str| h@);
                let m = match tags {
                    Some(t) => Some(t@),
                    None => None,
                };
                let after = filled(old(self)@, m, asked);
                final(self)@ == if tags is Some && lacks_one(old(self)@, asked) && after.dom().len()
                    > MAX_ENTRIES {
                    Map::<Seq<char>, Option<ShownTags>>::empty()
                } else {
                    after
                }
            }),
    {
        let ghost before = self@;
        let ghost asked = hashes@.map_values(|h: &str| h@);
        let ghost m: Option<store::StoreModel> = match tags {
            Some(t) => Some(t@),
            None => None,
        };
        let mut lacked: bool = false;
        let mut i: usize = 0;
        assert(asked.take(0) =~= Seq::<Seq<char>>::empty());
        while i < hashes.len()
            invariant
                i <= hashes@.len(),
                self.wf(),
                tags matches Some(t) ==> t.wf(),
                asked == hashes@.map_values(|h: &str| h@),
                m == (match tags {
                    Some(t) => Some(t@),
                    None => None::<store::StoreModel>,
                }),
                self@ == filled(before, m, asked.take(i as int)),
                lacked ==> lacks_one(before, asked),
                !lacked ==> self@ == before,
                !lacked ==> forall|k: int| 0 <= k < i ==> before.dom().contains(#[trigger] asked[k]),
            decreases hashes@.len() - i,
        {
            let hash: &str = hashes[i];
            proof {
                assert(asked.take(i + 1).drop_last() =~= asked.take(i as int));
                assert(asked.take(i + 1).last() == hash@);
                assert(asked[i as int] == hash@);
            }
            if !self.contains(hash) {
                proof {
                    if !lacked {
                        assert(!before.dom().contains(asked[i as int]));
                    }
                }
                lacked = true;
                let shown: Option<CachedAutoTag> = match tags {
                    Some(t) => fetch_shown(t, hash),
                    None => None,
                };
                self.put(hash, shown);
            }
            i = i + 1;
        }
        assert(asked.take(asked.len() as int) =~= asked);
        if tags.is_some() && lacked {
            if self.len() > MAX_ENTRIES {
                self.entries = Vec::new();
            }
        }
    }

    /// What is shown of the tags of a document, as far as it was fetched.
    pub fn cached_tags(&self, content_hash: &str) -> (r: Option<Vec<String>>)
        requires
            self.wf(),
        ensures
            r is Some <==> self@.dom().contains(content_hash@) && self@[content_hash@] is Some,
            r is Some ==> text::texts(r->0@) == shown_tags(self@[content_hash@]),
    {
        match self.find(content_hash) {
            Some(i) => match &self.entries[i].1 {
                Some(c) => Some(tag_json::read_texts(&c.value, "tags")),
                None => None,
            },
            None => None,
        }
    }

    /// The file name under which a document was tagged, as far as it was fetched.
    pub fn cached_filename(&self, content_hash: &str) -> (r: Option<String>)
        requires
            self.wf(),
        ensures
            r is Some <==> self@.dom().contains(content_hash@) && self@[content_hash@] is Some,
            r is Some ==> r->0@ == self@[content_hash@]->0.filename,
    {
        match self.find(content_hash) {
            Some(i) => match &self.entries[i].1 {
                Some(c) => Some(text::copy_str(c.filename.as_str())),
                None => None,
            },
            None => None,
        }
    }

    /// The texts under a kind of entity, as far as they were fetched.
    pub fn cached_entities(&self, content_hash: &str, kind: &str) -> (r: Vec<String>)
        requires
            self.wf(),
        ensures
            text::texts(r@) == if self@.dom().contains(content_hash@) && self@[content_hash@] is Some {
                entities_of(self@[content_hash@]->0.value, kind@)
            } else {
                Seq::empty()
            },
    {
        if let Some(i) = self.find(content_hash) {
            if let Some(c) = &self.entries[i].1 {
                if let Some(entities) = json::json_field(&c.value, "entities") {
                    return tag_json::read_texts(entities, kind);
                }
            }
        }
        let r: Vec<String> = Vec::new();
        assert(text::texts(r@) =~= Seq::<Seq<char>>::empty());
        r
    }

    /// The auto-tags of a document: fetched where they were not, and none where
    /// there is nothing to show.
    pub fn cached_auto_tags(&mut self, content_hash: &str, tags: Option<&TagStore>) -> (r: Vec<String>)
        requires
            old(self).wf(),
            tags matches Some(t) ==> t.wf(),
        ensures
            final(self).wf(),
            old(self)@.dom().contains(content_hash@) ==> final(self)@ == old(self)@
                && text::texts(r@) == shown_tags(old(self)@[content_hash@]),
            !old(self)@.dom().contains(content_hash@) ==> {
                let shown = fetched_from(
                    match tags {
                        Some(t) => Some(t@),
                        None => None,
                    },
                    content_hash@,
                );
                let after = old(self)@.insert(content_hash@, shown);
                if tags is Some && after.dom().len() > MAX_ENTRIES {
                    &&& final(self)@ == Map::<Seq<char>, Option<ShownTags>>::empty()
                    &&& text::texts(r@) == Seq::<Seq<char>>::empty()
                } else {
                    &&& final(self)@ == after
                    &&& text::texts(r@) == shown_tags(shown)
                }
            },
    {
        let ghost before = self@;
        proof {
            lemma_entries(self.entries@);
        }
        if !self.contains(content_hash) {
            let asked: [&str; 1] = [content_hash];
            self.ensure_auto_tag_cache(asked.as_slice(), tags);
            proof {
                let texts = asked@.map_values(|h: &str| h@);
                assert(texts =~= seq![content_hash@]);
                assert(texts.drop_last() =~= Seq::<Seq<char>>::empty());
                assert(!before.dom().contains(texts[0]));
                reveal_with_fuel(filled, 2);
            }
        }
        match self.cached_tags(content_hash) {
            Some(found) => found,
            None => {
                let r: Vec<String> = Vec::new();
                assert(text::texts(r@) =~= Seq::<Seq<char>>::empty());
                r
            },
        }
    }
}

/// The texts under a kind of entity of a value.
pub open spec fn entities_of(value: JsonModel, kind: Seq<char>) -> Seq<Seq<char>> {
    match json::field_of(value, "entities"@) {
        Some(entities) => tag_json::texts_under(entities, kind),
        None => Seq::empty(),
    }
}

/// What the store has to show of the tags of a document.
fn fetch_shown(tags: &TagStore, content_hash: &str) -> (r: Option<CachedAutoTag>)
    requires
        tags.wf(),
    ensures
        opt_shown(r) == fetched(tags@, content_hash@),
{
    match tags.auto_tag_status(content_hash) {
        Ok(Some(status)) => match &status.tags_json {
            Some(t) => match json::parse_json(t.as_str()) {
                Ok(value) => Some(
                    CachedAutoTag { filename: text::copy_str(status.filename.as_str()), value: value },
                ),
                Err(_) => None,
            },
            None => None,
        },
        _ => None,
    }
}

/// The cache serves what it fetched, whatever becomes of the store, until the
/// document is dropped from it; then the store is asked again.
pub proof fn cache_serves_until_invalidated(
    cache: Map<Seq<char>, Option<ShownTags>>,
    now: Option<store::StoreModel>,
    hash: Seq<char>,
)
    ensures
        cache.dom().contains(hash) ==> filled(cache, now, seq![hash]) == cache,
        filled(cache.remove(hash), now, seq![hash]) == cache.insert(hash, fetched_from(now, hash)),
{
    assert(seq![hash].drop_last() =~= Seq::<Seq<char>>::empty());
    reveal_with_fuel(filled, 2);
    assert(cache.remove(hash).insert(hash, fetched_from(now, hash)) =~= cache.insert(
        hash,
        fetched_from(now, hash),
    ));
}

// ── What is shown of the tags of a document ──

/// What is shown of a document is what its status row keeps, where that is JSON, under
/// the name that the row has; nothing else is shown.
pub proof fn kept_tags_are_shown(m: store::StoreModel, hash: Seq<char>)
    ensures
        m.status_of(hash) is None ==> fetched(m, hash) is None,
        m.status_of(hash) matches Some(s) ==> {
            &&& s.tags_json is None ==> fetched(m, hash) is None
            &&& s.tags_json is Some && json::json_parse(s.tags_json->0) is None ==> fetched(
                m,
                hash,
            ) is None
            &&& s.tags_json is Some && json::json_parse(s.tags_json->0) is Some ==> fetched(
                m,
                hash,
            ) == Some(
                ShownTags { filename: s.filename, value: json::json_parse(s.tags_json->0)->0 },
            ) && shown_tags(fetched(m, hash)) == tag_json::kept_tags(s.tags_json->0)
        },
        fetched_from(None, hash) is None,
        fetched_from(Some(m), hash) == fetched(m, hash),
        shown_tags(None) == Seq::<Seq<char>>::empty(),
        MAX_ENTRIES == 4096,
{
}

/// The entities of a kind are the texts under its name, among the entities that are
/// shown.
pub proof fn entities_are_shown_by_kind(
    fields: Map<Seq<char>, JsonModel>,
    kind: Seq<char>,
)
    ensures
        fields.contains_key("entities"@) ==> entities_of(JsonModel::Object(fields), kind)
            == tag_json::texts_under(fields["entities"@], kind),
        !fields.contains_key("entities"@) ==> entities_of(JsonModel::Object(fields), kind).len()
            == 0,
{
}

/// Filling the cache: each document that is asked for is there afterwards, as the cache
/// had it or as the store shows it, and every other is as it was.
pub proof fn each_document_is_fetched_once(
    cache: Map<Seq<char>, Option<ShownTags>>,
    m: Option<store::StoreModel>,
    hashes: Seq<Seq<char>>,
    h: Seq<char>,
)
    ensures
        cache.dom().contains(h) ==> filled(cache, m, hashes).dom().contains(h) && filled(
            cache,
            m,
            hashes,
        )[h] == cache[h],
        !cache.dom().contains(h) && hashes.contains(h) ==> filled(cache, m, hashes).dom().contains(
            h,
        ) && filled(cache, m, hashes)[h] == fetched_from(m, h),
        !cache.dom().contains(h) && !hashes.contains(h) ==> !filled(cache, m, hashes).dom().contains(
            h,
        ),
        lacks_one(cache, hashes) <==> exists|i: int|
            0 <= i < hashes.len() && !cache.dom().contains(#[trigger] hashes[i]),
    decreases hashes.len(),
{
    if hashes.len() > 0 {
        let rest = hashes.drop_last();
        each_document_is_fetched_once(cache, m, rest, h);
        if hashes.contains(h) && !rest.contains(h) {
            let i = choose|i: int| 0 <= i < hashes.len() && hashes[i] == h;
            if i < rest.len() {
                assert(rest[i] == h);
            }
        }
        if rest.contains(h) {
            let i = choose|i: int| 0 <= i < rest.len() && rest[i] == h;
            assert(hashes[i] == h);
        }
        if hashes.last() == h {
            assert(hashes[hashes.len() - 1] == h);
        }
    }
}

/// What is shown of the tags of a document is seen as all that is cached of it.
pub proof fn cached_tags_are_seen_whole(c: CachedAutoTag)
    ensures
        c@.filename == c.filename@ && c@.value == json::json_model(c.value),
        opt_shown(Some(c)) == Some(c@),
        opt_shown(None) is None,
{
}

/// What was fetched of a document is shown whole: its name and its tags; nothing is shown
/// of one that was not fetched.
pub proof fn fetched_tags_are_shown(
    c: AutoTagCache,
    hash: &str,
    kind: &str,
    tags: Option<Vec<String>>,
    name: Option<String>,
    entities: Vec<String>,
)
    requires
        call_ensures(AutoTagCache::cached_tags, (&c, hash), tags),
        call_ensures(AutoTagCache::cached_filename, (&c, hash), name),
        call_ensures(AutoTagCache::cached_entities, (&c, hash, kind), entities),
    ensures
        tags is Some <==> name is Some,
        !c@.dom().contains(hash@) ==> tags is None && entities@.len() == 0,
        c@.dom().contains(hash@) && c@[hash@] is Some ==> tags is Some && text::texts(tags->0@)
            == tag_json::texts_under(c@[hash@]->0.value, "tags"@) && name->0@
            == c@[hash@]->0.filename,
{
    assert(text::texts(entities@).len() == entities@.len());
}

} // verus!
