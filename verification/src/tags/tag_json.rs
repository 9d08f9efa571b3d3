//! The JSON in which the tags of a document are kept:
//! `{"tags": [..], "entities": {..}}`.

use vstd::prelude::*;

use crate::json;
use crate::json::JsonModel;
use crate::text;

verus! {

/// The value with the text `tag` taken out of its "tags"; any other value, and
/// any other item, is unchanged.
pub open spec fn without_tag_name(v: JsonModel, tag: Seq<char>) -> JsonModel {
    match json::field_of(v, "tags"@) {
        Some(JsonModel::Array(items)) => JsonModel::Object(
            v->Object_0.insert(
                "tags"@,
                JsonModel::Array(items.filter(|t: JsonModel| json::text_of(t) != Some(tag))),
            ),
        ),
        _ => v,
    }
}

/// The texts among some items, in order.
pub open spec fn item_texts(items: Seq<JsonModel>) -> Seq<Seq<char>> {
    items.filter(|v: JsonModel| json::text_of(v) is Some).map_values(|v: JsonModel| v->Text_0)
}

/// The texts under a key: those of an array, and none for any other value.
pub open spec fn texts_under(v: JsonModel, key: Seq<char>) -> Seq<Seq<char>> {
    match json::field_of(v, key) {
        Some(JsonModel::Array(items)) => item_texts(items),
        _ => Seq::empty(),
    }
}

/// The tags that a text keeps: none where it is not JSON.
pub open spec fn kept_tags(text: Seq<char>) -> Seq<Seq<char>> {
    match json::json_parse(text) {
        Some(v) => texts_under(v, "tags"@),
        None => Seq::empty(),
    }
}

/// Takes the text `tag` out of the "tags" of a value.
pub(crate) fn drop_tag(v: &serde_json::Value, tag: &str) -> (r: serde_json::Value)
    ensures
        json::json_model(r) == without_tag_name(json::json_model(*v), tag@),
{
    let ghost m = json::json_model(*v);
    let field: &serde_json::Value = match json::json_field(v, "tags") {
        Some(f) => f,
        None => {
            return json::copy_value(v);
        },
    };
    let items: &Vec<serde_json::Value> = match json::json_items(field) {
        Some(items) => items,
        None => {
            return json::copy_value(v);
        },
    };
    let ghost all = json::json_models(items@);
    let ghost p = |t: JsonModel| json::text_of(t) != Some(tag@);
    let mut kept: Vec<serde_json::Value> = Vec::new();
    let mut i: usize = 0;
    proof {
        reveal(Seq::filter);
        assert(all.take(0) =~= Seq::<JsonModel>::empty());
        assert(json::json_models(kept@) =~= Seq::<JsonModel>::empty());
    }
    while i < items.len()
        invariant
            i <= items@.len(),
            all == json::json_models(items@),
            p == (|t: JsonModel| json::text_of(t) != Some(tag@)),
            json::json_models(kept@) == all.take(i as int).filter(p),
        decreases items@.len() - i,
    {
        let ghost kept0 = kept@;
        proof {
            reveal(Seq::filter);
            assert(all.take(i + 1).drop_last() =~= all.take(i as int));
            assert(all.take(i + 1).last() == json::json_model(items@[i as int]));
        }
        let same: bool = match json::json_text(&items[i]) {
            Some(s) => text::same_text(s, tag),
            None => false,
        };
        if !same {
            kept.push(json::copy_value(&items[i]));
            assert(json::json_models(kept@) =~= json::json_models(kept0).push(all[i as int]));
        }
        i = i + 1;
    }
    assert(all.take(all.len() as int) =~= all);
    let mut r: serde_json::Value = json::copy_value(v);
    json::set_field(&mut r, "tags", json::array_value(kept));
    r
}

/// The texts among some items, in order.
fn items_to_texts(items: &Vec<serde_json::Value>) -> (r: Vec<String>)
    ensures
        text::texts(r@) == item_texts(json::json_models(items@)),
{
    let ghost all = json::json_models(items@);
    let ghost p = |v: JsonModel| json::text_of(v) is Some;
    let ghost f = |v: JsonModel| v->Text_0;
    let mut r: Vec<String> = Vec::new();
    let mut i: usize = 0;
    proof {
        reveal(Seq::filter);
        assert(all.take(0) =~= Seq::<JsonModel>::empty());
        assert(text::texts(r@) =~= all.take(0).filter(p).map_values(f));
    }
    while i < items.len()
        invariant
            i <= items@.len(),
            all == json::json_models(items@),
            p == (|v: JsonModel| json::text_of(v) is Some),
            f == (|v: JsonModel| v->Text_0),
            text::texts(r@) == all.take(i as int).filter(p).map_values(f),
        decreases items@.len() - i,
    {
        let ghost r0 = r@;
        proof {
            reveal(Seq::filter);
            assert(all.take(i + 1).drop_last() =~= all.take(i as int));
            assert(all.take(i + 1).last() == json::json_model(items@[i as int]));
        }
        if let Some(s) = json::json_text(&items[i]) {
            r.push(text::copy_str(s));
            proof {
                assert(text::texts(r@) =~= text::texts(r0).push(f(all[i as int])));
                assert(all.take(i + 1).filter(p) =~= all.take(i as int).filter(p).push(all[i as int]));
                assert(all.take(i + 1).filter(p).map_values(f) =~= all.take(i as int).filter(
                    p,
                ).map_values(f).push(f(all[i as int])));
            }
        }
        i = i + 1;
    }
    assert(all.take(all.len() as int) =~= all);
    r
}

/// The texts under a key of a value.
pub(crate) fn read_texts(v: &serde_json::Value, key: &str) -> (r: Vec<String>)
    ensures
        text::texts(r@) == texts_under(json::json_model(*v), key@),
{
    if let Some(field) = json::json_field(v, key) {
        if let Some(items) = json::json_items(field) {
            return items_to_texts(items);
        }
    }
    let r: Vec<String> = Vec::new();
    assert(text::texts(r@) =~= Seq::<Seq<char>>::empty());
    r
}

/// The tags that a text keeps.
pub fn read_tags(text: &str) -> (r: Vec<String>)
    ensures
        text::texts(r@) == kept_tags(text@),
{
    match json::parse_json(text) {
        Ok(v) => read_texts(&v, "tags"),
        Err(_) => {
            let r: Vec<String> = Vec::new();
            assert(text::texts(r@) =~= Seq::<Seq<char>>::empty());
            r
        },
    }
}

// ── What is read ──

/// One item more is one text more where it is a text, and nothing more where it is not.
pub proof fn texts_are_read_one_by_one(items: Seq<JsonModel>, v: JsonModel)
    ensures
        item_texts(Seq::empty()) == Seq::<Seq<char>>::empty(),
        v matches JsonModel::Text(s) ==> item_texts(items.push(v)) == item_texts(items).push(s),
        !(v is Text) ==> item_texts(items.push(v)) == item_texts(items),
{
    reveal(Seq::filter);
    let p = |v: JsonModel| json::text_of(v) is Some;
    assert(items.push(v).drop_last() =~= items);
    assert(Seq::<JsonModel>::empty().filter(p) =~= Seq::empty());
    assert(item_texts(Seq::empty()) =~= Seq::<Seq<char>>::empty());
    if v is Text {
        assert(items.push(v).filter(p) =~= items.filter(p).push(v));
        assert(item_texts(items.push(v)) =~= item_texts(items).push(v->Text_0));
    } else {
        assert(items.push(v).filter(p) =~= items.filter(p));
    }
}

/// The texts of an array of texts are all that it holds.
proof fn lemma_all_texts(items: Seq<JsonModel>)
    requires
        forall|i: int| 0 <= i < items.len() ==> (#[trigger] items[i]) is Text,
    ensures
        item_texts(items).len() == items.len(),
        forall|i: int|
            0 <= i < items.len() ==> JsonModel::Text(#[trigger] item_texts(items)[i]) == items[i],
    decreases items.len(),
{
    if items.len() == 0 {
        texts_are_read_one_by_one(items, JsonModel::Null);
        assert(items =~= Seq::empty());
    } else {
        let rest = items.drop_last();
        assert forall|i: int| 0 <= i < rest.len() implies (#[trigger] rest[i]) is Text by {
            assert(rest[i] == items[i]);
        }
        lemma_all_texts(rest);
        assert(items[items.len() - 1] is Text);
        texts_are_read_one_by_one(rest, items.last());
        assert(rest.push(items.last()) =~= items);
        assert forall|i: int| 0 <= i < items.len() implies JsonModel::Text(
            #[trigger] item_texts(items)[i],
        ) == items[i] by {
            if i < rest.len() {
                assert(item_texts(rest)[i] == item_texts(items)[i]);
                assert(rest[i] == items[i]);
            }
        }
    }
}

/// The tags of a document are the texts at "tags" in what is kept for it, each of them
/// and in order; there are none where that is not JSON or has no such array.
pub proof fn tags_are_read_from_what_is_kept(
    text: Seq<char>,
    fields: Map<Seq<char>, JsonModel>,
    items: Seq<JsonModel>,
)
    ensures
        json::json_parse(text) is None ==> kept_tags(text).len() == 0,
        json::json_parse(text) == Some(JsonModel::Object(fields)) && !fields.contains_key("tags"@)
            ==> kept_tags(text).len() == 0,
        json::json_parse(text) == Some(JsonModel::Object(fields)) && fields.contains_key("tags"@)
            && fields["tags"@] == JsonModel::Array(items) && (forall|i: int|
            0 <= i < items.len() ==> (#[trigger] items[i]) is Text) ==> {
            &&& kept_tags(text).len() == items.len()
            &&& forall|i: int|
                0 <= i < items.len() ==> JsonModel::Text(#[trigger] kept_tags(text)[i]) == items[i]
        },
{
    if forall|i: int| 0 <= i < items.len() ==> (#[trigger] items[i]) is Text {
        lemma_all_texts(items);
    }
}

/// Taking a tag out leaves every other item of the tags, in order, and every other field;
/// the tag is no longer there.
pub proof fn one_tag_is_taken_out(
    fields: Map<Seq<char>, JsonModel>,
    items: Seq<JsonModel>,
    tag: Seq<char>,
    item: JsonModel,
    key: Seq<char>,
)
    requires
        fields.contains_key("tags"@),
        fields["tags"@] == JsonModel::Array(items),
    ensures
        ({
            let after = without_tag_name(JsonModel::Object(fields), tag);
            let left = after->Object_0["tags"@]->Array_0;
            &&& after is Object && after->Object_0.contains_key("tags"@)
            &&& after->Object_0["tags"@] is Array
            &&& left.contains(item) <==> items.contains(item) && item != JsonModel::Text(tag)
            &&& key != "tags"@ ==> (after->Object_0.contains_key(key) <==> fields.contains_key(key))
            &&& key != "tags"@ && fields.contains_key(key) ==> after->Object_0[key] == fields[key]
            &&& !items.contains(JsonModel::Text(tag)) ==> left == items
        }),
{
    let p = |t: JsonModel| json::text_of(t) != Some(tag);
    let left = items.filter(p);
    assert(p(item) == (item != JsonModel::Text(tag)));
    if items.contains(item) && p(item) {
        let i = choose|i: int| 0 <= i < items.len() && items[i] == item;
        items.lemma_filter_contains(p, i);
    }
    if left.contains(item) {
        items.lemma_filter_contains_rev(p, item);
        let i = choose|i: int| 0 <= i < left.len() && left[i] == item;
        items.lemma_filter_pred(p, i);
    }
    if !items.contains(JsonModel::Text(tag)) {
        lemma_nothing_taken(items, tag);
    }
}

/// Where a tag is not there, nothing is taken out.
proof fn lemma_nothing_taken(items: Seq<JsonModel>, tag: Seq<char>)
    requires
        !items.contains(JsonModel::Text(tag)),
    ensures
        items.filter(|t: JsonModel| json::text_of(t) != Some(tag)) == items,
    decreases items.len(),
{
    reveal(Seq::filter);
    if items.len() > 0 {
        let rest = items.drop_last();
        assert(items.contains(items[items.len() - 1]));
        assert(!rest.contains(JsonModel::Text(tag))) by {
            if rest.contains(JsonModel::Text(tag)) {
                let i = choose|i: int| 0 <= i < rest.len() && rest[i] == JsonModel::Text(tag);
                assert(items[i] == JsonModel::Text(tag));
            }
        }
        lemma_nothing_taken(rest, tag);
        assert(rest.push(items.last()) =~= items);
    } else {
        assert(items.filter(|t: JsonModel| json::text_of(t) != Some(tag)) =~= items);
    }
}

} // verus!
