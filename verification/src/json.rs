//! JSON values: what a `serde_json::Value` holds, and the calls into
//! `serde_json` that read and make one.

use vstd::prelude::*;

use crate::text;

verus! {

/// The value type of `serde_json`.
#[verifier::external_type_specification]
#[verifier::external_body]
pub struct ExValue(serde_json::Value);

/// The error type of `serde_json`.
#[verifier::external_type_specification]
#[verifier::external_body]
pub struct ExJsonError(serde_json::Error);

/// What a JSON value holds. A number is the text that it is written as; an
/// object has each key at most once and no order.
pub enum JsonModel {
    Null,
    Bool(bool),
    Number(Seq<char>),
    Text(Seq<char>),
    Array(Seq<JsonModel>),
    Object(Map<Seq<char>, JsonModel>),
}

/// What a `serde_json::Value` holds.
pub uninterp spec fn json_model(v: serde_json::Value) -> JsonModel;

/// What `serde_json::from_str` reads from a text, or `None` where it fails.
pub uninterp spec fn json_parse(text: Seq<char>) -> Option<JsonModel>;

/// What `serde_json::Value`'s `to_string` writes for a value.
pub uninterp spec fn json_render(v: JsonModel) -> Seq<char>;

/// What the items of a list of values hold.
pub open spec fn json_models(items: Seq<serde_json::Value>) -> Seq<JsonModel> {
    items.map_values(|v: serde_json::Value| json_model(v))
}

/// The array of texts `items`.
pub open spec fn text_array(items: Seq<Seq<char>>) -> JsonModel {
    JsonModel::Array(items.map_values(|s: Seq<char>| JsonModel::Text(s)))
}

/// The decimal digits of a number.
pub open spec fn decimal(n: nat) -> Seq<char>
    decreases n,
{
    let digit = ('0' as u32 + (n % 10) as u32) as char;
    if n < 10 {
        seq![digit]
    } else {
        decimal(n / 10).push(digit)
    }
}

/// An array that holds texts only.
pub open spec fn is_text_array(v: JsonModel) -> bool {
    v matches JsonModel::Array(items) && forall|i: int|
        0 <= i < items.len() ==> (#[trigger] items[i]) is Text
}

/// An object whose fields are arrays of texts, or objects with such fields.
pub open spec fn is_tag_shaped(v: JsonModel) -> bool {
    v matches JsonModel::Object(fields) && forall|k: Seq<char>| #[trigger]
        fields.contains_key(k) ==> is_text_array(fields[k]) || (fields[k] matches JsonModel::Object(
            inner,
        ) && forall|j: Seq<char>| #[trigger] inner.contains_key(j) ==> is_text_array(inner[j]))
}

/// The field `key` of an object.
pub open spec fn field_of(v: JsonModel, key: Seq<char>) -> Option<JsonModel> {
    match v {
        JsonModel::Object(fields) => if fields.contains_key(key) {
            Some(fields[key])
        } else {
            None
        },
        _ => None,
    }
}

/// The text that a value is.
pub open spec fn text_of(v: JsonModel) -> Option<Seq<char>> {
    match v {
        JsonModel::Text(s) => Some(s),
        _ => None,
    }
}

/// The items of an array.
pub open spec fn items_of(v: JsonModel) -> Option<Seq<JsonModel>> {
    match v {
        JsonModel::Array(items) => Some(items),
        _ => None,
    }
}

/// `serde_json::from_str` for a `Value`: whether it succeeds, and what it reads,
/// is named by `json_parse`.
#[verifier::external_body]
pub(crate) fn parse_json(text: &str) -> (r: Result<serde_json::Value, serde_json::Error>)
    ensures
        r is Ok <==> json_parse(text@) is Some,
        r matches Ok(v) ==> json_model(v) == json_parse(text@)->0,
{
    serde_json::from_str(text)
}

/// `serde_json::Value`'s `to_string`: the compact text of a value, named by
/// `json_render`. Of an object of arrays of texts it is a text that
/// `serde_json::from_str` reads back as the same object.
#[verifier::external_body]
pub(crate) fn render_json(v: &serde_json::Value) -> (r: String)
    ensures
        r@ == json_render(json_model(*v)),
        is_tag_shaped(json_model(*v)) ==> json_parse(r@) == Some(json_model(*v)),
{
    v.to_string()
}

/// `serde_json::Value::get` with a key: the field of an object, and nothing for
/// any other value or a key that is not there.
#[verifier::external_body]
pub(crate) fn json_field<'a>(v: &'a serde_json::Value, key: &str) -> (r: Option<
    &'a serde_json::Value,
>)
    ensures
        r is Some <==> field_of(json_model(*v), key@) is Some,
        r matches Some(f) ==> Some(json_model(*f)) == field_of(json_model(*v), key@),
{
    v.get(key)
}

/// `serde_json::Value::as_array`: the items of an array, nothing for any other
/// value.
#[verifier::external_body]
pub(crate) fn json_items<'a>(v: &'a serde_json::Value) -> (r: Option<&'a Vec<serde_json::Value>>)
    ensures
        r is Some <==> items_of(json_model(*v)) is Some,
        r matches Some(items) ==> Some(json_models(items@)) == items_of(json_model(*v)),
{
    v.as_array()
}

/// `serde_json::Value::as_str`: the text of a string value, nothing for any
/// other value.
#[verifier::external_body]
pub(crate) fn json_text<'a>(v: &'a serde_json::Value) -> (r: Option<&'a str>)
    ensures
        r is Some <==> text_of(json_model(*v)) is Some,
        r matches Some(s) ==> Some(s@) == text_of(json_model(*v)),
{
    v.as_str()
}

/// `serde_json::Value::is_object`.
#[verifier::external_body]
pub(crate) fn is_object(v: &serde_json::Value) -> (r: bool)
    ensures
        r == (json_model(*v) is Object),
{
    v.is_object()
}

/// `serde_json::Error`'s `to_string`: a description of the error. Nothing is
/// claimed of the words.
#[verifier::external_body]
pub(crate) fn json_error_text(e: &serde_json::Error) -> (r: String)
{
    e.to_string()
}

/// `serde_json::Value`'s `clone`.
#[verifier::external_body]
pub(crate) fn copy_value(v: &serde_json::Value) -> (r: serde_json::Value)
    ensures
        json_model(r) == json_model(*v),
{
    v.clone()
}

/// The `serde_json::Value::String` of a text.
#[verifier::external_body]
pub(crate) fn text_value(s: &str) -> (r: serde_json::Value)
    ensures
        json_model(r) == JsonModel::Text(s@),
{
    serde_json::Value::String(s.to_string())
}

/// The `serde_json::Value::Bool` of a truth value.
#[verifier::external_body]
pub(crate) fn bool_value(b: bool) -> (r: serde_json::Value)
    ensures
        json_model(r) == JsonModel::Bool(b),
{
    serde_json::Value::Bool(b)
}

/// The `serde_json::Value::Null`.
#[verifier::external_body]
pub(crate) fn null_value() -> (r: serde_json::Value)
    ensures
        json_model(r) == JsonModel::Null,
{
    serde_json::Value::Null
}

/// `serde_json::Value`'s `From<usize>`: the number of a count, which is written
/// as its decimal digits.
#[verifier::external_body]
pub(crate) fn count_value(n: usize) -> (r: serde_json::Value)
    ensures
        json_model(r) == JsonModel::Number(decimal(n as nat)),
{
    serde_json::Value::from(n)
}

/// The `serde_json::Value::Array` of some items.
#[verifier::external_body]
pub(crate) fn array_value(items: Vec<serde_json::Value>) -> (r: serde_json::Value)
    ensures
        json_model(r) == JsonModel::Array(json_models(items@)),
{
    serde_json::Value::Array(items)
}

/// The `serde_json::Value::Object` of an empty `serde_json::Map`.
#[verifier::external_body]
pub(crate) fn empty_object() -> (r: serde_json::Value)
    ensures
        json_model(r) == JsonModel::Object(Map::empty()),
{
    serde_json::Value::Object(serde_json::Map::new())
}

/// `serde_json::Value`'s `IndexMut` with a key: sets the field of an object,
/// whether or not it was there.
#[verifier::external_body]
pub(crate) fn set_field(v: &mut serde_json::Value, key: &str, item: serde_json::Value)
    requires
        json_model(*old(v)) is Object,
    ensures
        json_model(*final(v)) == JsonModel::Object(
            json_model(*old(v))->Object_0.insert(key@, json_model(item)),
        ),
{
    v[key] = item;
}

/// The JSON array of some texts.
pub fn texts_value(items: &[String]) -> (r: serde_json::Value)
    ensures
        json_model(r) == text_array(text::texts(items@)),
{
    let mut values: Vec<serde_json::Value> = Vec::new();
    let mut i: usize = 0;
    while i < items.len()
        invariant
            i <= items@.len(),
            values@.len() == i,
            forall|k: int|
                0 <= k < i ==> json_model(#[trigger] values@[k]) == JsonModel::Text(items@[k]@),
        decreases items@.len() - i,
    {
        values.push(text_value(items[i].as_str()));
        i = i + 1;
    }
    assert(json_models(values@) =~= text::texts(items@).map_values(|s: Seq<char>| JsonModel::Text(s)));
    array_value(values)
}

/// The decimal digits of a number.
pub fn decimal_text(n: u64) -> (r: String)
    ensures
        r@ == decimal(n as nat),
    decreases n,
{
    let digit: char = digit_char(n % 10);
    let mut r: String = if n < 10 {
        String::new()
    } else {
        decimal_text(n / 10)
    };
    let ghost before = r@;
    r.push(digit);
    assert(n < 10 ==> r@ =~= seq![digit]);
    r
}

/// The character of a decimal digit.
fn digit_char(d: u64) -> (r: char)
    requires
        d < 10,
    ensures
        r == ('0' as u32 + d as u32) as char,
{
    match d {
        0 => '0',
        1 => '1',
        2 => '2',
        3 => '3',
        4 => '4',
        5 => '5',
        6 => '6',
        7 => '7',
        8 => '8',
        _ => '9',
    }
}

// ── What the models say ──

/// A number is written in decimal digits whose value it is, without zeros before them.
pub proof fn digits_have_the_value_of_the_number(n: nat)
    ensures
        decimal(n).len() > 0,
        crate::auto_tagger::names::all_digits(decimal(n)),
        crate::auto_tagger::names::digits_value(decimal(n)) == n,
        n > 0 ==> decimal(n)[0] != '0',
        n < 10 ==> decimal(n).len() == 1,
        n >= 10 ==> decimal(n).len() == decimal(n / 10).len() + 1,
    decreases n,
{
    let digit = ('0' as u32 + (n % 10) as u32) as char;
    assert(digit as int == '0' as int + n % 10);
    if n < 10 {
        assert(decimal(n) =~= seq![digit]);
        assert(decimal(n).drop_last() =~= Seq::<char>::empty());
        assert(crate::auto_tagger::names::digits_value(decimal(n).drop_last()) == 0);
        assert(decimal(n).last() == digit);
    } else {
        digits_have_the_value_of_the_number(n / 10);
        let before = decimal(n / 10);
        assert(decimal(n).drop_last() =~= before);
        assert(decimal(n).last() == digit);
        assert(crate::auto_tagger::names::all_digits(decimal(n))) by {
            assert forall|i: int| 0 <= i < decimal(n).len() implies '0' <= #[trigger] decimal(n)[i]
                <= '9' by {
                if i < before.len() {
                    assert(decimal(n)[i] == before[i]);
                }
            }
        }
        assert(decimal(n)[0] == before[0]);
    }
}

/// An array of texts holds each of them, in order.
pub proof fn arrays_hold_each_text(items: Seq<Seq<char>>)
    ensures
        text_array(items) is Array,
        text_array(items)->Array_0.len() == items.len(),
        forall|i: int|
            0 <= i < items.len() ==> #[trigger] text_array(items)->Array_0[i] == JsonModel::Text(
                items[i],
            ),
{
}

/// What is read of a value: the field of an object, the items of an array, the text of a
/// text, and nothing of a value of another kind.
pub proof fn values_are_read_by_their_kind(
    fields: Map<Seq<char>, JsonModel>,
    items: Seq<JsonModel>,
    s: Seq<char>,
    key: Seq<char>,
    values: Seq<serde_json::Value>,
)
    ensures
        fields.contains_key(key) ==> field_of(JsonModel::Object(fields), key) == Some(fields[key]),
        !fields.contains_key(key) ==> field_of(JsonModel::Object(fields), key) is None,
        field_of(JsonModel::Array(items), key) is None && field_of(JsonModel::Text(s), key) is None,
        items_of(JsonModel::Array(items)) == Some(items),
        items_of(JsonModel::Text(s)) is None && items_of(JsonModel::Object(fields)) is None,
        text_of(JsonModel::Text(s)) == Some(s),
        text_of(JsonModel::Array(items)) is None && text_of(JsonModel::Object(fields)) is None,
        is_text_array(JsonModel::Array(items)) <==> forall|i: int|
            0 <= i < items.len() ==> (#[trigger] items[i]) is Text,
        json_models(values).len() == values.len(),
        forall|i: int| 0 <= i < values.len() ==> #[trigger] json_models(values)[i] == json_model(
            values[i],
        ),
{
}

} // verus!
