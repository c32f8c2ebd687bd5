//! Reading and writing single fields of JSON documents.
use serde_json::Value;
use vstd::prelude::*;

use crate::text::option_text;

verus! {

/// What stands at a place of a JSON document: a number by its value where it is an unsigned
/// integer of 64 bits, an array by its length.
#[derive(Debug, PartialEq, Eq)]
pub enum JsonItem {
    Null,
    Bool(bool),
    Number(Option<u64>),
    Text(String),
    Array(usize),
    Object,
}

/// `JsonItem` with the characters of a text.
pub enum JsonView {
    Null,
    Bool(bool),
    Number(Option<u64>),
    Text(Seq<char>),
    Array(usize),
    Object,
}

impl View for JsonItem {
    type V = JsonView;

    open spec fn view(&self) -> JsonView {
        match *self {
            JsonItem::Null => JsonView::Null,
            JsonItem::Bool(b) => JsonView::Bool(b),
            JsonItem::Number(n) => JsonView::Number(n),
            JsonItem::Text(s) => JsonView::Text(s@),
            JsonItem::Array(n) => JsonView::Array(n),
            JsonItem::Object => JsonView::Object,
        }
    }
}

/// The view of an item that may be absent.
pub open spec fn option_item(r: Option<JsonItem>) -> Option<JsonView> {
    match r {
        Some(i) => Some(i@),
        None => None,
    }
}

/// What stands in a JSON document at a pointer in the notation of RFC 6901; nothing where the
/// text is no JSON document or has nothing there. The empty pointer names the whole document.
pub uninterp spec fn json_item(text: Seq<char>, pointer: Seq<char>) -> Option<JsonView>;

/// `serde_json::from_str` and `serde_json::Value::pointer`: what they find depends on the text
/// and the pointer alone.
#[verifier::external_body]
pub(crate) fn json_at(text: &str, pointer: &str) -> (r: Option<JsonItem>)
    ensures
        option_item(r) == json_item(text@, pointer@),
{
    let document: Value = serde_json::from_str(text).ok()?;
    Some(match document.pointer(pointer)? {
        Value::Null => JsonItem::Null,
        Value::Bool(b) => JsonItem::Bool(*b),
        Value::Number(n) => JsonItem::Number(n.as_u64()),
        Value::String(s) => JsonItem::Text(s.clone()),
        Value::Array(a) => JsonItem::Array(a.len()),
        Value::Object(_) => JsonItem::Object,
    })
}

/// The pointer to a field of the outermost object whose name needs no escape.
pub open spec fn field_pointer(key: Seq<char>) -> Seq<char> {
    seq!['/'] + key
}

/// A name that stands in a pointer as it is.
pub open spec fn plain_key(key: Seq<char>) -> bool {
    forall|i: int| 0 <= i < key.len() ==> key[i] != '/' && key[i] != '~'
}

/// The pointer leads to the field `key` or into it.
pub open spec fn points_into(pointer: Seq<char>, key: Seq<char>) -> bool {
    let front = field_pointer(key);
    &&& pointer.len() >= front.len()
    &&& pointer.subrange(0, front.len() as int) == front
    &&& pointer.len() > front.len() ==> pointer[front.len() as int] == '/'
}

/// A document that does not nest: a text, a number, a truth value or null; or one so short that
/// it cannot nest deeper than a parser reads.
pub open spec fn shallow(value: Seq<char>) -> bool {
    ||| value.len() <= 200
    ||| match json_item(value, Seq::empty()) {
        Some(JsonView::Object) => false,
        Some(JsonView::Array(_)) => false,
        _ => true,
    }
}

/// `after` has `value` in the field `key`, and is `before` in every other field.
pub open spec fn field_set(
    after: Seq<char>,
    before: Seq<char>,
    key: Seq<char>,
    value: Seq<char>,
) -> bool {
    &&& json_item(after, field_pointer(key)) == json_item(value, Seq::empty())
    &&& forall|p: Seq<char>|
        p.len() > 0 && !points_into(p, key) ==> #[trigger] json_item(after, p) == json_item(
            before,
            p,
        )
}

/// An object with one field set, as JSON text; nothing where the first text is no object or the
/// value is no JSON document.
pub uninterp spec fn json_with_field(
    text: Seq<char>,
    key: Seq<char>,
    value: Seq<char>,
) -> Option<Seq<char>>;

/// `serde_json::Map::insert` on the object that `serde_json::from_str` reads, written out by
/// `serde_json::to_string`. The result depends on the arguments alone. It exists where the first
/// text is an object and the value a document. Where the value is shallow and the key needs no
/// escape, the field then holds the value, and every other field is as before.
#[verifier::external_body]
pub(crate) fn json_insert(text: &str, key: &str, value: &str) -> (r: Option<String>)
    ensures
        option_text(r) == json_with_field(text@, key@, value@),
        match r {
            Some(t) => {
                &&& json_item(text@, Seq::empty()) == Some(JsonView::Object)
                &&& json_item(value@, Seq::empty()) is Some
                &&& plain_key(key@) && shallow(value@) ==> field_set(t@, text@, key@, value@)
            },
            None => !(json_item(text@, Seq::empty()) == Some(JsonView::Object) && json_item(
                value@,
                Seq::empty(),
            ) is Some),
        },
{
    let mut document: Value = serde_json::from_str(text).ok()?;
    let value: Value = serde_json::from_str(value).ok()?;
    document.as_object_mut()?.insert(key.to_owned(), value);
    serde_json::to_string(&document).ok()
}

/// A text as a JSON string.
pub uninterp spec fn json_quoted(s: Seq<char>) -> Seq<char>;

/// `serde_json::Value::to_string` on a string: the result depends on the text alone, and is a
/// document that holds the text.
#[verifier::external_body]
pub(crate) fn json_quote(s: &str) -> (r: String)
    ensures
        r@ == json_quoted(s@),
        json_item(r@, Seq::empty()) == Some(JsonView::Text(s@)),
{
    Value::String(s.to_owned()).to_string()
}

/// The number of an item, zero where it is none.
pub open spec fn count_of(item: Option<JsonView>) -> u64 {
    match item {
        Some(JsonView::Number(Some(n))) => n,
        _ => 0,
    }
}

/// The number of an item.
pub open spec fn number_of(item: Option<JsonView>) -> Option<u64> {
    match item {
        Some(JsonView::Number(n)) => n,
        _ => None,
    }
}

/// The number of an item, where it is one.
pub fn number(item: &Option<JsonItem>) -> (r: Option<u64>)
    ensures
        r == number_of(option_item(*item)),
{
    match item {
        Some(JsonItem::Number(n)) => *n,
        _ => None,
    }
}

/// The number of an item, zero where it is none.
pub fn count(item: &Option<JsonItem>) -> (r: u64)
    ensures
        r == count_of(option_item(*item)),
{
    match item {
        Some(JsonItem::Number(Some(n))) => *n,
        _ => 0,
    }
}

/// The item is the given text.
pub fn is_text(item: &Option<JsonItem>, s: &str) -> (r: bool)
    ensures
        r == (option_item(*item) == Some(JsonView::Text(s@))),
{
    match item {
        Some(JsonItem::Text(t)) => crate::text::same(t.as_str(), s),
        _ => false,
    }
}

/// A count is the number that stands there; what is missing or no such number counts nothing.
pub proof fn law_counts_are_the_numbers_given(item: Option<JsonView>, n: u64)
    ensures
        item == Some(JsonView::Number(Some(n))) ==> count_of(item) == n && number_of(item) == Some(
            n,
        ),
        number_of(item) is Some ==> item == Some(JsonView::Number(number_of(item))),
        number_of(item) is None ==> count_of(item) == 0,
{
}

} // verus!
