//! JSON values: what they hold, and reading them.

use serde_json::Value;
use vstd::prelude::*;

use crate::text::texts;

verus! {

/// A JSON value.
#[verifier::external_type_specification]
#[verifier::external_body]
pub struct ExValue(Value);

/// What a JSON value holds. A number is known where it is a whole number that
/// is not negative and fits 64 bits.
pub enum JsonView {
    Null,
    Bool(bool),
    Number(Option<u64>),
    Text(Seq<char>),
    List(Seq<JsonView>),
    Object(Map<Seq<char>, JsonView>),
}

/// What a value holds.
pub uninterp spec fn json(v: Value) -> JsonView;

/// What a JSON text stands for; none where the text is no JSON.
pub uninterp spec fn parsed_json(text: Seq<char>) -> Option<JsonView>;

pub open spec fn json_list(v: Seq<Value>) -> Seq<JsonView> {
    v.map_values(|x: Value| json(x))
}

impl JsonView {
    /// The value of a key; nothing where there is none.
    pub open spec fn field(self, key: Seq<char>) -> JsonView {
        match self {
            JsonView::Object(m) => if m.contains_key(key) {
                m[key]
            } else {
                JsonView::Null
            },
            _ => JsonView::Null,
        }
    }

    pub open spec fn has(self, key: Seq<char>) -> bool {
        match self {
            JsonView::Object(m) => m.contains_key(key),
            _ => false,
        }
    }

    pub open spec fn text(self) -> Option<Seq<char>> {
        match self {
            JsonView::Text(t) => Some(t),
            _ => None,
        }
    }

    pub open spec fn number(self) -> Option<u64> {
        match self {
            JsonView::Number(n) => n,
            _ => None,
        }
    }

    pub open spec fn items(self) -> Option<Seq<JsonView>> {
        match self {
            JsonView::List(l) => Some(l),
            _ => None,
        }
    }
}

/// `serde_json::from_str`: reads a JSON text. Whether it is one, and what it
/// stands for, depends on the text alone.
#[verifier::external_body]
pub(crate) fn read_json(text: &str) -> (r: Option<Value>)
    ensures
        parsed_json(text@) == match r {
            Some(v) => Some(json(v)),
            None => None,
        },
{
    serde_json::from_str(text).ok()
}

/// Indexing a `Value` by a key: the key's value in an object, and null where
/// the object has no such key or the value is no object.
#[verifier::external_body]
pub(crate) fn field<'a>(v: &'a Value, key: &str) -> (r: &'a Value)
    ensures
        json(*r) == json(*v).field(key@),
{
    &v[key]
}

/// `Value::get` by a key: whether the value is an object with the key.
#[verifier::external_body]
pub(crate) fn has_field(v: &Value, key: &str) -> (r: bool)
    ensures
        r == json(*v).has(key@),
{
    v.get(key).is_some()
}

/// `Value::as_str`: the text of a string, and nothing of another value.
#[verifier::external_body]
pub(crate) fn as_text(v: &Value) -> (r: Option<&str>)
    ensures
        json(*v).text() == match r {
            Some(t) => Some(t@),
            None => None,
        },
{
    v.as_str()
}

/// `Value::as_u64`: a whole number that is not negative and fits 64 bits, and
/// nothing of another value.
#[verifier::external_body]
pub(crate) fn as_number(v: &Value) -> (r: Option<u64>)
    ensures
        r == json(*v).number(),
{
    v.as_u64()
}

/// `Value::as_array`: the items of an array, and nothing of another value.
#[verifier::external_body]
pub(crate) fn as_items(v: &Value) -> (r: Option<&Vec<Value>>)
    ensures
        json(*v).items() == match r {
            Some(l) => Some(json_list(l@)),
            None => None,
        },
{
    v.as_array()
}

/// The texts among values.
pub open spec fn texts_among(list: Seq<JsonView>) -> Seq<Seq<char>>
    decreases list.len(),
{
    if list.len() == 0 {
        Seq::empty()
    } else {
        let before = texts_among(list.drop_last());
        match list.last().text() {
            Some(t) => before.push(t),
            None => before,
        }
    }
}

/// The texts in the list under a key.
pub open spec fn texts_at(v: JsonView, key: Seq<char>) -> Seq<Seq<char>> {
    match v.field(key).items() {
        Some(l) => texts_among(l),
        None => Seq::empty(),
    }
}

/// The text under a key; an empty one where there is none.
pub open spec fn text_at(v: JsonView, key: Seq<char>) -> Seq<char> {
    match v.field(key).text() {
        Some(t) => t,
        None => Seq::empty(),
    }
}

/// Collects the texts in the list under a key.
pub fn list_texts(v: &Value, key: &str) -> (r: Vec<String>)
    ensures
        texts(r@) == texts_at(json(*v), key@),
{
    let mut r: Vec<String> = Vec::new();
    assert(texts(r@) =~= Seq::empty());
    let list = match as_items(field(v, key)) {
        Some(l) => l,
        None => {
            return r;
        },
    };
    let ghost all = json_list(list@);
    let mut i: usize = 0;
    while i < list.len()
        invariant
            i <= list@.len(),
            all == json_list(list@),
            texts(r@) == texts_among(all.take(i as int)),
        decreases list.len() - i,
    {
        assert(all[i as int] == json(list@[i as int]));
        assert(all.take(i + 1).drop_last() =~= all.take(i as int));
        match as_text(&list[i]) {
            Some(t) => {
                let ghost before = texts(r@);
                r.push(t.to_owned());
                assert(texts(r@) =~= before.push(t@));
            },
            None => {},
        }
        i = i + 1;
    }
    assert(all.take(i as int) =~= all);
    r
}

/// Reads the text under a key.
pub fn plain_text(v: &Value, key: &str) -> (r: String)
    ensures
        r@ == text_at(json(*v), key@),
{
    match as_text(field(v, key)) {
        Some(t) => t.to_owned(),
        None => {
            let r = String::new();
            assert(r@ =~= Seq::empty());
            r
        },
    }
}

} // verus!
