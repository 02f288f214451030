//! A model of JSON values, with the parse done by `serde_json`.

use vstd::prelude::*;

verus! {

/// A JSON number: its value as a `u64` where it is a non-negative integer
/// (`serde_json::Number::as_u64`), and its text (`Number`'s `Display`).
pub struct JsonNumber {
    pub as_u64: Option<u64>,
    pub text: String,
}

/// A JSON value. An object holds its members in key order, each key once.
pub enum Json {
    Null,
    Bool(bool),
    Number(JsonNumber),
    Str(String),
    Array(Vec<Json>),
    Object(Vec<(String, Json)>),
}

/// The mathematical value of a `Json`.
pub enum JsonView {
    Null,
    Bool(bool),
    Number(Option<u64>, Seq<char>),
    Str(Seq<char>),
    Array(Seq<JsonView>),
    Object(Seq<(Seq<char>, JsonView)>),
}

impl View for Json {
    type V = JsonView;

    open spec fn view(&self) -> JsonView
        decreases self, 0nat,
    {
        match self {
            Json::Null => JsonView::Null,
            Json::Bool(b) => JsonView::Bool(*b),
            Json::Number(n) => JsonView::Number(n.as_u64, n.text@),
            Json::Str(s) => JsonView::Str(s@),
            Json::Array(items) => JsonView::Array(view_items(items@)),
            Json::Object(members) => JsonView::Object(view_members(members@)),
        }
    }
}

/// The views of a sequence of values.
pub open spec fn view_items(items: Seq<Json>) -> Seq<JsonView>
    decreases items, items.len(),
{
    if items.len() == 0 {
        Seq::empty()
    } else {
        view_items(items.drop_last()).push(items.last().view())
    }
}

/// The views of a sequence of object members.
pub open spec fn view_members(members: Seq<(String, Json)>) -> Seq<(Seq<char>, JsonView)>
    decreases members, members.len(),
{
    if members.len() == 0 {
        Seq::empty()
    } else {
        view_members(members.drop_last()).push((members.last().0@, members.last().1.view()))
    }
}

pub proof fn lemma_view_items(items: Seq<Json>)
    ensures
        view_items(items).len() == items.len(),
        forall|j: int| 0 <= j < items.len() ==> #[trigger] view_items(items)[j] == items[j]@,
    decreases items.len(),
{
    if items.len() > 0 {
        lemma_view_items(items.drop_last());
        assert(view_items(items) == view_items(items.drop_last()).push(items.last().view()));
    } else {
        assert(view_items(items) == Seq::<JsonView>::empty());
    }
}

pub proof fn lemma_view_members(members: Seq<(String, Json)>)
    ensures
        view_members(members).len() == members.len(),
        forall|j: int|
            0 <= j < members.len() ==> #[trigger] view_members(members)[j] == (
                members[j].0@,
                members[j].1@,
            ),
    decreases members.len(),
{
    if members.len() > 0 {
        lemma_view_members(members.drop_last());
        assert(view_members(members) == view_members(members.drop_last()).push(
            (members.last().0@, members.last().1.view()),
        ));
    } else {
        assert(view_members(members) == Seq::<(Seq<char>, JsonView)>::empty());
    }
}

/// `serde_json::Value`, carried only through the parse below.
#[verifier::external_type_specification]
#[verifier::external_body]
pub struct ExValue(serde_json::Value);

/// What `serde_json::from_str::<serde_json::Value>` gives for `text`, as a
/// `JsonView`: `None` where the text is not one JSON value.
pub uninterp spec fn json_parse(text: Seq<char>) -> Option<JsonView>;

/// The `Json` that holds what `v` holds: each variant of `serde_json::Value`
/// becomes the variant of the same name, a number keeps what
/// `Number::as_u64` and `Number`'s `Display` give, an object keeps its members
/// in the order that `serde_json::Map` yields them. Its result is spoken of
/// only through `parse_json`.
#[verifier::external_body]
fn json_of_value(v: serde_json::Value) -> Json {
    match v {
        serde_json::Value::Null => Json::Null,
        serde_json::Value::Bool(b) => Json::Bool(b),
        serde_json::Value::Number(n) => Json::Number(JsonNumber { as_u64: n.as_u64(), text: n.to_string() }),
        serde_json::Value::String(s) => Json::Str(s),
        serde_json::Value::Array(a) => Json::Array(a.into_iter().map(json_of_value).collect()),
        serde_json::Value::Object(m) => Json::Object(m.into_iter().map(|(k, x)| (k, json_of_value(x))).collect()),
    }
}

/// Calls `serde_json::from_str::<serde_json::Value>` on `text`. Its result, as
/// a `JsonView`, is `json_parse(text@)`: `None` where serde_json reports an error.
#[verifier::external_body]
pub fn parse_json(text: &str) -> (r: Option<Json>)
    ensures
        match r {
            Some(j) => json_parse(text@) == Some(j@),
            None => json_parse(text@) is None,
        },
{
    serde_json::from_str::<serde_json::Value>(text).ok().map(json_of_value)
}

/// The value of the first member named `key`.
pub open spec fn lookup(members: Seq<(Seq<char>, JsonView)>, key: Seq<char>) -> Option<JsonView>
    decreases members.len(),
{
    if members.len() == 0 {
        None
    } else if members[0].0 == key {
        Some(members[0].1)
    } else {
        lookup(members.drop_first(), key)
    }
}

/// `serde_json::Value::get` with a string key: the member of an object with
/// that key, and nothing for any other value.
pub open spec fn json_get(v: JsonView, key: Seq<char>) -> Option<JsonView> {
    match v {
        JsonView::Object(members) => lookup(members, key),
        _ => None,
    }
}

/// `serde_json::Value::as_u64`.
pub open spec fn json_as_u64(v: JsonView) -> Option<u64> {
    match v {
        JsonView::Number(u, _) => u,
        _ => None,
    }
}

/// `serde_json::Value::as_str`.
pub open spec fn json_as_str(v: JsonView) -> Option<Seq<char>> {
    match v {
        JsonView::Str(s) => Some(s),
        _ => None,
    }
}

impl Json {
    pub fn is_object(&self) -> (r: bool)
        ensures
            r == (self@ is Object),
    {
        match self {
            Json::Object(_) => true,
            _ => false,
        }
    }

    pub fn is_array(&self) -> (r: bool)
        ensures
            r == (self@ is Array),
    {
        match self {
            Json::Array(_) => true,
            _ => false,
        }
    }

    pub fn as_u64(&self) -> (r: Option<u64>)
        ensures
            r == json_as_u64(self@),
    {
        match self {
            Json::Number(n) => n.as_u64,
            _ => None,
        }
    }

    pub fn as_str(&self) -> (r: Option<&String>)
        ensures
            match r {
                Some(s) => json_as_str(self@) == Some(s@),
                None => json_as_str(self@) is None,
            },
    {
        match self {
            Json::Str(s) => Some(s),
            _ => None,
        }
    }

    /// The member with the given key, where `self` is an object.
    pub fn get(&self, key: &str) -> (r: Option<&Json>)
        ensures
            match r {
                Some(x) => json_get(self@, key@) == Some(x@),
                None => json_get(self@, key@) is None,
            },
    {
        match self {
            Json::Object(members) => {
                let ghost mv = self@->Object_0;
                proof {
                    lemma_view_members(members@);
                }
                let k = crate::text::chars_of(key);
                let mut i: usize = 0;
                assert(mv.subrange(0, mv.len() as int) == mv);
                while i < members.len()
                    invariant
                        i <= members@.len(),
                        mv.len() == members@.len(),
                        self@ == JsonView::Object(mv),
                        k@ == key@,
                        forall|j: int| 0 <= j < members@.len() ==> #[trigger] mv[j] == (members@[j].0@, members@[j].1@),
                        lookup(mv, key@) == lookup(mv.subrange(i as int, mv.len() as int), key@),
                    decreases members@.len() - i,
                {
                    let ghost rest = mv.subrange(i as int, mv.len() as int);
                    assert(rest[0] == mv[i as int]);
                    assert(rest.drop_first() == mv.subrange(i + 1, mv.len() as int));
                    let name = crate::text::chars_of(members[i].0.as_str());
                    if crate::text::chars_eq(name.as_slice(), k.as_slice()) {
                        return Some(&members[i].1);
                    }
                    i = i + 1;
                }
                proof {
                    assert(mv.subrange(i as int, mv.len() as int).len() == 0);
                }
                None
            },
            _ => None,
        }
    }
}

} // verus!
