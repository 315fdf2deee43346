//! JSON values, as far as requests and answers are made of them.
use vstd::prelude::*;

use crate::text;

verus! {

/// A JSON value. Numbers are told apart from other values and not looked at.
#[derive(Debug, PartialEq, Eq)]
pub enum Json {
    Null,
    Bool(bool),
    Number,
    Text(String),
    Array(Vec<Json>),
    /// Fields in order; a key stands for the first field that has it.
    Object(Vec<(String, Json)>),
}

/// A JSON value as plain values.
pub enum JsonView {
    Null,
    Bool(bool),
    Number,
    Text(Seq<char>),
    Array(Seq<JsonView>),
    Object(Seq<(Seq<char>, JsonView)>),
}

/// What a JSON value is as plain values.
pub open spec fn json_view(j: Json) -> JsonView
    decreases j,
{
    match j {
        Json::Null => JsonView::Null,
        Json::Bool(b) => JsonView::Bool(b),
        Json::Number => JsonView::Number,
        Json::Text(s) => JsonView::Text(s@),
        Json::Array(v) => JsonView::Array(
            Seq::new(
                v@.len(),
                |i: int|
                    if 0 <= i < v@.len() {
                        json_view(v@[i])
                    } else {
                        JsonView::Null
                    },
            ),
        ),
        Json::Object(f) => JsonView::Object(
            Seq::new(
                f@.len(),
                |i: int|
                    if 0 <= i < f@.len() {
                        (f@[i].0@, json_view(f@[i].1))
                    } else {
                        (Seq::empty(), JsonView::Null)
                    },
            ),
        ),
    }
}

impl DeepView for Json {
    type V = JsonView;

    open spec fn deep_view(&self) -> JsonView {
        json_view(*self)
    }
}

/// A result over JSON values, as plain values.
pub open spec fn result_view(r: Result<Json, String>) -> Result<JsonView, Seq<char>> {
    match r {
        Ok(j) => Ok(j.deep_view()),
        Err(e) => Err(e@),
    }
}

/// The value of the first field with a key, from field `i` on.
pub open spec fn field_from(
    fields: Seq<(Seq<char>, JsonView)>,
    key: Seq<char>,
    i: int,
) -> Option<JsonView>
    decreases fields.len() - i,
{
    if i < 0 || i >= fields.len() {
        None
    } else if fields[i].0 == key {
        Some(fields[i].1)
    } else {
        field_from(fields, key, i + 1)
    }
}

/// The value of a field. What is no object has none.
pub open spec fn field(j: JsonView, key: Seq<char>) -> Option<JsonView> {
    match j {
        JsonView::Object(fields) => field_from(fields, key, 0),
        _ => None,
    }
}

/// The keys of an object, in order. What is no object has none.
pub open spec fn keys(j: JsonView) -> Seq<Seq<char>> {
    match j {
        JsonView::Object(fields) => fields.map_values(|f: (Seq<char>, JsonView)| f.0),
        _ => Seq::empty(),
    }
}

/// A field that is text.
pub open spec fn text_field(j: JsonView, key: Seq<char>) -> Option<Seq<char>> {
    match field(j, key) {
        Some(JsonView::Text(s)) => Some(s),
        _ => None,
    }
}

/// A field that is text, or the empty text where there is none.
pub open spec fn text_or_empty(j: JsonView, key: Seq<char>) -> Seq<char> {
    match text_field(j, key) {
        Some(s) => s,
        None => Seq::empty(),
    }
}

/// A field that is true.
pub open spec fn true_field(j: JsonView, key: Seq<char>) -> bool {
    field(j, key) == Some(JsonView::Bool(true))
}

/// The elements of a field that is an array; none where it is not.
pub open spec fn elements(j: JsonView, key: Seq<char>) -> Seq<JsonView> {
    match field(j, key) {
        Some(JsonView::Array(v)) => v,
        _ => Seq::empty(),
    }
}

/// The value of a field.
pub fn get<'a>(j: &'a Json, key: &str) -> (r: Option<&'a Json>)
    ensures
        r.deep_view() == field(j.deep_view(), key@),
{
    if let Json::Object(fields) = j {
        let ghost all = j.deep_view()->Object_0;
        let n: usize = fields.len();
        let mut i: usize = 0;
        while i < n
            invariant
                n == fields@.len(),
                n == all.len(),
                i <= n,
                j.deep_view() == JsonView::Object(all),
                forall|k: int|
                    0 <= k < n ==> #[trigger] all[k] == (
                        fields@[k].0@,
                        fields@[k].1.deep_view(),
                    ),
                field_from(all, key@, i as int) == field_from(all, key@, 0),
            decreases n - i,
        {
            assert(all[i as int].0 == fields@[i as int].0@);
            if text::same_str(fields[i].0.as_str(), key) {
                return Some(&fields[i].1);
            }
            i = i + 1;
        }
    }
    None
}

/// The elements of a field that is an array.
pub fn get_array<'a>(j: &'a Json, key: &str) -> (r: Option<&'a Vec<Json>>)
    ensures
        match r {
            Some(v) => elements(j.deep_view(), key@) == v.deep_view(),
            None => elements(j.deep_view(), key@) == Seq::<JsonView>::empty(),
        },
{
    match get(j, key) {
        Some(Json::Array(v)) => {
            assert(elements(j.deep_view(), key@) =~= v.deep_view());
            Some(v)
        },
        _ => None,
    }
}

/// A field that is text.
pub fn get_text(j: &Json, key: &str) -> (r: Option<String>)
    ensures
        r.deep_view() == text_field(j.deep_view(), key@),
{
    match get(j, key) {
        Some(Json::Text(s)) => Some(s.clone()),
        _ => None,
    }
}

/// A field that is text, or the empty text where there is none.
pub fn get_text_or_empty(j: &Json, key: &str) -> (r: String)
    ensures
        r@ == text_or_empty(j.deep_view(), key@),
{
    match get_text(j, key) {
        Some(s) => s,
        None => String::new(),
    }
}

/// Whether a field is true.
pub fn is_true(j: &Json, key: &str) -> (r: bool)
    ensures
        r == true_field(j.deep_view(), key@),
{
    match get(j, key) {
        Some(Json::Bool(b)) => *b,
        _ => false,
    }
}

} // verus!
