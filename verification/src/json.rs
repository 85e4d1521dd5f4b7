//! JSON as the rest of the library reads it: a tree of plain values.
//!
//! `serde_json` reads the text. What it read is turned into [`Json`], and
//! everything that looks into a document works on that.

use vstd::prelude::*;

use crate::text::same;

verus! {

/// What a JSON document says. A number is known by the way it is written, and by its
/// value where it is a `u64`. An object is its members in order.
pub enum JsonView {
    Null,
    Bool(bool),
    Number { value: Option<u64>, written: Seq<char> },
    Text(Seq<char>),
    Array(Seq<JsonView>),
    Object(Seq<(Seq<char>, JsonView)>),
}

/// A JSON document.
#[derive(Debug)]
pub enum Json {
    Null,
    Bool(bool),
    Number { value: Option<u64>, written: String },
    Text(String),
    Array(Vec<Json>),
    Object(Vec<(String, Json)>),
}

/// The member of that name, the first one where there are several.
pub open spec fn member(fields: Seq<(Seq<char>, JsonView)>, key: Seq<char>) -> Option<JsonView>
    decreases fields.len(),
{
    if fields.len() == 0 {
        None
    } else if fields[0].0 == key {
        Some(fields[0].1)
    } else {
        member(fields.drop_first(), key)
    }
}

impl JsonView {
    /// The member of an object; nothing of any other document.
    pub open spec fn get(self, key: Seq<char>) -> Option<JsonView> {
        match self {
            JsonView::Object(fields) => member(fields, key),
            _ => None,
        }
    }

    pub open spec fn text(self) -> Option<Seq<char>> {
        match self {
            JsonView::Text(s) => Some(s),
            _ => None,
        }
    }

    pub open spec fn number(self) -> Option<u64> {
        match self {
            JsonView::Number { value, .. } => value,
            _ => None,
        }
    }

    pub open spec fn boolean(self) -> Option<bool> {
        match self {
            JsonView::Bool(b) => Some(b),
            _ => None,
        }
    }

    pub open spec fn items(self) -> Option<Seq<JsonView>> {
        match self {
            JsonView::Array(items) => Some(items),
            _ => None,
        }
    }

    pub open spec fn fields(self) -> Option<Seq<(Seq<char>, JsonView)>> {
        match self {
            JsonView::Object(fields) => Some(fields),
            _ => None,
        }
    }

    /// The text that stands under a member's name.
    pub open spec fn text_at(self, key: Seq<char>) -> Option<Seq<char>> {
        match self.get(key) {
            Some(value) => value.text(),
            None => None,
        }
    }

    /// The number that stands under a member's name.
    pub open spec fn number_at(self, key: Seq<char>) -> Option<u64> {
        match self.get(key) {
            Some(value) => value.number(),
            None => None,
        }
    }

    /// The truth value that stands under a member's name.
    pub open spec fn boolean_at(self, key: Seq<char>) -> Option<bool> {
        match self.get(key) {
            Some(value) => value.boolean(),
            None => None,
        }
    }

    /// The array that stands under a member's name.
    pub open spec fn items_at(self, key: Seq<char>) -> Option<Seq<JsonView>> {
        match self.get(key) {
            Some(value) => value.items(),
            None => None,
        }
    }
}

/// What each of several documents says.
pub open spec fn views(items: Seq<Json>) -> Seq<JsonView> {
    Seq::new(items.len(), |i: int| items[i]@)
}

/// What each of several members says.
pub open spec fn field_views(fields: Seq<(String, Json)>) -> Seq<(Seq<char>, JsonView)> {
    Seq::new(fields.len(), |i: int| (fields[i].0@, fields[i].1@))
}

impl Json {
    pub open spec fn view(&self) -> JsonView
        decreases self,
    {
        match self {
            Json::Null => JsonView::Null,
            Json::Bool(b) => JsonView::Bool(*b),
            Json::Number { value, written } => JsonView::Number {
                value: *value,
                written: written@,
            },
            Json::Text(s) => JsonView::Text(s@),
            Json::Array(items) => JsonView::Array(
                Seq::new(
                    items@.len(),
                    |i: int|
                        if 0 <= i < items@.len() {
                            items@[i].view()
                        } else {
                            JsonView::Null
                        },
                ),
            ),
            Json::Object(fields) => JsonView::Object(
                Seq::new(
                    fields@.len(),
                    |i: int|
                        if 0 <= i < fields@.len() {
                            (fields@[i].0@, fields@[i].1.view())
                        } else {
                            (Seq::empty(), JsonView::Null)
                        },
                ),
            ),
        }
    }

    /// The member of that name.
    pub fn get(&self, key: &str) -> (r: Option<&Json>)
        ensures
            match r {
                Some(value) => self@.get(key@) == Some(value@),
                None => self@.get(key@) is None,
            },
    {
        match self {
            Json::Object(fields) => {
                let ghost all = field_views(fields@);
                assert(self@ == JsonView::Object(all)) by {
                    assert(self@->Object_0 =~= all);
                }
                let mut i: usize = 0;
                assert(all.skip(0) == all);
                while i < fields.len()
                    invariant
                        i <= fields.len(),
                        all == field_views(fields@),
                        self@ == JsonView::Object(all),
                        member(all, key@) == member(all.skip(i as int), key@),
                    decreases fields.len() - i,
                {
                    assert(all.skip(i as int).drop_first() == all.skip(i + 1));
                    if same(fields[i].0.as_str(), key) {
                        return Some(&fields[i].1);
                    }
                    i = i + 1;
                }
                None
            },
            _ => None,
        }
    }

    /// The text, of a document that is one.
    pub fn as_text(&self) -> (r: Option<&String>)
        ensures
            match r {
                Some(s) => self@.text() == Some(s@),
                None => self@.text() is None,
            },
    {
        match self {
            Json::Text(s) => Some(s),
            _ => None,
        }
    }

    /// The items, of a document that is an array.
    pub fn as_array(&self) -> (r: Option<&Vec<Json>>)
        ensures
            match r {
                Some(items) => self@.items() == Some(views(items@)),
                None => self@.items() is None,
            },
    {
        match self {
            Json::Array(items) => {
                assert(self@->Array_0 =~= views(items@));
                Some(items)
            },
            _ => None,
        }
    }

    /// The members, of a document that is an object.
    pub fn as_object(&self) -> (r: Option<&Vec<(String, Json)>>)
        ensures
            match r {
                Some(fields) => self@.fields() == Some(field_views(fields@)),
                None => self@.fields() is None,
            },
    {
        match self {
            Json::Object(fields) => {
                assert(self@->Object_0 =~= field_views(fields@));
                Some(fields)
            },
            _ => None,
        }
    }

    /// The text that stands under a member's name.
    pub fn text_at(&self, key: &str) -> (r: Option<String>)
        ensures
            r.deep_view() == self@.text_at(key@),
    {
        match self.get(key) {
            Some(Json::Text(s)) => Some(s.clone()),
            _ => None,
        }
    }

    /// The number that stands under a member's name.
    pub fn number_at(&self, key: &str) -> (r: Option<u64>)
        ensures
            r == self@.number_at(key@),
    {
        match self.get(key) {
            Some(Json::Number { value, .. }) => *value,
            _ => None,
        }
    }

    /// The truth value that stands under a member's name.
    pub fn boolean_at(&self, key: &str) -> (r: Option<bool>)
        ensures
            r == self@.boolean_at(key@),
    {
        match self.get(key) {
            Some(Json::Bool(b)) => Some(*b),
            _ => None,
        }
    }

    /// The array that stands under a member's name.
    pub fn items_at(&self, key: &str) -> (r: Option<&Vec<Json>>)
        ensures
            match r {
                Some(items) => self@.items_at(key@) == Some(views(items@)),
                None => self@.items_at(key@) is None,
            },
    {
        match self.get(key) {
            Some(value) => value.as_array(),
            None => None,
        }
    }
}

/// `serde_json::Value`, a JSON document as `serde_json` holds it.
#[verifier::external_type_specification]
#[verifier::external_body]
pub struct ExValue(serde_json::Value);

/// What a document holds that `serde_json` holds as a `Value`.
pub uninterp spec fn value_contents(value: serde_json::Value) -> JsonView;

/// What `serde_json::from_str` makes of a text: the document that it writes, or
/// the reason why it writes none.
pub uninterp spec fn json_parsed(text: Seq<char>) -> Result<JsonView, Seq<char>>;

/// What the `Display` of a `serde_json::Value` writes: the document on one line, with
/// no more white space than there has to be.
pub uninterp spec fn json_rendered(document: JsonView) -> Seq<char>;

/// `serde_json::from_str`, into a `serde_json::Value`. The result is a function
/// of the text; which one is not stated. A refusal is handed on as its message.
#[verifier::external_body]
pub(crate) fn parse_value(text: &str) -> (r: Result<serde_json::Value, String>)
    ensures
        match r {
            Ok(value) => json_parsed(text@) == Ok::<JsonView, Seq<char>>(value_contents(value)),
            Err(reason) => json_parsed(text@) == Err::<JsonView, Seq<char>>(reason@),
        },
{
    serde_json::from_str(text).map_err(|e| e.to_string())
}

/// The variants of `serde_json::Value`, each turned into the one of [`Json`]
/// that holds the same. `Number::as_u64` tells the numbers that are a `u64`, and the
/// `Display` of a `Number` how each is written.
#[verifier::external_body]
pub(crate) fn json_of(value: &serde_json::Value) -> (r: Json)
    ensures
        r@ == value_contents(*value),
{
    match value {
        serde_json::Value::Null => Json::Null,
        serde_json::Value::Bool(b) => Json::Bool(*b),
        serde_json::Value::Number(n) => Json::Number {
            value: n.as_u64(),
            written: n.to_string(),
        },
        serde_json::Value::String(s) => Json::Text(s.clone()),
        serde_json::Value::Array(items) => Json::Array(items.iter().map(json_of).collect()),
        serde_json::Value::Object(fields) => Json::Object(
            fields.iter().map(|(k, v)| (k.clone(), json_of(v))).collect(),
        ),
    }
}

/// `serde_json::Value::get`, with a text: the member of an object, and nothing of any
/// other document.
#[verifier::external_body]
pub(crate) fn member_of<'a>(value: &'a serde_json::Value, key: &str) -> (r: Option<
    &'a serde_json::Value,
>)
    ensures
        match r {
            Some(found) => value_contents(*value).get(key@) == Some(value_contents(*found)),
            None => value_contents(*value).get(key@) is None,
        },
{
    value.get(key)
}

/// The `Display` of a `serde_json::Value`. The text is a function of what the document
/// holds; which one is not stated.
#[verifier::external_body]
pub(crate) fn render_value(value: &serde_json::Value) -> (r: String)
    ensures
        r@ == json_rendered(value_contents(*value)),
{
    value.to_string()
}

/// Reads a JSON document, or says why the text is none.
pub fn parse_json(text: &str) -> (r: Result<Json, String>)
    ensures
        match r {
            Ok(json) => json_parsed(text@) == Ok::<JsonView, Seq<char>>(json@),
            Err(reason) => json_parsed(text@) == Err::<JsonView, Seq<char>>(reason@),
        },
{
    match parse_value(text) {
        Ok(value) => Ok(json_of(&value)),
        Err(reason) => Err(reason),
    }
}

/// The list of texts that `serde_json::from_str` reads, if the JSON text is one.
pub uninterp spec fn list_parsed(text: Seq<char>) -> Option<Seq<Seq<char>>>;

/// The JSON text that `serde_json::to_string` writes for a list of texts.
pub uninterp spec fn list_rendered(list: Seq<Seq<char>>) -> Option<Seq<char>>;

/// `serde_json::from_str`, into a list of texts: nothing where the text writes
/// none. The result is a function of the text. Of that function it is stated that
/// `[]` writes the list of no texts, and that what [`render_list`] wrote is read back.
#[verifier::external_body]
pub(crate) fn parse_list(text: &str) -> (r: Option<Vec<String>>)
    ensures
        r.deep_view() == list_parsed(text@),
        text@ == "[]"@ ==> r.deep_view() == Some(Seq::<Seq<char>>::empty()),
{
    serde_json::from_str(text).ok()
}

/// `serde_json::to_string`, of a list of texts: nothing where it fails. It fails only
/// where a value refuses to be written or a map has keys that are no texts, so that
/// a list of texts is always written. The text is a function of the list;
/// `serde_json::from_str` reads the list back from it.
#[verifier::external_body]
pub(crate) fn render_list(list: &Vec<String>) -> (r: Option<String>)
    ensures
        r.deep_view() == list_rendered(list.deep_view()),
        r is Some,
        r is Some ==> list_parsed(r->0@) == Some(list.deep_view()),
{
    serde_json::to_string(list).ok()
}

} // verus!
