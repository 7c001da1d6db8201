//! Reading JSON one level at a time.
//!
//! A JSON text is read into a [`JsonNode`]: a scalar with its value, an array
//! with the JSON text of each element, or an object with the name and the JSON
//! text of each member. Reading an element or a member's text in turn gives
//! the next level. The texts are the compact notation of the values.

use crate::text::{dedup_texts, distinct_texts, same_text};
use serde_json::{from_str, Number, Value};
use vstd::prelude::*;

verus! {

/// One level of a JSON value.
#[derive(Debug)]
pub enum JsonNode {
    Null,
    Bool(bool),
    /// A number, in its JSON notation.
    Number(String),
    /// A string, without its quotes and escapes.
    Text(String),
    /// An array: the JSON text of each element, in order.
    Array(Vec<String>),
    /// An object: the name and the JSON text of each member.
    Object(Vec<(String, String)>),
}

/// The mathematical value of a [`JsonNode`].
pub enum JsonNodeView {
    Null,
    Bool(bool),
    Number(Seq<char>),
    Text(Seq<char>),
    Array(Seq<Seq<char>>),
    Object(Seq<(Seq<char>, Seq<char>)>),
}

/// The values of a sequence of members.
pub open spec fn member_views(v: Seq<(String, String)>) -> Seq<(Seq<char>, Seq<char>)> {
    Seq::new(v.len(), |i: int| (v[i].0@, v[i].1@))
}

impl View for JsonNode {
    type V = JsonNodeView;

    open spec fn view(&self) -> JsonNodeView {
        match self {
            JsonNode::Null => JsonNodeView::Null,
            JsonNode::Bool(b) => JsonNodeView::Bool(*b),
            JsonNode::Number(n) => JsonNodeView::Number(n@),
            JsonNode::Text(s) => JsonNodeView::Text(s@),
            JsonNode::Array(a) => JsonNodeView::Array(crate::text::texts(a@)),
            JsonNode::Object(m) => JsonNodeView::Object(member_views(m@)),
        }
    }
}

/// What reading a result gives, as a mathematical value.
pub open spec fn read_view(r: Result<JsonNode, String>) -> Result<JsonNodeView, Seq<char>> {
    match r {
        Ok(node) => Ok(node@),
        Err(e) => Err(e@),
    }
}

/// What reading `text` as JSON gives: the top level of the value, or the
/// description of the first error in the text.
pub uninterp spec fn json_read(text: Seq<char>) -> Result<JsonNodeView, Seq<char>>;

/// The integer that `text` denotes, where `text` is the JSON notation of an
/// integer that fits 64 bits with a sign.
pub uninterp spec fn json_integer(text: Seq<char>) -> Option<i64>;

/// The number that `text` denotes, cut to a whole number of 64 bits with a
/// sign, where `text` is the JSON notation of a number.
pub uninterp spec fn json_whole_part(text: Seq<char>) -> Option<i64>;

/// `serde_json::from_str` to a `serde_json::Value`, and the top level of that
/// value: of an array the `to_string` of each element, of an object the name
/// and the `to_string` of each member, of a number its `to_string`. An error
/// comes back as its `to_string`.
#[verifier::external_body]
fn read_json(text: &str) -> (r: Result<JsonNode, String>)
    ensures
        read_view(r) == json_read(text@),
{
    Ok(match from_str::<Value>(text).map_err(|e| e.to_string())? {
        Value::Null => JsonNode::Null,
        Value::Bool(b) => JsonNode::Bool(b),
        Value::Number(n) => JsonNode::Number(n.to_string()),
        Value::String(s) => JsonNode::Text(s),
        Value::Array(a) => JsonNode::Array(a.iter().map(Value::to_string).collect()),
        Value::Object(m) => JsonNode::Object(
            m.iter().map(|(name, v)| (name.clone(), v.to_string())).collect(),
        ),
    })
}

/// `serde_json::Number::as_i64` of the number that `serde_json::from_str`
/// reads from `text`; nothing where `text` is not a number.
#[verifier::external_body]
fn read_integer(text: &str) -> (r: Option<i64>)
    ensures
        r == json_integer(text@),
{
    from_str::<Number>(text).ok()?.as_i64()
}

/// `serde_json::Number::as_f64` of the number that `serde_json::from_str`
/// reads from `text`, cast to `i64`; nothing where `text` is not a number.
#[verifier::external_body]
fn read_whole_part(text: &str) -> (r: Option<i64>)
    ensures
        r == json_whole_part(text@),
{
    from_str::<Number>(text).ok()?.as_f64().map(|x| x as i64)
}

/// Reads `text` as JSON, one level deep.
pub fn read(text: &str) -> (r: Result<JsonNode, String>)
    ensures
        read_view(r) == json_read(text@),
{
    read_json(text)
}

/// The text of the first member of `members` with the name `name`.
pub open spec fn find_member(members: Seq<(Seq<char>, Seq<char>)>, name: Seq<char>) -> Option<
    Seq<char>,
>
    decreases members.len(),
{
    if members.len() == 0 {
        None
    } else if members[0].0 == name {
        Some(members[0].1)
    } else {
        find_member(members.drop_first(), name)
    }
}

/// The JSON text of the member `name` of the value that `text` denotes; there
/// is none where that value is not an object, or has no such member.
pub open spec fn member(text: Seq<char>, name: Seq<char>) -> Option<Seq<char>> {
    match json_read(text) {
        Ok(node) => node.member(name),
        Err(_) => None,
    }
}

/// The JSON text of the first member of the value that `text` denotes whose
/// name is among `names`, taken in the order of `names`.
pub open spec fn first_member(text: Seq<char>, names: Seq<Seq<char>>) -> Option<Seq<char>>
    decreases names.len(),
{
    if names.len() == 0 {
        None
    } else {
        match member(text, names[0]) {
            Some(t) => Some(t),
            None => first_member(text, names.drop_first()),
        }
    }
}

/// The string that `text` denotes, where it denotes one.
pub open spec fn as_text(text: Seq<char>) -> Option<Seq<char>> {
    match json_read(text) {
        Ok(node) => node.text(),
        Err(_) => None,
    }
}

/// The value that `text` denotes, as a string: a string itself, a number in
/// its notation, a truth value as `true` or `false`. Nothing else can be
/// taken for a string.
pub open spec fn as_coerced_text(text: Seq<char>) -> Option<Seq<char>> {
    match json_read(text) {
        Ok(node) => node.coerced_text(),
        Err(_) => None,
    }
}

/// The texts of the elements of the array that `text` denotes, where it
/// denotes one.
pub open spec fn as_elements(text: Seq<char>) -> Option<Seq<Seq<char>>> {
    match json_read(text) {
        Ok(node) => node.elements(),
        Err(_) => None,
    }
}

/// The integer that `text` denotes, where it denotes a number that is an
/// integer of 64 bits with a sign.
pub open spec fn as_integer(text: Seq<char>) -> Option<i64> {
    match json_read(text) {
        Ok(JsonNodeView::Number(n)) => json_integer(n),
        _ => None,
    }
}

/// The whole part, in 64 bits with a sign, of the number that `text` denotes,
/// where it denotes a number.
pub open spec fn as_whole_part(text: Seq<char>) -> Option<i64> {
    match json_read(text) {
        Ok(JsonNodeView::Number(n)) => json_whole_part(n),
        _ => None,
    }
}

/// Those of the strings that the texts of `elements` denote, in order and
/// each once: an element that is no string is passed over, and so is a string
/// that came before.
pub open spec fn distinct_text_elements(elements: Seq<Seq<char>>) -> Seq<Seq<char>> {
    distinct_texts(text_elements(elements))
}

/// Those of the strings that the texts of `elements` denote, in order; an
/// element that is no string is passed over.
pub open spec fn text_elements(elements: Seq<Seq<char>>) -> Seq<Seq<char>>
    decreases elements.len(),
{
    if elements.len() == 0 {
        Seq::empty()
    } else {
        match as_text(elements.last()) {
            Some(s) => text_elements(elements.drop_last()).push(s),
            None => text_elements(elements.drop_last()),
        }
    }
}

impl JsonNodeView {
    /// The JSON text of the member `name`, where the node is an object that
    /// has one.
    pub open spec fn member(self, name: Seq<char>) -> Option<Seq<char>> {
        match self {
            JsonNodeView::Object(members) => find_member(members, name),
            _ => None,
        }
    }

    /// The string of the node, where it is one.
    pub open spec fn text(self) -> Option<Seq<char>> {
        match self {
            JsonNodeView::Text(s) => Some(s),
            _ => None,
        }
    }

    /// The node as a string: a string itself, a number in its notation, a
    /// truth value as `true` or `false`.
    pub open spec fn coerced_text(self) -> Option<Seq<char>> {
        match self {
            JsonNodeView::Text(s) => Some(s),
            JsonNodeView::Number(n) => Some(n),
            JsonNodeView::Bool(b) => Some(
                if b {
                    "true"@
                } else {
                    "false"@
                },
            ),
            _ => None,
        }
    }

    /// The texts of the elements of the node, where it is an array.
    pub open spec fn elements(self) -> Option<Seq<Seq<char>>> {
        match self {
            JsonNodeView::Array(a) => Some(a),
            _ => None,
        }
    }
}

impl JsonNode {
    /// The JSON text of the member `name`, where the node is an object that
    /// has one; of two members with one name, the first.
    pub fn member(&self, name: &str) -> (r: Option<String>)
        ensures
            crate::text::opt_text(r) == self@.member(name@),
    {
        match self {
            JsonNode::Object(members) => {
                let ghost all = member_views(members@);
                let mut i: usize = 0;
                assert(all.skip(0) =~= all);
                while i < members.len()
                    invariant
                        all == member_views(members@),
                        0 <= i <= members@.len(),
                        self@.member(name@) == find_member(all, name@),
                        find_member(all, name@) == find_member(all.skip(i as int), name@),
                    decreases members@.len() - i,
                {
                    proof {
                        assert(all.skip(i as int).drop_first() =~= all.skip(i + 1));
                        assert(all.skip(i as int)[0] == all[i as int]);
                    }
                    if same_text(members[i].0.as_str(), name) {
                        return Some(members[i].1.clone());
                    }
                    i = i + 1;
                }
                None
            },
            _ => None,
        }
    }

    /// The string of the node, where it is one.
    pub fn text(self) -> (r: Option<String>)
        ensures
            crate::text::opt_text(r) == self@.text(),
    {
        match self {
            JsonNode::Text(s) => Some(s),
            _ => None,
        }
    }

    /// The node as a string: a string itself, a number in its notation, a
    /// truth value as `true` or `false`. No other node can be taken for a
    /// string.
    pub fn coerced_text(self) -> (r: Option<String>)
        ensures
            crate::text::opt_text(r) == self@.coerced_text(),
    {
        match self {
            JsonNode::Text(s) => Some(s),
            JsonNode::Number(n) => Some(n),
            JsonNode::Bool(b) => Some(
                if b {
                    "true".to_string()
                } else {
                    "false".to_string()
                },
            ),
            _ => None,
        }
    }

    /// The texts of the elements of the node, where it is an array.
    pub fn elements(self) -> (r: Option<Vec<String>>)
        ensures
            match r {
                Some(v) => self@.elements() == Some(crate::text::texts(v@)),
                None => self@.elements() is None,
            },
    {
        match self {
            JsonNode::Array(a) => Some(a),
            _ => None,
        }
    }
}

/// The JSON text of the member `name` of the value that `text` denotes.
pub fn get_member(text: &str, name: &str) -> (r: Option<String>)
    ensures
        crate::text::opt_text(r) == member(text@, name@),
{
    match read_json(text) {
        Ok(node) => node.member(name),
        Err(_) => None,
    }
}

/// The JSON text of the first member of the value that `text` denotes whose
/// name is among `names`, taken in the order of `names`.
pub fn get_first_member(text: &str, names: &[&str]) -> (r: Option<String>)
    ensures
        crate::text::opt_text(r) == first_member(text@, name_views(names@)),
{
    let ghost all = name_views(names@);
    let mut i: usize = 0;
    assert(all.skip(0) =~= all);
    while i < names.len()
        invariant
            all == name_views(names@),
            0 <= i <= names@.len(),
            first_member(text@, all) == first_member(text@, all.skip(i as int)),
        decreases names@.len() - i,
    {
        proof {
            assert(all.skip(i as int).drop_first() =~= all.skip(i + 1));
            assert(all.skip(i as int)[0] == all[i as int]);
        }
        match get_member(text, names[i]) {
            Some(t) => {
                return Some(t);
            },
            None => {},
        }
        i = i + 1;
    }
    None
}

/// The views of a sequence of string slices.
pub open spec fn name_views(names: Seq<&str>) -> Seq<Seq<char>> {
    Seq::new(names.len(), |i: int| names[i]@)
}

/// The string that `text` denotes, where it denotes one.
pub fn get_text(text: &str) -> (r: Option<String>)
    ensures
        crate::text::opt_text(r) == as_text(text@),
{
    match read_json(text) {
        Ok(node) => node.text(),
        Err(_) => None,
    }
}

/// The value that `text` denotes, as a string.
pub fn get_coerced_text(text: &str) -> (r: Option<String>)
    ensures
        crate::text::opt_text(r) == as_coerced_text(text@),
{
    match read_json(text) {
        Ok(node) => node.coerced_text(),
        Err(_) => None,
    }
}

/// The texts of the elements of the array that `text` denotes.
pub fn get_elements(text: &str) -> (r: Option<Vec<String>>)
    ensures
        match r {
            Some(v) => as_elements(text@) == Some(crate::text::texts(v@)),
            None => as_elements(text@) is None,
        },
{
    match read_json(text) {
        Ok(node) => node.elements(),
        Err(_) => None,
    }
}

/// The integer that `text` denotes.
pub fn get_integer(text: &str) -> (r: Option<i64>)
    ensures
        r == as_integer(text@),
{
    match read_json(text) {
        Ok(JsonNode::Number(n)) => read_integer(n.as_str()),
        _ => None,
    }
}

/// The whole part of the number that `text` denotes.
pub fn get_whole_part(text: &str) -> (r: Option<i64>)
    ensures
        r == as_whole_part(text@),
{
    match read_json(text) {
        Ok(JsonNode::Number(n)) => read_whole_part(n.as_str()),
        _ => None,
    }
}

/// Those of the strings that the texts of `elements` denote, in order and
/// each once.
pub fn get_distinct_text_elements(elements: &Vec<String>) -> (r: Vec<String>)
    ensures
        crate::text::texts(r@) == distinct_text_elements(crate::text::texts(elements@)),
{
    dedup_texts(get_text_elements(elements))
}

/// Those of the strings that the texts of `elements` denote, in order.
pub fn get_text_elements(elements: &Vec<String>) -> (r: Vec<String>)
    ensures
        crate::text::texts(r@) == text_elements(crate::text::texts(elements@)),
{
    let ghost all = crate::text::texts(elements@);
    let mut r: Vec<String> = Vec::new();
    let mut i: usize = 0;
    assert(all.take(0) =~= Seq::empty());
    while i < elements.len()
        invariant
            all == crate::text::texts(elements@),
            0 <= i <= elements@.len(),
            crate::text::texts(r@) == text_elements(all.take(i as int)),
        decreases elements@.len() - i,
    {
        proof {
            assert(all.take(i + 1).drop_last() =~= all.take(i as int));
            assert(all.take(i + 1).last() == elements@[i as int]@);
        }
        match get_text(elements[i].as_str()) {
            Some(s) => {
                r.push(s);
                assert(crate::text::texts(r@) =~= text_elements(all.take(i + 1)));
            },
            None => {},
        }
        i = i + 1;
    }
    assert(all.take(elements@.len() as int) =~= all);
    r
}

} // verus!
