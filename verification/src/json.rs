//! JSON documents, read with `serde_json`.

use vstd::prelude::*;

verus! {

/// `serde_json::Value`, a JSON document that was read.
#[verifier::external_type_specification]
#[verifier::external_body]
pub struct ExJsonValue(serde_json::Value);

/// `serde_json::Error`, why a text is no JSON document.
#[verifier::external_type_specification]
#[verifier::external_body]
pub struct ExJsonError(serde_json::Error);

/// What a JSON document holds.
pub enum JsonTree {
    Null,
    Bool(bool),
    /// A number, with its value where it is written as an integer from zero to the largest `u64`.
    Number(Option<u64>),
    Text(Seq<char>),
    Array(Seq<JsonTree>),
    Object(Map<Seq<char>, JsonTree>),
}

/// What `serde_json::from_str` reads from a text: nothing where the text is no JSON document.
pub uninterp spec fn json_document(text: Seq<char>) -> Option<JsonTree>;

/// What a `serde_json::Value` holds.
pub uninterp spec fn json_contents(value: serde_json::Value) -> JsonTree;

/// The member of an object, if it is one and has one of that name.
pub open spec fn member_of(tree: JsonTree, key: Seq<char>) -> Option<JsonTree> {
    match tree {
        JsonTree::Object(m) => if m.contains_key(key) {
            Some(m[key])
        } else {
            None
        },
        _ => None,
    }
}

/// The member of a member, and so on.
pub open spec fn member_at(tree: JsonTree, path: Seq<Seq<char>>) -> Option<JsonTree>
    decreases path.len(),
{
    if path.len() == 0 {
        Some(tree)
    } else {
        match member_at(tree, path.drop_last()) {
            Some(t) => member_of(t, path.last()),
            None => None,
        }
    }
}

/// The text of a string.
pub open spec fn text_in(tree: Option<JsonTree>) -> Option<Seq<char>> {
    match tree {
        Some(JsonTree::Text(t)) => Some(t),
        _ => None,
    }
}

/// The value of a number that is written as an integer from zero to the largest `u64`.
pub open spec fn whole_in(tree: Option<JsonTree>) -> Option<u64> {
    match tree {
        Some(JsonTree::Number(n)) => n,
        _ => None,
    }
}

/// `serde_json::from_str` reads a document or gives an error, and which of the two, and the
/// document, depend on the text alone.
#[verifier::external_body]
pub(crate) fn parse_value(text: &str) -> (r: Result<serde_json::Value, serde_json::Error>)
    ensures
        match r {
            Ok(v) => json_document(text@) == Some(json_contents(v)),
            Err(_) => json_document(text@) is None,
        },
{
    serde_json::from_str(text)
}

/// `serde_json::Value::get` with a name gives the member of that name of an object, and nothing
/// where the value is no object or has no such member.
#[verifier::external_body]
pub(crate) fn member<'a>(value: &'a serde_json::Value, key: &str) -> (r: Option<
    &'a serde_json::Value,
>)
    ensures
        match r {
            Some(v) => member_of(json_contents(*value), key@) == Some(json_contents(*v)),
            None => member_of(json_contents(*value), key@) is None,
        },
{
    value.get(key)
}

/// `serde_json::Value::as_str` gives the text of a string, and nothing for any other value.
#[verifier::external_body]
pub(crate) fn as_text(value: &serde_json::Value) -> (r: Option<&str>)
    ensures
        match r {
            Some(t) => text_in(Some(json_contents(*value))) == Some(t@),
            None => text_in(Some(json_contents(*value))) is None,
        },
{
    value.as_str()
}

/// `serde_json::Value::as_u64` gives the value of a number that is written as an integer from zero
/// to the largest `u64`, and nothing for any other value.
#[verifier::external_body]
pub(crate) fn as_whole(value: &serde_json::Value) -> (r: Option<u64>)
    ensures
        r == whole_in(Some(json_contents(*value))),
{
    value.as_u64()
}

/// The text at the end of a path of member names.
pub fn text_at(value: &serde_json::Value, path: &[&str]) -> (r: Option<String>)
    ensures
        (match r {
            Some(t) => Some(t@),
            None => None,
        }) == text_in(member_at(json_contents(*value), names(path@))),
{
    match follow(value, path) {
        Some(v) => match as_text(v) {
            Some(t) => Some(t.to_string()),
            None => None,
        },
        None => None,
    }
}

/// The number at the end of a path of member names.
pub fn whole_at(value: &serde_json::Value, path: &[&str]) -> (r: Option<u64>)
    ensures
        r == whole_in(member_at(json_contents(*value), names(path@))),
{
    match follow(value, path) {
        Some(v) => as_whole(v),
        None => None,
    }
}

/// The names that a path holds.
pub open spec fn names(path: Seq<&str>) -> Seq<Seq<char>> {
    Seq::new(path.len(), |i: int| path[i]@)
}

/// The value at the end of a path of member names.
fn follow<'a>(value: &'a serde_json::Value, path: &[&str]) -> (r: Option<&'a serde_json::Value>)
    ensures
        match r {
            Some(v) => member_at(json_contents(*value), names(path@)) == Some(json_contents(*v)),
            None => member_at(json_contents(*value), names(path@)) is None,
        },
{
    let ghost all = names(path@);
    let ghost tree = json_contents(*value);
    let mut at: Option<&serde_json::Value> = Some(value);
    let mut i: usize = 0;
    while i < path.len()
        invariant
            i <= path@.len(),
            all == names(path@),
            tree == json_contents(*value),
            match at {
                Some(v) => member_at(tree, all.take(i as int)) == Some(json_contents(*v)),
                None => member_at(tree, all.take(i as int)) is None,
            },
        decreases path@.len() - i,
    {
        assert(all.take(i + 1).drop_last() =~= all.take(i as int));
        at =
        match at {
            Some(v) => member(v, path[i]),
            None => None,
        };
        i += 1;
    }
    assert(all.take(i as int) =~= all);
    at
}

} // verus!
