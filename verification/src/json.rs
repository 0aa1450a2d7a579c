//! A JSON document read one level at a time, as serde_json parses it: a
//! node is a scalar, or the JSON text of each member of an array or object,
//! which is read again to go one level down.

use vstd::prelude::*;
use serde_json::Value;

verus! {

/// One level of a JSON document.
#[derive(Clone, Debug, PartialEq, Eq)]
pub enum JsonNode {
    Null,
    Bool(bool),
    /// A number, with its value where it is an integer that fits in a `u64`.
    Number(Option<u64>),
    Text(String),
    /// The JSON text of each element, in order.
    Array(Vec<String>),
    /// Each member's name and the JSON text of its value.
    Object(Vec<(String, String)>),
}

/// A node as text.
pub enum NodeView {
    Null,
    Bool(bool),
    Number(Option<u64>),
    Text(Seq<char>),
    Array(Seq<Seq<char>>),
    Object(Seq<(Seq<char>, Seq<char>)>),
}

pub open spec fn node_view(n: JsonNode) -> NodeView {
    match n {
        JsonNode::Null => NodeView::Null,
        JsonNode::Bool(b) => NodeView::Bool(b),
        JsonNode::Number(u) => NodeView::Number(u),
        JsonNode::Text(t) => NodeView::Text(t@),
        JsonNode::Array(items) => NodeView::Array(items@.map_values(|t: String| t@)),
        JsonNode::Object(members) => NodeView::Object(members@.map_values(|m: (String, String)| (m.0@, m.1@))),
    }
}

/// A parse as text: the node, or serde_json's account of why the text is
/// no JSON.
pub open spec fn parse_view(r: Result<JsonNode, String>) -> Result<NodeView, Seq<char>> {
    match r {
        Ok(n) => Ok(node_view(n)),
        Err(e) => Err(e@),
    }
}

/// What serde_json makes of `text`, one level deep.
pub uninterp spec fn json_node(text: Seq<char>) -> Result<NodeView, Seq<char>>;

/// Parses `text` with `serde_json::from_str` into a `serde_json::Value` and
/// converts its top level: a number to its `as_u64`, and each element or
/// member value to its JSON text by `to_string`; a parse error to its
/// `to_string`. The contract claims only that the result is a function of
/// `text`, named `json_node`; nothing is stated of the JSON grammar.
#[verifier::external_body]
pub fn parse_json(text: &str) -> (r: Result<JsonNode, String>)
    ensures
        parse_view(r) == json_node(text@),
{
    match serde_json::from_str::<Value>(text) {
        Err(e) => Err(e.to_string()),
        Ok(Value::Null) => Ok(JsonNode::Null),
        Ok(Value::Bool(b)) => Ok(JsonNode::Bool(b)),
        Ok(Value::Number(n)) => Ok(JsonNode::Number(n.as_u64())),
        Ok(Value::String(s)) => Ok(JsonNode::Text(s)),
        Ok(Value::Array(a)) => Ok(JsonNode::Array(a.iter().map(|v| v.to_string()).collect())),
        Ok(Value::Object(o)) => Ok(JsonNode::Object(o.into_iter().map(|(k, v)| (k, v.to_string())).collect())),
    }
}

/// The JSON text of the value of the member named `key`, the first of that
/// name.
pub open spec fn member(members: Seq<(Seq<char>, Seq<char>)>, key: Seq<char>) -> Option<Seq<char>>
    decreases members.len(),
{
    if members.len() == 0 {
        None
    } else if members[0].0 == key {
        Some(members[0].1)
    } else {
        member(members.drop_first(), key)
    }
}

/// The JSON text of the value of the member of `text`'s object named `key`,
/// where `text` is an object that has one.
pub open spec fn member_of_spec(text: Seq<char>, key: Seq<char>) -> Option<Seq<char>> {
    match json_node(text) {
        Ok(NodeView::Object(members)) => member(members, key),
        _ => None,
    }
}

/// The JSON text of the value of the member named `key` among `members`.
pub fn find_member(members: &Vec<(String, String)>, key: &str) -> (r: Option<String>)
    ensures
        match r {
            Some(t) => member(members@.map_values(|m: (String, String)| (m.0@, m.1@)), key@) == Some(t@),
            None => member(members@.map_values(|m: (String, String)| (m.0@, m.1@)), key@) is None,
        },
{
    let ghost all = members@.map_values(|m: (String, String)| (m.0@, m.1@));
    let n = members.len();
    let mut i: usize = 0;
    assert(all.skip(0) =~= all);
    while i < n
        invariant
            n == members@.len(),
            i <= n,
            all == members@.map_values(|m: (String, String)| (m.0@, m.1@)),
            member(all, key@) == member(all.skip(i as int), key@),
        decreases n - i,
    {
        let ghost rest = all.skip(i as int);
        assert(rest[0] == all[i as int]);
        assert(rest.drop_first() =~= all.skip(i + 1));
        if crate::text::same_text(members[i].0.as_str(), key) {
            return Some(members[i].1.clone());
        }
        i = i + 1;
    }
    assert(all.skip(n as int) =~= Seq::<(Seq<char>, Seq<char>)>::empty());
    None
}

/// The JSON text of the value of the member of `text`'s object named `key`.
pub fn member_of(text: &str, key: &str) -> (r: Option<String>)
    ensures
        match r {
            Some(t) => member_of_spec(text@, key@) == Some(t@),
            None => member_of_spec(text@, key@) is None,
        },
{
    match parse_json(text) {
        Ok(JsonNode::Object(members)) => find_member(&members, key),
        _ => None,
    }
}

} // verus!
