//! The JSON codec: parsing and pretty-printing through the JSON
//! primitive, behind named results.

use vstd::prelude::*;
use crate::json::{JVal, JsonValue};

verus! {

/// The JSON primitive's own tree type, declared so that the conversion
/// functions can carry it; the library never looks inside a value.
#[verifier::external_type_specification]
#[verifier::external_body]
pub struct ExValue(serde_json::Value);

/// Which tree, if any, a string denotes as JSON; a function of the
/// string alone.
pub uninterp spec fn json_parse_of(s: Seq<char>) -> Option<JVal>;

/// How the JSON primitive pretty-prints a tree; a function of the tree
/// alone. The primitive holds object entries in an ordered map keyed by
/// the same order the library sorts by, so a canonical tree is printed
/// with its keys in that order.
pub uninterp spec fn pretty_of(v: JVal) -> Seq<char>;

/// The model of the parser's answer.
pub open spec fn parse_opt_view(r: Option<JsonValue>) -> Option<JVal> {
    match r {
        Some(v) => Some(v@),
        None => None,
    }
}

/// Relies on serde_json::from_str::<serde_json::Value>: whether a
/// string is valid JSON, and which tree it denotes, depend on the
/// string alone. Object entries come back with unique keys.
#[verifier::external_body]
pub fn parse_json(s: &str) -> (r: Option<JsonValue>)
    ensures
        parse_opt_view(r) == json_parse_of(s@),
{
    serde_json::from_str::<serde_json::Value>(s).ok().map(value_to_tree)
}

/// Relies on the serde_json::Value accessors: converts the primitive's
/// tree into the library's, one variant for one, a number kept as its
/// decimal rendering through serde_json::Number's Display.
#[verifier::external_body]
fn value_to_tree(v: serde_json::Value) -> JsonValue {
    match v {
        serde_json::Value::Null => JsonValue::Null,
        serde_json::Value::Bool(b) => JsonValue::Bool(b),
        serde_json::Value::Number(n) => JsonValue::Num(n.to_string()),
        serde_json::Value::String(s) => JsonValue::Str(s),
        serde_json::Value::Array(a) => JsonValue::Arr(a.into_iter().map(value_to_tree).collect()),
        serde_json::Value::Object(m) => JsonValue::Obj(
            m.into_iter().map(|(k, x)| (k, value_to_tree(x))).collect(),
        ),
    }
}

/// Relies on serde_json::to_string_pretty on the tree handed back to
/// the primitive: the indented rendering depends on the tree alone.
#[verifier::external_body]
pub fn to_pretty(v: &JsonValue) -> (r: String)
    ensures
        r@ == pretty_of(v@),
{
    match serde_json::to_string_pretty(&tree_to_value(v)) {
        Ok(s) => s,
        Err(_) => String::new(),
    }
}

/// Relies on the serde_json::Value constructors: converts the library's
/// tree back into the primitive's, one variant for one, a number read
/// back from its kept rendering (or kept as a string where that
/// rendering is no JSON number, which a parsed tree never holds).
#[verifier::external_body]
fn tree_to_value(v: &JsonValue) -> serde_json::Value {
    match v {
        JsonValue::Null => serde_json::Value::Null,
        JsonValue::Bool(b) => serde_json::Value::Bool(*b),
        JsonValue::Num(s) => match serde_json::from_str::<serde_json::Number>(s) {
            Ok(n) => serde_json::Value::Number(n),
            Err(_) => serde_json::Value::String(s.clone()),
        },
        JsonValue::Str(s) => serde_json::Value::String(s.clone()),
        JsonValue::Arr(a) => serde_json::Value::Array(a.iter().map(tree_to_value).collect()),
        JsonValue::Obj(m) => serde_json::Value::Object(
            m.iter().map(|(k, x)| (k.clone(), tree_to_value(x))).collect(),
        ),
    }
}

} // verus!
