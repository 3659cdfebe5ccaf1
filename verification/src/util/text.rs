//! Trusted boundary between JSON text and the tree model.
//!
//! Parsing and rendering of JSON text are delegated to serde_json (configured
//! to preserve object key order); everything this crate proves about them
//! rests on the contracts below.

use vstd::prelude::*;
use vstd::string::StringSliceAdditionalSpecFns;
use crate::util::json::{depth_le, Json, JsonView, num_free, tree_unique};

verus! {

#[verifier::external_type_specification]
#[verifier::external_body]
pub struct ExValue(serde_json::Value);

#[verifier::external_type_specification]
#[verifier::external_body]
#[verifier::reject_recursive_types(K)]
#[verifier::reject_recursive_types(V)]
pub struct ExMap<K, V>(serde_json::Map<K, V>);

/// The tree denoted by a JSON text: `Some` exactly when the text is
/// syntactically valid JSON within the parser's recursion limit.  A number
/// that is not an unsigned 64-bit integer appears as its opaque decimal
/// token.
pub uninterp spec fn json_of_text(s: Seq<char>) -> Option<JsonView>;

/// The tree denoted by JSON bytes, under the same conditions.
pub uninterp spec fn json_of_bytes(b: Seq<u8>) -> Option<JsonView>;

/// The JSON text a tree renders to.
pub uninterp spec fn rendered(t: JsonView) -> Seq<char>;

/// Converts every element of a parsed array.  Relies on serde_json::Value.
#[verifier::external_body]
fn values_to_trees(a: &[serde_json::Value]) -> Vec<Json> {
    a.iter().map(value_to_tree).collect()
}

/// Converts every entry of a parsed object, keeping entry order.  Relies on
/// serde_json::Map iterating in insertion order under the preserve_order
/// configuration.
#[verifier::external_body]
fn map_to_entries(m: &serde_json::Map<String, serde_json::Value>) -> Vec<(String, Json)> {
    m.iter().map(|(k, x)| (k.clone(), value_to_tree(x))).collect()
}

/// Converts a parsed serde_json value into this crate's tree, variant by
/// variant.  Relies on serde_json::Number under the arbitrary_precision
/// configuration: as_u64 is Some exactly for a plain unsigned 64-bit integer
/// token, and as_str is the number's exact source token, kept for the opaque
/// carry-through.
#[verifier::external_body]
fn value_to_tree(v: &serde_json::Value) -> Json {
    match v {
        serde_json::Value::Null => Json::Null,
        serde_json::Value::Bool(b) => Json::Bool(*b),
        serde_json::Value::Number(n) => match n.as_u64() {
            Some(u) => Json::UInt(u),
            None => Json::Num(n.as_str().to_string()),
        },
        serde_json::Value::String(s) => Json::Text(s.clone()),
        serde_json::Value::Array(a) => Json::Arr(values_to_trees(a)),
        serde_json::Value::Object(m) => Json::Obj(map_to_entries(m)),
    }
}

/// Converts every tree of a list.  Relies on serde_json::Value.
#[verifier::external_body]
fn trees_to_values(a: &Vec<Json>) -> Vec<serde_json::Value> {
    a.iter().map(tree_to_value).collect()
}

/// Converts every entry of an object, keeping entry order.  Relies on
/// serde_json::Map keeping insertion order under the preserve_order
/// configuration.
#[verifier::external_body]
fn entries_to_map(m: &Vec<(String, Json)>) -> serde_json::Map<String, serde_json::Value> {
    m.iter().map(|(k, x)| (k.clone(), tree_to_value(x))).collect()
}

/// Converts a tree of this crate into a serde_json value, variant by variant.
/// Relies on serde_json::Number under the arbitrary_precision configuration:
/// an opaque number token is carried back verbatim (from_string_unchecked
/// stores the string as the number's token and rendering prints it as is).
#[verifier::external_body]
fn tree_to_value(t: &Json) -> serde_json::Value {
    match t {
        Json::Null => serde_json::Value::Null,
        Json::Bool(b) => serde_json::Value::Bool(*b),
        Json::UInt(n) => serde_json::Value::Number(serde_json::Number::from(*n)),
        Json::Num(s) => serde_json::Value::Number(
            serde_json::Number::from_string_unchecked(s.clone()),
        ),
        Json::Text(s) => serde_json::Value::String(s.clone()),
        Json::Arr(a) => serde_json::Value::Array(trees_to_values(a)),
        Json::Obj(m) => serde_json::Value::Object(entries_to_map(m)),
    }
}

/// Relies on str::as_bytes, and on serde_json's from_str being from_slice on
/// those bytes (its str reader wraps its slice reader): a text and its UTF-8
/// bytes denote the same tree.
#[verifier::external_body]
pub(crate) fn text_bytes(s: &str) -> (b: &[u8])
    ensures
        b@ == s.spec_bytes(),
        json_of_bytes(b@) == json_of_text(s@),
{
    s.as_bytes()
}

/// Relies on serde_json::from_slice::<serde_json::Value>: parsing JSON bytes
/// is a function of the bytes alone, it fails exactly on input that is not
/// valid JSON (or nests past the recursion limit), parsed objects bind
/// unique keys (the map collapses duplicates), and failures are returned,
/// never panicked.  The carried error string is the parser's diagnostic.
#[verifier::external_body]
pub(crate) fn parse_bytes(v: &[u8]) -> (r: Result<Json, String>)
    ensures
        match r {
            Ok(t) => json_of_bytes(v@) == Some(t@) && tree_unique(t@),
            Err(_) => json_of_bytes(v@) is None,
        },
{
    match serde_json::from_slice::<serde_json::Value>(v) {
        Ok(v) => Ok(value_to_tree(&v)),
        Err(e) => Err(e.to_string()),
    }
}

/// Relies on serde_json::to_string on a serde_json::Value, which renders any
/// value of this crate's tree model without failing.  Parsing the rendered
/// text of a tree that holds no opaque number token and whose objects bind
/// pairwise-distinct keys gives back exactly that tree, provided the tree
/// stays well inside the parser's recursion limit (serde_json rejects
/// nesting past 128 levels, and this crate's serde_json configuration
/// preserves key order).
#[verifier::external_body]
pub(crate) fn render_tree(t: &Json) -> (r: String)
    ensures
        r@ == rendered(t@),
        tree_unique(t@) && depth_le(t@, 100) && num_free(t@) ==> json_of_text(r@) == Some(t@),
{
    serde_json::to_string(&tree_to_value(t)).expect("a tree value always renders")
}

} // verus!
