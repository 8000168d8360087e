//! What the library knows of `serde_json`.
//!
//! A language's texts are held in a JSON object of `serde_json`, and written by
//! it. Verus does not look inside that crate: the contracts in this module say
//! what its functions do, and they are believed, not proved. Nothing else in the
//! library is.

use vstd::prelude::*;

verus! {

/// `serde_json::Map`, a JSON object. Verus sees nothing inside it.
#[verifier::external_type_specification]
#[verifier::external_body]
#[verifier::reject_recursive_types(K)]
#[verifier::reject_recursive_types(V)]
pub struct ExJsonObject<K, V>(serde_json::Map<K, V>);

/// `serde_json::Value`, a JSON value of any kind. Verus sees nothing inside it.
#[verifier::external_type_specification]
#[verifier::external_body]
pub struct ExJsonValue(serde_json::Value);

/// `serde_json::Error`. Verus sees nothing inside it.
#[verifier::external_type_specification]
#[verifier::external_body]
pub struct ExJsonError(serde_json::Error);

/// The members of a JSON object, by key: `Some` of its characters for a member
/// that is a JSON string, `None` for a member of any other kind.
pub uninterp spec fn json_entries(object: serde_json::Map<String, serde_json::Value>) -> Map<
    Seq<char>,
    Option<Seq<char>>,
>;

/// What `serde_json::to_string_pretty` writes for an object whose members are
/// all strings, given by key and characters; `None` where it reports an error.
pub uninterp spec fn pretty_json(entries: Map<Seq<char>, Seq<char>>) -> Option<Seq<char>>;

/// Whether every member is a string.
pub open spec fn all_text(entries: Map<Seq<char>, Option<Seq<char>>>) -> bool {
    forall|key: Seq<char>| entries.contains_key(key) ==> (#[trigger] entries[key]) is Some
}

/// The members' texts, where every member is a string.
pub open spec fn texts(entries: Map<Seq<char>, Option<Seq<char>>>) -> Map<Seq<char>, Seq<char>> {
    Map::new(|key: Seq<char>| entries.contains_key(key), |key: Seq<char>| entries[key].unwrap())
}

/// Calls `serde_json::Map::with_capacity`. Claimed: the object that it makes
/// has no members, whatever the capacity.
#[verifier::external_body]
pub(crate) fn json_object(capacity: usize) -> (object: serde_json::Map<String, serde_json::Value>)
    ensures
        json_entries(object) =~= Map::empty(),
{
    serde_json::Map::with_capacity(capacity)
}

/// Calls `serde_json::Map::get`. Claimed: it finds a member exactly where the
/// object has one under the key.
#[verifier::external_body]
pub(crate) fn json_get<'a>(
    object: &'a serde_json::Map<String, serde_json::Value>,
    key: &str,
) -> (found: Option<&'a serde_json::Value>)
    ensures
        found is Some <==> json_entries(*object).contains_key(key@),
{
    object.get(key)
}

/// Calls `serde_json::Map::insert` with a JSON string as the value. Claimed:
/// afterwards the object has that string under the key and every other member
/// as before, and the earlier member is handed back exactly where the object
/// had one under the key.
#[verifier::external_body]
pub(crate) fn json_insert(
    object: &mut serde_json::Map<String, serde_json::Value>,
    key: String,
    text: String,
) -> (previous: Option<serde_json::Value>)
    ensures
        json_entries(*final(object)) == json_entries(*old(object)).insert(key@, Some(text@)),
        previous is Some <==> json_entries(*old(object)).contains_key(key@),
{
    object.insert(key, serde_json::Value::String(text))
}

/// Calls `serde_json::to_string_pretty` on an object whose members are all
/// strings. Claimed: whether it succeeds, and what it writes, depends on the
/// keys and texts of the members alone; it holds while the object keeps its
/// members sorted by key, as it does unless the crate's `preserve_order` is on.
#[verifier::external_body]
pub(crate) fn json_pretty(object: &serde_json::Map<String, serde_json::Value>) -> (written: Result<
    String,
    serde_json::Error,
>)
    requires
        all_text(json_entries(*object)),
    ensures
        match written {
            Ok(text) => pretty_json(texts(json_entries(*object))) == Some(text@),
            Err(_) => pretty_json(texts(json_entries(*object))) is None,
        },
{
    serde_json::to_string_pretty(object)
}

} // verus!
