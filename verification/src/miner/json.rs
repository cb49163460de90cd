//! JSON objects, as `serde_json` holds them.

use vstd::prelude::*;

verus! {

/// The value of a member of a JSON object.
pub enum Member {
    Text(Seq<char>),
    Flag(bool),
    Number(u64),
}

/// `serde_json::Value`, a JSON value.
#[verifier::external_type_specification]
#[verifier::external_body]
pub struct ExValue(serde_json::Value);

/// `serde_json::Map`, the members of a JSON object.
#[verifier::external_type_specification]
#[verifier::external_body]
#[verifier::reject_recursive_types(K)]
#[verifier::reject_recursive_types(V)]
pub struct ExMap<K, V>(serde_json::Map<K, V>);

/// The members of a JSON object, by name.
pub uninterp spec fn members(object: serde_json::Map<String, serde_json::Value>) -> Map<Seq<char>, Member>;

/// What an object without members holds.
pub open spec fn no_members() -> Map<Seq<char>, Member> {
    Map::empty()
}

/// `serde_json::Map::new`: an object without members.
#[verifier::external_body]
pub(crate) fn new_object() -> (object: serde_json::Map<String, serde_json::Value>)
    ensures
        members(object) == no_members(),
{
    serde_json::Map::new()
}

/// `serde_json::Map::insert`, of a JSON string: the member `name` now holds `value`, and no
/// other member changes.
#[verifier::external_body]
pub(crate) fn insert_text(
    object: &mut serde_json::Map<String, serde_json::Value>,
    name: &str,
    value: &str,
)
    ensures
        members(*final(object)) == members(*old(object)).insert(name@, Member::Text(value@)),
{
    object.insert(name.to_owned(), serde_json::Value::from(value));
}

/// `serde_json::Map::insert`, of a JSON boolean: the member `name` now holds `value`, and no
/// other member changes.
#[verifier::external_body]
pub(crate) fn insert_flag(
    object: &mut serde_json::Map<String, serde_json::Value>,
    name: &str,
    value: bool,
)
    ensures
        members(*final(object)) == members(*old(object)).insert(name@, Member::Flag(value)),
{
    object.insert(name.to_owned(), serde_json::Value::from(value));
}

/// `serde_json::Map::insert`, of a JSON number: the member `name` now holds `value`, and no
/// other member changes.
#[verifier::external_body]
pub(crate) fn insert_number(
    object: &mut serde_json::Map<String, serde_json::Value>,
    name: &str,
    value: u64,
)
    ensures
        members(*final(object)) == members(*old(object)).insert(name@, Member::Number(value)),
{
    object.insert(name.to_owned(), serde_json::Value::from(value));
}

} // verus!
