use vstd::prelude::*;
use serde_json::Value;

verus! {

#[verifier::external_type_specification]
#[verifier::external_body]
pub struct ExValue(serde_json::Value);

#[verifier::external_type_specification]
#[verifier::external_body]
pub struct ExJsonError(serde_json::Error);

#[verifier::external_type_specification]
#[verifier::external_body]
#[verifier::reject_recursive_types(K)]
#[verifier::reject_recursive_types(V)]
pub struct ExJsonMap<K, V>(serde_json::Map<K, V>);

/// Whether serde_json takes the text `t` for one well-formed JSON document.
pub uninterp spec fn json_accepts(t: Seq<char>) -> bool;

/// The value that serde_json reads from the text `t`.
pub uninterp spec fn json_value_of(t: Seq<char>) -> Value;

/// The compact JSON text that serde_json writes for `v`.
pub uninterp spec fn json_text(v: Value) -> Seq<u8>;

/// The member `key` of `v`, where `v` is an object that has one.
pub uninterp spec fn json_member(v: Value, key: Seq<char>) -> Option<Value>;

/// The number `v` holds, where it is one that fits in `u64`.
pub uninterp spec fn json_u64_of(v: Value) -> Option<u64>;

/// The text `v` holds, where it is a string.
pub uninterp spec fn json_str_of(v: Value) -> Option<Seq<char>>;

/// The members of an object map, by key.
pub uninterp spec fn json_map_members(m: serde_json::Map<String, Value>) -> Map<Seq<char>, Value>;

/// Relies on serde_json::from_str: whether a text parses, and to what, depends
/// on the text alone.
#[verifier::external_body]
pub(crate) fn parse_json(t: &str) -> (r: Result<Value, serde_json::Error>)
    ensures
        r is Ok <==> json_accepts(t@),
        match r {
            Ok(v) => v == json_value_of(t@),
            Err(_) => true,
        },
{
    serde_json::from_str(t)
}

/// Relies on serde_json::to_vec: the compact JSON text of a value, valid UTF-8.
/// A `Value` always serialises (its object keys are strings).
#[verifier::external_body]
pub(crate) fn serialize_json(v: &Value) -> (r: Result<Vec<u8>, serde_json::Error>)
    ensures
        r is Ok,
        match r {
            Ok(b) => b@ == json_text(*v) && vstd::utf8::valid_utf8(b@),
            Err(_) => true,
        },
{
    serde_json::to_vec(v)
}

/// Relies on serde_json::Value::get: the member `key` of an object, if any.
#[verifier::external_body]
pub(crate) fn json_get<'a>(v: &'a Value, key: &str) -> (r: Option<&'a Value>)
    ensures
        match r {
            Some(x) => json_member(*v, key@) == Some(*x),
            None => json_member(*v, key@) is None,
        },
{
    v.get(key)
}

/// Relies on serde_json::Value::as_u64: a number that fits in `u64`.
#[verifier::external_body]
pub(crate) fn json_as_u64(v: &Value) -> (r: Option<u64>)
    ensures
        r == json_u64_of(*v),
{
    v.as_u64()
}

/// Relies on serde_json::Value::as_str: the text of a string value.
#[verifier::external_body]
pub(crate) fn json_as_str(v: &Value) -> (r: Option<&str>)
    ensures
        match r {
            Some(s) => json_str_of(*v) == Some(s@),
            None => json_str_of(*v) is None,
        },
{
    v.as_str()
}

/// Relies on `From<&str> for serde_json::Value`: a string value holding `s`.
#[verifier::external_body]
pub(crate) fn json_string(s: &str) -> (r: Value)
    ensures
        json_str_of(r) == Some(s@),
{
    Value::from(s)
}

/// Relies on `From<u64> for serde_json::Value`: a number value holding `n`.
#[verifier::external_body]
pub(crate) fn json_u64(n: u64) -> (r: Value)
    ensures
        json_u64_of(r) == Some(n),
{
    Value::from(n)
}

/// Relies on serde_json::Map::new: an empty object map.
#[verifier::external_body]
pub(crate) fn json_map_new() -> (r: serde_json::Map<String, Value>)
    ensures
        json_map_members(r).dom() == Set::<Seq<char>>::empty(),
{
    serde_json::Map::new()
}

/// Relies on serde_json::Map::insert: sets the member `key`, replacing an old one.
#[verifier::external_body]
pub(crate) fn json_map_insert(m: &mut serde_json::Map<String, Value>, key: String, v: Value)
    ensures
        json_map_members(*final(m)) == json_map_members(*old(m)).insert(key@, v),
{
    m.insert(key, v);
}

/// Relies on the `Value::Object` variant: an object value whose members are
/// those of the map.
#[verifier::external_body]
pub(crate) fn json_object(m: serde_json::Map<String, Value>) -> (r: Value)
    ensures
        forall|k: Seq<char>| #[trigger] json_member(r, k) == (if json_map_members(m).contains_key(k) {
            Some(json_map_members(m)[k])
        } else {
            None
        }),
{
    Value::Object(m)
}

} // verus!
