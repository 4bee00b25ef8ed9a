//! The JSON-RPC envelopes that go to the server, and the members of an inbound
//! frame that routing reads.
use vstd::prelude::*;
use serde_json::Value;
use crate::json::{
    json_as_str, json_as_u64, json_get, json_map_insert, json_map_members, json_map_new, json_member,
    json_object, json_str_of, json_string, json_u64, json_u64_of,
};
use crate::text::push_str;

verus! {

fn owned(s: &str) -> (r: String)
    ensures
        r@ == s@,
{
    let mut out = String::new();
    push_str(&mut out, s);
    assert(out@ =~= s@);
    out
}

/// `v` has a member `key` that is the string `text`.
pub open spec fn has_str_member(v: Value, key: Seq<char>, text: Seq<char>) -> bool {
    match json_member(v, key) {
        Some(x) => json_str_of(x) == Some(text),
        None => false,
    }
}

/// `{"jsonrpc": "2.0", "id": id, "method": method, "params": params}`.
pub fn request_message(id: u64, method: &str, params: Value) -> (r: Value)
    ensures
        has_str_member(r, "jsonrpc"@, "2.0"@),
        match json_member(r, "id"@) {
            Some(x) => json_u64_of(x) == Some(id),
            None => false,
        },
        has_str_member(r, "method"@, method@),
        json_member(r, "params"@) == Some(params),
        forall|k: Seq<char>|
            #[trigger] json_member(r, k) is Some ==> k == "jsonrpc"@ || k == "id"@ || k == "method"@
                || k == "params"@,
{
    proof {
        reveal_strlit("jsonrpc");
        reveal_strlit("id");
        reveal_strlit("method");
        reveal_strlit("params");
    }
    let mut m = json_map_new();
    let ghost p = params;
    json_map_insert(&mut m, owned("jsonrpc"), json_string("2.0"));
    json_map_insert(&mut m, owned("id"), json_u64(id));
    json_map_insert(&mut m, owned("method"), json_string(method));
    json_map_insert(&mut m, owned("params"), params);
    assert(json_map_members(m).contains_key("params"@));
    assert(json_map_members(m)["params"@] == p);
    assert("jsonrpc"@.len() == 7 && "id"@.len() == 2 && "method"@.len() == 6 && "params"@.len() == 6);
    assert("method"@[0] == 'm' && "params"@[0] == 'p');
    assert("jsonrpc"@ != "id"@ && "jsonrpc"@ != "method"@ && "jsonrpc"@ != "params"@);
    assert("id"@ != "method"@ && "id"@ != "params"@ && "method"@ != "params"@);
    json_object(m)
}

/// `{"jsonrpc": "2.0", "method": method, "params": params}`: no `id`, so no reply.
pub fn notification_message(method: &str, params: Value) -> (r: Value)
    ensures
        has_str_member(r, "jsonrpc"@, "2.0"@),
        json_member(r, "id"@) is None,
        has_str_member(r, "method"@, method@),
        json_member(r, "params"@) == Some(params),
        forall|k: Seq<char>|
            #[trigger] json_member(r, k) is Some ==> k == "jsonrpc"@ || k == "method"@ || k
                == "params"@,
{
    proof {
        reveal_strlit("jsonrpc");
        reveal_strlit("id");
        reveal_strlit("method");
        reveal_strlit("params");
    }
    let mut m = json_map_new();
    let ghost p = params;
    json_map_insert(&mut m, owned("jsonrpc"), json_string("2.0"));
    json_map_insert(&mut m, owned("method"), json_string(method));
    json_map_insert(&mut m, owned("params"), params);
    assert(json_map_members(m)["params"@] == p);
    assert("jsonrpc"@.len() == 7 && "id"@.len() == 2 && "method"@.len() == 6 && "params"@.len() == 6);
    assert("method"@[0] == 'm' && "params"@[0] == 'p');
    assert("jsonrpc"@ != "id"@ && "jsonrpc"@ != "method"@ && "jsonrpc"@ != "params"@);
    assert("id"@ != "method"@ && "id"@ != "params"@ && "method"@ != "params"@);
    json_object(m)
}

/// What routing reads of an inbound frame.
pub struct FrameFields {
    /// The `id` member, where it is an unsigned integer.
    pub id: Option<u64>,
    /// The `method` member, where it is a string.
    pub method: Option<String>,
}

/// The `id` and `method` members of an inbound frame.
pub fn frame_fields(v: &Value) -> (r: FrameFields)
    ensures
        r.id == (match json_member(*v, "id"@) {
            Some(x) => json_u64_of(x),
            None => None,
        }),
        match r.method {
            Some(m) => match json_member(*v, "method"@) {
                Some(x) => json_str_of(x) == Some(m@),
                None => false,
            },
            None => match json_member(*v, "method"@) {
                Some(x) => json_str_of(x) is None,
                None => true,
            },
        },
{
    let id = match json_get(v, "id") {
        Some(x) => json_as_u64(x),
        None => None,
    };
    let method = match json_get(v, "method") {
        Some(x) => match json_as_str(x) {
            Some(s) => Some(owned(s)),
            None => None,
        },
        None => None,
    };
    FrameFields { id, method }
}

/// The `params` member of an inbound frame: the payload that a
/// diagnostics notification forwards.
pub fn frame_params(v: &Value) -> (r: Option<&Value>)
    ensures
        match r {
            Some(x) => json_member(*v, "params"@) == Some(*x),
            None => json_member(*v, "params"@) is None,
        },
{
    json_get(v, "params")
}

} // verus!
