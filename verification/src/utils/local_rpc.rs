//! The request/response naming of the node's wRPC JSON protocol.

use vstd::prelude::*;
use vstd::string::*;
use crate::text::{chars_of, matches_at, push_char};

verus! {

/// `serde_json::Value`, a parsed JSON value; opaque here, it is carried
/// from the node's reply to the caller.
#[verifier::external_type_specification]
#[verifier::external_body]
pub struct ExJsonValue(serde_json::Value);

/// Whether `reply` parses as JSON and has a field `key` (at the top level).
pub uninterp spec fn reply_has_key(reply: Seq<char>, key: Seq<char>) -> bool;

/// Whether the field `key` of the parsed `reply` has a field `error`.
pub uninterp spec fn reply_has_error(reply: Seq<char>, key: Seq<char>) -> bool;

/// The JSON value of the field `key` of the parsed `reply` (meaningful when
/// `reply_has_key` holds).
pub uninterp spec fn reply_value(reply: Seq<char>, key: Seq<char>) -> serde_json::Value;

/// `serde_json::from_str::<Value>` on the reply, then `Value::get(key)` and
/// `Value::get("error")` on the field: the field (cloned) and whether it
/// reports an error; `None` when the reply does not parse or lacks the
/// field. The field's value is named by `reply_value`, not described.
#[verifier::external_body]
fn reply_field(reply: &str, key: &str) -> (r: Option<(serde_json::Value, bool)>)
    ensures
        r is Some <==> reply_has_key(reply@, key@),
        r matches Some(p) ==> p.1 == reply_has_error(reply@, key@),
        r matches Some(p) ==> p.0 == reply_value(reply@, key@),
{
    match serde_json::from_str::<serde_json::Value>(reply) {
        Ok(json) => json.get(key).map(|field| (field.clone(), field.get("error").is_some())),
        Err(_) => None,
    }
}

/// Talks to the local Kaspa node over its wRPC JSON websocket; the socket
/// itself is driven by the application, this type holds the protocol rules.
pub struct LocalNodeRpc;

/// `s` with every occurrence of the non-empty `pat` taken out, scanning
/// left to right without overlaps (what `str::replace(pat, "")` returns).
pub open spec fn remove_all(s: Seq<char>, pat: Seq<char>) -> Seq<char>
    decreases s.len(),
{
    if pat.len() == 0 || s.len() < pat.len() {
        s
    } else if s.subrange(0, pat.len() as int) == pat {
        remove_all(s.subrange(pat.len() as int, s.len() as int), pat)
    } else {
        seq![s[0]] + remove_all(s.drop_first(), pat)
    }
}

/// The key under which the node answers `request_type`: the request name
/// with `Request` taken out, followed by `Response`.
pub open spec fn response_key_of(request_type: Seq<char>) -> Seq<char> {
    remove_all(request_type, "Request"@) + "Response"@
}

/// What a query hands back: nothing when the node's reply lacks the
/// response key or reports an error under it, else the response.
pub open spec fn accepted<T>(response: Option<T>, has_error: bool) -> Option<T> {
    match response {
        Some(x) => if has_error {
            None
        } else {
            Some(x)
        },
        None => None,
    }
}

fn starts_at(v: &Vec<char>, pat: &Vec<char>, at: usize) -> (b: bool)
    requires
        at <= v@.len(),
    ensures
        b == (at + pat@.len() <= v@.len() && v@.subrange(at as int, at + pat@.len()) == pat@),
{
    if pat.len() > v.len() - at {
        return false;
    }
    matches_at(v, pat, at)
}

/// Takes every occurrence of the non-empty `pat` out of `s`.
pub fn remove_all_occurrences(s: &str, pat: &str) -> (r: String)
    ensures
        r@ == remove_all(s@, pat@),
{
    let v = chars_of(s);
    let p = chars_of(pat);
    let n = v.len();
    let mut r = String::new();
    if p.len() == 0 {
        r.append(s);
        return r;
    }
    let mut i: usize = 0;
    assert(v@.subrange(0, n as int) =~= v@);
    while i < n
        invariant
            n == v@.len(),
            p@ == pat@,
            p@.len() > 0,
            i <= n,
            r@ + remove_all(v@.subrange(i as int, n as int), p@) == remove_all(s@, pat@),
            v@ == s@,
        decreases n - i,
    {
        let ghost rest = v@.subrange(i as int, n as int);
        if starts_at(&v, &p, i) {
            assert(rest.subrange(0, p@.len() as int) =~= v@.subrange(i as int, i + p@.len()));
            assert(rest.subrange(p@.len() as int, rest.len() as int) =~= v@.subrange(
                i + p@.len(),
                n as int,
            ));
            i = i + p.len();
        } else {
            proof {
                if rest.len() >= p@.len() {
                    assert(rest.subrange(0, p@.len() as int) =~= v@.subrange(
                        i as int,
                        i + p@.len(),
                    ));
                }
            }
            assert(rest.drop_first() =~= v@.subrange(i + 1, n as int));
            assert(r@.push(v@[i as int]) + remove_all(rest.drop_first(), p@) =~= r@ + (seq![
                rest[0],
            ] + remove_all(rest.drop_first(), p@)));
            push_char(&mut r, v[i]);
            i = i + 1;
        }
    }
    assert(v@.subrange(n as int, n as int) =~= Seq::<char>::empty());
    r
}

impl LocalNodeRpc {
    /// The key of the node's answer to `request_type`: for
    /// `getCoinSupplyRequest` it is `getCoinSupplyResponse`.
    pub fn response_key(request_type: &str) -> (r: String)
        ensures
            r@ == response_key_of(request_type@),
    {
        let mut r = remove_all_occurrences(request_type, "Request");
        r.append("Response");
        r
    }

    /// What a query returns for the node's raw `reply` to `request_type`:
    /// the value under the response key, when the reply parses, has that key
    /// and reports no error under it.
    pub fn answer_of(reply: &str, request_type: &str) -> (r: Option<serde_json::Value>)
        ensures
            r is Some <==> reply_has_key(reply@, response_key_of(request_type@)) && !reply_has_error(
                reply@,
                response_key_of(request_type@),
            ),
            r matches Some(v) ==> v == reply_value(reply@, response_key_of(request_type@)),
    {
        let key = Self::response_key(request_type);
        match reply_field(reply, key.as_str()) {
            Some((value, has_error)) => Self::accept_response(Some(value), has_error),
            None => None,
        }
    }

    /// Decides what a query returns once the reply has been parsed: the
    /// value under the response key, unless it is missing or carries an
    /// `error` field.
    pub fn accept_response<T>(response: Option<T>, has_error: bool) -> (r: Option<T>)
        ensures
            r == accepted(response, has_error),
    {
        match response {
            Some(x) => if has_error {
                None
            } else {
                Some(x)
            },
            None => None,
        }
    }
}

} // verus!
