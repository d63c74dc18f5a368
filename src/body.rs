use vstd::prelude::*;

use crate::bytes::copy_range;
use crate::errors::Exception;
use crate::request::Request;
use crate::response::{encode_error, encode_success, error_response, success_response};

verus! {

#[verifier::external_type_specification]
#[verifier::external_body]
pub struct ExJsonValue(serde_json::Value);

#[verifier::external_type_specification]
#[verifier::external_body]
pub struct ExJsonError(serde_json::Error);

/// Whether serde_json reads the bytes `text` as one JSON value.
pub uninterp spec fn json_accepts(text: Seq<u8>) -> bool;

/// Relies on serde_json::from_slice: it reads one JSON value from the bytes, succeeding
/// or failing on the bytes alone, and on empty input it fails (end of input while
/// parsing a value).
#[verifier::external_body]
fn json_from_slice(b: &[u8]) -> (r: Result<serde_json::Value, serde_json::Error>)
    ensures
        r is Ok <==> json_accepts(b@),
        b@.len() == 0 ==> r is Err,
{
    serde_json::from_slice(b)
}

/// Relies on serde_json's `Display` for `Value`: the compact JSON text of the value.
#[verifier::external_body]
fn json_text(v: &serde_json::Value) -> (r: Vec<u8>) {
    v.to_string().into_bytes()
}

/// The number of bytes left of `s` once trailing NUL bytes are dropped.
pub open spec fn unpadded_len(s: Seq<u8>) -> nat
    decreases s.len(),
{
    if s.len() > 0 && s.last() == 0 {
        unpadded_len(s.drop_last())
    } else {
        s.len()
    }
}

proof fn lemma_unpadded_len_bound(s: Seq<u8>)
    ensures
        unpadded_len(s) <= s.len(),
    decreases s.len(),
{
    if s.len() > 0 && s.last() == 0 {
        lemma_unpadded_len_bound(s.drop_last());
    }
}

/// `s` without its trailing NUL padding.
pub fn strip_nul_padding(s: &[u8]) -> (r: Vec<u8>)
    ensures
        r@ == s@.subrange(0, unpadded_len(s@) as int),
{
    let mut n = s.len();
    proof {
        assert(s@.subrange(0, n as int) =~= s@);
    }
    while n > 0 && s[n - 1] == 0
        invariant
            n <= s@.len(),
            unpadded_len(s@) == unpadded_len(s@.subrange(0, n as int)),
        decreases n,
    {
        assert(s@.subrange(0, n as int).drop_last() =~= s@.subrange(0, n - 1));
        n -= 1;
    }
    copy_range(s, 0, n)
}

/// Reads the body as JSON text, after dropping trailing NUL padding.
pub fn parse_body(body: &[u8]) -> (r: Result<serde_json::Value, serde_json::Error>)
    ensures
        r is Ok <==> json_accepts(body@.subrange(0, unpadded_len(body@) as int)),
        unpadded_len(body@) == 0 ==> r is Err,
{
    let text = strip_nul_padding(body);
    proof {
        lemma_unpadded_len_bound(body@);
    }
    json_from_slice(text.as_slice())
}

impl Request {
    /// The body read as JSON; `None` when there is no body or it is not JSON.
    pub fn json(&self) -> (r: Option<serde_json::Value>)
        ensures
            r is Some <==> (self@.body matches Some(b) && json_accepts(
                b.subrange(0, unpadded_len(b) as int),
            )),
            self@.body matches Some(b) && unpadded_len(b) == 0 ==> r is None,
    {
        match self.body() {
            Some(raw) => match parse_body(raw.as_slice()) {
                Ok(v) => Some(v),
                Err(_) => None,
            },
            None => None,
        }
    }
}

/// Encodes a handler's outcome: a value as a 200 response carrying its JSON text, an
/// exception as its status line with no body.
pub fn encode_result(res: Result<serde_json::Value, Exception>) -> (r: Vec<u8>)
    ensures
        res matches Ok(_) ==> exists|body: Seq<u8>| r@ == success_response(body),
        res matches Err(e) ==> r@ == error_response(e.status_code as nat, e.status_text@),
{
    match res {
        Ok(v) => {
            let body = json_text(&v);
            encode_success(body.as_slice())
        },
        Err(e) => encode_error(&e),
    }
}

} // verus!
