//! Recognizes the error envelope of the upstream service in a response body.
use vstd::prelude::*;

use crate::error::{ApiError, PoolError, LAST_KNOWN_CODE};

verus! {

#[verifier::external_type_specification]
#[verifier::external_body]
pub struct ExJsonValue(serde_json::Value);

/// Relies on `serde_json::Value::pointer`: the value at a JSON pointer, if any.
pub assume_specification<'a>[ serde_json::Value::pointer ](
    v: &'a serde_json::Value,
    pointer: &str,
) -> Option<&'a serde_json::Value>;

/// Relies on `serde_json::Value::as_u64`: the number, if it is a non-negative integer.
pub assume_specification[ serde_json::Value::as_u64 ](v: &serde_json::Value) -> Option<u64>;

/// Relies on `serde_json::Value::as_str`: the text, if the value is a string.
pub assume_specification<'a>[ serde_json::Value::as_str ](v: &'a serde_json::Value) -> Option<
    &'a str,
>;

/// Relies on `serde_json::from_slice`: the JSON document in the bytes, if
/// they hold one.
#[verifier::external_body]
fn parse_json(buf: &[u8]) -> Option<serde_json::Value> {
    serde_json::from_slice(buf).ok()
}

/// The bytes `{"error":{` that open an error envelope.
pub open spec fn error_prefix() -> Seq<u8> {
    seq![123u8, 34u8, 101u8, 114u8, 114u8, 111u8, 114u8, 34u8, 58u8, 123u8]
}

/// The body opens with an error envelope.
pub open spec fn has_error_prefix(b: Seq<u8>) -> bool {
    b.len() >= error_prefix().len() && b.subrange(0, error_prefix().len() as int) == error_prefix()
}

/// The body opens with an error envelope.
pub fn starts_with_error_envelope(buf: &[u8]) -> (r: bool)
    ensures
        r == has_error_prefix(buf@),
{
    let prefix: Vec<u8> = vec![123u8, 34u8, 101u8, 114u8, 114u8, 111u8, 114u8, 34u8, 58u8, 123u8];
    assert(prefix@ =~= error_prefix());
    if buf.len() < prefix.len() {
        return false;
    }
    let mut i: usize = 0;
    while i < prefix.len()
        invariant
            prefix@ == error_prefix(),
            buf@.len() >= prefix@.len(),
            i <= prefix@.len(),
            forall|j: int| 0 <= j < i ==> buf@[j] == prefix@[j],
        decreases prefix.len() - i,
    {
        if buf[i] != prefix[i] {
            assert(buf@.subrange(0, prefix@.len() as int)[i as int] != error_prefix()[i as int]);
            return false;
        }
        i = i + 1;
    }
    assert(buf@.subrange(0, prefix@.len() as int) =~= error_prefix());
    true
}

/// The error for a code and message read from an envelope; a code beyond
/// 16 bits is malformed.
pub fn error_from_fields(code: u64, message: &str) -> (r: Result<ApiError, PoolError>)
    ensures
        code > u16::MAX ==> r matches Err(PoolError::Parsing(_)),
        code <= u16::MAX ==> (r matches Ok(e) && e.spec_code() == code && (e is Other <==> code
            > LAST_KNOWN_CODE) && (e matches ApiError::Other { message: m, .. } ==> m@ == message@)),
{
    if code > u16::MAX as u64 {
        Err(PoolError::Parsing(String::from_str("error code out of range")))
    } else {
        Ok(ApiError::new(code as u16, message))
    }
}

/// The upstream error that a response body reports, if it opens with an
/// error envelope; a body without one is a payload.
pub fn decode_error(buf: &[u8]) -> (r: Result<Option<ApiError>, PoolError>)
    ensures
        !has_error_prefix(buf@) ==> r == Ok::<Option<ApiError>, PoolError>(None),
        has_error_prefix(buf@) ==> !(r matches Ok(None)),
        r matches Err(e) ==> e is Parsing,
{
    if !starts_with_error_envelope(buf) {
        return Ok(None);
    }
    let doc = match parse_json(buf) {
        Some(v) => v,
        None => {
            return Err(PoolError::Parsing(String::from_str("malformed error envelope")));
        },
    };
    let code = match doc.pointer("/error/code") {
        Some(c) => c.as_u64(),
        None => None,
    };
    let message = match doc.pointer("/error/error") {
        Some(m) => m.as_str(),
        None => None,
    };
    match (code, message) {
        (Some(c), Some(m)) => match error_from_fields(c, m) {
            Ok(e) => Ok(Some(e)),
            Err(e) => Err(e),
        },
        _ => Err(PoolError::Parsing(String::from_str("incomplete error envelope"))),
    }
}

} // verus!
