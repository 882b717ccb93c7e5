use vstd::prelude::*;

use serde_json::Value;

verus! {

#[verifier::external_type_specification]
#[verifier::external_body]
pub struct ExValue(serde_json::Value);

/// Whether `body` is the text of one JSON value.
pub uninterp spec fn is_json(body: Seq<u8>) -> bool;

/// Relies on `serde_json::from_slice::<Value>`: it yields a value exactly when
/// the bytes hold one JSON document, which depends on the bytes alone.
#[verifier::external_body]
fn parse_json(body: &Vec<u8>) -> (r: Option<Value>)
    ensures
        r.is_some() == is_json(body@),
{
    serde_json::from_slice::<Value>(body).ok()
}

/// Relies on `serde_json::Map::insert` and `Value::from` for a string: builds
/// the object that maps `key` to the string `value`.
#[verifier::external_body]
fn json_object(key: &str, value: &str) -> (r: Value) {
    let mut m = serde_json::Map::new();
    m.insert(key.to_string(), Value::from(value));
    Value::Object(m)
}

/// What came back from the single attempt to reach the tool service.
pub enum UpstreamReply {
    /// A response arrived with this status code and body.
    Responded { status: u16, body: Vec<u8> },
    /// No response: the connection failed or the call timed out.
    Unreachable,
}

/// The forwarder's normalised view of an upstream call.
pub enum ForwardOutcome {
    /// A success status. `result` is the body parsed as JSON, or the
    /// placeholder `{"status": "ok"}` when the body did not parse; `parsed`
    /// tells the two apart.
    Success { result: Value, parsed: bool },
    /// A response with a status outside 200..=299.
    UpstreamError(u16),
    /// No response.
    UpstreamUnreachable,
}

pub open spec fn is_success_status(status: u16) -> bool {
    200 <= status <= 299
}

/// Classifies an upstream reply. A success status is trusted over the body's
/// shape: a body that is not JSON gives a placeholder result, not an error.
pub fn classify(reply: UpstreamReply) -> (r: ForwardOutcome)
    ensures
        match reply {
            UpstreamReply::Unreachable => r is UpstreamUnreachable,
            UpstreamReply::Responded { status, body } => if is_success_status(status) {
                r is Success && r->parsed == is_json(body@)
            } else {
                r == ForwardOutcome::UpstreamError(status)
            },
        },
{
    match reply {
        UpstreamReply::Unreachable => ForwardOutcome::UpstreamUnreachable,
        UpstreamReply::Responded { status, body } => {
            if 200 <= status && status <= 299 {
                match parse_json(&body) {
                    Some(result) => ForwardOutcome::Success { result, parsed: true },
                    None => ForwardOutcome::Success {
                        result: json_object("status", "ok"),
                        parsed: false,
                    },
                }
            } else {
                ForwardOutcome::UpstreamError(status)
            }
        },
    }
}

} // verus!
