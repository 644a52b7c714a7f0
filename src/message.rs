//! JSON-RPC 2.0 envelopes. Outgoing bodies are assembled here around
//! parameters that the caller has already serialised; incoming bodies are
//! parsed with serde_json, and only their `id` is looked at.

use vstd::prelude::*;
use vstd::string::StringSliceAdditionalSpecFns;
use vstd::utf8::*;

use crate::frame::FrameError;
use crate::text::{decimal, push_decimal};

verus! {

/// `serde_json::Value`, carried through unopened: a parsed message.
#[verifier::external_type_specification]
#[verifier::external_body]
pub struct ExJsonValue(serde_json::Value);

/// `serde_json::Error`, the parse error of `serde_json::from_slice`.
#[verifier::external_type_specification]
#[verifier::external_body]
pub struct ExJsonError(serde_json::Error);

/// A lowercase hexadecimal digit.
pub open spec fn lower_hex_digit(n: u32) -> char {
    if n < 10 {
        ((48 + n) as u8) as char
    } else {
        ((87 + n) as u8) as char
    }
}

/// How serde_json writes one character inside a string literal: `"` and
/// `\` behind a backslash, the usual short escapes for backspace, tab, line
/// feed, form feed and carriage return, other control characters below
/// 0x20 as `\u00xx` with lowercase hexadecimal, and everything else as it
/// is.
pub open spec fn json_escape(c: char) -> Seq<char> {
    if c == '"' {
        seq!['\\', '"']
    } else if c == '\\' {
        seq!['\\', '\\']
    } else if c == '\u{8}' {
        seq!['\\', 'b']
    } else if c == '\t' {
        seq!['\\', 't']
    } else if c == '\n' {
        seq!['\\', 'n']
    } else if c == '\u{c}' {
        seq!['\\', 'f']
    } else if c == '\r' {
        seq!['\\', 'r']
    } else if (c as u32) < 0x20 {
        seq!['\\', 'u', '0', '0', lower_hex_digit((c as u32) / 16), lower_hex_digit((c as u32) % 16)]
    } else {
        seq![c]
    }
}

/// The characters of a text, each escaped as in a JSON string literal.
pub open spec fn json_escaped(s: Seq<char>) -> Seq<char>
    decreases s.len(),
{
    if s.len() == 0 {
        seq![]
    } else {
        json_escape(s[0]) + json_escaped(s.drop_first())
    }
}

/// A text as a JSON string literal: quoted, with its characters escaped.
pub open spec fn json_quoted(s: Seq<char>) -> Seq<char> {
    seq!['"'] + json_escaped(s) + seq!['"']
}

/// Relies on `serde_json::to_string` applied to a `str`: it writes the
/// quoted, escaped text (`format_escaped_str`). Serialising a `str` does not
/// fail.
#[verifier::external_body]
fn json_string(s: &str) -> (r: String)
    ensures
        r@ == json_quoted(s@),
{
    serde_json::to_string(s).unwrap_or_default()
}

/// Whether serde_json reads the bytes as one JSON value.
pub uninterp spec fn json_accepts(body: Seq<u8>) -> bool;

/// The `id` member of the JSON value in the bytes, as serde_json reads it
/// as an `i64`: `None` where there is no such member or it is not an
/// integer in range.
pub uninterp spec fn json_id(body: Seq<u8>) -> Option<i64>;

/// Whether the JSON value in the bytes, as serde_json reads it, is an
/// object with an `error` member.
pub uninterp spec fn json_has_error(body: Seq<u8>) -> bool;

/// Relies on `serde_json::from_slice::<serde_json::Value>`, whose success
/// depends on the bytes alone; reads the message's identifier with
/// `Value::get("id")` and `Value::as_i64`, and whether it has an `error`
/// member with `Value::get("error")`.
#[verifier::external_body]
fn parse_json(body: &[u8]) -> (r: Result<(serde_json::Value, Option<i64>, bool), serde_json::Error>)
    ensures
        r is Ok <==> json_accepts(body@),
        r matches Ok((_, id, is_error)) ==> id == json_id(body@) && is_error == json_has_error(
            body@,
        ),
{
    let message: serde_json::Value = serde_json::from_slice(body)?;
    let id = message.get("id").and_then(serde_json::Value::as_i64);
    let is_error = message.get("error").is_some();
    Ok((message, id, is_error))
}

/// An integer in decimal, with `-` in front when negative.
pub open spec fn signed_decimal(n: int) -> Seq<u8> {
    if n < 0 {
        seq![0x2du8] + decimal((-n) as nat)
    } else {
        decimal(n as nat)
    }
}

/// The body of a request: `{"jsonrpc":"2.0","id":<id>,"method":<method>,"params":<params>}`.
pub open spec fn request_body(id: i64, method: Seq<char>, params: Seq<u8>) -> Seq<u8> {
    "{\"jsonrpc\":\"2.0\",\"id\":".spec_bytes() + signed_decimal(id as int)
        + ",\"method\":".spec_bytes() + encode_utf8(json_quoted(method))
        + ",\"params\":".spec_bytes() + params + "}".spec_bytes()
}

/// The body of a notification: `{"jsonrpc":"2.0","method":<method>,"params":<params>}`.
pub open spec fn notification_body(method: Seq<char>, params: Seq<u8>) -> Seq<u8> {
    "{\"jsonrpc\":\"2.0\",\"method\":".spec_bytes() + encode_utf8(json_quoted(method))
        + ",\"params\":".spec_bytes() + params + "}".spec_bytes()
}

/// Appends the UTF-8 bytes of `s`.
fn push_str(out: &mut Vec<u8>, s: &str)
    ensures
        final(out)@ == old(out)@ + s.spec_bytes(),
{
    push_bytes(out, s.as_bytes());
}

/// Appends `b`.
fn push_bytes(out: &mut Vec<u8>, b: &[u8])
    ensures
        final(out)@ == old(out)@ + b@,
{
    let ghost start = out@;
    let mut i: usize = 0;
    while i < b.len()
        invariant
            i <= b@.len(),
            out@ == start + b@.subrange(0, i as int),
        decreases b@.len() - i,
    {
        out.push(b[i]);
        i += 1;
        assert(out@ =~= start + b@.subrange(0, i as int));
    }
    assert(b@.subrange(0, b@.len() as int) =~= b@);
}

/// The body of a request with an identifier, a method and its serialised
/// parameters.
pub fn encode_request(id: i64, method: &str, params: &[u8]) -> (r: Vec<u8>)
    ensures
        r@ == request_body(id, method@, params@),
{
    let quoted = json_string(method);
    let mut out: Vec<u8> = Vec::new();
    push_str(&mut out, "{\"jsonrpc\":\"2.0\",\"id\":");
    if id < 0 {
        out.push(0x2d);
        let magnitude = (-(id + 1)) as u64 + 1;
        push_decimal(&mut out, magnitude);
        assert(out@ =~= "{\"jsonrpc\":\"2.0\",\"id\":".spec_bytes() + signed_decimal(id as int));
    } else {
        push_decimal(&mut out, id as u64);
    }
    push_str(&mut out, ",\"method\":");
    push_str(&mut out, quoted.as_str());
    push_str(&mut out, ",\"params\":");
    push_bytes(&mut out, params);
    push_str(&mut out, "}");
    out
}

/// The body of a notification with a method and its serialised parameters.
pub fn encode_notification(method: &str, params: &[u8]) -> (r: Vec<u8>)
    ensures
        r@ == notification_body(method@, params@),
{
    let quoted = json_string(method);
    let mut out: Vec<u8> = Vec::new();
    push_str(&mut out, "{\"jsonrpc\":\"2.0\",\"method\":");
    push_str(&mut out, quoted.as_str());
    push_str(&mut out, ",\"params\":");
    push_bytes(&mut out, params);
    push_str(&mut out, "}");
    out
}

/// A message read from the server: a response when it carries an integer
/// `id`, a notification otherwise.
pub struct Incoming {
    pub id: Option<i64>,
    /// Whether the message has an `error` member: a response that reports
    /// a failure.
    pub is_error: bool,
    pub message: serde_json::Value,
}

/// Parses a message body, with its integer `id` if it has one; fails
/// exactly where the body is not JSON.
pub fn decode_incoming(body: &[u8]) -> (r: Result<Incoming, FrameError>)
    ensures
        r is Ok <==> json_accepts(body@),
        r is Err ==> r == Err::<Incoming, FrameError>(FrameError::InvalidJson),
        r matches Ok(m) ==> m.id == json_id(body@) && m.is_error == json_has_error(body@),
{
    match parse_json(body) {
        Ok((message, id, is_error)) => Ok(Incoming { id, is_error, message }),
        Err(_) => Err(FrameError::InvalidJson),
    }
}

/// A response that reports a failure; `message` is the whole response.
pub struct ServerError {
    pub message: serde_json::Value,
}

/// The answer to a request: the response itself, or the server's error
/// when the response has an `error` member.
pub fn into_reply(response: Incoming) -> (r: Result<serde_json::Value, ServerError>)
    ensures
        r is Err <==> response.is_error,
        r matches Ok(v) ==> v == response.message,
        r matches Err(e) ==> e.message == response.message,
{
    if response.is_error {
        Err(ServerError { message: response.message })
    } else {
        Ok(response.message)
    }
}

} // verus!
