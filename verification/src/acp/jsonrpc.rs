//! Newline-delimited JSON-RPC 2.0 framing for ACP stdio.
//!
//! Only JSON-RPC messages are written to stdout; logs go to stderr.

use vstd::prelude::*;

use crate::json::{entry, entries_view, json_parse, json_text, object, parse_json, print_json, same_text, Json, JsonV, int_text};
use crate::text::{chars_of, push_char, string_from, trim, trim_bounds};
use crate::freebuff::screen::slice_chars;
use crate::acp::types::owned;

verus! {

/// A parsed inbound JSON-RPC message.
#[derive(Debug, Clone)]
pub enum Incoming {
    Request { id: Json, method: String, params: Json },
    Notification { method: String, params: Json },
}

/// The mathematical value of an [`Incoming`] message.
pub enum IncomingV {
    Request { id: JsonV, method: Seq<char>, params: JsonV },
    Notification { method: Seq<char>, params: JsonV },
}

impl View for Incoming {
    type V = IncomingV;

    open spec fn view(&self) -> IncomingV {
        match self {
            Incoming::Request { id, method, params } => IncomingV::Request {
                id: id@,
                method: method@,
                params: params@,
            },
            Incoming::Notification { method, params } => IncomingV::Notification {
                method: method@,
                params: params@,
            },
        }
    }
}

/// An outbound JSON-RPC message.
#[derive(Debug, Clone)]
pub enum Outgoing {
    Response { id: Json, result: Json },
    Error { id: Json, code: i64, message: String, data: Option<Json> },
    Notification { method: String, params: Json },
}

/// JSON-RPC error returned by [`parse_line`].
#[derive(Debug, Clone)]
pub struct RpcError {
    pub code: i64,
    pub message: String,
    pub data: Option<Json>,
}

/// The code of a parse error.
pub open spec fn parse_error_code() -> i64 {
    -32700i64
}

/// The code of an invalid request.
pub open spec fn invalid_request_code() -> i64 {
    -32600i64
}

impl RpcError {
    /// A parse error (`-32700`) with the given message.
    pub fn parse_error(message: String) -> (e: RpcError)
        ensures
            e.code == -32700,
            e.message@ == message@,
            e.data is None,
    {
        RpcError { code: -32700, message, data: None }
    }

    /// An invalid request (`-32600`) with the given message.
    pub fn invalid_request(message: String) -> (e: RpcError)
        ensures
            e.code == -32600,
            e.message@ == message@,
            e.data is None,
    {
        RpcError { code: -32600, message, data: None }
    }
}

/// How a parsed message reads: `Ok` with the message, or `Err` with the
/// error code and message. It must be an object with `jsonrpc: "2.0"` and a
/// non-empty string `method`; absent `params` read as `null`; it is a
/// request when it has an `id`, a notification otherwise.
pub open spec fn incoming_spec(v: JsonV) -> Result<IncomingV, (i64, Seq<char>)> {
    if !(v is Object) {
        Err((-32600i64, "JSON-RPC message must be an object"@))
    } else if v.get("jsonrpc"@) != Some(JsonV::Str("2.0"@)) {
        Err((-32600i64, "missing or invalid jsonrpc version (expected \"2.0\")"@))
    } else {
        match v.get("method"@) {
            Some(JsonV::Str(m)) => if m.len() == 0 {
                Err((-32600i64, "missing or invalid method (expected non-empty string)"@))
            } else {
                let params = match v.get("params"@) {
                    Some(p) => p,
                    None => JsonV::Null,
                };
                match v.get("id"@) {
                    Some(id) => Ok(IncomingV::Request { id, method: m, params }),
                    None => Ok(IncomingV::Notification { method: m, params }),
                }
            },
            _ => Err((-32600i64, "missing or invalid method (expected non-empty string)"@)),
        }
    }
}

/// How [`parse_line`] reads a line: the trimmed line must be JSON (else
/// `-32700`), then it reads as [`incoming_spec`] says.
pub open spec fn parse_line_spec(line: Seq<char>) -> Result<IncomingV, (i64, Seq<char>)> {
    match json_parse(trim(line)) {
        Err(e) => Err((-32700i64, "Parse error: "@ + e)),
        Ok(v) => incoming_spec(v),
    }
}

/// `a` followed by `b`.
fn concat(a: &str, b: &str) -> (r: String)
    ensures
        r@ == a@ + b@,
{
    let mut s = owned(a);
    let bc = chars_of(b);
    let ghost start = s@;
    let mut i: usize = 0;
    while i < bc.len()
        invariant
            i <= bc@.len(),
            s@ == start + bc@.take(i as int),
        decreases bc@.len() - i,
    {
        push_char(&mut s, bc[i]);
        assert(bc@.take(i + 1) == bc@.take(i as int).push(bc@[i as int]));
        i = i + 1;
    }
    assert(bc@.take(bc@.len() as int) == bc@);
    s
}

/// Read a parsed JSON-RPC message.
pub fn incoming_from_json(value: &Json) -> (r: Result<Incoming, RpcError>)
    ensures
        match r {
            Ok(m) => incoming_spec(value@) == Ok::<IncomingV, (i64, Seq<char>)>(m@),
            Err(e) => e.data is None && incoming_spec(value@) == Err::<IncomingV, (i64, Seq<char>)>((e.code, e.message@)),
        },
{
    match value {
        Json::Object(_) => {},
        _ => return Err(RpcError::invalid_request(owned("JSON-RPC message must be an object"))),
    }
    let version_ok = match value.get("jsonrpc") {
        Some(Json::Str(v)) => same_text(v.as_str(), "2.0"),
        _ => false,
    };
    if !version_ok {
        proof {
            reveal_strlit("2.0");
        }
        return Err(RpcError::invalid_request(owned("missing or invalid jsonrpc version (expected \"2.0\")")));
    }
    let method = match value.get("method") {
        Some(Json::Str(m)) => {
            if m.as_str().is_empty() {
                return Err(RpcError::invalid_request(owned("missing or invalid method (expected non-empty string)")));
            }
            m.clone()
        },
        _ => return Err(RpcError::invalid_request(owned("missing or invalid method (expected non-empty string)"))),
    };
    let params = match value.get("params") {
        Some(p) => p.copy(),
        None => Json::Null,
    };
    match value.get("id") {
        Some(id) => Ok(Incoming::Request { id: id.copy(), method, params }),
        None => Ok(Incoming::Notification { method, params }),
    }
}

/// Parse one newline-delimited JSON-RPC line into an [`Incoming`] message.
///
/// * Invalid JSON → `-32700`
/// * Missing / invalid `jsonrpc: "2.0"` or `method` → `-32600`
pub fn parse_line(line: &str) -> (r: Result<Incoming, RpcError>)
    ensures
        match r {
            Ok(m) => parse_line_spec(line@) == Ok::<IncomingV, (i64, Seq<char>)>(m@),
            Err(e) => e.data is None && parse_line_spec(line@) == Err::<IncomingV, (i64, Seq<char>)>((e.code, e.message@)),
        },
{
    let c = chars_of(line);
    let (s, e) = trim_bounds(&c, 0, c.len());
    assert(c@.subrange(0, c@.len() as int) == c@);
    let t = string_from(&slice_chars(&c, s, e));
    match parse_json(t.as_str()) {
        Ok(v) => incoming_from_json(&v),
        Err(err) => Err(RpcError::parse_error(concat("Parse error: ", err.as_str()))),
    }
}

/// The value of an optional JSON value.
pub open spec fn opt_value_of(o: Option<Json>) -> Option<JsonV> {
    match o {
        Some(j) => Some(j@),
        None => None,
    }
}

/// The JSON-RPC envelope of an outgoing message.
pub open spec fn outgoing_json(msg: &Outgoing) -> JsonV {
    match msg {
        Outgoing::Response { id, result } => JsonV::Object(
            seq![("jsonrpc"@, JsonV::Str("2.0"@)), ("id"@, id@), ("result"@, result@)],
        ),
        Outgoing::Error { id, code, message, data } => JsonV::Object(
            seq![
                ("jsonrpc"@, JsonV::Str("2.0"@)),
                ("id"@, id@),
                ("error"@, JsonV::Object(
                    seq![("code"@, JsonV::Number(int_text(*code as int))), ("message"@, JsonV::Str(message@))]
                        + match data {
                        Some(d) => seq![("data"@, d@)],
                        None => Seq::empty(),
                    },
                )),
            ],
        ),
        Outgoing::Notification { method, params } => JsonV::Object(
            seq![("jsonrpc"@, JsonV::Str("2.0"@)), ("method"@, JsonV::Str(method@)), ("params"@, params@)],
        ),
    }
}

/// The JSON-RPC envelope of `msg`.
pub fn outgoing_to_json(msg: &Outgoing) -> (j: Json)
    ensures
        j@ == outgoing_json(msg),
{
    match msg {
        Outgoing::Response { id, result } => {
            let es = vec![entry("jsonrpc", Json::string("2.0")), entry("id", id.copy()), entry("result", result.copy())];
            let j = object(es);
            assert(entries_view(es@) =~= seq![("jsonrpc"@, JsonV::Str("2.0"@)), ("id"@, id@), ("result"@, result@)]);
            assert(j@ == outgoing_json(msg));
            j
        },
        Outgoing::Error { id, code, message, data } => {
            let mut err = vec![entry("code", Json::signed(*code)), entry("message", Json::Str(message.clone()))];
            let ghost head = entries_view(err@);
            match data {
                Some(d) => err.push(entry("data", d.copy())),
                None => {},
            }
            assert(entries_view(err@) =~= seq![("code"@, JsonV::Number(int_text(*code as int))), ("message"@, JsonV::Str(message@))]
                + match data {
                Some(d) => seq![("data"@, d@)],
                None => Seq::<(Seq<char>, JsonV)>::empty(),
            });
            let ej = object(err);
            let ghost ejv = JsonV::Object(
                seq![("code"@, JsonV::Number(int_text(*code as int))), ("message"@, JsonV::Str(message@))]
                    + match data {
                    Some(d) => seq![("data"@, d@)],
                    None => Seq::<(Seq<char>, JsonV)>::empty(),
                },
            );
            assert(ej@ == ejv);
            assert(outgoing_json(msg)->Object_0[2].1 == ejv);
            assert(outgoing_json(msg)->Object_0[1].1 == id@);
            assert(outgoing_json(msg)->Object_0.len() == 3);
            assert(outgoing_json(msg)->Object_0 =~= seq![("jsonrpc"@, JsonV::Str("2.0"@)), ("id"@, id@), ("error"@, ejv)]);
            let es = vec![entry("jsonrpc", Json::string("2.0")), entry("id", id.copy()), entry("error", ej)];
            let j = object(es);
            assert(entries_view(es@) =~= seq![("jsonrpc"@, JsonV::Str("2.0"@)), ("id"@, id@), ("error"@, ej@)]);
            assert(j@ == outgoing_json(msg));
            j
        },
        Outgoing::Notification { method, params } => {
            let es = vec![
                entry("jsonrpc", Json::string("2.0")),
                entry("method", Json::Str(method.clone())),
                entry("params", params.copy()),
            ];
            let j = object(es);
            assert(entries_view(es@) =~= seq![("jsonrpc"@, JsonV::Str("2.0"@)), ("method"@, JsonV::Str(method@)), ("params"@, params@)]);
            j
        },
    }
}

/// Serialize an [`Outgoing`] message to a single line ending with `\n`:
/// the line holds exactly one line feed, its last character.
pub fn to_line(msg: &Outgoing) -> (line: String)
    ensures
        line@ == json_text(outgoing_json(msg)).push('\n'),
        line@.last() == '\n',
        forall|i: int| 0 <= i < line@.len() - 1 ==> line@[i] != '\n',
{
    let j = outgoing_to_json(msg);
    let mut line = print_json(&j);
    let ghost body = line@;
    push_char(&mut line, '\n');
    assert forall|i: int| 0 <= i < line@.len() - 1 implies line@[i] != '\n' by {
        assert(line@[i] == body[i]);
        if body[i] == '\n' {
            assert(body.contains('\n'));
        }
    }
    line
}

/// The mathematical value of an [`Outgoing`] message.
pub enum OutgoingV {
    Response { id: JsonV, result: JsonV },
    Error { id: JsonV, code: i64, message: Seq<char>, data: Option<JsonV> },
    Notification { method: Seq<char>, params: JsonV },
}

impl View for Outgoing {
    type V = OutgoingV;

    open spec fn view(&self) -> OutgoingV {
        match self {
            Outgoing::Response { id, result } => OutgoingV::Response { id: id@, result: result@ },
            Outgoing::Error { id, code, message, data } => OutgoingV::Error {
                id: id@,
                code: *code,
                message: message@,
                data: opt_value_of(*data),
            },
            Outgoing::Notification { method, params } => OutgoingV::Notification {
                method: method@,
                params: params@,
            },
        }
    }
}

/// `a` followed by `b`.
pub fn concat_text(a: &str, b: &str) -> (r: String)
    ensures
        r@ == a@ + b@,
{
    concat(a, b)
}

} // verus!
