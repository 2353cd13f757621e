//! The decisions of the ACP server: what each input line calls for, given
//! the session and whether a prompt is in flight. The application runs the
//! loop: it reads lines, performs the actions (writing messages, starting
//! the session or a prompt on the backend, cancelling), and hands the
//! backend's results back to be turned into messages.

use vstd::prelude::*;

use crate::acp::jsonrpc::{concat_text, parse_line, parse_line_spec, Incoming, IncomingV, Outgoing, OutgoingV};
use crate::acp::types::{
    blocks_decode, block_texts, blocks_view, decode_cancel, decode_initialize, decode_new_session, initialize_error,
    new_session_error, owned, prompt_error, prompt_fields, some_block_invalid, str_of, CancelNotification, ContentBlock, ContentBlockV,
    InitializeRequest, InitializeResponse, NewSessionRequest, NewSessionResponse, PromptRequest,
    PromptResponse, SessionUpdate, SessionUpdateParams, StopReason, stop_reason_name,
};
use crate::json::{same_text, Json, JsonV};
use crate::text::{chars_of, join_lines, trim, trim_bounds};

verus! {

/// What the server remembers between lines.
#[derive(Debug)]
pub struct ServerState {
    /// The session's id, once `session/new` succeeded.
    pub session_id: Option<String>,
    /// A prompt was started and its task has not been reaped yet.
    pub prompt_in_flight: bool,
}

/// The mathematical value of a [`ServerState`].
pub struct ServerStateV {
    pub session_id: Option<Seq<char>>,
    pub prompt_in_flight: bool,
}

impl View for ServerState {
    type V = ServerStateV;

    open spec fn view(&self) -> ServerStateV {
        ServerStateV {
            session_id: match self.session_id {
                Some(s) => Some(s@),
                None => None,
            },
            prompt_in_flight: self.prompt_in_flight,
        }
    }
}

impl ServerState {
    /// No session and nothing in flight.
    pub fn new() -> (s: ServerState)
        ensures
            s@.session_id is None,
            !s@.prompt_in_flight,
    {
        ServerState { session_id: None, prompt_in_flight: false }
    }

    /// The prompt task finished and was reaped.
    pub fn prompt_finished(&mut self)
        ensures
            final(self)@ == (ServerStateV { prompt_in_flight: false, ..old(self)@ }),
    {
        self.prompt_in_flight = false;
    }
}

/// What the application is to do for a line.
#[derive(Debug)]
pub enum Action {
    /// Nothing.
    Ignore,
    /// Write this message.
    Send(Outgoing),
    /// Start the session in `cwd`; answer request `id` with
    /// [`new_session_done`].
    NewSession { id: Json, cwd: String },
    /// Run a prompt turn of `text` on `session_id`, streaming each update
    /// through [`update_notification`] and answering request `id` with
    /// [`prompt_done`].
    StartPrompt { id: Json, session_id: String, text: String },
    /// Signal cancellation to the prompt in flight.
    Cancel,
}

/// The mathematical value of an [`Action`].
pub enum ActionV {
    Ignore,
    Send(OutgoingV),
    NewSession { id: JsonV, cwd: Seq<char> },
    StartPrompt { id: JsonV, session_id: Seq<char>, text: Seq<char> },
    Cancel,
}

impl View for Action {
    type V = ActionV;

    open spec fn view(&self) -> ActionV {
        match self {
            Action::Ignore => ActionV::Ignore,
            Action::Send(o) => ActionV::Send(o@),
            Action::NewSession { id, cwd } => ActionV::NewSession { id: id@, cwd: cwd@ },
            Action::StartPrompt { id, session_id, text } => ActionV::StartPrompt {
                id: id@,
                session_id: session_id@,
                text: text@,
            },
            Action::Cancel => ActionV::Cancel,
        }
    }
}

/// The `-32602` answer to request `id` for params that do not decode:
/// `Invalid params: ` and what is wrong with them.
pub open spec fn invalid_params_answer(id: JsonV, what: Option<Seq<char>>) -> ActionV {
    let detail = match what {
        Some(w) => w,
        None => Seq::empty(),
    };
    error_answer(id, -32602i64, "Invalid params: "@ + detail)
}

/// An error answer to request `id` with exactly this message.
pub open spec fn error_answer(id: JsonV, code: i64, message: Seq<char>) -> ActionV {
    ActionV::Send(OutgoingV::Error { id, code, message, data: None })
}

/// A result answer to request `id`.
pub open spec fn result_answer(id: JsonV, result: JsonV) -> ActionV {
    ActionV::Send(OutgoingV::Response { id, result })
}

/// The `initialize` result that this agent gives.
pub open spec fn initialize_result() -> JsonV {
    JsonV::Object(
        seq![
            ("protocolVersion"@, JsonV::Number(seq!['1'])),
            ("agentCapabilities"@, JsonV::Object(
                seq![
                    ("loadSession"@, JsonV::Bool(false)),
                    ("promptCapabilities"@, JsonV::Object(
                        seq![
                            ("image"@, JsonV::Bool(false)),
                            ("audio"@, JsonV::Bool(false)),
                            ("embeddedContext"@, JsonV::Bool(false)),
                        ],
                    )),
                ],
            )),
            ("agentInfo"@, JsonV::Object(
                seq![("name"@, JsonV::Str("blink"@)), ("version"@, JsonV::Str(crate::acp::types::AGENT_VERSION@))],
            )),
        ],
    )
}

/// The `session/new` result for a session id.
pub open spec fn session_result(sid: Seq<char>) -> JsonV {
    JsonV::Object(seq![("sessionId"@, JsonV::Str(sid))])
}

/// The `cwd` of `session/new` params that decode.
pub open spec fn session_cwd(params: JsonV) -> Seq<char> {
    match decode_new_session(params) {
        Some((cwd, _servers)) => cwd,
        None => Seq::empty(),
    }
}

/// The `sessionId` of `session/prompt` params that decode.
pub open spec fn prompt_sid(params: JsonV) -> Seq<char> {
    match prompt_fields(params) {
        Some((sid, _items)) => sid,
        None => Seq::empty(),
    }
}

/// The prompt's text blocks, when the prompt params decode.
pub open spec fn prompt_blocks_ok(params: JsonV, sid: Seq<char>, bs: Seq<ContentBlockV>) -> bool {
    prompt_fields(params) matches Some((s, items)) && s == sid && blocks_decode(items, bs)
}

/// The prompt params do not decode.
pub open spec fn prompt_invalid(params: JsonV) -> bool {
    prompt_fields(params) is None || (prompt_fields(params) matches Some((_s, items)) && some_block_invalid(items))
}

/// What a request calls for, and the state after it. `initialize` is
/// answered with this agent's capabilities; `session/new` returns the
/// existing session's id, or starts one; `session/prompt` starts a turn
/// when it names the session and no other turn is in flight; any other
/// method is not found. Params that do not decode are answered `-32602`.
pub open spec fn request_spec(
    st: ServerStateV,
    id: JsonV,
    method: Seq<char>,
    params: JsonV,
    st2: ServerStateV,
    a: ActionV,
) -> bool {
    if method == "initialize"@ {
        st2 == st && if decode_initialize(params) is None {
            a == invalid_params_answer(id, initialize_error(params))
        } else {
            a == result_answer(id, initialize_result())
        }
    } else if method == "session/new"@ {
        st2 == st && if decode_new_session(params) is None {
            a == invalid_params_answer(id, new_session_error(params))
        } else {
            match st.session_id {
                Some(existing) => a == result_answer(id, session_result(existing)),
                None => a == (ActionV::NewSession { id, cwd: session_cwd(params) }),
            }
        }
    } else if method == "session/prompt"@ {
        if prompt_invalid(params) {
            st2 == st && a == invalid_params_answer(id, prompt_error(params))
        } else {
            let sid = prompt_sid(params);
            match st.session_id {
                None => st2 == st && a == error_answer(id, -32602i64, "no session; call session/new first"@),
                Some(current) => if sid != current {
                    st2 == st && a == error_answer(id, -32602i64, "unknown session id: "@ + sid)
                } else if st.prompt_in_flight {
                    st2 == st && a == error_answer(id, -32000i64, "prompt already in flight"@)
                } else {
                    st2 == (ServerStateV { prompt_in_flight: true, ..st }) && exists|bs: Seq<ContentBlockV>|
                        prompt_blocks_ok(params, sid, bs) && a == (ActionV::StartPrompt {
                            id,
                            session_id: sid,
                            text: join_lines(block_texts(bs)),
                        })
                },
            }
        }
    } else {
        st2 == st && a == error_answer(id, -32601i64, "Method not found: "@ + method)
    }
}

/// What a notification calls for: `session/cancel` for the current session
/// while a prompt is in flight cancels it; everything else is ignored.
pub open spec fn notification_spec(st: ServerStateV, method: Seq<char>, params: JsonV) -> ActionV {
    if method == "session/cancel"@ && st.prompt_in_flight && (match (decode_cancel(params), st.session_id) {
        (Some(s), Some(cur)) => s == cur,
        _ => false,
    }) {
        ActionV::Cancel
    } else {
        ActionV::Ignore
    }
}

/// What a line calls for, and the state after it. Blank lines are ignored;
/// a line that is not a valid JSON-RPC message is answered with its error
/// and a `null` id.
pub open spec fn line_spec(st: ServerStateV, line: Seq<char>, st2: ServerStateV, a: ActionV) -> bool {
    if trim(line).len() == 0 {
        st2 == st && a == ActionV::Ignore
    } else {
        match parse_line_spec(line) {
            Err((code, message)) => st2 == st && a == error_answer(JsonV::Null, code, message),
            Ok(IncomingV::Request { id, method, params }) => request_spec(st, id, method, params, st2, a),
            Ok(IncomingV::Notification { method, params }) => st2 == st && a == notification_spec(st, method, params),
        }
    }
}

/// An error answer.
fn error_action(id: Json, code: i64, message: String) -> (a: Action)
    ensures
        a@ == error_answer(id@, code, message@),
{
    Action::Send(Outgoing::Error { id, code, message, data: None })
}

/// An invalid-params answer: `Invalid params: ` and what is wrong.
fn invalid_params(id: Json, what: &String) -> (a: Action)
    ensures
        a@ == invalid_params_answer(id@, Some(what@)),
{
    let m = concat_text("Invalid params: ", what.as_str());
    error_action(id, -32602i64, m)
}

/// Decide what a request calls for.
pub fn dispatch_request(state: &mut ServerState, id: Json, method: &str, params: &Json) -> (a: Action)
    ensures
        request_spec(old(state)@, id@, method@, params@, final(state)@, a@),
{
    if same_text(method, "initialize") {
        match InitializeRequest::from_json(params) {
            Err(e) => invalid_params(id, &e),
            Ok(_) => {
                let resp = InitializeResponse::v1();
                let r = resp.to_json();
                proof {
                    assert(crate::json::digits_of(1) =~= seq!['1']);
                    assert(resp.agent_info.json() =~~= JsonV::Object(
                        seq![("name"@, JsonV::Str("blink"@)), ("version"@, JsonV::Str(crate::acp::types::AGENT_VERSION@))],
                    ));
                    assert(r@ =~~= initialize_result());
                }
                Action::Send(Outgoing::Response { id, result: r })
            },
        }
    } else if same_text(method, "session/new") {
        match NewSessionRequest::from_json(params) {
            Err(e) => invalid_params(id, &e),
            Ok(req) => match &state.session_id {
                Some(existing) => {
                    let r = NewSessionResponse { session_id: existing.clone() }.to_json();
                    Action::Send(Outgoing::Response { id, result: r })
                },
                None => Action::NewSession { id, cwd: req.cwd },
            },
        }
    } else if same_text(method, "session/prompt") {
        let req = match PromptRequest::from_json(params) {
            Err(e) => return invalid_params(id, &e),
            Ok(r) => r,
        };
        proof {
            assert(!prompt_invalid(params@)) by {
                if let Some((_s, items)) = prompt_fields(params@) {
                    if some_block_invalid(items) {
                        let i = choose|i: int| 0 <= i < items.len() && crate::acp::types::decode_content_block(#[trigger] items[i]) is None;
                        assert(crate::acp::types::decode_content_block(items[i]) == Some(blocks_view(req.prompt@)[i]));
                    }
                }
            }
        }
        let current = match &state.session_id {
            None => return error_action(id, -32602i64, owned("no session; call session/new first")),
            Some(c) => c,
        };
        if !same_text(req.session_id.as_str(), current.as_str()) {
            return error_action(id, -32602i64, concat_text("unknown session id: ", req.session_id.as_str()));
        }
        if state.prompt_in_flight {
            return error_action(id, -32000i64, owned("prompt already in flight"));
        }
        let text = ContentBlock::concat_text(&req.prompt);
        state.prompt_in_flight = true;
        proof {
            assert(prompt_blocks_ok(params@, req.session_id@, blocks_view(req.prompt@)));
        }
        Action::StartPrompt { id, session_id: req.session_id, text }
    } else {
        error_action(id, -32601i64, concat_text("Method not found: ", method))
    }
}

/// Decide what a notification calls for.
pub fn dispatch_notification(state: &ServerState, method: &str, params: &Json) -> (a: Action)
    ensures
        a@ == notification_spec(state@, method@, params@),
{
    if !same_text(method, "session/cancel") {
        return Action::Ignore;
    }
    let req = match CancelNotification::from_json(params) {
        Some(r) => r,
        None => return Action::Ignore,
    };
    match &state.session_id {
        Some(current) => if same_text(current.as_str(), req.session_id.as_str()) && state.prompt_in_flight {
            Action::Cancel
        } else {
            Action::Ignore
        },
        None => Action::Ignore,
    }
}

/// Decide what an input line calls for.
pub fn handle_line(state: &mut ServerState, line: &str) -> (a: Action)
    ensures
        line_spec(old(state)@, line@, final(state)@, a@),
{
    let c = chars_of(line);
    let (s, e) = trim_bounds(&c, 0, c.len());
    assert(c@.subrange(0, c@.len() as int) == c@);
    if s == e {
        return Action::Ignore;
    }
    match parse_line(line) {
        Err(err) => error_action(Json::Null, err.code, err.message),
        Ok(Incoming::Request { id, method, params }) => dispatch_request(state, id, method.as_str(), &params),
        Ok(Incoming::Notification { method, params }) => dispatch_notification(state, method.as_str(), &params),
    }
}

/// The answer to `session/new` once the backend started the session (or
/// failed to, with an error message): the session id, remembered from now
/// on; or `-32603` with the backend's message.
pub fn new_session_done(state: &mut ServerState, id: Json, result: Result<String, String>) -> (o: Outgoing)
    ensures
        match result {
            Ok(sid) => final(state)@ == (ServerStateV { session_id: Some(sid@), ..old(state)@ })
                && o@ == (OutgoingV::Response { id: id@, result: session_result(sid@) }),
            Err(m) => final(state)@ == old(state)@ && o@ == (OutgoingV::Error {
                id: id@,
                code: -32603i64,
                message: m@,
                data: None,
            }),
        },
{
    match result {
        Ok(sid) => {
            let r = NewSessionResponse { session_id: sid.clone() }.to_json();
            state.session_id = Some(sid);
            Outgoing::Response { id, result: r }
        },
        Err(m) => Outgoing::Error { id, code: -32603i64, message: m, data: None },
    }
}

/// The answer to `session/prompt` once the turn ended: the stop reason, or
/// `-32603` with the backend's message.
pub fn prompt_done(id: Json, result: Result<StopReason, String>) -> (o: Outgoing)
    ensures
        match result {
            Ok(r) => o@ == (OutgoingV::Response {
                id: id@,
                result: JsonV::Object(seq![("stopReason"@, JsonV::Str(stop_reason_name(r)))]),
            }),
            Err(m) => o@ == (OutgoingV::Error { id: id@, code: -32603i64, message: m@, data: None }),
        },
{
    match result {
        Ok(stop_reason) => {
            let r = PromptResponse { stop_reason }.to_json();
            Outgoing::Response { id, result: r }
        },
        Err(m) => Outgoing::Error { id, code: -32603i64, message: m, data: None },
    }
}

/// The `session/update` notification that streams `update` for
/// `session_id`.
pub fn update_notification(session_id: &str, update: SessionUpdate) -> (o: Outgoing)
    ensures
        o@ == (OutgoingV::Notification {
            method: "session/update"@,
            params: JsonV::Object(seq![("sessionId"@, JsonV::Str(session_id@)), ("update"@, update.json())]),
        }),
{
    let p = SessionUpdateParams { session_id: owned(session_id), update };
    let params = p.to_json();
    Outgoing::Notification { method: owned("session/update"), params }
}

} // verus!
