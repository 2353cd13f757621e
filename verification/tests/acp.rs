use bufflink::acp::jsonrpc::{parse_line, to_line, Incoming, Outgoing};
use bufflink::acp::server::{
    handle_line, new_session_done, prompt_done, update_notification, Action, ServerState,
};
use bufflink::acp::types::{
    CancelNotification, ContentBlock, InitializeRequest, InitializeResponse, NewSessionRequest,
    NewSessionResponse, PromptRequest, PromptResponse, SessionUpdate, SessionUpdateParams,
    StopReason, TextContent, ToolCallContentItem, ToolCallStatus, AGENT_VERSION,
};
use bufflink::json::Json;

fn s(x: &str) -> Json {
    Json::Str(x.to_string())
}

fn n(x: u64) -> Json {
    Json::Number(x.to_string())
}

fn obj(es: Vec<(&str, Json)>) -> Json {
    Json::Object(es.into_iter().map(|(k, v)| (k.to_string(), v)).collect())
}

fn at<'a>(j: &'a Json, path: &[&str]) -> &'a Json {
    let mut cur = j;
    for k in path {
        cur = cur.get(k).unwrap_or_else(|| panic!("missing {k} in {cur:?}"));
    }
    cur
}

fn parse(text: &str) -> Json {
    match parse_line(&format!(r#"{{"jsonrpc":"2.0","method":"m","params":{text}}}"#)).unwrap() {
        Incoming::Notification { params, .. } => params,
        other => panic!("unexpected {other:?}"),
    }
}

#[test]
fn parse_request() {
    let msg = parse_line(r#"{"jsonrpc":"2.0","id":1,"method":"initialize","params":{}}"#).unwrap();
    match msg {
        Incoming::Request { id, method, .. } => {
            assert_eq!(id, n(1));
            assert_eq!(method, "initialize");
        }
        _ => panic!("expected request"),
    }
}

#[test]
fn parse_notification() {
    let msg = parse_line(r#"{"jsonrpc":"2.0","method":"session/cancel","params":{"sessionId":"s"}}"#)
        .unwrap();
    match msg {
        Incoming::Notification { method, .. } => assert_eq!(method, "session/cancel"),
        _ => panic!("expected notification"),
    }
}

#[test]
fn parse_invalid_json() {
    let err = parse_line("not-json").unwrap_err();
    assert_eq!(err.code, -32700);
}

#[test]
fn parse_missing_jsonrpc() {
    let err = parse_line(r#"{"id":1,"method":"initialize"}"#).unwrap_err();
    assert_eq!(err.code, -32600);
}

#[test]
fn to_line_has_trailing_newline() {
    let line = to_line(&Outgoing::Response {
        id: n(1),
        result: obj(vec![]),
    });
    assert!(line.ends_with('\n'));
    assert_eq!(line.matches('\n').count(), 1);
}

#[test]
fn parse_line_errors_and_defaults() {
    let err = parse_line("[1,2]").unwrap_err();
    assert_eq!(err.code, -32600);
    assert_eq!(err.message, "JSON-RPC message must be an object");
    let err = parse_line(r#"{"jsonrpc":"1.0","method":"x"}"#).unwrap_err();
    assert_eq!(err.code, -32600);
    let err = parse_line(r#"{"jsonrpc":"2.0","method":""}"#).unwrap_err();
    assert_eq!(err.code, -32600);
    assert_eq!(err.message, "missing or invalid method (expected non-empty string)");
    let err = parse_line("{").unwrap_err();
    assert_eq!(err.code, -32700);
    assert!(err.message.starts_with("Parse error: "));
    // Missing params read as null; a null id still makes a request.
    match parse_line(r#"  {"jsonrpc":"2.0","id":null,"method":"x"}  "#).unwrap() {
        Incoming::Request { id, params, .. } => {
            assert_eq!(id, Json::Null);
            assert_eq!(params, Json::Null);
        }
        other => panic!("unexpected {other:?}"),
    }
}

#[test]
fn to_line_shapes() {
    let line = to_line(&Outgoing::Error {
        id: n(3),
        code: -32601,
        message: "Method not found: x".to_string(),
        data: None,
    });
    assert_eq!(
        line,
        "{\"error\":{\"code\":-32601,\"message\":\"Method not found: x\"},\"id\":3,\"jsonrpc\":\"2.0\"}\n"
    );
    let line = to_line(&Outgoing::Notification {
        method: "session/update".to_string(),
        params: obj(vec![("text", s("a\nb"))]),
    });
    assert_eq!(
        line,
        "{\"jsonrpc\":\"2.0\",\"method\":\"session/update\",\"params\":{\"text\":\"a\\nb\"}}\n"
    );
    assert_eq!(line.matches('\n').count(), 1);
}

#[test]
fn initialize_response_json_keys() {
    let resp = InitializeResponse::v1();
    let v = resp.to_json();
    assert_eq!(*at(&v, &["protocolVersion"]), n(1));
    assert_eq!(*at(&v, &["agentCapabilities", "loadSession"]), Json::Bool(false));
    assert_eq!(*at(&v, &["agentCapabilities", "promptCapabilities", "image"]), Json::Bool(false));
    assert_eq!(*at(&v, &["agentCapabilities", "promptCapabilities", "audio"]), Json::Bool(false));
    assert_eq!(
        *at(&v, &["agentCapabilities", "promptCapabilities", "embeddedContext"]),
        Json::Bool(false)
    );
    assert_eq!(*at(&v, &["agentInfo", "name"]), s("blink"));
    assert_eq!(*at(&v, &["agentInfo", "version"]), s("0.1.0"));
    assert_eq!(AGENT_VERSION, "0.1.0");
}

#[test]
fn initialize_request_round_trip() {
    let raw = parse(r#"{"protocolVersion": 1, "clientCapabilities": {"fs": {"readTextFile": true}}, "clientInfo": {"name": "omnigent"}}"#);
    let req = InitializeRequest::from_json(&raw).unwrap();
    assert_eq!(req.protocol_version, 1);
    assert!(req.client_capabilities.is_some());
    assert_eq!(*at(req.client_info.as_ref().unwrap(), &["name"]), s("omnigent"));
    assert!(InitializeRequest::from_json(&parse(r#"{"protocolVersion": 70000}"#)).is_err());
    assert!(InitializeRequest::from_json(&parse(r#"{}"#)).is_err());
}

#[test]
fn new_session_json_keys() {
    let req = NewSessionRequest {
        cwd: "/tmp".into(),
        mcp_servers: vec![],
    };
    let v = req.to_json();
    assert_eq!(*at(&v, &["cwd"]), s("/tmp"));
    assert_eq!(*at(&v, &["mcpServers"]), Json::Array(vec![]));
    let resp = NewSessionResponse {
        session_id: "sess-1".into(),
    };
    let v = resp.to_json();
    assert_eq!(*at(&v, &["sessionId"]), s("sess-1"));
    let back = NewSessionRequest::from_json(&parse(r#"{"cwd": "/tmp"}"#)).unwrap();
    assert_eq!(back, req);
}

#[test]
fn prompt_request_ignores_unknown_blocks() {
    let raw = parse(
        r#"{"sessionId": "s1", "prompt": [{"type": "text", "text": "hello"}, {"type": "image", "data": "xxx"}, {"type": "text", "text": "world"}]}"#,
    );
    let req = PromptRequest::from_json(&raw).unwrap();
    assert_eq!(req.session_id, "s1");
    assert_eq!(req.prompt.len(), 3);
    assert_eq!(ContentBlock::concat_text(&req.prompt), "hello\nworld");
    assert_eq!(req.prompt[1], ContentBlock::Other);
    assert!(PromptRequest::from_json(&parse(r#"{"sessionId": "s1", "prompt": [{"type": "text"}]}"#)).is_err());
}

#[test]
fn stop_reason_snake_case() {
    for (reason, expected) in [
        (StopReason::EndTurn, "end_turn"),
        (StopReason::MaxTokens, "max_tokens"),
        (StopReason::MaxTurnRequests, "max_turn_requests"),
        (StopReason::Refusal, "refusal"),
        (StopReason::Cancelled, "cancelled"),
    ] {
        let v = PromptResponse { stop_reason: reason }.to_json();
        assert_eq!(*at(&v, &["stopReason"]), s(expected));
        let back = PromptResponse::from_json(&v).unwrap();
        assert_eq!(back.stop_reason, reason);
    }
}

#[test]
fn cancel_notification_json_keys() {
    let n = CancelNotification {
        session_id: "s1".into(),
    };
    let v = n.to_json();
    assert_eq!(*at(&v, &["sessionId"]), s("s1"));
    assert_eq!(CancelNotification::from_json(&v), Some(n));
}

#[test]
fn session_update_agent_message_chunk_keys() {
    let u = SessionUpdate::AgentMessageChunk {
        content: TextContent::text("hi".to_string()),
    };
    let v = u.to_json();
    assert_eq!(*at(&v, &["sessionUpdate"]), s("agent_message_chunk"));
    assert_eq!(*at(&v, &["content", "type"]), s("text"));
    assert_eq!(*at(&v, &["content", "text"]), s("hi"));
    let back = SessionUpdate::from_json(&v).unwrap();
    assert_eq!(back, u);
}

#[test]
fn session_update_agent_thought_chunk_keys() {
    let u = SessionUpdate::AgentThoughtChunk {
        content: TextContent::text("thinking".to_string()),
    };
    let v = u.to_json();
    assert_eq!(*at(&v, &["sessionUpdate"]), s("agent_thought_chunk"));
    assert_eq!(*at(&v, &["content", "type"]), s("text"));
    assert_eq!(*at(&v, &["content", "text"]), s("thinking"));
}

#[test]
fn session_update_tool_call_keys() {
    let u = SessionUpdate::ToolCall {
        tool_call_id: "tc1".into(),
        title: "run".into(),
        kind: "execute".into(),
        status: ToolCallStatus::Pending,
        raw_input: obj(vec![("cmd", s("ls"))]),
    };
    let v = u.to_json();
    assert_eq!(*at(&v, &["sessionUpdate"]), s("tool_call"));
    assert_eq!(*at(&v, &["toolCallId"]), s("tc1"));
    assert_eq!(*at(&v, &["title"]), s("run"));
    assert_eq!(*at(&v, &["kind"]), s("execute"));
    assert_eq!(*at(&v, &["status"]), s("pending"));
    assert_eq!(*at(&v, &["rawInput", "cmd"]), s("ls"));
    let back = SessionUpdate::from_json(&v).unwrap();
    assert_eq!(back, u);
}

#[test]
fn session_update_tool_call_update_keys() {
    let u = SessionUpdate::ToolCallUpdate {
        tool_call_id: "tc1".into(),
        status: ToolCallStatus::Completed,
        raw_output: Some(obj(vec![("ok", Json::Bool(true))])),
        content: Some(vec![ToolCallContentItem::Content {
            content: TextContent::text("done".to_string()),
        }]),
    };
    let v = u.to_json();
    assert_eq!(*at(&v, &["sessionUpdate"]), s("tool_call_update"));
    assert_eq!(*at(&v, &["toolCallId"]), s("tc1"));
    assert_eq!(*at(&v, &["status"]), s("completed"));
    assert_eq!(*at(&v, &["rawOutput", "ok"]), Json::Bool(true));
    let items = match at(&v, &["content"]) {
        Json::Array(items) => items,
        other => panic!("expected array, got {other:?}"),
    };
    assert_eq!(*at(&items[0], &["type"]), s("content"));
    assert_eq!(*at(&items[0], &["content", "type"]), s("text"));
    assert_eq!(*at(&items[0], &["content", "text"]), s("done"));
    let back = SessionUpdate::from_json(&v).unwrap();
    assert_eq!(back, u);
    let bare = SessionUpdate::ToolCallUpdate {
        tool_call_id: "tc1".into(),
        status: ToolCallStatus::Failed,
        raw_output: None,
        content: None,
    }
    .to_json();
    assert!(bare.get("rawOutput").is_none());
    assert!(bare.get("content").is_none());
    assert_eq!(*at(&bare, &["status"]), s("failed"));
}

#[test]
fn session_update_params_json_keys() {
    let p = SessionUpdateParams {
        session_id: "s1".into(),
        update: SessionUpdate::AgentMessageChunk {
            content: TextContent::text("x".to_string()),
        },
    };
    let v = p.to_json();
    assert_eq!(*at(&v, &["sessionId"]), s("s1"));
    assert_eq!(*at(&v, &["update", "sessionUpdate"]), s("agent_message_chunk"));
}

#[test]
fn tool_call_status_values() {
    assert_eq!(ToolCallStatus::InProgress.to_json(), s("in_progress"));
    assert_eq!(ToolCallStatus::Failed.to_json(), s("failed"));
}

fn error_code(a: &Action) -> i64 {
    match a {
        Action::Send(Outgoing::Error { code, .. }) => *code,
        other => panic!("expected an error, got {other:?}"),
    }
}

#[test]
fn server_handshake_and_session() {
    let mut st = ServerState::new();
    assert!(matches!(handle_line(&mut st, "   "), Action::Ignore));
    match handle_line(&mut st, r#"{"jsonrpc":"2.0","id":1,"method":"initialize","params":{"protocolVersion":1}}"#) {
        Action::Send(Outgoing::Response { id, result }) => {
            assert_eq!(id, n(1));
            assert_eq!(*at(&result, &["agentInfo", "name"]), s("blink"));
        }
        other => panic!("unexpected {other:?}"),
    }
    let a = handle_line(&mut st, r#"{"jsonrpc":"2.0","id":2,"method":"initialize","params":{}}"#);
    assert_eq!(error_code(&a), -32602);
    match handle_line(&mut st, r#"{"jsonrpc":"2.0","id":3,"method":"session/new","params":{"cwd":"/w","mcpServers":[]}}"#) {
        Action::NewSession { id, cwd } => {
            assert_eq!(id, n(3));
            assert_eq!(cwd, "/w");
        }
        other => panic!("unexpected {other:?}"),
    }
    let out = new_session_done(&mut st, n(3), Ok("blink-1-2".to_string()));
    assert!(matches!(out, Outgoing::Response { .. }));
    // A second session/new answers with the same id.
    match handle_line(&mut st, r#"{"jsonrpc":"2.0","id":4,"method":"session/new","params":{"cwd":"/x"}}"#) {
        Action::Send(Outgoing::Response { result, .. }) => assert_eq!(*at(&result, &["sessionId"]), s("blink-1-2")),
        other => panic!("unexpected {other:?}"),
    }
    let a = handle_line(&mut st, r#"{"jsonrpc":"2.0","id":5,"method":"nope"}"#);
    assert_eq!(error_code(&a), -32601);
    let a = handle_line(&mut st, "garbage");
    assert_eq!(error_code(&a), -32700);
}

#[test]
fn server_prompt_flow() {
    let mut st = ServerState::new();
    let a = handle_line(&mut st, r#"{"jsonrpc":"2.0","id":1,"method":"session/prompt","params":{"sessionId":"s","prompt":[]}}"#);
    match a {
        Action::Send(Outgoing::Error { code, message, .. }) => {
            assert_eq!(code, -32602);
            assert_eq!(message, "no session; call session/new first");
        }
        other => panic!("unexpected {other:?}"),
    }
    new_session_done(&mut st, n(0), Ok("s".to_string()));
    let a = handle_line(&mut st, r#"{"jsonrpc":"2.0","id":2,"method":"session/prompt","params":{"sessionId":"t","prompt":[]}}"#);
    match a {
        Action::Send(Outgoing::Error { code, message, .. }) => {
            assert_eq!(code, -32602);
            assert_eq!(message, "unknown session id: t");
        }
        other => panic!("unexpected {other:?}"),
    }
    match handle_line(&mut st, r#"{"jsonrpc":"2.0","id":3,"method":"session/prompt","params":{"sessionId":"s","prompt":[{"type":"text","text":"a"},{"type":"text","text":"b"}]}}"#) {
        Action::StartPrompt { id, session_id, text } => {
            assert_eq!(id, n(3));
            assert_eq!(session_id, "s");
            assert_eq!(text, "a\nb");
        }
        other => panic!("unexpected {other:?}"),
    }
    let a = handle_line(&mut st, r#"{"jsonrpc":"2.0","id":4,"method":"session/prompt","params":{"sessionId":"s","prompt":[]}}"#);
    assert_eq!(error_code(&a), -32000);
    assert!(matches!(
        handle_line(&mut st, r#"{"jsonrpc":"2.0","method":"session/cancel","params":{"sessionId":"s"}}"#),
        Action::Cancel
    ));
    assert!(matches!(
        handle_line(&mut st, r#"{"jsonrpc":"2.0","method":"session/cancel","params":{"sessionId":"other"}}"#),
        Action::Ignore
    ));
    st.prompt_finished();
    assert!(matches!(
        handle_line(&mut st, r#"{"jsonrpc":"2.0","method":"session/cancel","params":{"sessionId":"s"}}"#),
        Action::Ignore
    ));
    match prompt_done(n(3), Ok(StopReason::Cancelled)) {
        Outgoing::Response { result, .. } => assert_eq!(*at(&result, &["stopReason"]), s("cancelled")),
        other => panic!("unexpected {other:?}"),
    }
    match prompt_done(n(3), Err("boom".to_string())) {
        Outgoing::Error { code, message, .. } => {
            assert_eq!(code, -32603);
            assert_eq!(message, "boom");
        }
        other => panic!("unexpected {other:?}"),
    }
    match update_notification("s", SessionUpdate::AgentMessageChunk { content: TextContent::text("x".to_string()) }) {
        Outgoing::Notification { method, params } => {
            assert_eq!(method, "session/update");
            assert_eq!(*at(&params, &["sessionId"]), s("s"));
            assert_eq!(*at(&params, &["update", "content", "text"]), s("x"));
        }
        other => panic!("unexpected {other:?}"),
    }
}

fn error_message(a: &Action) -> String {
    match a {
        Action::Send(Outgoing::Error { code, message, .. }) => {
            assert_eq!(*code, -32602);
            message.clone()
        }
        other => panic!("expected an error, got {other:?}"),
    }
}

#[test]
fn server_invalid_params_say_what_is_wrong() {
    let mut st = ServerState::new();
    let cases = [
        (r#"{"jsonrpc":"2.0","id":1,"method":"initialize","params":"x"}"#, "Invalid params: expected an object"),
        (r#"{"jsonrpc":"2.0","id":1,"method":"initialize","params":[]}"#, "Invalid params: missing or invalid `protocolVersion`"),
        (r#"{"jsonrpc":"2.0","id":1,"method":"initialize","params":[1,null,null,4]}"#, "Invalid params: too many positional params"),
        (r#"{"jsonrpc":"2.0","id":1,"method":"initialize","params":{}}"#, "Invalid params: missing or invalid `protocolVersion`"),
        (r#"{"jsonrpc":"2.0","id":1,"method":"initialize","params":{"protocolVersion":70000}}"#, "Invalid params: `protocolVersion` is not a u16"),
        (r#"{"jsonrpc":"2.0","id":1,"method":"session/new","params":{"cwd":3}}"#, "Invalid params: missing or invalid `cwd`"),
        (r#"{"jsonrpc":"2.0","id":1,"method":"session/new","params":{"cwd":"/w","mcpServers":{}}}"#, "Invalid params: `mcpServers` is not an array"),
        (r#"{"jsonrpc":"2.0","id":1,"method":"session/prompt","params":{"prompt":[]}}"#, "Invalid params: missing or invalid `sessionId`"),
        (r#"{"jsonrpc":"2.0","id":1,"method":"session/prompt","params":{"sessionId":"s"}}"#, "Invalid params: missing or invalid `prompt`"),
        (r#"{"jsonrpc":"2.0","id":1,"method":"session/prompt","params":{"sessionId":"s","prompt":[{"type":"text"}]}}"#, "Invalid params: invalid content block in `prompt`"),
    ];
    for (line, expected) in cases {
        assert_eq!(error_message(&handle_line(&mut st, line)), expected, "{line}");
    }
}

#[test]
fn session_update_decoding_edges() {
    let with_nulls = parse(r#"{"sessionUpdate":"tool_call_update","toolCallId":"t","status":"in_progress","rawOutput":null,"content":null,"extra":1}"#);
    assert_eq!(
        SessionUpdate::from_json(&with_nulls),
        Some(SessionUpdate::ToolCallUpdate {
            tool_call_id: "t".into(),
            status: ToolCallStatus::InProgress,
            raw_output: None,
            content: None,
        })
    );
    let null_input = parse(r#"{"sessionUpdate":"tool_call","toolCallId":"t","title":"a","kind":"b","status":"pending","rawInput":null}"#);
    assert!(matches!(SessionUpdate::from_json(&null_input), Some(SessionUpdate::ToolCall { raw_input: Json::Null, .. })));
    let no_input = parse(r#"{"sessionUpdate":"tool_call","toolCallId":"t","title":"a","kind":"b","status":"pending"}"#);
    assert_eq!(SessionUpdate::from_json(&no_input), None);
    let bad_status = parse(r#"{"sessionUpdate":"tool_call_update","toolCallId":"t","status":"done"}"#);
    assert_eq!(SessionUpdate::from_json(&bad_status), None);
    let bad_item = parse(r#"{"sessionUpdate":"tool_call_update","toolCallId":"t","status":"failed","content":[{"type":"text","text":"x"}]}"#);
    assert_eq!(SessionUpdate::from_json(&bad_item), None);
    assert_eq!(SessionUpdate::from_json(&parse(r#"{"sessionUpdate":"plan"}"#)), None);
    assert_eq!(SessionUpdate::from_json(&Json::Array(Vec::new())), None);
}

#[test]
fn positional_params_decode_in_field_order() {
    let mut st = ServerState::new();
    match handle_line(&mut st, r#"{"jsonrpc":"2.0","id":1,"method":"initialize","params":[1]}"#) {
        Action::Send(Outgoing::Response { id, .. }) => assert_eq!(id, n(1)),
        other => panic!("unexpected {other:?}"),
    }
    match handle_line(&mut st, r#"{"jsonrpc":"2.0","id":2,"method":"session/new","params":["/w",[]]}"#) {
        Action::NewSession { cwd, .. } => assert_eq!(cwd, "/w"),
        other => panic!("unexpected {other:?}"),
    }
    new_session_done(&mut st, n(2), Ok("s".to_string()));
    match handle_line(&mut st, r#"{"jsonrpc":"2.0","id":3,"method":"session/prompt","params":["s",[{"type":"text","text":"hi"}]]}"#) {
        Action::StartPrompt { text, .. } => assert_eq!(text, "hi"),
        other => panic!("unexpected {other:?}"),
    }
    assert!(matches!(
        handle_line(&mut st, r#"{"jsonrpc":"2.0","method":"session/cancel","params":["s"]}"#),
        Action::Cancel
    ));
    assert!(matches!(
        handle_line(&mut st, r#"{"jsonrpc":"2.0","method":"session/cancel","params":["s","x"]}"#),
        Action::Ignore
    ));
}
