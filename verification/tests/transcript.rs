use bufflink::freebuff::transcript::{diff, diff_fits, parse_messages, Block, Cursor, Delta, Message};
use bufflink::json::Json;

const CHAT_MESSAGES_SMALL: &str = r#"[
  {"variant": "ai", "blocks": [{"type": "mode-divider", "mode": "LITE"}], "isComplete": true},
  {"variant": "user", "content": "Hello, world!"},
  {"variant": "ai", "blocks": [
    {"type": "text", "textType": "reasoning", "content": "The user said hello."},
    {"type": "tool", "toolCallId": "tool-123", "toolName": "run_terminal_command", "input": {"command": "echo hello", "process_type": "SYNC", "timeout_seconds": 30}, "output": "hello\n", "agentId": "main-agent", "includeToolCall": true},
    {"type": "text", "textType": "text", "content": "Hello there!"}
  ], "isComplete": true, "completionTime": "2026-09-19T14:37:56.000Z", "credits": 0, "metadata": {"model": "z-ai/glm-5.3-flash"}}
]"#;

const CHAT_MESSAGES_REAL_PONG: &str = r#"[
  {"variant": "ai", "blocks": [{"type": "mode-divider", "mode": "LITE"}], "isComplete": true},
  {"variant": "user", "content": "Reply with exactly the single word PONG and nothing else."},
  {"variant": "ai", "blocks": [
    {"type": "text", "textType": "reasoning", "content": "The user wants exactly the single word PONG, nothing else. Simple compliance is right here — no tools needed, no extra text."},
    {"type": "text", "textType": "text", "content": "PONG"}
  ], "isComplete": true, "completionTime": "2026-09-20T10:02:11.000Z", "credits": 1}
]"#;

#[test]
fn parse_messages_loads_fixture() {
    let json = CHAT_MESSAGES_SMALL;
    let messages = parse_messages(json).unwrap();

    assert_eq!(messages.len(), 3);

    match &messages[0] {
        Message::Ai {
            blocks,
            is_complete,
            ..
        } => {
            assert!(*is_complete);
            assert_eq!(blocks.len(), 1);
            assert!(matches!(&blocks[0], Block::ModeDivider { mode } if mode == "LITE"));
        }
        _ => panic!("expected AI message with mode-divider"),
    }

    assert!(matches!(&messages[1], Message::User { content } if content == "Hello, world!"));

    match &messages[2] {
        Message::Ai {
            blocks,
            is_complete,
            ..
        } => {
            assert!(*is_complete);
            assert_eq!(blocks.len(), 3);
            assert!(
                matches!(&blocks[0], Block::Text { text_type, content } if text_type == "reasoning" && content == "The user said hello.")
            );
            assert!(
                matches!(&blocks[1], Block::Tool { tool_call_id, tool_name, output, .. } if tool_call_id == "tool-123" && tool_name == "run_terminal_command" && *output == Some("hello\n".to_string()))
            );
            assert!(
                matches!(&blocks[2], Block::Text { text_type, content } if text_type == "text" && content == "Hello there!")
            );
        }
        _ => panic!("expected AI message"),
    }
}

#[test]
fn diff_emits_text_deltas_as_content_grows() {
    let json = CHAT_MESSAGES_SMALL;
    let messages = parse_messages(json).unwrap();

    let cursor = Cursor::new();
    let (cursor1, deltas1) = diff(&cursor, &messages);

    assert_eq!(deltas1.len(), 4);
    assert!(
        matches!(&deltas1[0], Delta::Text { reasoning: true, delta } if delta == "The user said hello.")
    );
    assert!(
        matches!(&deltas1[1], Delta::ToolStarted { tool_call_id, tool_name, .. } if tool_call_id == "tool-123" && tool_name == "run_terminal_command")
    );
    assert!(
        matches!(&deltas1[2], Delta::ToolFinished { tool_call_id, output } if tool_call_id == "tool-123" && output == "hello\n")
    );
    assert!(
        matches!(&deltas1[3], Delta::Text { reasoning: false, delta } if delta == "Hello there!")
    );

    let (cursor2, deltas2) = diff(&cursor1, &messages);
    assert!(deltas2.is_empty());
    assert_eq!(cursor1, cursor2);

    let mut messages2 = messages.clone();
    if let Message::Ai { blocks, .. } = &mut messages2[2] {
        if let Block::Text { content, .. } = &mut blocks[2] {
            content.push_str(" How are you?");
        }
    }
    let (_cursor3, deltas3) = diff(&cursor2, &messages2);
    assert_eq!(deltas3.len(), 1);
    assert!(
        matches!(&deltas3[0], Delta::Text { reasoning: false, delta } if delta == " How are you?")
    );
}

#[test]
fn diff_emits_tool_started_and_finished_once_each() {
    let json = r#"[
        {"variant": "ai", "blocks": [{"type": "tool", "toolCallId": "tool-1", "toolName": "run_terminal_command", "input": {"cmd": "echo hi"}}], "isComplete": false}
    ]"#;
    let messages1 = parse_messages(json).unwrap();

    let cursor = Cursor::new();
    let (cursor1, deltas1) = diff(&cursor, &messages1);
    assert_eq!(deltas1.len(), 1);
    assert!(matches!(&deltas1[0], Delta::ToolStarted { .. }));

    let json2 = r#"[
        {"variant": "ai", "blocks": [{"type": "tool", "toolCallId": "tool-1", "toolName": "run_terminal_command", "input": {"cmd": "echo hi"}, "output": "hi\n"}], "isComplete": true}
    ]"#;
    let messages2 = parse_messages(json2).unwrap();
    let (cursor2, deltas2) = diff(&cursor1, &messages2);
    assert_eq!(deltas2.len(), 1);
    assert!(
        matches!(&deltas2[0], Delta::ToolFinished { tool_call_id, output } if tool_call_id == "tool-1" && output == "hi\n")
    );

    let (_, deltas3) = diff(&cursor2, &messages2);
    assert!(deltas3.is_empty());
}

#[test]
fn block_helpers() {
    let block = Block::Text {
        text_type: "reasoning".to_string(),
        content: "thinking".to_string(),
    };
    assert!(block.is_reasoning());
    assert_eq!(block.text_content(), Some("thinking"));

    let mut block2 = Block::Tool {
        tool_call_id: "id1".to_string(),
        tool_name: "test".to_string(),
        input: Json::Null,
        output: None,
        agent_id: None,
        include_tool_call: None,
        is_collapsed: None,
    };
    assert_eq!(block2.tool_call_id(), Some("id1"));
    assert_eq!(block2.tool_output(), None);
    block2.set_tool_output("done".to_string());
    assert_eq!(block2.tool_output(), Some("done"));
}

#[test]
fn real_pong_transcript_parses_and_diffs() {
    let json = CHAT_MESSAGES_REAL_PONG;
    let result = parse_messages(json);

    let messages = result.expect("real pong transcript should parse");

    assert_eq!(messages.len(), 3, "expected 3 messages");

    match &messages[0] {
        Message::Ai { blocks, .. } => {
            assert_eq!(blocks.len(), 1);
            assert!(matches!(&blocks[0], Block::ModeDivider { mode } if mode == "LITE"));
        }
        Message::Other => {}
        _ => panic!(
            "expected AI message with mode-divider or Other, got {:?}",
            messages[0]
        ),
    }

    match &messages[1] {
        Message::User { content } => {
            assert_eq!(
                content,
                "Reply with exactly the single word PONG and nothing else."
            );
        }
        _ => panic!("expected User message, got {:?}", messages[1]),
    }

    match &messages[2] {
        Message::Ai {
            blocks,
            is_complete,
            ..
        } => {
            assert!(*is_complete, "is_complete should be true");
            assert_eq!(blocks.len(), 2, "expected 2 blocks (reasoning + text)");
            assert!(
                matches!(&blocks[0], Block::Text { text_type, content } if text_type == "reasoning" && content == "The user wants exactly the single word PONG, nothing else. Simple compliance is right here — no tools needed, no extra text.")
            );
            assert!(
                matches!(&blocks[1], Block::Text { text_type, content } if text_type == "text" && content == "PONG")
            );
        }
        _ => panic!("expected AI message, got {:?}", messages[2]),
    }

    let mut cursor = Cursor::new();
    let mut all_deltas = Vec::new();

    let (c1, d1) = diff(&cursor, &messages[..1]);
    cursor = c1;
    all_deltas.extend(d1);

    let (c2, d2) = diff(&cursor, &messages[..2]);
    cursor = c2;
    all_deltas.extend(d2);

    let (c3, d3) = diff(&cursor, &messages[..3]);
    let _ = c3;
    all_deltas.extend(d3);

    let reasoning_deltas: Vec<_> = all_deltas
        .iter()
        .filter(|d| matches!(d, Delta::Text { reasoning: true, .. }))
        .collect();
    let text_deltas: Vec<_> = all_deltas
        .iter()
        .filter(|d| matches!(d, Delta::Text { reasoning: false, .. }))
        .collect();

    assert_eq!(
        reasoning_deltas.len(),
        1,
        "expected exactly 1 reasoning delta, got {}",
        reasoning_deltas.len()
    );
    assert_eq!(
        text_deltas.len(),
        1,
        "expected exactly 1 text delta, got {}",
        text_deltas.len()
    );

    if let Delta::Text { delta, .. } = text_deltas[0] {
        assert!(delta.contains("PONG"), "text delta should contain PONG, got: {}", delta);
    }

    if let Delta::Text { delta, .. } = reasoning_deltas[0] {
        assert!(
            delta.contains("Simple compliance"),
            "reasoning delta should contain expected text, got: {}",
            delta
        );
    }
}

#[test]
fn parse_messages_rejects_what_does_not_decode() {
    assert!(parse_messages("not json").is_err());
    assert!(parse_messages(r#"{"variant": "user"}"#).is_err());
    assert!(parse_messages(r#"[{"variant": "user"}]"#).is_err());
    assert!(parse_messages(r#"[{"content": "x"}]"#).is_err());
    assert!(parse_messages(r#"[{"variant": "ai", "blocks": [], "isComplete": null}]"#).is_err());
    assert!(parse_messages(r#"[{"variant": "ai", "blocks": [], "credits": 1.5}]"#).is_err());
    assert!(parse_messages(r#"[{"variant": "ai", "blocks": [{"type": "tool", "toolCallId": "a", "toolName": "b"}]}]"#).is_err());
    // Unknown variants and block types decode as Other; isComplete defaults to false.
    let ms = parse_messages(r#"[{"variant": "divider"}, {"variant": "ai", "blocks": [{"type": "image"}], "credits": null}]"#).unwrap();
    assert_eq!(ms[0], Message::Other);
    match &ms[1] {
        Message::Ai { blocks, is_complete, credits, metadata, .. } => {
            assert_eq!(blocks[0], Block::Other);
            assert!(!*is_complete);
            assert_eq!(*credits, None);
            assert_eq!(*metadata, None);
        }
        other => panic!("expected AI message, got {other:?}"),
    }
}

#[test]
fn diff_counts_bytes_and_resets_on_a_new_ai_message() {
    let first = parse_messages(r#"[{"variant": "ai", "blocks": [{"type": "text", "textType": "text", "content": "é"}]}]"#).unwrap();
    let (c1, d1) = diff(&Cursor::new(), &first);
    assert!(matches!(&d1[0], Delta::Text { delta, .. } if delta == "é"));
    let grown = parse_messages(r#"[{"variant": "ai", "blocks": [{"type": "text", "textType": "text", "content": "éa"}]}]"#).unwrap();
    assert!(diff_fits(&c1, &grown));
    let (c2, d2) = diff(&c1, &grown);
    assert!(matches!(&d2[0], Delta::Text { delta, .. } if delta == "a"));
    // The seen length (2 bytes) falls inside "€" (3 bytes): slicing there
    // would panic, so the diff does not fit.
    let mid = parse_messages(r#"[{"variant": "ai", "blocks": [{"type": "text", "textType": "text", "content": "€x"}]}]"#).unwrap();
    assert!(!diff_fits(&c1, &mid));
    // A new AI message starts from scratch.
    let next = parse_messages(r#"[{"variant": "ai", "blocks": [{"type": "text", "textType": "text", "content": "éa"}]}, {"variant": "user", "content": "q"}, {"variant": "ai", "blocks": [{"type": "text", "textType": "text", "content": "hi"}]}]"#).unwrap();
    let (_c3, d3) = diff(&c2, &next);
    assert_eq!(d3.len(), 1);
    assert!(matches!(&d3[0], Delta::Text { delta, .. } if delta == "hi"));
    // No AI message: nothing, cursor unchanged.
    let users = parse_messages(r#"[{"variant": "user", "content": "q"}]"#).unwrap();
    let (c4, d4) = diff(&c2, &users);
    assert!(d4.is_empty());
    assert_eq!(c4, c2);
}

#[test]
fn parse_messages_names_what_did_not_decode() {
    let expected = Err("transcript is not an array of chat messages".to_string());
    assert_eq!(parse_messages("{}"), expected);
    assert_eq!(parse_messages("[1]"), expected);
    assert_eq!(parse_messages(r#"[{"variant":"ai"}]"#), expected);
    let bad = parse_messages("[1,");
    assert!(bad.is_err());
    assert_ne!(bad, expected);
}

#[test]
fn appended_text_streams_once_across_blocks() {
    let m1 = parse_messages(r#"[{"variant":"user","content":"q"},{"variant":"ai","blocks":[{"type":"text","textType":"reasoning","content":"think"},{"type":"tool","toolCallId":"t1","toolName":"run_terminal_command","input":{},"output":"ok"},{"type":"text","textType":"text","content":"PO"}]}]"#).unwrap();
    let (c1, _) = diff(&Cursor::new(), &m1);
    let (c1b, again) = diff(&c1, &m1);
    assert!(again.is_empty());
    assert_eq!(c1b, c1);
    let m2 = parse_messages(r#"[{"variant":"user","content":"q"},{"variant":"ai","blocks":[{"type":"text","textType":"reasoning","content":"think"},{"type":"tool","toolCallId":"t1","toolName":"run_terminal_command","input":{},"output":"ok"},{"type":"text","textType":"text","content":"PONG"}]}]"#).unwrap();
    let (_, ds) = diff(&c1, &m2);
    assert_eq!(ds, vec![Delta::Text { reasoning: false, delta: "NG".to_string() }]);
}
