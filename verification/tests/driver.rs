use bufflink::acp::types::{SessionUpdate, StopReason, TextContent, ToolCallStatus};
use bufflink::freebuff::chats::{chats_dir, newest_new_chat, newest_new_name, parse_instance_owner};
use bufflink::freebuff::driver::{
    already_running_error, build_tool_title, delta_update, health_error, startup_error,
    startup_exit_error, startup_timeout_error, prompt_session_error, transcript_parse_failed,
    transcript_step, submit_step, submit_condition_holds, SubmitCondition, SubmitNext, SubmitPhase,
    SubmitWrite, log_events, needs_nudge,
    parse_submit_timeout, paste_visible, preview_of, remainder_after_nudge, session_id_for,
    startup_step, submit_resolved, tool_kind, transcript_settled, turn_result, DriverConfig,
    StartupStep, TurnState,
};
use bufflink::freebuff::log::{LogEvent, TurnOutcome};
use bufflink::freebuff::transcript::{diff, parse_messages, Cursor, Delta};
use bufflink::freebuff::{CANCEL_KEY, EXIT_COMMAND};
use bufflink::json::Json;
use bufflink::pty::ScreenSnapshot;

fn rows(text: &str) -> Vec<String> {
    text.lines().map(|s| s.to_string()).collect()
}

#[test]
fn constants_exist() {
    assert_eq!(EXIT_COMMAND, "/exit");
    assert_eq!(CANCEL_KEY, "\x1b");
}

#[test]
fn submit_timeout_floor_is_two_seconds() {
    // A programmatically built config with a 1 s submit_timeout must never
    // underflow the 2 s nudge remainder; it saturates to zero.
    assert_eq!(remainder_after_nudge(1), 0);

    // Env parsing floors any value below 2 s up to 2 s (and defaults to 30).
    assert_eq!(parse_submit_timeout(Some("1")), 2);
    assert_eq!(parse_submit_timeout(Some("0")), 2);
    assert_eq!(parse_submit_timeout(Some("30")), 30);
    assert_eq!(parse_submit_timeout(None), 30);
}

#[test]
fn config_defaults_and_settings() {
    let c = DriverConfig::from_env(None, None, None, None);
    assert_eq!(c.program, "freebuff");
    assert_eq!((c.cols, c.rows), (120, 40));
    assert_eq!(c.turn_timeout_s, 900);
    assert_eq!(c.settle_timeout_s, 5);
    assert_eq!(c.submit_timeout_s, 30);
    assert_eq!(c.poll_interval_ms, 250);
    let c = DriverConfig::from_env(Some("/bin/fake".to_string()), Some("60"), Some("x"), Some("abc"));
    assert_eq!(c.program, "/bin/fake");
    assert_eq!(c.turn_timeout_s, 60);
    assert_eq!(c.settle_timeout_s, 5);
    assert_eq!(c.submit_timeout_s, 30);
    assert_eq!(remainder_after_nudge(30), 28);
    let mut c = DriverConfig::from_env(None, None, None, None);
    c.extra_args = vec!["--lite".to_string()];
    let p = c.build_pty_config("/w/proj");
    assert_eq!(p.args, vec!["--cwd".to_string(), "/w/proj".to_string(), "--lite".to_string()]);
    assert_eq!(p.cwd.as_deref(), Some("/w/proj"));
}

#[test]
fn tool_titles_and_kinds() {
    assert_eq!(tool_kind("run_terminal_command"), "execute");
    assert_eq!(tool_kind("write_file"), "edit");
    assert_eq!(tool_kind("str_replace"), "edit");
    assert_eq!(tool_kind("read_files"), "read");
    assert_eq!(tool_kind("code_search"), "read");
    assert_eq!(tool_kind("spawn_agents"), "other");
    let input = Json::Object(vec![("command".to_string(), Json::Str("ls -la".to_string()))]);
    assert_eq!(build_tool_title("run_terminal_command", &input), "run_terminal_command: ls -la");
    let input = Json::Object(vec![
        ("command".to_string(), Json::Number("1".to_string())),
        ("path".to_string(), Json::Str("a.txt".to_string())),
    ]);
    assert_eq!(build_tool_title("write_file", &input), "write_file: a.txt");
    assert_eq!(build_tool_title("end_turn", &Json::Null), "end_turn");
}

#[test]
fn deltas_become_session_updates() {
    let (u, msg) = delta_update(Delta::Text { reasoning: true, delta: "hm".to_string() });
    assert!(!msg);
    assert_eq!(u, SessionUpdate::AgentThoughtChunk { content: TextContent::text("hm".to_string()) });
    let (u, msg) = delta_update(Delta::Text { reasoning: false, delta: "PONG".to_string() });
    assert!(msg);
    assert_eq!(u, SessionUpdate::AgentMessageChunk { content: TextContent::text("PONG".to_string()) });
    let input = Json::Object(vec![("command".to_string(), Json::Str("echo hi".to_string()))]);
    let (u, msg) = delta_update(Delta::ToolStarted {
        tool_call_id: "t1".to_string(),
        tool_name: "run_terminal_command".to_string(),
        input: input.clone(),
    });
    assert!(!msg);
    match u {
        SessionUpdate::ToolCall { tool_call_id, title, kind, status, raw_input } => {
            assert_eq!(tool_call_id, "t1");
            assert_eq!(title, "run_terminal_command: echo hi");
            assert_eq!(kind, "execute");
            assert_eq!(status, ToolCallStatus::InProgress);
            assert_eq!(raw_input, input);
        }
        other => panic!("unexpected {other:?}"),
    }
    let (u, _) = delta_update(Delta::ToolFinished { tool_call_id: "t1".to_string(), output: "hi\n".to_string() });
    match u {
        SessionUpdate::ToolCallUpdate { status, raw_output, content, .. } => {
            assert_eq!(status, ToolCallStatus::Completed);
            assert_eq!(
                raw_output,
                Some(Json::Object(vec![("output".to_string(), Json::Str("hi\n".to_string()))]))
            );
            assert_eq!(content.map(|c| c.len()), Some(1));
        }
        other => panic!("unexpected {other:?}"),
    }
}

#[test]
fn turn_results() {
    assert_eq!(turn_result(&TurnOutcome::Completed, true, false), Ok(StopReason::EndTurn));
    assert_eq!(turn_result(&TurnOutcome::Completed, true, true), Ok(StopReason::Cancelled));
    assert_eq!(
        turn_result(&TurnOutcome::Completed, false, false),
        Err("freebuff finished the turn but no reply text was found in the transcript".to_string())
    );
    assert_eq!(turn_result(&TurnOutcome::Interrupted, false, false), Ok(StopReason::Cancelled));
    assert_eq!(
        turn_result(&TurnOutcome::Error { message: "timeout".to_string() }, true, false),
        Err("freebuff turn failed: timeout".to_string())
    );
}

#[test]
fn transcript_settles_per_outcome() {
    let done = parse_messages(r#"[{"variant":"ai","blocks":[{"type":"text","textType":"reasoning","content":"r"},{"type":"text","textType":"text","content":"PONG"}],"isComplete":true}]"#).unwrap();
    assert!(transcript_settled(&done, &TurnOutcome::Completed));
    let thinking = parse_messages(r#"[{"variant":"ai","blocks":[{"type":"text","textType":"reasoning","content":"r"}],"isComplete":true}]"#).unwrap();
    assert!(!transcript_settled(&thinking, &TurnOutcome::Completed));
    assert!(transcript_settled(&thinking, &TurnOutcome::Interrupted));
    let open = parse_messages(r#"[{"variant":"ai","blocks":[{"type":"text","textType":"text","content":"PO"}]}]"#).unwrap();
    assert!(!transcript_settled(&open, &TurnOutcome::Completed));
    let user_last = parse_messages(r#"[{"variant":"user","content":"q"}]"#).unwrap();
    assert!(!transcript_settled(&user_last, &TurnOutcome::Interrupted));
    assert!(!transcript_settled(&done, &TurnOutcome::Error { message: "x".to_string() }));
}

#[test]
fn log_events_skip_blank_lines() {
    let text = "{\"msg\":\"Start agent M step 1\"}\r\n\n   \n{\"msg\":\"End agent M step 1\"}\nnot json";
    assert_eq!(
        log_events(text),
        vec![LogEvent::StepStart { step: 1 }, LogEvent::StepEnd { step: 1 }, LogEvent::Other]
    );
    assert!(log_events("").is_empty());
}

#[test]
fn startup_steps() {
    let splash = rows("   Start coding for free\n   ↓  See all 4 models");
    assert_eq!(startup_step(&splash, false), StartupStep::AcceptSplash);
    assert_eq!(startup_step(&splash, true), StartupStep::Wait);
    let idle = rows("  GLM 5.3 Flash · 1h left   ✕ End session\n│ ▍Enter a coding task or / for commands │");
    assert_eq!(startup_step(&idle, false), StartupStep::Ready);
    // Splash markers lingering beside the idle markers after the accept.
    let both = rows("   Start coding for free\n  GLM 5.3 Flash · 1h left\n▍Enter a coding task or / for commands");
    assert_eq!(startup_step(&both, true), StartupStep::Ready);
    assert_eq!(startup_step(&both, false), StartupStep::AcceptSplash);
    let gate = rows(" │ Not enough Freebucks — 5 Freebucks/hr against 0 left. │");
    assert_eq!(
        startup_step(&gate, false),
        StartupStep::FreebucksGate { message: "│ Not enough Freebucks — 5 Freebucks/hr against 0 left. │".to_string() }
    );
    assert_eq!(startup_step(&rows("Freebuff is already running"), false), StartupStep::AlreadyRunning);
    assert_eq!(
        startup_step(&rows("Another freebuff instance took over this account."), false),
        StartupStep::KickedOut
    );
    assert_eq!(startup_step(&rows(""), false), StartupStep::Wait);
    assert_eq!(already_running_error(Some(81348)), "freebuff: already running (owner pid: 81348)");
    assert_eq!(already_running_error(None), "freebuff: already running (owner pid: unknown)");
}

#[test]
fn submission_checks() {
    assert_eq!(preview_of("Reply with exactly the single word PONG."), "Reply with exactly t");
    assert_eq!(preview_of("short"), "short");
    let shown = rows("╭──╮\n│ ▍Reply with exactly the single │\n╰──╯");
    assert!(paste_visible(&shown, "Reply with exactly t"));
    assert!(!submit_resolved(&shown, "Reply with exactly t"));
    assert!(needs_nudge(&shown));
    let chip = rows("📋 Pasted text (5,001 chars)\n╭──╮\n│ ▍Enter a coding task or / for commands │\n╰──╯");
    assert!(paste_visible(&chip, "zzz"));
    assert!(needs_nudge(&chip));
    let consumed = rows("╭──╮\n│ ▍Enter a coding task or / for commands │\n╰──╯");
    assert!(submit_resolved(&consumed, "Reply with exactly t"));
    assert!(!needs_nudge(&consumed));
    let busy = rows(" thinking... 3s  ■ Esc\n╭──╮\n│ ▍Reply with exactly the single │\n╰──╯");
    assert!(submit_resolved(&busy, "Reply with exactly t"));
}

#[test]
fn session_ids() {
    assert_eq!(session_id_for(1758292667705, 81348), "blink-1758292667705-81348");
    assert_eq!(session_id_for(0, 0), "blink-0-0");
}

#[test]
fn chats_dir_constructs_path() {
    assert_eq!(
        chats_dir("/home/user/my-project", "/home/user/.config/manicode"),
        "/home/user/.config/manicode/projects/my-project/chats"
    );
    assert_eq!(chats_dir("/", "/m"), "/m/projects/unknown/chats");
}

#[test]
fn newest_new_chat_finds_newest_not_in_before() {
    let entries: Vec<String> = [
        "2026-01-02T00-00-00.000Z",
        "2026-01-03T00-00-00.000Z",
        "2026-01-01T00-00-00.000Z",
    ]
    .iter()
    .map(|s| s.to_string())
    .collect();
    let before = vec!["2026-01-01T00-00-00.000Z".to_string()];
    assert_eq!(
        newest_new_chat("/base", &entries, &before),
        Some("/base/2026-01-03T00-00-00.000Z".to_string())
    );
    let before2 = entries.clone();
    assert_eq!(newest_new_chat("/base", &entries, &before2), None);
    assert_eq!(newest_new_name(&[], &[]), None);
    let before3 = vec!["2026-01-03T00-00-00.000Z".to_string()];
    assert_eq!(newest_new_name(&entries, &before3), Some("2026-01-02T00-00-00.000Z".to_string()));
}

#[test]
fn instance_owner_parses_valid_file() {
    assert_eq!(
        parse_instance_owner(r#"{"instanceId": "abc-123", "pid": 12345}"#),
        Some(("abc-123".to_string(), 12345))
    );
}

#[test]
fn instance_owner_returns_none_for_invalid_json() {
    assert_eq!(parse_instance_owner("not json"), None);
    assert_eq!(parse_instance_owner(r#"{"instanceId": "abc"}"#), None);
    assert_eq!(parse_instance_owner(r#"{"instanceId": "abc", "pid": -1}"#), None);
    // The pid is cut to its low 32 bits, as `as u32` does.
    assert_eq!(
        parse_instance_owner(r#"{"instanceId": "abc", "pid": 4294967297}"#),
        Some(("abc".to_string(), 1))
    );
}

#[test]
fn turn_state_sends_cancel_once_and_tracks_outcome() {
    let mut turn = TurnState::new();
    let p = turn.poll(false, vec![LogEvent::TurnStarted, LogEvent::StepStart { step: 1 }]);
    assert!(!p.send_cancel);
    assert_eq!(p.outcome, None);
    let p = turn.poll(true, Vec::new());
    assert!(p.send_cancel);
    assert!(turn.cancelled_sent);
    let p = turn.poll(true, vec![LogEvent::Finished { output_type: "done".to_string() }]);
    assert!(!p.send_cancel);
    assert_eq!(p.outcome, Some(TurnOutcome::Completed));
    assert_eq!(turn.events.len(), 3);
    assert_eq!(turn.finish(&TurnOutcome::Completed, true), Ok(StopReason::Cancelled));
}

#[test]
fn turn_state_without_cancel_ends_turn() {
    let mut turn = TurnState::new();
    let p = turn.poll(false, vec![LogEvent::Finished { output_type: "done".to_string() }]);
    assert_eq!(p.outcome, Some(TurnOutcome::Completed));
    assert_eq!(turn.finish(&TurnOutcome::Completed, true), Ok(StopReason::EndTurn));
    assert!(turn.finish(&TurnOutcome::Completed, false).is_err());
}

fn screen_of(rows: &[&str]) -> ScreenSnapshot {
    ScreenSnapshot {
        rows: rows.iter().map(|s| s.to_string()).collect(),
        cursor: (0, 0),
        alternate_screen: false,
        generation: 0,
    }
}

#[test]
fn health_error_reports_takeover_before_exit() {
    let snap = screen_of(&["Another freebuff instance took over this account.   ", ""]);
    assert_eq!(
        health_error(&snap, true),
        Some("freebuff: another instance took over this account".to_string())
    );
    assert_eq!(
        health_error(&snap, false),
        Some("freebuff: another instance took over this account".to_string())
    );
}

#[test]
fn health_error_reports_exit_with_last_screen() {
    let snap = screen_of(&["hello   ", "world"]);
    assert_eq!(
        health_error(&snap, true),
        Some("freebuff child exited unexpectedly; last screen:\nhello\nworld".to_string())
    );
    assert_eq!(health_error(&snap, false), None);
}

#[test]
fn cancelled_turn_is_never_end_turn() {
    let outcomes = [
        TurnOutcome::Completed,
        TurnOutcome::Interrupted,
        TurnOutcome::Error { message: "x".to_string() },
    ];
    for outcome in outcomes.iter() {
        for emitted in [false, true] {
            assert_ne!(turn_result(outcome, emitted, true), Ok(StopReason::EndTurn));
        }
    }
    assert_eq!(turn_result(&TurnOutcome::Interrupted, true, true), Ok(StopReason::Cancelled));
}

#[test]
fn startup_errors_name_each_failure() {
    assert_eq!(
        startup_error(&StartupStep::FreebucksGate { message: "5 Freebucks/hr against 0 left".to_string() }, None),
        Some("freebuff: not enough Freebucks — 5 Freebucks/hr against 0 left".to_string())
    );
    assert_eq!(
        startup_error(&StartupStep::AlreadyRunning, Some(4242)),
        Some("freebuff: already running (owner pid: 4242)".to_string())
    );
    assert_eq!(
        startup_error(&StartupStep::AlreadyRunning, None),
        Some("freebuff: already running (owner pid: unknown)".to_string())
    );
    assert_eq!(
        startup_error(&StartupStep::KickedOut, Some(1)),
        Some("freebuff: another instance took over this account".to_string())
    );
    assert_eq!(startup_error(&StartupStep::Wait, None), None);
    assert_eq!(startup_error(&StartupStep::AcceptSplash, None), None);
    assert_eq!(startup_error(&StartupStep::Ready, None), None);
}

#[test]
fn startup_timeout_and_exit_texts() {
    let snap = screen_of(&["FREEBUFF  ", "loading"]);
    assert_eq!(
        startup_timeout_error(30, 77, &snap),
        format!("startup timeout after {:?} pid=77; last screen:\nFREEBUFF\nloading", std::time::Duration::from_secs(30))
    );
    assert_eq!(
        startup_exit_error("exit status: 1", &snap),
        "freebuff exited during startup with status exit status: 1; last screen:\nFREEBUFF\nloading"
    );
}


#[test]
fn prompt_session_checks() {
    assert_eq!(prompt_session_error(None, "s"), Some("no active session".to_string()));
    assert_eq!(
        prompt_session_error(Some("blink-1-2"), "s"),
        Some("session id mismatch: expected blink-1-2, got s".to_string())
    );
    assert_eq!(prompt_session_error(Some("s"), "s"), None);
}

#[test]
fn transcript_parse_failures_fail_only_the_final_flush() {
    assert_eq!(transcript_parse_failed(0, false, "EOF"), (1, None));
    assert_eq!(
        transcript_parse_failed(3, true, "EOF while parsing"),
        (4, Some("freebuff transcript could not be parsed: EOF while parsing".to_string()))
    );
}

#[test]
fn chats_dir_joins_like_path_join() {
    assert_eq!(chats_dir("/w/proj", "/m/"), "/m/projects/proj/chats");
    assert_eq!(chats_dir("/w/proj/", "/m"), "/m/projects/proj/chats");
    assert_eq!(chats_dir("/", "/m"), "/m/projects/unknown/chats");
    assert_eq!(chats_dir("/w/a", ""), "projects/a/chats");
}

#[test]
fn transcript_step_sends_one_update_per_delta() {
    let ms = parse_messages(r#"[{"variant":"ai","blocks":[{"type":"text","textType":"reasoning","content":"hm"},{"type":"text","textType":"text","content":"PONG"}]}]"#);
    let start = Cursor::new();
    let step = transcript_step(&start, 3, ms.clone(), false);
    assert_eq!(step.failures, 0);
    assert!(step.error.is_none());
    assert!(step.emitted_message);
    assert_eq!(
        step.updates,
        vec![
            SessionUpdate::AgentThoughtChunk { content: TextContent::text("hm".to_string()) },
            SessionUpdate::AgentMessageChunk { content: TextContent::text("PONG".to_string()) },
        ]
    );
    assert_eq!(step.cursor, diff(&start, &ms.unwrap()).0);
}

#[test]
fn transcript_step_keeps_cursor_on_parse_failure() {
    let start = Cursor::new();
    let step = transcript_step(&start, 1, Err("EOF".to_string()), false);
    assert_eq!((step.failures, step.updates.len(), step.emitted_message), (2, 0, false));
    assert_eq!(step.cursor, start);
    assert!(step.error.is_none());
    let last = transcript_step(&start, 2, Err("EOF".to_string()), true);
    assert_eq!(last.error, Some("freebuff transcript could not be parsed: EOF".to_string()));
}

#[test]
fn submit_protocol_steps() {
    let none: Vec<String> = Vec::new();
    assert_eq!(
        submit_step(SubmitPhase::Start, false, &none, "", "", 10),
        (SubmitPhase::AwaitIdle, None, SubmitNext::Wait { until: SubmitCondition::Idle, secs: 10 })
    );
    assert_eq!(
        submit_step(SubmitPhase::AwaitIdle, false, &none, "", "wait_for timed out", 10),
        (SubmitPhase::Failed, None, SubmitNext::Fail { message: "freebuff is busy: wait_for timed out".to_string() })
    );
    assert_eq!(
        submit_step(SubmitPhase::AwaitIdle, true, &none, "", "", 10),
        (SubmitPhase::AwaitShown, Some(SubmitWrite::Paste), SubmitNext::Wait { until: SubmitCondition::Shown, secs: 5 })
    );
    assert_eq!(
        submit_step(SubmitPhase::AwaitShown, true, &none, "", "", 10),
        (SubmitPhase::AwaitResolved, Some(SubmitWrite::Enter), SubmitNext::Wait { until: SubmitCondition::Resolved, secs: 2 })
    );
    assert_eq!(
        submit_step(SubmitPhase::AwaitShown, false, &none, "S", "", 10).2,
        SubmitNext::Fail {
            message: "freebuff did not show the prompt text or a pasted-text chip in the input box within 5s; screen:\nS".to_string()
        }
    );
    let stuck = rows("╭──────╮\n│ hello world │\n╰──────╯");
    assert_eq!(
        submit_step(SubmitPhase::AwaitResolved, false, &stuck, "", "", 10),
        (SubmitPhase::AwaitResolvedAgain, Some(SubmitWrite::Enter), SubmitNext::Wait { until: SubmitCondition::Resolved, secs: 8 })
    );
    assert_eq!(
        submit_step(SubmitPhase::AwaitResolved, false, &none, "", "", 10).1,
        None
    );
    assert_eq!(
        submit_step(SubmitPhase::AwaitResolved, true, &none, "", "", 10),
        (SubmitPhase::Done, None, SubmitNext::Done)
    );
    assert_eq!(
        submit_step(SubmitPhase::AwaitResolvedAgain, false, &none, "S", "", 10).2,
        SubmitNext::Fail {
            message: format!("freebuff neither went busy nor consumed the prompt within {:?}; screen:\nS", std::time::Duration::from_secs(10))
        }
    );
    assert_eq!(submit_step(SubmitPhase::Done, true, &none, "", "", 10).2, SubmitNext::Stop);
    assert!(submit_condition_holds(SubmitCondition::Shown, &stuck, "hello"));
    assert!(!submit_condition_holds(SubmitCondition::Idle, &stuck, "hello"));
}
