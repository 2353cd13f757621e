use bufflink::freebuff::log::{outcome, parse_log_line, LogEvent, TurnOutcome};

const LOG_SUCCESS: &str = r#"{"level":30,"timestamp":"2026-09-19T14:37:47.705Z","pid":88366,"hostname":"mac","msg":"[send-message] Sending message with sdk run config","data":{}}
{"level":30,"timestamp":"2026-09-19T14:37:48.000Z","pid":88366,"hostname":"mac","msg":"Start agent GLM 5.3 Flash step 1","data":{}}
{"level":30,"timestamp":"2026-09-19T14:37:50.000Z","pid":88366,"hostname":"mac","msg":"End agent GLM 5.3 Flash step 1","data":{}}
{"level":30,"timestamp":"2026-09-19T14:37:51.000Z","pid":88366,"hostname":"mac","msg":"Start agent GLM 5.3 Flash step 2","data":{}}
{"level":30,"timestamp":"2026-09-19T14:37:55.000Z","pid":88366,"hostname":"mac","msg":"End agent GLM 5.3 Flash step 2","data":{}}
{"level":30,"timestamp":"2026-09-19T14:37:56.000Z","pid":88366,"hostname":"mac","msg":"Main prompt finished","data":{"outputType":"lastMessage"}}
"#;

const LOG_INTERRUPTED: &str = r#"{"level":30,"timestamp":"2026-09-19T14:40:47.705Z","pid":88366,"hostname":"mac","msg":"[send-message] Sending message with sdk run config","data":{}}
{"level":30,"timestamp":"2026-09-19T14:40:48.000Z","pid":88366,"hostname":"mac","msg":"Start agent GLM 5.3 Flash step 1","data":{}}
{"level":30,"timestamp":"2026-09-19T14:40:50.000Z","pid":88366,"hostname":"mac","msg":"End agent GLM 5.3 Flash step 1","data":{}}
{"level":30,"timestamp":"2026-09-19T14:40:51.000Z","pid":88366,"hostname":"mac","msg":"Start agent GLM 5.3 Flash step 2","data":{}}
{"level":30,"timestamp":"2026-09-19T14:41:06.000Z","pid":88366,"hostname":"mac","msg":"Agent execution failed","data":{"error":{"name":"Error","message":"user-interrupt"}}}
{"level":30,"timestamp":"2026-09-19T14:41:07.000Z","pid":88366,"hostname":"mac","msg":"Main prompt finished","data":{"outputType":"error"}}
"#;

#[test]
fn parse_log_line_turn_started() {
    let line = r#"{"level":30,"timestamp":"2026-09-19T14:37:47.705Z","pid":88366,"hostname":"mac","msg":"[send-message] Sending message with sdk run config","data":{}}"#;
    assert_eq!(parse_log_line(line), LogEvent::TurnStarted);
}

#[test]
fn parse_log_line_step_start() {
    let line = r#"{"level":30,"timestamp":"2026-09-19T14:37:48.000Z","pid":88366,"hostname":"mac","msg":"Start agent GLM 5.3 Flash step 1","data":{}}"#;
    assert_eq!(parse_log_line(line), LogEvent::StepStart { step: 1 });
}

#[test]
fn parse_log_line_step_end() {
    let line = r#"{"level":30,"timestamp":"2026-09-19T14:37:50.000Z","pid":88366,"hostname":"mac","msg":"End agent GLM 5.3 Flash step 1","data":{}}"#;
    assert_eq!(parse_log_line(line), LogEvent::StepEnd { step: 1 });
}

#[test]
fn parse_log_line_finished_success() {
    let line = r#"{"level":30,"timestamp":"2026-09-19T14:37:56.000Z","pid":88366,"hostname":"mac","msg":"Main prompt finished","data":{"outputType":"lastMessage"}}"#;
    assert_eq!(
        parse_log_line(line),
        LogEvent::Finished {
            output_type: "lastMessage".to_string()
        }
    );
}

#[test]
fn parse_log_line_finished_error() {
    let line = r#"{"level":30,"timestamp":"2026-09-19T14:41:07.000Z","pid":88366,"hostname":"mac","msg":"Main prompt finished","data":{"outputType":"error"}}"#;
    assert_eq!(
        parse_log_line(line),
        LogEvent::Finished {
            output_type: "error".to_string()
        }
    );
}

#[test]
fn parse_log_line_failed_user_interrupt() {
    let line = r#"{"level":30,"timestamp":"2026-09-19T14:41:06.000Z","pid":88366,"hostname":"mac","msg":"Agent execution failed","data":{"error":{"name":"Error","message":"user-interrupt"}}}"#;
    assert_eq!(
        parse_log_line(line),
        LogEvent::Failed {
            message: "user-interrupt".to_string()
        }
    );
}

#[test]
fn parse_log_line_failed_other() {
    let line = r#"{"level":30,"timestamp":"2026-09-19T14:41:06.000Z","pid":88366,"hostname":"mac","msg":"Agent execution failed","data":{"error":{"name":"Error","message":"timeout"}}}"#;
    assert_eq!(
        parse_log_line(line),
        LogEvent::Failed {
            message: "timeout".to_string()
        }
    );
}

#[test]
fn parse_log_line_malformed_becomes_other() {
    assert_eq!(parse_log_line("not json"), LogEvent::Other);
    assert_eq!(parse_log_line(""), LogEvent::Other);
    assert_eq!(parse_log_line("{}"), LogEvent::Other);
}

#[test]
fn outcome_completed() {
    let events = vec![
        LogEvent::TurnStarted,
        LogEvent::StepStart { step: 1 },
        LogEvent::StepEnd { step: 1 },
        LogEvent::Finished {
            output_type: "lastMessage".to_string(),
        },
    ];
    assert_eq!(outcome(&events), Some(TurnOutcome::Completed));
}

#[test]
fn outcome_interrupted() {
    let events = vec![
        LogEvent::TurnStarted,
        LogEvent::StepStart { step: 1 },
        LogEvent::Failed {
            message: "user-interrupt".to_string(),
        },
        LogEvent::Finished {
            output_type: "error".to_string(),
        },
    ];
    assert_eq!(outcome(&events), Some(TurnOutcome::Interrupted));
}

#[test]
fn outcome_error() {
    let events = vec![
        LogEvent::TurnStarted,
        LogEvent::StepStart { step: 1 },
        LogEvent::Failed {
            message: "timeout".to_string(),
        },
        LogEvent::Finished {
            output_type: "error".to_string(),
        },
    ];
    assert_eq!(
        outcome(&events),
        Some(TurnOutcome::Error {
            message: "timeout".to_string()
        })
    );
}

#[test]
fn outcome_none_until_finished() {
    let events = vec![
        LogEvent::TurnStarted,
        LogEvent::StepStart { step: 1 },
        LogEvent::StepEnd { step: 1 },
    ];
    assert_eq!(outcome(&events), None);
}

#[test]
fn parse_log_success_fixture() {
    let content = LOG_SUCCESS;
    let events: Vec<LogEvent> = content.lines().map(parse_log_line).collect();
    assert_eq!(events.len(), 6);
    assert_eq!(events[0], LogEvent::TurnStarted);
    assert_eq!(events[1], LogEvent::StepStart { step: 1 });
    assert_eq!(events[2], LogEvent::StepEnd { step: 1 });
    assert_eq!(events[3], LogEvent::StepStart { step: 2 });
    assert_eq!(events[4], LogEvent::StepEnd { step: 2 });
    assert_eq!(
        events[5],
        LogEvent::Finished {
            output_type: "lastMessage".to_string()
        }
    );
    assert_eq!(outcome(&events), Some(TurnOutcome::Completed));
}

#[test]
fn parse_log_interrupted_fixture() {
    let content = LOG_INTERRUPTED;
    let events: Vec<LogEvent> = content.lines().map(parse_log_line).collect();
    assert_eq!(events.len(), 6);
    assert_eq!(events[0], LogEvent::TurnStarted);
    assert_eq!(events[1], LogEvent::StepStart { step: 1 });
    assert_eq!(events[2], LogEvent::StepEnd { step: 1 });
    assert_eq!(events[3], LogEvent::StepStart { step: 2 });
    assert_eq!(
        events[4],
        LogEvent::Failed {
            message: "user-interrupt".to_string()
        }
    );
    assert_eq!(
        events[5],
        LogEvent::Finished {
            output_type: "error".to_string()
        }
    );
    assert_eq!(outcome(&events), Some(TurnOutcome::Interrupted));
}

#[test]
fn outcome_is_settled_by_the_first_finish() {
    let mut events = vec![
        LogEvent::Finished { output_type: "lastMessage".to_string() },
    ];
    assert_eq!(outcome(&events), Some(TurnOutcome::Completed));
    events.push(LogEvent::Failed { message: "late".to_string() });
    events.push(LogEvent::Finished { output_type: "error".to_string() });
    assert_eq!(outcome(&events), Some(TurnOutcome::Completed));
}

#[test]
fn outcome_error_without_failure_is_unknown_and_other_types_complete() {
    let events = vec![LogEvent::Finished { output_type: "error".to_string() }];
    assert_eq!(outcome(&events), Some(TurnOutcome::Error { message: "unknown".to_string() }));
    let events = vec![LogEvent::Finished { output_type: "somethingElse".to_string() }];
    assert_eq!(outcome(&events), Some(TurnOutcome::Completed));
    // The latest failure counts.
    let events = vec![
        LogEvent::Failed { message: "user-interrupt".to_string() },
        LogEvent::Failed { message: "timeout".to_string() },
        LogEvent::Finished { output_type: "error".to_string() },
    ];
    assert_eq!(outcome(&events), Some(TurnOutcome::Error { message: "timeout".to_string() }));
}

#[test]
fn parse_log_line_defaults_and_step_parsing() {
    // Missing data fields read as "unknown".
    assert_eq!(
        parse_log_line(r#"{"msg":"Main prompt finished"}"#),
        LogEvent::Finished { output_type: "unknown".to_string() }
    );
    assert_eq!(
        parse_log_line(r#"{"msg":"Agent execution failed","data":{"error":{}}}"#),
        LogEvent::Failed { message: "unknown".to_string() }
    );
    // The step number is trimmed and must be a u32.
    assert_eq!(
        parse_log_line(r#"  {"msg":"Start agent X step  42 "}  "#),
        LogEvent::StepStart { step: 42 }
    );
    assert_eq!(parse_log_line(r#"{"msg":"Start agent X step 4294967296"}"#), LogEvent::Other);
    assert_eq!(parse_log_line(r#"{"msg":"Start agent X"}"#), LogEvent::Other);
    // A second "step " ends the number's text.
    assert_eq!(parse_log_line(r#"{"msg":"End agent X step 7 step 9"}"#), LogEvent::StepEnd { step: 7 });
    // A non-string msg is Other.
    assert_eq!(parse_log_line(r#"{"msg":5}"#), LogEvent::Other);
}
