use bufflink::freebuff::screen::{
    active_model, check_active_model, classify, input_box_is_empty, input_box_text, match_model,
    model_rows, normalize_model, pasted_chip_chars, plan_select_step, ModelMatch, ModelRow,
    ScreenState, SelectStep,
};

const SPLASH_120X40: &str = "                                                      ✕
   Start coding for free   2 day streak  ●●○○○○○

   ┌──────────────────────────────────────────────────────────────────────────────┐
   │ › GLM 5.3 Flash · Deep reasoning · Reasoning: max · Images · NEW             │
   │                               5 Freebucks/hr                                 │
   └──────────────────────────────────────────────────────────────────────────────┘

   FREE · 20/25 Freebucks daily · resets in 2h 23m

   ↓  See all 4 models

   ✦ Refer friends → earn Freebucks:

   ⎘ Copy invite link  Open Earn ↵
";

const SPLASH_80X24: &str = "                                              ✕
 Start coding for free   2 day streak  ●●○○○○○

 ┌──────────────────────────────────────────────────────────────────────────┐
 │ › GLM 5.3 Flash · Deep reasoning · Reasoning: max · Images · NEW         │
 │                            5 Freebucks/hr                                │
 └──────────────────────────────────────────────────────────────────────────┘

 FREE · 20/25 Freebucks daily · resets in 2h 23m

 ↓  See all 4 models
";

const SESSION_ENDED_120X40: &str = "
   Session ended  ·  25 Freebucks left

   Press Enter to continue in a new session
   Esc  Back to models
";

const SPLASH_LIST_120X40: &str = "   Start coding for free   2 day streak  ●●○○○○○

   ┌──────────────────────────────────────────────────────────────────────────────┐
   │ › GLM 5.3 Flash · Deep reasoning · Reasoning: max · Images · NEW             │
   │                               5 Freebucks/hr                                 │
   └──────────────────────────────────────────────────────────────────────────────┘
   ┌──────────────────────────────────────────────────────────────────────────────┐
   │ MiMo 2.5 · Balanced · Images                                                 │
   │                               10 Freebucks/hr                                │
   └──────────────────────────────────────────────────────────────────────────────┘
   ┌──────────────────────────────────────────────────────────────────────────────┐
   │ Solar Pro 4 · Fast · Long context                                            │
   │                               8 Freebucks/hr                                 │
   └──────────────────────────────────────────────────────────────────────────────┘
   ┌──────────────────────────────────────────────────────────────────────────────┐
   │ DeepSeek V4.1 Flash · Fast · Reasoning                                       │
   │                     6 Freebucks/hr · Off-peak 3 Freebucks/hr                 │
   └──────────────────────────────────────────────────────────────────────────────┘

   ↑  Show fewer
";

const SPLASH_LIST_FOCUS4_120X40: &str = "   Start coding for free   2 day streak  ●●○○○○○

   ┌──────────────────────────────────────────────────────────────────────────────┐
   │ GLM 5.3 Flash · Deep reasoning · Reasoning: max · Images · NEW               │
   │                               5 Freebucks/hr                                 │
   └──────────────────────────────────────────────────────────────────────────────┘
   ┌──────────────────────────────────────────────────────────────────────────────┐
   │ MiMo 2.5 · Balanced · Images                                                 │
   │                               10 Freebucks/hr                                │
   └──────────────────────────────────────────────────────────────────────────────┘
   ┌──────────────────────────────────────────────────────────────────────────────┐
   │ Solar Pro 4 · Fast · Long context                                            │
   │                               8 Freebucks/hr                                 │
   └──────────────────────────────────────────────────────────────────────────────┘
   ┌──────────────────────────────────────────────────────────────────────────────┐
   │ › DeepSeek V4.1 Flash · Fast · Reasoning                                     │
   │                     6 Freebucks/hr · Off-peak 3 Freebucks/hr                 │
   └──────────────────────────────────────────────────────────────────────────────┘

   ↑  Show fewer
";

const SPLASH_LIST_SHOWFEWER_120X40: &str = "   Start coding for free   2 day streak  ●●○○○○○

   ┌──────────────────────────────────────────────────────────────────────────────┐
   │ GLM 5.3 Flash · Deep reasoning · Reasoning: max · Images · NEW               │
   │                               5 Freebucks/hr                                 │
   └──────────────────────────────────────────────────────────────────────────────┘
   ┌──────────────────────────────────────────────────────────────────────────────┐
   │ MiMo 2.5 · Balanced · Images                                                 │
   │                               10 Freebucks/hr                                │
   └──────────────────────────────────────────────────────────────────────────────┘
   ┌──────────────────────────────────────────────────────────────────────────────┐
   │ Solar Pro 4 · Fast · Long context                                            │
   │                               8 Freebucks/hr                                 │
   └──────────────────────────────────────────────────────────────────────────────┘
   ┌──────────────────────────────────────────────────────────────────────────────┐
   │ DeepSeek V4.1 Flash · Fast · Reasoning                                       │
   │                     6 Freebucks/hr · Off-peak 3 Freebucks/hr                 │
   └──────────────────────────────────────────────────────────────────────────────┘

 › ↑  Show fewer
";

const SPLASH_LIST_80X24_FOCUS4: &str = " ┌──────────────────────────────────────────────────────────────────────────┐
 │ GLM 5.3 Flash · Deep reasoning · Reasoning: max · Images · NEW           │█
 │                            5 Freebucks/hr                                │█
 └──────────────────────────────────────────────────────────────────────────┘█
 ┌──────────────────────────────────────────────────────────────────────────┐▀
 │ MiMo 2.5 · Balanced · Images                                             │
 │                            10 Freebucks/hr                               │
 └──────────────────────────────────────────────────────────────────────────┘
 ┌──────────────────────────────────────────────────────────────────────────┐
 │ Solar Pro 4 · Fast · Long context                                        │
 │                            8 Freebucks/hr                                │
 └──────────────────────────────────────────────────────────────────────────┘
 ┌──────────────────────────────────────────────────────────────────────────┐▄
 │ › DeepSeek V4.1 Flash · Fast · Reasoning
";

const SPLASH_LIST_80X24_FOCUS1: &str = " Start coding for free   2 day streak  ●●○○○○○

 ┌──────────────────────────────────────────────────────────────────────────┐█
 │ › GLM 5.3 Flash · Deep reasoning · Reasoning: max · Images · NEW         │█
 │                            5 Freebucks/hr                                │█
 └──────────────────────────────────────────────────────────────────────────┘▀
 ┌──────────────────────────────────────────────────────────────────────────┐
 │ MiMo 2.5 · Balanced · Images                                             │
 │                            10 Freebucks/hr                               │
 └──────────────────────────────────────────────────────────────────────────┘
 ┌──────────────────────────────────────────────────────────────────────────┐
 │ Solar Pro 4 · Fast · Long context                                        │
 │                            8 Freebucks/hr                                │
 └──────────────────────────────────────────────────────────────────────────┘
";

const IDLE_120X40: &str = "  ███████ ██████  ███████ ███████ ██████  ██    ██ ███████ ███████
  Freebuff will run commands on your behalf to help you build.

  Directory /private/tmp/bufflink-probe

  GLM 5.3 Flash · 1h left                                              ✕ End session
╭──────────────────────────────────────────────────────────────────────╮
│  ▍Enter a coding task or / for commands                              │
│                                                                      │
╰──────────────────────────────────────────────────────────────────────╯
";

const IDLE_MIDHOUR_120X40: &str = "  Freebuff will run commands on your behalf to help you build.

  Directory /private/tmp/bufflink-probe

  MiMo 2.5 · 58m left                                                  ✕ End session
╭──────────────────────────────────────────────────────────────────────╮
│  ▍Enter a coding task or / for commands                              │
│                                                                      │
╰──────────────────────────────────────────────────────────────────────╯
";

const BUSY_120X40: &str = "  [02:41 PM] Reply with exactly the single word PONG. ⎘

  • Thinking
    The user wants a single word.

  thinking... 4s  ■ Esc
╭──────────────────────────────────────────────────────────────────────╮
│  ▍Enter a coding task or / for commands                              │
│                                                                      │
╰──────────────────────────────────────────────────────────────────────╯
";

const BUSY_FIRST_INSTANT_120X40: &str = "  [02:41 PM] Reply with exactly the single word PONG. ⎘

  working...   ■ Esc
╭──────────────────────────────────────────────────────────────────────╮
│  ▍Enter a coding task or / for commands                              │
│                                                                      │
╰──────────────────────────────────────────────────────────────────────╯
";

const AFTER_ESC: &str = "  [02:43 PM] Count slowly from one to one hundred. ⎘

  • Thinking
    Counting slowly [...] [response interrupted]

  GLM 5.3 Flash · 59m left · 16.4K (2%)                                ✕ End session
╭──────────────────────────────────────────────────────────────────────╮
│  ▍Enter a coding task or / for commands                              │
│                                                                      │
╰──────────────────────────────────────────────────────────────────────╯
";

const KICKED_OUT: &str = "
  Another freebuff instance took over this account.
  Only one CLI per account can be active at a time.
  Close the other instance, then restart freebuff here.
  Press Ctrl+C to exit.
";

const FREEBUCKS_GATE_80X24: &str = " Start coding for free   2 day streak  ●●○○○○○

 ┌──────────────────────────────────────────────────────────────────────────┐
 │ › GLM 5.3 Flash · Deep reasoning · Reasoning: max · Images · NEW         │
 │ Not enough Freebucks — 5 Freebucks/hr against 0 left. Enter opens plans. │
 └──────────────────────────────────────────────────────────────────────────┘

 FREE · 0/25 Freebucks daily · resets in 2h 12m
";

const SLASH_MENU: &str = "  GLM 5.3 Flash · 56m left · 20.7K (2%)                                ✕ End session
  /help          Show help
  /diagnostics   Show diagnostics
  /plan          Plan a change
  /review        Review changes
  /new           Start a new chat
╭──────────────────────────────────────────────────────────────────────╮
│  /▍                                                                  │
│                                                                      │
╰──────────────────────────────────────────────────────────────────────╯
";

const PASTE_CHIP_120X40: &str = "  Freebuff will run commands on your behalf to help you build.

  GLM 5.3 Flash · 1h left                                              ✕ End session
  📋 Pasted text (5,001 chars)
╭──────────────────────────────────────────────────────────────────────╮
│  ▍Enter a coding task or / for commands                              │
│                                                                      │
╰──────────────────────────────────────────────────────────────────────╯
";

fn load_fixture(name: &str) -> Vec<String> {
    let content = match name {
        "splash-120x40" => SPLASH_120X40,
        "splash-80x24" => SPLASH_80X24,
        "session-ended-120x40" => SESSION_ENDED_120X40,
        "splash-list-120x40" => SPLASH_LIST_120X40,
        "splash-list-focus4-120x40" => SPLASH_LIST_FOCUS4_120X40,
        "splash-list-showfewer-120x40" => SPLASH_LIST_SHOWFEWER_120X40,
        "splash-list-80x24-focus4" => SPLASH_LIST_80X24_FOCUS4,
        "splash-list-80x24-focus1" => SPLASH_LIST_80X24_FOCUS1,
        "idle-120x40" => IDLE_120X40,
        "idle-midhour-120x40" => IDLE_MIDHOUR_120X40,
        "busy-120x40" => BUSY_120X40,
        "busy-first-instant-120x40" => BUSY_FIRST_INSTANT_120X40,
        "after-esc" => AFTER_ESC,
        "kicked-out" => KICKED_OUT,
        "freebucks-gate-80x24" => FREEBUCKS_GATE_80X24,
        "slash-menu" => SLASH_MENU,
        "paste-chip-120x40" => PASTE_CHIP_120X40,
        _ => panic!("unknown fixture: {}", name),
    };
    content.lines().map(|s| s.to_string()).collect()
}

#[test]
fn splash_120x40_classifies_as_model_splash() {
    let rows = load_fixture("splash-120x40");
    assert_eq!(classify(&rows), ScreenState::ModelSplash);
}

#[test]
fn splash_80x24_classifies_as_model_splash() {
    let rows = load_fixture("splash-80x24");
    assert_eq!(classify(&rows), ScreenState::ModelSplash);
}

#[test]
fn session_ended_classifies_as_session_ended() {
    let rows = load_fixture("session-ended-120x40");
    assert_eq!(classify(&rows), ScreenState::SessionEnded);
}

#[test]
fn session_ended_needs_both_markers() {
    let only_banner = vec!["Session ended  ·  25 Freebucks left".to_string()];
    assert_ne!(classify(&only_banner), ScreenState::SessionEnded);
    let only_enter = vec!["Press Enter to continue in a new session".to_string()];
    assert_ne!(classify(&only_enter), ScreenState::SessionEnded);
}

#[test]
fn expanded_list_classifies_as_model_list() {
    for name in [
        "splash-list-120x40",
        "splash-list-focus4-120x40",
        "splash-list-showfewer-120x40",
        "splash-list-80x24-focus4",
        "splash-list-80x24-focus1",
    ] {
        let rows = load_fixture(name);
        assert_eq!(classify(&rows), ScreenState::ModelList, "{name}");
    }
}

#[test]
fn collapsed_splash_still_classifies_as_model_splash() {
    for name in ["splash-120x40", "splash-80x24"] {
        let rows = load_fixture(name);
        assert_eq!(model_rows(&rows).len(), 1, "{name}");
        assert_eq!(classify(&rows), ScreenState::ModelSplash, "{name}");
    }
}

#[test]
fn model_rows_parses_expanded_list() {
    let rows = load_fixture("splash-list-120x40");
    let models = model_rows(&rows);
    let names: Vec<&str> = models.iter().map(|m| m.name.as_str()).collect();
    assert_eq!(
        names,
        ["GLM 5.3 Flash", "MiMo 2.5", "Solar Pro 4", "DeepSeek V4.1 Flash"]
    );
    assert!(models[0].focused);
    assert!(models[1..].iter().all(|m| !m.focused));
    assert_eq!(models[0].cost_line.as_deref(), Some("5 Freebucks/hr"));
    assert_eq!(models[1].cost_line.as_deref(), Some("10 Freebucks/hr"));
    assert!(
        models[3]
            .cost_line
            .as_deref()
            .is_some_and(|c| c.contains("Off-peak")),
        "deepseek cost line: {:?}",
        models[3].cost_line
    );
}

#[test]
fn model_rows_tracks_focus_on_fourth() {
    let rows = load_fixture("splash-list-focus4-120x40");
    let models = model_rows(&rows);
    assert_eq!(models.len(), 4);
    assert_eq!(models[3].name, "DeepSeek V4.1 Flash");
    assert!(models[3].focused);
    assert!(models[..3].iter().all(|m| !m.focused));
}

#[test]
fn model_rows_tolerates_partial_box_at_80x24() {
    let rows = load_fixture("splash-list-80x24-focus4");
    let models = model_rows(&rows);
    let names: Vec<&str> = models.iter().map(|m| m.name.as_str()).collect();
    assert_eq!(
        names,
        ["GLM 5.3 Flash", "MiMo 2.5", "Solar Pro 4", "DeepSeek V4.1 Flash"]
    );
    assert!(models[3].focused);
    assert_eq!(models[3].cost_line, None);
    let rows = load_fixture("splash-list-80x24-focus1");
    let models = model_rows(&rows);
    assert_eq!(models.len(), 3);
    assert!(models[0].focused);
}

#[test]
fn model_rows_empty_on_show_fewer_focus() {
    let rows = load_fixture("splash-list-showfewer-120x40");
    let models = model_rows(&rows);
    assert_eq!(models.len(), 4);
    assert!(models.iter().all(|m| !m.focused));
    assert!(rows.iter().any(|r| r.contains("Show fewer")));
}

#[test]
fn normalize_model_ignores_case_and_separators() {
    assert_eq!(normalize_model("DeepSeek V4.1 Flash"), "deepseekv41flash");
    assert_eq!(
        normalize_model("deepseek/deepseek-v4.1-flash"),
        "deepseekdeepseekv41flash"
    );
    assert_eq!(normalize_model("z-ai/glm-5.3-flash"), "zaiglm53flash");
    assert_eq!(normalize_model("MiMo_2.5"), "mimo25");
}

#[test]
fn match_model_table() {
    let offered = ["GLM 5.3 Flash", "MiMo 2.5", "Solar Pro 4", "DeepSeek V4.1 Flash"]
        .iter()
        .map(|s| s.to_string())
        .collect::<Vec<_>>();
    let cases: &[(&str, ModelMatch)] = &[
        ("deepseek/deepseek-v4.1-flash", ModelMatch::One(3)),
        ("deepseek-v4-1-flash", ModelMatch::One(3)),
        ("DeepSeek V4.1 Flash", ModelMatch::One(3)),
        ("glm-5.3-flash", ModelMatch::One(0)),
        ("z-ai/glm-5.3-flash", ModelMatch::One(0)),
        ("mimo-2.5", ModelMatch::One(1)),
        ("solar", ModelMatch::One(2)),
        (
            "deepseek-v4-pro",
            ModelMatch::Unmatched {
                offered: offered.clone(),
            },
        ),
        (
            "",
            ModelMatch::Unmatched {
                offered: offered.clone(),
            },
        ),
        (
            "flash",
            ModelMatch::Ambiguous(vec![
                "GLM 5.3 Flash".to_string(),
                "DeepSeek V4.1 Flash".to_string(),
            ]),
        ),
    ];
    for (target, expected) in cases {
        assert_eq!(&match_model(target, &offered), expected, "target: {target}");
    }
}

#[test]
fn plan_select_step_table() {
    let rows = |focused: Option<usize>| {
        ["GLM 5.3 Flash", "MiMo 2.5", "Solar Pro 4", "DeepSeek V4.1 Flash"]
            .iter()
            .enumerate()
            .map(|(i, n)| ModelRow {
                name: n.to_string(),
                focused: Some(i) == focused,
                cost_line: None,
            })
            .collect::<Vec<_>>()
    };
    assert_eq!(
        plan_select_step("mimo", &rows(Some(1)), false, 0),
        SelectStep::Accept
    );
    assert_eq!(
        plan_select_step("deepseek", &rows(Some(0)), false, 0),
        SelectStep::Down
    );
    assert_eq!(
        plan_select_step("deepseek", &rows(Some(2)), true, 3),
        SelectStep::Down
    );
    assert!(matches!(
        plan_select_step("zephyr", &rows(Some(0)), false, 0),
        SelectStep::Down
    ));
    match plan_select_step("zephyr", &rows(None), true, 5) {
        SelectStep::NotOffered { offered } => assert_eq!(offered.len(), 4),
        other => panic!("expected NotOffered, got {other:?}"),
    }
    match plan_select_step("deepseek", &rows(None), true, 5) {
        SelectStep::NotOffered { offered } => assert_eq!(offered.len(), 4),
        other => panic!("expected NotOffered, got {other:?}"),
    }
    match plan_select_step("deepseek", &rows(Some(0)), false, 12) {
        SelectStep::NotOffered { offered } => assert_eq!(offered.len(), 4),
        other => panic!("expected NotOffered, got {other:?}"),
    }
    match plan_select_step("flash", &rows(Some(0)), false, 0) {
        SelectStep::Ambiguous(names) => assert_eq!(names.len(), 2),
        other => panic!("expected Ambiguous, got {other:?}"),
    }
}

#[test]
fn idle_120x40_classifies_as_idle() {
    let rows = load_fixture("idle-120x40");
    assert_eq!(classify(&rows), ScreenState::Idle);
}

#[test]
fn active_model_reads_both_idle_fixtures() {
    let rows = load_fixture("idle-midhour-120x40");
    assert_eq!(classify(&rows), ScreenState::Idle);
    assert_eq!(
        active_model(&rows),
        Some(("MiMo 2.5".to_string(), "58m left".to_string()))
    );
    let rows = load_fixture("idle-120x40");
    assert_eq!(
        active_model(&rows),
        Some(("GLM 5.3 Flash".to_string(), "1h left".to_string()))
    );
}

#[test]
fn active_model_table() {
    let cases: &[(&str, Option<(&str, &str)>)] = &[
        (
            " GLM 5.3 Flash · 59m left · 16.4K (2%)      ✕ End session",
            Some(("GLM 5.3 Flash", "59m left")),
        ),
        (
            " MiMo 2.5 · 58m left                    ✕ End session",
            Some(("MiMo 2.5", "58m left")),
        ),
        (
            " GLM 5.3 Flash · 1h left                    ✕ End session",
            Some(("GLM 5.3 Flash", "1h left")),
        ),
        (" Session ended · 25 Freebucks left", None),
        (" 5 Freebucks/hr", None),
        (" MiMo 2.5 · Balanced · Images", None),
        ("MiMo 2.5 58m left", None),
        (" · 58m left", None),
        (" Thinking · 5m left on the problem", None),
        ("nothing here", None),
    ];
    for (input, expected) in cases {
        let rows = vec![input.to_string()];
        let expected = expected.map(|(n, t)| (n.to_string(), t.to_string()));
        assert_eq!(active_model(&rows), expected, "input: {input}");
    }
    for name in ["splash-120x40", "splash-list-120x40"] {
        let rows = load_fixture(name);
        assert_eq!(active_model(&rows), None, "{name}");
    }
}

#[test]
fn active_model_rejects_transcript_like_row() {
    let rows = vec![" Thinking · 5m left on the problem".to_string()];
    assert_eq!(active_model(&rows), None);
}

#[test]
fn check_active_model_table() {
    assert_eq!(check_active_model("mimo-2.5", "MiMo 2.5", "58m left"), Ok(()));
    assert_eq!(
        check_active_model("glm-5.3-flash", "GLM 5.3 Flash", "1h left"),
        Ok(())
    );
    assert_eq!(
        check_active_model("deepseek-v4-pro", "MiMo 2.5", "58m left"),
        Err("freebuff: an hour on 'MiMo 2.5' is already running (58m left); requested 'deepseek-v4-pro' — wait for it to end or unset BLINK_MODEL".to_string())
    );
    assert_eq!(
        check_active_model("mimo", "GLM 5.3 Flash", "1h left"),
        Err("freebuff: an hour on 'GLM 5.3 Flash' is already running (1h left); requested 'mimo' — wait for it to end or unset BLINK_MODEL".to_string())
    );
}

#[test]
fn busy_120x40_classifies_as_busy() {
    let rows = load_fixture("busy-120x40");
    let state = classify(&rows);
    assert!(matches!(state, ScreenState::Busy { .. }));
    if let ScreenState::Busy { elapsed_s } = state {
        assert_eq!(elapsed_s, Some(4));
    }
}

#[test]
fn busy_first_instant_classifies_busy_without_elapsed() {
    let rows = load_fixture("busy-first-instant-120x40");
    let state = classify(&rows);
    assert_eq!(state, ScreenState::Busy { elapsed_s: None });
    assert!(input_box_is_empty(&rows));
}

#[test]
fn after_esc_classifies_as_idle() {
    let rows = load_fixture("after-esc");
    assert_eq!(classify(&rows), ScreenState::Idle);
}

#[test]
fn already_running_dialog_classifies_as_already_running() {
    let rows = vec![
        "Freebuff is already running".to_string(),
        "Only one freebuff instance is allowed at a time.".to_string(),
    ];
    assert_eq!(classify(&rows), ScreenState::AlreadyRunning);
}

#[test]
fn kicked_out_classifies_as_kicked_out() {
    let rows = load_fixture("kicked-out");
    assert_eq!(classify(&rows), ScreenState::KickedOut);
}

#[test]
fn freebucks_gate_classifies_as_freebucks_gate() {
    let rows = load_fixture("freebucks-gate-80x24");
    let state = classify(&rows);
    assert!(matches!(state, ScreenState::FreebucksGate { .. }));
    if let ScreenState::FreebucksGate { message } = state {
        assert!(message.contains("Not enough Freebucks"));
        assert!(message.contains("5 Freebucks/hr against 0 left"));
    }
}

#[test]
fn slash_menu_classifies_as_idle_or_unknown() {
    let rows = load_fixture("slash-menu");
    let state = classify(&rows);
    assert_eq!(state, ScreenState::Idle);
}

#[test]
fn input_box_text_extracts_content() {
    let rows = load_fixture("idle-120x40");
    let text = input_box_text(&rows);
    assert_eq!(
        text,
        Some("Enter a coding task or / for commands".to_string())
    );
}

#[test]
fn input_box_text_empty_when_placeholder() {
    let rows = load_fixture("idle-120x40");
    assert!(input_box_is_empty(&rows));
}

#[test]
fn input_box_text_with_user_input() {
    let rows = vec![
        "╭────────────────────────────────────────╮".to_string(),
        "│  ▍some user input                      │".to_string(),
        "│                                        │".to_string(),
        "╰────────────────────────────────────────╯".to_string(),
    ];
    let text = input_box_text(&rows);
    assert_eq!(text, Some("some user input".to_string()));
    assert!(!input_box_is_empty(&rows));
}

#[test]
fn input_box_text_none_when_no_box() {
    let rows = vec!["Just some text".to_string(), "More text".to_string()];
    assert_eq!(input_box_text(&rows), None);
}

#[test]
fn paste_chip_parses_count() {
    let rows = load_fixture("paste-chip-120x40");
    assert_eq!(pasted_chip_chars(&rows), Some(5001));
}

#[test]
fn paste_chip_none_when_no_chip() {
    let rows = load_fixture("idle-120x40");
    assert_eq!(pasted_chip_chars(&rows), None);
}

#[test]
fn paste_chip_classifies_as_idle() {
    let rows = load_fixture("paste-chip-120x40");
    assert_eq!(classify(&rows), ScreenState::Idle);
}

#[test]
fn pasted_chip_chars_edge_cases() {
    let cases = [
        (" 📋 Pasted text (12,345 chars)", Some(12345)),
        ("Pasted text (0 chars)", Some(0)),
        ("note before 📋 Pasted text (7 chars) and after", Some(7)),
        ("Pasted text (chars)", None),
        ("nothing here", None),
    ];
    for (input, expected) in cases {
        assert_eq!(
            pasted_chip_chars(&[input.to_string()]),
            expected,
            "input: {input}"
        );
    }
}

#[test]
fn accept_only_on_the_focused_unique_match() {
    let rows = vec![
        ModelRow { name: "GLM 5.3 Flash".to_string(), focused: true, cost_line: None },
        ModelRow { name: "DeepSeek V4.1 Flash".to_string(), focused: false, cost_line: None },
    ];
    // Two rows match "flash": never Enter, even with focus on one of them.
    assert!(matches!(plan_select_step("flash", &rows, false, 0), SelectStep::Ambiguous(_)));
    // The unique match is focused: Enter.
    assert_eq!(plan_select_step("glm", &rows, false, 0), SelectStep::Accept);
    // The unique match is not focused: walk down.
    assert_eq!(plan_select_step("deepseek", &rows, false, 0), SelectStep::Down);
}

#[test]
fn input_box_text_joins_lines_and_drops_cursor() {
    let rows = vec![
        "status".to_string(),
        "╭──────╮".to_string(),
        "│ ▍line one │".to_string(),
        "│   line two   │".to_string(),
        "╰──────╯".to_string(),
        "│ after the box │".to_string(),
    ];
    assert_eq!(input_box_text(&rows), Some("line one\nline two".to_string()));
    let empty = vec!["╭──╮".to_string(), "│ ▍ │".to_string(), "╰──╯".to_string()];
    assert_eq!(input_box_text(&empty), Some(String::new()));
    assert!(input_box_is_empty(&empty));
}

#[test]
fn pasted_chip_chars_rejects_overflow_and_takes_first_chip() {
    assert_eq!(pasted_chip_chars(&["Pasted text (18,446,744,073,709,551,616 chars)".to_string()]), None);
    assert_eq!(pasted_chip_chars(&["Pasted text (18,446,744,073,709,551,615 chars)".to_string()]), Some(u64::MAX));
    let rows = vec!["Pasted text (12 chars)".to_string(), "Pasted text (34 chars)".to_string()];
    assert_eq!(pasted_chip_chars(&rows), Some(12));
}

#[test]
fn normalize_model_ignores_every_whitespace() {
    assert_eq!(normalize_model("MiMo\n2.5"), "mimo25");
    assert_eq!(normalize_model("GLM\u{a0}5.3\r\nFlash"), "glm53flash");
}

#[test]
fn input_box_text_of_an_indented_box() {
    let rows: Vec<String> = ["  ╭─────╮", "  │ abc │", "  ╰─────╯"].iter().map(|s| s.to_string()).collect();
    assert_eq!(input_box_text(&rows), Some("abc".to_string()));
}
