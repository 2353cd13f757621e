use bufflink::pty::reader::{kind_for, reply_bytes, scan, split_chunk, strict_prefix, QueryKind};
use bufflink::pty::{
    build_env, paste_bytes, spawn_decision, upsert, Key, PtyConfig, ScreenSnapshot, SpawnDecision,
    SpawnFailure,
};

fn snap(rows: &[&str]) -> ScreenSnapshot {
    ScreenSnapshot {
        rows: rows.iter().map(|s| s.to_string()).collect(),
        cursor: (0, 0),
        alternate_screen: false,
        generation: 0,
    }
}

#[test]
fn key_bytes() {
    assert_eq!(Key::Enter.bytes(), b"\r".to_vec());
    assert_eq!(Key::Escape.bytes(), b"\x1b".to_vec());
    assert_eq!(Key::CtrlC.bytes(), b"\x03".to_vec());
    assert_eq!(Key::Down.bytes(), b"\x1b[B".to_vec());
    assert_eq!(Key::Left.bytes(), b"\x1b[D".to_vec());
    assert_eq!(Key::Backspace.bytes(), b"\x7f".to_vec());
}

#[test]
fn bracketed_paste_bytes() {
    assert_eq!(paste_bytes("a\nb"), b"\x1b[200~a\nb\x1b[201~".to_vec());
    assert_eq!(paste_bytes("é"), "\x1b[200~é\x1b[201~".as_bytes().to_vec());
}

#[test]
fn snapshot_text_and_search() {
    let s = snap(&["hello   ", "  world", ""]);
    assert_eq!(s.text(), "hello\n  world\n");
    assert!(s.contains("o\n  w"));
    assert!(!s.contains("hello   "));
    assert_eq!(s.find_row("world"), Some(1));
    assert_eq!(s.find_row("l"), Some(0));
    assert_eq!(s.find_row("zzz"), None);
    assert_eq!(snap(&[]).text(), "");
}

#[test]
fn env_overrides_and_term() {
    let mut env = vec![("A".to_string(), "1".to_string())];
    upsert(&mut env, "A".to_string(), "2".to_string());
    upsert(&mut env, "B".to_string(), "3".to_string());
    assert_eq!(env, vec![("A".to_string(), "2".to_string()), ("B".to_string(), "3".to_string())]);
    let cfg = PtyConfig {
        program: "p".to_string(),
        args: vec![],
        cwd: None,
        env: vec![("X".to_string(), "y".to_string())],
        cols: 80,
        rows: 24,
    };
    let out = build_env(&cfg, vec![("TERM".to_string(), "dumb".to_string()), ("X".to_string(), "old".to_string())]);
    assert_eq!(
        out,
        vec![("TERM".to_string(), "xterm-256color".to_string()), ("X".to_string(), "y".to_string())]
    );
    let cfg2 = PtyConfig { env: vec![("TERM".to_string(), "vt100".to_string())], ..cfg };
    let out = build_env(&cfg2, vec![]);
    assert_eq!(out, vec![("TERM".to_string(), "vt100".to_string())]);
}

#[test]
fn scan_finds_queries_and_holds_split_tail() {
    let mut out = Vec::new();
    let data = b"ab\x1b[6ncd\x1b]11;?\x07\x1b]10;?\x1b\\\x1b[?u\x1b[";
    let n = scan(data, &mut out);
    assert_eq!(
        out,
        vec![QueryKind::CursorReport, QueryKind::SetBg, QueryKind::SetFg, QueryKind::KittyKeyboard]
    );
    assert_eq!(n, data.len() - 2);
    let mut out = Vec::new();
    assert_eq!(scan(b"plain text", &mut out), 10);
    assert!(out.is_empty());
    assert!(strict_prefix(b"\x1b[", b"\x1b[6n"));
    assert!(!strict_prefix(b"", b"\x1b[6n"));
    assert!(!strict_prefix(b"\x1b[6n", b"\x1b[6n"));
    assert_eq!(kind_for(b"\x1b]11;?\x1b\\"), QueryKind::SetBg);
    assert_eq!(kind_for(b"\x1b]10;?\x07"), QueryKind::SetFg);
}

#[test]
fn split_chunk_joins_a_query_across_reads() {
    let (parse, kinds, carry) = split_chunk(Vec::new(), b"hi\x1b]1");
    assert_eq!(parse, b"hi".to_vec());
    assert!(kinds.is_empty());
    assert_eq!(carry, b"\x1b]1".to_vec());
    let (parse, kinds, carry) = split_chunk(carry, b"1;?\x07!");
    assert_eq!(parse, b"\x1b]11;?\x07!".to_vec());
    assert_eq!(kinds, vec![QueryKind::SetBg]);
    assert!(carry.is_empty());
}

#[test]
fn replies() {
    assert_eq!(reply_bytes(QueryKind::CursorReport, (0, 0)), b"\x1b[1;1R".to_vec());
    assert_eq!(reply_bytes(QueryKind::CursorReport, (23, 79)), b"\x1b[24;80R".to_vec());
    assert_eq!(reply_bytes(QueryKind::KittyKeyboard, (0, 0)), b"\x1b[?0u".to_vec());
    assert_eq!(reply_bytes(QueryKind::SetBg, (0, 0)), b"\x1b]11;rgb:0000/0000/0000\x1b\\".to_vec());
    assert_eq!(reply_bytes(QueryKind::SetFg, (0, 0)), b"\x1b]10;rgb:ffff/ffff/ffff\x1b\\".to_vec());
}

#[test]
fn reader_step_feeds_screen_and_answers_queries() {
    let mut term = bufflink::pty::term::term_new(5, 20);
    let (replies, rest) = bufflink::pty::term::reader_step(&mut term, Vec::new(), b"hello\x1b[6n");
    assert_eq!(replies, b"\x1b[1;6R".to_vec());
    assert!(rest.is_empty());
    let snap = bufflink::pty::term::term_snapshot(&term, 7);
    assert_eq!(snap.rows.len(), 5);
    assert_eq!(snap.rows[0], "hello");
    assert_eq!(snap.cursor, (0, 5));
    assert!(!snap.alternate_screen);
    assert_eq!(snap.generation, 7);
}

#[test]
fn reader_step_holds_back_a_split_query() {
    let mut term = bufflink::pty::term::term_new(5, 20);
    let (replies, rest) = bufflink::pty::term::reader_step(&mut term, Vec::new(), b"ab\x1b[");
    assert!(replies.is_empty());
    assert_eq!(rest, b"\x1b[".to_vec());
    let (replies, rest) = bufflink::pty::term::reader_step(&mut term, rest, b"6n");
    assert_eq!(replies, b"\x1b[1;3R".to_vec());
    assert!(rest.is_empty());
    let (replies, _) = bufflink::pty::term::reader_step(&mut term, Vec::new(), b"\x1b[?1049h");
    assert!(replies.is_empty());
    let snap = bufflink::pty::term::term_snapshot(&term, 0);
    assert!(snap.alternate_screen);
}

#[test]
fn spawn_retry_policy() {
    assert_eq!(spawn_decision(1, SpawnFailure::Terminal, "p"), SpawnDecision::Retry { delay_ms: 25 });
    assert_eq!(spawn_decision(4, SpawnFailure::Terminal, "p"), SpawnDecision::Retry { delay_ms: 100 });
    assert_eq!(spawn_decision(5, SpawnFailure::Terminal, "p"), SpawnDecision::GiveUp { context: None });
    let race = SpawnFailure::Program { not_found: true, program_exists: true };
    assert_eq!(spawn_decision(2, race, "/bin/x"), SpawnDecision::Retry { delay_ms: 50 });
    assert_eq!(
        spawn_decision(5, race, "/bin/x"),
        SpawnDecision::GiveUp { context: Some("failed to spawn `/bin/x` in pty".to_string()) }
    );
    let missing = SpawnFailure::Program { not_found: true, program_exists: false };
    assert_eq!(
        spawn_decision(1, missing, "nope"),
        SpawnDecision::GiveUp { context: Some("program `nope` does not exist".to_string()) }
    );
    let other = SpawnFailure::Program { not_found: false, program_exists: true };
    assert_eq!(
        spawn_decision(1, other, "/bin/x"),
        SpawnDecision::GiveUp { context: Some("failed to spawn `/bin/x` in pty".to_string()) }
    );
}

#[test]
fn build_env_last_value_wins_and_keys_stay_distinct() {
    let kv = |k: &str, v: &str| (k.to_string(), v.to_string());
    let cfg = PtyConfig {
        program: "p".to_string(),
        args: vec![],
        cwd: None,
        env: vec![kv("A", "1"), kv("B", "2"), kv("A", "3")],
        cols: 80,
        rows: 24,
    };
    let out = build_env(&cfg, vec![kv("HOME", "/h"), kv("A", "0")]);
    assert_eq!(out, vec![kv("HOME", "/h"), kv("A", "3"), kv("B", "2"), kv("TERM", "xterm-256color")]);
}
