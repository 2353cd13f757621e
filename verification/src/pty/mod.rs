//! The pure parts of the PTY driver: key codes, the screen snapshot, the
//! child's configuration and environment, and the bytes written for a
//! paste. Spawning, reading and writing live in the application.

pub mod reader;
pub mod term;

use vstd::prelude::*;
use vstd::utf8::encode_utf8;

use crate::json::same_text;
use crate::text::{chars_of, string_from, strip_end, ws, includes, has_chars};

verus! {

/// Configuration for spawning a child inside a new pseudo-terminal.
#[derive(Debug, Clone)]
pub struct PtyConfig {
    /// The program to exec.
    pub program: String,
    /// Arguments passed to `program`.
    pub args: Vec<String>,
    /// Working directory for the child; `None` inherits ours.
    pub cwd: Option<String>,
    /// Extra environment, **added to** the inherited environment. A `TERM`
    /// entry here overrides our default; otherwise `TERM=xterm-256color` is
    /// always set.
    pub env: Vec<(String, String)>,
    /// Initial terminal width in columns.
    pub cols: u16,
    /// Initial terminal height in rows.
    pub rows: u16,
}

/// A single key press, mapped to the raw byte sequence we send to the PTY.
#[derive(Debug, Clone, Copy, PartialEq, Eq)]
pub enum Key {
    Enter,
    Escape,
    CtrlC,
    CtrlD,
    Up,
    Down,
    Left,
    Right,
    Tab,
    Backspace,
}

/// The bytes that a key press sends.
pub open spec fn key_bytes(k: Key) -> Seq<u8> {
    match k {
        Key::Enter => seq![0x0du8],
        Key::Escape => seq![0x1bu8],
        Key::CtrlC => seq![0x03u8],
        Key::CtrlD => seq![0x04u8],
        Key::Up => seq![0x1bu8, 0x5bu8, 0x41u8],
        Key::Down => seq![0x1bu8, 0x5bu8, 0x42u8],
        Key::Right => seq![0x1bu8, 0x5bu8, 0x43u8],
        Key::Left => seq![0x1bu8, 0x5bu8, 0x44u8],
        Key::Tab => seq![0x09u8],
        Key::Backspace => seq![0x7fu8],
    }
}

impl Key {
    /// The raw bytes sent for this key.
    pub fn bytes(self) -> (b: Vec<u8>)
        ensures
            b@ == key_bytes(self),
    {
        match self {
            Key::Enter => vec![0x0du8],
            Key::Escape => vec![0x1bu8],
            Key::CtrlC => vec![0x03u8],
            Key::CtrlD => vec![0x04u8],
            Key::Up => vec![0x1bu8, 0x5bu8, 0x41u8],
            Key::Down => vec![0x1bu8, 0x5bu8, 0x42u8],
            Key::Right => vec![0x1bu8, 0x5bu8, 0x43u8],
            Key::Left => vec![0x1bu8, 0x5bu8, 0x44u8],
            Key::Tab => vec![0x09u8],
            Key::Backspace => vec![0x7fu8],
        }
    }
}

/// The bytes of `ESC[200~`, which opens a bracketed paste.
pub open spec fn paste_open() -> Seq<u8> {
    seq![0x1bu8, 0x5bu8, 0x32u8, 0x30u8, 0x30u8, 0x7eu8]
}

/// The bytes of `ESC[201~`, which closes a bracketed paste.
pub open spec fn paste_close() -> Seq<u8> {
    seq![0x1bu8, 0x5bu8, 0x32u8, 0x30u8, 0x31u8, 0x7eu8]
}

/// The bytes written to paste `s` in bracketed paste mode:
/// `ESC[200~` + the UTF-8 bytes of `s` + `ESC[201~`.
pub fn paste_bytes(s: &str) -> (b: Vec<u8>)
    ensures
        b@ == paste_open() + encode_utf8(s@) + paste_close(),
{
    let mut b: Vec<u8> = vec![0x1bu8, 0x5bu8, 0x32u8, 0x30u8, 0x30u8, 0x7eu8];
    let body = s.as_bytes();
    let ghost start = b@;
    let mut i: usize = 0;
    while i < body.len()
        invariant
            i <= body@.len(),
            b@ == start + body@.take(i as int),
        decreases body@.len() - i,
    {
        b.push(body[i]);
        assert(body@.take(i + 1) == body@.take(i as int).push(body@[i as int]));
        i = i + 1;
    }
    assert(body@.take(body@.len() as int) == body@);
    let close: Vec<u8> = vec![0x1bu8, 0x5bu8, 0x32u8, 0x30u8, 0x31u8, 0x7eu8];
    let ghost mid = b@;
    let mut j: usize = 0;
    while j < close.len()
        invariant
            j <= close@.len(),
            close@ == paste_close(),
            b@ == mid + close@.take(j as int),
        decreases close@.len() - j,
    {
        b.push(close[j]);
        assert(close@.take(j + 1) == close@.take(j as int).push(close@[j as int]));
        j = j + 1;
    }
    assert(close@.take(6) == close@);
    b
}

/// A cheap snapshot of the current terminal screen model.
#[derive(Debug)]
pub struct ScreenSnapshot {
    /// One `String` per terminal row, in top-to-bottom order.
    pub rows: Vec<String>,
    /// The (0-based) row/col of the cursor.
    pub cursor: (u16, u16),
    /// Whether the alternate screen buffer is active.
    pub alternate_screen: bool,
    /// Monotonic counter bumped by the reader after every processed chunk.
    pub generation: u64,
}

/// The rows with their trailing whitespace removed, joined by `\n`.
pub open spec fn screen_text(rows: Seq<Seq<char>>) -> Seq<char>
    decreases rows.len(),
{
    if rows.len() == 0 {
        Seq::empty()
    } else if rows.len() == 1 {
        strip_end(rows[0], ws())
    } else {
        screen_text(rows.drop_last()) + seq!['\n'] + strip_end(rows.last(), ws())
    }
}

/// The index of the first row, at or after `k`, that contains `pat`.
pub open spec fn first_row_from(rows: Seq<Seq<char>>, pat: Seq<char>, k: int) -> Option<int>
    decreases rows.len() - k,
{
    if k < 0 || k >= rows.len() {
        None
    } else if includes(rows[k], pat) {
        Some(k)
    } else {
        first_row_from(rows, pat, k + 1)
    }
}

impl Clone for ScreenSnapshot {
    fn clone(&self) -> (c: Self)
        ensures
            c.rows_view() == self.rows_view(),
            c.cursor == self.cursor,
            c.alternate_screen == self.alternate_screen,
            c.generation == self.generation,
    {
        let mut rows: Vec<String> = Vec::new();
        let mut i: usize = 0;
        while i < self.rows.len()
            invariant
                i <= self.rows@.len(),
                rows@.len() == i,
                forall|k: int| 0 <= k < i ==> (#[trigger] rows@[k])@ == self.rows@[k]@,
            decreases self.rows@.len() - i,
        {
            rows.push(self.rows[i].clone());
            i = i + 1;
        }
        assert(rows@.map_values(|r: String| r@) =~= self.rows@.map_values(|r: String| r@));
        ScreenSnapshot {
            rows,
            cursor: (self.cursor.0, self.cursor.1),
            alternate_screen: self.alternate_screen,
            generation: self.generation,
        }
    }
}

impl ScreenSnapshot {
    /// The rows' character sequences.
    pub open spec fn rows_view(&self) -> Seq<Seq<char>> {
        self.rows@.map_values(|r: String| r@)
    }

    /// All visible rows joined by `\n`, trailing spaces trimmed per row.
    pub fn text(&self) -> (t: String)
        ensures
            t@ == screen_text(self.rows_view()),
    {
        let ghost rs = self.rows_view();
        let mut out: Vec<char> = Vec::new();
        let mut i: usize = 0;
        while i < self.rows.len()
            invariant
                i <= self.rows@.len(),
                rs == self.rows_view(),
                out@ == screen_text(rs.take(i as int)),
            decreases self.rows@.len() - i,
        {
            let row = chars_of(self.rows[i].as_str());
            assert(row@ == rs[i as int]);
            let end = crate::text::trim_end_bound(&row);
            if i > 0 {
                out.push('\n');
            }
            let ghost before = out@;
            let mut k: usize = 0;
            while k < end
                invariant
                    k <= end <= row@.len(),
                    out@ == before + row@.subrange(0, k as int),
                decreases end - k,
            {
                out.push(row[k]);
                assert(row@.subrange(0, k + 1) == row@.subrange(0, k as int).push(row@[k as int]));
                k = k + 1;
            }
            proof {
                let t = rs.take(i + 1);
                assert(t.drop_last() == rs.take(i as int));
                assert(t.last() == rs[i as int]);
                if i == 0 {
                    assert(rs.take(0) =~= Seq::<Seq<char>>::empty());
                }
            }
            i = i + 1;
        }
        assert(rs.take(rs.len() as int) == rs);
        string_from(&out)
    }

    /// Whether the rendered text contains the given substring.
    pub fn contains(&self, s: &str) -> (b: bool)
        ensures
            b == includes(screen_text(self.rows_view()), s@),
    {
        let t = self.text();
        let tc = chars_of(t.as_str());
        let sc = chars_of(s);
        has_chars(&tc, &sc)
    }

    /// Index of the first row whose text contains `s`.
    pub fn find_row(&self, s: &str) -> (r: Option<usize>)
        ensures
            match r {
                Some(i) => first_row_from(self.rows_view(), s@, 0) == Some(i as int),
                None => first_row_from(self.rows_view(), s@, 0) is None,
            },
    {
        let ghost rs = self.rows_view();
        let sc = chars_of(s);
        let mut i: usize = 0;
        while i < self.rows.len()
            invariant
                i <= self.rows@.len(),
                rs == self.rows_view(),
                sc@ == s@,
                first_row_from(rs, s@, 0) == first_row_from(rs, s@, i as int),
            decreases self.rows@.len() - i,
        {
            let row = chars_of(self.rows[i].as_str());
            assert(row@ == rs[i as int]);
            if has_chars(&row, &sc) {
                return Some(i);
            }
            i = i + 1;
        }
        None
    }
}

/// The environment entries' keys and values.
pub open spec fn env_view(env: Seq<(String, String)>) -> Seq<(Seq<char>, Seq<char>)> {
    env.map_values(|e: (String, String)| (e.0@, e.1@))
}

/// The index of the first entry with key `key`.
pub open spec fn key_index(env: Seq<(Seq<char>, Seq<char>)>, key: Seq<char>) -> Option<int> {
    if exists|i: int| 0 <= i < env.len() && (#[trigger] env[i]).0 == key {
        Some(choose|i: int| 0 <= i < env.len() && (#[trigger] env[i]).0 == key && forall|j: int| 0 <= j < i ==> (#[trigger] env[j]).0 != key)
    } else {
        None
    }
}

/// What [`upsert`] makes of `env`: the first entry with `key` gets
/// `value`; when there is none, `(key, value)` is appended.
pub open spec fn upsert_spec(env: Seq<(Seq<char>, Seq<char>)>, key: Seq<char>, value: Seq<char>) -> Seq<(Seq<char>, Seq<char>)> {
    match key_index(env, key) {
        Some(i) => env.update(i, (key, value)),
        None => env.push((key, value)),
    }
}

/// Set `key` to `value` in `env`: overwrite the first entry with that key,
/// or append one.
pub fn upsert(env: &mut Vec<(String, String)>, key: String, value: String)
    ensures
        env_view(final(env)@) == upsert_spec(env_view(old(env)@), key@, value@),
{
    let ghost ev = env_view(env@);
    let mut i: usize = 0;
    while i < env.len()
        invariant
            i <= env@.len(),
            ev == env_view(env@),
            ev == env_view(old(env)@),
            forall|j: int| 0 <= j < i ==> (#[trigger] ev[j]).0 != key@,
        decreases env@.len() - i,
    {
        assert(ev[i as int] == (env@[i as int].0@, env@[i as int].1@));
        if same_text(env[i].0.as_str(), key.as_str()) {
            let k = env[i].0.clone();
            env.set(i, (k, value));
            proof {
                assert(key_index(ev, key@) == Some(i as int)) by {
                    assert(ev[i as int].0 == key@);
                    let c = choose|c: int| 0 <= c < ev.len() && (#[trigger] ev[c]).0 == key@ && forall|j: int| 0 <= j < c ==> (#[trigger] ev[j]).0 != key@;
                    if c < i {
                    } else if c > i {
                        assert(ev[i as int].0 == key@);
                    }
                }
                assert(env_view(env@) =~= ev.update(i as int, (key@, value@)));
            }
            return;
        }
        i = i + 1;
    }
    let ghost kv = key@;
    let ghost vv = value@;
    env.push((key, value));
    assert(env_view(env@) =~= ev.push((kv, vv)));
}

/// What [`build_env`] returns: the inherited variables, then each of the
/// configuration's entries set in turn, then `TERM=xterm-256color` set
/// unless the configuration has a `TERM` entry.
pub open spec fn build_env_spec(
    inherited: Seq<(Seq<char>, Seq<char>)>,
    extra: Seq<(Seq<char>, Seq<char>)>,
) -> Seq<(Seq<char>, Seq<char>)> {
    let with_extra = extra_applied(inherited, extra, extra.len() as int);
    if exists|i: int| 0 <= i < extra.len() && (#[trigger] extra[i]).0 == "TERM"@ {
        with_extra
    } else {
        upsert_spec(with_extra, "TERM"@, "xterm-256color"@)
    }
}

/// `inherited` with the first `n` entries of `extra` set in turn.
pub open spec fn extra_applied(
    inherited: Seq<(Seq<char>, Seq<char>)>,
    extra: Seq<(Seq<char>, Seq<char>)>,
    n: int,
) -> Seq<(Seq<char>, Seq<char>)>
    decreases n,
{
    if n <= 0 {
        inherited
    } else {
        upsert_spec(extra_applied(inherited, extra, n - 1), extra[n - 1].0, extra[n - 1].1)
    }
}

/// Build the child environment from the inherited variables: `cfg.env`
/// overrides, with `TERM=xterm-256color` forced unless the caller overrode
/// `TERM`.
pub fn build_env(cfg: &PtyConfig, inherited: Vec<(String, String)>) -> (r: Vec<(String, String)>)
    ensures
        env_view(r@) == build_env_spec(env_view(inherited@), env_view(cfg.env@)),
{
    let ghost xs = env_view(cfg.env@);
    let mut env = inherited;
    let ghost base = env_view(env@);
    let mut i: usize = 0;
    let mut caller_set_term = false;
    while i < cfg.env.len()
        invariant
            i <= cfg.env@.len(),
            xs == env_view(cfg.env@),
            env_view(env@) == extra_applied(base, xs, i as int),
            caller_set_term == exists|j: int| 0 <= j < i && (#[trigger] xs[j]).0 == "TERM"@,
        decreases cfg.env@.len() - i,
    {
        assert(xs[i as int] == (cfg.env@[i as int].0@, cfg.env@[i as int].1@));
        let k = cfg.env[i].0.clone();
        let v = cfg.env[i].1.clone();
        if same_text(k.as_str(), "TERM") {
            caller_set_term = true;
        }
        upsert(&mut env, k, v);
        i = i + 1;
    }
    if !caller_set_term {
        let t = chars_of("TERM");
        let x = chars_of("xterm-256color");
        upsert(&mut env, string_from(&t), string_from(&x));
    }
    env
}

/// The value of the first entry with `key`.
pub open spec fn lookup(env: Seq<(Seq<char>, Seq<char>)>, key: Seq<char>) -> Option<Seq<char>> {
    match key_index(env, key) {
        Some(i) => Some(env[i].1),
        None => None,
    }
}

proof fn lemma_key_index(env: Seq<(Seq<char>, Seq<char>)>, key: Seq<char>)
    ensures
        key_index(env, key) matches Some(i) ==> 0 <= i < env.len() && env[i].0 == key && forall|j: int|
            0 <= j < i ==> (#[trigger] env[j]).0 != key,
        key_index(env, key) is None ==> forall|j: int| 0 <= j < env.len() ==> (#[trigger] env[j]).0 != key,
{
    if exists|i: int| 0 <= i < env.len() && (#[trigger] env[i]).0 == key {
        let w = choose|i: int| 0 <= i < env.len() && (#[trigger] env[i]).0 == key;
        lemma_least_key(env, key, w);
    }
}

proof fn lemma_least_key(env: Seq<(Seq<char>, Seq<char>)>, key: Seq<char>, w: int)
    requires
        0 <= w < env.len(),
        env[w].0 == key,
    ensures
        exists|i: int| 0 <= i < env.len() && (#[trigger] env[i]).0 == key && forall|j: int| 0 <= j < i ==> (#[trigger] env[j]).0 != key,
    decreases w,
{
    if exists|j: int| 0 <= j < w && (#[trigger] env[j]).0 == key {
        let j = choose|j: int| 0 <= j < w && (#[trigger] env[j]).0 == key;
        lemma_least_key(env, key, j);
    } else {
        assert(forall|j: int| 0 <= j < w ==> (#[trigger] env[j]).0 != key);
    }
}

/// Setting a key and reading it back gives the value set; every other
/// key reads as before; the environment grows by one entry exactly when
/// the key was absent.
pub proof fn lemma_upsert_then_lookup(
    env: Seq<(Seq<char>, Seq<char>)>,
    key: Seq<char>,
    value: Seq<char>,
    other: Seq<char>,
)
    ensures
        lookup(upsert_spec(env, key, value), key) == Some(value),
        other != key ==> lookup(upsert_spec(env, key, value), other) == lookup(env, other),
        upsert_spec(env, key, value).len() == env.len() + if lookup(env, key) is Some {
            0int
        } else {
            1int
        },
{
    let e2 = upsert_spec(env, key, value);
    lemma_key_index(env, key);
    lemma_key_index(env, other);
    lemma_key_index(e2, key);
    lemma_key_index(e2, other);
    match key_index(env, key) {
        Some(i) => {
            assert(e2[i].0 == key);
            if let Some(i2) = key_index(e2, key) {
                if i2 < i {
                    assert(e2[i2] == env[i2]);
                }
                if i2 > i {
                    assert(e2[i].0 == key);
                }
            }
            if other != key {
                match key_index(env, other) {
                    Some(o) => {
                        assert(e2[o] == env[o]);
                        if let Some(o2) = key_index(e2, other) {
                            if o2 < o {
                                assert(e2[o2] == env[o2]);
                            }
                            if o2 > o {
                                assert(e2[o].0 == other);
                            }
                        }
                    },
                    None => {
                        if let Some(o2) = key_index(e2, other) {
                            if o2 != i {
                                assert(e2[o2] == env[o2]);
                            }
                        }
                    },
                }
            }
        },
        None => {
            let n = env.len() as int;
            assert(e2[n].0 == key);
            if let Some(i2) = key_index(e2, key) {
                if i2 < n {
                    assert(e2[i2] == env[i2]);
                }
            }
            if other != key {
                match key_index(env, other) {
                    Some(o) => {
                        assert(e2[o] == env[o]);
                        if let Some(o2) = key_index(e2, other) {
                            if o2 < o {
                                assert(e2[o2] == env[o2]);
                            }
                            if o2 > o {
                                assert(e2[o].0 == other);
                            }
                        }
                    },
                    None => {
                        if let Some(o2) = key_index(e2, other) {
                            if o2 < n {
                                assert(e2[o2] == env[o2]);
                            }
                        }
                    },
                }
            }
        },
    }
}

/// The value of the last entry with key `k` among the first `n` entries of
/// `extra`.
pub open spec fn last_value(extra: Seq<(Seq<char>, Seq<char>)>, k: Seq<char>, n: int) -> Option<Seq<char>>
    decreases n,
{
    if n <= 0 {
        None
    } else if extra[n - 1].0 == k {
        Some(extra[n - 1].1)
    } else {
        last_value(extra, k, n - 1)
    }
}

/// No two entries share a key.
pub open spec fn distinct_keys(env: Seq<(Seq<char>, Seq<char>)>) -> bool {
    forall|i: int, j: int| 0 <= i < j < env.len() ==> (#[trigger] env[i]).0 != (#[trigger] env[j]).0
}

/// The value the child's environment gives `k`: the last value the
/// configuration sets for it; else `xterm-256color` for `TERM`; else the
/// inherited value.
pub open spec fn built_value(
    inherited: Seq<(Seq<char>, Seq<char>)>,
    extra: Seq<(Seq<char>, Seq<char>)>,
    k: Seq<char>,
) -> Option<Seq<char>> {
    match last_value(extra, k, extra.len() as int) {
        Some(v) => Some(v),
        None => if k == "TERM"@ {
            Some("xterm-256color"@)
        } else {
            lookup(inherited, k)
        },
    }
}

proof fn lemma_last_value_some(extra: Seq<(Seq<char>, Seq<char>)>, k: Seq<char>, n: int)
    requires
        0 <= n <= extra.len(),
    ensures
        last_value(extra, k, n) is Some <==> exists|i: int| 0 <= i < n && (#[trigger] extra[i]).0 == k,
    decreases n,
{
    if n > 0 {
        lemma_last_value_some(extra, k, n - 1);
        if extra[n - 1].0 == k {
            assert(extra[n - 1].0 == k);
        } else if exists|i: int| 0 <= i < n && (#[trigger] extra[i]).0 == k {
            let i = choose|i: int| 0 <= i < n && (#[trigger] extra[i]).0 == k;
            assert(i < n - 1);
        }
    }
}

proof fn lemma_extra_applied_lookup(
    inherited: Seq<(Seq<char>, Seq<char>)>,
    extra: Seq<(Seq<char>, Seq<char>)>,
    n: int,
    k: Seq<char>,
)
    requires
        0 <= n <= extra.len(),
    ensures
        lookup(extra_applied(inherited, extra, n), k) == match last_value(extra, k, n) {
            Some(v) => Some(v),
            None => lookup(inherited, k),
        },
    decreases n,
{
    if n > 0 {
        lemma_extra_applied_lookup(inherited, extra, n - 1, k);
        lemma_upsert_then_lookup(extra_applied(inherited, extra, n - 1), extra[n - 1].0, extra[n - 1].1, k);
    }
}

proof fn lemma_upsert_distinct(env: Seq<(Seq<char>, Seq<char>)>, key: Seq<char>, value: Seq<char>)
    requires
        distinct_keys(env),
    ensures
        distinct_keys(upsert_spec(env, key, value)),
{
    lemma_key_index(env, key);
    let e2 = upsert_spec(env, key, value);
    assert forall|i: int, j: int| 0 <= i < j < e2.len() implies (#[trigger] e2[i]).0 != (#[trigger] e2[j]).0 by {
        match key_index(env, key) {
            Some(x) => {
                assert(e2[i].0 == env[i].0);
                assert(e2[j].0 == env[j].0);
            },
            None => {
                if j == env.len() {
                    assert(e2[i] == env[i]);
                } else {
                    assert(e2[i] == env[i] && e2[j] == env[j]);
                }
            },
        }
    }
}

proof fn lemma_extra_applied_distinct(
    inherited: Seq<(Seq<char>, Seq<char>)>,
    extra: Seq<(Seq<char>, Seq<char>)>,
    n: int,
)
    requires
        0 <= n <= extra.len(),
        distinct_keys(inherited),
    ensures
        distinct_keys(extra_applied(inherited, extra, n)),
    decreases n,
{
    if n > 0 {
        lemma_extra_applied_distinct(inherited, extra, n - 1);
        lemma_upsert_distinct(extra_applied(inherited, extra, n - 1), extra[n - 1].0, extra[n - 1].1);
    }
}

proof fn lemma_build_env_lookup(
    inherited: Seq<(Seq<char>, Seq<char>)>,
    extra: Seq<(Seq<char>, Seq<char>)>,
    k: Seq<char>,
)
    ensures
        lookup(build_env_spec(inherited, extra), k) == built_value(inherited, extra, k),
{
    let n = extra.len() as int;
    let with_extra = extra_applied(inherited, extra, n);
    lemma_extra_applied_lookup(inherited, extra, n, k);
    lemma_last_value_some(extra, "TERM"@, n);
    if !(exists|i: int| 0 <= i < extra.len() && (#[trigger] extra[i]).0 == "TERM"@) {
        lemma_upsert_then_lookup(with_extra, "TERM"@, "xterm-256color"@, k);
        if k == "TERM"@ {
            assert(last_value(extra, k, n) is None);
        }
    }
}

/// The child's environment: each key reads as the configuration last set
/// it, else (for `TERM`) as `xterm-256color`, else as inherited; it holds
/// no key from elsewhere; and it repeats no key when the inherited
/// environment repeats none.
pub proof fn lemma_build_env(
    inherited: Seq<(Seq<char>, Seq<char>)>,
    extra: Seq<(Seq<char>, Seq<char>)>,
    k: Seq<char>,
)
    ensures
        lookup(build_env_spec(inherited, extra), k) == built_value(inherited, extra, k),
        forall|j: int|
            0 <= j < build_env_spec(inherited, extra).len() ==> built_value(
                inherited,
                extra,
                (#[trigger] build_env_spec(inherited, extra)[j]).0,
            ) is Some,
        distinct_keys(inherited) ==> distinct_keys(build_env_spec(inherited, extra)),
{
    let r = build_env_spec(inherited, extra);
    lemma_build_env_lookup(inherited, extra, k);
    assert forall|j: int| 0 <= j < r.len() implies built_value(inherited, extra, (#[trigger] r[j]).0) is Some by {
        lemma_build_env_lookup(inherited, extra, r[j].0);
        lemma_key_index(r, r[j].0);
    }
    if distinct_keys(inherited) {
        let n = extra.len() as int;
        lemma_extra_applied_distinct(inherited, extra, n);
        lemma_upsert_distinct(extra_applied(inherited, extra, n), "TERM"@, "xterm-256color"@);
    }
}

/// How many times spawning the child is tried.
pub const SPAWN_ATTEMPTS: u64 = 5;

/// What went wrong on one attempt to start the child.
#[derive(Debug, Clone, Copy, PartialEq, Eq)]
pub enum SpawnFailure {
    /// Opening or sizing the pseudo-terminal failed.
    Terminal,
    /// Starting the program failed; whether the error was "not found", and
    /// whether the program's path exists.
    Program { not_found: bool, program_exists: bool },
}

/// What to do after a failed attempt.
#[derive(Debug, Clone, PartialEq, Eq)]
pub enum SpawnDecision {
    /// Wait this many milliseconds, then try again.
    Retry { delay_ms: u64 },
    /// Stop; the error gets this context, if any.
    GiveUp { context: Option<String> },
}

/// The decision after failed attempt `attempt` (counting from 1). A
/// terminal failure is retried while attempts remain. A program failure is
/// retried only when it was "not found" although the program exists (a
/// race with its installation); otherwise the error names a missing
/// program, or the failed spawn. Retries wait `25 ms × attempt`.
pub open spec fn spawn_decision_spec(attempt: u64, failure: SpawnFailure, program: Seq<char>) -> (Option<u64>, Option<Seq<char>>) {
    match failure {
        SpawnFailure::Terminal => if attempt < SPAWN_ATTEMPTS {
            (Some((25 * attempt) as u64), None)
        } else {
            (None, None)
        },
        SpawnFailure::Program { not_found, program_exists } => if not_found && program_exists && attempt < SPAWN_ATTEMPTS {
            (Some((25 * attempt) as u64), None)
        } else if !program_exists {
            (None, Some("program `"@ + program + "` does not exist"@))
        } else {
            (None, Some("failed to spawn `"@ + program + "` in pty"@))
        },
    }
}

/// Decide what follows a failed attempt to start the child; see
/// [`spawn_decision_spec`].
pub fn spawn_decision(attempt: u64, failure: SpawnFailure, program: &str) -> (d: SpawnDecision)
    requires
        1 <= attempt <= SPAWN_ATTEMPTS,
    ensures
        match d {
            SpawnDecision::Retry { delay_ms } => spawn_decision_spec(attempt, failure, program@) == (
                Some(delay_ms),
                None::<Seq<char>>,
            ),
            SpawnDecision::GiveUp { context } => spawn_decision_spec(attempt, failure, program@) == (
                None::<u64>,
                match context {
                    Some(c) => Some(c@),
                    None => None,
                },
            ),
        },
{
    match failure {
        SpawnFailure::Terminal => if attempt < SPAWN_ATTEMPTS {
            SpawnDecision::Retry { delay_ms: 25 * attempt }
        } else {
            SpawnDecision::GiveUp { context: None }
        },
        SpawnFailure::Program { not_found, program_exists } => if not_found && program_exists && attempt < SPAWN_ATTEMPTS {
            SpawnDecision::Retry { delay_ms: 25 * attempt }
        } else if !program_exists {
            let a = crate::acp::jsonrpc::concat_text("program `", program);
            SpawnDecision::GiveUp { context: Some(crate::acp::jsonrpc::concat_text(a.as_str(), "` does not exist")) }
        } else {
            let a = crate::acp::jsonrpc::concat_text("failed to spawn `", program);
            SpawnDecision::GiveUp { context: Some(crate::acp::jsonrpc::concat_text(a.as_str(), "` in pty")) }
        },
    }
}

/// Key presses send the terminal's codes: Enter `CR`, Escape `ESC`,
/// Ctrl-C `0x03`, Ctrl-D `0x04`, Tab `HT`, Backspace `DEL`, and the arrows
/// `ESC [ A` (up), `ESC [ B` (down), `ESC [ C` (right), `ESC [ D` (left);
/// distinct keys send distinct bytes.
pub proof fn lemma_key_codes(k1: Key, k2: Key)
    ensures
        key_bytes(Key::Enter) == seq![0x0du8],
        key_bytes(Key::Escape) == seq![0x1bu8],
        key_bytes(Key::CtrlC) == seq![0x03u8],
        key_bytes(Key::CtrlD) == seq![0x04u8],
        key_bytes(Key::Tab) == seq![0x09u8],
        key_bytes(Key::Backspace) == seq![0x7fu8],
        key_bytes(Key::Up) == seq![0x1bu8, 0x5bu8, 0x41u8],
        key_bytes(Key::Down) == seq![0x1bu8, 0x5bu8, 0x42u8],
        key_bytes(Key::Right) == seq![0x1bu8, 0x5bu8, 0x43u8],
        key_bytes(Key::Left) == seq![0x1bu8, 0x5bu8, 0x44u8],
        k1 != k2 ==> key_bytes(k1) != key_bytes(k2),
{
    if k1 != k2 {
        let b1 = key_bytes(k1);
        let b2 = key_bytes(k2);
        if b1.len() == b2.len() {
            if b1.len() == 1 {
                assert(b1[0] != b2[0]);
            } else {
                assert(b1[2] != b2[2]);
            }
        }
    }
}

} // verus!
