//! The decisions of the freebuff driver: its configuration, the startup
//! sequence, prompt submission, the turn loop and the updates it streams.
//! The application performs the waiting, the terminal I/O and the file
//! reads, and asks these functions what to do next.

use vstd::prelude::*;

use crate::acp::types::{owned, SessionUpdate, StopReason, TextContent, ToolCallContentItem, ToolCallStatus};
use crate::acp::jsonrpc::concat_text;
use crate::freebuff::log::{events_view, outcome, outcome_spec, parse_log_line, log_event_spec, LogEvent, LogEventV, TurnOutcome, TurnOutcomeV};
use crate::freebuff::screen::{
    classify, classify_spec, input_box_empty_spec, input_box_is_empty, input_box_spec,
    input_box_text, pasted_chip_chars, chip_from, rows_view, ScreenState, ScreenStateV,
    time_left_row, slice_chars,
};
use crate::freebuff::transcript::{
    diff, diff_spec, diff_fits_spec, deltas_view, messages_view, Block, BlockV, Cursor, Delta, DeltaV, Message,
    MessageV,
};
use crate::json::{entry, entries_view, object, same_text, Json, JsonV, digits_of};
use crate::pty::{screen_text, PtyConfig, ScreenSnapshot};
use crate::text::{chars_of, includes, has_str, parse_u64, parse_unsigned, push_char, string_from, trim, trim_bounds};

verus! {

/// Configuration for the freebuff driver. Timeouts are in whole seconds.
#[derive(Debug, Clone)]
pub struct DriverConfig {
    /// Program to execute (default: "freebuff", env: BLINK_FREEBUFF_BIN).
    pub program: String,
    /// Extra arguments passed to the program (default: []).
    pub extra_args: Vec<String>,
    /// Extra environment variables for the child (default: []).
    pub env: Vec<(String, String)>,
    /// Override manicode directory (default: None -> the manicode directory).
    pub manicode_dir: Option<String>,
    /// Terminal width in columns (default: 120).
    pub cols: u16,
    /// Terminal height in rows (default: 40).
    pub rows: u16,
    /// Startup timeout waiting for Idle (default: 60s).
    pub startup_timeout_s: u64,
    /// Per-turn timeout (default: 15min, env: BLINK_TURN_TIMEOUT_S).
    pub turn_timeout_s: u64,
    /// Poll interval for screen classification, in milliseconds (default: 250ms).
    pub poll_interval_ms: u64,
    /// Exit timeout for graceful shutdown (default: 3s).
    pub exit_timeout_s: u64,
    /// Time to wait for transcript to settle after turn log event (default: 5s, env: BLINK_SETTLE_TIMEOUT_S).
    pub settle_timeout_s: u64,
    /// Time to wait after Enter for freebuff to go busy or consume the paste (default: 30s, env: BLINK_SUBMIT_TIMEOUT_S).
    pub submit_timeout_s: u64,
}

/// `s.parse::<u64>().ok()`, or `default` when absent or not a `u64`.
pub open spec fn u64_or(raw: Option<Seq<char>>, default: u64) -> u64 {
    match raw {
        Some(s) => match parse_unsigned(s, u64::MAX as nat) {
            Some(n) => n as u64,
            None => default,
        },
        None => default,
    }
}

/// Parses a setting as a `u64`.
fn parse_setting(raw: Option<&str>) -> (r: Option<u64>)
    ensures
        match raw {
            Some(s) => match parse_unsigned(s@, u64::MAX as nat) {
                Some(n) => r == Some(n as u64),
                None => r is None,
            },
            None => r is None,
        },
{
    match raw {
        Some(s) => {
            let c = chars_of(s);
            assert(c@.subrange(0, c@.len() as int) == c@);
            parse_u64(&c, 0, c.len())
        },
        None => None,
    }
}

/// What [`parse_submit_timeout`] returns: 30 s when the setting is absent
/// or not a `u64`; otherwise its value, floored at 2 s.
pub open spec fn submit_timeout_spec(raw: Option<Seq<char>>) -> u64 {
    match raw {
        Some(s) => match parse_unsigned(s, u64::MAX as nat) {
            Some(n) => if n < 2 {
                2
            } else {
                n as u64
            },
            None => 30,
        },
        None => 30,
    }
}

/// Parse `BLINK_SUBMIT_TIMEOUT_S`, in seconds. Default 30 s when the
/// variable is absent or unparseable; floored at 2 s so the 2 s nudge
/// remainder never underflows.
pub fn parse_submit_timeout(raw: Option<&str>) -> (secs: u64)
    ensures
        secs == submit_timeout_spec(
            match raw {
                Some(s) => Some(s@),
                None => None,
            },
        ),
        secs >= 2,
{
    match parse_setting(raw) {
        Some(v) => if v < 2 {
            2
        } else {
            v
        },
        None => 30,
    }
}

/// Remainder of `submit_timeout` (seconds) after reserving the 2 s nudge,
/// saturating at zero so a programmatically built config can never
/// underflow.
pub fn remainder_after_nudge(submit_timeout_s: u64) -> (r: u64)
    ensures
        r == (if submit_timeout_s >= 2 {
            submit_timeout_s - 2
        } else {
            0
        }),
{
    submit_timeout_s.saturating_sub(2)
}

impl DriverConfig {
    /// The configuration from the environment's settings: the program
    /// (`BLINK_FREEBUFF_BIN`, default `freebuff`) and the turn, settle and
    /// submit timeouts (`BLINK_TURN_TIMEOUT_S`, default 900 s;
    /// `BLINK_SETTLE_TIMEOUT_S`, default 5 s; `BLINK_SUBMIT_TIMEOUT_S`, see
    /// [`parse_submit_timeout`]), with a 120x40 terminal, 60 s startup,
    /// 250 ms polling and 3 s exit timeouts.
    pub fn from_env(
        program: Option<String>,
        turn_timeout: Option<&str>,
        settle_timeout: Option<&str>,
        submit_timeout: Option<&str>,
    ) -> (c: DriverConfig)
        ensures
            c.program@ == match program {
                Some(p) => p@,
                None => "freebuff"@,
            },
            c.extra_args@.len() == 0,
            c.env@.len() == 0,
            c.manicode_dir is None,
            c.cols == 120,
            c.rows == 40,
            c.startup_timeout_s == 60,
            c.turn_timeout_s == u64_or(
                match turn_timeout {
                    Some(s) => Some(s@),
                    None => None,
                },
                900,
            ),
            c.poll_interval_ms == 250,
            c.exit_timeout_s == 3,
            c.settle_timeout_s == u64_or(
                match settle_timeout {
                    Some(s) => Some(s@),
                    None => None,
                },
                5,
            ),
            c.submit_timeout_s == submit_timeout_spec(
                match submit_timeout {
                    Some(s) => Some(s@),
                    None => None,
                },
            ),
    {
        let program = match program {
            Some(p) => p,
            None => owned("freebuff"),
        };
        let turn = match parse_setting(turn_timeout) {
            Some(v) => v,
            None => 900,
        };
        let settle = match parse_setting(settle_timeout) {
            Some(v) => v,
            None => 5,
        };
        DriverConfig {
            program,
            extra_args: Vec::new(),
            env: Vec::new(),
            manicode_dir: None,
            cols: 120,
            rows: 40,
            startup_timeout_s: 60,
            turn_timeout_s: turn,
            poll_interval_ms: 250,
            exit_timeout_s: 3,
            settle_timeout_s: settle,
            submit_timeout_s: parse_submit_timeout(submit_timeout),
        }
    }

    /// Build PtyConfig from DriverConfig and cwd: the program with
    /// `--cwd <cwd>` and the extra arguments, run in `cwd`.
    pub fn build_pty_config(&self, cwd: &str) -> (p: PtyConfig)
        ensures
            p.program@ == self.program@,
            p.args@.len() == 2 + self.extra_args@.len(),
            p.args@[0]@ == "--cwd"@,
            p.args@[1]@ == cwd@,
            forall|i: int| 0 <= i < self.extra_args@.len() ==> (#[trigger] p.args@[2 + i])@ == self.extra_args@[i]@,
            p.cwd matches Some(d) && d@ == cwd@,
            p.env@.len() == self.env@.len(),
            forall|i: int| 0 <= i < self.env@.len() ==> (#[trigger] p.env@[i]).0@ == self.env@[i].0@ && p.env@[i].1@ == self.env@[i].1@,
            p.cols == self.cols,
            p.rows == self.rows,
    {
        let mut args: Vec<String> = Vec::new();
        args.push(owned("--cwd"));
        args.push(owned(cwd));
        let mut i: usize = 0;
        while i < self.extra_args.len()
            invariant
                i <= self.extra_args@.len(),
                args@.len() == 2 + i,
                args@[0]@ == "--cwd"@,
                args@[1]@ == cwd@,
                forall|k: int| 0 <= k < i ==> (#[trigger] args@[2 + k])@ == self.extra_args@[k]@,
            decreases self.extra_args@.len() - i,
        {
            args.push(self.extra_args[i].clone());
            i = i + 1;
        }
        let mut env: Vec<(String, String)> = Vec::new();
        let mut j: usize = 0;
        while j < self.env.len()
            invariant
                j <= self.env@.len(),
                env@.len() == j,
                forall|k: int| 0 <= k < j ==> (#[trigger] env@[k]).0@ == self.env@[k].0@ && env@[k].1@ == self.env@[k].1@,
            decreases self.env@.len() - j,
        {
            env.push((self.env[j].0.clone(), self.env[j].1.clone()));
            j = j + 1;
        }
        PtyConfig {
            program: self.program.clone(),
            args,
            cwd: Some(owned(cwd)),
            env,
            cols: self.cols,
            rows: self.rows,
        }
    }
}

/// What the startup sequence does next.
#[derive(Debug, Clone, PartialEq, Eq)]
pub enum StartupStep {
    /// Keep polling.
    Wait,
    /// Send the splash accept key (Enter) to take the default model.
    AcceptSplash,
    /// freebuff reached its idle prompt.
    Ready,
    /// The Freebucks gate is up; fail with its message.
    FreebucksGate { message: String },
    /// Another freebuff instance runs; fail.
    AlreadyRunning,
    /// Another instance took over this account; fail.
    KickedOut,
}

/// The mathematical value of a [`StartupStep`].
pub enum StartupStepV {
    Wait,
    AcceptSplash,
    Ready,
    FreebucksGate { message: Seq<char> },
    AlreadyRunning,
    KickedOut,
}

impl View for StartupStep {
    type V = StartupStepV;

    open spec fn view(&self) -> StartupStepV {
        match self {
            StartupStep::Wait => StartupStepV::Wait,
            StartupStep::AcceptSplash => StartupStepV::AcceptSplash,
            StartupStep::Ready => StartupStepV::Ready,
            StartupStep::FreebucksGate { message } => StartupStepV::FreebucksGate { message: message@ },
            StartupStep::AlreadyRunning => StartupStepV::AlreadyRunning,
            StartupStep::KickedOut => StartupStepV::KickedOut,
        }
    }
}

/// Some row holds the idle screen's time-left fragment, and some row the
/// input placeholder.
pub open spec fn idle_markers(rs: Seq<Seq<char>>) -> bool {
    (exists|i: int| 0 <= i < rs.len() && time_left_row(#[trigger] rs[i])) && (exists|i: int|
        0 <= i < rs.len() && includes(#[trigger] rs[i], "Enter a coding task or / for commands"@))
}

/// What [`startup_step`] decides. Once the splash was accepted, the idle
/// markers alone mean ready (splash markers may linger beside them).
/// Otherwise the screen state decides: Enter on the splash, at most once;
/// failure on the Freebucks gate, the already-running dialog or the
/// kicked-out notice; ready when idle; waiting in every other state.
pub open spec fn startup_spec(rs: Seq<Seq<char>>, splash_accept_sent: bool) -> StartupStepV {
    if splash_accept_sent && idle_markers(rs) {
        StartupStepV::Ready
    } else {
        match classify_spec(rs) {
            ScreenStateV::ModelSplash => if splash_accept_sent {
                StartupStepV::Wait
            } else {
                StartupStepV::AcceptSplash
            },
            ScreenStateV::FreebucksGate { message } => StartupStepV::FreebucksGate { message },
            ScreenStateV::AlreadyRunning => StartupStepV::AlreadyRunning,
            ScreenStateV::KickedOut => StartupStepV::KickedOut,
            ScreenStateV::Idle => StartupStepV::Ready,
            _ => StartupStepV::Wait,
        }
    }
}

/// Whether some row satisfies the idle markers.
fn has_idle_markers(rows: &[String]) -> (b: bool)
    ensures
        b == idle_markers(rows_view(rows@)),
{
    let ghost rs = rows_view(rows@);
    let mut time_left = false;
    let mut placeholder = false;
    let mut i: usize = 0;
    while i < rows.len()
        invariant
            i <= rows@.len(),
            rs == rows_view(rows@),
            time_left == exists|k: int| 0 <= k < i && time_left_row(#[trigger] rs[k]),
            placeholder == exists|k: int| 0 <= k < i && includes(#[trigger] rs[k], "Enter a coding task or / for commands"@),
        decreases rows@.len() - i,
    {
        let r = chars_of(rows[i].as_str());
        assert(r@ == rs[i as int]);
        if has_str(&r, "·") && (has_str(&r, "h left") || has_str(&r, "m left")) {
            assert(time_left_row(rs[i as int]));
            time_left = true;
        }
        if has_str(&r, "Enter a coding task or / for commands") {
            placeholder = true;
        }
        i = i + 1;
    }
    time_left && placeholder
}

/// Decide the next startup step from the screen rows and whether the
/// splash accept key was already sent.
pub fn startup_step(rows: &[String], splash_accept_sent: bool) -> (s: StartupStep)
    ensures
        s@ == startup_spec(rows_view(rows@), splash_accept_sent),
{
    if splash_accept_sent && has_idle_markers(rows) {
        return StartupStep::Ready;
    }
    match classify(rows) {
        ScreenState::ModelSplash => if splash_accept_sent {
            StartupStep::Wait
        } else {
            StartupStep::AcceptSplash
        },
        ScreenState::FreebucksGate { message } => StartupStep::FreebucksGate { message },
        ScreenState::AlreadyRunning => StartupStep::AlreadyRunning,
        ScreenState::KickedOut => StartupStep::KickedOut,
        ScreenState::Idle => StartupStep::Ready,
        _ => StartupStep::Wait,
    }
}

/// The error a startup step ends startup with: the Freebucks gate with its
/// message, the already-running dialog naming the owner's pid, or the
/// take-over screen; `None` for the steps that go on.
pub open spec fn startup_error_spec(step: StartupStepV, owner_pid: Option<u32>) -> Option<Seq<char>> {
    match step {
        StartupStepV::FreebucksGate { message } => Some("freebuff: not enough Freebucks — "@ + message),
        StartupStepV::AlreadyRunning => Some(already_running_text(owner_pid)),
        StartupStepV::KickedOut => Some("freebuff: another instance took over this account"@),
        _ => None,
    }
}

/// The error of a startup step that ends startup, see
/// [`startup_error_spec`]. `owner_pid` is the pid read from the instance
/// owner file, if any.
pub fn startup_error(step: &StartupStep, owner_pid: Option<u32>) -> (m: Option<String>)
    ensures
        match m {
            Some(t) => startup_error_spec(step@, owner_pid) == Some(t@),
            None => startup_error_spec(step@, owner_pid) is None,
        },
{
    match step {
        StartupStep::FreebucksGate { message } => Some(
            concat_text("freebuff: not enough Freebucks — ", message.as_str()),
        ),
        StartupStep::AlreadyRunning => Some(already_running_error(owner_pid)),
        StartupStep::KickedOut => Some(owned("freebuff: another instance took over this account")),
        _ => None,
    }
}

/// The error when startup does not reach the idle prompt within
/// `timeout_s` seconds: the timeout as `Duration`'s `Debug` writes whole
/// seconds (`<n>s`), the child's pid, and the last screen.
pub open spec fn startup_timeout_text(timeout_s: u64, pid: u32, screen: Seq<char>) -> Seq<char> {
    "startup timeout after "@ + digits_of(timeout_s as nat) + "s pid="@ + digits_of(pid as nat)
        + "; last screen:\n"@ + screen
}

/// The startup timeout error for the last snapshot of the screen.
pub fn startup_timeout_error(timeout_s: u64, pid: u32, snap: &ScreenSnapshot) -> (m: String)
    ensures
        m@ == startup_timeout_text(timeout_s, pid, screen_text(snap.rows_view())),
{
    let a = concat_text("startup timeout after ", crate::json::u64_digits(timeout_s).as_str());
    let b = concat_text(a.as_str(), "s pid=");
    let c = concat_text(b.as_str(), crate::json::u64_digits(pid as u64).as_str());
    let d = concat_text(c.as_str(), "; last screen:\n");
    concat_text(d.as_str(), snap.text().as_str())
}

/// The error when the child exits during startup: its exit status as text
/// and the last screen.
pub fn startup_exit_error(status: &str, snap: &ScreenSnapshot) -> (m: String)
    ensures
        m@ == "freebuff exited during startup with status "@ + status@ + "; last screen:\n"@ + screen_text(
            snap.rows_view(),
        ),
{
    let a = concat_text("freebuff exited during startup with status ", status);
    let b = concat_text(a.as_str(), "; last screen:\n");
    concat_text(b.as_str(), snap.text().as_str())
}

/// The splash accept key goes out at most once: once it was sent, no later
/// startup step asks for it again.
pub proof fn lemma_splash_accepted_once(rs: Seq<Seq<char>>)
    ensures
        startup_spec(rs, true) != StartupStepV::AcceptSplash,
{
}

/// Why a prompt cannot go to the session: there is none, or the prompt
/// names another one; `None` when it names the running session.
pub open spec fn prompt_session_error_spec(current: Option<Seq<char>>, requested: Seq<char>) -> Option<Seq<char>> {
    match current {
        None => Some("no active session"@),
        Some(c) => if c != requested {
            Some("session id mismatch: expected "@ + c + ", got "@ + requested)
        } else {
            None
        },
    }
}

/// Check that a prompt names the running session (`current`, if any).
pub fn prompt_session_error(current: Option<&str>, requested: &str) -> (m: Option<String>)
    ensures
        match m {
            Some(t) => prompt_session_error_spec(
                match current {
                    Some(c) => Some(c@),
                    None => None,
                },
                requested@,
            ) == Some(t@),
            None => prompt_session_error_spec(
                match current {
                    Some(c) => Some(c@),
                    None => None,
                },
                requested@,
            ) is None,
        },
{
    match current {
        None => Some(owned("no active session")),
        Some(c) => if same_text(c, requested) {
            None
        } else {
            let a = concat_text("session id mismatch: expected ", c);
            let b = concat_text(a.as_str(), ", got ");
            Some(concat_text(b.as_str(), requested))
        },
    }
}

/// A failed parse of the transcript: the failure count goes up by one; on
/// the final flush the turn fails with the parser's message, otherwise the
/// next poll tries again (a write may have been caught half done). A
/// successful parse resets the count to zero.
pub fn transcript_parse_failed(failures: u32, is_final_flush: bool, error: &str) -> (r: (u32, Option<String>))
    requires
        failures < u32::MAX,
    ensures
        r.0 == failures + 1,
        match r.1 {
            Some(m) => is_final_flush && m@ == "freebuff transcript could not be parsed: "@ + error@,
            None => !is_final_flush,
        },
{
    let message = if is_final_flush {
        Some(concat_text("freebuff transcript could not be parsed: ", error))
    } else {
        None
    };
    (failures + 1, message)
}

/// What a check on the running child reports: an error when the screen
/// shows that another instance took over the account; otherwise, once the
/// child has exited, an error that carries the last screen; otherwise
/// nothing.
pub open spec fn health_error_spec(state: ScreenStateV, child_exited: bool, screen: Seq<char>) -> Option<Seq<char>> {
    if state is KickedOut {
        Some("freebuff: another instance took over this account"@)
    } else if child_exited {
        Some("freebuff child exited unexpectedly; last screen:\n"@ + screen)
    } else {
        None
    }
}

/// Check the running child from a snapshot of its screen and whether it has
/// exited.
pub fn health_error(snap: &ScreenSnapshot, child_exited: bool) -> (r: Option<String>)
    ensures
        match r {
            Some(m) => health_error_spec(classify_spec(snap.rows_view()), child_exited, screen_text(snap.rows_view()))
                == Some(m@),
            None => health_error_spec(classify_spec(snap.rows_view()), child_exited, screen_text(snap.rows_view())) is None,
        },
{
    proof {
        assert(rows_view(snap.rows@) =~= snap.rows_view());
    }
    let state = classify(&snap.rows);
    match state {
        ScreenState::KickedOut => Some(owned("freebuff: another instance took over this account")),
        _ => if child_exited {
            let screen = snap.text();
            Some(concat_text("freebuff child exited unexpectedly; last screen:\n", screen.as_str()))
        } else {
            None
        },
    }
}

/// The text of the already-running error: the owner's pid when the owner
/// file could be read, `unknown` otherwise.
pub open spec fn already_running_text(owner_pid: Option<u32>) -> Seq<char> {
    "freebuff: already running (owner pid: "@ + match owner_pid {
        Some(p) => digits_of(p as nat),
        None => "unknown"@,
    } + ")"@
}

/// The error for an already running instance, naming the owner's pid when
/// the owner file could be read.
pub fn already_running_error(owner_pid: Option<u32>) -> (m: String)
    ensures
        m@ == already_running_text(owner_pid),
{
    let pid = match owner_pid {
        Some(p) => crate::json::u64_digits(p as u64),
        None => owned("unknown"),
    };
    let head = concat_text("freebuff: already running (owner pid: ", pid.as_str());
    concat_text(head.as_str(), ")")
}

/// The first (up to) 20 characters of the prompt, which the input box is
/// watched for.
pub fn preview_of(text: &str) -> (p: String)
    ensures
        p@ == text@.take(if text@.len() < 20 {
            text@.len() as int
        } else {
            20
        }),
{
    let c = chars_of(text);
    let n = if c.len() < 20 {
        c.len()
    } else {
        20
    };
    let v = slice_chars(&c, 0, n);
    assert(c@.subrange(0, n as int) == c@.take(n as int));
    string_from(&v)
}

/// The input box shows text containing `preview`.
pub open spec fn box_shows(rs: Seq<Seq<char>>, preview: Seq<char>) -> bool {
    match input_box_spec(rs) {
        Some(t) => includes(t, preview),
        None => false,
    }
}

/// Whether the input box shows text containing `preview`.
fn box_shows_exec(rows: &[String], preview: &str) -> (b: bool)
    ensures
        b == box_shows(rows_view(rows@), preview@),
{
    match input_box_text(rows) {
        Some(t) => {
            let c = chars_of(t.as_str());
            has_str(&c, preview)
        },
        None => false,
    }
}

/// The pasted prompt shows up: its text in the input box, or a pasted-text
/// chip.
pub fn paste_visible(rows: &[String], preview: &str) -> (b: bool)
    ensures
        b == (box_shows(rows_view(rows@), preview@) || chip_from(rows_view(rows@), 0) is Some),
{
    box_shows_exec(rows, preview) || pasted_chip_chars(rows).is_some()
}

/// The submitted prompt was taken: freebuff went busy, or the paste was
/// consumed (the text and chip are gone and the box shows its placeholder).
pub open spec fn submit_resolved_spec(rs: Seq<Seq<char>>, preview: Seq<char>) -> bool {
    classify_spec(rs) is Busy || (!box_shows(rs, preview) && chip_from(rs, 0) is None
        && input_box_empty_spec(rs))
}

/// Whether the submitted prompt was taken.
pub fn submit_resolved(rows: &[String], preview: &str) -> (b: bool)
    ensures
        b == submit_resolved_spec(rows_view(rows@), preview@),
{
    let busy = match classify(rows) {
        ScreenState::Busy { .. } => true,
        _ => false,
    };
    busy || (!box_shows_exec(rows, preview) && pasted_chip_chars(rows).is_none() && input_box_is_empty(rows))
}

/// After the first Enter, the prompt still sits in the input box (text
/// other than the placeholder) or as a chip, so Enter is pressed again.
pub open spec fn needs_nudge_spec(rs: Seq<Seq<char>>) -> bool {
    (match input_box_spec(rs) {
        Some(t) => t.len() > 0 && !includes(t, "Enter a coding task"@),
        None => false,
    }) || chip_from(rs, 0) is Some
}

/// Whether Enter is to be pressed again.
pub fn needs_nudge(rows: &[String]) -> (b: bool)
    ensures
        b == needs_nudge_spec(rows_view(rows@)),
{
    let text_still_visible = match input_box_text(rows) {
        Some(t) => {
            let c = chars_of(t.as_str());
            c.len() > 0 && !has_str(&c, "Enter a coding task")
        },
        None => false,
    };
    text_still_visible || pasted_chip_chars(rows).is_some()
}

/// The events of the non-blank lines, in order.
pub open spec fn events_of_lines(lines: Seq<Seq<char>>) -> Seq<LogEventV>
    decreases lines.len(),
{
    if lines.len() == 0 {
        Seq::empty()
    } else {
        let rest = events_of_lines(lines.drop_last());
        if trim(lines.last()).len() == 0 {
            rest
        } else {
            rest.push(log_event_spec(lines.last()))
        }
    }
}

/// The lines of the first `n` characters of `text`, split at `\n`: a text
/// that ends with `\n` ends with an empty line.
pub open spec fn lines_upto(text: Seq<char>, n: int) -> Seq<Seq<char>>
    decreases n,
{
    if n <= 0 {
        seq![Seq::empty()]
    } else {
        let ls = lines_upto(text, n - 1);
        if text[n - 1] == '\n' {
            ls.push(Seq::empty())
        } else {
            ls.update(ls.len() - 1, ls.last().push(text[n - 1]))
        }
    }
}

proof fn lemma_lines_nonempty(text: Seq<char>, n: int)
    ensures
        lines_upto(text, n).len() >= 1,
    decreases n,
{
    if n > 0 {
        lemma_lines_nonempty(text, n - 1);
    }
}

/// The lines of `text`, split at `\n`.
pub open spec fn split_lines(text: Seq<char>) -> Seq<Seq<char>> {
    lines_upto(text, text.len() as int)
}

/// The events of the lines that are not blank, in order.
fn push_line_event(out: &mut Vec<LogEvent>, line: &Vec<char>, Ghost(done): Ghost<Seq<Seq<char>>>)
    requires
        crate::freebuff::log::events_view(old(out)@) == events_of_lines(done),
    ensures
        crate::freebuff::log::events_view(final(out)@) == events_of_lines(done.push(line@)),
{
    let (s, e) = trim_bounds(line, 0, line.len());
    assert(line@.subrange(0, line@.len() as int) == line@);
    assert(done.push(line@).drop_last() == done);
    if s != e {
        let text = string_from(line);
        let ghost before = out@;
        out.push(parse_log_line(text.as_str()));
        assert(crate::freebuff::log::events_view(out@) =~= crate::freebuff::log::events_view(before).push(out@.last()@));
    }
}

/// The events in newly appended log text: one per non-blank line.
pub fn log_events(text: &str) -> (r: Vec<LogEvent>)
    ensures
        crate::freebuff::log::events_view(r@) == events_of_lines(split_lines(text@)),
{
    let c = chars_of(text);
    let mut out: Vec<LogEvent> = Vec::new();
    let mut cur: Vec<char> = Vec::new();
    let ghost mut done: Seq<Seq<char>> = Seq::empty();
    assert(crate::freebuff::log::events_view(out@) =~= Seq::<LogEventV>::empty());
    let mut k: usize = 0;
    while k < c.len()
        invariant
            k <= c@.len(),
            c@ == text@,
            done.push(cur@) == lines_upto(c@, k as int),
            crate::freebuff::log::events_view(out@) == events_of_lines(done),
        decreases c@.len() - k,
    {
        proof {
            lemma_lines_nonempty(c@, k as int);
        }
        if c[k] == '\n' {
            push_line_event(&mut out, &cur, Ghost(done));
            proof {
                done = done.push(cur@);
            }
            cur = Vec::new();
            assert(done.push(cur@) =~= lines_upto(c@, k as int).push(Seq::empty()));
        } else {
            let ghost ls = lines_upto(c@, k as int);
            cur.push(c[k]);
            assert(done.push(cur@) =~= ls.update(ls.len() - 1, ls.last().push(c@[k as int])));
        }
        k = k + 1;
    }
    push_line_event(&mut out, &cur, Ghost(done));
    out
}

/// Whether the last message is from the AI and its blocks have settled
/// for the given outcome: a completed turn once the message is complete
/// and has reply content (text other than reasoning, or a tool call); an
/// interrupted turn once the message has any block.
pub open spec fn settled_spec(ms: Seq<MessageV>, outcome: TurnOutcomeV) -> bool {
    ms.len() > 0 && match ms.last() {
        MessageV::Ai { blocks, is_complete, .. } => match outcome {
            TurnOutcomeV::Completed => is_complete && exists|k: int|
                0 <= k < blocks.len() && reply_content(#[trigger] blocks[k]),
            TurnOutcomeV::Interrupted => blocks.len() > 0,
            _ => false,
        },
        _ => false,
    }
}

/// A block that carries reply content: text other than reasoning, or a
/// tool call.
pub open spec fn reply_content(b: BlockV) -> bool {
    match b {
        BlockV::Text { text_type, .. } => text_type != "reasoning"@,
        BlockV::Tool { .. } => true,
        _ => false,
    }
}

/// Whether some block carries reply content.
fn any_reply_content(blocks: &Vec<Block>) -> (b: bool)
    ensures
        b == exists|k: int|
            0 <= k < blocks@.len() && reply_content(#[trigger] crate::freebuff::transcript::blocks_view(blocks@)[k]),
{
    let ghost bv = crate::freebuff::transcript::blocks_view(blocks@);
    let mut k: usize = 0;
    while k < blocks.len()
        invariant
            k <= blocks@.len(),
            bv == crate::freebuff::transcript::blocks_view(blocks@),
            forall|j: int| 0 <= j < k ==> !reply_content(#[trigger] bv[j]),
        decreases blocks@.len() - k,
    {
        assert(bv[k as int] == blocks@[k as int]@);
        let content = match &blocks[k] {
            Block::Text { text_type, .. } => !same_text(text_type.as_str(), "reasoning"),
            Block::Tool { .. } => true,
            _ => false,
        };
        if content {
            assert(reply_content(bv[k as int]));
            return true;
        }
        k = k + 1;
    }
    false
}

/// Whether the transcript has settled for the outcome.
pub fn transcript_settled(messages: &[Message], outcome: &TurnOutcome) -> (b: bool)
    ensures
        b == settled_spec(crate::freebuff::transcript::messages_view(messages@), outcome@),
{
    let ghost mv = crate::freebuff::transcript::messages_view(messages@);
    if messages.len() == 0 {
        return false;
    }
    let last = &messages[messages.len() - 1];
    assert(mv.last() == last@);
    match last {
        Message::Ai { blocks, is_complete, .. } => {
            let ghost bv = crate::freebuff::transcript::blocks_view(blocks@);
            assert(mv.last() matches MessageV::Ai { blocks: b2, is_complete: c2, .. } && b2 == bv && c2 == *is_complete);
            match outcome {
                TurnOutcome::Completed => {
                    let found = any_reply_content(blocks);
                    proof {
                        if found {
                            let k = choose|k: int| 0 <= k < blocks@.len() && reply_content(#[trigger] bv[k]);
                            assert(reply_content(bv[k]));
                        }
                    }
                    *is_complete && found
                },
                TurnOutcome::Interrupted => blocks.len() > 0,
                _ => false,
            }
        },
        _ => false,
    }
}

/// How a finished turn answers the prompt: a completed turn ends the turn
/// (as cancelled when a cancel was sent) but fails when no reply text was
/// streamed; an interrupted turn is cancelled; a failed turn fails with its
/// message.
pub open spec fn turn_result_spec(outcome: TurnOutcomeV, emitted_message_chunk: bool, cancelled_sent: bool) -> Result<StopReason, Seq<char>> {
    match outcome {
        TurnOutcomeV::Completed => if !emitted_message_chunk {
            Err("freebuff finished the turn but no reply text was found in the transcript"@)
        } else if cancelled_sent {
            Ok(StopReason::Cancelled)
        } else {
            Ok(StopReason::EndTurn)
        },
        TurnOutcomeV::Interrupted => Ok(StopReason::Cancelled),
        TurnOutcomeV::Error { message } => Err("freebuff turn failed: "@ + message),
    }
}

/// A turn on which the cancel key was sent is never answered `end_turn`: it
/// is answered `cancelled` when freebuff reports it interrupted, or
/// completed with reply text.
pub proof fn lemma_cancelled_turn_answers_cancelled(outcome: TurnOutcomeV, emitted_message_chunk: bool)
    ensures
        turn_result_spec(outcome, emitted_message_chunk, true) != Ok::<StopReason, Seq<char>>(StopReason::EndTurn),
        (outcome is Interrupted || (outcome is Completed && emitted_message_chunk)) ==> turn_result_spec(
            outcome,
            emitted_message_chunk,
            true,
        ) == Ok::<StopReason, Seq<char>>(StopReason::Cancelled),
{
}

/// Decide how a finished turn answers the prompt.
pub fn turn_result(outcome: &TurnOutcome, emitted_message_chunk: bool, cancelled_sent: bool) -> (r: Result<StopReason, String>)
    ensures
        match r {
            Ok(s) => turn_result_spec(outcome@, emitted_message_chunk, cancelled_sent) == Ok::<StopReason, Seq<char>>(s),
            Err(m) => turn_result_spec(outcome@, emitted_message_chunk, cancelled_sent) == Err::<StopReason, Seq<char>>(m@),
        },
{
    match outcome {
        TurnOutcome::Completed => if !emitted_message_chunk {
            Err(owned("freebuff finished the turn but no reply text was found in the transcript"))
        } else if cancelled_sent {
            Ok(StopReason::Cancelled)
        } else {
            Ok(StopReason::EndTurn)
        },
        TurnOutcome::Interrupted => Ok(StopReason::Cancelled),
        TurnOutcome::Error { message } => Err(concat_text("freebuff turn failed: ", message.as_str())),
    }
}

/// Map tool_name to kind.
pub open spec fn tool_kind_spec(tool_name: Seq<char>) -> Seq<char> {
    if tool_name == "run_terminal_command"@ {
        "execute"@
    } else if tool_name == "write_file"@ || tool_name == "str_replace"@ || tool_name == "create_file"@ {
        "edit"@
    } else if tool_name == "read_files"@ || tool_name == "read_file"@ || tool_name == "code_search"@
        || tool_name == "find_files"@ {
        "read"@
    } else {
        "other"@
    }
}

/// Map tool_name to kind.
pub fn tool_kind(tool_name: &str) -> (k: String)
    ensures
        k@ == tool_kind_spec(tool_name@),
{
    if same_text(tool_name, "run_terminal_command") {
        owned("execute")
    } else if same_text(tool_name, "write_file") || same_text(tool_name, "str_replace") || same_text(
        tool_name,
        "create_file",
    ) {
        owned("edit")
    } else if same_text(tool_name, "read_files") || same_text(tool_name, "read_file") || same_text(
        tool_name,
        "code_search",
    ) || same_text(tool_name, "find_files") {
        owned("read")
    } else {
        owned("other")
    }
}

/// The command, else the path, that a tool's input names; empty when it
/// names neither as a string.
pub open spec fn tool_extra(input: JsonV) -> Seq<char> {
    match input.str_field("command"@) {
        Some(c) => c,
        None => match input.str_field("path"@) {
            Some(p) => p,
            None => Seq::empty(),
        },
    }
}

/// Build tool title: tool_name + ": " + command/path from input.
pub open spec fn tool_title_spec(tool_name: Seq<char>, input: JsonV) -> Seq<char> {
    if tool_extra(input).len() == 0 {
        tool_name
    } else {
        tool_name + ": "@ + tool_extra(input)
    }
}

/// Build tool title: tool_name + ": " + command/path from input.
pub fn build_tool_title(tool_name: &str, input: &Json) -> (t: String)
    ensures
        t@ == tool_title_spec(tool_name@, input@),
{
    let extra: String = match input.str_field("command") {
        Some(c) => c.clone(),
        None => match input.str_field("path") {
            Some(p) => p.clone(),
            None => String::new(),
        },
    };
    if extra.as_str().is_empty() {
        owned(tool_name)
    } else {
        let head = concat_text(tool_name, ": ");
        concat_text(head.as_str(), extra.as_str())
    }
}

/// The update that streams a transcript delta, and whether it is a chunk
/// of the reply message: text deltas as thought (reasoning) or message
/// chunks; a started tool as an in-progress tool call titled and kinded by
/// its name and input; a finished tool as a completed update carrying the
/// output both raw (`{"output": ..}`) and as text content.
pub open spec fn delta_update_spec(d: DeltaV, u: SessionUpdate, is_message: bool) -> bool {
    match d {
        DeltaV::Text { reasoning, delta } => is_message == !reasoning && if reasoning {
            u matches SessionUpdate::AgentThoughtChunk { content: TextContent::Text { text } } && text@ == delta
        } else {
            u matches SessionUpdate::AgentMessageChunk { content: TextContent::Text { text } } && text@ == delta
        },
        DeltaV::ToolStarted { tool_call_id, tool_name, input } => {
            &&& !is_message
            &&& u matches SessionUpdate::ToolCall { tool_call_id: id, title, kind, status, raw_input }
            &&& id@ == tool_call_id
            &&& title@ == tool_title_spec(tool_name, input)
            &&& kind@ == tool_kind_spec(tool_name)
            &&& status == ToolCallStatus::InProgress
            &&& raw_input@ == input
        },
        DeltaV::ToolFinished { tool_call_id, output } => {
            &&& !is_message
            &&& u matches SessionUpdate::ToolCallUpdate {
                tool_call_id: id,
                status,
                raw_output: Some(raw),
                content: Some(items),
            }
            &&& id@ == tool_call_id
            &&& status == ToolCallStatus::Completed
            &&& raw@ == JsonV::Object(seq![("output"@, JsonV::Str(output))])
            &&& items@.len() == 1
            &&& items@[0] matches ToolCallContentItem::Content { content: TextContent::Text { text } }
            &&& text@ == output
        },
    }
}

/// The update that streams a transcript delta, and whether it is a chunk
/// of the reply message.
pub fn delta_update(d: Delta) -> (r: (SessionUpdate, bool))
    ensures
        delta_update_spec(d@, r.0, r.1),
{
    match d {
        Delta::Text { reasoning, delta } => {
            if reasoning {
                (SessionUpdate::AgentThoughtChunk { content: TextContent::text(delta) }, false)
            } else {
                (SessionUpdate::AgentMessageChunk { content: TextContent::text(delta) }, true)
            }
        },
        Delta::ToolStarted { tool_call_id, tool_name, input } => {
            let title = build_tool_title(tool_name.as_str(), &input);
            let kind = tool_kind(tool_name.as_str());
            (
                SessionUpdate::ToolCall {
                    tool_call_id,
                    title,
                    kind,
                    status: ToolCallStatus::InProgress,
                    raw_input: input,
                },
                false,
            )
        },
        Delta::ToolFinished { tool_call_id, output } => {
            let es = vec![entry("output", Json::Str(output.clone()))];
            let raw = object(es);
            assert(entries_view(es@) =~= seq![("output"@, JsonV::Str(output@))]);
            let items = vec![ToolCallContentItem::Content { content: TextContent::text(output) }];
            (
                SessionUpdate::ToolCallUpdate {
                    tool_call_id,
                    status: ToolCallStatus::Completed,
                    raw_output: Some(raw),
                    content: Some(items),
                },
                false,
            )
        },
    }
}

/// The decimal digits of `n`.
pub open spec fn decimal(n: nat) -> Seq<char> {
    digits_of(n)
}

/// The decimal digits of a `u128`.
fn u128_digits(n: u128) -> (s: String)
    ensures
        s@ == digits_of(n as nat),
    decreases n,
{
    if n < 10 {
        let mut s = String::new();
        let c = ((n as u8) + 48u8) as char;
        push_char(&mut s, c);
        assert(s@ == seq![c]);
        s
    } else {
        let mut s = u128_digits(n / 10);
        let c = (((n % 10) as u8) + 48u8) as char;
        push_char(&mut s, c);
        s
    }
}

/// The session id for a session started at `millis` (milliseconds since the
/// Unix epoch) with the child's pid: `blink-<millis>-<pid>`.
pub fn session_id_for(millis: u128, child_pid: u32) -> (id: String)
    ensures
        id@ == "blink-"@ + digits_of(millis as nat) + "-"@ + digits_of(child_pid as nat),
{
    let m = u128_digits(millis);
    let p = crate::json::u64_digits(child_pid as u64);
    let a = concat_text("blink-", m.as_str());
    let b = concat_text(a.as_str(), "-");
    concat_text(b.as_str(), p.as_str())
}

/// The turn loop's memory between polls: whether the cancel key was sent,
/// and the log events seen since the prompt was submitted.
#[derive(Debug, Clone)]
pub struct TurnState {
    pub cancelled_sent: bool,
    pub events: Vec<LogEvent>,
}

/// What one poll of the turn loop decided.
#[derive(Debug, Clone, PartialEq)]
pub struct TurnPoll {
    /// Send the cancel key (Escape) now.
    pub send_cancel: bool,
    /// The turn's outcome, once the log shows it.
    pub outcome: Option<TurnOutcome>,
}

/// Whether a poll sends the cancel key: a cancel was asked for and the key
/// has not been sent yet.
pub open spec fn sends_cancel(cancelled_sent: bool, cancel_requested: bool) -> bool {
    cancel_requested && !cancelled_sent
}

/// Whether the cancel key has been sent once the poll is done.
pub open spec fn cancel_sent_after(cancelled_sent: bool, cancel_requested: bool) -> bool {
    cancelled_sent || cancel_requested
}

impl TurnState {
    /// A turn that has just been submitted.
    pub fn new() -> (t: TurnState)
        ensures
            !t.cancelled_sent,
            t.events@.len() == 0,
    {
        TurnState { cancelled_sent: false, events: Vec::new() }
    }

    /// One poll: the cancel key is sent once, on the first poll that sees a
    /// cancel request; the new log events are added to those seen; the
    /// outcome is the outcome of all of them.
    pub fn poll(&mut self, cancel_requested: bool, new_events: Vec<LogEvent>) -> (p: TurnPoll)
        ensures
            p.send_cancel == sends_cancel(old(self).cancelled_sent, cancel_requested),
            final(self).cancelled_sent == cancel_sent_after(old(self).cancelled_sent, cancel_requested),
            events_view(final(self).events@) == events_view(old(self).events@) + events_view(new_events@),
            match p.outcome {
                Some(o) => outcome_spec(events_view(final(self).events@)) == Some(o@),
                None => outcome_spec(events_view(final(self).events@)) is None,
            },
    {
        let send_cancel = cancel_requested && !self.cancelled_sent;
        let sent_after = self.cancelled_sent || cancel_requested;
        self.cancelled_sent = sent_after;
        let ghost before = events_view(self.events@);
        let mut i: usize = 0;
        while i < new_events.len()
            invariant
                i <= new_events@.len(),
                self.cancelled_sent == sent_after,
                events_view(self.events@) == before + events_view(new_events@.take(i as int)),
            decreases new_events@.len() - i,
        {
            let e = new_events[i].clone_event();
            let ghost prev = self.events@;
            self.events.push(e);
            assert(events_view(self.events@) =~= events_view(prev).push(e@));
            assert(events_view(new_events@.take(i + 1)) =~= events_view(new_events@.take(i as int)).push(
                new_events@[i as int]@,
            ));
            i = i + 1;
        }
        assert(new_events@.take(new_events@.len() as int) =~= new_events@);
        let outcome = outcome(&self.events);
        TurnPoll { send_cancel, outcome }
    }

    /// How the finished turn answers the prompt; see [`turn_result`].
    pub fn finish(&self, outcome: &TurnOutcome, emitted_message_chunk: bool) -> (r: Result<StopReason, String>)
        ensures
            match r {
                Ok(s) => turn_result_spec(outcome@, emitted_message_chunk, self.cancelled_sent) == Ok::<StopReason, Seq<char>>(s),
                Err(m) => turn_result_spec(outcome@, emitted_message_chunk, self.cancelled_sent) == Err::<StopReason, Seq<char>>(m@),
            },
    {
        turn_result(outcome, emitted_message_chunk, self.cancelled_sent)
    }
}

/// Over any run of polls the cancel key is sent at most once: a poll that
/// sends it leaves the turn in a state from which no later poll sends it.
pub proof fn lemma_cancel_sent_once(cancelled_sent: bool, first: bool, later: bool)
    ensures
        sends_cancel(cancelled_sent, first) ==> !sends_cancel(cancel_sent_after(cancelled_sent, first), later),
        cancel_sent_after(cancelled_sent, first) ==> cancel_sent_after(cancel_sent_after(cancelled_sent, first), later),
{
}

/// Whether a delta is reply text (not reasoning, not a tool).
pub open spec fn is_message_delta(d: DeltaV) -> bool {
    d matches DeltaV::Text { reasoning: false, .. }
}

/// What one poll of the transcript leaves: the cursor, the parse failure
/// count, the updates to send (in order), whether reply text went out, and
/// the error that ends the turn, if any.
#[derive(Debug)]
pub struct TranscriptStep {
    pub cursor: Cursor,
    pub failures: u32,
    pub updates: Vec<SessionUpdate>,
    pub emitted_message: bool,
    pub error: Option<String>,
}

/// One poll of the transcript. When it parsed, the cursor moves as [`diff`]
/// moves it, the failure count resets, and each delta becomes one update,
/// in order; reply text marks a message as emitted. When it did not parse,
/// the cursor stays, the count goes up by one, nothing is sent, and the
/// turn fails only on the final flush.
pub fn transcript_step(
    cursor: &Cursor,
    failures: u32,
    parsed: Result<Vec<Message>, String>,
    is_final_flush: bool,
) -> (r: TranscriptStep)
    requires
        match parsed {
            Ok(ms) => diff_fits_spec(cursor@, messages_view(ms@)),
            Err(_) => failures < u32::MAX,
        },
    ensures
        match parsed {
            Ok(ms) => {
                let ds = diff_spec(cursor@, messages_view(ms@)).1;
                &&& r.cursor@ == diff_spec(cursor@, messages_view(ms@)).0
                &&& r.failures == 0
                &&& r.error is None
                &&& r.updates@.len() == ds.len()
                &&& forall|k: int|
                    0 <= k < ds.len() ==> delta_update_spec(ds[k], #[trigger] r.updates@[k], is_message_delta(ds[k]))
                &&& r.emitted_message == exists|k: int| 0 <= k < ds.len() && is_message_delta(#[trigger] ds[k])
            },
            Err(e) => {
                &&& r.cursor@ == cursor@
                &&& r.failures == failures + 1
                &&& r.updates@.len() == 0
                &&& !r.emitted_message
                &&& match r.error {
                    Some(m) => is_final_flush && m@ == "freebuff transcript could not be parsed: "@ + e@,
                    None => !is_final_flush,
                }
            },
        },
{
    match parsed {
        Err(e) => {
            let (count, error) = transcript_parse_failed(failures, is_final_flush, e.as_str());
            TranscriptStep { cursor: cursor.copy(), failures: count, updates: Vec::new(), emitted_message: false, error }
        },
        Ok(ms) => {
            let (next, mut ds) = diff(cursor, &ms);
            let ghost dv = deltas_view(ds@);
            let mut updates: Vec<SessionUpdate> = Vec::new();
            let mut emitted = false;
            let mut k: usize = 0;
            let n = ds.len();
            assert(dv.subrange(0, n as int) =~= dv);
            while k < n
                invariant
                    n == dv.len(),
                    k <= n,
                    deltas_view(ds@) == dv.subrange(k as int, n as int),
                    updates@.len() == k,
                    forall|j: int| 0 <= j < k ==> delta_update_spec(dv[j], #[trigger] updates@[j], is_message_delta(dv[j])),
                    emitted == exists|j: int| 0 <= j < k && is_message_delta(#[trigger] dv[j]),
                decreases n - k,
            {
                let ghost before = ds@;
                assert(deltas_view(before).len() == before.len());
                assert(deltas_view(before)[0] == dv[k as int]);
                let d = ds.remove(0);
                assert(d@ == deltas_view(before)[0]);
                assert(deltas_view(ds@) =~= dv.subrange(k + 1, n as int)) by {
                    assert(ds@ == before.remove(0));
                    assert(ds@.len() == before.len() - 1);
                    assert forall|j: int| 0 <= j < ds@.len() implies deltas_view(ds@)[j] == dv.subrange(k + 1, n as int)[j] by {
                        assert(ds@[j] == before[j + 1]);
                        assert(deltas_view(before)[j + 1] == dv.subrange(k as int, n as int)[j + 1]);
                    }
                }
                let (u, is_message) = delta_update(d);
                assert(is_message == is_message_delta(dv[k as int]));
                updates.push(u);
                emitted = emitted || is_message;
                k = k + 1;
            }
            assert(dv == diff_spec(cursor@, messages_view(ms@)).1);
            TranscriptStep { cursor: next, failures: 0, updates, emitted_message: emitted, error: None }
        },
    }
}

/// Where the submission of a prompt stands.
#[derive(Debug, Clone, Copy, PartialEq, Eq)]
pub enum SubmitPhase {
    /// Nothing done yet.
    Start,
    /// Waiting for the idle prompt.
    AwaitIdle,
    /// The paste was written; waiting for the box (or a chip) to show it.
    AwaitShown,
    /// Enter was sent; waiting for freebuff to take the prompt.
    AwaitResolved,
    /// Waiting once more, after Enter was sent again if the text still sat
    /// in the box.
    AwaitResolvedAgain,
    /// The prompt was taken.
    Done,
    /// The submission failed.
    Failed,
}

/// What a step writes to the terminal.
#[derive(Debug, Clone, Copy, PartialEq, Eq)]
pub enum SubmitWrite {
    /// The prompt, as a bracketed paste.
    Paste,
    /// The Enter key.
    Enter,
}

/// A screen condition that the submission waits for.
#[derive(Debug, Clone, Copy, PartialEq, Eq)]
pub enum SubmitCondition {
    /// The idle prompt.
    Idle,
    /// The box shows the prompt's start, or a pasted-text chip.
    Shown,
    /// freebuff went busy or consumed the prompt.
    Resolved,
}

/// What follows a step.
#[derive(Debug, Clone, PartialEq, Eq)]
pub enum SubmitNext {
    /// Wait up to `secs` seconds for `until`.
    Wait { until: SubmitCondition, secs: u64 },
    /// The prompt went in.
    Done,
    /// The submission fails with this message.
    Fail { message: String },
    /// Nothing more (the submission had already ended).
    Stop,
}

/// The mathematical value of a [`SubmitNext`].
pub enum SubmitNextV {
    Wait { until: SubmitCondition, secs: u64 },
    Done,
    Fail { message: Seq<char> },
    Stop,
}

impl View for SubmitNext {
    type V = SubmitNextV;

    open spec fn view(&self) -> SubmitNextV {
        match self {
            SubmitNext::Wait { until, secs } => SubmitNextV::Wait { until: *until, secs: *secs },
            SubmitNext::Done => SubmitNextV::Done,
            SubmitNext::Fail { message } => SubmitNextV::Fail { message: message@ },
            SubmitNext::Stop => SubmitNextV::Stop,
        }
    }
}

/// Whether the screen meets a condition, for a prompt whose start is
/// `preview`.
pub open spec fn submit_condition_spec(cond: SubmitCondition, rs: Seq<Seq<char>>, preview: Seq<char>) -> bool {
    match cond {
        SubmitCondition::Idle => classify_spec(rs) is Idle,
        SubmitCondition::Shown => box_shows(rs, preview) || chip_from(rs, 0) is Some,
        SubmitCondition::Resolved => submit_resolved_spec(rs, preview),
    }
}

/// Check a condition on the screen rows.
pub fn submit_condition_holds(cond: SubmitCondition, rows: &[String], preview: &str) -> (b: bool)
    ensures
        b == submit_condition_spec(cond, rows_view(rows@), preview@),
{
    match cond {
        SubmitCondition::Idle => match classify(rows) {
            ScreenState::Idle => true,
            _ => false,
        },
        SubmitCondition::Shown => paste_visible(rows, preview),
        SubmitCondition::Resolved => submit_resolved(rows, preview),
    }
}

/// The submission protocol, one wait at a time. `met` says whether the
/// last wait saw its condition; `rs` and `screen` are the screen after it,
/// as rows and as text; `wait_error` is the waiting's own error. Wait for
/// the idle prompt (10 s), else fail as busy; write the paste and wait for
/// it to show (5 s), else fail; send Enter and wait for freebuff to take it
/// (2 s); if it did not, send Enter again when the text still sits in the
/// box, and wait for the rest of the submit timeout, else fail.
pub open spec fn submit_step_spec(
    phase: SubmitPhase,
    met: bool,
    rs: Seq<Seq<char>>,
    screen: Seq<char>,
    wait_error: Seq<char>,
    submit_timeout_s: u64,
) -> (SubmitPhase, Option<SubmitWrite>, SubmitNextV) {
    match phase {
        SubmitPhase::Start => (
            SubmitPhase::AwaitIdle,
            None,
            SubmitNextV::Wait { until: SubmitCondition::Idle, secs: 10 },
        ),
        SubmitPhase::AwaitIdle => if met {
            (
                SubmitPhase::AwaitShown,
                Some(SubmitWrite::Paste),
                SubmitNextV::Wait { until: SubmitCondition::Shown, secs: 5 },
            )
        } else {
            (SubmitPhase::Failed, None, SubmitNextV::Fail { message: "freebuff is busy: "@ + wait_error })
        },
        SubmitPhase::AwaitShown => if met {
            (
                SubmitPhase::AwaitResolved,
                Some(SubmitWrite::Enter),
                SubmitNextV::Wait { until: SubmitCondition::Resolved, secs: 2 },
            )
        } else {
            (
                SubmitPhase::Failed,
                None,
                SubmitNextV::Fail {
                    message: "freebuff did not show the prompt text or a pasted-text chip in the input box within 5s; screen:\n"@
                        + screen,
                },
            )
        },
        SubmitPhase::AwaitResolved => if met {
            (SubmitPhase::Done, None, SubmitNextV::Done)
        } else {
            (
                SubmitPhase::AwaitResolvedAgain,
                if needs_nudge_spec(rs) {
                    Some(SubmitWrite::Enter)
                } else {
                    None
                },
                SubmitNextV::Wait {
                    until: SubmitCondition::Resolved,
                    secs: (if submit_timeout_s >= 2 {
                        submit_timeout_s - 2
                    } else {
                        0
                    }) as u64,
                },
            )
        },
        SubmitPhase::AwaitResolvedAgain => if met {
            (SubmitPhase::Done, None, SubmitNextV::Done)
        } else {
            (
                SubmitPhase::Failed,
                None,
                SubmitNextV::Fail {
                    message: "freebuff neither went busy nor consumed the prompt within "@ + digits_of(
                        submit_timeout_s as nat,
                    ) + "s; screen:\n"@ + screen,
                },
            )
        },
        _ => (phase, None, SubmitNextV::Stop),
    }
}

/// One step of the submission protocol; see [`submit_step_spec`].
pub fn submit_step(
    phase: SubmitPhase,
    met: bool,
    rows: &[String],
    screen: &str,
    wait_error: &str,
    submit_timeout_s: u64,
) -> (r: (SubmitPhase, Option<SubmitWrite>, SubmitNext))
    ensures
        (r.0, r.1, r.2@) == submit_step_spec(phase, met, rows_view(rows@), screen@, wait_error@, submit_timeout_s),
{
    match phase {
        SubmitPhase::Start => (
            SubmitPhase::AwaitIdle,
            None,
            SubmitNext::Wait { until: SubmitCondition::Idle, secs: 10 },
        ),
        SubmitPhase::AwaitIdle => if met {
            (SubmitPhase::AwaitShown, Some(SubmitWrite::Paste), SubmitNext::Wait { until: SubmitCondition::Shown, secs: 5 })
        } else {
            (SubmitPhase::Failed, None, SubmitNext::Fail { message: concat_text("freebuff is busy: ", wait_error) })
        },
        SubmitPhase::AwaitShown => if met {
            (SubmitPhase::AwaitResolved, Some(SubmitWrite::Enter), SubmitNext::Wait { until: SubmitCondition::Resolved, secs: 2 })
        } else {
            let message = concat_text(
                "freebuff did not show the prompt text or a pasted-text chip in the input box within 5s; screen:\n",
                screen,
            );
            (SubmitPhase::Failed, None, SubmitNext::Fail { message })
        },
        SubmitPhase::AwaitResolved => if met {
            (SubmitPhase::Done, None, SubmitNext::Done)
        } else {
            let write = if needs_nudge(rows) {
                Some(SubmitWrite::Enter)
            } else {
                None
            };
            (
                SubmitPhase::AwaitResolvedAgain,
                write,
                SubmitNext::Wait { until: SubmitCondition::Resolved, secs: remainder_after_nudge(submit_timeout_s) },
            )
        },
        SubmitPhase::AwaitResolvedAgain => if met {
            (SubmitPhase::Done, None, SubmitNext::Done)
        } else {
            let a = concat_text(
                "freebuff neither went busy nor consumed the prompt within ",
                crate::json::u64_digits(submit_timeout_s).as_str(),
            );
            let b = concat_text(a.as_str(), "s; screen:\n");
            (SubmitPhase::Failed, None, SubmitNext::Fail { message: concat_text(b.as_str(), screen) })
        },
        SubmitPhase::Done => (SubmitPhase::Done, None, SubmitNext::Stop),
        SubmitPhase::Failed => (SubmitPhase::Failed, None, SubmitNext::Stop),
    }
}

/// The writes that a run of steps from `phase` makes, in order, for the
/// wait outcomes `inputs` (whether the condition was met, and the screen).
pub open spec fn submit_writes(
    phase: SubmitPhase,
    inputs: Seq<(bool, Seq<Seq<char>>)>,
    screen: Seq<char>,
    wait_error: Seq<char>,
    submit_timeout_s: u64,
) -> Seq<SubmitWrite>
    decreases inputs.len(),
{
    if inputs.len() == 0 {
        Seq::empty()
    } else {
        let (next, w, _n) = submit_step_spec(phase, inputs[0].0, inputs[0].1, screen, wait_error, submit_timeout_s);
        let first = match w {
            Some(x) => seq![x],
            None => Seq::empty(),
        };
        first + submit_writes(next, inputs.drop_first(), screen, wait_error, submit_timeout_s)
    }
}

/// The writes still possible from a phase, in order.
pub open spec fn writes_left(phase: SubmitPhase) -> Seq<SubmitWrite> {
    match phase {
        SubmitPhase::Start => seq![SubmitWrite::Paste, SubmitWrite::Enter, SubmitWrite::Enter],
        SubmitPhase::AwaitIdle => seq![SubmitWrite::Paste, SubmitWrite::Enter, SubmitWrite::Enter],
        SubmitPhase::AwaitShown => seq![SubmitWrite::Enter, SubmitWrite::Enter],
        SubmitPhase::AwaitResolved => seq![SubmitWrite::Enter],
        _ => Seq::empty(),
    }
}

/// `a` is a prefix of `b`.
pub open spec fn prefix_of(a: Seq<SubmitWrite>, b: Seq<SubmitWrite>) -> bool {
    a.len() <= b.len() && b.take(a.len() as int) == a
}

proof fn lemma_writes_within(
    phase: SubmitPhase,
    inputs: Seq<(bool, Seq<Seq<char>>)>,
    screen: Seq<char>,
    wait_error: Seq<char>,
    submit_timeout_s: u64,
)
    ensures
        prefix_of(submit_writes(phase, inputs, screen, wait_error, submit_timeout_s), writes_left(phase)),
    decreases inputs.len(),
{
    if inputs.len() > 0 {
        let (next, w, _n) = submit_step_spec(phase, inputs[0].0, inputs[0].1, screen, wait_error, submit_timeout_s);
        lemma_writes_within(next, inputs.drop_first(), screen, wait_error, submit_timeout_s);
        let rest = submit_writes(next, inputs.drop_first(), screen, wait_error, submit_timeout_s);
        let first = match w {
            Some(x) => seq![x],
            None => Seq::<SubmitWrite>::empty(),
        };
        let all = first + rest;
        assert(all == submit_writes(phase, inputs, screen, wait_error, submit_timeout_s));
        let left = writes_left(phase);
        assert(rest.len() <= writes_left(next).len());
        assert(writes_left(next).take(rest.len() as int) == rest);
        match phase {
            SubmitPhase::AwaitResolved => {
                if w is Some {
                    assert(left.take(all.len() as int) =~= all);
                } else {
                    assert(rest.len() == 0);
                    assert(left.take(all.len() as int) =~= all);
                }
            },
            _ => {
                assert(left.take(all.len() as int) =~= all);
            },
        }
    } else {
        assert(writes_left(phase).take(0) =~= Seq::<SubmitWrite>::empty());
    }
}

/// Over any run of the submission protocol the terminal gets at most the
/// paste, then Enter, then Enter once more, in that order: the writes are
/// a prefix of `[Paste, Enter, Enter]`.
pub proof fn lemma_submit_writes_in_order(
    inputs: Seq<(bool, Seq<Seq<char>>)>,
    screen: Seq<char>,
    wait_error: Seq<char>,
    submit_timeout_s: u64,
)
    ensures
        prefix_of(
            submit_writes(SubmitPhase::Start, inputs, screen, wait_error, submit_timeout_s),
            seq![SubmitWrite::Paste, SubmitWrite::Enter, SubmitWrite::Enter],
        ),
{
    lemma_writes_within(SubmitPhase::Start, inputs, screen, wait_error, submit_timeout_s);
}

/// Tool kinds: the read tools (`read_files`, `read_file`, `code_search`,
/// `find_files`) are `read`; `run_terminal_command` is `execute`; the
/// editing tools (`write_file`, `str_replace`, `create_file`) are `edit`;
/// every other name is `other`.
pub proof fn lemma_tool_kinds(name: Seq<char>)
    ensures
        (name == "read_files"@ || name == "read_file"@ || name == "code_search"@ || name == "find_files"@)
            ==> tool_kind_spec(name) == "read"@,
        name == "run_terminal_command"@ ==> tool_kind_spec(name) == "execute"@,
        (name == "write_file"@ || name == "str_replace"@ || name == "create_file"@) ==> tool_kind_spec(name)
            == "edit"@,
        !(name == "read_files"@ || name == "read_file"@ || name == "code_search"@ || name == "find_files"@
            || name == "run_terminal_command"@ || name == "write_file"@ || name == "str_replace"@
            || name == "create_file"@) ==> tool_kind_spec(name) == "other"@,
{
    reveal_strlit("read_files");
    reveal_strlit("read_file");
    reveal_strlit("code_search");
    reveal_strlit("find_files");
    reveal_strlit("run_terminal_command");
    reveal_strlit("write_file");
    reveal_strlit("str_replace");
    reveal_strlit("create_file");
    reveal_strlit("read");
    reveal_strlit("execute");
    reveal_strlit("edit");
    reveal_strlit("other");
    assert("run_terminal_command"@.len() == 20 && "run_terminal_command"@[0] == 'r');
    assert("write_file"@.len() == 10 && "write_file"@[0] == 'w');
    assert("str_replace"@.len() == 11 && "str_replace"@[0] == 's');
    assert("create_file"@.len() == 11 && "create_file"@[0] == 'c');
    assert("read_files"@.len() == 10 && "read_files"@[0] == 'r');
    assert("read_file"@.len() == 9);
    assert("code_search"@.len() == 11 && "code_search"@[0] == 'c' && "code_search"@[1] == 'o');
    assert("create_file"@[1] == 'r');
    assert("find_files"@.len() == 10 && "find_files"@[0] == 'f');
}

/// Once freebuff takes the prompt the submission is done: in the two
/// phases that wait for it, a met wait ends the submission with no write,
/// whatever the screen shows; and a submission fails only on a wait that
/// was not met.
pub proof fn lemma_submit_met_wait_is_done(
    phase: SubmitPhase,
    met: bool,
    rs: Seq<Seq<char>>,
    screen: Seq<char>,
    wait_error: Seq<char>,
    submit_timeout_s: u64,
)
    ensures
        met && (phase == SubmitPhase::AwaitResolved || phase == SubmitPhase::AwaitResolvedAgain) ==> submit_step_spec(
            phase,
            met,
            rs,
            screen,
            wait_error,
            submit_timeout_s,
        ) == (SubmitPhase::Done, None::<SubmitWrite>, SubmitNextV::Done),
        submit_step_spec(phase, met, rs, screen, wait_error, submit_timeout_s).2 is Fail ==> !met,
        submit_step_spec(phase, met, rs, screen, wait_error, submit_timeout_s).0 == SubmitPhase::Failed ==> !met
            || phase == SubmitPhase::Failed,
{
}

} // verus!
