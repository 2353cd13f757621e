//! Parser for `log.jsonl` (pino lines).
//! Each line: {level, timestamp, pid, hostname, msg, data?}

use vstd::prelude::*;

use crate::json::{parse_json, Json, JsonV, json_parse};
use crate::text::{
    chars_of, find, find_chars, lemma_find, parse_u64, parse_unsigned, starts_with, string_from,
    trim, trim_bounds, starts_with_at,
};
use crate::freebuff::screen::slice_chars;

verus! {

/// A parsed log event from log.jsonl.
#[derive(Debug, Clone, PartialEq)]
pub enum LogEvent {
    /// Turn started: `[send-message] Sending message with sdk run config`
    TurnStarted,
    /// Step start: `Start agent <model> step N`
    StepStart { step: u32 },
    /// Step end: `End agent <model> step N`
    StepEnd { step: u32 },
    /// Turn finished: `Main prompt finished` with data.outputType
    Finished { output_type: String },
    /// Agent execution failed: `Agent execution failed` with data.error.message
    Failed { message: String },
    /// Any other line.
    Other,
}

/// The mathematical value of a [`LogEvent`].
pub enum LogEventV {
    TurnStarted,
    StepStart { step: u32 },
    StepEnd { step: u32 },
    Finished { output_type: Seq<char> },
    Failed { message: Seq<char> },
    Other,
}

impl View for LogEvent {
    type V = LogEventV;

    open spec fn view(&self) -> LogEventV {
        match self {
            LogEvent::TurnStarted => LogEventV::TurnStarted,
            LogEvent::StepStart { step } => LogEventV::StepStart { step: *step },
            LogEvent::StepEnd { step } => LogEventV::StepEnd { step: *step },
            LogEvent::Finished { output_type } => LogEventV::Finished { output_type: output_type@ },
            LogEvent::Failed { message } => LogEventV::Failed { message: message@ },
            LogEvent::Other => LogEventV::Other,
        }
    }
}

/// The piece of `rest` that `rest.split("step ").nth(1)` yields: the text
/// after the first `step ` up to the next one, or to the end.
pub open spec fn second_piece(rest: Seq<char>) -> Option<Seq<char>> {
    match find(rest, "step "@) {
        None => None,
        Some(i) => {
            let after = rest.subrange(i + "step "@.len(), rest.len() as int);
            match find(after, "step "@) {
                Some(j) => Some(after.subrange(0, j)),
                None => Some(after),
            }
        },
    }
}

/// What [`parse_step_number`] returns: for a message that starts with
/// `prefix`, the text after the first `step ` (up to any next `step `),
/// trimmed and parsed as a `u32`.
pub open spec fn step_number_spec(msg: Seq<char>, prefix: Seq<char>) -> Option<u32> {
    if starts_with(msg, prefix) {
        match second_piece(msg.subrange(prefix.len() as int, msg.len() as int)) {
            Some(p) => match parse_unsigned(trim(p), u32::MAX as nat) {
                Some(n) => Some(n as u32),
                None => None,
            },
            None => None,
        }
    } else {
        None
    }
}

proof fn lemma_parse_narrow(s: Seq<char>)
    ensures
        parse_unsigned(s, u32::MAX as nat) == (match parse_unsigned(s, u64::MAX as nat) {
            Some(n) => if n <= u32::MAX {
                Some(n)
            } else {
                None::<nat>
            },
            None => None,
        }),
{
}

/// Parse step number from "Start agent <model> step N" or "End agent <model> step N"
pub fn parse_step_number(msg: &str, prefix: &str) -> (r: Option<u32>)
    ensures
        r == step_number_spec(msg@, prefix@),
{
    let m = chars_of(msg);
    let p = chars_of(prefix);
    if !starts_with_at(&m, 0, prefix) {
        assert(m@.subrange(0, m@.len() as int) == m@);
        return None;
    }
    assert(m@.subrange(0, m@.len() as int) == m@);
    let rest = slice_chars(&m, p.len(), m.len());
    let pat = chars_of("step ");
    let i = match find_chars(&rest, &pat) {
        Some(i) => i,
        None => return None,
    };
    proof {
        lemma_find(rest@, pat@);
    }
    let after = slice_chars(&rest, i + pat.len(), rest.len());
    let piece = match find_chars(&after, &pat) {
        Some(j) => {
            proof {
                lemma_find(after@, pat@);
            }
            slice_chars(&after, 0, j)
        },
        None => slice_chars(&after, 0, after.len()),
    };
    assert(after@.subrange(0, after@.len() as int) == after@);
    let (s, e) = trim_bounds(&piece, 0, piece.len());
    assert(piece@.subrange(0, piece@.len() as int) == piece@);
    proof {
        lemma_parse_narrow(piece@.subrange(s as int, e as int));
    }
    match parse_u64(&piece, s, e) {
        Some(n) => if n <= 4294967295u64 {
            Some(n as u32)
        } else {
            None
        },
        None => None,
    }
}

/// The `outputType` of a `Main prompt finished` line, `unknown` when absent.
pub open spec fn output_type_of(v: JsonV) -> Seq<char> {
    match v.get("data"@) {
        Some(d) => match d.str_field("outputType"@) {
            Some(o) => o,
            None => "unknown"@,
        },
        None => "unknown"@,
    }
}

/// The `data.error.message` of an `Agent execution failed` line, `unknown`
/// when absent.
pub open spec fn failure_message_of(v: JsonV) -> Seq<char> {
    match v.get("data"@) {
        Some(d) => match d.get("error"@) {
            Some(e) => match e.str_field("message"@) {
                Some(m) => m,
                None => "unknown"@,
            },
            None => "unknown"@,
        },
        None => "unknown"@,
    }
}

/// The event that a parsed line with message `msg` stands for.
pub open spec fn event_of(v: JsonV, msg: Seq<char>) -> LogEventV {
    if msg == "[send-message] Sending message with sdk run config"@ {
        LogEventV::TurnStarted
    } else if step_number_spec(msg, "Start agent "@) is Some {
        LogEventV::StepStart { step: step_number_spec(msg, "Start agent "@)->0 }
    } else if step_number_spec(msg, "End agent "@) is Some {
        LogEventV::StepEnd { step: step_number_spec(msg, "End agent "@)->0 }
    } else if msg == "Main prompt finished"@ {
        LogEventV::Finished { output_type: output_type_of(v) }
    } else if msg == "Agent execution failed"@ {
        LogEventV::Failed { message: failure_message_of(v) }
    } else {
        LogEventV::Other
    }
}

/// What [`parse_log_line`] returns: the line is trimmed; a blank line, one
/// that is not JSON, or one without a string `msg` is `Other`; otherwise the
/// message decides.
pub open spec fn log_event_spec(line: Seq<char>) -> LogEventV {
    let t = trim(line);
    if t.len() == 0 {
        LogEventV::Other
    } else {
        match json_parse(t) {
            Err(_) => LogEventV::Other,
            Ok(v) => match v.str_field("msg"@) {
                None => LogEventV::Other,
                Some(msg) => event_of(v, msg),
            },
        }
    }
}

/// The event for a parsed line.
pub fn event_from_json(v: &Json) -> (r: LogEvent)
    ensures
        r@ == (match v@.str_field("msg"@) {
            None => LogEventV::Other,
            Some(msg) => event_of(v@, msg),
        }),
{
    let msg = match v.str_field("msg") {
        Some(m) => m.as_str(),
        None => return LogEvent::Other,
    };
    let mc = chars_of(msg);
    if crate::json::same_text(msg, "[send-message] Sending message with sdk run config") {
        return LogEvent::TurnStarted;
    }
    if let Some(step) = parse_step_number(msg, "Start agent ") {
        return LogEvent::StepStart { step };
    }
    if let Some(step) = parse_step_number(msg, "End agent ") {
        return LogEvent::StepEnd { step };
    }
    if crate::json::same_text(msg, "Main prompt finished") {
        let ot = match v.get("data") {
            Some(d) => match d.str_field("outputType") {
                Some(o) => {
                    let c = chars_of(o.as_str());
                    string_from(&c)
                },
                None => unknown(),
            },
            None => unknown(),
        };
        return LogEvent::Finished { output_type: ot };
    }
    if crate::json::same_text(msg, "Agent execution failed") {
        let m = match v.get("data") {
            Some(d) => match d.get("error") {
                Some(e) => match e.str_field("message") {
                    Some(x) => {
                        let c = chars_of(x.as_str());
                        string_from(&c)
                    },
                    None => unknown(),
                },
                None => unknown(),
            },
            None => unknown(),
        };
        return LogEvent::Failed { message: m };
    }
    LogEvent::Other
}

/// The text `unknown`.
fn unknown() -> (s: String)
    ensures
        s@ == "unknown"@,
{
    let c = chars_of("unknown");
    string_from(&c)
}

/// Parse a single log.jsonl line.
/// Never errors; malformed lines become `LogEvent::Other`.
pub fn parse_log_line(line: &str) -> (r: LogEvent)
    ensures
        r@ == log_event_spec(line@),
{
    let c = chars_of(line);
    let (s, e) = trim_bounds(&c, 0, c.len());
    assert(c@.subrange(0, c@.len() as int) == c@);
    if s == e {
        return LogEvent::Other;
    }
    let t = string_from(&slice_chars(&c, s, e));
    match parse_json(t.as_str()) {
        Ok(v) => event_from_json(&v),
        Err(_) => LogEvent::Other,
    }
}

impl LogEvent {
    /// An exact copy.
    pub fn clone_event(&self) -> (e: LogEvent)
        ensures
            e@ == self@,
    {
        match self {
            LogEvent::TurnStarted => LogEvent::TurnStarted,
            LogEvent::StepStart { step } => LogEvent::StepStart { step: *step },
            LogEvent::StepEnd { step } => LogEvent::StepEnd { step: *step },
            LogEvent::Finished { output_type } => LogEvent::Finished { output_type: output_type.clone() },
            LogEvent::Failed { message } => LogEvent::Failed { message: message.clone() },
            LogEvent::Other => LogEvent::Other,
        }
    }
}

/// Outcome of a turn based on log events.
#[derive(Debug, Clone, PartialEq, Eq)]
pub enum TurnOutcome {
    Completed,
    Interrupted,
    Error { message: String },
}

/// The mathematical value of a [`TurnOutcome`].
pub enum TurnOutcomeV {
    Completed,
    Interrupted,
    Error { message: Seq<char> },
}

impl View for TurnOutcome {
    type V = TurnOutcomeV;

    open spec fn view(&self) -> TurnOutcomeV {
        match self {
            TurnOutcome::Completed => TurnOutcomeV::Completed,
            TurnOutcome::Interrupted => TurnOutcomeV::Interrupted,
            TurnOutcome::Error { message } => TurnOutcomeV::Error { message: message@ },
        }
    }
}

/// The events' values.
pub open spec fn events_view(events: Seq<LogEvent>) -> Seq<LogEventV> {
    events.map_values(|e: LogEvent| e@)
}

/// The outcome that a `Finished` event with `output_type` gives, after the
/// failures seen so far (`last_failed` is the message of the latest one).
pub open spec fn finish_outcome(output_type: Seq<char>, last_failed: Option<Seq<char>>) -> TurnOutcomeV {
    if output_type == "error"@ {
        match last_failed {
            Some(m) => if m == "user-interrupt"@ {
                TurnOutcomeV::Interrupted
            } else {
                TurnOutcomeV::Error { message: m }
            },
            None => TurnOutcomeV::Error { message: "unknown"@ },
        }
    } else {
        TurnOutcomeV::Completed
    }
}

/// The outcome from event `k` on, with `last_failed` the message of the
/// latest `Failed` event before `k`.
pub open spec fn outcome_from(events: Seq<LogEventV>, k: int, last_failed: Option<Seq<char>>) -> Option<TurnOutcomeV>
    decreases events.len() - k,
{
    if k < 0 || k >= events.len() {
        None
    } else {
        match events[k] {
            LogEventV::Failed { message } => outcome_from(events, k + 1, Some(message)),
            LogEventV::Finished { output_type } => Some(finish_outcome(output_type, last_failed)),
            _ => outcome_from(events, k + 1, last_failed),
        }
    }
}

/// What [`outcome`] returns: nothing until the first `Finished` event, which
/// then decides: `lastMessage` (or any type other than `error`) completes
/// the turn; `error` after a latest failure `user-interrupt` interrupts it;
/// `error` otherwise fails it with the latest failure's message (`unknown`
/// when there was none).
pub open spec fn outcome_spec(events: Seq<LogEventV>) -> Option<TurnOutcomeV> {
    outcome_from(events, 0, None)
}

/// Determine the turn outcome from a sequence of log events.
/// Returns None until a Finished event is seen.
/// Finished{lastMessage} -> Completed
/// Finished{error} preceded by Failed{"user-interrupt"} -> Interrupted
/// Finished{error} otherwise -> Error{last Failed message or "unknown"}
pub fn outcome(events: &[LogEvent]) -> (r: Option<TurnOutcome>)
    ensures
        match r {
            Some(o) => outcome_spec(events_view(events@)) == Some(o@),
            None => outcome_spec(events_view(events@)) is None,
        },
{
    let ghost ev = events_view(events@);
    let mut last_failed: Option<String> = None;
    let mut k: usize = 0;
    while k < events.len()
        invariant
            k <= events@.len(),
            ev == events_view(events@),
            outcome_spec(ev) == outcome_from(
                ev,
                k as int,
                match last_failed {
                    Some(m) => Some(m@),
                    None => None,
                },
            ),
        decreases events@.len() - k,
    {
        assert(ev[k as int] == events@[k as int]@);
        match &events[k] {
            LogEvent::Failed { message } => {
                let c = chars_of(message.as_str());
                last_failed = Some(string_from(&c));
            },
            LogEvent::Finished { output_type } => {
                if crate::json::same_text(output_type.as_str(), "error") {
                    match last_failed {
                        Some(m) => {
                            if crate::json::same_text(m.as_str(), "user-interrupt") {
                                return Some(TurnOutcome::Interrupted);
                            }
                            return Some(TurnOutcome::Error { message: m });
                        },
                        None => {
                            return Some(TurnOutcome::Error { message: unknown() });
                        },
                    }
                } else {
                    return Some(TurnOutcome::Completed);
                }
            },
            _ => {},
        }
        k = k + 1;
    }
    None
}

proof fn lemma_outcome_from_extend(
    events: Seq<LogEventV>,
    more: Seq<LogEventV>,
    k: int,
    lf: Option<Seq<char>>,
)
    requires
        0 <= k,
        outcome_from(events, k, lf) is Some,
    ensures
        outcome_from(events + more, k, lf) == outcome_from(events, k, lf),
    decreases events.len() - k,
{
    assert((events + more)[k] == events[k]);
    match events[k] {
        LogEventV::Failed { message } => lemma_outcome_from_extend(events, more, k + 1, Some(message)),
        LogEventV::Finished { .. } => {},
        _ => lemma_outcome_from_extend(events, more, k + 1, lf),
    }
}

proof fn lemma_outcome_from_none(events: Seq<LogEventV>, k: int, lf: Option<Seq<char>>)
    requires
        0 <= k,
    ensures
        outcome_from(events, k, lf) is None <==> forall|j: int|
            k <= j < events.len() ==> !((#[trigger] events[j]) is Finished),
    decreases events.len() - k,
{
    if k < events.len() {
        match events[k] {
            LogEventV::Failed { message } => lemma_outcome_from_none(events, k + 1, Some(message)),
            LogEventV::Finished { .. } => {},
            _ => lemma_outcome_from_none(events, k + 1, lf),
        }
    }
}

/// Once the events decide a turn's outcome, later events never change it:
/// the first `Finished` event settles the turn.
pub proof fn lemma_outcome_settled_by_first_finish(events: Seq<LogEventV>, more: Seq<LogEventV>)
    requires
        outcome_spec(events) is Some,
    ensures
        outcome_spec(events + more) == outcome_spec(events),
{
    lemma_outcome_from_extend(events, more, 0, None);
}

/// A turn has no outcome exactly as long as no `Finished` event has been
/// seen.
pub proof fn lemma_no_outcome_until_finished(events: Seq<LogEventV>)
    ensures
        outcome_spec(events) is None <==> forall|j: int|
            0 <= j < events.len() ==> !((#[trigger] events[j]) is Finished),
{
    lemma_outcome_from_none(events, 0, None);
}

/// The message of the latest `Failed` event in `events[i..k]`, or `lf`
/// when there is none.
spec fn latest_failed(events: Seq<LogEventV>, i: int, k: int, lf: Option<Seq<char>>) -> Option<Seq<char>>
    decreases k - i,
{
    if i >= k {
        lf
    } else {
        match events[i] {
            LogEventV::Failed { message } => latest_failed(events, i + 1, k, Some(message)),
            _ => latest_failed(events, i + 1, k, lf),
        }
    }
}

proof fn lemma_outcome_at_finish(events: Seq<LogEventV>, i: int, k: int, lf: Option<Seq<char>>)
    requires
        0 <= i <= k < events.len(),
        events[k] is Finished,
        forall|j: int| i <= j < k ==> !((#[trigger] events[j]) is Finished),
    ensures
        outcome_from(events, i, lf) == Some(
            finish_outcome(
                match events[k] {
                    LogEventV::Finished { output_type } => output_type,
                    _ => Seq::empty(),
                },
                latest_failed(events, i, k, lf),
            ),
        ),
    decreases k - i,
{
    if i < k {
        match events[i] {
            LogEventV::Failed { message } => lemma_outcome_at_finish(events, i + 1, k, Some(message)),
            _ => lemma_outcome_at_finish(events, i + 1, k, lf),
        }
    }
}

proof fn lemma_latest_none(events: Seq<LogEventV>, i: int, k: int, lf: Option<Seq<char>>)
    requires
        0 <= i <= k <= events.len(),
        forall|j: int| i <= j < k ==> !((#[trigger] events[j]) is Failed),
    ensures
        latest_failed(events, i, k, lf) == lf,
    decreases k - i,
{
    if i < k {
        lemma_latest_none(events, i + 1, k, lf);
    }
}

proof fn lemma_latest_is(events: Seq<LogEventV>, i: int, j: int, k: int, m: Seq<char>, lf: Option<Seq<char>>)
    requires
        0 <= i <= j < k <= events.len(),
        events[j] == (LogEventV::Failed { message: m }),
        forall|x: int| j < x < k ==> !((#[trigger] events[x]) is Failed),
    ensures
        latest_failed(events, i, k, lf) == Some(m),
    decreases j - i,
{
    if i < j {
        match events[i] {
            LogEventV::Failed { message } => lemma_latest_is(events, i + 1, j, k, m, Some(message)),
            _ => lemma_latest_is(events, i + 1, j, k, m, lf),
        }
    } else {
        lemma_latest_none(events, j + 1, k, Some(m));
    }
}

/// The first `Finished` event (at `k`) decides the turn: an output type
/// other than `error` completes it, whatever failures came before; `error`
/// with no failure before it fails the turn as `unknown`.
pub proof fn lemma_first_finish_decides(events: Seq<LogEventV>, k: int)
    requires
        0 <= k < events.len(),
        events[k] is Finished,
        forall|j: int| 0 <= j < k ==> !((#[trigger] events[j]) is Finished),
    ensures
        (events[k] matches LogEventV::Finished { output_type } && output_type != "error"@) ==> outcome_spec(events)
            == Some(TurnOutcomeV::Completed),
        (events[k] matches LogEventV::Finished { output_type } && output_type == "error"@ && forall|j: int|
            0 <= j < k ==> !((#[trigger] events[j]) is Failed)) ==> outcome_spec(events) == Some(
            TurnOutcomeV::Error { message: "unknown"@ },
        ),
{
    lemma_outcome_at_finish(events, 0, k, None);
    if forall|j: int| 0 <= j < k ==> !((#[trigger] events[j]) is Failed) {
        lemma_latest_none(events, 0, k, None);
    }
}

/// A first `Finished` event (at `k`) of type `error` after failures takes
/// the latest failure's message (at `j`): `user-interrupt` interrupts the
/// turn, any other message fails it with that message.
pub proof fn lemma_error_finish_takes_latest_failure(events: Seq<LogEventV>, k: int, j: int, m: Seq<char>)
    requires
        0 <= j < k < events.len(),
        events[k] == (LogEventV::Finished { output_type: "error"@ }),
        forall|x: int| 0 <= x < k ==> !((#[trigger] events[x]) is Finished),
        events[j] == (LogEventV::Failed { message: m }),
        forall|x: int| j < x < k ==> !((#[trigger] events[x]) is Failed),
    ensures
        outcome_spec(events) == Some(
            if m == "user-interrupt"@ {
                TurnOutcomeV::Interrupted
            } else {
                TurnOutcomeV::Error { message: m }
            },
        ),
{
    lemma_outcome_at_finish(events, 0, k, None);
    lemma_latest_is(events, 0, j, k, m, None);
}

} // verus!
