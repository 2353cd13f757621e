//! Screen classifier for the freebuff TUI.
//!
//! The terminal layer supplies one `String` per screen row with ANSI already
//! stripped; everything here is a function of those rows.

use vstd::prelude::*;

use crate::text::{
    ascii_lower, lowercase, to_lowercase, without, without_chars, join_lines, strip_start,
    strip_start_bound, trim_start, is_whitespace, is_ws, ws, starts_with_at, chars_of, is_digit, parse_u64, parse_unsigned,
    starts_with, string_from, find, find_chars, includes, has_chars, lemma_find, occurs_at,
    lemma_includes_subrange, lemma_includes_trim, lemma_trim_bounds, lemma_trim_idempotent, lemma_strip_start_at, one_of, strip_end, strip_end_bound, trim,
    trim_bounds, has_str,
};

verus! {

/// The screen rows as character sequences.
pub open spec fn rows_view(rows: Seq<String>) -> Seq<Seq<char>> {
    Seq::new(rows.len(), |i: int| rows[i]@)
}

/// The rows of a `Vec<Vec<char>>` as character sequences.
pub open spec fn grid_view(rows: Seq<Vec<char>>) -> Seq<Seq<char>> {
    Seq::new(rows.len(), |i: int| rows[i]@)
}

/// Copies the rows into character vectors.
pub fn rows_chars(rows: &[String]) -> (g: Vec<Vec<char>>)
    ensures
        grid_view(g@) == rows_view(rows@),
{
    let mut g: Vec<Vec<char>> = Vec::new();
    let mut i: usize = 0;
    while i < rows.len()
        invariant
            i <= rows@.len(),
            g@.len() == i,
            forall|k: int| 0 <= k < i ==> (#[trigger] g@[k])@ == rows@[k]@,
        decreases rows@.len() - i,
    {
        g.push(chars_of(rows[i].as_str()));
        i = i + 1;
    }
    assert(grid_view(g@) =~= rows_view(rows@));
    g
}

/// Some row contains `pat`.
pub open spec fn any_has(rs: Seq<Seq<char>>, pat: Seq<char>) -> bool {
    exists|i: int| 0 <= i < rs.len() && includes(#[trigger] rs[i], pat)
}

/// Whether some row contains `pat`.
pub fn rows_have(g: &Vec<Vec<char>>, pat: &str) -> (b: bool)
    ensures
        b == any_has(grid_view(g@), pat@),
{
    let p = chars_of(pat);
    let mut i: usize = 0;
    while i < g.len()
        invariant
            i <= g@.len(),
            p@ == pat@,
            forall|k: int| 0 <= k < i ==> !includes(#[trigger] grid_view(g@)[k], pat@),
        decreases g@.len() - i,
    {
        if has_chars(&g[i], &p) {
            assert(includes(grid_view(g@)[i as int], pat@));
            return true;
        }
        i = i + 1;
    }
    false
}

/// The index of the first row, at or after `k`, that contains `pat`.
pub open spec fn first_has_from(rs: Seq<Seq<char>>, pat: Seq<char>, k: int) -> Option<int>
    decreases rs.len() - k,
{
    if k < 0 || k >= rs.len() {
        None
    } else if includes(rs[k], pat) {
        Some(k)
    } else {
        first_has_from(rs, pat, k + 1)
    }
}

/// The last index of `c` in `s`.
pub open spec fn last_index_of(s: Seq<char>, c: char) -> Option<int>
    decreases s.len(),
{
    if s.len() == 0 {
        None
    } else if s.last() == c {
        Some(s.len() - 1)
    } else {
        last_index_of(s.drop_last(), c)
    }
}

/// The scrollbar glyphs that a partial box can carry after its text.
pub open spec fn scrollbar_glyphs() -> Seq<char> {
    seq!['█', '▀', '▄']
}

/// Inner text of a `│`-bordered row, trimmed: the text between the first `│`
/// and the last `│` after it (or the rest of the row when no second `│`
/// follows), without trailing scrollbar glyphs. `None` for a row without `│`.
pub open spec fn box_inner(row: Seq<char>) -> Option<Seq<char>> {
    match find(row, seq!['│']) {
        None => None,
        Some(a) => {
            let after = row.subrange(a + 1, row.len() as int);
            let mid = match last_index_of(after, '│') {
                Some(b) => after.subrange(0, b),
                None => after,
            };
            Some(trim(strip_end(trim(mid), one_of(scrollbar_glyphs()))))
        },
    }
}

/// The last index in `v[from..to]` that holds `c`.
fn rfind_char(v: &[char], from: usize, to: usize, c: char) -> (r: Option<usize>)
    requires
        from <= to <= v@.len(),
    ensures
        r matches Some(b) ==> from <= b < to && last_index_of(v@.subrange(from as int, to as int), c)
            == Some(b - from),
        r is None ==> last_index_of(v@.subrange(from as int, to as int), c) is None,
{
    let mut j = to;
    while j > from
        invariant
            from <= j <= to <= v@.len(),
            last_index_of(v@.subrange(from as int, to as int), c) == last_index_of(
                v@.subrange(from as int, j as int),
                c,
            ),
        decreases j,
    {
        assert(v@.subrange(from as int, j as int).drop_last() == v@.subrange(
            from as int,
            j - 1,
        ));
        if v[j - 1] == c {
            return Some(j - 1);
        }
        j = j - 1;
    }
    None
}

/// The bounds of the inner text of a `│`-bordered row within `row`.
pub fn box_inner_bounds(row: &[char]) -> (r: Option<(usize, usize)>)
    ensures
        r matches Some((s, e)) ==> s <= e <= row@.len() && box_inner(row@) == Some(
            row@.subrange(s as int, e as int),
        ),
        r is None ==> box_inner(row@) is None,
{
    let bar = ['│'];
    let a = match find_chars(row, &bar) {
        None => {
            assert(bar@ == seq!['│']);
            return None;
        },
        Some(a) => a,
    };
    assert(bar@ == seq!['│']);
    proof {
        lemma_find(row@, bar@);
        assert(occurs_at(row@, bar@, a as int));
        assert(bar@.len() == 1);
        assert(a + 1 <= row@.len());
        assert(row@.len() == row.len());
    }
    let from = a + 1;
    let ghost after = row@.subrange(from as int, row@.len() as int);
    let to = match rfind_char(row, from, row.len(), '│') {
        Some(b) => b,
        None => row.len(),
    };
    assert(row@.subrange(from as int, to as int) == match last_index_of(after, '│') {
        Some(b) => after.subrange(0, b),
        None => after,
    });
    let (s1, e1) = trim_bounds(row, from, to);
    let glyphs = ['█', '▀', '▄'];
    assert(glyphs@ == scrollbar_glyphs());
    let e2 = strip_end_bound(row, s1, e1, &glyphs);
    let (s3, e3) = trim_bounds(row, s1, e2);
    Some((s3, e3))
}


/// The first index at or after `p` that holds an ASCII digit, or `s.len()`.
pub open spec fn first_digit_from(s: Seq<char>, p: int) -> int
    decreases s.len() - p,
{
    if p < 0 || p >= s.len() {
        s.len() as int
    } else if is_digit(s[p]) {
        p
    } else {
        first_digit_from(s, p + 1)
    }
}

/// The end of the run of ASCII digits that starts at `p`.
pub open spec fn digit_run_end(s: Seq<char>, p: int) -> int
    decreases s.len() - p,
{
    if p < 0 || p >= s.len() || !is_digit(s[p]) {
        p
    } else {
        digit_run_end(s, p + 1)
    }
}

/// The seconds counter in the text after a `thinking... ` marker: the first
/// run of digits, provided an `s` directly follows it. `Some(None)` when the
/// digits do not fit a `u32`; `None` when there is no such run.
pub open spec fn elapsed_reading(after: Seq<char>) -> Option<Option<u32>> {
    let p = first_digit_from(after, 0);
    let q = digit_run_end(after, p);
    if p < after.len() && q < after.len() && after[q] == 's' {
        Some(
            match parse_unsigned(after.subrange(p, q), u32::MAX as nat) {
                Some(n) => Some(n as u32),
                None => None,
            },
        )
    } else {
        None
    }
}

/// The seconds reading after the first occurrence of `marker` in `row`.
pub open spec fn reading_after(row: Seq<char>, marker: Seq<char>) -> Option<Option<u32>> {
    match find(row, marker) {
        Some(idx) => elapsed_reading(row.subrange(idx + marker.len(), row.len() as int)),
        None => None,
    }
}

/// The elapsed seconds of a busy status bar row (`thinking... 4s`, `working... 12s`).
pub open spec fn busy_elapsed(row: Seq<char>) -> Option<u32> {
    match reading_after(row, "thinking... "@) {
        Some(r) => r,
        None => match reading_after(row, "working... "@) {
            Some(r) => r,
            None => None,
        },
    }
}

/// Whether `row` marks the screen busy, and with which elapsed reading.
pub open spec fn busy_row(row: Seq<char>) -> Option<Option<u32>> {
    match busy_elapsed(row) {
        Some(e) => Some(Some(e)),
        None => if (includes(row, "thinking..."@) || includes(row, "working..."@)) && includes(
            row,
            "Esc"@,
        ) {
            Some(None)
        } else {
            None
        },
    }
}

/// The busy reading of the first busy row at or after `k`.
pub open spec fn first_busy_from(rs: Seq<Seq<char>>, k: int) -> Option<Option<u32>>
    decreases rs.len() - k,
{
    if k < 0 || k >= rs.len() {
        None
    } else if busy_row(rs[k]) is Some {
        busy_row(rs[k])
    } else {
        first_busy_from(rs, k + 1)
    }
}

/// The seconds reading in `v[from..]`.
fn elapsed_reading_exec(v: &[char], from: usize) -> (r: Option<Option<u32>>)
    requires
        from <= v@.len(),
    ensures
        r == elapsed_reading(v@.subrange(from as int, v@.len() as int)),
{
    let ghost after = v@.subrange(from as int, v@.len() as int);
    let mut p = from;
    while p < v.len() && !('0' <= v[p] && v[p] <= '9')
        invariant
            from <= p <= v@.len(),
            after == v@.subrange(from as int, v@.len() as int),
            first_digit_from(after, 0) == first_digit_from(after, p - from),
        decreases v@.len() - p,
    {
        assert(after[p - from] == v@[p as int]);
        p = p + 1;
    }
    if p < v.len() {
        assert(after[p - from] == v@[p as int]);
    }
    assert(first_digit_from(after, 0) == p - from);
    if p == v.len() {
        return None;
    }
    let mut q = p;
    while q < v.len() && '0' <= v[q] && v[q] <= '9'
        invariant
            from <= p <= q <= v@.len(),
            after == v@.subrange(from as int, v@.len() as int),
            digit_run_end(after, p - from) == digit_run_end(after, q - from),
        decreases v@.len() - q,
    {
        assert(after[q - from] == v@[q as int]);
        q = q + 1;
    }
    if q < v.len() {
        assert(after[q - from] == v@[q as int]);
    }
    assert(digit_run_end(after, p - from) == q - from);
    if q < v.len() && v[q] == 's' {
        assert(after.subrange(p - from, q - from) == v@.subrange(p as int, q as int));
        match parse_u64(v, p, q) {
            Some(n) => {
                if n <= 0xffff_ffff {
                    Some(Some(n as u32))
                } else {
                    Some(None)
                }
            },
            None => Some(None),
        }
    } else {
        None
    }
}

/// The seconds reading after the first occurrence of `marker` in `row`.
fn reading_after_exec(row: &[char], marker: &str) -> (r: Option<Option<u32>>)
    ensures
        r == reading_after(row@, marker@),
{
    let m = chars_of(marker);
    match find_chars(row, &m) {
        Some(idx) => {
            proof {
                lemma_find(row@, m@);
                assert(occurs_at(row@, m@, idx as int));
                assert(row@.len() == row.len());
            }
            elapsed_reading_exec(row, idx + m.len())
        },
        None => None,
    }
}

/// Parse the elapsed seconds from a busy status bar row: the digits after
/// `thinking... ` or `working... `, followed by `s`.
fn parse_busy_elapsed(row: &[char]) -> (r: Option<u32>)
    ensures
        r == busy_elapsed(row@),
{
    match reading_after_exec(row, "thinking... ") {
        Some(r) => r,
        None => match reading_after_exec(row, "working... ") {
            Some(r) => r,
            None => None,
        },
    }
}

/// Whether `row` marks the screen busy, and with which elapsed reading.
fn busy_row_exec(row: &[char]) -> (r: Option<Option<u32>>)
    ensures
        r == busy_row(row@),
{
    match parse_busy_elapsed(row) {
        Some(e) => Some(Some(e)),
        None => {
            if (has_str(row, "thinking...") || has_str(row, "working...")) && has_str(row, "Esc") {
                Some(None)
            } else {
                None
            }
        },
    }
}


/// Possible screen states detected from the TUI.
#[derive(Debug, Clone, PartialEq, Eq)]
pub enum ScreenState {
    /// Still showing the FREEBUFF banner animation, no other markers.
    Booting,
    /// Model picker splash: "Start coding for free", "See all 4 models", "Freebucks/hr".
    ModelSplash,
    /// Expanded model picker: 2+ model boxes, or "Show fewer" visible.
    ModelList,
    /// Previous session was hard-killed: "Session ended · N Freebucks left"
    /// with "Press Enter to continue in a new session". Esc leads to the
    /// normal splash; Enter would resume with the previous model.
    SessionEnded,
    /// Freebucks gate interstitial: "Not enough Freebucks — ...".
    FreebucksGate { message: String },
    /// "Freebuff is already running" dialog with Take over / Exit buttons.
    AlreadyRunning,
    /// Idle prompt ready for input: status shows "· <n>h/m left" and input placeholder visible.
    Idle,
    /// Generating a reply: status bar shows "thinking... <N>s" or "working... <N>s".
    Busy { elapsed_s: Option<u32> },
    /// "Another freebuff instance took over this account."
    KickedOut,
    /// None of the above patterns matched.
    Unknown,
}

/// The mathematical value of a [`ScreenState`].
pub enum ScreenStateV {
    Booting,
    ModelSplash,
    ModelList,
    SessionEnded,
    FreebucksGate { message: Seq<char> },
    AlreadyRunning,
    Idle,
    Busy { elapsed_s: Option<u32> },
    KickedOut,
    Unknown,
}

impl View for ScreenState {
    type V = ScreenStateV;

    open spec fn view(&self) -> ScreenStateV {
        match self {
            ScreenState::Booting => ScreenStateV::Booting,
            ScreenState::ModelSplash => ScreenStateV::ModelSplash,
            ScreenState::ModelList => ScreenStateV::ModelList,
            ScreenState::SessionEnded => ScreenStateV::SessionEnded,
            ScreenState::FreebucksGate { message } => ScreenStateV::FreebucksGate {
                message: message@,
            },
            ScreenState::AlreadyRunning => ScreenStateV::AlreadyRunning,
            ScreenState::Idle => ScreenStateV::Idle,
            ScreenState::Busy { elapsed_s } => ScreenStateV::Busy { elapsed_s: *elapsed_s },
            ScreenState::KickedOut => ScreenStateV::KickedOut,
            ScreenState::Unknown => ScreenStateV::Unknown,
        }
    }
}

/// Key pressed to accept the model splash (Enter).
pub const SPLASH_ACCEPT_KEY: &'static str = "\r";

/// One model entry on the splash, collapsed or in the expanded list.
#[derive(Debug, Clone, PartialEq, Eq)]
pub struct ModelRow {
    /// Display name: the text between the focus marker and the first ` · `.
    pub name: String,
    /// True when the row carries the `›` focus marker.
    pub focused: bool,
    /// The `Freebucks/hr` line inside the same box, if visible (an 80x24
    /// viewport can cut the focused last box off mid-render).
    pub cost_line: Option<String>,
}

/// The mathematical value of a [`ModelRow`].
pub struct ModelRowV {
    pub name: Seq<char>,
    pub focused: bool,
    pub cost_line: Option<Seq<char>>,
}

impl View for ModelRow {
    type V = ModelRowV;

    open spec fn view(&self) -> ModelRowV {
        ModelRowV {
            name: self.name@,
            focused: self.focused,
            cost_line: match self.cost_line {
                Some(c) => Some(c@),
                None => None,
            },
        }
    }
}

/// The views of a sequence of model rows.
pub open spec fn model_rows_view(rows: Seq<ModelRow>) -> Seq<ModelRowV> {
    Seq::new(rows.len(), |i: int| rows[i]@)
}

/// The `Freebucks/hr` line of the box whose name row precedes row `j`: the
/// first such line before the box ends (a row without `│`, a new name row
/// holding ` · `, or a bottom border).
pub open spec fn cost_from(rs: Seq<Seq<char>>, j: int) -> Option<Seq<char>>
    decreases rs.len() - j,
{
    if j < 0 || j >= rs.len() {
        None
    } else {
        match box_inner(rs[j]) {
            None => None,
            Some(ni) => if includes(ni, "Freebucks/hr"@) {
                Some(trim(ni))
            } else if includes(ni, " · "@) || includes(rs[j], seq!['└']) || includes(
                rs[j],
                seq!['┘'],
            ) {
                None
            } else {
                cost_from(rs, j + 1)
            },
        }
    }
}

/// The model entry that row `i` holds, if any: a bordered row whose inner
/// text (after an optional `›` focus marker) has a non-empty name before the
/// first ` · ` and does not mention Freebucks.
pub open spec fn model_entry(rs: Seq<Seq<char>>, i: int) -> Option<ModelRowV> {
    match box_inner(rs[i]) {
        None => None,
        Some(inner) => {
            let focused = inner.len() > 0 && inner[0] == '›';
            let body = if focused {
                trim(inner.drop_first())
            } else {
                inner
            };
            if includes(body, "Freebucks"@) {
                None
            } else {
                match find(body, " · "@) {
                    None => None,
                    Some(sep) => {
                        let name = trim(body.subrange(0, sep));
                        if name.len() == 0 {
                            None
                        } else {
                            Some(ModelRowV { name, focused, cost_line: cost_from(rs, i + 1) })
                        }
                    },
                }
            }
        },
    }
}

/// The model entries of the first `n` rows, in order.
pub open spec fn model_rows_upto(rs: Seq<Seq<char>>, n: int) -> Seq<ModelRowV>
    decreases n,
{
    if n <= 0 {
        Seq::empty()
    } else {
        model_rows_upto(rs, n - 1) + match model_entry(rs, n - 1) {
            Some(m) => seq![m],
            None => Seq::empty(),
        }
    }
}

/// The model entries of a splash screen.
pub open spec fn model_rows_spec(rs: Seq<Seq<char>>) -> Seq<ModelRowV> {
    model_rows_upto(rs, rs.len() as int)
}

/// The rows, among the first `n`, that hold a model entry, in order.
pub open spec fn entry_rows(rs: Seq<Seq<char>>, n: int) -> Seq<int>
    decreases n,
{
    if n <= 0 {
        Seq::empty()
    } else {
        entry_rows(rs, n - 1) + if model_entry(rs, n - 1) is Some {
            seq![n - 1]
        } else {
            Seq::empty()
        }
    }
}

/// A cost line holds `Freebucks/hr`.
proof fn lemma_cost_line(rs: Seq<Seq<char>>, j: int)
    ensures
        cost_from(rs, j) matches Some(c) ==> includes(c, "Freebucks/hr"@),
    decreases rs.len() - j,
{
    if 0 <= j < rs.len() {
        if let Some(ni) = box_inner(rs[j]) {
            if includes(ni, "Freebucks/hr"@) {
                reveal_strlit("Freebucks/hr");
                lemma_includes_trim(ni, "Freebucks/hr"@);
            } else {
                lemma_cost_line(rs, j + 1);
            }
        }
    }
}

/// A model entry's name is non-empty, trimmed, and holds neither ` · ` nor
/// `Freebucks`; its cost line holds `Freebucks/hr`; its row holds `│`.
proof fn lemma_entry_props(rs: Seq<Seq<char>>, i: int)
    requires
        0 <= i < rs.len(),
        model_entry(rs, i) is Some,
    ensures
        ({
            let m = model_entry(rs, i)->0;
            &&& m.name.len() > 0
            &&& trim(m.name) == m.name
            &&& !includes(m.name, " · "@)
            &&& !includes(m.name, "Freebucks"@)
            &&& (m.cost_line matches Some(c) ==> includes(c, "Freebucks/hr"@))
            &&& includes(rs[i], seq!['│'])
        }),
{
    let inner = box_inner(rs[i])->0;
    lemma_find(rs[i], seq!['│']);
    let focused = inner.len() > 0 && inner[0] == '›';
    let body = if focused {
        trim(inner.drop_first())
    } else {
        inner
    };
    let sep = find(body, " · "@)->0;
    lemma_find(body, " · "@);
    let part = body.subrange(0, sep);
    let name = trim(part);
    let (a, b) = lemma_trim_bounds(part);
    lemma_trim_idempotent(part);
    if includes(name, " · "@) {
        lemma_includes_subrange(part, a, b, " · "@);
        lemma_find(part, " · "@);
        let j = choose|j: int| occurs_at(part, " · "@, j);
        let w = " · "@.len() as int;
        assert(body.subrange(j, j + w) == part.subrange(j, j + w));
        assert(occurs_at(body, " · "@, j));
        reveal_strlit(" · ");
        assert(j < sep);
    }
    if includes(name, "Freebucks"@) {
        lemma_includes_subrange(part, a, b, "Freebucks"@);
        lemma_includes_subrange(body, 0, sep, "Freebucks"@);
    }
    lemma_cost_line(rs, i + 1);
}

proof fn lemma_entry_rows(rs: Seq<Seq<char>>, n: int)
    requires
        0 <= n <= rs.len(),
    ensures
        ({
            let v = model_rows_upto(rs, n);
            let idx = entry_rows(rs, n);
            &&& idx.len() == v.len()
            &&& v.len() <= n
            &&& forall|k: int, l: int| 0 <= k < l < idx.len() ==> idx[k] < idx[l]
            &&& forall|k: int| 0 <= k < idx.len() ==> 0 <= #[trigger] idx[k] < n && model_entry(rs, idx[k]) == Some(v[k])
        }),
    decreases n,
{
    if n > 0 {
        lemma_entry_rows(rs, n - 1);
    }
}

/// The model entries of a screen come from distinct rows that hold `│`,
/// in row order, no more entries than rows; each name is non-empty,
/// trimmed, and holds neither ` · ` nor `Freebucks`; each cost line holds
/// `Freebucks/hr`.
pub proof fn lemma_model_rows_entries(rs: Seq<Seq<char>>)
    ensures
        ({
            let v = model_rows_spec(rs);
            let idx = entry_rows(rs, rs.len() as int);
            &&& idx.len() == v.len()
            &&& v.len() <= rs.len()
            &&& forall|k: int, l: int| 0 <= k < l < idx.len() ==> idx[k] < idx[l]
            &&& forall|k: int|
                0 <= k < v.len() ==> {
                    &&& 0 <= idx[k] < rs.len()
                    &&& includes(rs[idx[k]], seq!['│'])
                    &&& model_entry(rs, idx[k]) == Some(#[trigger] v[k])
                    &&& v[k].name.len() > 0
                    &&& trim(v[k].name) == v[k].name
                    &&& !includes(v[k].name, " · "@)
                    &&& !includes(v[k].name, "Freebucks"@)
                    &&& (v[k].cost_line matches Some(c) ==> includes(c, "Freebucks/hr"@))
                }
        }),
{
    let v = model_rows_spec(rs);
    let idx = entry_rows(rs, rs.len() as int);
    lemma_entry_rows(rs, rs.len() as int);
    assert forall|k: int| 0 <= k < v.len() implies {
        &&& 0 <= idx[k] < rs.len()
        &&& includes(rs[idx[k]], seq!['│'])
        &&& model_entry(rs, idx[k]) == Some(#[trigger] v[k])
        &&& v[k].name.len() > 0
        &&& trim(v[k].name) == v[k].name
        &&& !includes(v[k].name, " · "@)
        &&& !includes(v[k].name, "Freebucks"@)
        &&& (v[k].cost_line matches Some(c) ==> includes(c, "Freebucks/hr"@))
    } by {
        assert(0 <= idx[k] < rs.len());
        lemma_entry_props(rs, idx[k]);
    }
}

/// The cost line of the box whose name row precedes row `j`.
fn cost_from_exec(g: &Vec<Vec<char>>, j: usize) -> (r: Option<String>)
    requires
        j <= g@.len(),
    ensures
        match r {
            Some(c) => cost_from(grid_view(g@), j as int) == Some(c@),
            None => cost_from(grid_view(g@), j as int) is None,
        },
{
    let ghost rs = grid_view(g@);
    let mut k = j;
    while k < g.len()
        invariant
            j <= k <= g@.len(),
            rs == grid_view(g@),
            cost_from(rs, j as int) == cost_from(rs, k as int),
        decreases g@.len() - k,
    {
        let row = &g[k];
        assert(row@ == rs[k as int]);
        match box_inner_bounds(row) {
            None => {
                return None;
            },
            Some((s, e)) => {
                let inner = slice_chars(row, s, e);
                if has_str(&inner, "Freebucks/hr") {
                    let (ts, te) = trim_bounds(&inner, 0, inner.len());
                    assert(inner@.subrange(0, inner@.len() as int) == inner@);
                    let t = slice_chars(&inner, ts, te);
                    return Some(string_from(&t));
                }
                let corner1 = ['└'];
                let corner2 = ['┘'];
                assert(corner1@ == seq!['└']);
                assert(corner2@ == seq!['┘']);
                if has_str(&inner, " · ") || has_chars(row, &corner1) || has_chars(row, &corner2) {
                    return None;
                }
            },
        }
        k = k + 1;
    }
    None
}

/// A copy of `v[from..to]`.
pub fn slice_chars(v: &[char], from: usize, to: usize) -> (r: Vec<char>)
    requires
        from <= to <= v@.len(),
    ensures
        r@ == v@.subrange(from as int, to as int),
{
    let mut r: Vec<char> = Vec::new();
    let mut k = from;
    while k < to
        invariant
            from <= k <= to <= v@.len(),
            r@ == v@.subrange(from as int, k as int),
        decreases to - k,
    {
        r.push(v[k]);
        k = k + 1;
    }
    r
}

/// The model entry that row `i` holds, if any.
fn model_entry_exec(g: &Vec<Vec<char>>, i: usize) -> (r: Option<ModelRow>)
    requires
        i < g.len(),
    ensures
        match r {
            Some(m) => model_entry(grid_view(g@), i as int) == Some(m@),
            None => model_entry(grid_view(g@), i as int) is None,
        },
{
    let ghost rs = grid_view(g@);
    let row = &g[i];
    assert(row@ == rs[i as int]);
    let (s, e) = match box_inner_bounds(row) {
        None => {
            return None;
        },
        Some(b) => b,
    };
    let inner = slice_chars(row, s, e);
    let focused = inner.len() > 0 && inner[0] == '›';
    let body = if focused {
        let (bs, be) = trim_bounds(&inner, 1, inner.len());
        assert(inner@.subrange(1, inner@.len() as int) == inner@.drop_first());
        slice_chars(&inner, bs, be)
    } else {
        inner
    };
    if has_str(&body, "Freebucks") {
        return None;
    }
    let sepv = chars_of(" · ");
    let sep = match find_chars(&body, &sepv) {
        None => {
            return None;
        },
        Some(sep) => sep,
    };
    proof {
        lemma_find(body@, sepv@);
    }
    let (ns, ne) = trim_bounds(&body, 0, sep);
    if ns == ne {
        return None;
    }
    let name = slice_chars(&body, ns, ne);
    let cost_line = cost_from_exec(g, i + 1);
    Some(ModelRow { name: string_from(&name), focused, cost_line })
}

/// Parse the model rows out of a splash screen (collapsed or expanded).
/// A model row is a `│`-bordered row whose inner text starts with `›`
/// (focused) or directly with the name (unfocused) and holds the name before
/// the first ` · `. Rows mentioning Freebucks are cost lines, not names.
pub fn model_rows(rows: &[String]) -> (r: Vec<ModelRow>)
    ensures
        model_rows_view(r@) == model_rows_spec(rows_view(rows@)),
{
    let g = rows_chars(rows);
    model_rows_grid(&g)
}

/// [`model_rows`] over rows already split into characters.
fn model_rows_grid(g: &Vec<Vec<char>>) -> (r: Vec<ModelRow>)
    ensures
        model_rows_view(r@) == model_rows_spec(grid_view(g@)),
{
    let ghost rs = grid_view(g@);
    let mut out: Vec<ModelRow> = Vec::new();
    let mut i: usize = 0;
    while i < g.len()
        invariant
            i <= g@.len(),
            rs == grid_view(g@),
            model_rows_view(out@) == model_rows_upto(rs, i as int),
        decreases g@.len() - i,
    {
        let ghost before = out@;
        match model_entry_exec(g, i) {
            Some(m) => {
                out.push(m);
                assert(model_rows_view(out@) =~= model_rows_view(before) + seq![m@]);
            },
            None => {},
        }
        assert(model_rows_upto(rs, i + 1) == model_rows_upto(rs, i as int) + match model_entry(
            rs,
            i as int,
        ) {
            Some(m) => seq![m],
            None => Seq::<ModelRowV>::empty(),
        });
        i = i + 1;
    }
    out
}


/// The row shows a `· <n>h left` / `· <n>m left` status fragment.
pub open spec fn time_left_row(row: Seq<char>) -> bool {
    includes(row, "·"@) && (includes(row, "h left"@) || includes(row, "m left"@))
}

/// The row shows any marker of a known screen other than the banner.
pub open spec fn marker_row(r: Seq<char>) -> bool {
    ||| includes(r, "Start coding for free"@)
    ||| includes(r, "Freebuff will run commands"@)
    ||| includes(r, "Directory "@)
    ||| includes(r, "Enter a coding task"@)
    ||| includes(r, "thinking..."@)
    ||| includes(r, "working..."@)
    ||| includes(r, "Not enough Freebucks"@)
    ||| includes(r, "Freebuff is already running"@)
    ||| includes(r, "Another freebuff instance"@)
    ||| includes(r, "See all 4 models"@)
    ||| includes(r, "Freebucks/hr"@)
    ||| includes(r, "Session ended"@)
    ||| includes(r, "Press Enter to continue"@)
    ||| includes(r, "Show fewer"@)
}

/// The screen state that `rs` shows. The checks go in this order of
/// precedence: Freebucks gate, already running, session ended, kicked out,
/// busy, expanded model list, model splash, idle, booting, unknown.
pub open spec fn classify_spec(rs: Seq<Seq<char>>) -> ScreenStateV {
    match first_has_from(rs, "Not enough Freebucks"@, 0) {
        Some(i) => ScreenStateV::FreebucksGate { message: trim(rs[i]) },
        None => if any_has(rs, "Freebuff is already running"@) {
            ScreenStateV::AlreadyRunning
        } else if any_has(rs, "Session ended"@) && any_has(rs, "Press Enter to continue"@) {
            ScreenStateV::SessionEnded
        } else if any_has(rs, "Another freebuff instance took over this account"@) {
            ScreenStateV::KickedOut
        } else if first_busy_from(rs, 0) is Some {
            ScreenStateV::Busy { elapsed_s: first_busy_from(rs, 0)->0 }
        } else if any_has(rs, "Show fewer"@) || model_rows_spec(rs).len() >= 2 {
            ScreenStateV::ModelList
        } else if any_has(rs, "Start coding for free"@) || any_has(rs, "See all 4 models"@)
            || any_has(rs, "Freebucks/hr"@) {
            ScreenStateV::ModelSplash
        } else if (exists|i: int| 0 <= i < rs.len() && time_left_row(#[trigger] rs[i])) && (any_has(
            rs,
            "Enter a coding task or / for commands"@,
        ) || any_has(rs, "✕ End session"@)) {
            ScreenStateV::Idle
        } else if any_has(rs, "█"@) && !(exists|i: int|
            0 <= i < rs.len() && marker_row(#[trigger] rs[i])) && rs.len() > 0 {
            ScreenStateV::Booting
        } else if forall|i: int| 0 <= i < rs.len() ==> trim(#[trigger] rs[i]).len() == 0 {
            ScreenStateV::Booting
        } else {
            ScreenStateV::Unknown
        },
    }
}

/// The index of the first row that contains `pat`.
fn first_row_having(g: &Vec<Vec<char>>, pat: &str) -> (r: Option<usize>)
    ensures
        match r {
            Some(i) => first_has_from(grid_view(g@), pat@, 0) == Some(i as int) && i < g@.len(),
            None => first_has_from(grid_view(g@), pat@, 0) is None,
        },
{
    let ghost rs = grid_view(g@);
    let p = chars_of(pat);
    let mut i: usize = 0;
    while i < g.len()
        invariant
            i <= g@.len(),
            rs == grid_view(g@),
            p@ == pat@,
            first_has_from(rs, pat@, 0) == first_has_from(rs, pat@, i as int),
        decreases g@.len() - i,
    {
        assert(g@[i as int]@ == rs[i as int]);
        if has_chars(&g[i], &p) {
            return Some(i);
        }
        i = i + 1;
    }
    None
}

/// The busy reading of the first busy row.
fn first_busy(g: &Vec<Vec<char>>) -> (r: Option<Option<u32>>)
    ensures
        r == first_busy_from(grid_view(g@), 0),
{
    let ghost rs = grid_view(g@);
    let mut i: usize = 0;
    while i < g.len()
        invariant
            i <= g@.len(),
            rs == grid_view(g@),
            first_busy_from(rs, 0) == first_busy_from(rs, i as int),
        decreases g@.len() - i,
    {
        assert(g@[i as int]@ == rs[i as int]);
        let b = busy_row_exec(&g[i]);
        if b.is_some() {
            return b;
        }
        i = i + 1;
    }
    None
}

/// Whether some row shows a time-left fragment.
fn any_time_left(g: &Vec<Vec<char>>) -> (b: bool)
    ensures
        b == exists|i: int| 0 <= i < g@.len() && time_left_row(#[trigger] grid_view(g@)[i]),
{
    let ghost rs = grid_view(g@);
    let mut i: usize = 0;
    while i < g.len()
        invariant
            i <= g@.len(),
            rs == grid_view(g@),
            forall|k: int| 0 <= k < i ==> !time_left_row(#[trigger] rs[k]),
        decreases g@.len() - i,
    {
        let row = &g[i];
        assert(row@ == rs[i as int]);
        if has_str(row, "·") && (has_str(row, "h left") || has_str(row, "m left")) {
            assert(time_left_row(rs[i as int]));
            return true;
        }
        i = i + 1;
    }
    false
}

/// Whether `row` shows any non-banner marker.
fn marker_row_exec(r: &[char]) -> (b: bool)
    ensures
        b == marker_row(r@),
{
    has_str(r, "Start coding for free") || has_str(r, "Freebuff will run commands") || has_str(
        r,
        "Directory ",
    ) || has_str(r, "Enter a coding task") || has_str(r, "thinking...") || has_str(
        r,
        "working...",
    ) || has_str(r, "Not enough Freebucks") || has_str(r, "Freebuff is already running")
        || has_str(r, "Another freebuff instance") || has_str(r, "See all 4 models") || has_str(
        r,
        "Freebucks/hr",
    ) || has_str(r, "Session ended") || has_str(r, "Press Enter to continue") || has_str(
        r,
        "Show fewer",
    )
}

/// Whether some row shows a non-banner marker.
fn any_marker(g: &Vec<Vec<char>>) -> (b: bool)
    ensures
        b == exists|i: int| 0 <= i < g@.len() && marker_row(#[trigger] grid_view(g@)[i]),
{
    let ghost rs = grid_view(g@);
    let mut i: usize = 0;
    while i < g.len()
        invariant
            i <= g@.len(),
            rs == grid_view(g@),
            forall|k: int| 0 <= k < i ==> !marker_row(#[trigger] rs[k]),
        decreases g@.len() - i,
    {
        assert(g@[i as int]@ == rs[i as int]);
        if marker_row_exec(&g[i]) {
            return true;
        }
        i = i + 1;
    }
    false
}

/// Whether every row is blank.
fn all_blank(g: &Vec<Vec<char>>) -> (b: bool)
    ensures
        b == forall|i: int| 0 <= i < g@.len() ==> trim(#[trigger] grid_view(g@)[i]).len() == 0,
{
    let ghost rs = grid_view(g@);
    let mut i: usize = 0;
    while i < g.len()
        invariant
            i <= g@.len(),
            rs == grid_view(g@),
            forall|k: int| 0 <= k < i ==> trim(#[trigger] rs[k]).len() == 0,
        decreases g@.len() - i,
    {
        let row = &g[i];
        assert(row@ == rs[i as int]);
        let (s, e) = trim_bounds(row, 0, row.len());
        assert(row@.subrange(0, row@.len() as int) == row@);
        if s != e {
            return false;
        }
        i = i + 1;
    }
    true
}

/// Classify the current screen state from a list of text rows (ANSI already stripped).
pub fn classify(rows: &[String]) -> (r: ScreenState)
    ensures
        r@ == classify_spec(rows_view(rows@)),
{
    let g = rows_chars(rows);
    classify_grid(&g)
}

/// [`classify`] over rows already split into characters.
pub fn classify_grid(g: &Vec<Vec<char>>) -> (r: ScreenState)
    ensures
        r@ == classify_spec(grid_view(g@)),
{
    let ghost rs = grid_view(g@);
    // Precedence: FreebucksGate > AlreadyRunning > SessionEnded > KickedOut > Busy > ModelList > ModelSplash > Idle > Booting > Unknown
    if let Some(i) = first_row_having(g, "Not enough Freebucks") {
        let row = &g[i];
        assert(row@ == rs[i as int]);
        let (s, e) = trim_bounds(row, 0, row.len());
        assert(row@.subrange(0, row@.len() as int) == row@);
        let msg = slice_chars(row, s, e);
        return ScreenState::FreebucksGate { message: string_from(&msg) };
    }
    if rows_have(g, "Freebuff is already running") {
        return ScreenState::AlreadyRunning;
    }
    // A hard-killed previous session offers "Press Enter to continue in a
    // new session" (resume) or Esc (splash). Never Enter here: resuming
    // spends Freebucks on the previous model.
    if rows_have(g, "Session ended") && rows_have(g, "Press Enter to continue") {
        return ScreenState::SessionEnded;
    }
    if rows_have(g, "Another freebuff instance took over this account") {
        return ScreenState::KickedOut;
    }
    if let Some(elapsed_s) = first_busy(g) {
        return ScreenState::Busy { elapsed_s };
    }
    // The expanded list shows 2+ model boxes, or "Show fewer"; the collapsed
    // splash has exactly one.
    if rows_have(g, "Show fewer") || model_rows_grid(g).len() >= 2 {
        return ScreenState::ModelList;
    }
    if rows_have(g, "Start coding for free") || rows_have(g, "See all 4 models") || rows_have(
        g,
        "Freebucks/hr",
    ) {
        return ScreenState::ModelSplash;
    }
    if any_time_left(g) && (rows_have(g, "Enter a coding task or / for commands") || rows_have(
        g,
        "✕ End session",
    )) {
        return ScreenState::Idle;
    }
    if rows_have(g, "█") && !any_marker(g) && g.len() > 0 {
        return ScreenState::Booting;
    }
    if g.len() == 0 || all_blank(g) {
        return ScreenState::Booting;
    }
    ScreenState::Unknown
}


/// Whether model-name matching ignores `c`: one of `/`, `-`, `_`, `.`, or
/// whitespace.
pub open spec fn is_model_separator(c: char) -> bool {
    c == '/' || c == '-' || c == '_' || c == '.' || is_ws(c)
}

/// `s` without its model-name separators.
pub open spec fn drop_separators(s: Seq<char>) -> Seq<char>
    decreases s.len(),
{
    if s.len() == 0 {
        s
    } else if is_model_separator(s.last()) {
        drop_separators(s.drop_last())
    } else {
        drop_separators(s.drop_last()).push(s.last())
    }
}

/// A model name or `BLINK_MODEL` fragment normalised for comparison:
/// lowercase, with `/`, `-`, `_`, `.` and whitespace removed.
pub open spec fn normalize_spec(s: Seq<char>) -> Seq<char> {
    drop_separators(lowercase(s))
}

/// Normalise a model name or `BLINK_MODEL` fragment for comparison:
/// lowercase, ignoring `/`, `-`, `_`, `.` and whitespace. The lineup rotates,
/// so matching is on the display name, never a hardcoded id.
pub fn normalize_model(s: &str) -> (r: String)
    ensures
        r@ == normalize_spec(s@),
        (forall|i: int| 0 <= i < s@.len() ==> (#[trigger] s@[i] as u32) < 128) ==> r@ == drop_separators(
            s@.map_values(|c: char| ascii_lower(c)),
        ),
{
    let lower = to_lowercase(s);
    let lc = chars_of(lower.as_str());
    let mut kept: Vec<char> = Vec::new();
    let mut k: usize = 0;
    while k < lc.len()
        invariant
            k <= lc@.len(),
            kept@ == drop_separators(lc@.take(k as int)),
        decreases lc@.len() - k,
    {
        let c = lc[k];
        assert(lc@.take(k + 1).drop_last() == lc@.take(k as int));
        if !(c == '/' || c == '-' || c == '_' || c == '.' || is_whitespace(c)) {
            kept.push(c);
        }
        k = k + 1;
    }
    assert(lc@.take(lc@.len() as int) == lc@);
    string_from(&kept)
}

/// The text after the last `/` of `t` (all of `t` when it has none).
pub open spec fn last_segment(t: Seq<char>) -> Seq<char> {
    match last_index_of(t, '/') {
        Some(i) => t.subrange(i + 1, t.len() as int),
        None => t,
    }
}

/// A display name matches a `BLINK_MODEL` target when the normalised target
/// is a substring of the normalised name, or the normalised name is a
/// substring of the normalised last `/` segment of the target. An empty
/// target or an empty name never matches.
pub open spec fn model_hit(target: Seq<char>, name: Seq<char>) -> bool {
    let want = normalize_spec(target);
    let want_seg = normalize_spec(last_segment(target));
    let norm = normalize_spec(name);
    want.len() > 0 && norm.len() > 0 && (includes(norm, want) || includes(want_seg, norm))
}

/// The indices, below `n`, of the names that match `target`, in order.
pub open spec fn hits_upto(target: Seq<char>, names: Seq<Seq<char>>, n: int) -> Seq<int>
    decreases n,
{
    if n <= 0 {
        Seq::empty()
    } else if model_hit(target, names[n - 1]) {
        hits_upto(target, names, n - 1).push(n - 1)
    } else {
        hits_upto(target, names, n - 1)
    }
}

/// The indices of the names that match `target`, in order.
pub open spec fn model_hits(target: Seq<char>, names: Seq<Seq<char>>) -> Seq<int> {
    hits_upto(target, names, names.len() as int)
}

/// Outcome of matching `BLINK_MODEL` against the splash's model rows.
#[derive(Debug, Clone, PartialEq, Eq)]
pub enum ModelMatch {
    /// Exactly one row matched.
    One(usize),
    /// Nothing matched; carries the offered names for the error message.
    Unmatched { offered: Vec<String> },
    /// Two or more rows matched; carries their names for the error message.
    Ambiguous(Vec<String>),
}

/// The mathematical value of a [`ModelMatch`].
pub enum ModelMatchV {
    One(int),
    Unmatched { offered: Seq<Seq<char>> },
    Ambiguous(Seq<Seq<char>>),
}

impl View for ModelMatch {
    type V = ModelMatchV;

    open spec fn view(&self) -> ModelMatchV {
        match self {
            ModelMatch::One(i) => ModelMatchV::One(*i as int),
            ModelMatch::Unmatched { offered } => ModelMatchV::Unmatched { offered: rows_view(offered@) },
            ModelMatch::Ambiguous(names) => ModelMatchV::Ambiguous(rows_view(names@)),
        }
    }
}

/// What [`match_model`] returns: the single matching index, or all the
/// names when nothing matches, or the matching names when several do.
pub open spec fn match_model_spec(target: Seq<char>, names: Seq<Seq<char>>) -> ModelMatchV {
    let hits = model_hits(target, names);
    if hits.len() == 0 {
        ModelMatchV::Unmatched { offered: names }
    } else if hits.len() == 1 {
        ModelMatchV::One(hits[0])
    } else {
        ModelMatchV::Ambiguous(hits.map_values(|i: int| names[i]))
    }
}

proof fn lemma_hits_bounded(target: Seq<char>, names: Seq<Seq<char>>, n: int)
    requires
        0 <= n <= names.len(),
    ensures
        forall|k: int| 0 <= k < hits_upto(target, names, n).len() ==> 0 <= #[trigger] hits_upto(target, names, n)[k] < n,
    decreases n,
{
    if n > 0 {
        lemma_hits_bounded(target, names, n - 1);
        let prev = hits_upto(target, names, n - 1);
        let cur = hits_upto(target, names, n);
        assert forall|k: int| 0 <= k < cur.len() implies 0 <= #[trigger] cur[k] < n by {
            if k < prev.len() {
                assert(cur[k] == prev[k]);
            }
        }
    }
}

/// A copy of the strings.
pub fn copy_strings(v: &[String]) -> (r: Vec<String>)
    ensures
        rows_view(r@) == rows_view(v@),
{
    let mut r: Vec<String> = Vec::new();
    let mut i: usize = 0;
    while i < v.len()
        invariant
            i <= v@.len(),
            r@.len() == i,
            forall|k: int| 0 <= k < i ==> (#[trigger] r@[k])@ == v@[k]@,
        decreases v@.len() - i,
    {
        r.push(v[i].clone());
        i = i + 1;
    }
    assert(rows_view(r@) =~= rows_view(v@));
    r
}

/// Whether a display name matches the target, given the target's normalised
/// forms.
fn hit_exec(want: &Vec<char>, want_seg: &Vec<char>, name: &str) -> (b: bool)
    ensures
        b == (want@.len() > 0 && normalize_spec(name@).len() > 0 && (includes(normalize_spec(name@), want@) || includes(want_seg@, normalize_spec(name@)))),
{
    let norm = chars_of(&normalize_model(name));
    want.len() > 0 && norm.len() > 0 && (has_chars(&norm, want) || has_chars(want_seg, &norm))
}

/// Match a `BLINK_MODEL` target against model display names. A row matches
/// when the normalised target is a substring of the normalised model NAME,
/// or the normalised name is a substring of the normalised last `/` segment
/// of the target — so `deepseek/deepseek-v4.1-flash`, `deepseek-v4-1-flash`
/// and `DeepSeek V4.1 Flash` all resolve, while `deepseek-v4-pro` does not.
pub fn match_model(target: &str, names: &[String]) -> (r: ModelMatch)
    ensures
        r@ == match_model_spec(target@, rows_view(names@)),
{
    let ghost ns = rows_view(names@);
    let want = chars_of(&normalize_model(target));
    let t = chars_of(target);
    let seg_start = match rfind_char(&t, 0, t.len(), '/') {
        Some(i) => i + 1,
        None => 0,
    };
    assert(t@.subrange(0, t@.len() as int) == t@);
    let seg = string_from(&slice_chars(&t, seg_start, t.len()));
    assert(seg@ == last_segment(target@));
    let want_seg = chars_of(&normalize_model(seg.as_str()));
    let mut hits: Vec<usize> = Vec::new();
    let mut i: usize = 0;
    while i < names.len()
        invariant
            i <= names@.len(),
            ns == rows_view(names@),
            want@ == normalize_spec(target@),
            want_seg@ == normalize_spec(last_segment(target@)),
            hits@.len() == hits_upto(target@, ns, i as int).len(),
            forall|k: int| 0 <= k < hits@.len() ==> (#[trigger] hits@[k]) as int == hits_upto(target@, ns, i as int)[k],
        decreases names@.len() - i,
    {
        assert(ns[i as int] == names@[i as int]@);
        if hit_exec(&want, &want_seg, names[i].as_str()) {
            hits.push(i);
        }
        i = i + 1;
    }
    proof {
        lemma_hits_bounded(target@, ns, ns.len() as int);
    }
    if hits.len() == 0 {
        ModelMatch::Unmatched { offered: copy_strings(names) }
    } else if hits.len() == 1 {
        ModelMatch::One(hits[0])
    } else {
        let ghost h = model_hits(target@, ns);
        let mut picked: Vec<String> = Vec::new();
        let mut k: usize = 0;
        while k < hits.len()
            invariant
                k <= hits@.len(),
                h == model_hits(target@, ns),
                h.len() == hits@.len(),
                ns == rows_view(names@),
                forall|m: int| 0 <= m < hits@.len() ==> (#[trigger] hits@[m]) as int == h[m],
                forall|m: int| 0 <= m < h.len() ==> 0 <= #[trigger] h[m] < names@.len(),
                picked@.len() == k,
                forall|m: int| 0 <= m < k ==> (#[trigger] picked@[m])@ == ns[h[m]],
            decreases hits@.len() - k,
        {
            let idx = hits[k];
            assert(idx as int == h[k as int]);
            picked.push(names[idx].clone());
            k = k + 1;
        }
        assert(rows_view(picked@) =~= h.map_values(|i: int| ns[i]));
        ModelMatch::Ambiguous(picked)
    }
}


/// The length of the `\d+[hm] left` fragment at the start of `s`, if `s`
/// starts with one (`58m left`, `1h left`).
pub open spec fn time_left_len(s: Seq<char>) -> Option<int> {
    let j = digit_run_end(s, 0);
    if j == 0 || j >= s.len() {
        None
    } else if s[j] != 'h' && s[j] != 'm' {
        None
    } else if starts_with(s.subrange(j + 1, s.len() as int), " left"@) {
        Some(j + 6)
    } else {
        None
    }
}

/// The active model and time left that a status row shows:
/// `<Name> · <N>[hm] left`, optionally followed by a `· …` usage suffix or
/// `✕ End session`. Rows mentioning Freebucks are splash cost lines.
pub open spec fn status_of(row: Seq<char>) -> Option<(Seq<char>, Seq<char>)> {
    if includes(row, "Freebucks"@) || !includes(row, "·"@) || !includes(row, "left"@) {
        None
    } else {
        match find(row, " · "@) {
            None => None,
            Some(sep) => {
                let name = trim(row.subrange(0, sep));
                let after = trim_start(row.subrange(sep + 3, row.len() as int));
                if name.len() == 0 {
                    None
                } else {
                    match time_left_len(after) {
                        None => None,
                        Some(tl) => {
                            let rest = trim_start(after.subrange(tl, after.len() as int));
                            if rest.len() == 0 || rest[0] == '·' || rest[0] == '✕' {
                                Some((name, after.subrange(0, tl)))
                            } else {
                                None
                            }
                        },
                    }
                }
            },
        }
    }
}

/// The status of the first row, at or after `k`, that is a status row.
pub open spec fn first_status_from(rs: Seq<Seq<char>>, k: int) -> Option<(Seq<char>, Seq<char>)>
    decreases rs.len() - k,
{
    if k < 0 || k >= rs.len() {
        None
    } else if status_of(rs[k]) is Some {
        status_of(rs[k])
    } else {
        first_status_from(rs, k + 1)
    }
}

/// How a status row splits: the name part `p`, ` · `, whitespace `w`, the
/// time left `t`, and the rest `q`.
pub open spec fn status_split(
    row: Seq<char>,
    n: Seq<char>,
    t: Seq<char>,
    p: Seq<char>,
    w: Seq<char>,
    q: Seq<char>,
) -> bool {
    &&& row == p + " · "@ + w + t + q
    &&& !includes(p, " · "@)
    &&& n == trim(p)
    &&& n.len() > 0
    &&& forall|i: int| 0 <= i < w.len() ==> is_ws(#[trigger] w[i])
    &&& time_left_len(t + q) == Some(t.len() as int)
    &&& (trim_start(q).len() == 0 || trim_start(q)[0] == '·' || trim_start(q)[0] == '✕')
    &&& !includes(row, "Freebucks"@)
}

/// The name of a status, empty when there is none.
pub open spec fn status_name(o: Option<(Seq<char>, Seq<char>)>) -> Seq<char> {
    match o {
        Some((n, _t)) => n,
        None => Seq::empty(),
    }
}

/// The time left of a status, empty when there is none.
pub open spec fn status_time(o: Option<(Seq<char>, Seq<char>)>) -> Seq<char> {
    match o {
        Some((_n, t)) => t,
        None => Seq::empty(),
    }
}

proof fn lemma_digit_run_end_from(s: Seq<char>, p: int)
    requires
        0 <= p,
    ensures
        p <= digit_run_end(s, p),
    decreases s.len() - p,
{
    if p < s.len() && is_digit(s[p]) {
        lemma_digit_run_end_from(s, p + 1);
    }
}

proof fn lemma_status_split(row: Seq<char>) -> (r: (Seq<char>, Seq<char>, Seq<char>))
    requires
        status_of(row) is Some,
    ensures
        status_split(row, status_name(status_of(row)), status_time(status_of(row)), r.0, r.1, r.2),
{
    reveal_strlit(" · ");
    let sep = find(row, " · "@)->0;
    lemma_find(row, " · "@);
    let p = row.subrange(0, sep);
    let rest = row.subrange(sep + 3, row.len() as int);
    let k = lemma_strip_start_at(rest, ws());
    let w = rest.subrange(0, k);
    let after = rest.subrange(k, rest.len() as int);
    assert(after == trim_start(row.subrange(sep + 3, row.len() as int)));
    assert(time_left_len(after) is Some);
    let tl = time_left_len(after)->0;
    reveal_strlit(" left");
    let dj = digit_run_end(after, 0);
    lemma_digit_run_end_from(after, 0);
    assert(0 < dj < after.len());
    assert(starts_with(after.subrange(dj + 1, after.len() as int), " left"@));
    assert(tl == dj + 6);
    assert(tl <= after.len());
    let t = after.subrange(0, tl);
    let q = after.subrange(tl, after.len() as int);
    assert(after =~= t + q);
    assert(rest =~= w + after);
    assert(row =~= p + " · "@ + rest);
    assert(row =~= p + " · "@ + w + t + q);
    assert forall|i: int| 0 <= i < w.len() implies is_ws(#[trigger] w[i]) by {
        assert(w[i] == rest[i]);
        assert(ws()(rest[i]));
    }
    if includes(p, " · "@) {
        lemma_find(p, " · "@);
        let j = choose|j: int| occurs_at(p, " · "@, j);
        assert(row.subrange(j, j + 3) == p.subrange(j, j + 3));
        assert(occurs_at(row, " · "@, j));
    }
    (p, w, q)
}

proof fn lemma_first_status(rs: Seq<Seq<char>>, k: int) -> (i: int)
    requires
        0 <= k,
        first_status_from(rs, k) is Some,
    ensures
        k <= i < rs.len(),
        status_of(rs[i]) == first_status_from(rs, k),
        forall|j: int| k <= j < i ==> status_of(#[trigger] rs[j]) is None,
    decreases rs.len() - k,
{
    if status_of(rs[k]) is Some {
        k
    } else {
        lemma_first_status(rs, k + 1)
    }
}

/// The active model and time left come from the first status row (`r.0`),
/// and a status row reads `p · w t q` (`r.1`, `r.2`, `r.3`): a name part `p`
/// without ` · ` (the name is `p` trimmed, non-empty), whitespace `w`, the
/// time left `t` (`\d+[hm] left`), and a rest `q` that is blank or starts,
/// after whitespace, with `·` or `✕`; the row does not mention Freebucks.
pub proof fn lemma_active_model_split(rs: Seq<Seq<char>>) -> (r: (int, Seq<char>, Seq<char>, Seq<char>))
    requires
        first_status_from(rs, 0) is Some,
    ensures
        0 <= r.0 < rs.len(),
        forall|j: int| 0 <= j < r.0 ==> status_of(#[trigger] rs[j]) is None,
        status_of(rs[r.0]) == first_status_from(rs, 0),
        status_split(
            rs[r.0],
            status_name(first_status_from(rs, 0)),
            status_time(first_status_from(rs, 0)),
            r.1,
            r.2,
            r.3,
        ),
{
    let i = lemma_first_status(rs, 0);
    let (p, w, q) = lemma_status_split(rs[i]);
    (i, p, w, q)
}

/// A row that splits as a status row, at its first ` · `, is a status row
/// and gives that name and time left.
pub proof fn lemma_split_gives_status(
    row: Seq<char>,
    n: Seq<char>,
    t: Seq<char>,
    p: Seq<char>,
    w: Seq<char>,
    q: Seq<char>,
)
    requires
        status_split(row, n, t, p, w, q),
        find(row, " · "@) == Some(p.len() as int),
    ensures
        status_of(row) == Some((n, t)),
{
    reveal_strlit(" · ");
    reveal_strlit("·");
    reveal_strlit("left");
    reveal_strlit(" left");
    let sep = p.len() as int;
    let tq = t + q;
    let dj = digit_run_end(tq, 0);
    lemma_digit_run_end_from(tq, 0);
    assert(0 < dj < tq.len());
    assert(is_digit(tq[0]));
    assert(!is_ws(tq[0]));
    assert(row.subrange(0, sep) =~= p);
    let rest = row.subrange(sep + 3, row.len() as int);
    assert(rest =~= w + tq);
    assert forall|k: int| 0 <= k < w.len() implies ws()(#[trigger] rest[k]) by {
        assert(rest[k] == w[k]);
    }
    crate::text::lemma_strip_start_suffix(rest, ws(), w.len() as int);
    assert(rest.subrange(w.len() as int, rest.len() as int) =~= tq);
    assert(trim_start(rest) == tq);
    // the row mentions `·` and `left`
    assert(row.subrange(sep, sep + 3) =~= " · "@);
    assert(row.subrange(sep + 1, sep + 2) =~= "·"@);
    assert(occurs_at(row, "·"@, sep + 1));
    lemma_find(row, "·"@);
    assert(starts_with(tq.subrange(dj + 1, tq.len() as int), " left"@));
    let at = sep + 3 + w.len() + dj + 2;
    assert(row.subrange(at, at + 4) =~= tq.subrange(dj + 2, dj + 6));
    let sl = tq.subrange(dj + 1, tq.len() as int);
    assert(sl.subrange(0, 5) == " left"@);
    assert forall|m: int| 0 <= m < 4 implies #[trigger] tq.subrange(dj + 2, dj + 6)[m] == "left"@[m] by {
        assert(tq.subrange(dj + 2, dj + 6)[m] == sl[m + 1]);
        assert(sl[m + 1] == sl.subrange(0, 5)[m + 1]);
    }
    assert(tq.subrange(dj + 2, dj + 6) =~= "left"@);
    assert(occurs_at(row, "left"@, at));
    lemma_find(row, "left"@);
    assert(tq.subrange(0, t.len() as int) =~= t);
    assert(tq.subrange(t.len() as int, tq.len() as int) =~= q);
}

/// There is no active model exactly when no row is a status row.
pub proof fn lemma_no_active_model(rs: Seq<Seq<char>>, k: int)
    requires
        0 <= k,
    ensures
        first_status_from(rs, k) is None <==> forall|i: int| k <= i < rs.len() ==> status_of(#[trigger] rs[i]) is None,
    decreases rs.len() - k,
{
    if k < rs.len() {
        lemma_no_active_model(rs, k + 1);
        if first_status_from(rs, k) is None {
            assert forall|i: int| k <= i < rs.len() implies status_of(#[trigger] rs[i]) is None by {
                if i > k {
                }
            }
        }
    }
}

/// The first row that splits as a status row, at its first ` · `, gives
/// the active model and time left.
pub proof fn lemma_active_model_from_split(
    rs: Seq<Seq<char>>,
    i: int,
    n: Seq<char>,
    t: Seq<char>,
    p: Seq<char>,
    w: Seq<char>,
    q: Seq<char>,
)
    requires
        0 <= i < rs.len(),
        forall|j: int| 0 <= j < i ==> status_of(#[trigger] rs[j]) is None,
        status_split(rs[i], n, t, p, w, q),
        find(rs[i], " · "@) == Some(p.len() as int),
    ensures
        first_status_from(rs, 0) == Some((n, t)),
{
    lemma_split_gives_status(rs[i], n, t, p, w, q);
    lemma_first_from(rs, 0, i);
}

proof fn lemma_first_from(rs: Seq<Seq<char>>, k: int, i: int)
    requires
        0 <= k <= i < rs.len(),
        forall|j: int| k <= j < i ==> status_of(#[trigger] rs[j]) is None,
        status_of(rs[i]) is Some,
    ensures
        first_status_from(rs, k) == status_of(rs[i]),
    decreases i - k,
{
    if k < i {
        assert(status_of(rs[k]) is None);
        lemma_first_from(rs, k + 1, i);
    }
}

/// The end of the `\d+[hm] left` fragment at the start of `v[from..]`.
fn time_left_at_start(v: &[char], from: usize) -> (r: Option<usize>)
    requires
        from <= v@.len(),
    ensures
        match r {
            Some(e) => from <= e <= v@.len() && time_left_len(v@.subrange(from as int, v@.len() as int))
                == Some(e - from),
            None => time_left_len(v@.subrange(from as int, v@.len() as int)) is None,
        },
{
    let ghost s = v@.subrange(from as int, v@.len() as int);
    let mut j = from;
    while j < v.len() && '0' <= v[j] && v[j] <= '9'
        invariant
            from <= j <= v@.len(),
            s == v@.subrange(from as int, v@.len() as int),
            digit_run_end(s, 0) == digit_run_end(s, j - from),
        decreases v@.len() - j,
    {
        assert(s[j - from] == v@[j as int]);
        j = j + 1;
    }
    if j < v.len() {
        assert(s[j - from] == v@[j as int]);
    }
    assert(digit_run_end(s, 0) == j - from);
    if j == from || j >= v.len() {
        return None;
    }
    if v[j] != 'h' && v[j] != 'm' {
        return None;
    }
    let ok = starts_with_at(v, j + 1, " left");
    assert(s.subrange(j - from + 1, s.len() as int) == v@.subrange(j + 1, v@.len() as int));
    if ok {
        proof {
            reveal_strlit(" left");
        }
        Some(j + 6)
    } else {
        None
    }
}

/// The status of one row, as character bounds: name and time-left fragment.
fn status_exec(row: &[char]) -> (r: Option<(String, String)>)
    ensures
        match r {
            Some((n, t)) => status_of(row@) == Some((n@, t@)),
            None => status_of(row@) is None,
        },
{
    if has_str(row, "Freebucks") || !has_str(row, "·") || !has_str(row, "left") {
        return None;
    }
    let sepv = chars_of(" · ");
    let sep = match find_chars(row, &sepv) {
        None => {
            return None;
        },
        Some(sep) => sep,
    };
    proof {
        lemma_find(row@, sepv@);
        reveal_strlit(" · ");
        assert(row@.len() == row.len());
    }
    let (ns, ne) = trim_bounds(row, 0, sep);
    let after_start = skip_ws(row, sep + 3);
    let ghost after = row@.subrange(after_start as int, row@.len() as int);
    if ns == ne {
        return None;
    }
    let tl_end = match time_left_at_start(row, after_start) {
        None => {
            return None;
        },
        Some(e) => e,
    };
    let rest_start = skip_ws(row, tl_end);
    assert(after.subrange(tl_end - after_start, after.len() as int) == row@.subrange(
        tl_end as int,
        row@.len() as int,
    ));
    assert(trim_start(after.subrange(tl_end - after_start, after.len() as int)) == row@.subrange(
        rest_start as int,
        row@.len() as int,
    ));
    if rest_start == row.len() || row[rest_start] == '·' || row[rest_start] == '✕' {
        assert(after.subrange(0, tl_end - after_start) == row@.subrange(
            after_start as int,
            tl_end as int,
        ));
        let name = string_from(&slice_chars(row, ns, ne));
        let time = string_from(&slice_chars(row, after_start, tl_end));
        Some((name, time))
    } else {
        None
    }
}

/// The index of the first non-whitespace character of `v[from..]`.
fn skip_ws(v: &[char], from: usize) -> (i: usize)
    requires
        from <= v@.len(),
    ensures
        from <= i <= v@.len(),
        v@.subrange(i as int, v@.len() as int) == trim_start(v@.subrange(from as int, v@.len() as int)),
{
    let ghost s = v@.subrange(from as int, v@.len() as int);
    let mut i = from;
    while i < v.len() && is_whitespace(v[i])
        invariant
            from <= i <= v@.len(),
            s == v@.subrange(from as int, v@.len() as int),
            strip_start(s, ws()) == strip_start(v@.subrange(i as int, v@.len() as int), ws()),
        decreases v@.len() - i,
    {
        assert(v@.subrange(i as int, v@.len() as int).drop_first() == v@.subrange(i + 1, v@.len() as int));
        i = i + 1;
    }
    if i < v.len() {
        assert(v@.subrange(i as int, v@.len() as int)[0] == v@[i as int]);
    }
    i
}

/// Active model and time left from the Idle screen's status row, e.g.
/// ` MiMo 2.5 · 58m left … ✕ End session` -> `("MiMo 2.5", "58m left")`.
/// The name is the trimmed text before the first ` · `; the time is the
/// `\d+[hm] left` fragment. Rows mentioning Freebucks are splash cost lines,
/// not the status row. Returns None when no row parses: within a running
/// hour freebuff skips the splash and resumes on the hour's model, so the
/// status row is the only place the active model is shown — callers must
/// fail loudly rather than assume the requested model is active.
pub fn active_model(rows: &[String]) -> (r: Option<(String, String)>)
    ensures
        match r {
            Some((n, t)) => first_status_from(rows_view(rows@), 0) == Some((n@, t@)),
            None => first_status_from(rows_view(rows@), 0) is None,
        },
{
    let ghost rs = rows_view(rows@);
    let mut i: usize = 0;
    while i < rows.len()
        invariant
            i <= rows@.len(),
            rs == rows_view(rows@),
            first_status_from(rs, 0) == first_status_from(rs, i as int),
        decreases rows@.len() - i,
    {
        let row = chars_of(rows[i].as_str());
        assert(row@ == rs[i as int]);
        let st = status_exec(&row);
        if st.is_some() {
            return st;
        }
        i = i + 1;
    }
    None
}


/// The error text for an hour already running on a model that does not
/// match the target.
pub open spec fn already_running_message(
    target: Seq<char>,
    active: Seq<char>,
    time_left: Seq<char>,
) -> Seq<char> {
    "freebuff: an hour on '"@ + active + "' is already running ("@ + time_left
        + "); requested '"@ + target + "' — wait for it to end or unset BLINK_MODEL"@
}

/// Decide whether an already-running hour satisfies `BLINK_MODEL`, using the
/// same [`match_model`] rule as the splash: against a single active name the
/// outcome is match or already-running error (never ambiguous).
pub fn check_active_model(target: &str, active: &str, time_left: &str) -> (r: Result<(), String>)
    ensures
        match r {
            Ok(()) => match_model_spec(target@, seq![active@]) is One,
            Err(msg) => !(match_model_spec(target@, seq![active@]) is One) && msg@
                == already_running_message(target@, active@, time_left@),
        },
{
    let names = vec![active.to_owned()];
    assert(rows_view(names@) =~= seq![active@]);
    match match_model(target, &names) {
        ModelMatch::One(_) => Ok(()),
        _ => {
            let mut m = String::new();
            m.append("freebuff: an hour on '");
            m.append(active);
            m.append("' is already running (");
            m.append(time_left);
            m.append("); requested '");
            m.append(target);
            m.append("' — wait for it to end or unset BLINK_MODEL");
            Err(m)
        },
    }
}

/// One step of the model-selection walk over the expanded list.
#[derive(Debug, Clone, PartialEq, Eq)]
pub enum SelectStep {
    /// Focus is on the uniquely matching row: press Enter to start the hour.
    Accept,
    /// Move focus one row down, then re-read the screen.
    Down,
    /// Focus reached `Show fewer` with no match: fail with "not offered".
    NotOffered { offered: Vec<String> },
    /// Two or more rows match: fail, naming them.
    Ambiguous(Vec<String>),
}

/// The mathematical value of a [`SelectStep`].
pub enum SelectStepV {
    Accept,
    Down,
    NotOffered { offered: Seq<Seq<char>> },
    Ambiguous(Seq<Seq<char>>),
}

impl View for SelectStep {
    type V = SelectStepV;

    open spec fn view(&self) -> SelectStepV {
        match self {
            SelectStep::Accept => SelectStepV::Accept,
            SelectStep::Down => SelectStepV::Down,
            SelectStep::NotOffered { offered } => SelectStepV::NotOffered {
                offered: rows_view(offered@),
            },
            SelectStep::Ambiguous(names) => SelectStepV::Ambiguous(rows_view(names@)),
        }
    }
}

/// The most Down presses the walk sends before giving up.
pub open spec fn max_down_presses() -> u32 {
    12
}

/// The names of the model rows.
pub open spec fn row_names(rows: Seq<ModelRowV>) -> Seq<Seq<char>> {
    rows.map_values(|r: ModelRowV| r.name)
}

/// What [`plan_select_step`] decides: accept when focus is on the unique
/// match; fail when two or more rows match; otherwise move down, unless 12
/// presses were sent or focus has left the models for `Show fewer`, in which
/// case the target is reported as not offered.
pub open spec fn plan_select_spec(
    target: Seq<char>,
    rows: Seq<ModelRowV>,
    show_fewer: bool,
    presses: u32,
) -> SelectStepV {
    let names = row_names(rows);
    let stuck = presses >= max_down_presses() || (show_fewer && !(exists|k: int|
        0 <= k < rows.len() && (#[trigger] rows[k]).focused));
    match match_model_spec(target, names) {
        ModelMatchV::Ambiguous(ns) => SelectStepV::Ambiguous(ns),
        ModelMatchV::Unmatched { offered } => if stuck {
            SelectStepV::NotOffered { offered }
        } else {
            SelectStepV::Down
        },
        ModelMatchV::One(i) => if rows[i].focused {
            SelectStepV::Accept
        } else if stuck {
            SelectStepV::NotOffered { offered: names }
        } else {
            SelectStepV::Down
        },
    }
}

proof fn lemma_hits_in_range(target: Seq<char>, names: Seq<Seq<char>>)
    ensures
        forall|k: int| 0 <= k < model_hits(target, names).len() ==> 0 <= #[trigger] model_hits(target, names)[k] < names.len(),
{
    lemma_hits_bounded(target, names, names.len() as int);
}

/// Decide the next keystroke for `BLINK_MODEL` on the expanded model list.
/// `presses` is how many Down presses have been sent so far (cap: 12).
pub fn plan_select_step(target: &str, rows: &[ModelRow], show_fewer: bool, presses: u32) -> (r:
    SelectStep)
    ensures
        r@ == plan_select_spec(target@, model_rows_view(rows@), show_fewer, presses),
{
    let ghost mv = model_rows_view(rows@);
    let mut names: Vec<String> = Vec::new();
    let mut any_focused = false;
    let mut i: usize = 0;
    while i < rows.len()
        invariant
            i <= rows@.len(),
            mv == model_rows_view(rows@),
            names@.len() == i,
            forall|k: int| 0 <= k < i ==> (#[trigger] names@[k])@ == rows@[k].name@,
            any_focused == exists|k: int| 0 <= k < i && (#[trigger] mv[k]).focused,
        decreases rows@.len() - i,
    {
        names.push(rows[i].name.clone());
        if rows[i].focused {
            assert(mv[i as int].focused);
            any_focused = true;
        }
        i = i + 1;
    }
    assert(rows_view(names@) =~= row_names(mv));
    let stuck = presses >= 12 || (show_fewer && !any_focused);
    proof {
        lemma_hits_in_range(target@, row_names(mv));
    }
    match match_model(target, &names) {
        ModelMatch::Ambiguous(ns) => SelectStep::Ambiguous(ns),
        ModelMatch::Unmatched { offered } => {
            if stuck {
                SelectStep::NotOffered { offered }
            } else {
                SelectStep::Down
            }
        },
        ModelMatch::One(i) => {
            if rows[i].focused {
                SelectStep::Accept
            } else if stuck {
                // Focus never landed on the match (e.g. the walk reached
                // `Show fewer`, or the list kept scrolling): fail loudly
                // rather than pressing Enter on the wrong row.
                SelectStep::NotOffered { offered: names }
            } else {
                SelectStep::Down
            }
        },
    }
}

proof fn lemma_hits_exact(target: Seq<char>, names: Seq<Seq<char>>, n: int)
    requires
        0 <= n <= names.len(),
    ensures
        forall|j: int| 0 <= j < n ==> (model_hit(target, #[trigger] names[j]) <==> hits_upto(target, names, n).contains(j)),
    decreases n,
{
    if n > 0 {
        lemma_hits_exact(target, names, n - 1);
        lemma_hits_bounded(target, names, n - 1);
        let prev = hits_upto(target, names, n - 1);
        let cur = hits_upto(target, names, n);
        assert forall|j: int| 0 <= j < n implies (model_hit(target, #[trigger] names[j]) <==> cur.contains(j)) by {
            if j < n - 1 {
                if prev.contains(j) {
                    let k = choose|k: int| 0 <= k < prev.len() && prev[k] == j;
                    assert(cur[k] == j);
                }
                if cur.contains(j) {
                    let k = choose|k: int| 0 <= k < cur.len() && cur[k] == j;
                    if k < prev.len() {
                        assert(prev[k] == j);
                    }
                }
            } else {
                if model_hit(target, names[j]) {
                    assert(cur[cur.len() - 1] == j);
                } else {
                    if cur.contains(j) {
                        let k = choose|k: int| 0 <= k < cur.len() && cur[k] == j;
                        assert(prev[k] < n - 1);
                    }
                }
            }
        }
    }
}

/// The walk presses Enter only on a row that is focused, whose name matches
/// the target, and that is the only row whose name matches it.
pub proof fn lemma_accept_only_on_focused_unique_match(
    target: Seq<char>,
    rows: Seq<ModelRowV>,
    show_fewer: bool,
    presses: u32,
)
    requires
        plan_select_spec(target, rows, show_fewer, presses) == SelectStepV::Accept,
    ensures
        exists|i: int|
            0 <= i < rows.len() && (#[trigger] rows[i]).focused && model_hit(target, rows[i].name)
                && forall|j: int| 0 <= j < rows.len() && j != i ==> !model_hit(target, (#[trigger] rows[j]).name),
{
    let names = row_names(rows);
    lemma_hits_exact(target, names, names.len() as int);
    lemma_hits_bounded(target, names, names.len() as int);
    let hits = model_hits(target, names);
    assert(hits.len() == 1);
    let i = hits[0];
    assert(0 <= i < rows.len());
    assert(names[i] == rows[i].name);
    assert(hits.contains(i));
    assert forall|j: int| 0 <= j < rows.len() && j != i implies !model_hit(target, (#[trigger] rows[j]).name) by {
        assert(names[j] == rows[j].name);
        if model_hit(target, names[j]) {
            assert(hits.contains(j));
            let k = choose|k: int| 0 <= k < hits.len() && hits[k] == j;
            assert(k == 0);
        }
    }
    assert(rows[i].focused);
}

/// The rows inside the input box from row `k` on: after a `╭…╮` top border,
/// each row up to the `╰…╯` bottom border, with its `│` borders and the
/// whitespace around the text removed. `in_box` tells whether a top border
/// has been passed.
pub open spec fn box_lines_from(rs: Seq<Seq<char>>, k: int, in_box: bool) -> Seq<Seq<char>>
    decreases rs.len() - k,
{
    if k < 0 || k >= rs.len() {
        Seq::empty()
    } else {
        let r = rs[k];
        if includes(r, seq!['╭']) && includes(r, seq!['╮']) {
            box_lines_from(rs, k + 1, true)
        } else if includes(r, seq!['╰']) && includes(r, seq!['╯']) && in_box {
            Seq::empty()
        } else if in_box {
            seq![box_line(r)] + box_lines_from(rs, k + 1, true)
        } else {
            box_lines_from(rs, k + 1, false)
        }
    }
}

/// One row of the input box: trimmed, then without its `│` borders, then
/// trimmed again (an indented box keeps its borders after the indent).
pub open spec fn box_line(r: Seq<char>) -> Seq<char> {
    trim(strip_end(strip_start(trim(r), one_of(seq!['│'])), one_of(seq!['│'])))
}

/// What [`input_box_text`] returns: `None` when no row lies inside a box,
/// else the box's lines joined with `\n`, the `▍` cursor glyph removed, and
/// trimmed.
pub open spec fn input_box_spec(rs: Seq<Seq<char>>) -> Option<Seq<char>> {
    let lines = box_lines_from(rs, 0, false);
    if lines.len() == 0 {
        None
    } else {
        Some(trim(without(join_lines(lines), seq!['▍'])))
    }
}

/// Whether `v` holds the character `c`.
fn holds_char(v: &[char], c: char) -> (b: bool)
    ensures
        b == includes(v@, seq![c]),
{
    let one = [c];
    assert(one@ == seq![c]);
    has_chars(v, &one)
}

/// Extract the text inside the bordered input box.
/// The box is bordered by ╭…╮ (top) and ╰…╯ (bottom).
/// Returns the text content trimmed, without the ▍ cursor glyph.
/// Returns None if no input box is found.
pub fn input_box_text(rows: &[String]) -> (r: Option<String>)
    ensures
        match r {
            Some(t) => input_box_spec(rows_view(rows@)) == Some(t@),
            None => input_box_spec(rows_view(rows@)) is None,
        },
{
    let g = rows_chars(rows);
    let ghost rs = grid_view(g@);
    let mut in_box = false;
    let mut joined: Vec<char> = Vec::new();
    let mut count: usize = 0;
    let ghost mut acc: Seq<Seq<char>> = Seq::empty();
    let mut k: usize = 0;
    while k < g.len()
        invariant_except_break
            k <= g@.len(),
            rs == grid_view(g@),
            acc + box_lines_from(rs, k as int, in_box) == box_lines_from(rs, 0, false),
            joined@ == join_lines(acc),
            count == acc.len(),
            count <= k,
        ensures
            acc == box_lines_from(rs, 0, false),
            joined@ == join_lines(acc),
            count == acc.len(),
        decreases g@.len() - k,
    {
        let row = &g[k];
        assert(row@ == rs[k as int]);
        if holds_char(row, '╭') && holds_char(row, '╮') {
            in_box = true;
        } else if holds_char(row, '╰') && holds_char(row, '╯') && in_box {
            assert(acc + Seq::<Seq<char>>::empty() == acc);
            break;
        } else if in_box {
            let bar = ['│'];
            assert(bar@ == seq!['│']);
            let (t0, t1) = trim_bounds(row, 0, row.len());
            let a = strip_start_bound(row, t0, t1, &bar);
            let b = strip_end_bound(row, a, t1, &bar);
            let (s, e) = trim_bounds(row, a, b);
            proof {
                assert(row@.subrange(0, row@.len() as int) == row@);
                assert(box_line(rs[k as int]) == row@.subrange(s as int, e as int));
            }
            if count > 0 {
                joined.push('\n');
            }
            let mut m = s;
            let ghost before = joined@;
            while m < e
                invariant
                    s <= m <= e <= row@.len(),
                    joined@ == before + row@.subrange(s as int, m as int),
                decreases e - m,
            {
                joined.push(row[m]);
                assert(row@.subrange(s as int, m + 1) == row@.subrange(s as int, m as int).push(row@[m as int]));
                m = m + 1;
            }
            proof {
                let line = row@.subrange(s as int, e as int);
                let old_acc = acc;
                acc = acc.push(line);
                assert(acc.drop_last() == old_acc);
                if old_acc.len() == 0 {
                    assert(join_lines(acc) == line);
                    assert(joined@ == line);
                }
                assert(seq![box_line(rs[k as int])] + box_lines_from(rs, k + 1, true) == box_lines_from(rs, k as int, true));
                assert(old_acc + box_lines_from(rs, k as int, true) == acc + box_lines_from(rs, k + 1, true));
            }
            count = count + 1;
        }
        k = k + 1;
    }
    proof {
        if k == g@.len() {
            assert(acc + Seq::<Seq<char>>::empty() == acc);
        }
    }
    if count == 0 {
        return None;
    }
    let cursor = ['▍'];
    assert(cursor@ == seq!['▍']);
    let kept = without_chars(&joined, 0, joined.len(), &cursor);
    assert(joined@.subrange(0, joined@.len() as int) == joined@);
    let (s, e) = trim_bounds(&kept, 0, kept.len());
    assert(kept@.subrange(0, kept@.len() as int) == kept@);
    let text = slice_chars(&kept, s, e);
    Some(string_from(&text))
}

/// What one row says of the pasted-text chip: `None` when the row has no
/// `Pasted text (` followed later by ` chars)`; otherwise the number between
/// them, thousands separators (`,`) dropped, parsed as a `u64` (`None` when it
/// does not parse).
pub open spec fn chip_in_row(r: Seq<char>) -> Option<Option<nat>> {
    match find(r, "Pasted text ("@) {
        None => None,
        Some(start) => {
            let after = r.subrange(start + "Pasted text ("@.len(), r.len() as int);
            match find(after, " chars)"@) {
                None => None,
                Some(end) => Some(
                    parse_unsigned(without(after.subrange(0, end), seq![',']), u64::MAX as nat),
                ),
            }
        },
    }
}

/// The chip count that the first row with a chip, from row `k` on, gives.
pub open spec fn chip_from(rs: Seq<Seq<char>>, k: int) -> Option<nat>
    decreases rs.len() - k,
{
    if k < 0 || k >= rs.len() {
        None
    } else {
        match chip_in_row(rs[k]) {
            Some(n) => n,
            None => chip_from(rs, k + 1),
        }
    }
}

proof fn lemma_chip_row(r: Seq<char>) -> (d: Seq<char>)
    requires
        chip_in_row(r) is Some,
    ensures
        includes(r, "Pasted text ("@ + d + " chars)"@),
        chip_in_row(r) == Some(parse_unsigned(without(d, seq![',']), u64::MAX as nat)),
{
    let pre = "Pasted text ("@;
    let post = " chars)"@;
    lemma_find(r, pre);
    let start = find(r, pre)->0;
    let after = r.subrange(start + pre.len(), r.len() as int);
    lemma_find(after, post);
    let end = find(after, post)->0;
    let d = after.subrange(0, end);
    let whole = pre + d + post;
    assert(r.subrange(start, start + whole.len()) =~= whole) by {
        assert(r.subrange(start, start + pre.len()) == pre);
        assert(after.subrange(end, end + post.len()) == post);
    }
    assert(occurs_at(r, whole, start));
    lemma_find(r, whole);
    d
}

/// The pasted-text chip count comes from the first row (`r.0`) that shows
/// a chip: the row holds `Pasted text (` + `r.1` + ` chars)`, and the count
/// is `r.1` without its `,` separators, read as a number.
pub proof fn lemma_pasted_chip(rs: Seq<Seq<char>>, k: int) -> (r: (int, Seq<char>))
    requires
        0 <= k,
        chip_from(rs, k) is Some,
    ensures
        k <= r.0 < rs.len(),
        forall|j: int| k <= j < r.0 ==> chip_in_row(#[trigger] rs[j]) is None,
        includes(rs[r.0], "Pasted text ("@ + r.1 + " chars)"@),
        chip_from(rs, k) == parse_unsigned(without(r.1, seq![',']), u64::MAX as nat),
    decreases rs.len() - k,
{
    if chip_in_row(rs[k]) is Some {
        let d = lemma_chip_row(rs[k]);
        (k, d)
    } else {
        lemma_pasted_chip(rs, k + 1)
    }
}

/// With no row that shows `Pasted text (` followed by ` chars)`, there is
/// no chip count.
pub proof fn lemma_no_pasted_chip(rs: Seq<Seq<char>>, k: int)
    requires
        0 <= k,
        forall|j: int| k <= j < rs.len() ==> chip_in_row(#[trigger] rs[j]) is None,
    ensures
        chip_from(rs, k) is None,
    decreases rs.len() - k,
{
    if k < rs.len() {
        lemma_no_pasted_chip(rs, k + 1);
    }
}

/// Parse the pasted-text chip count from rows.
/// Finds a row containing `Pasted text (` and parses the number before ` chars)`.
/// Digits may include thousands separators (`,`). Returns `Some(count)` or `None`.
pub fn pasted_chip_chars(rows: &[String]) -> (r: Option<u64>)
    ensures
        match r {
            Some(n) => chip_from(rows_view(rows@), 0) == Some(n as nat),
            None => chip_from(rows_view(rows@), 0) is None,
        },
{
    let g = rows_chars(rows);
    let ghost rs = grid_view(g@);
    let open_pat = chars_of("Pasted text (");
    let close_pat = chars_of(" chars)");
    let mut k: usize = 0;
    while k < g.len()
        invariant
            k <= g@.len(),
            rs == grid_view(g@),
            open_pat@ == "Pasted text ("@,
            close_pat@ == " chars)"@,
            rs == rows_view(rows@),
            chip_from(rs, 0) == chip_from(rs, k as int),
        decreases g@.len() - k,
    {
        let row = &g[k];
        assert(row@ == rs[k as int]);
        if let Some(start) = find_chars(row, &open_pat) {
            proof {
                lemma_find(row@, open_pat@);
                assert(occurs_at(row@, open_pat@, start as int));
            }
            assert(row@.len() == row.len());
            let from = start + open_pat.len();
            let after = slice_chars(row, from, row.len());
            assert(after@ == rs[k as int].subrange(start + "Pasted text ("@.len(), rs[k as int].len() as int));
            if let Some(end) = find_chars(&after, &close_pat) {
                proof {
                    lemma_find(after@, close_pat@);
                    assert(occurs_at(after@, close_pat@, end as int));
                }
                let commas = [','];
                assert(commas@ == seq![',']);
                let digits = without_chars(&after, 0, end, &commas);
                let n = parse_u64(&digits, 0, digits.len());
                assert(digits@.subrange(0, digits@.len() as int) == digits@);
                assert(chip_in_row(rs[k as int]) == Some(parse_unsigned(digits@, u64::MAX as nat)));
                assert(chip_from(rs, k as int) == parse_unsigned(digits@, u64::MAX as nat));
                return n;
            }
        }
        k = k + 1;
    }
    None
}

/// What [`input_box_is_empty`] returns: the box shows no text, or only the
/// placeholder.
pub open spec fn input_box_empty_spec(rs: Seq<Seq<char>>) -> bool {
    match input_box_spec(rs) {
        Some(t) => t.len() == 0 || includes(t, "Enter a coding task or / for commands"@),
        None => false,
    }
}

/// Check if the input box is empty (showing the placeholder).
pub fn input_box_is_empty(rows: &[String]) -> (b: bool)
    ensures
        b == input_box_empty_spec(rows_view(rows@)),
{
    match input_box_text(rows) {
        Some(t) => {
            let v = chars_of(t.as_str());
            v.len() == 0 || has_str(&v, "Enter a coding task or / for commands")
        },
        None => false,
    }
}

/// A text that holds `p`, where `p` holds `q`, holds `q`.
proof fn lemma_includes_within(r: Seq<char>, p: Seq<char>, q: Seq<char>)
    requires
        includes(r, p),
        includes(p, q),
    ensures
        includes(r, q),
{
    lemma_find(r, p);
    let j = choose|j: int| occurs_at(r, p, j);
    assert(r.subrange(j, j + p.len()) == p);
    lemma_includes_subrange(r, j, j + p.len(), q);
}

/// A text holds each of its prefixes.
proof fn lemma_includes_prefix(p: Seq<char>, q: Seq<char>)
    requires
        q.len() <= p.len(),
        p.subrange(0, q.len() as int) == q,
    ensures
        includes(p, q),
{
    assert(occurs_at(p, q, 0));
    lemma_find(p, q);
}

proof fn lemma_first_has_holds(rs: Seq<Seq<char>>, pat: Seq<char>, k: int)
    ensures
        first_has_from(rs, pat, k) matches Some(i) ==> 0 <= i < rs.len() && includes(rs[i], pat),
    decreases rs.len() - k,
{
    if 0 <= k < rs.len() && !includes(rs[k], pat) {
        lemma_first_has_holds(rs, pat, k + 1);
    }
}

proof fn lemma_no_busy(rs: Seq<Seq<char>>, k: int)
    requires
        forall|i: int| 0 <= i < rs.len() ==> !includes(#[trigger] rs[i], "thinking..."@) && !includes(rs[i], "working..."@),
    ensures
        first_busy_from(rs, k) is None,
    decreases rs.len() - k,
{
    if 0 <= k < rs.len() {
        let r = rs[k];
        reveal_strlit("thinking... ");
        reveal_strlit("thinking...");
        reveal_strlit("working... ");
        reveal_strlit("working...");
        if includes(r, "thinking... "@) {
            assert("thinking... "@.subrange(0, "thinking..."@.len() as int) =~= "thinking..."@);
            lemma_includes_prefix("thinking... "@, "thinking..."@);
            lemma_includes_within(r, "thinking... "@, "thinking..."@);
        }
        if includes(r, "working... "@) {
            assert("working... "@.subrange(0, "working..."@.len() as int) =~= "working..."@);
            lemma_includes_prefix("working... "@, "working..."@);
            lemma_includes_within(r, "working... "@, "working..."@);
        }
        assert(busy_row(r) is None);
        lemma_no_busy(rs, k + 1);
    }
}

proof fn lemma_no_model_rows(rs: Seq<Seq<char>>, n: int)
    requires
        0 <= n <= rs.len(),
        forall|i: int| 0 <= i < rs.len() ==> !includes(#[trigger] rs[i], seq!['│']),
    ensures
        model_rows_upto(rs, n).len() == 0,
    decreases n,
{
    if n > 0 {
        lemma_no_model_rows(rs, n - 1);
        assert(!includes(rs[n - 1], seq!['│']));
        assert(box_inner(rs[n - 1]) is None);
    }
}

/// The FREEBUFF banner alone is the booting screen: a non-empty screen in
/// which some row holds the block glyph `█`, and no row holds a box border
/// `│`, `✕ End session`, or any marker of another state (the splash, the
/// idle prompt, a busy status, the Freebucks gate, the already-running,
/// take-over and session-ended dialogs, the model list), classifies as
/// booting.
pub proof fn lemma_banner_alone_is_booting(rs: Seq<Seq<char>>)
    requires
        rs.len() > 0,
        exists|i: int| 0 <= i < rs.len() && includes(#[trigger] rs[i], "█"@),
        forall|i: int|
            0 <= i < rs.len() ==> {
                &&& !includes(#[trigger] rs[i], "Start coding for free"@)
                &&& !includes(rs[i], "Freebuff will run commands"@)
                &&& !includes(rs[i], "Directory "@)
                &&& !includes(rs[i], "Enter a coding task"@)
                &&& !includes(rs[i], "thinking..."@)
                &&& !includes(rs[i], "working..."@)
                &&& !includes(rs[i], "Not enough Freebucks"@)
                &&& !includes(rs[i], "Freebuff is already running"@)
                &&& !includes(rs[i], "Another freebuff instance"@)
                &&& !includes(rs[i], "See all 4 models"@)
                &&& !includes(rs[i], "Freebucks/hr"@)
                &&& !includes(rs[i], "Session ended"@)
                &&& !includes(rs[i], "Press Enter to continue"@)
                &&& !includes(rs[i], "Show fewer"@)
                &&& !includes(rs[i], "✕ End session"@)
                &&& !includes(rs[i], seq!['│'])
            },
    ensures
        classify_spec(rs) == ScreenStateV::Booting,
{
    lemma_first_has_holds(rs, "Not enough Freebucks"@, 0);
    lemma_no_busy(rs, 0);
    lemma_no_model_rows(rs, rs.len() as int);
    reveal_strlit("Another freebuff instance took over this account");
    reveal_strlit("Another freebuff instance");
    reveal_strlit("Enter a coding task or / for commands");
    reveal_strlit("Enter a coding task");
    assert("Another freebuff instance took over this account"@.subrange(0, "Another freebuff instance"@.len() as int) =~= "Another freebuff instance"@);
    lemma_includes_prefix("Another freebuff instance took over this account"@, "Another freebuff instance"@);
    assert("Enter a coding task or / for commands"@.subrange(0, "Enter a coding task"@.len() as int) =~= "Enter a coding task"@);
    lemma_includes_prefix("Enter a coding task or / for commands"@, "Enter a coding task"@);
    assert forall|i: int| 0 <= i < rs.len() implies !includes(
        #[trigger] rs[i],
        "Another freebuff instance took over this account"@,
    ) && !includes(rs[i], "Enter a coding task or / for commands"@) && !marker_row(rs[i]) by {
        if includes(rs[i], "Another freebuff instance took over this account"@) {
            lemma_includes_within(rs[i], "Another freebuff instance took over this account"@, "Another freebuff instance"@);
        }
        if includes(rs[i], "Enter a coding task or / for commands"@) {
            lemma_includes_within(rs[i], "Enter a coding task or / for commands"@, "Enter a coding task"@);
        }
    }
}

} // verus!
