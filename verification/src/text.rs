//! Character-level string utilities with exact specifications.
//!
//! Every string of the library is reasoned about through its view, the
//! sequence of `char`s it holds.

use vstd::prelude::*;

verus! {

/// `String::push`: appends `c` to the end of `s`.
#[verifier::external_body]
pub(crate) fn push_char(s: &mut String, c: char)
    ensures
        final(s)@ == old(s)@.push(c),
{
    s.push(c)
}

/// The characters of `s`, in order.
pub fn chars_of(s: &str) -> (v: Vec<char>)
    ensures
        v@ == s@,
{
    let mut v: Vec<char> = Vec::new();
    for c in it: s.chars()
        invariant
            v@ == it.seq().take(it.index()),
    {
        v.push(c);
    }
    v
}

/// A `String` holding exactly the characters of `v`.
pub fn string_from(v: &[char]) -> (s: String)
    ensures
        s@ == v@,
{
    let mut s = String::new();
    let mut i: usize = 0;
    while i < v.len()
        invariant
            i <= v@.len(),
            s@ == v@.take(i as int),
        decreases v@.len() - i,
    {
        push_char(&mut s, v[i]);
        assert(v@.take(i + 1) == v@.take(i as int).push(v@[i as int]));
        i = i + 1;
    }
    assert(v@.take(v@.len() as int) == v@);
    s
}


/// Unicode `White_Space`, the set that `char::is_whitespace` and `str::trim` use.
pub open spec fn is_ws(c: char) -> bool {
    let u = c as u32;
    ||| 0x09 <= u <= 0x0d
    ||| u == 0x20
    ||| u == 0x85
    ||| u == 0xa0
    ||| u == 0x1680
    ||| 0x2000 <= u <= 0x200a
    ||| u == 0x2028
    ||| u == 0x2029
    ||| u == 0x202f
    ||| u == 0x205f
    ||| u == 0x3000
}

/// Whether `c` is Unicode whitespace.
pub fn is_whitespace(c: char) -> (b: bool)
    ensures
        b == is_ws(c),
{
    let u = c as u32;
    (0x09 <= u && u <= 0x0d) || u == 0x20 || u == 0x85 || u == 0xa0 || u == 0x1680 || (0x2000
        <= u && u <= 0x200a) || u == 0x2028 || u == 0x2029 || u == 0x202f || u == 0x205f || u
        == 0x3000
}

/// `s` without its leading characters that satisfy `strip`.
pub open spec fn strip_start(s: Seq<char>, strip: spec_fn(char) -> bool) -> Seq<char>
    decreases s.len(),
{
    if s.len() > 0 && strip(s[0]) {
        strip_start(s.drop_first(), strip)
    } else {
        s
    }
}

/// `s` without its trailing characters that satisfy `strip`.
pub open spec fn strip_end(s: Seq<char>, strip: spec_fn(char) -> bool) -> Seq<char>
    decreases s.len(),
{
    if s.len() > 0 && strip(s.last()) {
        strip_end(s.drop_last(), strip)
    } else {
        s
    }
}

/// The predicate "is whitespace", as a spec closure.
pub open spec fn ws() -> spec_fn(char) -> bool {
    |c: char| is_ws(c)
}

/// The predicate "is one of the characters of `set`".
pub open spec fn one_of(set: Seq<char>) -> spec_fn(char) -> bool {
    |c: char| set.contains(c)
}

/// `str::trim`: leading and trailing whitespace removed.
pub open spec fn trim(s: Seq<char>) -> Seq<char> {
    strip_end(strip_start(s, ws()), ws())
}

/// `str::trim_start`.
pub open spec fn trim_start(s: Seq<char>) -> Seq<char> {
    strip_start(s, ws())
}

/// `str::trim_end`.
pub open spec fn trim_end(s: Seq<char>) -> Seq<char> {
    strip_end(s, ws())
}

pub proof fn lemma_strip_start_suffix(s: Seq<char>, strip: spec_fn(char) -> bool, i: int)
    requires
        0 <= i <= s.len(),
        forall|k: int| 0 <= k < i ==> strip(#[trigger] s[k]),
    ensures
        strip_start(s, strip) == strip_start(s.subrange(i, s.len() as int), strip),
    decreases i,
{
    if i > 0 {
        lemma_strip_start_suffix(s.drop_first(), strip, i - 1);
        assert(s.drop_first().subrange(i - 1, s.drop_first().len() as int) == s.subrange(
            i,
            s.len() as int,
        ));
    } else {
        assert(s.subrange(0, s.len() as int) == s);
    }
}

proof fn lemma_strip_end_prefix(s: Seq<char>, strip: spec_fn(char) -> bool, j: int)
    requires
        0 <= j <= s.len(),
        forall|k: int| j <= k < s.len() ==> strip(#[trigger] s[k]),
    ensures
        strip_end(s, strip) == strip_end(s.subrange(0, j), strip),
    decreases s.len() - j,
{
    if j < s.len() {
        lemma_strip_end_prefix(s.drop_last(), strip, j);
        assert(s.drop_last().subrange(0, j) == s.subrange(0, j));
    } else {
        assert(s.subrange(0, j) == s);
    }
}

/// The bounds `(start, end)` such that `v[start..end]` is `v[from..to]` with
/// leading and trailing whitespace removed.
pub fn trim_bounds(v: &[char], from: usize, to: usize) -> (r: (usize, usize))
    requires
        from <= to <= v@.len(),
    ensures
        from <= r.0 <= r.1 <= to,
        v@.subrange(r.0 as int, r.1 as int) == trim(v@.subrange(from as int, to as int)),
{
    let ghost s = v@.subrange(from as int, to as int);
    let mut i = from;
    while i < to && is_whitespace(v[i])
        invariant
            from <= i <= to <= v@.len(),
            s == v@.subrange(from as int, to as int),
            forall|k: int| from <= k < i ==> is_ws(#[trigger] v@[k]),
        decreases to - i,
    {
        i = i + 1;
    }
    proof {
        assert forall|k: int| 0 <= k < i - from implies #[trigger] ws()(s[k]) by {
            assert(s[k] == v@[from + k]);
        }
        lemma_strip_start_suffix(s, ws(), i - from);
        assert(s.subrange(i - from, s.len() as int) == v@.subrange(i as int, to as int));
        if i < to {
            assert(!ws()(v@.subrange(i as int, to as int)[0]));
        }
        assert(strip_start(s, ws()) == v@.subrange(i as int, to as int));
    }
    let mut j = to;
    while j > i && is_whitespace(v[j - 1])
        invariant
            from <= i <= j <= to <= v@.len(),
            forall|k: int| j <= k < to ==> is_ws(#[trigger] v@[k]),
        decreases j,
    {
        j = j - 1;
    }
    proof {
        let t = v@.subrange(i as int, to as int);
        assert forall|k: int| j - i <= k < t.len() implies #[trigger] ws()(t[k]) by {
            assert(t[k] == v@[i + k]);
        }
        lemma_strip_end_prefix(t, ws(), j - i);
        assert(t.subrange(0, j - i) == v@.subrange(i as int, j as int));
        if j > i {
            assert(!ws()(v@.subrange(i as int, j as int).last()));
        }
    }
    (i, j)
}

/// The index one past the last character of `v[from..to]` that is not in `set`.
pub fn strip_end_bound(v: &[char], from: usize, to: usize, set: &[char]) -> (j: usize)
    requires
        from <= to <= v@.len(),
    ensures
        from <= j <= to,
        v@.subrange(from as int, j as int) == strip_end(
            v@.subrange(from as int, to as int),
            one_of(set@),
        ),
{
    let mut j = to;
    while j > from && contains_char(set, v[j - 1])
        invariant
            from <= j <= to <= v@.len(),
            forall|k: int| j <= k < to ==> set@.contains(#[trigger] v@[k]),
        decreases j,
    {
        j = j - 1;
    }
    proof {
        let t = v@.subrange(from as int, to as int);
        assert forall|k: int| j - from <= k < t.len() implies #[trigger] one_of(set@)(t[k]) by {
            assert(t[k] == v@[from + k]);
        }
        lemma_strip_end_prefix(t, one_of(set@), j - from);
        assert(t.subrange(0, j - from) == v@.subrange(from as int, j as int));
        if j > from {
            assert(!one_of(set@)(v@.subrange(from as int, j as int).last()));
        }
    }
    j
}

/// The index of the first character of `v[from..to]` that is not in `set`.
pub fn strip_start_bound(v: &[char], from: usize, to: usize, set: &[char]) -> (i: usize)
    requires
        from <= to <= v@.len(),
    ensures
        from <= i <= to,
        v@.subrange(i as int, to as int) == strip_start(
            v@.subrange(from as int, to as int),
            one_of(set@),
        ),
{
    let ghost s = v@.subrange(from as int, to as int);
    let mut i = from;
    while i < to && contains_char(set, v[i])
        invariant
            from <= i <= to <= v@.len(),
            forall|k: int| from <= k < i ==> set@.contains(#[trigger] v@[k]),
        decreases to - i,
    {
        i = i + 1;
    }
    proof {
        assert forall|k: int| 0 <= k < i - from implies #[trigger] one_of(set@)(s[k]) by {
            assert(s[k] == v@[from + k]);
        }
        lemma_strip_start_suffix(s, one_of(set@), i - from);
        assert(s.subrange(i - from, s.len() as int) == v@.subrange(i as int, to as int));
        if i < to {
            assert(!one_of(set@)(v@.subrange(i as int, to as int)[0]));
        }
    }
    i
}

/// Whether `c` occurs in `set`.
pub fn contains_char(set: &[char], c: char) -> (b: bool)
    ensures
        b == set@.contains(c),
{
    let mut k: usize = 0;
    while k < set.len()
        invariant
            k <= set@.len(),
            forall|m: int| 0 <= m < k ==> set@[m] != c,
        decreases set@.len() - k,
    {
        if set[k] == c {
            assert(set@[k as int] == c);
            return true;
        }
        k = k + 1;
    }
    false
}

/// `needle` occurs in `hay` starting at index `i`.
pub open spec fn occurs_at(hay: Seq<char>, needle: Seq<char>, i: int) -> bool {
    0 <= i && i + needle.len() <= hay.len() && hay.subrange(i, i + needle.len()) == needle
}

/// The first index at or after `k` where `needle` occurs in `hay`.
pub open spec fn find_from(hay: Seq<char>, needle: Seq<char>, k: int) -> Option<int>
    decreases hay.len() + 1 - k,
{
    if k < 0 || k + needle.len() > hay.len() {
        None
    } else if occurs_at(hay, needle, k) {
        Some(k)
    } else {
        find_from(hay, needle, k + 1)
    }
}

/// `str::find`: the first index where `needle` occurs in `hay`.
pub open spec fn find(hay: Seq<char>, needle: Seq<char>) -> Option<int> {
    find_from(hay, needle, 0)
}

/// `str::contains`.
pub open spec fn includes(hay: Seq<char>, needle: Seq<char>) -> bool {
    find(hay, needle) is Some
}

/// What `find_from` returns, stated without recursion.
pub proof fn lemma_find_from(hay: Seq<char>, needle: Seq<char>, k: int)
    requires
        0 <= k,
    ensures
        find_from(hay, needle, k) matches Some(i) ==> k <= i && occurs_at(hay, needle, i) && (
        forall|j: int| k <= j < i ==> !occurs_at(hay, needle, j)),
        find_from(hay, needle, k) is None ==> forall|j: int| k <= j ==> !occurs_at(hay, needle, j),
    decreases hay.len() + 1 - k,
{
    if k + needle.len() > hay.len() {
    } else if occurs_at(hay, needle, k) {
    } else {
        lemma_find_from(hay, needle, k + 1);
    }
}

/// What `find` returns, stated without recursion.
pub proof fn lemma_find(hay: Seq<char>, needle: Seq<char>)
    ensures
        find(hay, needle) matches Some(i) ==> occurs_at(hay, needle, i) && (forall|j: int|
            0 <= j < i ==> !occurs_at(hay, needle, j)),
        find(hay, needle) is None ==> forall|j: int| !occurs_at(hay, needle, j),
        includes(hay, needle) <==> exists|j: int| occurs_at(hay, needle, j),
{
    lemma_find_from(hay, needle, 0);
    if let Some(i) = find(hay, needle) {
        assert(occurs_at(hay, needle, i));
    }
}

/// `strip_start` keeps the suffix from the first character that `strip`
/// does not take.
pub proof fn lemma_strip_start_at(s: Seq<char>, strip: spec_fn(char) -> bool) -> (k: int)
    ensures
        0 <= k <= s.len(),
        strip_start(s, strip) == s.subrange(k, s.len() as int),
        forall|i: int| 0 <= i < k ==> strip(#[trigger] s[i]),
        k < s.len() ==> !strip(s[k]),
    decreases s.len(),
{
    if s.len() > 0 && strip(s[0]) {
        let k1 = lemma_strip_start_at(s.drop_first(), strip);
        assert(s.drop_first().subrange(k1, s.drop_first().len() as int) == s.subrange(k1 + 1, s.len() as int));
        assert forall|i: int| 0 <= i < k1 + 1 implies strip(#[trigger] s[i]) by {
            if i > 0 {
                assert(s[i] == s.drop_first()[i - 1]);
            }
        }
        if k1 + 1 < s.len() {
            assert(s[k1 + 1] == s.drop_first()[k1]);
        }
        k1 + 1
    } else {
        assert(s.subrange(0, s.len() as int) == s);
        0
    }
}

/// `strip_end` keeps the prefix up to the last character that `strip`
/// does not take.
pub proof fn lemma_strip_end_at(s: Seq<char>, strip: spec_fn(char) -> bool) -> (j: int)
    ensures
        0 <= j <= s.len(),
        strip_end(s, strip) == s.subrange(0, j),
        forall|i: int| j <= i < s.len() ==> strip(#[trigger] s[i]),
        j > 0 ==> !strip(s[j - 1]),
    decreases s.len(),
{
    if s.len() > 0 && strip(s.last()) {
        let j1 = lemma_strip_end_at(s.drop_last(), strip);
        assert(s.drop_last().subrange(0, j1) == s.subrange(0, j1));
        assert forall|i: int| j1 <= i < s.len() implies strip(#[trigger] s[i]) by {
            if i < s.len() - 1 {
                assert(s[i] == s.drop_last()[i]);
            }
        }
        if j1 > 0 {
            assert(s[j1 - 1] == s.drop_last()[j1 - 1]);
        }
        j1
    } else {
        assert(s.subrange(0, s.len() as int) == s);
        s.len() as int
    }
}

/// `trim(s)` is the part of `s` between its leading and trailing
/// whitespace: `s[a..b]`, with only whitespace outside it and no
/// whitespace at its ends.
pub proof fn lemma_trim_bounds(s: Seq<char>) -> (r: (int, int))
    ensures
        0 <= r.0 <= r.1 <= s.len(),
        trim(s) == s.subrange(r.0, r.1),
        forall|i: int| 0 <= i < r.0 ==> is_ws(#[trigger] s[i]),
        forall|i: int| r.1 <= i < s.len() ==> is_ws(#[trigger] s[i]),
        r.0 < r.1 ==> !is_ws(s[r.0]) && !is_ws(s[r.1 - 1]),
{
    let a = lemma_strip_start_at(s, ws());
    let t = s.subrange(a, s.len() as int);
    let j = lemma_strip_end_at(t, ws());
    assert(t.subrange(0, j) == s.subrange(a, a + j));
    assert forall|i: int| a + j <= i < s.len() implies is_ws(#[trigger] s[i]) by {
        assert(s[i] == t[i - a]);
        assert(ws()(t[i - a]));
    }
    assert forall|i: int| 0 <= i < a implies is_ws(#[trigger] s[i]) by {
        assert(ws()(s[i]));
    }
    if j > 0 {
        assert(s[a + j - 1] == t[j - 1]);
        assert(s[a] == t[0]);
        if a < s.len() {
            assert(!ws()(s[a]));
        }
    }
    (a, a + j)
}

/// Trimming twice trims no more than once.
pub proof fn lemma_trim_idempotent(s: Seq<char>)
    ensures
        trim(trim(s)) == trim(s),
{
    let (a, b) = lemma_trim_bounds(s);
    let t = trim(s);
    let (c, d) = lemma_trim_bounds(t);
    if a < b {
        assert(t[0] == s[a]);
        assert(t[t.len() - 1] == s[b - 1]);
        if c > 0 {
            assert(is_ws(t[0]));
        }
        if d < t.len() {
            assert(is_ws(t[t.len() - 1]));
        }
        assert(t.subrange(c, d) == t);
    } else {
        assert(t.len() == 0);
        assert(t.subrange(c, d) == t);
    }
}

/// A pattern found in a part of `s` is found in `s`.
pub proof fn lemma_includes_subrange(s: Seq<char>, a: int, b: int, pat: Seq<char>)
    requires
        0 <= a <= b <= s.len(),
        includes(s.subrange(a, b), pat),
    ensures
        includes(s, pat),
{
    let part = s.subrange(a, b);
    lemma_find(part, pat);
    lemma_find(s, pat);
    let j = choose|j: int| occurs_at(part, pat, j);
    assert(s.subrange(a + j, a + j + pat.len()) == part.subrange(j, j + pat.len()));
    assert(occurs_at(s, pat, a + j));
}

/// A pattern that does not start or end with whitespace and is found in `s`
/// is found in `trim(s)`.
pub proof fn lemma_includes_trim(s: Seq<char>, pat: Seq<char>)
    requires
        pat.len() > 0,
        !is_ws(pat[0]),
        !is_ws(pat[pat.len() - 1]),
        includes(s, pat),
    ensures
        includes(trim(s), pat),
{
    let (a, b) = lemma_trim_bounds(s);
    lemma_find(s, pat);
    let j = choose|j: int| occurs_at(s, pat, j);
    assert(s[j] == pat[0]);
    assert(s[j + pat.len() - 1] == pat[pat.len() - 1]);
    let t = trim(s);
    assert(t.subrange(j - a, j - a + pat.len()) == s.subrange(j, j + pat.len()));
    assert(occurs_at(t, pat, j - a));
    lemma_find(t, pat);
}

/// Whether `needle` occurs in `hay` at index `i`.
pub fn matches_at(hay: &[char], needle: &[char], i: usize) -> (b: bool)
    ensures
        b == occurs_at(hay@, needle@, i as int),
{
    if i > hay.len() || needle.len() > hay.len() - i {
        return false;
    }
    let mut k: usize = 0;
    while k < needle.len()
        invariant
            i + needle.len() <= hay.len(),
            k <= needle.len(),
            forall|m: int| 0 <= m < k ==> hay@[i + m] == needle@[m],
        decreases needle@.len() - k,
    {
        if hay[i + k] != needle[k] {
            assert(hay@.subrange(i as int, i + needle@.len())[k as int] != needle@[k as int]);
            return false;
        }
        k = k + 1;
    }
    assert(hay@.subrange(i as int, i + needle@.len()) =~= needle@);
    true
}

/// The first index at or after `from` where `needle` occurs in `hay`.
pub fn find_chars_from(hay: &[char], needle: &[char], from: usize) -> (r: Option<usize>)
    ensures
        r matches Some(i) ==> find_from(hay@, needle@, from as int) == Some(i as int),
        r is None ==> find_from(hay@, needle@, from as int) is None,
{
    if from > hay.len() || needle.len() > hay.len() - from {
        return None;
    }
    let last = hay.len() - needle.len();
    let mut k = from;
    loop
        invariant
            needle.len() <= hay.len(),
            last == hay.len() - needle.len(),
            from <= k <= last,
            find_from(hay@, needle@, from as int) == find_from(hay@, needle@, k as int),
        decreases last - k,
    {
        if matches_at(hay, needle, k) {
            return Some(k);
        }
        if k == last {
            assert(find_from(hay@, needle@, k + 1) is None);
            return None;
        }
        k = k + 1;
    }
}

/// `str::find` over characters.
pub fn find_chars(hay: &[char], needle: &[char]) -> (r: Option<usize>)
    ensures
        r matches Some(i) ==> find(hay@, needle@) == Some(i as int),
        r is None ==> find(hay@, needle@) is None,
{
    find_chars_from(hay, needle, 0)
}

/// `str::contains` over characters.
pub fn has_chars(hay: &[char], needle: &[char]) -> (b: bool)
    ensures
        b == includes(hay@, needle@),
{
    find_chars(hay, needle).is_some()
}

/// `str::contains` with a string needle.
pub fn has_str(hay: &[char], needle: &str) -> (b: bool)
    ensures
        b == includes(hay@, needle@),
{
    let n = chars_of(needle);
    has_chars(hay, &n)
}

/// `str::starts_with`.
pub open spec fn starts_with(s: Seq<char>, prefix: Seq<char>) -> bool {
    prefix.len() <= s.len() && s.subrange(0, prefix.len() as int) == prefix
}

/// Whether `v[from..]` starts with `prefix`.
pub fn starts_with_at(v: &[char], from: usize, prefix: &str) -> (b: bool)
    requires
        from <= v@.len(),
    ensures
        b == starts_with(v@.subrange(from as int, v@.len() as int), prefix@),
{
    let p = chars_of(prefix);
    let r = matches_at(v, &p, from);
    proof {
        let t = v@.subrange(from as int, v@.len() as int);
        if p@.len() <= t.len() {
            assert(t.subrange(0, p@.len() as int) == v@.subrange(from as int, from + p@.len()));
        }
    }
    r
}

/// Characters `'0'..='9'`.
pub open spec fn is_digit(c: char) -> bool {
    '0' <= c <= '9'
}

/// The value of a string of decimal digits.
pub open spec fn digits_value(s: Seq<char>) -> nat
    decreases s.len(),
{
    if s.len() == 0 {
        0
    } else {
        digits_value(s.drop_last()) * 10 + ((s.last() as int - '0' as int) as nat)
    }
}

/// The text holds only decimal digits.
pub open spec fn all_digits(s: Seq<char>) -> bool {
    forall|i: int| 0 <= i < s.len() ==> is_digit(#[trigger] s[i])
}

/// The digits part of an unsigned integer literal: `s` without a leading `+`.
pub open spec fn unsigned_digits(s: Seq<char>) -> Seq<char> {
    if s.len() > 0 && s[0] == '+' {
        s.drop_first()
    } else {
        s
    }
}

/// `str::parse` for an unsigned integer type whose largest value is `max`:
/// an optional `+`, then one or more digits, of a value at most `max`.
pub open spec fn parse_unsigned(s: Seq<char>, max: nat) -> Option<nat> {
    let d = unsigned_digits(s);
    if d.len() > 0 && all_digits(d) && digits_value(d) <= max {
        Some(digits_value(d))
    } else {
        None
    }
}

proof fn lemma_digits_value_prefix_le(s: Seq<char>, i: int)
    requires
        0 <= i <= s.len(),
        all_digits(s),
    ensures
        digits_value(s.take(i)) <= digits_value(s),
    decreases s.len() - i,
{
    if i < s.len() {
        lemma_digits_value_prefix_le(s, i + 1);
        assert(s.take(i + 1).drop_last() == s.take(i));
        assert(is_digit(s[i]));
    } else {
        assert(s.take(i) == s);
    }
}

/// `str::parse::<u64>` over the characters `v[from..to]`.
pub fn parse_u64(v: &[char], from: usize, to: usize) -> (r: Option<u64>)
    requires
        from <= to <= v@.len(),
    ensures
        r matches Some(n) ==> parse_unsigned(v@.subrange(from as int, to as int), u64::MAX as nat)
            == Some(n as nat),
        r is None ==> parse_unsigned(v@.subrange(from as int, to as int), u64::MAX as nat) is None,
{
    let ghost s = v@.subrange(from as int, to as int);
    let start = if from < to && v[from] == '+' {
        from + 1
    } else {
        from
    };
    let ghost d = v@.subrange(start as int, to as int);
    assert(d == unsigned_digits(s));
    if start == to {
        return None;
    }
    let mut k = start;
    while k < to
        invariant
            start <= k <= to <= v@.len(),
            d == v@.subrange(start as int, to as int),
            s == v@.subrange(from as int, to as int),
            d == unsigned_digits(s),
            forall|m: int| start <= m < k ==> is_digit(#[trigger] v@[m]),
        decreases to - k,
    {
        if !('0' <= v[k] && v[k] <= '9') {
            assert(d[k - start] == v@[k as int]);
            assert(!is_digit(d[k - start]));
            assert(!all_digits(d));
            return None;
        }
        k = k + 1;
    }
    assert(all_digits(d)) by {
        assert forall|m: int| 0 <= m < d.len() implies is_digit(#[trigger] d[m]) by {
            assert(d[m] == v@[start + m]);
        }
    }
    let mut acc: u64 = 0;
    let mut k = start;
    while k < to
        invariant
            start <= k <= to <= v@.len(),
            d == v@.subrange(start as int, to as int),
            s == v@.subrange(from as int, to as int),
            d == unsigned_digits(s),
            all_digits(d),
            acc as nat == digits_value(d.take(k - start)),
        decreases to - k,
    {
        assert(d[k - start] == v@[k as int]);
        assert(is_digit(d[k - start]));
        let digit = (v[k] as u32 - '0' as u32) as u64;
        assert(d.take(k - start + 1).drop_last() == d.take(k - start));
        assert(d.take(k - start + 1).last() == v@[k as int]);
        assert(digits_value(d.take(k - start + 1)) == acc * 10 + digit);
        match acc.checked_mul(10) {
            Some(m) => match m.checked_add(digit) {
                Some(n) => {
                    acc = n;
                },
                None => {
                    proof {
                        lemma_digits_value_prefix_le(d, k - start + 1);
                    }
                    return None;
                },
            },
            None => {
                proof {
                    lemma_digits_value_prefix_le(d, k - start + 1);
                }
                return None;
            },
        }
        k = k + 1;
    }
    assert(d.take(to - start) == d);
    Some(acc)
}


/// What `str::to_lowercase` returns for `s`: the Unicode lowercase mapping.
pub uninterp spec fn lowercase(s: Seq<char>) -> Seq<char>;

/// ASCII lowercase of one character: `A`-`Z` to `a`-`z`, anything else unchanged.
pub open spec fn ascii_lower(c: char) -> char {
    if 'A' <= c <= 'Z' {
        ((c as u32) + 32) as char
    } else {
        c
    }
}

/// `str::to_lowercase`. Its result is named by `lowercase`; on text made of
/// ASCII characters only, that mapping is the ASCII one (`A`-`Z` to `a`-`z`,
/// all else unchanged), as the standard library documents.
#[verifier::external_body]
pub(crate) fn to_lowercase(s: &str) -> (r: String)
    ensures
        r@ == lowercase(s@),
        (forall|i: int| 0 <= i < s@.len() ==> (#[trigger] s@[i] as u32) < 128) ==> r@
            == s@.map_values(|c: char| ascii_lower(c)),
{
    s.to_lowercase()
}

/// `s` without the characters that are in `set`.
pub open spec fn without(s: Seq<char>, set: Seq<char>) -> Seq<char>
    decreases s.len(),
{
    if s.len() == 0 {
        s
    } else if set.contains(s.last()) {
        without(s.drop_last(), set)
    } else {
        without(s.drop_last(), set).push(s.last())
    }
}

/// `v[from..to]` without the characters that are in `set`.
pub fn without_chars(v: &[char], from: usize, to: usize, set: &[char]) -> (r: Vec<char>)
    requires
        from <= to <= v@.len(),
    ensures
        r@ == without(v@.subrange(from as int, to as int), set@),
{
    let ghost s = v@.subrange(from as int, to as int);
    let mut r: Vec<char> = Vec::new();
    let mut k = from;
    while k < to
        invariant
            from <= k <= to <= v@.len(),
            s == v@.subrange(from as int, to as int),
            r@ == without(s.take(k - from), set@),
        decreases to - k,
    {
        assert(s.take(k - from + 1).drop_last() == s.take(k - from));
        assert(s.take(k - from + 1).last() == v@[k as int]);
        if !contains_char(set, v[k]) {
            r.push(v[k]);
        }
        k = k + 1;
    }
    assert(s.take(to - from) == s);
    r
}

/// The lines joined with `\n` between them, as `[&str]::join("\n")` does.
pub open spec fn join_lines(lines: Seq<Seq<char>>) -> Seq<char>
    decreases lines.len(),
{
    if lines.len() == 0 {
        Seq::empty()
    } else if lines.len() == 1 {
        lines[0]
    } else {
        join_lines(lines.drop_last()) + seq!['\n'] + lines.last()
    }
}

/// The index one past the last character of `v` that is not whitespace.
pub fn trim_end_bound(v: &[char]) -> (j: usize)
    ensures
        j <= v@.len(),
        v@.subrange(0, j as int) == strip_end(v@, ws()),
{
    let mut j = v.len();
    while j > 0 && is_whitespace(v[j - 1])
        invariant
            j <= v@.len(),
            forall|k: int| j <= k < v@.len() ==> is_ws(#[trigger] v@[k]),
        decreases j,
    {
        j = j - 1;
    }
    proof {
        assert forall|k: int| j <= k < v@.len() implies #[trigger] ws()(v@[k]) by {}
        lemma_strip_end_prefix(v@, ws(), j as int);
        if j > 0 {
            assert(!ws()(v@.subrange(0, j as int).last()));
        }
    }
    j
}

} // verus!
