//! Terminal capability queries in the child's output.
//!
//! The reader feeds the PTY's byte stream to the screen model and answers a
//! small set of queries that the TUI is known to send. This module finds
//! those queries in the stream, holds back a query split across two reads,
//! and builds the replies.

use vstd::prelude::*;

verus! {

/// `ESC[6n` — cursor position report request.
pub open spec fn dsr_cursor() -> Seq<u8> {
    seq![0x1bu8, 0x5bu8, 0x36u8, 0x6eu8]
}

/// `ESC[?u` — kitty keyboard protocol request.
pub open spec fn kitty_keyboard() -> Seq<u8> {
    seq![0x1bu8, 0x5bu8, 0x3fu8, 0x75u8]
}

/// `ESC]11;?` + BEL — background colour query.
pub open spec fn osc11_bel() -> Seq<u8> {
    seq![0x1bu8, 0x5du8, 0x31u8, 0x31u8, 0x3bu8, 0x3fu8, 0x07u8]
}

/// `ESC]11;?` + ST — background colour query.
pub open spec fn osc11_st() -> Seq<u8> {
    seq![0x1bu8, 0x5du8, 0x31u8, 0x31u8, 0x3bu8, 0x3fu8, 0x1bu8, 0x5cu8]
}

/// `ESC]10;?` + BEL — foreground colour query.
pub open spec fn osc10_bel() -> Seq<u8> {
    seq![0x1bu8, 0x5du8, 0x31u8, 0x30u8, 0x3bu8, 0x3fu8, 0x07u8]
}

/// `ESC]10;?` + ST — foreground colour query.
pub open spec fn osc10_st() -> Seq<u8> {
    seq![0x1bu8, 0x5du8, 0x31u8, 0x30u8, 0x3bu8, 0x3fu8, 0x1bu8, 0x5cu8]
}

/// The recognised query sequences, in the order they are tried.
pub open spec fn queries() -> Seq<Seq<u8>> {
    seq![dsr_cursor(), kitty_keyboard(), osc11_bel(), osc11_st(), osc10_bel(), osc10_st()]
}

/// The recognised query sequences, in the order they are tried.
fn query_table() -> (t: Vec<Vec<u8>>)
    ensures
        t@.len() == 6,
        forall|i: int| 0 <= i < 6 ==> (#[trigger] t@[i])@ == queries()[i],
{
    let t = vec![
        vec![0x1bu8, 0x5bu8, 0x36u8, 0x6eu8],
        vec![0x1bu8, 0x5bu8, 0x3fu8, 0x75u8],
        vec![0x1bu8, 0x5du8, 0x31u8, 0x31u8, 0x3bu8, 0x3fu8, 0x07u8],
        vec![0x1bu8, 0x5du8, 0x31u8, 0x31u8, 0x3bu8, 0x3fu8, 0x1bu8, 0x5cu8],
        vec![0x1bu8, 0x5du8, 0x31u8, 0x30u8, 0x3bu8, 0x3fu8, 0x07u8],
        vec![0x1bu8, 0x5du8, 0x31u8, 0x30u8, 0x3bu8, 0x3fu8, 0x1bu8, 0x5cu8],
    ];
    t
}

/// The distinct query kinds we know how to answer.
#[derive(Debug, Clone, Copy, PartialEq, Eq)]
pub enum QueryKind {
    CursorReport,
    KittyKeyboard,
    SetFg,
    SetBg,
}

/// The kind of the recognised query `q`.
pub open spec fn kind_of(q: Seq<u8>) -> QueryKind {
    if q == dsr_cursor() {
        QueryKind::CursorReport
    } else if q == kitty_keyboard() {
        QueryKind::KittyKeyboard
    } else if q == osc11_bel() || q == osc11_st() {
        QueryKind::SetBg
    } else {
        QueryKind::SetFg
    }
}

/// `s` begins with `p`.
pub open spec fn begins_with(s: Seq<u8>, p: Seq<u8>) -> bool {
    p.len() <= s.len() && s.subrange(0, p.len() as int) == p
}

/// Whether `rest` is a non-empty strict prefix of `q` (a possible split
/// query).
pub open spec fn strict_prefix_spec(rest: Seq<u8>, q: Seq<u8>) -> bool {
    rest.len() > 0 && rest.len() < q.len() && begins_with(q, rest)
}

/// Whether `s` begins with `p`.
fn bytes_begin_with(s: &[u8], p: &[u8]) -> (b: bool)
    ensures
        b == begins_with(s@, p@),
{
    if p.len() > s.len() {
        return false;
    }
    let mut k: usize = 0;
    while k < p.len()
        invariant
            p@.len() <= s@.len(),
            k <= p@.len(),
            forall|m: int| 0 <= m < k ==> s@[m] == p@[m],
        decreases p@.len() - k,
    {
        if s[k] != p[k] {
            assert(s@.subrange(0, p@.len() as int)[k as int] != p@[k as int]);
            return false;
        }
        k = k + 1;
    }
    assert(s@.subrange(0, p@.len() as int) =~= p@);
    true
}

/// Whether `s[at..]` begins with `p`.
fn begins_with_at(s: &[u8], at: usize, p: &[u8]) -> (b: bool)
    requires
        at <= s@.len(),
    ensures
        b == begins_with(s@.subrange(at as int, s@.len() as int), p@),
{
    let ghost rest = s@.subrange(at as int, s@.len() as int);
    let sl = s.len();
    if p.len() > sl - at {
        return false;
    }
    let mut k: usize = 0;
    while k < p.len()
        invariant
            at <= s@.len(),
            sl == s@.len(),
            p@.len() <= rest.len(),
            rest == s@.subrange(at as int, s@.len() as int),
            k <= p@.len(),
            forall|m: int| 0 <= m < k ==> rest[m] == p@[m],
        decreases p@.len() - k,
    {
        if s[at + k] != p[k] {
            assert(rest.subrange(0, p@.len() as int)[k as int] != p@[k as int]);
            return false;
        }
        k = k + 1;
    }
    assert(rest.subrange(0, p@.len() as int) =~= p@);
    true
}

/// Whether `s[at..]` is a non-empty strict prefix of `q`.
fn strict_prefix_at(s: &[u8], at: usize, q: &[u8]) -> (b: bool)
    requires
        at <= s@.len(),
    ensures
        b == strict_prefix_spec(s@.subrange(at as int, s@.len() as int), q@),
{
    let ghost rest = s@.subrange(at as int, s@.len() as int);
    let sl = s.len();
    let n = sl - at;
    if !(n > 0 && n < q.len()) {
        return false;
    }
    let mut k: usize = 0;
    while k < n
        invariant
            n == rest.len(),
            n < q@.len(),
            rest == s@.subrange(at as int, s@.len() as int),
            at + n == sl,
            sl == s@.len(),
            k <= n,
            forall|m: int| 0 <= m < k ==> q@[m] == rest[m],
        decreases n - k,
    {
        if q[k] != s[at + k] {
            assert(q@.subrange(0, n as int)[k as int] != rest[k as int]);
            return false;
        }
        k = k + 1;
    }
    assert(q@.subrange(0, n as int) =~= rest);
    true
}

/// Whether `rest` is a non-empty strict prefix of `q` (a possible split query).
pub fn strict_prefix(rest: &[u8], q: &[u8]) -> (b: bool)
    ensures
        b == strict_prefix_spec(rest@, q@),
{
    rest.len() > 0 && rest.len() < q.len() && bytes_begin_with(q, rest)
}

/// Map a recognised query byte-sequence to its [`QueryKind`].
pub fn kind_for(q: &[u8]) -> (k: QueryKind)
    requires
        queries().contains(q@),
    ensures
        k == kind_of(q@),
{
    let t = query_table();
    if bytes_begin_with(q, &t[0]) && q.len() == t[0].len() {
        assert(q@ =~= dsr_cursor());
        QueryKind::CursorReport
    } else if bytes_begin_with(q, &t[1]) && q.len() == t[1].len() {
        assert(q@ =~= kitty_keyboard());
        QueryKind::KittyKeyboard
    } else if (bytes_begin_with(q, &t[2]) && q.len() == t[2].len()) || (bytes_begin_with(q, &t[3])
        && q.len() == t[3].len()) {
        proof {
            if q@.len() == 7 {
                assert(q@ =~= osc11_bel());
            } else {
                assert(q@ =~= osc11_st());
            }
        }
        QueryKind::SetBg
    } else {
        proof {
            let i = choose|i: int| 0 <= i < queries().len() && queries()[i] == q@;
            if i == 0 {
                assert(q@.subrange(0, 4) =~= q@);
            } else if i == 1 {
                assert(q@.subrange(0, 4) =~= q@);
            } else if i == 2 {
                assert(q@.subrange(0, 7) =~= q@);
            } else if i == 3 {
                assert(q@.subrange(0, 8) =~= q@);
            }
            assert(q@ != dsr_cursor());
            assert(q@ != kitty_keyboard());
            assert(q@ != osc11_bel());
            assert(q@ != osc11_st());
        }
        QueryKind::SetFg
    }
}

/// The first query, in table order, that `rest` begins with.
pub open spec fn first_match(rest: Seq<u8>) -> Option<Seq<u8>> {
    if begins_with(rest, dsr_cursor()) {
        Some(dsr_cursor())
    } else if begins_with(rest, kitty_keyboard()) {
        Some(kitty_keyboard())
    } else if begins_with(rest, osc11_bel()) {
        Some(osc11_bel())
    } else if begins_with(rest, osc11_st()) {
        Some(osc11_st())
    } else if begins_with(rest, osc10_bel()) {
        Some(osc10_bel())
    } else if begins_with(rest, osc10_st()) {
        Some(osc10_st())
    } else {
        None
    }
}

/// `rest` is a non-empty strict prefix of some query.
pub open spec fn split_query(rest: Seq<u8>) -> bool {
    exists|i: int| 0 <= i < queries().len() && strict_prefix_spec(rest, #[trigger] queries()[i])
}

/// Scanning `c` from position `i`: how far the bytes are consumed and the
/// queries found, in order. A full query is consumed and recorded; a
/// position where a query might start but the bytes run out stops the scan;
/// any other byte is consumed as ordinary output.
pub open spec fn scan_from(c: Seq<u8>, i: int) -> (int, Seq<QueryKind>)
    decreases c.len() - i,
{
    if i < 0 || i >= c.len() {
        (i, Seq::empty())
    } else {
        let rest = c.subrange(i, c.len() as int);
        match first_match(rest) {
            Some(q) => {
                let (n, ks) = scan_from(c, i + q.len());
                (n, seq![kind_of(q)] + ks)
            },
            None => if split_query(rest) {
                (i, Seq::empty())
            } else {
                scan_from(c, i + 1)
            },
        }
    }
}

proof fn lemma_queries_named()
    ensures
        queries()[0] == dsr_cursor(),
        queries()[1] == kitty_keyboard(),
        queries()[2] == osc11_bel(),
        queries()[3] == osc11_st(),
        queries()[4] == osc10_bel(),
        queries()[5] == osc10_st(),
        queries().len() == 6,
{
}

/// The first query of the table that `c[at..]` begins with, by its index.
fn first_match_exec(c: &[u8], at: usize, t: &Vec<Vec<u8>>) -> (r: Option<usize>)
    requires
        at <= c@.len(),
        t@.len() == 6,
        forall|i: int| 0 <= i < 6 ==> (#[trigger] t@[i])@ == queries()[i],
    ensures
        match r {
            Some(i) => i < 6 && first_match(c@.subrange(at as int, c@.len() as int)) == Some(queries()[i as int]),
            None => first_match(c@.subrange(at as int, c@.len() as int)) is None,
        },
{
    let ghost rest = c@.subrange(at as int, c@.len() as int);
    let mut i: usize = 0;
    while i < 6
        invariant
            i <= 6,
            t@.len() == 6,
            forall|j: int| 0 <= j < 6 ==> (#[trigger] t@[j])@ == queries()[j],
            at <= c@.len(),
            rest == c@.subrange(at as int, c@.len() as int),
            forall|j: int| 0 <= j < i ==> !begins_with(rest, #[trigger] queries()[j]),
        decreases 6 - i,
    {
        if begins_with_at(c, at, &t[i]) {
            proof {
                lemma_queries_named();
            }
            return Some(i);
        }
        i = i + 1;
    }
    proof {
        lemma_queries_named();
    }
    None
}

/// Whether `c[at..]` is a strict prefix of some query of the table.
fn split_query_exec(c: &[u8], at: usize, t: &Vec<Vec<u8>>) -> (b: bool)
    requires
        at <= c@.len(),
        t@.len() == 6,
        forall|i: int| 0 <= i < 6 ==> (#[trigger] t@[i])@ == queries()[i],
    ensures
        b == split_query(c@.subrange(at as int, c@.len() as int)),
{
    let ghost rest = c@.subrange(at as int, c@.len() as int);
    let mut i: usize = 0;
    while i < 6
        invariant
            i <= 6,
            t@.len() == 6,
            forall|j: int| 0 <= j < 6 ==> (#[trigger] t@[j])@ == queries()[j],
            at <= c@.len(),
            rest == c@.subrange(at as int, c@.len() as int),
            forall|j: int| 0 <= j < i ==> !strict_prefix_spec(rest, #[trigger] queries()[j]),
        decreases 6 - i,
    {
        if strict_prefix_at(c, at, &t[i]) {
            return true;
        }
        i = i + 1;
    }
    false
}

/// Scan `combined` left-to-right, recording any recognised queries in `out`.
/// Ordinary bytes are skipped; the return value is the number of bytes
/// consumed from the front of `combined`. The unconsumed tail is a possible
/// query that is split across chunk boundaries.
pub fn scan(combined: &[u8], out: &mut Vec<QueryKind>) -> (n: usize)
    ensures
        n as int == scan_from(combined@, 0).0,
        final(out)@ == old(out)@ + scan_from(combined@, 0).1,
{
    let t = query_table();
    let ghost start = out@;
    let mut i: usize = 0;
    while i < combined.len()
        invariant_except_break
            i <= combined@.len(),
            t@.len() == 6,
            forall|j: int| 0 <= j < 6 ==> (#[trigger] t@[j])@ == queries()[j],
            ({
                let (n, ks) = scan_from(combined@, i as int);
                &&& scan_from(combined@, 0).0 == n
                &&& start + scan_from(combined@, 0).1 == out@ + ks
            }),
        ensures
            i as int == scan_from(combined@, 0).0,
            out@ == start + scan_from(combined@, 0).1,
        decreases combined@.len() - i,
    {
        match first_match_exec(combined, i, &t) {
            Some(q) => {
                let k = kind_for(t[q].as_slice());
                proof {
                    assert(queries()[q as int] == t@[q as int]@);
                    assert(queries().contains(t@[q as int]@));
                }
                let ghost old_out = out@;
                out.push(k);
                proof {
                    let (n2, ks2) = scan_from(combined@, i + t@[q as int]@.len());
                    assert(seq![k] + ks2 == scan_from(combined@, i as int).1);
                    assert(old_out.push(k) + ks2 =~= old_out + (seq![k] + ks2));
                }
                i = i + t[q].len();
            },
            None => {
                if split_query_exec(combined, i, &t) {
                    proof {
                        assert(out@ + Seq::<QueryKind>::empty() =~= out@);
                    }
                    break;
                }
                i = i + 1;
            },
        }
    }
    proof {
        if i >= combined@.len() {
            assert(out@ + Seq::<QueryKind>::empty() =~= out@);
        }
    }
    i
}

proof fn lemma_scan_tail(c: Seq<u8>, i: int)
    requires
        0 <= i <= c.len(),
    ensures
        i <= scan_from(c, i).0 <= c.len(),
        scan_from(c, i).0 < c.len() ==> split_query(c.subrange(scan_from(c, i).0, c.len() as int)),
    decreases c.len() - i,
{
    if i < c.len() {
        let rest = c.subrange(i, c.len() as int);
        match first_match(rest) {
            Some(q) => {
                lemma_queries_named();
                assert(q.len() <= rest.len());
                lemma_scan_tail(c, i + q.len());
            },
            None => if !split_query(rest) {
                lemma_scan_tail(c, i + 1);
            },
        }
    }
}

/// The bytes that a scan leaves unconsumed are a non-empty strict prefix of
/// a query, that is, a query cut short by the end of the read; everything
/// else is consumed.
pub proof fn lemma_unconsumed_is_split_query(c: Seq<u8>)
    ensures
        0 <= scan_from(c, 0).0 <= c.len(),
        scan_from(c, 0).0 < c.len() ==> split_query(c.subrange(scan_from(c, 0).0, c.len() as int)),
{
    lemma_scan_tail(c, 0);
}

/// What one read of `chunk` after the held-back bytes `carry` gives: the
/// bytes for the screen model, the queries found in them, and the bytes to
/// hold back for the next read.
pub open spec fn chunk_step(carry: Seq<u8>, chunk: Seq<u8>) -> (Seq<u8>, Seq<QueryKind>, Seq<u8>) {
    let combined = carry + chunk;
    let (n, ks) = scan_from(combined, 0);
    (combined.subrange(0, n), ks, combined.subrange(n, combined.len() as int))
}

/// Combine the held-back bytes with a new read, scan for queries, and split
/// off the bytes to hold back (a query split across reads).
pub fn split_chunk(carry: Vec<u8>, chunk: &[u8]) -> (r: (Vec<u8>, Vec<QueryKind>, Vec<u8>))
    ensures
        (r.0@, r.1@, r.2@) == chunk_step(carry@, chunk@),
{
    let mut combined = carry;
    let ghost c0 = combined@;
    let mut i: usize = 0;
    while i < chunk.len()
        invariant
            i <= chunk@.len(),
            combined@ == c0 + chunk@.take(i as int),
        decreases chunk@.len() - i,
    {
        combined.push(chunk[i]);
        assert(chunk@.take(i + 1) == chunk@.take(i as int).push(chunk@[i as int]));
        i = i + 1;
    }
    assert(chunk@.take(chunk@.len() as int) == chunk@);
    let mut queries: Vec<QueryKind> = Vec::new();
    let n = scan(&combined, &mut queries);
    proof {
        lemma_unconsumed_is_split_query(combined@);
        assert(Seq::<QueryKind>::empty() + scan_from(combined@, 0).1 =~= scan_from(combined@, 0).1);
    }
    let mut head: Vec<u8> = Vec::new();
    let mut tail: Vec<u8> = Vec::new();
    let mut k: usize = 0;
    while k < combined.len()
        invariant
            n <= combined@.len(),
            k <= combined@.len(),
            k <= n ==> head@ == combined@.subrange(0, k as int) && tail@ == Seq::<u8>::empty(),
            k > n ==> head@ == combined@.subrange(0, n as int) && tail@ == combined@.subrange(n as int, k as int),
        decreases combined@.len() - k,
    {
        if k < n {
            head.push(combined[k]);
            assert(combined@.subrange(0, k + 1) == combined@.subrange(0, k as int).push(combined@[k as int]));
        } else {
            tail.push(combined[k]);
            assert(combined@.subrange(n as int, k + 1) == combined@.subrange(n as int, k as int).push(combined@[k as int]));
        }
        k = k + 1;
    }
    proof {
        if combined@.len() <= n {
            assert(combined@.subrange(n as int, combined@.len() as int) =~= Seq::<u8>::empty());
        }
    }
    (head, queries, tail)
}

/// The decimal digits of `n`, as ASCII bytes.
pub open spec fn decimal_bytes(n: nat) -> Seq<u8>
    decreases n,
{
    if n < 10 {
        seq![(n + 48) as u8]
    } else {
        decimal_bytes(n / 10).push(((n % 10) + 48) as u8)
    }
}

/// Appends the decimal digits of `n` to `out`.
fn push_decimal(out: &mut Vec<u8>, n: u32)
    ensures
        final(out)@ == old(out)@ + decimal_bytes(n as nat),
    decreases n,
{
    if n < 10 {
        out.push((n as u8) + 48u8);
    } else {
        push_decimal(out, n / 10);
        out.push(((n % 10) as u8) + 48u8);
    }
}

/// The reply to a query of kind `kind`, the cursor being at the 0-based
/// `(row, col)`.
pub open spec fn reply_spec(kind: QueryKind, cursor: (u16, u16)) -> Seq<u8> {
    match kind {
        QueryKind::CursorReport => seq![0x1bu8, 0x5bu8] + decimal_bytes((cursor.0 + 1) as nat) + seq![0x3bu8]
            + decimal_bytes((cursor.1 + 1) as nat) + seq![0x52u8],
        QueryKind::KittyKeyboard => seq![0x1bu8, 0x5bu8, 0x3fu8, 0x30u8, 0x75u8],
        QueryKind::SetBg => seq![0x1bu8, 0x5du8, 0x31u8, 0x31u8, 0x3bu8] + rgb_text(0x30u8) + seq![0x1bu8, 0x5cu8],
        QueryKind::SetFg => seq![0x1bu8, 0x5du8, 0x31u8, 0x30u8, 0x3bu8] + rgb_text(0x66u8) + seq![0x1bu8, 0x5cu8],
    }
}

/// `rgb:dddd/dddd/dddd` with every `d` the byte `d`.
pub open spec fn rgb_text(d: u8) -> Seq<u8> {
    seq![0x72u8, 0x67u8, 0x62u8, 0x3au8, d, d, d, d, 0x2fu8, d, d, d, d, 0x2fu8, d, d, d, d]
}

/// Appends `rgb:dddd/dddd/dddd`.
fn push_rgb(out: &mut Vec<u8>, d: u8)
    ensures
        final(out)@ == old(out)@ + rgb_text(d),
{
    let ghost start = out@;
    out.push(0x72u8);
    out.push(0x67u8);
    out.push(0x62u8);
    out.push(0x3au8);
    out.push(d);
    out.push(d);
    out.push(d);
    out.push(d);
    out.push(0x2fu8);
    out.push(d);
    out.push(d);
    out.push(d);
    out.push(d);
    out.push(0x2fu8);
    out.push(d);
    out.push(d);
    out.push(d);
    out.push(d);
    assert(out@ =~= start + rgb_text(d));
}

/// Build the byte reply for a recognised query kind, the cursor being at
/// the 0-based `cursor` (row, column); the cursor report is 1-based.
pub fn reply_bytes(kind: QueryKind, cursor: (u16, u16)) -> (r: Vec<u8>)
    ensures
        r@ == reply_spec(kind, cursor),
{
    match kind {
        QueryKind::CursorReport => {
            let mut out: Vec<u8> = vec![0x1bu8, 0x5bu8];
            push_decimal(&mut out, cursor.0 as u32 + 1);
            out.push(0x3bu8);
            push_decimal(&mut out, cursor.1 as u32 + 1);
            out.push(0x52u8);
            out
        },
        QueryKind::KittyKeyboard => vec![0x1bu8, 0x5bu8, 0x3fu8, 0x30u8, 0x75u8],
        QueryKind::SetBg => {
            let mut out: Vec<u8> = vec![0x1bu8, 0x5du8, 0x31u8, 0x31u8, 0x3bu8];
            push_rgb(&mut out, 0x30u8);
            out.push(0x1bu8);
            out.push(0x5cu8);
            out
        },
        QueryKind::SetFg => {
            let mut out: Vec<u8> = vec![0x1bu8, 0x5du8, 0x31u8, 0x30u8, 0x3bu8];
            push_rgb(&mut out, 0x66u8);
            out.push(0x1bu8);
            out.push(0x5cu8);
            out
        },
    }
}

} // verus!
