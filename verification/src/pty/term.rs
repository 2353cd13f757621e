//! The screen model of the child's terminal: `vt100`'s parser, fed with the
//! child's output, and what the reader does with each read.
//!
//! The parser is never resized, so what it shows is a function of its size
//! and of the bytes fed to it so far ([`term_fed`]).

use vstd::prelude::*;

use crate::pty::reader::{chunk_step, reply_bytes, reply_spec, split_chunk, QueryKind};
use crate::pty::ScreenSnapshot;

verus! {

/// The visible rows (`Screen::rows(0, cols)`) of a parser made with
/// `Parser::new(rows, cols, 0)` and fed `fed`.
pub uninterp spec fn term_rows(fed: Seq<u8>, rows: u16, cols: u16) -> Seq<Seq<char>>;

/// The cursor position (`Screen::cursor_position`, row then column) of a
/// parser made with `Parser::new(rows, cols, 0)` and fed `fed`.
pub uninterp spec fn term_cursor(fed: Seq<u8>, rows: u16, cols: u16) -> (u16, u16);

/// Whether the alternate screen is in use (`Screen::alternate_screen`) in a
/// parser made with `Parser::new(rows, cols, 0)` and fed `fed`.
pub uninterp spec fn term_alternate(fed: Seq<u8>, rows: u16, cols: u16) -> bool;

/// The child's terminal: a `vt100::Parser` of a fixed size. Verus cannot
/// declare `vt100::Parser` (its type parameter is bound by the outside trait
/// `Callbacks`), so the parser is a private field of this opaque struct,
/// reached only through the trusted functions below.
#[verifier::external_body]
pub struct Term {
    parser: vt100::Parser,
    rows: u16,
    cols: u16,
}

/// Every byte fed to the terminal's parser since it was made, in order.
pub uninterp spec fn term_fed(t: Term) -> Seq<u8>;

/// The number of rows the terminal's parser was made with.
pub uninterp spec fn term_height(t: Term) -> u16;

/// The number of columns the terminal's parser was made with.
pub uninterp spec fn term_width(t: Term) -> u16;

/// `vt100::Parser::new(rows, cols, 0)`: an empty screen of that size, with
/// no scrollback, fed nothing yet. A zero size would underflow in the
/// parser's grid, so it is left out.
#[verifier::external_body]
fn parser_new(rows: u16, cols: u16) -> (t: Term)
    requires
        rows >= 1,
        cols >= 1,
    ensures
        term_fed(t) == Seq::<u8>::empty(),
        term_height(t) == rows,
        term_width(t) == cols,
{
    Term { parser: vt100::Parser::new(rows, cols, 0), rows, cols }
}

/// A terminal of `rows` × `cols` that has been fed nothing yet.
pub fn term_new(rows: u16, cols: u16) -> (t: Term)
    requires
        rows >= 1,
        cols >= 1,
    ensures
        term_fed(t) == Seq::<u8>::empty(),
        term_height(t) == rows,
        term_width(t) == cols,
{
    parser_new(rows, cols)
}

/// `vt100::Parser::process`: feeds `bytes` to the parser. The parser keeps
/// its partial-sequence state between calls, so feeding `a` and then `b`
/// leaves it as feeding `a + b` would: the bytes fed grow by `bytes`.
#[verifier::external_body]
fn term_process(t: &mut Term, bytes: &[u8])
    ensures
        term_fed(*final(t)) == term_fed(*old(t)) + bytes@,
        term_height(*final(t)) == term_height(*old(t)),
        term_width(*final(t)) == term_width(*old(t)),
{
    t.parser.process(bytes);
}

/// `Screen::rows(0, cols)`: the text of each visible row, named by
/// [`term_rows`].
#[verifier::external_body]
fn term_rows_of(t: &Term) -> (r: Vec<String>)
    ensures
        r@.map_values(|s: String| s@) == term_rows(term_fed(*t), term_height(*t), term_width(*t)),
{
    t.parser.screen().rows(0, t.cols).collect()
}

/// `Screen::cursor_position`, named by [`term_cursor`].
#[verifier::external_body]
fn term_cursor_of(t: &Term) -> (c: (u16, u16))
    ensures
        c == term_cursor(term_fed(*t), term_height(*t), term_width(*t)),
{
    t.parser.screen().cursor_position()
}

/// `Screen::alternate_screen`, named by [`term_alternate`].
#[verifier::external_body]
fn term_alternate_of(t: &Term) -> (b: bool)
    ensures
        b == term_alternate(term_fed(*t), term_height(*t), term_width(*t)),
{
    t.parser.screen().alternate_screen()
}

/// A snapshot of the screen: its rows, cursor and alternate-screen flag as
/// the bytes fed so far leave them, and the caller's generation counter.
pub fn term_snapshot(t: &Term, generation: u64) -> (s: ScreenSnapshot)
    ensures
        s.rows_view() == term_rows(term_fed(*t), term_height(*t), term_width(*t)),
        s.cursor == term_cursor(term_fed(*t), term_height(*t), term_width(*t)),
        s.alternate_screen == term_alternate(term_fed(*t), term_height(*t), term_width(*t)),
        s.generation == generation,
{
    let rows = term_rows_of(t);
    let cursor = term_cursor_of(t);
    let alternate_screen = term_alternate_of(t);
    ScreenSnapshot { rows, cursor, alternate_screen, generation }
}

/// The replies to `queries`, in order, for a cursor at `cursor`.
pub open spec fn replies_spec(queries: Seq<QueryKind>, cursor: (u16, u16)) -> Seq<u8>
    decreases queries.len(),
{
    if queries.len() == 0 {
        Seq::empty()
    } else {
        replies_spec(queries.drop_last(), cursor) + reply_spec(queries.last(), cursor)
    }
}

/// One read of the child's output: the held-back bytes `pending` and the
/// new `chunk` are split into bytes for the screen and a new held-back
/// tail; the screen bytes are fed to the parser; the terminal queries found
/// are answered for the cursor as the fed bytes leave it. Returns the reply
/// bytes to write back to the child and the bytes to hold back.
pub fn reader_step(t: &mut Term, pending: Vec<u8>, chunk: &[u8]) -> (r: (Vec<u8>, Vec<u8>))
    ensures
        term_fed(*final(t)) == term_fed(*old(t)) + chunk_step(pending@, chunk@).0,
        term_height(*final(t)) == term_height(*old(t)),
        term_width(*final(t)) == term_width(*old(t)),
        r.0@ == replies_spec(
            chunk_step(pending@, chunk@).1,
            term_cursor(term_fed(*final(t)), term_height(*final(t)), term_width(*final(t))),
        ),
        r.1@ == chunk_step(pending@, chunk@).2,
{
    let (to_parse, queries, rest) = split_chunk(pending, chunk);
    if to_parse.len() > 0 {
        term_process(t, &to_parse);
    } else {
        assert(term_fed(*old(t)) + to_parse@ == term_fed(*old(t)));
    }
    let mut replies: Vec<u8> = Vec::new();
    if queries.len() > 0 {
        let cursor = term_cursor_of(t);
        let mut i: usize = 0;
        while i < queries.len()
            invariant
                i <= queries@.len(),
                replies@ == replies_spec(queries@.take(i as int), cursor),
            decreases queries@.len() - i,
        {
            let more = reply_bytes(queries[i], cursor);
            assert(queries@.take(i + 1).drop_last() == queries@.take(i as int));
            replies.extend_from_slice(more.as_slice());
            i = i + 1;
        }
        assert(queries@.take(queries@.len() as int) == queries@);
    }
    (replies, rest)
}

} // verus!
