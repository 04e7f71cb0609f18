//! Terminal-aware layout: ANSI-safe display width and word/attribute wrapping,
//! so that long cookie and header values read as one block at any width.

use crate::text::{repeated, strip_back, strip_end, texts, to_chars, CharSet};
use vstd::prelude::*;
use vstd::string::*;

verus! {

/// The character that opens an escape sequence. An `m` closes it.
pub const ESC: char = '\x1b';

/// Narrowest layout width.
pub const MIN: usize = 40;

/// Widest layout width.
pub const MAX: usize = 100;

/// Layout width when there is no terminal to ask.
pub const PIPED: usize = 80;

// ---------------------------------------------------------------------------
// Escape sequences
// ---------------------------------------------------------------------------

/// Whether `s` ends inside an escape sequence that has not been closed.
pub open spec fn in_escape(s: Seq<char>) -> bool
    decreases s.len(),
{
    if s.len() == 0 {
        false
    } else if in_escape(s.drop_last()) {
        s.last() != 'm'
    } else {
        s.last() == ESC
    }
}

/// The characters of `s` outside its escape sequences.
pub open spec fn visible(s: Seq<char>) -> Seq<char>
    decreases s.len(),
{
    if s.len() == 0 {
        s
    } else if in_escape(s.drop_last()) || s.last() == ESC {
        visible(s.drop_last())
    } else {
        visible(s.drop_last()).push(s.last())
    }
}

/// The number of columns that `s` takes on the screen.
pub open spec fn columns(s: Seq<char>) -> nat {
    visible(s).len()
}

/// A text is never wider than it is long.
pub proof fn lemma_columns_bound(s: Seq<char>)
    ensures
        columns(s) <= s.len(),
    decreases s.len(),
{
    if s.len() > 0 {
        lemma_columns_bound(s.drop_last());
    }
}

/// One more character.
pub proof fn lemma_push(s: Seq<char>, c: char)
    ensures
        in_escape(s.push(c)) == (if in_escape(s) { c != 'm' } else { c == ESC }),
        visible(s.push(c)) == (if in_escape(s) || c == ESC {
            visible(s)
        } else {
            visible(s).push(c)
        }),
{
    assert(s.push(c).drop_last() =~= s);
}

/// After a text whose escape sequences are closed, another text reads as if it
/// stood alone.
pub proof fn lemma_concat(a: Seq<char>, b: Seq<char>)
    requires
        !in_escape(a),
    ensures
        in_escape(a + b) == in_escape(b),
        visible(a + b) == visible(a) + visible(b),
        columns(a + b) == columns(a) + columns(b),
    decreases b.len(),
{
    if b.len() == 0 {
        assert(a + b =~= a);
        assert(visible(a) + visible(b) =~= visible(a));
    } else {
        lemma_concat(a, b.drop_last());
        assert((a + b).drop_last() =~= a + b.drop_last());
        assert(visible(a + b) =~= visible(a) + visible(b));
    }
}

/// Spaces are all visible.
pub proof fn lemma_spaces(n: nat)
    ensures
        !in_escape(repeated(' ', n)),
        visible(repeated(' ', n)) == repeated(' ', n),
        columns(repeated(' ', n)) == n,
    decreases n,
{
    if n > 0 {
        let m = (n - 1) as nat;
        lemma_spaces(m);
        assert(repeated(' ', n).drop_last() =~= repeated(' ', m));
        assert(visible(repeated(' ', n)) =~= repeated(' ', n));
    }
}

/// Visible column count of a styled string. Escape sequences are zero-width;
/// every other character counts as one.
pub fn display_width(s: &str) -> (r: usize)
    ensures
        r == columns(s@),
{
    let v = to_chars(s);
    let mut n: usize = 0;
    let mut esc: bool = false;
    let mut i: usize = 0;
    assert(v@.take(0) =~= Seq::empty());
    while i < v.len()
        invariant
            i <= v@.len(),
            n <= i,
            esc == in_escape(v@.take(i as int)),
            n == columns(v@.take(i as int)),
        decreases v@.len() - i,
    {
        let c = v[i];
        proof {
            lemma_push(v@.take(i as int), c);
            assert(v@.take(i as int).push(c) =~= v@.take(i + 1));
        }
        if esc {
            esc = c != 'm';
        } else if c == ESC {
            esc = true;
        } else {
            n += 1;
        }
        i += 1;
    }
    assert(v@.take(i as int) =~= v@);
    n
}

/// The layout width for a terminal of `raw` columns.
pub open spec fn clamped(raw: int) -> int {
    if raw < MIN {
        MIN as int
    } else if raw > MAX {
        MAX as int
    } else {
        raw
    }
}

/// The usable output width: the width of the terminal, if there is one that
/// tells it, clamped to [`MIN`, `MAX`]; [`PIPED`] otherwise.
pub fn width(terminal: Option<u16>) -> (r: usize)
    ensures
        r == clamped(
            match terminal {
                Some(w) => w as int,
                None => PIPED as int,
            },
        ),
        MIN <= r <= MAX,
{
    let raw: usize = match terminal {
        Some(w) => w as usize,
        None => PIPED,
    };
    if raw < MIN {
        MIN
    } else if raw > MAX {
        MAX
    } else {
        raw
    }
}

// ---------------------------------------------------------------------------
// Breaking a line into chunks
// ---------------------------------------------------------------------------

/// The characters after which a line may be broken.
pub open spec fn is_break(c: char) -> bool {
    c == ' ' || c == ';' || c == ','
}

/// The parts in order, with nothing between them.
pub open spec fn flat(p: Seq<Seq<char>>) -> Seq<char>
    decreases p.len(),
{
    if p.len() == 0 {
        Seq::empty()
    } else {
        flat(p.drop_last()) + p.last()
    }
}

/// The finished chunks of `s`, and what follows the last of them.
pub open spec fn chunk_scan(s: Seq<char>) -> (Seq<Seq<char>>, Seq<char>)
    decreases s.len(),
{
    if s.len() == 0 {
        (Seq::empty(), Seq::empty())
    } else {
        let (done, buf) = chunk_scan(s.drop_last());
        if !in_escape(s.drop_last()) && is_break(s.last()) {
            (done.push(buf.push(s.last())), Seq::empty())
        } else {
            (done, buf.push(s.last()))
        }
    }
}

/// The chunks of `s`: each ends after a visible space, `;` or `,`, except that
/// the last one may simply end with the text.
pub open spec fn chunks(s: Seq<char>) -> Seq<Seq<char>> {
    let (done, buf) = chunk_scan(s);
    if buf.len() == 0 {
        done
    } else {
        done.push(buf)
    }
}

/// The chunks put together are the text, a finished chunk has no open escape
/// sequence and at least one visible character, and the rest is inside an
/// escape sequence exactly when the text is.
pub proof fn lemma_chunk_scan(s: Seq<char>)
    ensures
        flat(chunk_scan(s).0) + chunk_scan(s).1 == s,
        in_escape(chunk_scan(s).1) == in_escape(s),
        forall|i: int|
            0 <= i < chunk_scan(s).0.len() ==> !in_escape(#[trigger] chunk_scan(s).0[i]) && columns(
                chunk_scan(s).0[i],
            ) >= 1 && chunk_scan(s).0[i].len() > 0 && is_break(chunk_scan(s).0[i].last()),
    decreases s.len(),
{
    if s.len() == 0 {
        assert(flat(chunk_scan(s).0) + chunk_scan(s).1 =~= s);
    } else {
        lemma_chunk_scan(s.drop_last());
        let (done, buf) = chunk_scan(s.drop_last());
        let c = s.last();
        lemma_push(buf, c);
        if !in_escape(s.drop_last()) && is_break(c) {
            assert(done.push(buf.push(c)).drop_last() =~= done);
            assert(flat(done.push(buf.push(c))) == flat(done) + buf.push(c));
        }
        assert(flat(chunk_scan(s).0) + chunk_scan(s).1 =~= (flat(done) + buf).push(c));
        assert(s.drop_last().push(c) =~= s);
    }
}

/// Splitting into chunks loses nothing; every chunk but the last is closed and
/// visible, and the last one is closed if the text is.
pub proof fn lemma_chunks(s: Seq<char>)
    ensures
        flat(chunks(s)) == s,
        forall|i: int|
            0 <= i < chunks(s).len() - 1 ==> !in_escape(#[trigger] chunks(s)[i]) && columns(
                chunks(s)[i],
            ) >= 1 && chunks(s)[i].len() > 0 && is_break(chunks(s)[i].last()),
        chunks(s).len() > 0 ==> in_escape(chunks(s).last()) == in_escape(s),
        chunks(s).len() == 0 <==> s.len() == 0,
{
    lemma_chunk_scan(s);
    let (done, buf) = chunk_scan(s);
    if buf.len() == 0 {
        assert(flat(done) + buf =~= flat(done));
        if done.len() > 0 {
            assert(!in_escape(done[done.len() - 1]));
            lemma_columns_bound(done[done.len() - 1]);
            assert(flat(done).len() >= done.last().len());
        }
    } else {
        assert(done.push(buf).drop_last() =~= done);
    }
}

/// Whether a line may be broken behind the `i`-th character of `s`.
pub open spec fn breaks_at(s: Seq<char>, i: int) -> bool {
    is_break(s[i]) && !in_escape(s.take(i))
}

/// Whether `s` cannot be broken before its end.
pub open spec fn unbreakable(s: Seq<char>) -> bool {
    forall|i: int| 0 <= i < s.len() - 1 ==> !#[trigger] breaks_at(s, i)
}

proof fn lemma_scan_unbreakable(s: Seq<char>)
    ensures
        forall|i: int| 0 <= i < chunk_scan(s).0.len() ==> unbreakable(#[trigger] chunk_scan(s).0[i]),
        forall|i: int|
            0 <= i < chunk_scan(s).1.len() ==> !#[trigger] breaks_at(chunk_scan(s).1, i),
    decreases s.len(),
{
    if s.len() > 0 {
        lemma_scan_unbreakable(s.drop_last());
        lemma_chunk_scan(s.drop_last());
        let buf = chunk_scan(s.drop_last()).1;
        let longer = buf.push(s.last());
        assert forall|i: int| 0 <= i < buf.len() implies !#[trigger] breaks_at(longer, i) by {
            assert(longer.take(i) =~= buf.take(i));
            assert(!breaks_at(buf, i));
        }
        assert(longer.take(buf.len() as int) =~= buf);
    }
}

/// No chunk can be broken before its end.
pub proof fn lemma_chunks_unbreakable(s: Seq<char>)
    ensures
        forall|i: int| 0 <= i < chunks(s).len() ==> unbreakable(#[trigger] chunks(s)[i]),
{
    lemma_scan_unbreakable(s);
}

/// One unbreakable stretch of a line.
pub struct Chunk {
    /// Its text.
    pub text: String,
    /// Its visible width.
    pub w: usize,
}

/// The texts of a sequence of chunks.
pub open spec fn chunk_texts(v: Seq<Chunk>) -> Seq<Seq<char>> {
    Seq::new(v.len(), |i: int| v[i].text@)
}

/// Splits a styled string into chunks that each end at a break opportunity,
/// keeping escape sequences whole.
pub fn chunk(s: &str) -> (r: Vec<Chunk>)
    ensures
        chunk_texts(r@) == chunks(s@),
        forall|i: int| 0 <= i < r@.len() ==> (#[trigger] r@[i]).w == columns(r@[i].text@),
{
    let v = to_chars(s);
    let mut out: Vec<Chunk> = Vec::new();
    let mut buf = String::new();
    let mut w: usize = 0;
    let mut esc: bool = false;
    let mut i: usize = 0;
    assert(v@.take(0) =~= Seq::empty());
    assert(chunk_texts(out@) =~= Seq::empty());
    while i < v.len()
        invariant
            i <= v@.len(),
            w <= i,
            esc == in_escape(v@.take(i as int)),
            esc == in_escape(buf@),
            w == columns(buf@),
            (chunk_texts(out@), buf@) == chunk_scan(v@.take(i as int)),
            forall|j: int| 0 <= j < out@.len() ==> (#[trigger] out@[j]).w == columns(out@[j].text@),
        decreases v@.len() - i,
    {
        let c = v[i];
        proof {
            lemma_push(v@.take(i as int), c);
            lemma_push(buf@, c);
            assert(v@.take(i as int).push(c) =~= v@.take(i + 1));
            assert(v@.take(i + 1).drop_last() =~= v@.take(i as int));
        }
        buf.push(c);
        if esc {
            esc = c != 'm';
        } else if c == ESC {
            esc = true;
        } else {
            w += 1;
            if c == ' ' || c == ';' || c == ',' {
                let ghost before = chunk_texts(out@);
                let ghost text = buf@;
                out.push(Chunk { text: buf, w });
                assert(chunk_texts(out@) =~= before.push(text));
                buf = String::new();
                w = 0;
            }
        }
        i += 1;
    }
    assert(v@.take(i as int) =~= v@);
    if !buf.as_str().is_empty() {
        let ghost before = chunk_texts(out@);
        let ghost text = buf@;
        out.push(Chunk { text: buf, w });
        assert(chunk_texts(out@) =~= before.push(text));
    }
    out
}

// ---------------------------------------------------------------------------
// Cutting an over-wide chunk
// ---------------------------------------------------------------------------

/// The full pieces of `s`, `avail` columns each, and what follows them.
pub open spec fn cut_scan(s: Seq<char>, avail: nat) -> (Seq<Seq<char>>, Seq<char>)
    decreases s.len(),
{
    if s.len() == 0 {
        (Seq::empty(), Seq::empty())
    } else {
        let (done, buf) = cut_scan(s.drop_last(), avail);
        let c = s.last();
        if !in_escape(s.drop_last()) && c != ESC && columns(buf) >= avail {
            (done.push(buf), seq![c])
        } else {
            (done, buf.push(c))
        }
    }
}

/// `s` cut into pieces of at most `avail` columns, never inside an escape
/// sequence; every piece but the last is full.
pub open spec fn cut(s: Seq<char>, avail: nat) -> Seq<Seq<char>> {
    let (done, buf) = cut_scan(s, avail);
    if buf.len() == 0 {
        done
    } else {
        done.push(buf)
    }
}

/// What the scan keeps: nothing is lost, full pieces are closed and exactly
/// `avail` wide, the rest is no wider, and is not empty unless the text is.
pub proof fn lemma_cut_scan(s: Seq<char>, avail: nat)
    requires
        avail >= 1,
    ensures
        flat(cut_scan(s, avail).0) + cut_scan(s, avail).1 == s,
        in_escape(cut_scan(s, avail).1) == in_escape(s),
        columns(cut_scan(s, avail).1) <= avail,
        forall|i: int|
            0 <= i < cut_scan(s, avail).0.len() ==> !in_escape(#[trigger] cut_scan(s, avail).0[i])
                && columns(cut_scan(s, avail).0[i]) == avail,
        columns(s) >= 1 ==> columns(cut_scan(s, avail).1) >= 1,
        cut_scan(s, avail).1.len() == 0 <==> s.len() == 0,
    decreases s.len(),
{
    if s.len() == 0 {
        assert(flat(cut_scan(s, avail).0) + cut_scan(s, avail).1 =~= s);
    } else {
        lemma_cut_scan(s.drop_last(), avail);
        let (done, buf) = cut_scan(s.drop_last(), avail);
        let c = s.last();
        lemma_push(buf, c);
        if !in_escape(s.drop_last()) && c != ESC && columns(buf) >= avail {
            assert(done.push(buf).drop_last() =~= done);
            assert(flat(done.push(buf)) == flat(done) + buf);
            lemma_push(Seq::empty(), c);
            assert(Seq::<char>::empty().push(c) =~= seq![c]);
        }
        assert(flat(cut_scan(s, avail).0) + cut_scan(s, avail).1 =~= (flat(done) + buf).push(c));
        assert(s.drop_last().push(c) =~= s);
    }
}

/// Cutting loses nothing, no piece is too wide, no escape sequence is cut, and
/// a text with a visible character ends with a visible piece.
pub proof fn lemma_cut(s: Seq<char>, avail: nat)
    requires
        avail >= 1,
    ensures
        flat(cut(s, avail)) == s,
        forall|i: int|
            0 <= i < cut(s, avail).len() ==> columns(#[trigger] cut(s, avail)[i]) <= avail,
        forall|i: int|
            0 <= i < cut(s, avail).len() - 1 ==> !in_escape(#[trigger] cut(s, avail)[i]),
        s.len() > 0 ==> cut(s, avail).len() > 0 && in_escape(cut(s, avail).last()) == in_escape(s),
        columns(s) >= 1 ==> cut(s, avail).len() > 0 && columns(cut(s, avail).last()) >= 1,
{
    lemma_cut_scan(s, avail);
    let (done, buf) = cut_scan(s, avail);
    lemma_columns_bound(s);
    if buf.len() == 0 {
        assert(flat(done) + buf =~= flat(done));
    } else {
        assert(done.push(buf).drop_last() =~= done);
    }
}

proof fn lemma_cut_scan_ends(s: Seq<char>, avail: nat)
    requires
        avail >= 1,
        unbreakable(s),
    ensures
        forall|i: int|
            0 <= i < cut_scan(s, avail).0.len() ==> (#[trigger] cut_scan(s, avail).0[i]).len() > 0
                && cut_scan(s, avail).0[i].last() != ' ',
    decreases s.len(),
{
    if s.len() > 0 {
        let t = s.drop_last();
        assert forall|i: int| 0 <= i < t.len() - 1 implies !#[trigger] breaks_at(t, i) by {
            assert(t.take(i) =~= s.take(i));
            assert(!breaks_at(s, i));
        }
        lemma_cut_scan_ends(t, avail);
        lemma_cut_scan(t, avail);
        let (done, buf) = cut_scan(t, avail);
        if !in_escape(t) && s.last() != ESC && columns(buf) >= avail {
            lemma_columns_bound(buf);
            assert(t.last() == (flat(done) + buf).last());
            assert(buf.last() == t.last());
            let n = t.len() - 1;
            assert(!breaks_at(s, n));
            assert(s.take(n) =~= t.drop_last());
        }
    }
}

/// Cutting an unbreakable run leaves no space at the end of a piece, but for
/// the last; and no piece is empty.
pub proof fn lemma_cut_ends(s: Seq<char>, avail: nat)
    requires
        avail >= 1,
        unbreakable(s),
    ensures
        forall|i: int|
            0 <= i < cut(s, avail).len() ==> (#[trigger] cut(s, avail)[i]).len() > 0,
        forall|i: int|
            0 <= i < cut(s, avail).len() - 1 ==> (#[trigger] cut(s, avail)[i]).last() != ' ',
{
    lemma_cut_scan_ends(s, avail);
    lemma_cut_scan(s, avail);
}

/// Breaks a styled run into pieces of at most `avail` visible columns (one at
/// least), never inside an escape sequence.
pub fn hard_split(s: &str, avail: usize) -> (r: Vec<String>)
    ensures
        texts(r@) == cut(s@, if avail == 0 { 1 } else { avail as nat }),
{
    let v = to_chars(s);
    let room: usize = if avail == 0 {
        1
    } else {
        avail
    };
    let mut out: Vec<String> = Vec::new();
    let mut buf = String::new();
    let mut w: usize = 0;
    let mut esc: bool = false;
    let mut i: usize = 0;
    assert(v@.take(0) =~= Seq::empty());
    assert(texts(out@) =~= Seq::empty());
    while i < v.len()
        invariant
            i <= v@.len(),
            w <= i,
            room >= 1,
            esc == in_escape(v@.take(i as int)),
            esc == in_escape(buf@),
            w == columns(buf@),
            (texts(out@), buf@) == cut_scan(v@.take(i as int), room as nat),
        decreases v@.len() - i,
    {
        let c = v[i];
        proof {
            lemma_push(v@.take(i as int), c);
            lemma_push(buf@, c);
            lemma_push(Seq::empty(), c);
            assert(Seq::<char>::empty().push(c) =~= seq![c]);
            assert(v@.take(i as int).push(c) =~= v@.take(i + 1));
            assert(v@.take(i + 1).drop_last() =~= v@.take(i as int));
        }
        if esc {
            esc = c != 'm';
        } else if c == ESC {
            esc = true;
        } else {
            if w >= room {
                let ghost before = texts(out@);
                let ghost text = buf@;
                out.push(buf);
                assert(texts(out@) =~= before.push(text));
                buf = String::new();
                w = 0;
            }
            w += 1;
        }
        buf.push(c);
        i += 1;
    }
    assert(v@.take(i as int) =~= v@);
    if !buf.as_str().is_empty() {
        let ghost before = texts(out@);
        let ghost text = buf@;
        out.push(buf);
        assert(texts(out@) =~= before.push(text));
    }
    out
}

/// Drops the trailing spaces left by a break after a space.
pub fn trim_end(s: &str) -> (r: String)
    ensures
        r@ == strip_end(s@, CharSet::One(' ')),
{
    strip_back(s, CharSet::One(' '))
}

/// The layout takes the width of the terminal between forty and a hundred
/// columns.
pub proof fn law_widths(raw: int)
    ensures
        40 <= clamped(raw) <= 100,
        40 <= raw <= 100 ==> clamped(raw) == raw,
        raw < 40 ==> clamped(raw) == 40,
        raw > 100 ==> clamped(raw) == 100,
        PIPED == 80,
{
}

/// Text without an escape character is all visible; a sequence from an escape
/// character to the first `m` behind it is not, and what follows it is again.
pub proof fn law_escapes_are_invisible(a: Seq<char>, code: Seq<char>, b: Seq<char>)
    requires
        !in_escape(a),
        !code.contains('m'),
    ensures
        visible(a + seq![ESC] + code + seq!['m'] + b) == visible(a) + visible(b),
        !a.contains(ESC) ==> visible(a) == a,
        ESC == '\x1b',
    decreases code.len(),
{
    let e = a + seq![ESC];
    lemma_push(a, ESC);
    assert(a.push(ESC) =~= e);
    lemma_inside(e, code);
    let c = e + code;
    lemma_push(c, 'm');
    assert(c.push('m') =~= c + seq!['m']);
    lemma_concat(c + seq!['m'], b);
    if !a.contains(ESC) {
        lemma_plain(a);
    }
}

proof fn lemma_inside(e: Seq<char>, code: Seq<char>)
    requires
        in_escape(e),
        !code.contains('m'),
    ensures
        in_escape(e + code),
        visible(e + code) == visible(e),
    decreases code.len(),
{
    if code.len() == 0 {
        assert(e + code =~= e);
    } else {
        let t = code.drop_last();
        assert forall|i: int| 0 <= i < t.len() implies t[i] != 'm' by {
            assert(code.contains(code[i]));
        }
        lemma_inside(e, t);
        lemma_push(e + t, code.last());
        assert(code.contains(code[code.len() - 1]));
        assert((e + t).push(code.last()) =~= e + code);
    }
}

proof fn lemma_plain(a: Seq<char>)
    requires
        !a.contains(ESC),
    ensures
        visible(a) == a,
        !in_escape(a),
    decreases a.len(),
{
    if a.len() > 0 {
        let t = a.drop_last();
        assert forall|i: int| 0 <= i < t.len() implies t[i] != ESC by {
            assert(a.contains(a[i]));
        }
        lemma_plain(t);
        assert(a.contains(a[a.len() - 1]));
        assert(t.push(a.last()) =~= a);
    }
}

} // verus!
