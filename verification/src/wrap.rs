//! Wrapping a styled line to a number of visible columns.

use crate::term::{
    chunk, chunk_texts, chunks, columns, cut, display_width, flat, hard_split, in_escape, is_break,
    lemma_chunks, lemma_chunks_unbreakable, lemma_columns_bound, lemma_concat, lemma_cut,
    lemma_cut_ends, lemma_spaces, trim_end, unbreakable, visible,
};
use crate::text::{begins, cat2, from_chars, repeat, repeated, strip_end, texts, to_chars, CharSet};
use vstd::prelude::*;
use vstd::string::*;

verus! {

/// The number of spaces that `s` begins with.
pub open spec fn leading(s: Seq<char>) -> nat
    decreases s.len(),
{
    if s.len() > 0 && s[0] == ' ' {
        1 + leading(s.skip(1))
    } else {
        0
    }
}

/// What `leading` counts.
pub proof fn lemma_leading(s: Seq<char>)
    ensures
        leading(s) <= s.len(),
        s.take(leading(s) as int) == repeated(' ', leading(s)),
        leading(s) < s.len() ==> s[leading(s) as int] != ' ',
    decreases s.len(),
{
    if s.len() > 0 && s[0] == ' ' {
        lemma_leading(s.skip(1));
        let n = leading(s.skip(1));
        assert forall|i: int| 0 <= i < n + 1 implies s[i] == ' ' by {
            if i > 0 {
                assert(s.skip(1).take(n as int)[i - 1] == ' ');
            }
        }
        if n < s.skip(1).len() {
            assert(s.skip(1)[n as int] == s[(n + 1) as int]);
        }
    }
    assert(s.take(leading(s) as int) =~= repeated(' ', leading(s)));
}

/// The line after its leading spaces.
pub open spec fn body(s: Seq<char>) -> Seq<char> {
    s.skip(leading(s) as int)
}

/// How far continuation lines are indented: four columns deeper than the line,
/// unless that leaves too little room.
pub open spec fn hang(lead: nat, width: nat) -> nat {
    if lead + 4 + 8 < width {
        lead + 4
    } else {
        lead
    }
}

/// `n` spaces.
pub open spec fn spaces(n: nat) -> Seq<char> {
    repeated(' ', n)
}

/// A finished line: without the spaces at its end.
pub open spec fn finished(s: Seq<char>) -> Seq<char> {
    strip_end(s, CharSet::One(' '))
}

/// The finished lines, the line being filled, and the indent of that line.
pub struct Fill {
    pub lines: Seq<Seq<char>>,
    pub cur: Seq<char>,
    pub ind: nat,
}

/// The columns that a hard split may use beside the continuation indent.
pub open spec fn room(width: nat, cont: nat) -> nat {
    if width > cont {
        (width - cont) as nat
    } else {
        1
    }
}

/// Starts a continuation line if `ch` does not fit behind what is already on
/// the line.
pub open spec fn make_room(f: Fill, ch: Seq<char>, width: nat, cont: nat) -> Fill {
    if columns(f.cur) + columns(ch) > width && columns(f.cur) > f.ind {
        Fill { lines: f.lines.push(finished(f.cur)), cur: spaces(cont), ind: cont }
    } else {
        f
    }
}

/// The pieces of an over-wide chunk, each behind its indent: the first at the
/// indent of the line it opens, the others at the continuation indent.
pub open spec fn indented(p: Seq<Seq<char>>, first: nat, cont: nat) -> Seq<Seq<char>> {
    Seq::new(
        p.len(),
        |i: int|
            spaces(
                if i == 0 {
                    first
                } else {
                    cont
                },
            ) + p[i],
    )
}

/// Adds one chunk: behind the current line if it fits on a line at all, and cut
/// into pieces otherwise.
pub open spec fn add_chunk(f: Fill, ch: Seq<char>, width: nat, cont: nat) -> Fill {
    let g = make_room(f, ch, width, cont);
    if g.ind + columns(ch) > width && columns(ch) > 0 {
        let p = indented(cut(ch, room(width, cont)), g.ind, cont);
        Fill {
            lines: g.lines + p.drop_last(),
            cur: p.last(),
            ind: if p.len() == 1 {
                g.ind
            } else {
                cont
            },
        }
    } else {
        Fill { lines: g.lines, cur: g.cur + ch, ind: g.ind }
    }
}

/// The state after all of `chs`, on a line with `lead` leading spaces.
pub open spec fn fill(chs: Seq<Seq<char>>, lead: nat, width: nat) -> Fill
    decreases chs.len(),
{
    if chs.len() == 0 {
        Fill { lines: Seq::empty(), cur: spaces(lead), ind: lead }
    } else {
        add_chunk(fill(chs.drop_last(), lead, width), chs.last(), width, hang(lead, width))
    }
}

/// The lines of a filled state: the last line counts if anything visible was
/// put behind its indent.
pub open spec fn all_lines(f: Fill) -> Seq<Seq<char>> {
    if columns(f.cur) > f.ind {
        f.lines.push(finished(f.cur))
    } else {
        f.lines
    }
}

/// `line` wrapped to `width` columns.
pub open spec fn wrapped(line: Seq<char>, width: nat) -> Seq<Seq<char>> {
    if columns(line) <= width {
        seq![line]
    } else {
        all_lines(fill(chunks(body(line)), leading(line), width))
    }
}

// ---------------------------------------------------------------------------
// What one step keeps
// ---------------------------------------------------------------------------

/// The shape of a state that is being filled.
pub open spec fn shaped(f: Fill, lead: nat, cont: nat) -> bool {
    &&& f.ind == lead || f.ind == cont
    &&& f.ind <= columns(f.cur)
}

proof fn lemma_indented(ch: Seq<char>, avail: nat, first: nat, cont: nat)
    requires
        avail >= 1,
        columns(ch) >= 1,
    ensures
        indented(cut(ch, avail), first, cont).len() >= 1,
        forall|i: int|
            0 <= i < cut(ch, avail).len() ==> columns(
                #[trigger] indented(cut(ch, avail), first, cont)[i],
            ) == (if i == 0 {
                first
            } else {
                cont
            }) + columns(cut(ch, avail)[i]),
        forall|i: int|
            0 <= i < cut(ch, avail).len() ==> in_escape(
                #[trigger] indented(cut(ch, avail), first, cont)[i],
            ) == in_escape(cut(ch, avail)[i]),
        forall|i: int|
            0 <= i < cut(ch, avail).len() - 1 ==> !in_escape(
                #[trigger] indented(cut(ch, avail), first, cont)[i],
            ),
        in_escape(indented(cut(ch, avail), first, cont).last()) == in_escape(ch),
        columns(cut(ch, avail).last()) >= 1,
        forall|i: int|
            0 <= i < cut(ch, avail).len() ==> columns(#[trigger] cut(ch, avail)[i]) <= avail,
{
    lemma_cut(ch, avail);
    lemma_columns_bound(ch);
    let q = cut(ch, avail);
    let p = indented(q, first, cont);
    assert forall|i: int| 0 <= i < q.len() implies columns(#[trigger] p[i]) == (if i == 0 {
        first
    } else {
        cont
    }) + columns(q[i]) && in_escape(p[i]) == in_escape(q[i]) by {
        let n = if i == 0 {
            first
        } else {
            cont
        };
        lemma_spaces(n);
        lemma_concat(spaces(n), q[i]);
    }
}

/// One chunk more: the shape is kept, the line is closed if the chunk is, and
/// a visible chunk leaves something visible behind the indent.
proof fn lemma_add_chunk(f: Fill, ch: Seq<char>, width: nat, lead: nat, cont: nat)
    requires
        shaped(f, lead, cont),
        !in_escape(f.cur),
        cont == hang(lead, width),
    ensures
        shaped(add_chunk(f, ch, width, cont), lead, cont),
        in_escape(add_chunk(f, ch, width, cont).cur) == in_escape(ch),
        columns(ch) > 0 ==> columns(add_chunk(f, ch, width, cont).cur) > add_chunk(
            f,
            ch,
            width,
            cont,
        ).ind,
{
    let g = make_room(f, ch, width, cont);
    lemma_spaces(cont);
    if g.ind + columns(ch) > width && columns(ch) > 0 {
        lemma_indented(ch, room(width, cont), g.ind, cont);
        let q = cut(ch, room(width, cont));
        let p = indented(q, g.ind, cont);
        assert(p.last() == p[p.len() - 1]);
    } else {
        lemma_concat(g.cur, ch);
    }
}

/// The state after a row of closed chunks is shaped and closed.
proof fn lemma_fill(chs: Seq<Seq<char>>, lead: nat, width: nat)
    requires
        forall|i: int| 0 <= i < chs.len() ==> !in_escape(#[trigger] chs[i]),
    ensures
        shaped(fill(chs, lead, width), lead, hang(lead, width)),
        !in_escape(fill(chs, lead, width).cur),
    decreases chs.len(),
{
    lemma_spaces(lead);
    if chs.len() > 0 {
        let prev = chs.drop_last();
        assert forall|i: int| 0 <= i < prev.len() implies !in_escape(#[trigger] prev[i]) by {
            assert(!in_escape(chs[i]));
        }
        lemma_fill(prev, lead, width);
        assert(!in_escape(chs[chs.len() - 1]));
        lemma_add_chunk(fill(prev, lead, width), chs.last(), width, lead, hang(lead, width));
    }
}

// ---------------------------------------------------------------------------
// The code
// ---------------------------------------------------------------------------

fn count_leading(v: &Vec<char>) -> (r: usize)
    ensures
        r == leading(v@),
        r <= v@.len(),
{
    let mut i: usize = 0;
    assert(v@.skip(0) =~= v@);
    while i < v.len() && v[i] == ' '
        invariant
            i <= v@.len(),
            leading(v@) == i + leading(v@.skip(i as int)),
        decreases v@.len() - i,
    {
        assert(v@.skip(i as int).skip(1) =~= v@.skip(i + 1));
        i += 1;
    }
    i
}

/// Pushes every piece but the last, each behind its indent, and returns the last.
fn push_pieces(lines: &mut Vec<String>, pieces: &Vec<String>, first: usize, cont: usize) -> (r:
    String)
    requires
        pieces@.len() >= 1,
    ensures
        texts(final(lines)@) == texts(old(lines)@) + indented(
            texts(pieces@),
            first as nat,
            cont as nat,
        ).drop_last(),
        r@ == indented(texts(pieces@), first as nat, cont as nat).last(),
{
    let ghost p = indented(texts(pieces@), first as nat, cont as nat);
    let last: usize = pieces.len() - 1;
    let mut i: usize = 0;
    assert(texts(lines@) =~= texts(old(lines)@) + p.take(0));
    while i < last
        invariant
            i <= last == pieces@.len() - 1,
            p == indented(texts(pieces@), first as nat, cont as nat),
            texts(lines@) == texts(old(lines)@) + p.take(i as int),
        decreases last - i,
    {
        let ind: usize = if i == 0 {
            first
        } else {
            cont
        };
        let pad = repeat(' ', ind);
        let l = cat2(pad.as_str(), pieces[i].as_str());
        assert(l@ =~= p[i as int]);
        let ghost before = texts(lines@);
        lines.push(l);
        assert(texts(lines@) =~= before.push(p[i as int]));
        assert(p.take(i + 1) =~= p.take(i as int).push(p[i as int]));
        i += 1;
        assert(texts(lines@) =~= texts(old(lines)@) + p.take(i as int));
    }
    assert(p.take(last as int) =~= p.drop_last());
    let ind: usize = if last == 0 {
        first
    } else {
        cont
    };
    let pad = repeat(' ', ind);
    cat2(pad.as_str(), pieces[last].as_str())
}

/// Wraps one already-styled line to `width` visible columns.
///
/// Keeps the line's leading indent, hangs continuations under it, and breaks at
/// spaces and after `;` and `,`. A run with no break in it is cut at the width.
/// Escape sequences are never split, and a line that fits is returned as it is.
pub fn wrap(line: &str, width: usize) -> (r: Vec<String>)
    ensures
        texts(r@) == wrapped(line@, width as nat),
{
    if display_width(line) <= width {
        let mut r: Vec<String> = Vec::new();
        r.push(line.to_owned());
        assert(texts(r@) =~= seq![line@]);
        return r;
    }
    let v = to_chars(line);
    let lead = count_leading(&v);
    let cont: usize = if width > 12 && lead < width - 12 {
        lead + 4
    } else {
        lead
    };
    let n: usize = v.len();
    let rest = from_chars(&v, lead, n);
    assert(rest@ =~= body(line@));
    let chs = chunk(rest.as_str());
    let ghost cs = chunks(body(line@));
    proof {
        lemma_chunks(body(line@));
        lemma_spaces(lead as nat);
        assert(cont == hang(lead as nat, width as nat));
        assert(cs.take(0) =~= Seq::empty());
    }
    let mut lines: Vec<String> = Vec::new();
    let mut cur = repeat(' ', lead);
    let mut cur_w: usize = lead;
    let mut ind_w: usize = lead;
    let mut i: usize = 0;
    assert(texts(lines@) =~= Seq::empty());
    while i < chs.len()
        invariant
            i <= chs@.len() == cs.len(),
            cont == hang(lead as nat, width as nat),
            chunk_texts(chs@) == cs,
            forall|j: int| 0 <= j < chs@.len() ==> (#[trigger] chs@[j]).w == columns(chs@[j].text@),
            forall|j: int| 0 <= j < cs.len() - 1 ==> !in_escape(#[trigger] cs[j]),
            texts(lines@) == fill(cs.take(i as int), lead as nat, width as nat).lines,
            cur@ == fill(cs.take(i as int), lead as nat, width as nat).cur,
            ind_w == fill(cs.take(i as int), lead as nat, width as nat).ind,
            cur_w == columns(cur@),
        decreases chs@.len() - i,
    {
        let ghost f = fill(cs.take(i as int), lead as nat, width as nat);
        let ghost ch = cs[i as int];
        proof {
            let prev = cs.take(i as int);
            assert forall|j: int| 0 <= j < prev.len() implies !in_escape(#[trigger] prev[j]) by {
                assert(!in_escape(cs[j]));
            }
            lemma_fill(prev, lead as nat, width as nat);
            lemma_add_chunk(f, ch, width as nat, lead as nat, cont as nat);
            assert(cs.take(i + 1).drop_last() =~= prev);
            assert(chs@[i as int].text@ == ch);
            assert(chs@[i as int].w == columns(ch));
        }
        let w: usize = chs[i].w;
        if (cur_w > width || w > width - cur_w) && cur_w > ind_w {
            let ghost before = texts(lines@);
            lines.push(trim_end(cur.as_str()));
            assert(texts(lines@) =~= before.push(finished(f.cur)));
            cur = repeat(' ', cont);
            cur_w = cont;
            ind_w = cont;
            proof {
                lemma_spaces(cont as nat);
            }
        }
        let ghost g = make_room(f, ch, width as nat, cont as nat);
        assert(texts(lines@) == g.lines && cur@ == g.cur && ind_w == g.ind);
        let over: bool = if width >= ind_w {
            w > width - ind_w
        } else {
            w > 0
        };
        if over {
            let avail: usize = if width >= cont {
                width - cont
            } else {
                0
            };
            let pieces = hard_split(chs[i].text.as_str(), avail);
            proof {
                assert(texts(pieces@) == cut(ch, room(width as nat, cont as nat)));
                lemma_indented(ch, room(width as nat, cont as nat), g.ind, cont as nat);
            }
            let before: usize = ind_w;
            cur = push_pieces(&mut lines, &pieces, before, cont);
            if pieces.len() > 1 {
                ind_w = cont;
            }
            cur_w = display_width(cur.as_str());
        } else {
            proof {
                lemma_concat(g.cur, ch);
            }
            cur.append(chs[i].text.as_str());
            cur_w = cur_w + w;
        }
        i += 1;
    }
    assert(cs.take(i as int) =~= cs);
    if cur_w > ind_w {
        let ghost before = texts(lines@);
        lines.push(trim_end(cur.as_str()));
        assert(texts(lines@) =~= before.push(finished(cur@)));
    }
    lines
}

// ---------------------------------------------------------------------------
// Laws
// ---------------------------------------------------------------------------

/// `s` without its spaces.
pub open spec fn bare(s: Seq<char>) -> Seq<char>
    decreases s.len(),
{
    if s.len() == 0 {
        s
    } else if s.last() == ' ' {
        bare(s.drop_last())
    } else {
        bare(s.drop_last()).push(s.last())
    }
}

/// The visible characters of some lines, in order and without spaces.
pub open spec fn ink(lines: Seq<Seq<char>>) -> Seq<char>
    decreases lines.len(),
{
    if lines.len() == 0 {
        Seq::empty()
    } else {
        ink(lines.drop_last()) + bare(visible(lines.last()))
    }
}

proof fn lemma_bare_concat(a: Seq<char>, b: Seq<char>)
    ensures
        bare(a + b) == bare(a) + bare(b),
    decreases b.len(),
{
    if b.len() == 0 {
        assert(a + b =~= a);
        assert(bare(a) + bare(b) =~= bare(a));
    } else {
        lemma_bare_concat(a, b.drop_last());
        assert((a + b).drop_last() =~= a + b.drop_last());
        assert(bare(a + b) =~= bare(a) + bare(b));
    }
}

proof fn lemma_bare_spaces(n: nat)
    ensures
        bare(spaces(n)) == Seq::<char>::empty(),
    decreases n,
{
    if n > 0 {
        lemma_bare_spaces((n - 1) as nat);
        assert(spaces(n).drop_last() =~= spaces((n - 1) as nat));
    } else {
        assert(bare(spaces(n)) =~= Seq::<char>::empty());
    }
}

/// Finishing a line widens nothing, opens nothing, and drops only spaces.
proof fn lemma_finished(s: Seq<char>)
    ensures
        columns(finished(s)) <= columns(s),
        !in_escape(s) ==> !in_escape(finished(s)),
        bare(finished(s)) == bare(s),
        bare(visible(finished(s))) == bare(visible(s)),
    decreases s.len(),
{
    if s.len() > 0 && s.last() == ' ' {
        lemma_finished(s.drop_last());
        if !(in_escape(s.drop_last())) {
            assert(visible(s).drop_last() =~= visible(s.drop_last()));
        }
    }
}

proof fn lemma_flat_push(p: Seq<Seq<char>>, x: Seq<char>)
    ensures
        flat(p.push(x)) == flat(p) + x,
        ink(p.push(x)) == ink(p) + bare(visible(x)),
{
    assert(p.push(x).drop_last() =~= p);
}

proof fn lemma_flat_concat(a: Seq<Seq<char>>, b: Seq<Seq<char>>)
    ensures
        flat(a + b) == flat(a) + flat(b),
        ink(a + b) == ink(a) + ink(b),
    decreases b.len(),
{
    if b.len() == 0 {
        assert(a + b =~= a);
        assert(flat(a) + flat(b) =~= flat(a));
        assert(ink(a) + ink(b) =~= ink(a));
    } else {
        lemma_flat_concat(a, b.drop_last());
        assert((a + b).drop_last() =~= a + b.drop_last());
        assert(flat(a + b) =~= flat(a) + flat(b));
        assert(ink(a + b) =~= ink(a) + ink(b));
    }
}

/// Indenting the pieces adds only spaces.
proof fn lemma_indented_ink(q: Seq<Seq<char>>, first: nat, cont: nat)
    ensures
        bare(flat(indented(q, first, cont))) == bare(flat(q)),
        ink(indented(q, first, cont)) == ink(q),
    decreases q.len(),
{
    let p = indented(q, first, cont);
    if q.len() == 0 {
        assert(p =~= q);
    } else {
        lemma_indented_ink(q.drop_last(), first, cont);
        assert(p.drop_last() =~= indented(q.drop_last(), first, cont));
        let n = if q.len() == 1 {
            first
        } else {
            cont
        };
        lemma_spaces(n);
        lemma_bare_spaces(n);
        lemma_concat(spaces(n), q.last());
        lemma_bare_concat(spaces(n), q.last());
        lemma_bare_concat(visible(spaces(n)), visible(q.last()));
        lemma_bare_concat(flat(p.drop_last()), p.last());
        lemma_bare_concat(flat(q.drop_last()), q.last());
        assert(bare(p.last()) =~= bare(q.last()));
        assert(bare(visible(p.last())) =~= bare(visible(q.last())));
    }
}

/// If every part but the last is closed, the parts together show what each of
/// them shows.
proof fn lemma_ink_flat(q: Seq<Seq<char>>)
    requires
        forall|i: int| 0 <= i < q.len() - 1 ==> !in_escape(#[trigger] q[i]),
    ensures
        ink(q) == bare(visible(flat(q))),
        q.len() > 0 ==> in_escape(flat(q)) == in_escape(q.last()),
    decreases q.len(),
{
    if q.len() == 0 {
        assert(ink(q) =~= bare(visible(flat(q))));
    } else {
        let prev = q.drop_last();
        assert forall|i: int| 0 <= i < prev.len() - 1 implies !in_escape(#[trigger] prev[i]) by {
            assert(!in_escape(q[i]));
        }
        lemma_ink_flat(prev);
        if prev.len() > 0 {
            assert(!in_escape(q[q.len() - 2]));
            assert(prev.last() == q[q.len() - 2]);
        }
        lemma_concat(flat(prev), q.last());
        lemma_bare_concat(visible(flat(prev)), visible(q.last()));
    }
}

/// All that the laws need of a state: what was put in is there, and the line
/// begins with its indent.
spec fn keeps(f: Fill, chs: Seq<Seq<char>>) -> bool {
    &&& bare(flat(f.lines)) + bare(f.cur) == bare(flat(chs))
    &&& ink(f.lines) + bare(visible(f.cur)) == ink(chs)
    &&& f.ind <= f.cur.len()
    &&& f.cur.take(f.ind as int) == spaces(f.ind)
}

/// Whether every chunk but the last is closed and shows something.
spec fn sound(chs: Seq<Seq<char>>) -> bool {
    forall|i: int|
        0 <= i < chs.len() - 1 ==> !in_escape(#[trigger] chs[i]) && columns(chs[i]) >= 1
}

proof fn lemma_before_last(chs: Seq<Seq<char>>, lead: nat, width: nat)
    requires
        chs.len() > 0,
        sound(chs),
    ensures
        sound(chs.drop_last()),
        shaped(fill(chs.drop_last(), lead, width), lead, hang(lead, width)),
        !in_escape(fill(chs.drop_last(), lead, width).cur),
        ({
            let f = fill(chs.drop_last(), lead, width);
            columns(f.cur) > f.ind || f.cur == spaces(f.ind)
        }),
        chs.len() > 1 ==> columns(fill(chs.drop_last(), lead, width).cur) > fill(
            chs.drop_last(),
            lead,
            width,
        ).ind,
    decreases chs.len(),
{
    let prev = chs.drop_last();
    assert forall|i: int| 0 <= i < prev.len() implies !in_escape(#[trigger] prev[i]) && columns(
        prev[i],
    ) >= 1 by {
        assert(!in_escape(chs[i]));
    }
    lemma_fill(prev, lead, width);
    if prev.len() > 0 {
        assert(sound(prev));
        lemma_before_last(prev, lead, width);
        assert(columns(prev[prev.len() - 1]) >= 1);
        lemma_add_chunk(
            fill(prev.drop_last(), lead, width),
            prev.last(),
            width,
            lead,
            hang(lead, width),
        );
    }
}

/// Starting a continuation line keeps what is there.
proof fn lemma_keeps_room(f: Fill, chs: Seq<Seq<char>>, ch: Seq<char>, width: nat, cont: nat)
    requires
        keeps(f, chs),
    ensures
        keeps(make_room(f, ch, width, cont), chs),
{
    let g = make_room(f, ch, width, cont);
    if columns(f.cur) + columns(ch) > width && columns(f.cur) > f.ind {
        lemma_finished(f.cur);
        lemma_flat_push(f.lines, finished(f.cur));
        lemma_bare_concat(flat(f.lines), finished(f.cur));
        lemma_spaces(cont);
        lemma_bare_spaces(cont);
        assert(g.cur.take(g.ind as int) =~= spaces(g.ind));
        assert(bare(flat(g.lines)) + bare(g.cur) =~= bare(flat(f.lines)) + bare(f.cur));
        assert(ink(g.lines) + bare(visible(g.cur)) =~= ink(f.lines) + bare(visible(f.cur)));
    }
}

/// Putting a chunk behind the line keeps what is there.
proof fn lemma_keeps_append(g: Fill, chs: Seq<Seq<char>>, ch: Seq<char>)
    requires
        keeps(g, chs),
        !in_escape(g.cur),
    ensures
        keeps(Fill { lines: g.lines, cur: g.cur + ch, ind: g.ind }, chs.push(ch)),
{
    let h = Fill { lines: g.lines, cur: g.cur + ch, ind: g.ind };
    lemma_flat_push(chs, ch);
    lemma_concat(g.cur, ch);
    lemma_bare_concat(g.cur, ch);
    lemma_bare_concat(flat(chs), ch);
    lemma_bare_concat(visible(g.cur), visible(ch));
    assert(h.cur.take(h.ind as int) =~= g.cur.take(g.ind as int));
    assert(bare(flat(h.lines)) + bare(h.cur) =~= bare(flat(chs)) + bare(ch));
    assert(ink(h.lines) + bare(visible(h.cur)) =~= ink(chs) + bare(visible(ch)));
}

/// Cutting a chunk over several lines keeps what is there.
proof fn lemma_keeps_cut(g: Fill, chs: Seq<Seq<char>>, ch: Seq<char>, width: nat, cont: nat)
    requires
        keeps(g, chs),
        g.cur == spaces(g.ind),
        columns(ch) > 0,
    ensures
        ({
            let p = indented(cut(ch, room(width, cont)), g.ind, cont);
            let ind = if p.len() == 1 {
                g.ind
            } else {
                cont
            };
            keeps(Fill { lines: g.lines + p.drop_last(), cur: p.last(), ind }, chs.push(ch))
        }),
{
    let q = cut(ch, room(width, cont));
    let p = indented(q, g.ind, cont);
    let ind = if p.len() == 1 {
        g.ind
    } else {
        cont
    };
    let h = Fill { lines: g.lines + p.drop_last(), cur: p.last(), ind };
    lemma_flat_push(chs, ch);
    lemma_bare_concat(flat(chs), ch);
    lemma_indented(ch, room(width, cont), g.ind, cont);
    lemma_cut(ch, room(width, cont));
    lemma_indented_ink(q, g.ind, cont);
    lemma_ink_flat(q);
    lemma_flat_concat(g.lines, p.drop_last());
    lemma_bare_concat(flat(g.lines), flat(p.drop_last()));
    lemma_bare_concat(flat(p.drop_last()), p.last());
    lemma_spaces(g.ind);
    lemma_bare_spaces(g.ind);
    assert(h.cur.take(h.ind as int) =~= spaces(h.ind));
    assert(bare(flat(g.lines)) =~= bare(flat(chs)));
    assert(ink(g.lines) =~= ink(chs));
    assert(bare(flat(p)) == bare(flat(p.drop_last())) + bare(p.last()));
    assert(bare(flat(h.lines)) + bare(h.cur) =~= bare(flat(chs)) + bare(ch));
    assert(ink(p) == ink(p.drop_last()) + bare(visible(p.last())));
    assert(ink(h.lines) + bare(visible(h.cur)) =~= ink(chs) + bare(visible(ch)));
}

proof fn lemma_keeps(chs: Seq<Seq<char>>, lead: nat, width: nat)
    requires
        sound(chs),
    ensures
        keeps(fill(chs, lead, width), chs),
    decreases chs.len(),
{
    let cont = hang(lead, width);
    let h = fill(chs, lead, width);
    if chs.len() == 0 {
        lemma_spaces(lead);
        lemma_bare_spaces(lead);
        assert(bare(flat(h.lines)) + bare(h.cur) =~= bare(flat(chs)));
        assert(ink(h.lines) + bare(visible(h.cur)) =~= ink(chs));
        assert(h.cur.take(h.ind as int) =~= spaces(h.ind));
    } else {
        let prev = chs.drop_last();
        let ch = chs.last();
        lemma_before_last(chs, lead, width);
        lemma_keeps(prev, lead, width);
        let f = fill(prev, lead, width);
        let g = make_room(f, ch, width, cont);
        lemma_keeps_room(f, prev, ch, width, cont);
        assert(prev.push(ch) =~= chs);
        lemma_spaces(cont);
        if g.ind + columns(ch) > width && columns(ch) > 0 {
            lemma_keeps_cut(g, prev, ch, width, cont);
        } else {
            lemma_keeps_append(g, prev, ch);
        }
    }
}

/// The finished lines of a state are closed.
proof fn lemma_lines_closed(chs: Seq<Seq<char>>, lead: nat, width: nat)
    requires
        sound(chs),
    ensures
        forall|i: int|
            0 <= i < fill(chs, lead, width).lines.len() ==> !in_escape(
                #[trigger] fill(chs, lead, width).lines[i],
            ),
    decreases chs.len(),
{
    if chs.len() > 0 {
        let prev = chs.drop_last();
        let ch = chs.last();
        let cont = hang(lead, width);
        lemma_before_last(chs, lead, width);
        lemma_lines_closed(prev, lead, width);
        let f = fill(prev, lead, width);
        let g = make_room(f, ch, width, cont);
        lemma_finished(f.cur);
        if g.ind + columns(ch) > width && columns(ch) > 0 {
            lemma_indented(ch, room(width, cont), g.ind, cont);
        }
    }
}

/// With room behind the indent, no line of a state is too wide.
proof fn lemma_lines_fit(chs: Seq<Seq<char>>, lead: nat, width: nat)
    requires
        sound(chs),
        lead < width,
    ensures
        columns(fill(chs, lead, width).cur) <= width,
        forall|i: int|
            0 <= i < fill(chs, lead, width).lines.len() ==> columns(
                #[trigger] fill(chs, lead, width).lines[i],
            ) <= width,
    decreases chs.len(),
{
    lemma_spaces(lead);
    if chs.len() > 0 {
        let prev = chs.drop_last();
        let ch = chs.last();
        let cont = hang(lead, width);
        lemma_before_last(chs, lead, width);
        lemma_lines_fit(prev, lead, width);
        let f = fill(prev, lead, width);
        let g = make_room(f, ch, width, cont);
        lemma_finished(f.cur);
        lemma_spaces(cont);
        if g.ind + columns(ch) > width && columns(ch) > 0 {
            lemma_indented(ch, room(width, cont), g.ind, cont);
            let p = indented(cut(ch, room(width, cont)), g.ind, cont);
            assert forall|i: int| 0 <= i < p.len() implies columns(#[trigger] p[i]) <= width by {
                assert(columns(cut(ch, room(width, cont))[i]) <= room(width, cont));
            }
        } else {
            lemma_concat(g.cur, ch);
        }
    }
}

/// What a line shows: its leading spaces, then what its body shows.
proof fn lemma_line_parts(line: Seq<char>)
    ensures
        visible(line) == spaces(leading(line)) + visible(body(line)),
        columns(line) == leading(line) + columns(body(line)),
        in_escape(line) == in_escape(body(line)),
        bare(line) == bare(body(line)),
        bare(visible(line)) == bare(visible(body(line))),
{
    let n = leading(line);
    lemma_leading(line);
    lemma_spaces(n);
    lemma_bare_spaces(n);
    assert(line =~= spaces(n) + body(line));
    lemma_concat(spaces(n), body(line));
    lemma_bare_concat(spaces(n), body(line));
    lemma_bare_concat(spaces(n), visible(body(line)));
    assert(bare(line) =~= bare(body(line)));
    assert(bare(visible(line)) =~= bare(visible(body(line))));
}

/// A line that already fits is returned as it is.
pub proof fn law_fitting_line_is_untouched(line: Seq<char>, width: nat)
    requires
        columns(line) <= width,
    ensures
        wrapped(line, width) == seq![line],
{
}

/// No line that comes out is wider than `width`. (A line indented past the
/// width, with something visible behind the indent, cannot be laid out.)
pub proof fn law_no_line_overflows(line: Seq<char>, width: nat)
    requires
        leading(line) < width || columns(body(line)) == 0,
    ensures
        forall|i: int|
            0 <= i < wrapped(line, width).len() ==> columns(#[trigger] wrapped(line, width)[i])
                <= width,
{
    if columns(line) > width {
        let lead = leading(line);
        let chs = chunks(body(line));
        let f = fill(chs, lead, width);
        lemma_line_parts(line);
        lemma_chunks(body(line));
        if lead < width {
            lemma_lines_fit(chs, lead, width);
            lemma_finished(f.cur);
        } else {
            lemma_invisible_body(line, width);
        }
    }
}

/// A line with nothing visible behind its indent has at most one chunk, which
/// leaves the state without a line.
proof fn lemma_invisible_body(line: Seq<char>, width: nat)
    requires
        columns(body(line)) == 0,
    ensures
        all_lines(fill(chunks(body(line)), leading(line), width)).len() == 0,
{
    let lead = leading(line);
    let chs = chunks(body(line));
    lemma_chunks(body(line));
    lemma_spaces(lead);
    if chs.len() > 1 {
        assert(columns(chs[0]) >= 1);
        lemma_visible_chunk_shows(chs, 0);
    }
    if chs.len() == 1 {
        assert(chs.drop_last() =~= Seq::empty());
        assert(flat(chs) =~= chs[0]) by {
            assert(flat(chs.drop_last()) =~= Seq::empty());
        }
        assert(fill(chs.drop_last(), lead, width).cur == spaces(lead));
        lemma_concat(spaces(lead), chs[0]);
    }
}

/// A text is at least as wide as each of its chunks.
proof fn lemma_visible_chunk_shows(q: Seq<Seq<char>>, i: int)
    requires
        sound(q),
        0 <= i < q.len(),
    ensures
        columns(flat(q)) >= columns(q[i]),
    decreases q.len(),
{
    let prev = q.drop_last();
    assert forall|j: int| 0 <= j < prev.len() - 1 implies !in_escape(#[trigger] prev[j]) && columns(
        prev[j],
    ) >= 1 by {
        assert(!in_escape(q[j]));
    }
    lemma_ink_flat(prev);
    if prev.len() > 0 {
        assert(!in_escape(q[q.len() - 2]));
        assert(prev.last() == q[q.len() - 2]);
    }
    lemma_concat(flat(prev), q.last());
    if i < prev.len() {
        lemma_visible_chunk_shows(prev, i);
        assert(prev[i] == q[i]);
    }
}

/// No visible character is lost or reordered: without spaces, the lines
/// together show what the line showed.
pub proof fn law_no_visible_character_is_lost(line: Seq<char>, width: nat)
    ensures
        ink(wrapped(line, width)) == bare(visible(line)),
{
    if columns(line) <= width {
        assert(seq![line].drop_last() =~= Seq::empty());
        assert(ink(seq![line].drop_last()) =~= Seq::empty());
        assert(ink(seq![line]) =~= bare(visible(line)));
    } else {
        let lead = leading(line);
        let chs = chunks(body(line));
        let f = fill(chs, lead, width);
        lemma_line_parts(line);
        lemma_chunks(body(line));
        lemma_keeps(chs, lead, width);
        lemma_ink_flat(chs);
        if columns(f.cur) > f.ind {
            lemma_finished(f.cur);
            lemma_flat_push(f.lines, finished(f.cur));
        } else {
            lemma_spaces(f.ind);
            lemma_bare_spaces(f.ind);
            let tail = f.cur.skip(f.ind as int);
            assert(f.cur =~= spaces(f.ind) + tail);
            lemma_concat(spaces(f.ind), tail);
            assert(visible(f.cur) =~= spaces(f.ind));
            assert(ink(f.lines) =~= bare(visible(line)));
        }
    }
}

/// Nothing but spaces is lost: without spaces, the lines together are the line,
/// escape sequences included. (An escape sequence at the very end of a line that
/// is indented past the width is dropped with the empty line it would open.)
pub proof fn law_nothing_but_spaces_is_lost(line: Seq<char>, width: nat)
    requires
        chunks(body(line)).len() > 0 && columns(chunks(body(line)).last()) == 0 ==> leading(line)
            < width || columns(line) <= width,
    ensures
        bare(flat(wrapped(line, width))) == bare(line),
{
    if columns(line) <= width {
        assert(seq![line].drop_last() =~= Seq::empty());
        assert(flat(seq![line].drop_last()) =~= Seq::empty());
        assert(flat(seq![line]) =~= line);
    } else {
        let lead = leading(line);
        let chs = chunks(body(line));
        let f = fill(chs, lead, width);
        lemma_line_parts(line);
        lemma_chunks(body(line));
        lemma_keeps(chs, lead, width);
        lemma_spaces(lead);
        lemma_bare_spaces(lead);
        if chs.len() > 0 {
            lemma_before_last(chs, lead, width);
            lemma_add_chunk(
                fill(chs.drop_last(), lead, width),
                chs.last(),
                width,
                lead,
                hang(lead, width),
            );
            if columns(chs.last()) == 0 {
                // The escape sequence stays behind the text that it follows.
                let g = fill(chs.drop_last(), lead, width);
                assert(sound(chs.drop_last()));
                lemma_lines_fit(chs.drop_last(), lead, width);
                if chs.len() == 1 {
                    assert(chs.drop_last() =~= Seq::empty());
                    assert(flat(chs.drop_last()) =~= Seq::empty());
                    assert(flat(chs) =~= chs[0]);
                }
                lemma_concat(g.cur, chs.last());
            }
            assert(columns(f.cur) > f.ind);
            lemma_finished(f.cur);
            lemma_flat_push(f.lines, finished(f.cur));
            lemma_bare_concat(flat(f.lines), finished(f.cur));
        } else {
            assert(bare(flat(f.lines)) =~= bare(line));
        }
    }
}

/// No escape sequence is split: every line but the last is closed, and so is
/// the last if the line was.
pub proof fn law_no_escape_is_split(line: Seq<char>, width: nat)
    ensures
        forall|i: int|
            0 <= i < wrapped(line, width).len() && (i < wrapped(line, width).len() - 1 || !in_escape(
                line,
            )) ==> !in_escape(#[trigger] wrapped(line, width)[i]),
{
    if columns(line) > width {
        let lead = leading(line);
        let chs = chunks(body(line));
        let f = fill(chs, lead, width);
        lemma_line_parts(line);
        lemma_chunks(body(line));
        lemma_lines_closed(chs, lead, width);
        lemma_finished(f.cur);
        lemma_spaces(lead);
        if chs.len() > 0 {
            lemma_before_last(chs, lead, width);
            lemma_add_chunk(
                fill(chs.drop_last(), lead, width),
                chs.last(),
                width,
                lead,
                hang(lead, width),
            );
        }
    }
}

/// Whether a line holds more than spaces, and if so begins with `n` of them.
pub open spec fn indented_by(l: Seq<char>, n: nat) -> bool {
    bare(l).len() > 0 ==> n <= l.len() && l.take(n as int) == spaces(n)
}

/// Finishing a line leaves a front part of it.
proof fn lemma_finished_is_front(s: Seq<char>)
    ensures
        finished(s).len() <= s.len(),
        finished(s) == s.take(finished(s).len() as int),
    decreases s.len(),
{
    if s.len() > 0 && s.last() == ' ' {
        lemma_finished_is_front(s.drop_last());
        assert(s.drop_last().take(finished(s).len() as int) =~= s.take(finished(s).len() as int));
    } else {
        assert(s.take(s.len() as int) =~= s);
    }
}

proof fn lemma_finished_indent(s: Seq<char>, n: nat)
    requires
        n <= s.len(),
        s.take(n as int) == spaces(n),
    ensures
        indented_by(finished(s), n),
{
    lemma_finished_is_front(s);
    let l = finished(s);
    if l.len() < n {
        assert forall|i: int| 0 <= i < l.len() implies l[i] == ' ' by {
            assert(s.take(n as int)[i] == ' ');
        }
        assert(l =~= spaces(l.len()));
        lemma_bare_spaces(l.len());
    } else {
        assert(l.take(n as int) =~= s.take(n as int));
    }
}

/// The indent of the `i`-th line.
pub open spec fn indent_of(i: int, lead: nat, cont: nat) -> nat {
    if i == 0 {
        lead
    } else {
        cont
    }
}

proof fn lemma_indents(chs: Seq<Seq<char>>, lead: nat, width: nat)
    requires
        sound(chs),
    ensures
        ({
            let f = fill(chs, lead, width);
            let cont = hang(lead, width);
            &&& f.ind == indent_of(f.lines.len() as int, lead, cont)
            &&& forall|i: int|
                0 <= i < f.lines.len() ==> indented_by(
                    #[trigger] f.lines[i],
                    indent_of(i, lead, cont),
                )
        }),
    decreases chs.len(),
{
    if chs.len() > 0 {
        let prev = chs.drop_last();
        let ch = chs.last();
        let cont = hang(lead, width);
        lemma_before_last(chs, lead, width);
        lemma_indents(prev, lead, width);
        lemma_keeps(prev, lead, width);
        let f = fill(prev, lead, width);
        let g = make_room(f, ch, width, cont);
        lemma_finished_indent(f.cur, f.ind);
        if g.ind + columns(ch) > width && columns(ch) > 0 {
            lemma_indented(ch, room(width, cont), g.ind, cont);
            let q = cut(ch, room(width, cont));
            let p = indented(q, g.ind, cont);
            assert forall|i: int| 0 <= i < p.len() implies indented_by(
                #[trigger] p[i],
                indent_of(g.lines.len() + i, lead, cont),
            ) by {
                let n = indent_of(i, g.ind, cont);
                assert(p[i] == spaces(n) + q[i]);
                assert(p[i].take(n as int) =~= spaces(n));
            }
        }
    }
}

proof fn lemma_finished_twice(s: Seq<char>)
    ensures
        finished(finished(s)) == finished(s),
    decreases s.len(),
{
    if s.len() > 0 && s.last() == ' ' {
        lemma_finished_twice(s.drop_last());
    }
}

proof fn lemma_lines_finished(chs: Seq<Seq<char>>, lead: nat, width: nat)
    requires
        forall|i: int| 0 <= i < chs.len() ==> unbreakable(#[trigger] chs[i]),
    ensures
        ({
            let f = fill(chs, lead, width);
            forall|i: int|
                0 <= i < f.lines.len() ==> finished(#[trigger] f.lines[i]) == f.lines[i]
        }),
    decreases chs.len(),
{
    if chs.len() > 0 {
        let prev = chs.drop_last();
        let ch = chs.last();
        let cont = hang(lead, width);
        assert forall|i: int| 0 <= i < prev.len() implies unbreakable(#[trigger] prev[i]) by {
            assert(chs[i] == prev[i]);
        }
        assert(chs[chs.len() - 1] == ch);
        lemma_lines_finished(prev, lead, width);
        let f = fill(prev, lead, width);
        let g = make_room(f, ch, width, cont);
        lemma_finished_twice(f.cur);
        if g.ind + columns(ch) > width && columns(ch) > 0 {
            let q = cut(ch, room(width, cont));
            let p = indented(q, g.ind, cont);
            lemma_cut_ends(ch, room(width, cont));
            assert forall|i: int| 0 <= i < p.len() - 1 implies finished(#[trigger] p[i]) == p[i] by {
                assert(q[i].len() > 0 && q[i].last() != ' ');
                assert(p[i].last() == q[i].last());
            }
            let h = fill(chs, lead, width);
            assert forall|i: int| 0 <= i < h.lines.len() implies finished(#[trigger] h.lines[i])
                == h.lines[i] by {
                if i >= g.lines.len() {
                    assert(h.lines[i] == p[i - g.lines.len()]);
                } else {
                    assert(h.lines[i] == g.lines[i]);
                }
            }
        }
    }
}

/// No line of a wrapped one ends with a space.
pub proof fn law_no_line_ends_with_a_space(line: Seq<char>, width: nat)
    requires
        columns(line) > width,
    ensures
        forall|i: int|
            0 <= i < wrapped(line, width).len() ==> finished(#[trigger] wrapped(line, width)[i])
                == wrapped(line, width)[i],
{
    let chs = chunks(body(line));
    lemma_chunks_unbreakable(body(line));
    lemma_lines_finished(chs, leading(line), width);
    lemma_finished_twice(fill(chs, leading(line), width).cur);
}

/// Wrapping gives at least one line. (Of a line wider than `width` that holds
/// nothing visible but its indent, nothing is left.)
pub proof fn law_some_line_comes_out(line: Seq<char>, width: nat)
    requires
        columns(line) <= width || leading(line) < width || columns(body(line)) > 0,
    ensures
        wrapped(line, width).len() > 0,
{
    if columns(line) > width {
        let lead = leading(line);
        let cont = hang(lead, width);
        let chs = chunks(body(line));
        lemma_line_parts(line);
        lemma_chunks(body(line));
        lemma_columns_bound(body(line));
        lemma_before_last(chs, lead, width);
        let f = fill(chs.drop_last(), lead, width);
        let ch = chs.last();
        lemma_add_chunk(f, ch, width, lead, cont);
        if columns(ch) == 0 {
            if chs.len() == 1 {
                assert(flat(chs.drop_last()) =~= Seq::empty());
                assert(flat(chs) =~= ch);
            }
            lemma_concat(f.cur, ch);
        }
    }
}

proof fn lemma_flat_front(p: Seq<Seq<char>>)
    requires
        p.len() > 0,
        p[0].len() > 0,
    ensures
        flat(p).len() > 0,
        flat(p)[0] == p[0][0],
    decreases p.len(),
{
    if p.len() > 1 {
        lemma_flat_front(p.drop_last());
    } else {
        assert(flat(p.drop_last()) =~= Seq::empty());
        assert(flat(p) =~= p[0]);
    }
}

/// Whether `s` begins with exactly `n` spaces, and goes on behind them.
spec fn opens(s: Seq<char>, n: nat) -> bool {
    n < s.len() && s.take(n as int) == spaces(n) && s[n as int] != ' '
}

proof fn lemma_opens_leading(s: Seq<char>, n: nat)
    requires
        opens(s, n),
    ensures
        leading(s) == n,
{
    lemma_leading(s);
    let m = leading(s);
    if m > n {
        assert(s.take(m as int)[n as int] == ' ');
    } else if m < n {
        assert(s.take(n as int)[m as int] == ' ');
    }
}

proof fn lemma_finished_opens(s: Seq<char>, n: nat)
    requires
        opens(s, n),
    ensures
        opens(finished(s), n),
    decreases s.len(),
{
    if s.last() == ' ' {
        let t = s.drop_last();
        assert(t.take(n as int) =~= s.take(n as int));
        lemma_finished_opens(t, n);
    }
}

proof fn lemma_first_line(chs: Seq<Seq<char>>, lead: nat, width: nat)
    requires
        sound(chs),
        chs.len() > 0,
        forall|i: int| 0 <= i < chs.len() ==> unbreakable(#[trigger] chs[i]),
        chs[0].len() > 0,
        chs[0][0] != ' ',
    ensures
        ({
            let f = fill(chs, lead, width);
            if f.lines.len() > 0 {
                opens(f.lines[0], lead)
            } else {
                opens(f.cur, lead)
            }
        }),
    decreases chs.len(),
{
    let prev = chs.drop_last();
    let ch = chs.last();
    let cont = hang(lead, width);
    let f = fill(prev, lead, width);
    let g = make_room(f, ch, width, cont);
    let h = fill(chs, lead, width);
    lemma_before_last(chs, lead, width);
    lemma_spaces(lead);
    if prev.len() == 0 {
        assert(g == f);
        if g.ind + columns(ch) > width && columns(ch) > 0 {
            let avail = room(width, cont);
            let q = cut(ch, avail);
            let p = indented(q, lead, cont);
            assert(unbreakable(chs[0]));
            lemma_cut(ch, avail);
            lemma_cut_ends(ch, avail);
            assert(q[0].len() > 0);
            lemma_flat_front(q);
            assert(p[0] == spaces(lead) + q[0]);
            assert(p[0].take(lead as int) =~= spaces(lead));
            if p.len() > 1 {
                assert(h.lines[0] == p[0]);
            }
        } else {
            assert(h.cur.take(lead as int) =~= spaces(lead));
        }
    } else {
        assert forall|i: int| 0 <= i < prev.len() implies unbreakable(#[trigger] prev[i]) by {
            assert(chs[i] == prev[i]);
        }
        lemma_first_line(prev, lead, width);
        if f.lines.len() > 0 {
            assert(g.lines[0] == f.lines[0]);
            assert(h.lines[0] == g.lines[0]);
        } else if columns(f.cur) + columns(ch) > width && columns(f.cur) > f.ind {
            lemma_finished_opens(f.cur, lead);
            assert(h.lines[0] == finished(f.cur));
        } else {
            assert(h.cur == f.cur + ch);
            assert(h.cur.take(lead as int) =~= f.cur.take(lead as int));
        }
    }
}

/// The first line that comes out begins with exactly the leading spaces of the
/// line, also where the text behind them is cut.
pub proof fn law_the_first_line_keeps_its_indent(line: Seq<char>, width: nat)
    requires
        wrapped(line, width).len() > 0,
    ensures
        leading(wrapped(line, width)[0]) == leading(line),
{
    if columns(line) > width {
        let lead = leading(line);
        let b = body(line);
        let chs = chunks(b);
        lemma_leading(line);
        lemma_chunks(b);
        lemma_chunks_unbreakable(b);
        lemma_spaces(lead);
        assert(chs.len() > 0);
        if chs.len() == 1 {
            assert(flat(chs.drop_last()) =~= Seq::empty());
            assert(flat(chs) =~= chs[0]);
        }
        assert(chs[0].len() > 0);
        lemma_flat_front(chs);
        assert(b[0] == line[lead as int]);
        lemma_first_line(chs, lead, width);
        let f = fill(chs, lead, width);
        if f.lines.len() == 0 {
            lemma_finished_opens(f.cur, lead);
        }
        lemma_opens_leading(wrapped(line, width)[0], lead);
    }
}

/// Every line begins with at least its indent: the first with that of the line it
/// came from, and every line after it with the continuation indent.
pub proof fn law_lines_hang_under_the_first(line: Seq<char>, width: nat)
    requires
        columns(line) > width,
    ensures
        forall|i: int|
            0 <= i < wrapped(line, width).len() && wrapped(line, width)[i].len() > 0 ==> begins(
                #[trigger] wrapped(line, width)[i],
                spaces(indent_of(i, leading(line), hang(leading(line), width))),
            ),
{
    let lead = leading(line);
    let chs = chunks(body(line));
    let f = fill(chs, lead, width);
    lemma_chunks(body(line));
    lemma_indents(chs, lead, width);
    lemma_keeps(chs, lead, width);
    lemma_finished_indent(f.cur, f.ind);
    law_no_line_ends_with_a_space(line, width);
    let lines = wrapped(line, width);
    assert forall|i: int| 0 <= i < lines.len() && lines[i].len() > 0 implies begins(
        #[trigger] lines[i],
        spaces(indent_of(i, lead, hang(lead, width))),
    ) by {
        assert(indented_by(lines[i], indent_of(i, lead, hang(lead, width))));
        assert(finished(lines[i]) == lines[i]);
        lemma_finished_is_front(lines[i].drop_last());
        assert(lines[i].last() != ' ');
        assert(bare(lines[i]).len() > 0);
    }
}

/// Whether `lines` lay out `chs` from front to back: the `i`-th line is made of
/// the whole chunks from `cuts[i]` to `cuts[i + 1]`, behind its indent, and
/// nothing visible is left over.
pub open spec fn laid_out(
    lines: Seq<Seq<char>>,
    chs: Seq<Seq<char>>,
    cuts: Seq<int>,
    lead: nat,
    cont: nat,
) -> bool {
    &&& cuts.len() == lines.len() + 1
    &&& cuts[0] == 0
    &&& cuts.last() <= chs.len()
    &&& forall|i: int, j: int| 0 <= i <= j < cuts.len() ==> #[trigger] cuts[i] <= #[trigger] cuts[j]
    &&& forall|i: int|
        0 <= i < lines.len() ==> #[trigger] lines[i] == finished(
            spaces(indent_of(i, lead, cont)) + flat(chs.subrange(cuts[i], cuts[i + 1])),
        )
    &&& columns(flat(chs.subrange(cuts.last(), chs.len() as int))) == 0
}

/// The cuts behind which a row of fitting chunks was laid out, with what is on
/// the current line.
proof fn lemma_layout(chs: Seq<Seq<char>>, lead: nat, width: nat) -> (cuts: Seq<int>)
    requires
        sound(chs),
        forall|i: int|
            0 <= i < chs.len() ==> hang(lead, width) + columns(#[trigger] chs[i]) <= width,
    ensures
        ({
            let f = fill(chs, lead, width);
            let cont = hang(lead, width);
            &&& cuts.len() == f.lines.len() + 1
            &&& cuts[0] == 0
            &&& cuts.last() <= chs.len()
            &&& forall|i: int, j: int|
                0 <= i <= j < cuts.len() ==> #[trigger] cuts[i] <= #[trigger] cuts[j]
            &&& forall|i: int|
                0 <= i < f.lines.len() ==> #[trigger] f.lines[i] == finished(
                    spaces(indent_of(i, lead, cont)) + flat(chs.subrange(cuts[i], cuts[i + 1])),
                )
            &&& f.ind == indent_of(f.lines.len() as int, lead, cont)
            &&& f.cur == spaces(f.ind) + flat(chs.subrange(cuts.last(), chs.len() as int))
        }),
    decreases chs.len(),
{
    let cont = hang(lead, width);
    let f = fill(chs, lead, width);
    if chs.len() == 0 {
        let cuts = seq![0int];
        assert(chs.subrange(0, 0) =~= Seq::empty());
        assert(spaces(lead) + Seq::<char>::empty() =~= spaces(lead));
        cuts
    } else {
        let prev = chs.drop_last();
        let ch = chs.last();
        let n = prev.len() as int;
        lemma_before_last(chs, lead, width);
        assert forall|i: int| 0 <= i < prev.len() implies hang(lead, width) + columns(
            #[trigger] prev[i],
        ) <= width by {
            assert(chs[i] == prev[i]);
        }
        assert(hang(lead, width) + columns(chs[n]) <= width);
        let had = lemma_layout(prev, lead, width);
        let e = fill(prev, lead, width);
        let g = make_room(e, ch, width, cont);
        assert(f == Fill { lines: g.lines, cur: g.cur + ch, ind: g.ind });
        assert forall|i: int| 0 <= i < e.lines.len() implies #[trigger] e.lines[i] == finished(
            spaces(indent_of(i, lead, cont)) + flat(chs.subrange(had[i], had[i + 1])),
        ) by {
            assert(had[i + 1] <= had[had.len() - 1]);
            assert(had[0] <= had[i] && had[i] <= had[i + 1]);
            assert(prev.subrange(had[i], had[i + 1]) =~= chs.subrange(had[i], had[i + 1]));
        }
        let k = had.last();
        assert(had[0] <= had[had.len() - 1]);
        if columns(e.cur) + columns(ch) > width && columns(e.cur) > e.ind {
            let cuts = had.push(n);
            assert(prev.subrange(k, n) =~= chs.subrange(k, n));
            assert(g.lines == e.lines.push(finished(e.cur)));
            assert(chs.subrange(n, n + 1) =~= seq![ch]);
            assert(seq![ch].drop_last() =~= Seq::empty());
            assert(flat(seq![ch].drop_last()) =~= Seq::empty());
            assert(flat(seq![ch]) =~= ch);
            assert forall|i: int| 0 <= i < g.lines.len() implies #[trigger] g.lines[i] == finished(
                spaces(indent_of(i, lead, cont)) + flat(chs.subrange(cuts[i], cuts[i + 1])),
            ) by {
                if i < e.lines.len() {
                    assert(g.lines[i] == e.lines[i]);
                }
            }
            cuts
        } else {
            let rest = chs.subrange(k, n + 1);
            assert(rest.drop_last() =~= prev.subrange(k, n));
            assert(rest.last() == ch);
            assert(spaces(e.ind) + flat(rest.drop_last()) + ch =~= spaces(e.ind) + flat(rest));
            had
        }
    }
}

/// If every chunk fits on a line, no token is split: every line is a row of
/// whole chunks behind its indent, and every chunk but the last of the text ends
/// in a space, `;` or `,`.
pub proof fn law_breaks_only_at_separators(line: Seq<char>, width: nat)
    requires
        columns(line) > width,
        forall|i: int|
            0 <= i < chunks(body(line)).len() ==> hang(leading(line), width) + columns(
                #[trigger] chunks(body(line))[i],
            ) <= width,
    ensures
        exists|cuts: Seq<int>| #[trigger]
            laid_out(
                wrapped(line, width),
                chunks(body(line)),
                cuts,
                leading(line),
                hang(leading(line), width),
            ),
        flat(chunks(body(line))) == body(line),
        forall|i: int|
            0 <= i < chunks(body(line)).len() - 1 ==> is_break(
                (#[trigger] chunks(body(line))[i]).last(),
            ),
{
    let chs = chunks(body(line));
    let lead = leading(line);
    let cont = hang(lead, width);
    lemma_chunks(body(line));
    let f = fill(chs, lead, width);
    let had = lemma_layout(chs, lead, width);
    let n = chs.len() as int;
    if columns(f.cur) > f.ind {
        let cuts = had.push(n);
        assert(chs.subrange(n, n) =~= Seq::empty());
        let lines = f.lines.push(finished(f.cur));
        assert forall|i: int| 0 <= i < lines.len() implies #[trigger] lines[i] == finished(
            spaces(indent_of(i, lead, cont)) + flat(chs.subrange(cuts[i], cuts[i + 1])),
        ) by {
            if i < f.lines.len() {
                assert(lines[i] == f.lines[i]);
            }
        }
        assert(laid_out(wrapped(line, width), chs, cuts, lead, cont));
    } else {
        let rest = flat(chs.subrange(had.last(), n));
        lemma_spaces(f.ind);
        lemma_concat(spaces(f.ind), rest);
        assert(laid_out(wrapped(line, width), chs, had, lead, cont));
    }
}

} // verus!
