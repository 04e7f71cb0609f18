//! Output model: a section is a titled block of lines, rendered as clean,
//! separated, severity-free output.

use crate::style::{
    bold, bolded, dim, dimmed, green, greened, law_styling_is_invisible, red, reddened, Style,
};
use crate::term::{
    columns, display_width, in_escape, lemma_concat, lemma_push, lemma_spaces, visible,
};
use crate::text::{cat2, cat3, cat4, repeat, repeated, texts};
use crate::wrap::{body, law_no_line_overflows, leading, wrap, wrapped};
use vstd::prelude::*;
use vstd::string::*;

verus! {

/// A titled block of lines.
#[derive(Debug)]
pub struct Section {
    /// What the section is about.
    pub title: String,
    /// Its lines, already styled.
    pub lines: Vec<String>,
}

/// What a section holds.
pub struct SectionView {
    pub title: Seq<char>,
    pub lines: Seq<Seq<char>>,
}

impl View for Section {
    type V = SectionView;

    open spec fn view(&self) -> SectionView {
        SectionView { title: self.title@, lines: texts(self.lines@) }
    }
}

impl SectionView {
    /// The section with one more line.
    pub open spec fn with(self, line: Seq<char>) -> SectionView {
        SectionView { title: self.title, lines: self.lines.push(line) }
    }

    /// The section with some more lines.
    pub open spec fn with_all(self, lines: Seq<Seq<char>>) -> SectionView {
        SectionView { title: self.title, lines: self.lines + lines }
    }
}

/// A section of the given title and lines.
pub open spec fn section(title: Seq<char>, lines: Seq<Seq<char>>) -> SectionView {
    SectionView { title, lines }
}

/// A line that reports something in order.
pub open spec fn good_line(st: Style, t: Seq<char>) -> Seq<char> {
    "  "@ + greened(st, "+"@) + " "@ + t
}

/// A line that reports something amiss.
pub open spec fn bad_line(st: Style, t: Seq<char>) -> Seq<char> {
    "  "@ + reddened(st, "-"@) + " "@ + t
}

/// A line that is neither.
pub open spec fn note_line(st: Style, t: Seq<char>) -> Seq<char> {
    "    "@ + dimmed(st, t)
}

impl Section {
    /// An empty section.
    pub fn new(title: &str) -> (r: Section)
        ensures
            r@ == section(title@, Seq::empty()),
    {
        let r = Section { title: title.to_owned(), lines: Vec::new() };
        assert(r@.lines =~= Seq::empty());
        r
    }

    /// Raw, already-formatted line.
    pub fn text(&mut self, line: &str)
        ensures
            final(self)@ == old(self)@.with(line@),
    {
        self.lines.push(line.to_owned());
        assert(self@.lines =~= old(self)@.lines.push(line@));
    }

    /// A line marked `+`.
    pub fn good(&mut self, st: Style, line: &str)
        ensures
            final(self)@ == old(self)@.with(good_line(st, line@)),
    {
        let mark = green(st, "+");
        let l = cat4("  ", mark.as_str(), " ", line);
        self.text(l.as_str());
    }

    /// A line marked `-`.
    pub fn bad(&mut self, st: Style, line: &str)
        ensures
            final(self)@ == old(self)@.with(bad_line(st, line@)),
    {
        let mark = red(st, "-");
        let l = cat4("  ", mark.as_str(), " ", line);
        self.text(l.as_str());
    }

    /// A dimmed line without a mark.
    pub fn note(&mut self, st: Style, line: &str)
        ensures
            final(self)@ == old(self)@.with(note_line(st, line@)),
    {
        let d = dim(st, line);
        let l = cat2("    ", d.as_str());
        self.text(l.as_str());
    }
}

/// The heading of a section, ruled to the width.
pub open spec fn heading(title: Seq<char>, width: nat) -> Seq<char> {
    let head = "== "@ + title + " "@;
    head + repeated(
        '=',
        if width > columns(head) {
            (width - columns(head)) as nat
        } else {
            0
        },
    )
}

/// All the given lines, wrapped one after another.
pub open spec fn wrapped_all(lines: Seq<Seq<char>>, width: nat) -> Seq<Seq<char>>
    decreases lines.len(),
{
    if lines.len() == 0 {
        Seq::empty()
    } else {
        wrapped_all(lines.drop_last(), width) + wrapped(lines.last(), width)
    }
}

/// What is printed of a section: a blank line, the heading, and the lines
/// wrapped to the width.
pub open spec fn printed(sec: SectionView, st: Style, width: nat) -> Seq<Seq<char>> {
    seq![Seq::<char>::empty(), bolded(st, heading(sec.title, width))] + wrapped_all(sec.lines, width)
}

/// The lines to print for a section on a display of `width` columns.
pub fn print_section(sec: &Section, st: Style, width: usize) -> (r: Vec<String>)
    ensures
        texts(r@) == printed(sec@, st, width as nat),
{
    let head = cat3("== ", sec.title.as_str(), " ");
    let used = display_width(head.as_str());
    let pad = repeat(
        '=',
        if width > used {
            width - used
        } else {
            0
        },
    );
    let rule = cat2(head.as_str(), pad.as_str());
    let mut r: Vec<String> = Vec::new();
    r.push(String::new());
    r.push(bold(st, rule.as_str()));
    let ghost top = seq![Seq::<char>::empty(), bolded(st, heading(sec@.title, width as nat))];
    assert(texts(r@) =~= top);
    let mut i: usize = 0;
    assert(sec@.lines.take(0) =~= Seq::empty());
    assert(top + Seq::<Seq<char>>::empty() =~= top);
    while i < sec.lines.len()
        invariant
            i <= sec.lines@.len(),
            texts(r@) == top + wrapped_all(sec@.lines.take(i as int), width as nat),
        decreases sec.lines@.len() - i,
    {
        let mut w = wrap(sec.lines[i].as_str(), width);
        let ghost before = texts(r@);
        let ghost more = texts(w@);
        r.append(&mut w);
        assert(texts(r@) =~= before + more);
        assert(sec@.lines.take(i + 1).drop_last() =~= sec@.lines.take(i as int));
        assert(sec@.lines[i as int] == sec.lines@[i as int]@);
        i += 1;
        assert(texts(r@) =~= top + wrapped_all(sec@.lines.take(i as int), width as nat));
    }
    assert(sec@.lines.take(i as int) =~= sec@.lines);
    r
}

// ---------------------------------------------------------------------------
// Laws
// ---------------------------------------------------------------------------

/// A marked line shows its mark and its text, whether it is colored or not.
pub proof fn law_marks_look_the_same(st: Style, t: Seq<char>)
    ensures
        visible(good_line(st, t)) == "  + "@ + visible(t),
        visible(bad_line(st, t)) == "  - "@ + visible(t),
        visible(note_line(st, t)) == "    "@ + visible(t),
{
    reveal_strlit("  ");
    reveal_strlit("    ");
    reveal_strlit("+");
    reveal_strlit("-");
    reveal_strlit(" ");
    reveal_strlit("  + ");
    reveal_strlit("  - ");
    reveal_strlit("2");
    reveal_strlit("31");
    reveal_strlit("32");
    lemma_spaces(1);
    lemma_spaces(2);
    lemma_spaces(4);
    assert("  "@ =~= repeated(' ', 2) && "    "@ =~= repeated(' ', 4) && " "@ =~= repeated(' ', 1));
    let e = Seq::<char>::empty();
    lemma_push(e, '+');
    lemma_push(e, '-');
    assert(e.push('+') =~= "+"@ && e.push('-') =~= "-"@);
    law_styling_is_invisible(st, "32"@, "+"@);
    law_styling_is_invisible(st, "31"@, "-"@);
    law_styling_is_invisible(st, "2"@, t);
    let g = greened(st, "+"@);
    let b = reddened(st, "-"@);
    lemma_concat("  "@, g);
    lemma_concat("  "@ + g, " "@);
    lemma_concat("  "@ + g + " "@, t);
    lemma_concat("  "@, b);
    lemma_concat("  "@ + b, " "@);
    lemma_concat("  "@ + b + " "@, t);
    lemma_concat("    "@, dimmed(st, t));
    assert(visible(good_line(st, t)) =~= "  + "@ + visible(t));
    assert(visible(bad_line(st, t)) =~= "  - "@ + visible(t));
}

/// What is in order is never marked like what is amiss.
pub proof fn law_marks_differ(st: Style, a: Seq<char>, b: Seq<char>)
    ensures
        good_line(st, a) != bad_line(st, b),
{
    reveal_strlit("  + ");
    reveal_strlit("  - ");
    law_marks_look_the_same(st, a);
    law_marks_look_the_same(st, b);
    assert(visible(good_line(st, a))[2] == '+');
    assert(visible(bad_line(st, b))[2] == '-');
}

proof fn lemma_rule(a: Seq<char>, n: nat)
    requires
        !in_escape(a),
    ensures
        columns(a + repeated('=', n)) == columns(a) + n,
    decreases n,
{
    if n == 0 {
        assert(a + repeated('=', 0) =~= a);
    } else {
        let m = (n - 1) as nat;
        lemma_rule(a, m);
        lemma_closed_rule(a, m);
        assert(a + repeated('=', n) =~= (a + repeated('=', m)).push('='));
        lemma_push(a + repeated('=', m), '=');
    }
}

proof fn lemma_closed_rule(a: Seq<char>, n: nat)
    requires
        !in_escape(a),
    ensures
        !in_escape(a + repeated('=', n)),
    decreases n,
{
    if n == 0 {
        assert(a + repeated('=', 0) =~= a);
    } else {
        let m = (n - 1) as nat;
        lemma_closed_rule(a, m);
        assert(a + repeated('=', n) =~= (a + repeated('=', m)).push('='));
        lemma_push(a + repeated('=', m), '=');
    }
}

/// The rule of a heading fills the width, if the title leaves room for it.
pub proof fn law_the_rule_fills_the_width(title: Seq<char>, width: nat)
    requires
        !in_escape("== "@ + title + " "@),
        columns("== "@ + title + " "@) <= width,
    ensures
        columns(heading(title, width)) == width,
{
    let head = "== "@ + title + " "@;
    lemma_rule(head, (width - columns(head)) as nat);
}

/// No line of a section is printed wider than the display. (A line indented past
/// the width, with something visible behind the indent, cannot be laid out.)
pub proof fn law_printed_lines_fit(lines: Seq<Seq<char>>, width: nat)
    requires
        forall|i: int|
            0 <= i < lines.len() ==> leading(#[trigger] lines[i]) < width || columns(body(lines[i]))
                == 0,
    ensures
        forall|i: int|
            0 <= i < wrapped_all(lines, width).len() ==> columns(
                #[trigger] wrapped_all(lines, width)[i],
            ) <= width,
    decreases lines.len(),
{
    if lines.len() > 0 {
        let prev = lines.drop_last();
        assert forall|i: int| 0 <= i < prev.len() implies leading(#[trigger] prev[i]) < width
            || columns(body(prev[i])) == 0 by {
            assert(lines[i] == prev[i]);
        }
        law_printed_lines_fit(prev, width);
        assert(lines[lines.len() - 1] == lines.last());
        law_no_line_overflows(lines.last(), width);
        let a = wrapped_all(prev, width);
        let b = wrapped(lines.last(), width);
        assert forall|i: int| 0 <= i < (a + b).len() implies columns(#[trigger] (a + b)[i])
            <= width by {
            if i < a.len() {
                assert((a + b)[i] == a[i]);
            } else {
                assert((a + b)[i] == b[i - a.len()]);
            }
        }
    }
}

/// A section is printed behind a blank line and its heading, which shows the
/// title; each of its lines adds what wrapping makes of it behind the others.
pub proof fn law_sections_are_printed_whole(
    sec: SectionView,
    line: Seq<char>,
    st: Style,
    width: nat,
)
    ensures
        printed(section(sec.title, Seq::empty()), st, width) == seq![
            Seq::<char>::empty(),
            bolded(st, heading(sec.title, width)),
        ],
        printed(sec.with(line), st, width) == printed(sec, st, width) + wrapped(line, width),
        heading(sec.title, width).take(("== "@ + sec.title + " "@).len() as int) == "== "@
            + sec.title + " "@,
        forall|i: int|
            ("== "@ + sec.title + " "@).len() <= i < heading(sec.title, width).len()
                ==> #[trigger] heading(sec.title, width)[i] == '=',
{
    let top = seq![Seq::<char>::empty(), bolded(st, heading(sec.title, width))];
    assert(printed(section(sec.title, Seq::empty()), st, width) =~= top);
    assert(sec.lines.push(line).drop_last() =~= sec.lines);
    assert(printed(sec.with(line), st, width) =~= printed(sec, st, width) + wrapped(line, width));
    let head = "== "@ + sec.title + " "@;
    assert(heading(sec.title, width).take(head.len() as int) =~= head);
}

/// A line is added at the end of a section, and changes nothing before it.
pub proof fn law_lines_are_added(sec: SectionView, l: Seq<char>, ls: Seq<Seq<char>>)
    ensures
        sec.with(l).title == sec.title,
        sec.with(l).lines == sec.lines.push(l),
        sec.with_all(ls).title == sec.title,
        sec.with_all(ls).lines == sec.lines + ls,
{
}

} // verus!
