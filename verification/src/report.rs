//! Report export: render the collected sections to a Markdown or HTML document.
//!
//! Section lines carry ANSI styling for the terminal, which is stripped here to
//! keep report files clean regardless of the color setting.

use crate::number::{decimal, show};
use crate::section::{Section, SectionView};
use crate::term::{columns, in_escape, lemma_push, visible, ESC};
use crate::text::{
    begins, cat2, cat3, cat4, ends, ends_with, includes, join, joined, law_joining,
    lemma_includes_around, lemma_includes_itself, lowered, same, starts_with, strip_back, strip_end,
    strip_front, strip_start, texts, to_chars, to_lowercase, CharSet,
};
use vstd::prelude::*;
use vstd::string::*;

verus! {

/// Output format, inferred from the report file's extension.
#[derive(Clone, Copy, Debug, PartialEq, Eq, Structural)]
pub enum Format {
    Markdown,
    Html,
}

/// The format that a path asks for.
pub open spec fn format_of(path: Seq<char>) -> Format {
    if ends(lowered(path), ".html"@) || ends(lowered(path), ".htm"@) {
        Format::Html
    } else {
        Format::Markdown
    }
}

impl Format {
    /// `.html`/`.htm` -> HTML; anything else -> Markdown.
    pub fn from_path(path: &str) -> (r: Format)
        ensures
            r == format_of(path@),
    {
        let low = to_lowercase(path);
        if ends_with(low.as_str(), ".html") || ends_with(low.as_str(), ".htm") {
            Format::Html
        } else {
            Format::Markdown
        }
    }
}

/// One scanned target's results, borrowed for rendering.
pub struct TargetReport<'a> {
    pub target: &'a str,
    pub host: &'a str,
    pub status: Option<u16>,
    pub sections: &'a [Section],
}

/// What the results of one target hold.
pub struct TargetReportView {
    pub target: Seq<char>,
    pub host: Seq<char>,
    pub status: Option<u16>,
    pub sections: Seq<SectionView>,
}

/// The views of some sections.
pub open spec fn section_views(v: Seq<Section>) -> Seq<SectionView> {
    Seq::new(v.len(), |i: int| v[i]@)
}

impl<'a> View for TargetReport<'a> {
    type V = TargetReportView;

    open spec fn view(&self) -> TargetReportView {
        TargetReportView {
            target: self.target@,
            host: self.host@,
            status: self.status,
            sections: section_views(self.sections@),
        }
    }
}

/// The views of some targets' results.
pub open spec fn report_views<'a>(v: Seq<TargetReport<'a>>) -> Seq<TargetReportView> {
    Seq::new(v.len(), |i: int| v[i]@)
}

/// Without the white space at the end.
pub open spec fn right_trimmed(s: Seq<char>) -> Seq<char> {
    strip_end(s, CharSet::White)
}

/// Removes the escape sequences from a styled string.
pub fn strip_ansi(s: &str) -> (r: String)
    ensures
        r@ == visible(s@),
        r@.len() == columns(s@),
{
    let v = to_chars(s);
    let mut r = String::new();
    let mut esc: bool = false;
    let mut i: usize = 0;
    assert(v@.take(0) =~= Seq::empty());
    while i < v.len()
        invariant
            i <= v@.len(),
            esc == in_escape(v@.take(i as int)),
            r@ == visible(v@.take(i as int)),
        decreases v@.len() - i,
    {
        let c = v[i];
        proof {
            lemma_push(v@.take(i as int), c);
            assert(v@.take(i as int).push(c) =~= v@.take(i + 1));
        }
        if esc {
            esc = c != 'm';
        } else if c == ESC {
            esc = true;
        } else {
            r.push(c);
        }
        i += 1;
    }
    assert(v@.take(i as int) =~= v@);
    r
}

// ---------------------------------------------------------------------------
// Markdown
// ---------------------------------------------------------------------------

/// The lines of a section as they stand in a Markdown code block.
pub open spec fn markdown_lines(lines: Seq<Seq<char>>) -> Seq<char>
    decreases lines.len(),
{
    if lines.len() == 0 {
        Seq::empty()
    } else {
        markdown_lines(lines.drop_last()) + right_trimmed(visible(lines.last())) + "\n"@
    }
}

/// Some sections in Markdown: a heading and a code block each.
pub open spec fn markdown_sections(secs: Seq<SectionView>) -> Seq<char>
    decreases secs.len(),
{
    if secs.len() == 0 {
        Seq::empty()
    } else {
        markdown_sections(secs.drop_last()) + "### "@ + secs.last().title + "\n\n```\n"@
            + markdown_lines(secs.last().lines) + "```\n\n"@
    }
}

/// The results of one target in Markdown.
pub open spec fn markdown_target(r: TargetReportView) -> Seq<char> {
    let host = if r.host != r.target {
        "Host: `"@ + r.host + "`\n\n"@
    } else {
        Seq::empty()
    };
    let status = match r.status {
        Some(s) => "HTTP "@ + decimal(s as nat) + "\n\n"@,
        None => Seq::empty(),
    };
    "## "@ + r.target + "\n\n"@ + host + status + markdown_sections(r.sections)
}

/// The results of some targets in Markdown.
pub open spec fn markdown_targets(rs: Seq<TargetReportView>) -> Seq<char>
    decreases rs.len(),
{
    if rs.len() == 0 {
        Seq::empty()
    } else {
        markdown_targets(rs.drop_last()) + markdown_target(rs.last())
    }
}

/// A whole report in Markdown.
pub open spec fn markdown_report(rs: Seq<TargetReportView>) -> Seq<char> {
    "# vantage report\n\n"@ + markdown_targets(rs)
}

fn markdown_section_lines(lines: &Vec<String>) -> (o: String)
    ensures
        o@ == markdown_lines(texts(lines@)),
{
    let mut o = String::new();
    let mut i: usize = 0;
    assert(texts(lines@).take(0) =~= Seq::empty());
    while i < lines.len()
        invariant
            i <= lines@.len(),
            o@ == markdown_lines(texts(lines@).take(i as int)),
        decreases lines@.len() - i,
    {
        let plain = strip_ansi(lines[i].as_str());
        let t = strip_back(plain.as_str(), CharSet::White);
        o.append(t.as_str());
        o.append("\n");
        assert(texts(lines@).take(i + 1).drop_last() =~= texts(lines@).take(i as int));
        i += 1;
    }
    assert(texts(lines@).take(i as int) =~= texts(lines@));
    o
}

fn markdown_all_sections(sections: &[Section]) -> (o: String)
    ensures
        o@ == markdown_sections(section_views(sections@)),
{
    let mut o = String::new();
    let ghost secs = section_views(sections@);
    let mut i: usize = 0;
    assert(secs.take(0) =~= Seq::empty());
    while i < sections.len()
        invariant
            i <= sections@.len(),
            secs == section_views(sections@),
            o@ == markdown_sections(secs.take(i as int)),
        decreases sections@.len() - i,
    {
        let sec = &sections[i];
        let lines = markdown_section_lines(&sec.lines);
        o.append("### ");
        o.append(sec.title.as_str());
        o.append("\n\n```\n");
        o.append(lines.as_str());
        o.append("```\n\n");
        assert(secs.take(i + 1).drop_last() =~= secs.take(i as int));
        i += 1;
    }
    assert(secs.take(i as int) =~= secs);
    o
}

fn markdown_one_target(r: &TargetReport) -> (o: String)
    ensures
        o@ == markdown_target(r@),
{
    let mut o = cat3("## ", r.target, "\n\n");
    let host = if !same(r.host, r.target) {
        cat3("Host: `", r.host, "`\n\n")
    } else {
        String::new()
    };
    let status = match r.status {
        Some(s) => {
            let d = show(s as u64);
            cat3("HTTP ", d.as_str(), "\n\n")
        },
        None => String::new(),
    };
    let sections = markdown_all_sections(r.sections);
    o.append(host.as_str());
    o.append(status.as_str());
    o.append(sections.as_str());
    o
}

/// Renders the results as Markdown.
pub fn markdown(results: &[TargetReport]) -> (r: String)
    ensures
        r@ == markdown_report(report_views(results@)),
{
    let mut o = String::new();
    let ghost rs = report_views(results@);
    let mut i: usize = 0;
    assert(rs.take(0) =~= Seq::empty());
    while i < results.len()
        invariant
            i <= results@.len(),
            rs == report_views(results@),
            o@ == markdown_targets(rs.take(i as int)),
        decreases results@.len() - i,
    {
        let t = markdown_one_target(&results[i]);
        o.append(t.as_str());
        assert(rs.take(i + 1).drop_last() =~= rs.take(i as int));
        i += 1;
    }
    assert(rs.take(i as int) =~= rs);
    cat2("# vantage report\n\n", o.as_str())
}

// ---------------------------------------------------------------------------
// HTML
// ---------------------------------------------------------------------------

/// The lines of an HTML report up to its heading.
pub const HTML_HEAD: [&'static str; 17] = [
    "<!doctype html>",
    "<html lang=\"en\">",
    "<head>",
    "<meta charset=\"utf-8\">",
    "<meta name=\"viewport\" content=\"width=device-width, initial-scale=1\">",
    "<title>vantage report</title>",
    "<style>",
    ":root{color-scheme:light dark}",
    "body{font:14px/1.5 system-ui,sans-serif;max-width:60rem;margin:2rem auto;padding:0 1rem}",
    "h1{font-size:1.5rem}h2{margin-top:2.5rem;border-bottom:1px solid #8886;padding-bottom:.3rem}",
    "h3{margin:1.5rem 0 .5rem;font-size:1rem}",
    ".meta{color:#888}",
    "pre{background:#8881;border-radius:6px;padding:.8rem 1rem;overflow-x:auto;white-space:pre-wrap;word-break:break-word}",
    ".good{color:#1a7f37}.bad{color:#cf222e}.note{color:#888}",
    "</style>",
    "</head>",
    "<body>",
];

/// The first `n` lines of an HTML report.
pub open spec fn html_head(n: nat) -> Seq<char>
    decreases n,
{
    if n == 0 {
        Seq::empty()
    } else {
        html_head((n - 1) as nat) + HTML_HEAD@[n - 1]@ + "\n"@
    }
}

fn write_head() -> (o: String)
    ensures
        o@ == html_head(17),
{
    let table = HTML_HEAD;
    let mut o = String::new();
    let mut i: usize = 0;
    while i < 17
        invariant
            i <= 17,
            table == HTML_HEAD,
            o@ == html_head(i as nat),
        decreases 17 - i,
    {
        o.append(table[i]);
        o.append("\n");
        i += 1;
    }
    o
}

/// One character as it stands in HTML text.
pub open spec fn escaped_char(c: char) -> Seq<char> {
    if c == '&' {
        "&amp;"@
    } else if c == '<' {
        "&lt;"@
    } else if c == '>' {
        "&gt;"@
    } else {
        seq![c]
    }
}

/// A text as it stands in HTML.
pub open spec fn escaped(s: Seq<char>) -> Seq<char>
    decreases s.len(),
{
    if s.len() == 0 {
        Seq::empty()
    } else {
        escaped(s.drop_last()) + escaped_char(s.last())
    }
}

/// Escapes text for HTML.
pub fn esc(s: &str) -> (r: String)
    ensures
        r@ == escaped(s@),
{
    let v = to_chars(s);
    let mut r = String::new();
    let mut i: usize = 0;
    assert(v@.take(0) =~= Seq::empty());
    while i < v.len()
        invariant
            i <= v@.len(),
            r@ == escaped(v@.take(i as int)),
        decreases v@.len() - i,
    {
        let c = v[i];
        assert(v@.take(i + 1).drop_last() =~= v@.take(i as int));
        if c == '&' {
            r.append("&amp;");
        } else if c == '<' {
            r.append("&lt;");
        } else if c == '>' {
            r.append("&gt;");
        } else {
            r.push(c);
            assert(r@ =~= escaped(v@.take(i as int)) + seq![c]);
        }
        i += 1;
    }
    assert(v@.take(i as int) =~= v@);
    r
}

/// One section line in HTML, colored by its mark.
pub open spec fn html_line(line: Seq<char>) -> Seq<char> {
    let plain = visible(line);
    let from_mark = strip_start(plain, CharSet::White);
    let text = escaped(right_trimmed(plain));
    if begins(from_mark, "+ "@) {
        "<span class=\"good\">"@ + text + "</span>\n"@
    } else if begins(from_mark, "- "@) {
        "<span class=\"bad\">"@ + text + "</span>\n"@
    } else {
        text + "\n"@
    }
}

/// Some section lines in HTML.
pub open spec fn html_lines(lines: Seq<Seq<char>>) -> Seq<char>
    decreases lines.len(),
{
    if lines.len() == 0 {
        Seq::empty()
    } else {
        html_lines(lines.drop_last()) + html_line(lines.last())
    }
}

/// Some sections in HTML: a heading and a preformatted block each.
pub open spec fn html_sections(secs: Seq<SectionView>) -> Seq<char>
    decreases secs.len(),
{
    if secs.len() == 0 {
        Seq::empty()
    } else {
        html_sections(secs.drop_last()) + "<h3>"@ + escaped(secs.last().title) + "</h3>\n<pre>"@
            + html_lines(secs.last().lines) + "</pre>\n"@
    }
}

/// The facts under the heading of a target.
pub open spec fn html_meta(r: TargetReportView) -> Seq<Seq<char>> {
    let host = if r.host != r.target {
        seq!["host "@ + escaped(r.host)]
    } else {
        Seq::empty()
    };
    let status = match r.status {
        Some(s) => seq!["HTTP "@ + decimal(s as nat)],
        None => Seq::empty(),
    };
    host + status
}

/// The results of one target in HTML.
pub open spec fn html_target(r: TargetReportView) -> Seq<char> {
    let meta = if html_meta(r).len() > 0 {
        "<p class=\"meta\">"@ + joined(html_meta(r), " &middot; "@) + "</p>\n"@
    } else {
        Seq::empty()
    };
    "<h2>"@ + escaped(r.target) + "</h2>\n"@ + meta + html_sections(r.sections)
}

/// The results of some targets in HTML.
pub open spec fn html_targets(rs: Seq<TargetReportView>) -> Seq<char>
    decreases rs.len(),
{
    if rs.len() == 0 {
        Seq::empty()
    } else {
        html_targets(rs.drop_last()) + html_target(rs.last())
    }
}

/// A whole report in HTML.
pub open spec fn html_report(rs: Seq<TargetReportView>) -> Seq<char> {
    html_head(17) + "<h1>vantage report</h1>\n"@ + html_targets(rs) + "</body>\n</html>\n"@
}

fn html_one_line(line: &str) -> (o: String)
    ensures
        o@ == html_line(line@),
{
    let plain = strip_ansi(line);
    let from_mark = strip_front(plain.as_str(), CharSet::White);
    let kept = strip_back(plain.as_str(), CharSet::White);
    let text = esc(kept.as_str());
    if starts_with(from_mark.as_str(), "+ ") {
        cat3("<span class=\"good\">", text.as_str(), "</span>\n")
    } else if starts_with(from_mark.as_str(), "- ") {
        cat3("<span class=\"bad\">", text.as_str(), "</span>\n")
    } else {
        cat2(text.as_str(), "\n")
    }
}

fn html_section_lines(lines: &Vec<String>) -> (o: String)
    ensures
        o@ == html_lines(texts(lines@)),
{
    let mut o = String::new();
    let mut i: usize = 0;
    assert(texts(lines@).take(0) =~= Seq::empty());
    while i < lines.len()
        invariant
            i <= lines@.len(),
            o@ == html_lines(texts(lines@).take(i as int)),
        decreases lines@.len() - i,
    {
        let l = html_one_line(lines[i].as_str());
        o.append(l.as_str());
        assert(texts(lines@).take(i + 1).drop_last() =~= texts(lines@).take(i as int));
        i += 1;
    }
    assert(texts(lines@).take(i as int) =~= texts(lines@));
    o
}

fn html_all_sections(sections: &[Section]) -> (o: String)
    ensures
        o@ == html_sections(section_views(sections@)),
{
    let mut o = String::new();
    let ghost secs = section_views(sections@);
    let mut i: usize = 0;
    assert(secs.take(0) =~= Seq::empty());
    while i < sections.len()
        invariant
            i <= sections@.len(),
            secs == section_views(sections@),
            o@ == html_sections(secs.take(i as int)),
        decreases sections@.len() - i,
    {
        let sec = &sections[i];
        let title = esc(sec.title.as_str());
        let lines = html_section_lines(&sec.lines);
        o.append("<h3>");
        o.append(title.as_str());
        o.append("</h3>\n<pre>");
        o.append(lines.as_str());
        o.append("</pre>\n");
        assert(secs.take(i + 1).drop_last() =~= secs.take(i as int));
        i += 1;
    }
    assert(secs.take(i as int) =~= secs);
    o
}

fn html_one_target(r: &TargetReport) -> (o: String)
    ensures
        o@ == html_target(r@),
{
    let target = esc(r.target);
    let mut meta: Vec<String> = Vec::new();
    if !same(r.host, r.target) {
        let host = esc(r.host);
        meta.push(cat2("host ", host.as_str()));
    }
    if let Some(s) = r.status {
        let d = show(s as u64);
        meta.push(cat2("HTTP ", d.as_str()));
    }
    assert(texts(meta@) =~= html_meta(r@));
    let facts = if meta.len() > 0 {
        let all = join(&meta, " &middot; ");
        cat3("<p class=\"meta\">", all.as_str(), "</p>\n")
    } else {
        String::new()
    };
    let sections = html_all_sections(r.sections);
    let mut o = cat3("<h2>", target.as_str(), "</h2>\n");
    o.append(facts.as_str());
    o.append(sections.as_str());
    o
}

/// Renders the results as HTML.
pub fn html(results: &[TargetReport]) -> (r: String)
    ensures
        r@ == html_report(report_views(results@)),
{
    let mut o = String::new();
    let ghost rs = report_views(results@);
    let mut i: usize = 0;
    assert(rs.take(0) =~= Seq::empty());
    while i < results.len()
        invariant
            i <= results@.len(),
            rs == report_views(results@),
            o@ == html_targets(rs.take(i as int)),
        decreases results@.len() - i,
    {
        let t = html_one_target(&results[i]);
        o.append(t.as_str());
        assert(rs.take(i + 1).drop_last() =~= rs.take(i as int));
        i += 1;
    }
    assert(rs.take(i as int) =~= rs);
    let head = write_head();
    cat4(head.as_str(), "<h1>vantage report</h1>\n", o.as_str(), "</body>\n</html>\n")
}

/// A whole report in the given format.
pub open spec fn rendered(format: Format, rs: Seq<TargetReportView>) -> Seq<char> {
    match format {
        Format::Markdown => markdown_report(rs),
        Format::Html => html_report(rs),
    }
}

/// Renders the results in the given format.
pub fn render(format: &Format, results: &[TargetReport]) -> (r: String)
    ensures
        r@ == rendered(*format, report_views(results@)),
{
    match format {
        Format::Markdown => markdown(results),
        Format::Html => html(results),
    }
}

// ---------------------------------------------------------------------------
// Laws
// ---------------------------------------------------------------------------

/// Escaped text holds no character that opens or closes a tag.
pub proof fn law_escaped_text_holds_no_tag(s: Seq<char>)
    ensures
        forall|i: int| 0 <= i < escaped(s).len() ==> escaped(s)[i] != '<' && escaped(s)[i] != '>',
    decreases s.len(),
{
    if s.len() > 0 {
        law_escaped_text_holds_no_tag(s.drop_last());
        reveal_strlit("&amp;");
        reveal_strlit("&lt;");
        reveal_strlit("&gt;");
        let a = escaped(s.drop_last());
        let b = escaped_char(s.last());
        assert forall|i: int| 0 <= i < (a + b).len() implies (a + b)[i] != '<' && (a + b)[i]
            != '>' by {
            if i < a.len() {
                assert(a[i] != '<' && a[i] != '>');
            } else {
                assert((a + b)[i] == b[i - a.len()]);
            }
        }
    }
}

/// Stripped text holds no escape sequence, so stripping it again changes nothing.
pub proof fn law_stripping_twice_is_stripping_once(s: Seq<char>)
    ensures
        visible(visible(s)) == visible(s),
        !visible(s).contains(ESC),
{
    lemma_plain_is_visible(s);
}

proof fn lemma_plain_is_visible(s: Seq<char>)
    ensures
        visible(visible(s)) == visible(s),
        !in_escape(visible(s)),
        !visible(s).contains(ESC),
    decreases s.len(),
{
    if s.len() > 0 {
        lemma_plain_is_visible(s.drop_last());
        lemma_push(visible(s.drop_last()), s.last());
        let v = visible(s.drop_last());
        if visible(s) != v {
            assert forall|i: int| 0 <= i < v.push(s.last()).len() implies v.push(s.last())[i]
                != ESC by {
                if i < v.len() {
                    assert(v[i] != ESC);
                }
            }
        }
    }
}

/// Whether two rows of lines look the same once their escape sequences are gone.
pub open spec fn look_the_same(a: Seq<Seq<char>>, b: Seq<Seq<char>>) -> bool {
    a.len() == b.len() && forall|i: int|
        0 <= i < a.len() ==> visible(#[trigger] a[i]) == visible(b[i])
}

proof fn lemma_lines_alike(a: Seq<Seq<char>>, b: Seq<Seq<char>>)
    requires
        look_the_same(a, b),
    ensures
        markdown_lines(a) == markdown_lines(b),
        html_lines(a) == html_lines(b),
    decreases a.len(),
{
    if a.len() > 0 {
        let n = a.len() - 1;
        assert(visible(a[n]) == visible(b[n]));
        assert forall|i: int| 0 <= i < n implies visible(#[trigger] a.drop_last()[i]) == visible(
            b.drop_last()[i],
        ) by {
            assert(visible(a[i]) == visible(b[i]));
        }
        lemma_lines_alike(a.drop_last(), b.drop_last());
    }
}

/// Whether two rows of sections have the same titles, and lines that look the
/// same.
pub open spec fn sections_alike(a: Seq<SectionView>, b: Seq<SectionView>) -> bool {
    a.len() == b.len() && forall|i: int|
        0 <= i < a.len() ==> (#[trigger] a[i]).title == b[i].title && look_the_same(
            a[i].lines,
            b[i].lines,
        )
}

/// Whether two rows of results differ in the styling of their lines alone.
pub open spec fn results_alike(a: Seq<TargetReportView>, b: Seq<TargetReportView>) -> bool {
    a.len() == b.len() && forall|i: int|
        0 <= i < a.len() ==> (#[trigger] a[i]).target == b[i].target && a[i].host == b[i].host
            && a[i].status == b[i].status && sections_alike(a[i].sections, b[i].sections)
}

proof fn lemma_sections_alike(a: Seq<SectionView>, b: Seq<SectionView>)
    requires
        sections_alike(a, b),
    ensures
        markdown_sections(a) == markdown_sections(b),
        html_sections(a) == html_sections(b),
    decreases a.len(),
{
    if a.len() > 0 {
        let n = a.len() - 1;
        let x = a.drop_last();
        let y = b.drop_last();
        assert forall|i: int| 0 <= i < n implies (#[trigger] x[i]).title == y[i].title
            && look_the_same(x[i].lines, y[i].lines) by {
            assert(a[i].title == b[i].title && look_the_same(a[i].lines, b[i].lines));
        }
        lemma_sections_alike(x, y);
        assert(a[n].title == b[n].title);
        lemma_lines_alike(a[n].lines, b[n].lines);
    }
}

proof fn lemma_targets_alike(a: Seq<TargetReportView>, b: Seq<TargetReportView>)
    requires
        results_alike(a, b),
    ensures
        markdown_targets(a) == markdown_targets(b),
        html_targets(a) == html_targets(b),
    decreases a.len(),
{
    if a.len() > 0 {
        let n = a.len() - 1;
        let x = a.drop_last();
        let y = b.drop_last();
        assert forall|i: int| 0 <= i < n implies (#[trigger] x[i]).target == y[i].target
            && x[i].host == y[i].host && x[i].status == y[i].status && sections_alike(
            x[i].sections,
            y[i].sections,
        ) by {
            assert(a[i].target == b[i].target);
        }
        lemma_targets_alike(x, y);
        assert(a[n].target == b[n].target);
        lemma_sections_alike(a[n].sections, b[n].sections);
    }
}

/// A report shows only what is visible: results that differ in the styling of
/// their lines alone give the same report, in either format.
pub proof fn law_reports_ignore_styling(
    format: Format,
    a: Seq<TargetReportView>,
    b: Seq<TargetReportView>,
)
    requires
        results_alike(a, b),
    ensures
        rendered(format, a) == rendered(format, b),
{
    lemma_targets_alike(a, b);
}

/// Some sections with their lines stripped of escape sequences.
pub open spec fn stripped_sections(ss: Seq<SectionView>) -> Seq<SectionView> {
    Seq::new(
        ss.len(),
        |i: int|
            SectionView {
                title: ss[i].title,
                lines: Seq::new(ss[i].lines.len(), |j: int| visible(ss[i].lines[j])),
            },
    )
}

/// Some results with their lines stripped of escape sequences.
pub open spec fn stripped(rs: Seq<TargetReportView>) -> Seq<TargetReportView> {
    Seq::new(
        rs.len(),
        |i: int| TargetReportView { sections: stripped_sections(rs[i].sections), ..rs[i] },
    )
}

/// Stripping every line of the results first makes no difference to a report.
pub proof fn law_reports_are_stripped(format: Format, rs: Seq<TargetReportView>)
    ensures
        rendered(format, stripped(rs)) == rendered(format, rs),
{
    let s = stripped(rs);
    assert forall|i: int| 0 <= i < s.len() implies (#[trigger] s[i]).target == rs[i].target
        && s[i].host == rs[i].host && s[i].status == rs[i].status && sections_alike(
        s[i].sections,
        rs[i].sections,
    ) by {
        let a = s[i].sections;
        let b = rs[i].sections;
        assert forall|j: int| 0 <= j < a.len() implies (#[trigger] a[j]).title == b[j].title
            && look_the_same(a[j].lines, b[j].lines) by {
            assert forall|k: int| 0 <= k < a[j].lines.len() implies visible(
                #[trigger] a[j].lines[k],
            ) == visible(b[j].lines[k]) by {
                law_stripping_twice_is_stripping_once(b[j].lines[k]);
            }
        }
    }
    law_reports_ignore_styling(format, s, rs);
}

/// Whether a text holds no escape character.
pub open spec fn escape_free(s: Seq<char>) -> bool {
    forall|i: int| 0 <= i < s.len() ==> #[trigger] s[i] != ESC
}

/// Whether the names in some results hold no escape character.
pub open spec fn plain_names(rs: Seq<TargetReportView>) -> bool {
    forall|i: int|
        0 <= i < rs.len() ==> escape_free((#[trigger] rs[i]).target) && escape_free(rs[i].host)
            && plain_titles(rs[i].sections)
}

/// Whether the titles of some sections hold no escape character.
pub open spec fn plain_titles(ss: Seq<SectionView>) -> bool {
    forall|i: int| 0 <= i < ss.len() ==> escape_free((#[trigger] ss[i]).title)
}

proof fn lemma_free_concat(a: Seq<char>, b: Seq<char>)
    requires
        escape_free(a),
        escape_free(b),
    ensures
        escape_free(a + b),
{
    assert forall|i: int| 0 <= i < (a + b).len() implies #[trigger] (a + b)[i] != ESC by {
        if i < a.len() {
            assert((a + b)[i] == a[i]);
        } else {
            assert((a + b)[i] == b[i - a.len()]);
        }
    }
}

proof fn lemma_free_visible(s: Seq<char>)
    ensures
        escape_free(visible(s)),
{
    law_stripping_twice_is_stripping_once(s);
    assert forall|i: int| 0 <= i < visible(s).len() implies #[trigger] visible(s)[i] != ESC by {
        assert(visible(s).contains(visible(s)[i]));
    }
}

proof fn lemma_free_trimmed(s: Seq<char>)
    requires
        escape_free(s),
    ensures
        escape_free(right_trimmed(s)),
    decreases s.len(),
{
    if s.len() > 0 && CharSet::White.has(s.last()) {
        assert forall|i: int| 0 <= i < s.drop_last().len() implies #[trigger] s.drop_last()[i]
            != ESC by {
            assert(s[i] != ESC);
        }
        lemma_free_trimmed(s.drop_last());
    }
}

proof fn lemma_free_decimal(n: nat)
    ensures
        escape_free(decimal(n)),
    decreases n,
{
    if n >= 10 {
        lemma_free_decimal(n / 10);
    }
}

proof fn lemma_free_escaped(s: Seq<char>)
    requires
        escape_free(s),
    ensures
        escape_free(escaped(s)),
    decreases s.len(),
{
    if s.len() > 0 {
        assert forall|i: int| 0 <= i < s.drop_last().len() implies #[trigger] s.drop_last()[i]
            != ESC by {
            assert(s[i] != ESC);
        }
        lemma_free_escaped(s.drop_last());
        reveal_strlit("&amp;");
        reveal_strlit("&lt;");
        reveal_strlit("&gt;");
        assert(s[s.len() - 1] != ESC);
        assert(escape_free(escaped_char(s.last())));
        lemma_free_concat(escaped(s.drop_last()), escaped_char(s.last()));
    }
}

proof fn lemma_free_head_line(i: int)
    requires
        0 <= i < 17,
    ensures
        escape_free(HTML_HEAD@[i]@),
{
    if i == 0 {
        reveal_strlit("<!doctype html>");
    } else if i == 1 {
        reveal_strlit("<html lang=\"en\">");
    } else if i == 2 {
        reveal_strlit("<head>");
    } else if i == 3 {
        reveal_strlit("<meta charset=\"utf-8\">");
    } else if i == 4 {
        reveal_strlit("<meta name=\"viewport\" content=\"width=device-width, initial-scale=1\">");
    } else if i == 5 {
        reveal_strlit("<title>vantage report</title>");
    } else if i == 6 {
        reveal_strlit("<style>");
    } else if i == 7 {
        reveal_strlit(":root{color-scheme:light dark}");
    } else if i == 8 {
        reveal_strlit("body{font:14px/1.5 system-ui,sans-serif;max-width:60rem;margin:2rem auto;padding:0 1rem}");
    } else if i == 9 {
        reveal_strlit("h1{font-size:1.5rem}h2{margin-top:2.5rem;border-bottom:1px solid #8886;padding-bottom:.3rem}");
    } else if i == 10 {
        reveal_strlit("h3{margin:1.5rem 0 .5rem;font-size:1rem}");
    } else if i == 11 {
        reveal_strlit(".meta{color:#888}");
    } else if i == 12 {
        reveal_strlit("pre{background:#8881;border-radius:6px;padding:.8rem 1rem;overflow-x:auto;white-space:pre-wrap;word-break:break-word}");
    } else if i == 13 {
        reveal_strlit(".good{color:#1a7f37}.bad{color:#cf222e}.note{color:#888}");
    } else if i == 14 {
        reveal_strlit("</style>");
    } else if i == 15 {
        reveal_strlit("</head>");
    } else if i == 16 {
        reveal_strlit("<body>");
    }
}

proof fn lemma_free_head(n: nat)
    requires
        n <= 17,
    ensures
        escape_free(html_head(n)),
    decreases n,
{
    if n > 0 {
        reveal_strlit("\n");
        lemma_free_head((n - 1) as nat);
        lemma_free_head_line(n - 1);
        lemma_free_concat(html_head((n - 1) as nat), HTML_HEAD@[n - 1]@);
        lemma_free_concat(html_head((n - 1) as nat) + HTML_HEAD@[n - 1]@, "\n"@);
    }
}

proof fn lemma_free_lines(ls: Seq<Seq<char>>)
    ensures
        escape_free(markdown_lines(ls)),
        escape_free(html_lines(ls)),
    decreases ls.len(),
{
    if ls.len() > 0 {
        reveal_strlit("\n");
        reveal_strlit("<span class=\"good\">");
        reveal_strlit("<span class=\"bad\">");
        reveal_strlit("</span>\n");
        let plain = visible(ls.last());
        let kept = right_trimmed(plain);
        let text = escaped(kept);
        let m = markdown_lines(ls.drop_last());
        lemma_free_lines(ls.drop_last());
        lemma_free_visible(ls.last());
        lemma_free_trimmed(plain);
        lemma_free_escaped(kept);
        lemma_free_concat(m, kept);
        lemma_free_concat(m + kept, "\n"@);
        lemma_free_concat("<span class=\"good\">"@, text);
        lemma_free_concat("<span class=\"good\">"@ + text, "</span>\n"@);
        lemma_free_concat("<span class=\"bad\">"@, text);
        lemma_free_concat("<span class=\"bad\">"@ + text, "</span>\n"@);
        lemma_free_concat(text, "\n"@);
        lemma_free_concat(html_lines(ls.drop_last()), html_line(ls.last()));
    }
}

proof fn lemma_free_sections(ss: Seq<SectionView>)
    requires
        plain_titles(ss),
    ensures
        escape_free(markdown_sections(ss)),
        escape_free(html_sections(ss)),
    decreases ss.len(),
{
    if ss.len() > 0 {
        reveal_strlit("### ");
        reveal_strlit("\n\n```\n");
        reveal_strlit("```\n\n");
        reveal_strlit("<h3>");
        reveal_strlit("</h3>\n<pre>");
        reveal_strlit("</pre>\n");
        let prev = ss.drop_last();
        assert forall|i: int| 0 <= i < prev.len() implies escape_free((#[trigger] prev[i]).title) by {
            assert(escape_free(ss[i].title));
        }
        lemma_free_sections(prev);
        let t = ss.last().title;
        assert(escape_free(ss[ss.len() - 1].title));
        let ls = ss.last().lines;
        lemma_free_lines(ls);
        lemma_free_escaped(t);
        let a = markdown_sections(prev);
        lemma_free_concat(a, "### "@);
        lemma_free_concat(a + "### "@, t);
        lemma_free_concat(a + "### "@ + t, "\n\n```\n"@);
        lemma_free_concat(a + "### "@ + t + "\n\n```\n"@, markdown_lines(ls));
        lemma_free_concat(a + "### "@ + t + "\n\n```\n"@ + markdown_lines(ls), "```\n\n"@);
        let b = html_sections(prev);
        let e = escaped(t);
        lemma_free_concat(b, "<h3>"@);
        lemma_free_concat(b + "<h3>"@, e);
        lemma_free_concat(b + "<h3>"@ + e, "</h3>\n<pre>"@);
        lemma_free_concat(b + "<h3>"@ + e + "</h3>\n<pre>"@, html_lines(ls));
        lemma_free_concat(b + "<h3>"@ + e + "</h3>\n<pre>"@ + html_lines(ls), "</pre>\n"@);
    }
}

proof fn lemma_free_markdown_target(r: TargetReportView)
    requires
        escape_free(r.target),
        escape_free(r.host),
        plain_titles(r.sections),
    ensures
        escape_free(markdown_target(r)),
{
    reveal_strlit("## ");
    reveal_strlit("\n\n");
    reveal_strlit("Host: `");
    reveal_strlit("`\n\n");
    reveal_strlit("HTTP ");
    lemma_free_sections(r.sections);
    let host = if r.host != r.target {
        "Host: `"@ + r.host + "`\n\n"@
    } else {
        Seq::empty()
    };
    let status = match r.status {
        Some(s) => "HTTP "@ + decimal(s as nat) + "\n\n"@,
        None => Seq::empty(),
    };
    lemma_free_concat("Host: `"@, r.host);
    lemma_free_concat("Host: `"@ + r.host, "`\n\n"@);
    if r.status is Some {
        let d = decimal(r.status->0 as nat);
        lemma_free_decimal(r.status->0 as nat);
        lemma_free_concat("HTTP "@, d);
        lemma_free_concat("HTTP "@ + d, "\n\n"@);
    }
    let top = "## "@ + r.target + "\n\n"@;
    lemma_free_concat("## "@, r.target);
    lemma_free_concat("## "@ + r.target, "\n\n"@);
    lemma_free_concat(top, host);
    lemma_free_concat(top + host, status);
    lemma_free_concat(top + host + status, markdown_sections(r.sections));
}

proof fn lemma_free_html_target(r: TargetReportView)
    requires
        escape_free(r.target),
        escape_free(r.host),
        plain_titles(r.sections),
    ensures
        escape_free(html_target(r)),
{
    reveal_strlit("<h2>");
    reveal_strlit("</h2>\n");
    reveal_strlit("host ");
    reveal_strlit("HTTP ");
    reveal_strlit("<p class=\"meta\">");
    reveal_strlit(" &middot; ");
    reveal_strlit("</p>\n");
    lemma_free_sections(r.sections);
    lemma_free_escaped(r.target);
    lemma_free_escaped(r.host);
    lemma_free_concat("host "@, escaped(r.host));
    if r.status is Some {
        lemma_free_decimal(r.status->0 as nat);
        lemma_free_concat("HTTP "@, decimal(r.status->0 as nat));
    }
    let m = html_meta(r);
    assert(forall|i: int| 0 <= i < m.len() ==> escape_free(#[trigger] m[i]));
    lemma_free_joined(m, " &middot; "@);
    let j = joined(m, " &middot; "@);
    lemma_free_concat("<p class=\"meta\">"@, j);
    lemma_free_concat("<p class=\"meta\">"@ + j, "</p>\n"@);
    let meta = if m.len() > 0 {
        "<p class=\"meta\">"@ + j + "</p>\n"@
    } else {
        Seq::empty()
    };
    let top = "<h2>"@ + escaped(r.target) + "</h2>\n"@;
    lemma_free_concat("<h2>"@, escaped(r.target));
    lemma_free_concat("<h2>"@ + escaped(r.target), "</h2>\n"@);
    lemma_free_concat(top, meta);
    lemma_free_concat(top + meta, html_sections(r.sections));
}

proof fn lemma_free_joined(p: Seq<Seq<char>>, sep: Seq<char>)
    requires
        escape_free(sep),
        forall|i: int| 0 <= i < p.len() ==> escape_free(#[trigger] p[i]),
    ensures
        escape_free(joined(p, sep)),
    decreases p.len(),
{
    if p.len() > 1 {
        let prev = p.drop_last();
        assert forall|i: int| 0 <= i < prev.len() implies escape_free(#[trigger] prev[i]) by {
            assert(escape_free(p[i]));
        }
        lemma_free_joined(prev, sep);
        assert(escape_free(p[p.len() - 1]));
        lemma_free_concat(joined(prev, sep), sep);
        lemma_free_concat(joined(prev, sep) + sep, p.last());
    }
}

proof fn lemma_free_targets(rs: Seq<TargetReportView>)
    requires
        plain_names(rs),
    ensures
        escape_free(markdown_targets(rs)),
        escape_free(html_targets(rs)),
    decreases rs.len(),
{
    if rs.len() > 0 {
        let prev = rs.drop_last();
        assert forall|i: int| 0 <= i < prev.len() implies escape_free((#[trigger] prev[i]).target)
            && escape_free(prev[i].host) && plain_titles(prev[i].sections) by {
            assert(rs[i] == prev[i]);
        }
        lemma_free_targets(prev);
        assert(rs[rs.len() - 1] == rs.last());
        lemma_free_markdown_target(rs.last());
        lemma_free_html_target(rs.last());
        lemma_free_concat(markdown_targets(prev), markdown_target(rs.last()));
        lemma_free_concat(html_targets(prev), html_target(rs.last()));
    }
}

/// A report holds no escape character, in either format, unless a target, a host
/// or a title does.
pub proof fn law_reports_hold_no_escape(format: Format, rs: Seq<TargetReportView>)
    requires
        plain_names(rs),
    ensures
        escape_free(rendered(format, rs)),
{
    reveal_strlit("# vantage report\n\n");
    reveal_strlit("<h1>vantage report</h1>\n");
    reveal_strlit("</body>\n</html>\n");
    lemma_free_targets(rs);
    lemma_free_head(17);
    lemma_free_concat("# vantage report\n\n"@, markdown_targets(rs));
    let top = html_head(17) + "<h1>vantage report</h1>\n"@;
    lemma_free_concat(html_head(17), "<h1>vantage report</h1>\n"@);
    lemma_free_concat(top, html_targets(rs));
    lemma_free_concat(top + html_targets(rs), "</body>\n</html>\n"@);
}

/// A report is HTML exactly when its path ends in `.html` or `.htm`, in whatever
/// case.
pub proof fn law_the_extension_decides(path: Seq<char>)
    ensures
        format_of(path) is Html <==> ends(lowered(path), ".html"@) || ends(lowered(path), ".htm"@),
{
}

/// Escaping writes the three characters of markup by name, keeps every other
/// one, and works character by character.
pub proof fn law_escaping(s: Seq<char>, c: char)
    ensures
        escaped(Seq::<char>::empty()) == Seq::<char>::empty(),
        escaped(s.push('&')) == escaped(s) + "&amp;"@,
        escaped(s.push('<')) == escaped(s) + "&lt;"@,
        escaped(s.push('>')) == escaped(s) + "&gt;"@,
        c != '&' && c != '<' && c != '>' ==> escaped(s.push(c)) == escaped(s).push(c),
{
    assert(s.push('&').drop_last() =~= s);
    assert(s.push('<').drop_last() =~= s);
    assert(s.push('>').drop_last() =~= s);
    assert(s.push(c).drop_last() =~= s);
    assert(escaped(s) + seq![c] =~= escaped(s).push(c));
}

/// Each line of a section adds its visible text to the block in Markdown,
/// without the white space at its end.
pub proof fn law_markdown_keeps_every_line(ls: Seq<Seq<char>>, l: Seq<char>)
    ensures
        markdown_lines(Seq::<Seq<char>>::empty()) == Seq::<char>::empty(),
        markdown_lines(ls.push(l)) == markdown_lines(ls) + strip_end(visible(l), CharSet::White)
            + "\n"@,
{
    assert(ls.push(l).drop_last() =~= ls);
}

/// Each section adds its heading and its block behind those of the sections
/// before it.
pub proof fn law_markdown_keeps_every_section(ss: Seq<SectionView>, s: SectionView)
    ensures
        markdown_sections(Seq::<SectionView>::empty()) == Seq::<char>::empty(),
        markdown_sections(ss.push(s)) == markdown_sections(ss) + ("### "@ + s.title + "\n\n```\n"@
            + markdown_lines(s.lines) + "```\n\n"@),
{
    assert(ss.push(s).drop_last() =~= ss);
    assert(markdown_sections(ss.push(s)) =~= markdown_sections(ss) + ("### "@ + s.title
        + "\n\n```\n"@ + markdown_lines(s.lines) + "```\n\n"@));
}

/// Each target adds its heading, its host where that is not the target itself,
/// its status where there is one, and its sections behind the targets before it.
pub proof fn law_markdown_keeps_every_target(rs: Seq<TargetReportView>, r: TargetReportView)
    ensures
        markdown_report(Seq::<TargetReportView>::empty()) == "# vantage report\n\n"@,
        markdown_report(rs.push(r)) == markdown_report(rs) + ("## "@ + r.target + "\n\n"@ + (
        if r.host == r.target {
            Seq::empty()
        } else {
            "Host: `"@ + r.host + "`\n\n"@
        }) + (match r.status {
            Some(n) => "HTTP "@ + decimal(n as nat) + "\n\n"@,
            None => Seq::empty(),
        }) + markdown_sections(r.sections)),
{
    assert(rs.push(r).drop_last() =~= rs);
    let e = Seq::<TargetReportView>::empty();
    assert("# vantage report\n\n"@ + markdown_targets(e) =~= "# vantage report\n\n"@);
    assert(markdown_report(rs.push(r)) =~= markdown_report(rs) + markdown_target(r));
}

/// Each line of a section adds its visible text, escaped and without the white
/// space at its end, to the block in HTML: as good where its mark is `+`, as bad
/// where it is `-`, and plain otherwise.
pub proof fn law_html_keeps_every_line(ls: Seq<Seq<char>>, l: Seq<char>)
    ensures
        ({
            let text = escaped(strip_end(visible(l), CharSet::White));
            let marked = strip_start(visible(l), CharSet::White);
            let all = html_lines(ls.push(l));
            &&& html_lines(Seq::<Seq<char>>::empty()) == Seq::<char>::empty()
            &&& begins(marked, "+ "@) ==> all == html_lines(ls) + ("<span class=\"good\">"@ + text
                + "</span>\n"@)
            &&& begins(marked, "- "@) ==> all == html_lines(ls) + ("<span class=\"bad\">"@ + text
                + "</span>\n"@)
            &&& !begins(marked, "+ "@) && !begins(marked, "- "@) ==> all == html_lines(ls) + (text
                + "\n"@)
        }),
{
    reveal_strlit("+ ");
    reveal_strlit("- ");
    let marked = strip_start(visible(l), CharSet::White);
    if begins(marked, "+ "@) {
        assert(marked.take(2)[0] == '+');
    }
    if begins(marked, "- "@) {
        assert(marked.take(2)[0] == '-');
    }
    assert(ls.push(l).drop_last() =~= ls);
}

/// Each section adds its heading and its block behind those of the sections
/// before it.
pub proof fn law_html_keeps_every_section(ss: Seq<SectionView>, s: SectionView)
    ensures
        html_sections(Seq::<SectionView>::empty()) == Seq::<char>::empty(),
        html_sections(ss.push(s)) == html_sections(ss) + ("<h3>"@ + escaped(s.title)
            + "</h3>\n<pre>"@ + html_lines(s.lines) + "</pre>\n"@),
{
    assert(ss.push(s).drop_last() =~= ss);
    assert(html_sections(ss.push(s)) =~= html_sections(ss) + ("<h3>"@ + escaped(s.title)
        + "</h3>\n<pre>"@ + html_lines(s.lines) + "</pre>\n"@));
}

/// Each target adds its heading, the facts known of it, and its sections behind
/// the targets before it; the frame of the document stays the same.
pub proof fn law_html_keeps_every_target(rs: Seq<TargetReportView>, r: TargetReportView)
    ensures
        ({
            let top = html_report(Seq::<TargetReportView>::empty());
            let end = "</body>\n</html>\n"@;
            let facts = match r.status {
                Some(n) => if r.host == r.target {
                    "<p class=\"meta\">"@ + ("HTTP "@ + decimal(n as nat)) + "</p>\n"@
                } else {
                    "<p class=\"meta\">"@ + ("host "@ + escaped(r.host) + " &middot; "@ + ("HTTP "@
                        + decimal(n as nat))) + "</p>\n"@
                },
                None => if r.host == r.target {
                    Seq::empty()
                } else {
                    "<p class=\"meta\">"@ + ("host "@ + escaped(r.host)) + "</p>\n"@
                },
            };
            &&& ends(top, "<h1>vantage report</h1>\n"@ + end)
            &&& begins(top, "<!doctype html>\n"@)
            &&& html_report(rs) == top.take(top.len() - end.len()) + html_targets(rs) + end
            &&& html_targets(Seq::<TargetReportView>::empty()) == Seq::<char>::empty()
            &&& html_targets(rs.push(r)) == html_targets(rs) + ("<h2>"@ + escaped(r.target)
                + "</h2>\n"@ + facts + html_sections(r.sections))
        }),
{
    let e = Seq::<TargetReportView>::empty();
    let top = html_report(e);
    let end = "</body>\n</html>\n"@;
    let h = html_head(17) + "<h1>vantage report</h1>\n"@;
    assert(top =~= h + end);
    assert(top.take(top.len() - end.len()) =~= h);
    let tail = "<h1>vantage report</h1>\n"@ + end;
    assert(top.skip(top.len() - tail.len()) =~= tail);
    lemma_head_begins(17);
    let d = "<!doctype html>\n"@;
    assert(top.take(d.len() as int) =~= html_head(17).take(d.len() as int));
    assert(rs.push(r).drop_last() =~= rs);
    let m = html_meta(r);
    let x = "host "@ + escaped(r.host);
    match r.status {
        Some(n) => {
            let y = "HTTP "@ + decimal(n as nat);
            law_joining(seq![x], y, " &middot; "@);
            law_joining(seq![x], x, " &middot; "@);
            if r.host == r.target {
                assert(m =~= seq![y]);
            } else {
                assert(m =~= seq![x].push(y));
            }
        },
        None => {
            if r.host == r.target {
                assert(m =~= Seq::empty());
            } else {
                assert(m =~= seq![x]);
            }
        },
    }
}

proof fn lemma_head_begins(n: nat)
    requires
        1 <= n <= 17,
    ensures
        begins(html_head(n), "<!doctype html>\n"@),
    decreases n,
{
    reveal_strlit("<!doctype html>\n");
    reveal_strlit("<!doctype html>");
    reveal_strlit("\n");
    let d = "<!doctype html>\n"@;
    if n == 1 {
        assert(html_head(0) =~= Seq::empty());
        assert(html_head(1) =~= d);
        assert(d.take(d.len() as int) =~= d);
    } else {
        lemma_head_begins((n - 1) as nat);
        assert(html_head(n).take(d.len() as int) =~= html_head((n - 1) as nat).take(
            d.len() as int,
        ));
    }
}

proof fn lemma_section_inside(ss: Seq<SectionView>, i: int)
    requires
        0 <= i < ss.len(),
    ensures
        includes(
            markdown_sections(ss),
            "### "@ + ss[i].title + "\n\n```\n"@ + markdown_lines(ss[i].lines) + "```\n\n"@,
        ),
        includes(
            html_sections(ss),
            "<h3>"@ + escaped(ss[i].title) + "</h3>\n<pre>"@ + html_lines(ss[i].lines)
                + "</pre>\n"@,
        ),
    decreases ss.len(),
{
    let prev = ss.drop_last();
    let s = ss.last();
    assert(prev.push(s) =~= ss);
    law_markdown_keeps_every_section(prev, s);
    law_html_keeps_every_section(prev, s);
    let x = "### "@ + s.title + "\n\n```\n"@ + markdown_lines(s.lines) + "```\n\n"@;
    let y = "<h3>"@ + escaped(s.title) + "</h3>\n<pre>"@ + html_lines(s.lines) + "</pre>\n"@;
    let e = Seq::<char>::empty();
    if i == ss.len() - 1 {
        lemma_includes_itself(x);
        lemma_includes_itself(y);
        lemma_includes_around(markdown_sections(prev), x, e, x);
        lemma_includes_around(html_sections(prev), y, e, y);
    } else {
        lemma_section_inside(prev, i);
        assert(prev[i] == ss[i]);
        let t = ss[i];
        lemma_includes_around(
            e,
            markdown_sections(prev),
            x,
            "### "@ + t.title + "\n\n```\n"@ + markdown_lines(t.lines) + "```\n\n"@,
        );
        lemma_includes_around(
            e,
            html_sections(prev),
            y,
            "<h3>"@ + escaped(t.title) + "</h3>\n<pre>"@ + html_lines(t.lines) + "</pre>\n"@,
        );
    }
}

proof fn lemma_inside_targets(rs: Seq<TargetReportView>, i: int, x: Seq<char>)
    requires
        0 <= i < rs.len(),
    ensures
        includes(markdown_sections(rs[i].sections), x) ==> includes(markdown_targets(rs), x),
        includes(html_sections(rs[i].sections), x) ==> includes(html_targets(rs), x),
    decreases rs.len(),
{
    let prev = rs.drop_last();
    let r = rs.last();
    let e = Seq::<char>::empty();
    if i == rs.len() - 1 {
        let m = markdown_sections(r.sections);
        let t = markdown_target(r);
        let top = t.take(t.len() - m.len());
        assert(t =~= top + m);
        if includes(m, x) {
            lemma_includes_around(top, m, e, x);
            lemma_includes_around(markdown_targets(prev), t, e, x);
        }
        let h = html_sections(r.sections);
        let u = html_target(r);
        let up = u.take(u.len() - h.len());
        assert(u =~= up + h);
        if includes(h, x) {
            lemma_includes_around(up, h, e, x);
            lemma_includes_around(html_targets(prev), u, e, x);
        }
    } else {
        lemma_inside_targets(prev, i, x);
        assert(prev[i] == rs[i]);
        if includes(markdown_targets(prev), x) {
            lemma_includes_around(e, markdown_targets(prev), markdown_target(r), x);
        }
        if includes(html_targets(prev), x) {
            lemma_includes_around(e, html_targets(prev), html_target(r), x);
        }
    }
}

/// Every section of every target stands in the report, with its title and all
/// its lines, in either format.
pub proof fn law_reports_hold_every_section(rs: Seq<TargetReportView>, i: int, j: int)
    requires
        0 <= i < rs.len(),
        0 <= j < rs[i].sections.len(),
    ensures
        includes(
            rendered(Format::Markdown, rs),
            "### "@ + rs[i].sections[j].title + "\n\n```\n"@ + markdown_lines(
                rs[i].sections[j].lines,
            ) + "```\n\n"@,
        ),
        includes(
            rendered(Format::Html, rs),
            "<h3>"@ + escaped(rs[i].sections[j].title) + "</h3>\n<pre>"@ + html_lines(
                rs[i].sections[j].lines,
            ) + "</pre>\n"@,
        ),
{
    let s = rs[i].sections[j];
    let x = "### "@ + s.title + "\n\n```\n"@ + markdown_lines(s.lines) + "```\n\n"@;
    let y = "<h3>"@ + escaped(s.title) + "</h3>\n<pre>"@ + html_lines(s.lines) + "</pre>\n"@;
    let e = Seq::<char>::empty();
    lemma_section_inside(rs[i].sections, j);
    lemma_inside_targets(rs, i, x);
    lemma_inside_targets(rs, i, y);
    lemma_includes_around("# vantage report\n\n"@, markdown_targets(rs), e, x);
    lemma_includes_around(
        html_head(17) + "<h1>vantage report</h1>\n"@,
        html_targets(rs),
        "</body>\n</html>\n"@,
        y,
    );
}

} // verus!
