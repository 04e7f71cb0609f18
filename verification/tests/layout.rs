use vantage::order::{is_before, sort_items};
use vantage::report::{render, strip_ansi, Format, TargetReport};
use vantage::section::{print_section, Section};
use vantage::spin::{erase, frame};
use vantage::style::{bold, cyan, dim, green, magenta, red, rgb, set_color, Style};
use vantage::text::{join, split, split_lines, split_words, to_lowercase, CharSet};
use vantage::term::{display_width, width, MAX, MIN};
use vantage::wrap::wrap;

const PLAIN: Style = Style { color: false };
const COLOR: Style = Style { color: true };

#[test]
fn display_width_ignores_ansi() {
    assert_eq!(display_width("\x1b[2mhello\x1b[0m"), 5);
    assert_eq!(display_width("plain"), 5);
    assert_eq!(display_width("\x1b[38;2;1;2;3mX\x1b[0m"), 1);
}

#[test]
fn short_line_is_untouched() {
    assert_eq!(wrap("  a short line", 64), vec!["  a short line"]);
}

#[test]
fn breaks_at_semicolons_and_keeps_them() {
    let out = wrap("  ARR=abcdef;Path=/;HttpOnly;Secure;Domain=example.net", 24);
    assert!(out.len() > 1, "should wrap: {out:?}");
    assert!(out.iter().all(|l| display_width(l) <= 24), "{out:?}");
    let joined: String = out.iter().map(|l| l.trim()).collect::<Vec<_>>().join("");
    assert!(joined.contains("Domain=example.net"), "{joined}");
    assert!(out[0].trim_end().ends_with(';'), "{out:?}");
}

#[test]
fn hard_split_keeps_the_first_piece_at_the_entry_indent() {
    let line = format!("  ARRAffinity={};Path=/;Secure", "a".repeat(80));
    let out = wrap(&line, 40);
    assert!(out[0].starts_with("  ARRAffinity="), "first line: {:?}", out[0]);
    assert!(!out[0].starts_with("      "), "first line hung: {:?}", out[0]);
    assert!(out[1].starts_with("      "), "cont not hung: {:?}", out[1]);
    assert!(out.iter().all(|l| display_width(l) <= 40), "{out:?}");
}

#[test]
fn continuation_is_indented_under_the_start() {
    let out = wrap("  ARR=abcdef;Path=/;HttpOnly;Secure;Domain=example.net", 24);
    assert!(out[1].starts_with("      "), "cont not hung: {out:?}");
}

#[test]
fn an_unbreakable_run_is_hard_split_not_overflowed() {
    let long = format!("  {}", "x".repeat(200));
    let out = wrap(&long, 40);
    assert!(out.iter().all(|l| display_width(l) <= 40), "{out:?}");
    let chars: usize = out.iter().map(|l| l.trim().len()).sum();
    assert_eq!(chars, 200, "no characters lost");
}

#[test]
fn ansi_span_is_never_split_mid_escape() {
    let styled = format!("  \x1b[2m{}\x1b[0m", "ab;".repeat(40));
    let out = wrap(&styled, 30);
    for l in &out {
        let esc = l.matches('\x1b').count();
        let terminators = l.matches('m').count();
        assert!(terminators >= esc, "escape split across a line: {l:?}");
    }
}

#[test]
fn width_is_clamped() {
    assert!((MIN..=MAX).contains(&width(None)));
    assert!((MIN..=MAX).contains(&width(Some(1))));
    assert!((MIN..=MAX).contains(&width(Some(1000))));
    assert_eq!(width(Some(64)), 64);
    assert_eq!(width(None), 80);
    assert_eq!(width(Some(0)), 40);
    assert_eq!(width(Some(65535)), 100);
}

#[test]
fn wrapped_lines_are_exact() {
    assert_eq!(
        wrap("  one two three four five", 12),
        vec!["  one two", "  three", "  four five"]
    );
    assert_eq!(
        wrap("  one two three four five", 20),
        vec!["  one two three", "      four five"]
    );
    assert_eq!(wrap("", 10), vec![""]);
    assert_eq!(wrap("a, b; c", 3), vec!["a,", "b;", "c"]);
}

#[test]
fn styles_paint_only_in_color() {
    let mut st = PLAIN;
    assert_eq!(bold(st, "x"), "x");
    assert_eq!(rgb(st, 1, 2, 3, "x"), "x");
    set_color(&mut st, true);
    assert_eq!(st, COLOR);
    assert_eq!(bold(st, "x"), "\x1b[1mx\x1b[0m");
    assert_eq!(dim(st, "x"), "\x1b[2mx\x1b[0m");
    assert_eq!(red(st, "x"), "\x1b[31mx\x1b[0m");
    assert_eq!(green(st, "x"), "\x1b[32mx\x1b[0m");
    assert_eq!(magenta(st, "x"), "\x1b[35mx\x1b[0m");
    assert_eq!(cyan(st, "x"), "\x1b[36mx\x1b[0m");
    assert_eq!(rgb(st, 1, 20, 255, "x"), "\x1b[38;2;1;20;255mx\x1b[0m");
    assert_eq!(display_width(&red(st, "four")), 4);
}

#[test]
fn section_lines_are_marked() {
    let mut sec = Section::new("T");
    sec.text("raw");
    sec.good(PLAIN, "ok");
    sec.bad(PLAIN, "off");
    sec.note(PLAIN, "hm");
    assert_eq!(sec.title, "T");
    assert_eq!(sec.lines, vec!["raw", "  + ok", "  - off", "    hm"]);
    let mut sec = Section::new("T");
    sec.good(COLOR, "ok");
    sec.note(COLOR, "hm");
    assert_eq!(sec.lines, vec!["  \x1b[32m+\x1b[0m ok", "    \x1b[2mhm\x1b[0m"]);
}

#[test]
fn a_section_prints_under_a_rule() {
    let mut sec = Section::new("CORS");
    sec.text("  aaaa bbbb cccc dddd eeee ffff gggg hhhh iiii");
    assert_eq!(
        print_section(&sec, PLAIN, 40),
        vec![
            "",
            "== CORS ================================",
            "  aaaa bbbb cccc dddd eeee ffff gggg",
            "      hhhh iiii",
        ]
    );
    assert_eq!(
        print_section(&Section::new("X"), COLOR, 10),
        vec!["", "\x1b[1m== X =====\x1b[0m"]
    );
}

#[test]
fn ansi_is_stripped_for_reports() {
    assert_eq!(strip_ansi("a\x1b[31mb\x1b[0mc"), "abc");
    assert_eq!(strip_ansi("open \x1b[31"), "open ");
    assert_eq!(strip_ansi(&strip_ansi("\x1b[2mx\x1b[0m")), "x");
}

#[test]
fn report_format_follows_the_extension() {
    assert!(matches!(Format::from_path("a.html"), Format::Html));
    assert!(matches!(Format::from_path("A.HTM"), Format::Html));
    assert!(matches!(Format::from_path("a.md"), Format::Markdown));
    assert!(matches!(Format::from_path("html"), Format::Markdown));
    assert!(matches!(Format::from_path("\u{c9}T\u{c9}.HTML"), Format::Html));
}

fn sample_sections() -> Vec<Section> {
    let mut sec = Section::new("A <b> & c");
    sec.good(COLOR, "fine");
    sec.bad(COLOR, "x < y");
    sec.text("plain   ");
    vec![sec]
}

#[test]
fn markdown_report_is_exact() {
    let secs = sample_sections();
    let r = [TargetReport {
        target: "https://a.example",
        host: "a.example",
        status: Some(200),
        sections: &secs,
    }];
    assert_eq!(
        render(&Format::Markdown, &r),
        "# vantage report\n\n## https://a.example\n\nHost: `a.example`\n\nHTTP 200\n\n### A <b> & c\n\n```\n  + fine\n  - x < y\nplain\n```\n\n"
    );
}

#[test]
fn html_report_escapes_and_marks() {
    let secs = sample_sections();
    let r = [TargetReport { target: "t", host: "t", status: None, sections: &secs }];
    let out = render(&Format::Html, &r);
    assert!(out.starts_with("<!doctype html>\n<html lang=\"en\">\n"));
    assert!(out.ends_with(
        "<h1>vantage report</h1>\n<h2>t</h2>\n<h3>A &lt;b&gt; &amp; c</h3>\n<pre><span class=\"good\">  + fine</span>\n<span class=\"bad\">  - x &lt; y</span>\nplain\n</pre>\n</body>\n</html>\n"
    ));
    let r = [TargetReport { target: "t", host: "h", status: Some(404), sections: &[] }];
    assert!(render(&Format::Html, &r).contains("<p class=\"meta\">host h &middot; HTTP 404</p>\n"));
}

#[test]
fn sorting_is_stable_and_by_character() {
    assert!(is_before("a", "b"));
    assert!(is_before("a", "ab"));
    assert!(!is_before("ab", "a"));
    assert!(!is_before("a", "a"));
    assert!(is_before("Z", "a"));
    let pair = |a: &str, b: &str| (a.to_string(), b.to_string());
    let v = vec![pair("b", "1"), pair("a", "2"), pair("b", "0"), pair("", "3")];
    assert_eq!(
        sort_items(&v),
        vec![pair("", "3"), pair("a", "2"), pair("b", "1"), pair("b", "0")]
    );
}

#[test]
fn spinner_frames_are_erased() {
    assert_eq!(frame(0, "go"), "\r  | go ");
    assert_eq!(frame(3, "go"), "\r  \\ go ");
    assert_eq!(frame(5, "go"), "\r  / go ");
    assert_eq!(erase("go"), "\r        \r\x1b[?25h");
}

#[test]
fn joining_undoes_splitting() {
    let parts = split(";a;;b", CharSet::One(';'));
    assert_eq!(parts, vec!["", "a", "", "b"]);
    assert_eq!(join(&parts, ";"), ";a;;b");
    assert_eq!(split_words(" a \u{a0}b\tc "), vec!["a", "b", "c"]);
    assert_eq!(split_lines("a\r\n\nb\r"), vec!["a", "", "b\r"]);
    assert_eq!(split_lines("a\n"), vec!["a"]);
    assert!(split_lines("").is_empty());
}

#[test]
fn wrapped_lines_end_in_text_and_keep_their_indent() {
    for line in ["  \x1b[2maaaa   bbbb \x1b[0m cccc", "   aaaaaaaaaaaaaaaaaaaaaaaa b", " a   b   c   d   e"] {
        for w in 5..20 {
            let out = wrap(line, w);
            assert!(!out.is_empty());
            let lead = |l: &str| l.chars().take_while(|&c| c == ' ').count();
            assert_eq!(lead(&out[0]), lead(line));
            if display_width(line) > w {
                assert!(out.iter().all(|l| !l.ends_with(' ')), "{out:?}");
            }
        }
    }
}

#[test]
fn reports_are_the_same_in_color() {
    let sections = |st: Style| {
        let mut sec = Section::new("T");
        sec.good(st, "fine");
        sec.bad(st, &magenta(st, "x"));
        sec.note(st, "n");
        vec![sec]
    };
    let (plain, colored) = (sections(PLAIN), sections(COLOR));
    for format in [Format::Markdown, Format::Html] {
        let of = |s| render(&format, &[TargetReport { target: "t", host: "h", status: Some(200), sections: s }]);
        assert_eq!(of(&plain[..]), of(&colored[..]));
        assert!(!of(&colored[..]).contains('\x1b'));
    }
}

#[test]
fn text_goes_to_lower_case() {
    for t in [
        "", "ABC xyz 019", "\u{c9}T\u{c9}", "TO\u{212a}EN", "\u{130}I", "A\u{3a3}", "A\u{3a3}B",
        "a.\u{3a3} B", "\u{3a3}", "\u{39f}\u{394}\u{39f}\u{3a3}X", "'\u{3a3}'", "Z\u{1f88}\u{df}",
    ] {
        assert_eq!(to_lowercase(t), t.to_lowercase());
        assert_eq!(to_lowercase(&t.to_ascii_uppercase()), t.to_lowercase());
    }
}
