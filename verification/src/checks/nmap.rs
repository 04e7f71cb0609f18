//! The nmap service scan, optionally with the vulners CVE script.

use crate::number::{decimal, show, show_signed, signed_decimal};
use crate::request::optional_str;
use crate::section::{bad_line, good_line, note_line, section, Section, SectionView};
use crate::style::{dim, dimmed, Style};
use crate::text::{
    begins, cat2, cat4, contains, includes, join, joined, lines, split_lines, starts_with,
    strip_back, strip_end, texts, CharSet,
};
use crate::tool::{decode_output, messages, messages_of, ToolRun, ToolView};
use vstd::prelude::*;
use vstd::string::*;

verus! {

/// The arguments of nmap. `ports` follows nmap `-p` syntax (e.g. "80,443" or
/// "1-1024", or "-" for all 65535); without it no `-p` flag is passed and nmap
/// scans its normal default set.
pub open spec fn scan_args(host: Seq<char>, vulners: bool, ports: Option<Seq<char>>) -> Seq<
    Seq<char>,
> {
    seq!["-Pn"@, "-sV"@] + (match ports {
        Some(p) => seq!["-p"@, p],
        None => Seq::empty(),
    }) + (if vulners {
        seq!["--script"@, "vulners"@]
    } else {
        Seq::empty()
    }) + seq![host]
}

/// Builds the arguments of nmap.
pub fn nmap_args(host: &str, vulners: bool, ports: Option<&str>) -> (r: Vec<String>)
    ensures
        texts(r@) == scan_args(host@, vulners, optional_str(ports)),
{
    let mut r: Vec<String> = Vec::new();
    r.push("-Pn".to_owned());
    r.push("-sV".to_owned());
    match ports {
        Some(p) => {
            r.push("-p".to_owned());
            r.push(p.to_owned());
        },
        None => {},
    }
    if vulners {
        r.push("--script".to_owned());
        r.push("vulners".to_owned());
    }
    r.push(host.to_owned());
    assert(texts(r@) =~= scan_args(host@, vulners, optional_str(ports)));
    r
}

/// A line without the white space at its end.
pub open spec fn right(l: Seq<char>) -> Seq<char> {
    strip_end(l, CharSet::White)
}

/// Whether a line of nmap is a result.
pub open spec fn is_result(l: Seq<char>) -> bool {
    ||| includes(right(l), "/tcp"@)
    ||| begins(right(l), "PORT"@)
    ||| includes(right(l), "CVE-"@)
    ||| begins(right(l), "|"@)
    ||| begins(right(l), "Service Info"@)
}

/// The lines that show the results.
pub open spec fn result_lines(ls: Seq<Seq<char>>) -> Seq<Seq<char>>
    decreases ls.len(),
{
    if ls.len() == 0 {
        Seq::empty()
    } else {
        let had = result_lines(ls.drop_last());
        if is_result(ls.last()) {
            had.push("  "@ + right(ls.last()))
        } else {
            had
        }
    }
}

/// How many lines name a CVE.
pub open spec fn cve_count(ls: Seq<Seq<char>>) -> nat
    decreases ls.len(),
{
    if ls.len() == 0 {
        0
    } else if includes(ls.last(), "CVE-"@) {
        cve_count(ls.drop_last()) + 1
    } else {
        cve_count(ls.drop_last())
    }
}

/// The exit status of a tool.
pub open spec fn code_text(code: Option<i32>) -> Seq<char> {
    match code {
        Some(c) => signed_decimal(c as int),
        None => "signal"@,
    }
}

/// Some messages as notes.
pub open spec fn message_lines(st: Style, ms: Seq<Seq<char>>) -> Seq<Seq<char>> {
    Seq::new(ms.len(), |i: int| note_line(st, ms[i]))
}

/// The lines on a scan that ran to its end. A non-zero exit or no parseable
/// results means the scan did not really run - nmap's own stderr then makes the
/// failure visible.
pub open spec fn scan_lines(
    st: Style,
    vulners: bool,
    success: bool,
    code: Option<i32>,
    stdout: Seq<char>,
    stderr: Seq<char>,
) -> Seq<Seq<char>> {
    let results = result_lines(lines(stdout));
    let cves = cve_count(lines(stdout));
    if !success {
        results.push(note_line(st, "nmap exited with status "@ + code_text(code)))
            + message_lines(st, messages(lines(stderr), 5))
    } else if results.len() == 0 {
        seq![bad_line(st, "nmap returned no scan results"@)] + message_lines(
            st,
            messages(lines(stderr), 5),
        )
    } else if !vulners {
        results
    } else if cves > 0 {
        results.push(bad_line(st, decimal(cves) + " CVE line(s) reported by vulners"@))
    } else {
        results.push(good_line(st, "no CVEs reported for the detected service versions"@))
    }
}

/// The lines on a run of nmap.
pub open spec fn run_lines(st: Style, vulners: bool, run: ToolView) -> Seq<Seq<char>> {
    match run {
        ToolView::NotFound => seq![
            note_line(st, "nmap not installed / not on PATH (e.g. sudo apt install nmap)"@),
        ],
        ToolView::Failed(e) => seq![note_line(st, "nmap failed to launch: "@ + e)],
        ToolView::Done { success, code, stdout, stderr } => scan_lines(
            st,
            vulners,
            success,
            code,
            stdout,
            stderr,
        ),
    }
}

/// The title of the section.
pub open spec fn scan_title(host: Seq<char>, vulners: bool) -> Seq<char> {
    (if vulners {
        "nmap --script vulners"@
    } else {
        "nmap service scan"@
    }) + " ("@ + host + ")"@
}

/// The line that shows the exact command, so a report reader can reproduce it.
pub open spec fn command_line(st: Style, args: Seq<Seq<char>>) -> Seq<char> {
    "  "@ + dimmed(st, "$ nmap "@ + joined(args, " "@))
}

/// The section on a run of nmap.
pub open spec fn nmap_section(
    host: Seq<char>,
    vulners: bool,
    ports: Option<Seq<char>>,
    run: ToolView,
    st: Style,
) -> SectionView {
    section(
        scan_title(host, vulners),
        seq![command_line(st, scan_args(host, vulners, ports))] + run_lines(st, vulners, run),
    )
}

fn read_results(sec: &mut Section, all: &Vec<String>)
    ensures
        final(sec)@ == old(sec)@.with_all(result_lines(texts(all@))),
{
    let ghost ls = texts(all@);
    let ghost start = sec@;
    let mut i: usize = 0;
    assert(sec@.lines =~= start.lines + result_lines(ls.take(0)));
    while i < all.len()
        invariant
            i <= all@.len(),
            ls == texts(all@),
            sec@.title == start.title,
            sec@.lines == start.lines + result_lines(ls.take(i as int)),
        decreases all@.len() - i,
    {
        assert(ls.take(i + 1).drop_last() =~= ls.take(i as int));
        assert(ls.take(i + 1).last() == all@[i as int]@);
        let r = strip_back(all[i].as_str(), CharSet::White);
        let l = r.as_str();
        if contains(l, "/tcp") || starts_with(l, "PORT") || contains(l, "CVE-") || starts_with(
            l,
            "|",
        ) || starts_with(l, "Service Info") {
            let t = cat2("  ", l);
            sec.text(t.as_str());
            assert(sec@.lines =~= start.lines + result_lines(ls.take(i + 1)));
        }
        i += 1;
    }
    assert(ls.take(i as int) =~= ls);
}

fn count_cves(all: &Vec<String>) -> (r: usize)
    ensures
        r == cve_count(texts(all@)),
{
    let ghost ls = texts(all@);
    let mut n: usize = 0;
    let mut i: usize = 0;
    while i < all.len()
        invariant
            i <= all@.len(),
            ls == texts(all@),
            n <= i,
            n == cve_count(ls.take(i as int)),
        decreases all@.len() - i,
    {
        assert(ls.take(i + 1).drop_last() =~= ls.take(i as int));
        assert(ls.take(i + 1).last() == all@[i as int]@);
        if contains(all[i].as_str(), "CVE-") {
            n += 1;
        }
        i += 1;
    }
    assert(ls.take(i as int) =~= ls);
    n
}

fn show_messages(st: Style, sec: &mut Section, text: &str)
    ensures
        final(sec)@ == old(sec)@.with_all(message_lines(st, messages(lines(text@), 5))),
{
    let ms = messages_of(text, 5);
    let ghost start = sec@;
    let ghost all = message_lines(st, messages(lines(text@), 5));
    assert(texts(ms@).len() == ms@.len());
    let mut i: usize = 0;
    assert(sec@.lines =~= start.lines + all.take(0));
    while i < ms.len()
        invariant
            i <= ms@.len(),
            all == message_lines(st, texts(ms@)),
            sec@.title == start.title,
            sec@.lines == start.lines + all.take(i as int),
        decreases ms@.len() - i,
    {
        sec.note(st, ms[i].as_str());
        assert(sec@.lines =~= start.lines + all.take(i + 1));
        i += 1;
    }
    assert(all.take(i as int) =~= all);
}

/// Adds the report on a scan that ran to its end.
fn report_scan(
    st: Style,
    sec: &mut Section,
    vulners: bool,
    success: bool,
    code: Option<i32>,
    stdout: &str,
    stderr: &str,
)
    ensures
        final(sec)@ == old(sec)@.with_all(
            scan_lines(st, vulners, success, code, stdout@, stderr@),
        ),
{
    let ghost start = sec@;
    let all = split_lines(stdout);
    let ghost results = result_lines(lines(stdout@));
    let before: usize = sec.lines.len();
    assert(texts(sec.lines@).len() == sec.lines@.len());
    read_results(sec, &all);
    assert(texts(sec.lines@).len() == sec.lines@.len());
    if !success {
        let c = match code {
            Some(c) => show_signed(c as i64),
            None => "signal".to_owned(),
        };
        let t = cat2("nmap exited with status ", c.as_str());
        sec.note(st, t.as_str());
        show_messages(st, sec, stderr);
    } else if sec.lines.len() == before {
        assert(results.len() == 0);
        sec.bad(st, "nmap returned no scan results");
        show_messages(st, sec, stderr);
    } else if vulners {
        let n: usize = count_cves(&all);
        if n > 0 {
            let d = show(n as u64);
            let t = cat2(d.as_str(), " CVE line(s) reported by vulners");
            sec.bad(st, t.as_str());
        } else {
            sec.good(st, "no CVEs reported for the detected service versions");
        }
    }
    assert(sec@.lines =~= start.lines + scan_lines(st, vulners, success, code, stdout@, stderr@));
}

/// Reports an nmap `-sV` scan (optionally with the vulners CVE script) that was
/// run with `nmap_args`.
pub fn nmap(
    host: &str,
    vulners: bool,
    ports: Option<&str>,
    run: &ToolRun,
    st: Style,
) -> (r: Section)
    ensures
        r@ == nmap_section(host@, vulners, optional_str(ports), run@, st),
{
    let kind = if vulners {
        "nmap --script vulners"
    } else {
        "nmap service scan"
    };
    let title = cat4(kind, " (", host, ")");
    let mut sec = Section::new(title.as_str());
    let args = nmap_args(host, vulners, ports);
    let a = join(&args, " ");
    let c = cat2("$ nmap ", a.as_str());
    let c = dim(st, c.as_str());
    let c = cat2("  ", c.as_str());
    sec.text(c.as_str());
    match run {
        ToolRun::NotFound => {
            sec.note(st, "nmap not installed / not on PATH (e.g. sudo apt install nmap)");
        },
        ToolRun::Failed(e) => {
            let t = cat2("nmap failed to launch: ", e.as_str());
            sec.note(st, t.as_str());
        },
        ToolRun::Done { success, code, stdout, stderr } => {
            let o = decode_output(stdout);
            let e = decode_output(stderr);
            report_scan(st, &mut sec, vulners, *success, *code, o.as_str(), e.as_str());
        },
    }
    assert(sec@.lines =~= nmap_section(host@, vulners, optional_str(ports), run@, st).lines);
    sec
}

// ---------------------------------------------------------------------------
// Laws
// ---------------------------------------------------------------------------

/// A scan that did not really run is made visible: its exit status, or the lack
/// of results, stands behind whatever was found, with what nmap complained of.
pub proof fn law_a_failed_scan_is_visible(
    st: Style,
    vulners: bool,
    success: bool,
    code: Option<i32>,
    stdout: Seq<char>,
    stderr: Seq<char>,
)
    requires
        !success || result_lines(lines(stdout)).len() == 0,
    ensures
        ({
            let found = result_lines(lines(stdout));
            scan_lines(st, vulners, success, code, stdout, stderr) == found + seq![
                if !success {
                    note_line(st, "nmap exited with status "@ + code_text(code))
                } else {
                    bad_line(st, "nmap returned no scan results"@)
                },
            ] + message_lines(st, messages(lines(stderr), 5))
        }),
{
    let found = result_lines(lines(stdout));
    let why = if !success {
        note_line(st, "nmap exited with status "@ + code_text(code))
    } else {
        bad_line(st, "nmap returned no scan results"@)
    };
    assert(scan_lines(st, vulners, success, code, stdout, stderr) =~= found + seq![why]
        + message_lines(st, messages(lines(stderr), 5)));
}

proof fn lemma_messages(ls: Seq<Seq<char>>, n: nat)
    ensures
        messages(ls, n).len() <= n,
    decreases ls.len(),
{
    if ls.len() > 0 {
        lemma_messages(ls.drop_last(), n);
    }
}

/// No more than five lines of complaint are passed on.
pub proof fn law_complaints_are_few(st: Style, stderr: Seq<char>)
    ensures
        message_lines(st, messages(lines(stderr), 5)).len() <= 5,
{
    lemma_messages(lines(stderr), 5);
}

/// A line that names a CVE is always shown among the results.
pub proof fn law_every_cve_is_shown(ls: Seq<Seq<char>>, i: int)
    requires
        0 <= i < ls.len(),
        includes(right(ls[i]), "CVE-"@),
    ensures
        result_lines(ls).contains("  "@ + right(ls[i])),
    decreases ls.len(),
{
    let all = result_lines(ls);
    let had = result_lines(ls.drop_last());
    let x = "  "@ + right(ls[i]);
    if i == ls.len() - 1 {
        assert(all.last() == x);
    } else {
        law_every_cve_is_shown(ls.drop_last(), i);
        let k = choose|k: int| 0 <= k < had.len() && had[k] == x;
        assert(all[k] == x);
    }
}

/// nmap is asked for service versions without a ping, on the ports that were
/// named if any were, with the vulners script if that was asked for, and on the
/// host last of all.
pub proof fn law_scan_arguments(host: Seq<char>, p: Seq<char>)
    ensures
        scan_args(host, false, None) == seq!["-Pn"@, "-sV"@, host],
        scan_args(host, false, Some(p)) == seq!["-Pn"@, "-sV"@, "-p"@, p, host],
        scan_args(host, true, None) == seq!["-Pn"@, "-sV"@, "--script"@, "vulners"@, host],
        scan_args(host, true, Some(p)) == seq![
            "-Pn"@,
            "-sV"@,
            "-p"@,
            p,
            "--script"@,
            "vulners"@,
            host,
        ],
{
    assert(scan_args(host, false, None) =~= seq!["-Pn"@, "-sV"@, host]);
    assert(scan_args(host, false, Some(p)) =~= seq!["-Pn"@, "-sV"@, "-p"@, p, host]);
    assert(scan_args(host, true, None) =~= seq!["-Pn"@, "-sV"@, "--script"@, "vulners"@, host]);
    assert(scan_args(host, true, Some(p)) =~= seq![
        "-Pn"@,
        "-sV"@,
        "-p"@,
        p,
        "--script"@,
        "vulners"@,
        host,
    ]);
}

/// Each line of the output adds itself to the results behind those before it,
/// without the white space at its end, if it is on a port, heads the table,
/// names a CVE, comes from a script or tells of the service; no other line does.
/// Each line that names a CVE counts once.
pub proof fn law_results_are_read(ls: Seq<Seq<char>>, l: Seq<char>)
    ensures
        ({
            let r = strip_end(l, CharSet::White);
            let counts = includes(r, "/tcp"@) || begins(r, "PORT"@) || includes(r, "CVE-"@)
                || begins(r, "|"@) || begins(r, "Service Info"@);
            let none = Seq::<Seq<char>>::empty();
            &&& result_lines(none) == none
            &&& cve_count(none) == 0
            &&& counts ==> result_lines(ls.push(l)) == result_lines(ls).push("  "@ + r)
            &&& !counts ==> result_lines(ls.push(l)) == result_lines(ls)
            &&& includes(l, "CVE-"@) ==> cve_count(ls.push(l)) == cve_count(ls) + 1
            &&& !includes(l, "CVE-"@) ==> cve_count(ls.push(l)) == cve_count(ls)
        }),
{
    assert(ls.push(l).drop_last() =~= ls);
}

/// A scan is told by its command, its results, and what these come to: with the
/// vulners script the number of CVE lines or that there were none; without
/// results, or after an exit that was no success, that, with the complaints.
/// A tool that is missing or could not be started is told by that alone.
pub proof fn law_scans_are_told(
    host: Seq<char>,
    vulners: bool,
    ports: Option<Seq<char>>,
    run: ToolView,
    st: Style,
)
    ensures
        ({
            let sec = nmap_section(host, vulners, ports, run, st);
            let shown = "  "@ + dimmed(
                st,
                "$ nmap "@ + joined(scan_args(host, vulners, ports), " "@),
            );
            &&& sec.title == (if vulners {
                "nmap --script vulners"@
            } else {
                "nmap service scan"@
            }) + " ("@ + host + ")"@
            &&& sec.lines[0] == shown
            &&& match run {
                ToolView::NotFound => sec.lines == seq![
                    shown,
                    note_line(st, "nmap not installed / not on PATH (e.g. sudo apt install nmap)"@),
                ],
                ToolView::Failed(e) => sec.lines == seq![
                    shown,
                    note_line(st, "nmap failed to launch: "@ + e),
                ],
                ToolView::Done { success, code, stdout, stderr } => {
                    let found = result_lines(lines(stdout));
                    let n = found.len() as int;
                    let cves = cve_count(lines(stdout));
                    let all = sec.lines.skip(1);
                    let said = messages(lines(stderr), 5);
                    &&& all.take(n) == found
                    &&& !success ==> all[n] == note_line(
                        st,
                        "nmap exited with status "@ + (match code {
                            Some(c) => signed_decimal(c as int),
                            None => "signal"@,
                        }),
                    )
                    &&& success && n == 0 ==> all[0] == bad_line(
                        st,
                        "nmap returned no scan results"@,
                    )
                    &&& !success || n == 0 ==> all.len() == n + 1 + said.len() && forall|k: int|
                        0 <= k < said.len() ==> all[n + 1 + k] == note_line(st, #[trigger] said[k])
                    &&& success && n > 0 && !vulners ==> all.len() == n
                    &&& success && n > 0 && vulners && cves > 0 ==> all == found.push(
                        bad_line(st, decimal(cves) + " CVE line(s) reported by vulners"@),
                    )
                    &&& success && n > 0 && vulners && cves == 0 ==> all == found.push(
                        good_line(st, "no CVEs reported for the detected service versions"@),
                    )
                },
            }
        }),
{
    let sec = nmap_section(host, vulners, ports, run, st);
    let all = sec.lines.skip(1);
    assert(all =~= run_lines(st, vulners, run));
    match run {
        ToolView::Done { success, code, stdout, stderr } => {
            let found = result_lines(lines(stdout));
            assert(all.take(found.len() as int) =~= found);
        },
        _ => {},
    }
}

} // verus!
