//! DNS records, read off the output of nslookup.

use crate::section::{bad_line, note_line, section, Section, SectionView};
use crate::style::{cyan, cyaned, Style};
use crate::text::{
    begins, cat2, cat3, cat4, contains, includes, lemma_among, lines, lowered, repeat, repeated,
    split_lines, starts_with, texts, to_lowercase, trim, trimmed,
};
use crate::tool::{decode_output, messages, messages_of, ToolRun, ToolView};
use vstd::prelude::*;
use vstd::string::*;

verus! {

/// The record types that are looked up.
pub const RECORD_TYPES: [&'static str; 7] = ["A", "AAAA", "NS", "MX", "TXT", "SOA", "CNAME"];

/// What a line of nslookup holds that shows a record.
pub const RECORD_WORDS: [&'static str; 11] = [
    "internet address",
    "has address",
    "ipv6 address",
    "mail exchanger",
    "nameserver",
    "name server",
    "text =",
    "canonical name",
    "origin =",
    "addresses:",
    "address:",
];

/// The views of some runs.
pub open spec fn run_views(v: Seq<ToolRun>) -> Seq<ToolView> {
    Seq::new(v.len(), |i: int| v[i]@)
}

// ---------------------------------------------------------------------------
// The lookups
// ---------------------------------------------------------------------------

/// Whether the lookups are over: all of them were made, or the tool is missing.
pub open spec fn lookups_are_over(runs: Seq<ToolView>) -> bool {
    runs.len() >= 7 || exists|i: int| 0 <= i < runs.len() && #[trigger] runs[i] is NotFound
}

/// The arguments of nslookup for a record type.
pub open spec fn lookup_args(t: Seq<char>, host: Seq<char>) -> Seq<Seq<char>> {
    seq!["-type="@ + t, host]
}

/// The arguments of the next lookup, after the lookups already made.
pub fn next_lookup(host: &str, runs: &Vec<ToolRun>) -> (r: Option<Vec<String>>)
    ensures
        match r {
            None => lookups_are_over(run_views(runs@)),
            Some(args) => !lookups_are_over(run_views(runs@)) && texts(args@) == lookup_args(
                RECORD_TYPES@[runs@.len() as int]@,
                host@,
            ),
        },
{
    let ghost rv = run_views(runs@);
    let n: usize = runs.len();
    if n >= 7 {
        return None;
    }
    let mut i: usize = 0;
    while i < n
        invariant
            i <= n,
            n == runs@.len(),
            rv == run_views(runs@),
            forall|j: int| 0 <= j < i ==> !(#[trigger] rv[j] is NotFound),
        decreases n - i,
    {
        assert(rv[i as int] == runs@[i as int]@);
        match &runs[i] {
            ToolRun::NotFound => {
                assert(rv[i as int] is NotFound);
                return None;
            },
            _ => {},
        }
        i += 1;
    }
    let table = RECORD_TYPES;
    let mut args: Vec<String> = Vec::new();
    args.push(cat2("-type=", table[n]));
    args.push(host.to_owned());
    assert(texts(args@) =~= lookup_args(RECORD_TYPES@[n as int]@, host@));
    Some(args)
}

// ---------------------------------------------------------------------------
// Reading an answer
// ---------------------------------------------------------------------------

/// Whether a line opens the resolver banner.
pub open spec fn is_server_line(l: Seq<char>) -> bool {
    begins(lowered(trimmed(l)), "server:"@)
}

/// Whether a line shows a record of some kind.
pub open spec fn has_record_word(l: Seq<char>) -> bool {
    exists|i: int|
        0 <= i < 11 && includes(lowered(trimmed(l)), #[trigger] RECORD_WORDS@[i]@)
}

/// Whether line `i` of an answer shows a record. The resolver banner is a
/// "Server:" line followed by its "Address:" line. A real A/AAAA answer is
/// singular "Address:" on Linux but plural "Addresses:" on Windows, while the
/// banner address is singular on both - so only the address line that follows
/// "Server:" is dropped (plus anything carrying the "#53" resolver port on
/// Linux).
pub open spec fn shows_record(ls: Seq<Seq<char>>, i: int) -> bool {
    &&& !is_server_line(ls[i])
    &&& !includes(trimmed(ls[i]), "#53"@)
    &&& !(i > 0 && is_server_line(ls[i - 1]) && begins(lowered(trimmed(ls[i])), "address"@))
    &&& has_record_word(ls[i])
}

/// A record type, set flush left in five columns.
pub open spec fn type_text(t: Seq<char>) -> Seq<char> {
    if t.len() < 5 {
        t + repeated(' ', (5 - t.len()) as nat)
    } else {
        t
    }
}

/// The line that shows a record.
pub open spec fn record_line(st: Style, t: Seq<char>, l: Seq<char>) -> Seq<char> {
    "  "@ + cyaned(st, type_text(t)) + " "@ + trimmed(l)
}

/// The lines that show the records in the first `n` lines of an answer.
pub open spec fn record_lines(st: Style, t: Seq<char>, ls: Seq<Seq<char>>, n: nat) -> Seq<
    Seq<char>,
>
    decreases n,
{
    if n == 0 {
        Seq::empty()
    } else {
        let had = record_lines(st, t, ls, (n - 1) as nat);
        if shows_record(ls, n - 1) {
            had.push(record_line(st, t, ls[n - 1]))
        } else {
            had
        }
    }
}

/// The lines that show the records of an answer.
pub open spec fn answer_lines(st: Style, t: Seq<char>, text: Seq<char>) -> Seq<Seq<char>> {
    record_lines(st, t, lines(text), lines(text).len())
}

// ---------------------------------------------------------------------------
// The section
// ---------------------------------------------------------------------------

/// The records that the first `n` lookups brought.
pub open spec fn found_lines(st: Style, runs: Seq<ToolView>, n: nat) -> Seq<Seq<char>>
    decreases n,
{
    if n == 0 {
        Seq::empty()
    } else {
        let had = found_lines(st, runs, (n - 1) as nat);
        match runs[n - 1] {
            ToolView::Done { stdout, .. } => had + answer_lines(
                st,
                RECORD_TYPES@[n - 1]@,
                stdout,
            ),
            _ => had,
        }
    }
}

/// What the last of the first `n` lookups that went wrong complained of.
pub open spec fn last_complaint(runs: Seq<ToolView>, n: nat) -> Seq<char>
    decreases n,
{
    if n == 0 {
        ""@
    } else {
        let had = last_complaint(runs, (n - 1) as nat);
        match runs[n - 1] {
            ToolView::Failed(e) => e,
            ToolView::Done { success, stderr, .. } => if !success && messages(
                lines(stderr),
                1,
            ).len() > 0 {
                messages(lines(stderr), 1)[0]
            } else {
                had
            },
            ToolView::NotFound => had,
        }
    }
}

/// The number of lookups before the one that did not find the tool.
pub open spec fn made(runs: Seq<ToolView>) -> nat
    decreases runs.len(),
{
    if runs.len() == 0 || runs[0] is NotFound {
        0
    } else {
        1 + made(runs.skip(1))
    }
}

/// The lines of the section.
pub open spec fn dns_lines(st: Style, runs: Seq<ToolView>) -> Seq<Seq<char>> {
    let n = made(runs);
    let found = found_lines(st, runs, n);
    let why = last_complaint(runs, n);
    if n < runs.len() {
        found.push(
            note_line(st, "nslookup not found on PATH (e.g. sudo apt install dnsutils)"@),
        )
    } else if found.len() > 0 {
        found
    } else if why.len() > 0 {
        seq![bad_line(st, "no records resolved"@), note_line(st, why)]
    } else {
        seq![bad_line(st, "no records resolved"@)]
    }
}

/// The section on DNS records.
pub open spec fn dns_section(host: Seq<char>, runs: Seq<ToolView>, st: Style) -> SectionView {
    section("DNS records ("@ + host + ")"@, dns_lines(st, runs))
}

proof fn lemma_made(runs: Seq<ToolView>, n: nat)
    requires
        n <= runs.len(),
        forall|i: int| 0 <= i < n ==> !(#[trigger] runs[i] is NotFound),
        n < runs.len() ==> runs[n as int] is NotFound,
    ensures
        made(runs) == n,
    decreases runs.len(),
{
    if n > 0 {
        let rest = runs.skip(1);
        assert forall|i: int| 0 <= i < n - 1 implies !(#[trigger] rest[i] is NotFound) by {
            assert(!(runs[i + 1] is NotFound));
        }
        assert(!(runs[0] is NotFound));
        lemma_made(rest, (n - 1) as nat);
    }
}

fn any_record_word(low: &str) -> (r: bool)
    ensures
        r == exists|i: int| 0 <= i < 11 && includes(low@, #[trigger] RECORD_WORDS@[i]@),
{
    let table = RECORD_WORDS;
    let mut i: usize = 0;
    while i < 11
        invariant
            i <= 11,
            table == RECORD_WORDS,
            forall|j: int| 0 <= j < i ==> !includes(low@, #[trigger] RECORD_WORDS@[j]@),
        decreases 11 - i,
    {
        let w: &str = table[i];
        if contains(low, w) {
            assert(includes(low@, RECORD_WORDS@[i as int]@));
            return true;
        }
        i += 1;
    }
    false
}

fn show_type(t: &str) -> (r: String)
    ensures
        r@ == type_text(t@),
{
    let n: usize = t.unicode_len();
    if n < 5 {
        let pad = repeat(' ', 5 - n);
        cat2(t, pad.as_str())
    } else {
        t.to_owned()
    }
}

/// Adds the records of an answer to a section.
fn read_answer(st: Style, sec: &mut Section, t: &str, text: &str)
    ensures
        final(sec)@ == old(sec)@.with_all(answer_lines(st, t@, text@)),
{
    let all = split_lines(text);
    let ghost ls = texts(all@);
    let ghost start = sec@;
    let mut after_server = false;
    let mut i: usize = 0;
    assert(sec@.lines =~= start.lines + record_lines(st, t@, ls, 0));
    while i < all.len()
        invariant
            i <= all@.len(),
            ls == texts(all@),
            after_server == (i > 0 && is_server_line(ls[i - 1])),
            sec@.title == start.title,
            sec@.lines == start.lines + record_lines(st, t@, ls, i as nat),
        decreases all@.len() - i,
    {
        assert(ls[i as int] == all@[i as int]@);
        let l = trim(all[i].as_str());
        let low = to_lowercase(l.as_str());
        let server = starts_with(low.as_str(), "server:");
        let banner = after_server && starts_with(low.as_str(), "address");
        let resolver = contains(l.as_str(), "#53");
        if !server && !banner && !resolver && any_record_word(low.as_str()) {
            assert(shows_record(ls, i as int));
            let p = show_type(t);
            let c = cyan(st, p.as_str());
            let x = cat4("  ", c.as_str(), " ", l.as_str());
            sec.text(x.as_str());
            assert(sec@.lines =~= start.lines + record_lines(st, t@, ls, (i + 1) as nat));
        } else {
            assert(!shows_record(ls, i as int));
        }
        after_server = server;
        i += 1;
    }
}

/// Reports the records that the lookups of `next_lookup` brought.
pub fn dnsrecon(host: &str, runs: &Vec<ToolRun>, st: Style) -> (r: Section)
    requires
        runs@.len() <= 7,
    ensures
        r@ == dns_section(host@, run_views(runs@), st),
{
    let title = cat3("DNS records (", host, ")");
    let mut sec = Section::new(title.as_str());
    let ghost rv = run_views(runs@);
    let table = RECORD_TYPES;
    let mut why = "".to_owned();
    let mut i: usize = 0;
    while i < runs.len()
        invariant
            i <= runs@.len() <= 7,
            rv == run_views(runs@),
            table == RECORD_TYPES,
            forall|j: int| 0 <= j < i ==> !(#[trigger] rv[j] is NotFound),
            sec@.title == "DNS records ("@ + host@ + ")"@,
            sec@.lines == found_lines(st, rv, i as nat),
            why@ == last_complaint(rv, i as nat),
        decreases runs@.len() - i,
    {
        assert(rv[i as int] == runs@[i as int]@);
        match &runs[i] {
            ToolRun::NotFound => {
                proof {
                    lemma_made(rv, i as nat);
                }
                sec.note(st, "nslookup not found on PATH (e.g. sudo apt install dnsutils)");
                return sec;
            },
            ToolRun::Failed(e) => {
                why = e.as_str().to_owned();
            },
            ToolRun::Done { success, code: _, stdout, stderr } => {
                if !*success {
                    let t = decode_output(stderr);
                    let m = messages_of(t.as_str(), 1);
                    assert(texts(m@).len() == m@.len());
                    if m.len() > 0 {
                        assert(texts(m@)[0] == m@[0]@);
                        why = m[0].as_str().to_owned();
                    }
                }
                let t = decode_output(stdout);
                read_answer(st, &mut sec, table[i], t.as_str());
            },
        }
        i += 1;
    }
    proof {
        lemma_made(rv, i as nat);
    }
    assert(texts(sec.lines@).len() == sec.lines@.len());
    if sec.lines.len() == 0 {
        sec.bad(st, "no records resolved");
        if !why.as_str().is_empty() {
            sec.note(st, why.as_str());
        }
        assert(sec@.lines =~= dns_lines(st, rv));
    }
    sec
}

// ---------------------------------------------------------------------------
// Laws
// ---------------------------------------------------------------------------

/// The resolver banner is never taken for a record: neither its "Server:" line
/// nor the address line that follows it.
pub proof fn law_the_banner_is_no_record(ls: Seq<Seq<char>>, i: int)
    requires
        0 <= i < ls.len(),
        is_server_line(ls[i]),
    ensures
        !shows_record(ls, i),
        i + 1 < ls.len() && begins(lowered(trimmed(ls[i + 1])), "address"@) ==> !shows_record(
            ls,
            i + 1,
        ),
{
}

/// Every line that shows a record is reported.
pub proof fn law_every_record_is_reported(
    st: Style,
    t: Seq<char>,
    ls: Seq<Seq<char>>,
    n: nat,
    i: int,
)
    requires
        0 <= i < n <= ls.len(),
        shows_record(ls, i),
    ensures
        record_lines(st, t, ls, n).contains(record_line(st, t, ls[i])),
    decreases n,
{
    let all = record_lines(st, t, ls, n);
    let x = record_line(st, t, ls[i]);
    if i == n - 1 {
        assert(all.last() == x);
    } else {
        law_every_record_is_reported(st, t, ls, (n - 1) as nat, i);
        let had = record_lines(st, t, ls, (n - 1) as nat);
        let k = choose|k: int| 0 <= k < had.len() && had[k] == x;
        assert(all[k] == x);
    }
}

/// The seven record types are looked up one by one, each by its own name, until
/// all are done or the tool turns out to be missing.
pub proof fn law_lookups(runs: Seq<ToolView>, t: Seq<char>, host: Seq<char>)
    ensures
        lookups_are_over(runs) <==> runs.len() >= 7 || exists|i: int|
            0 <= i < runs.len() && #[trigger] runs[i] == ToolView::NotFound,
        lookup_args(t, host) == seq!["-type="@ + t, host],
        RECORD_TYPES@[0]@ == "A"@ && RECORD_TYPES@[1]@ == "AAAA"@ && RECORD_TYPES@[2]@ == "NS"@,
        RECORD_TYPES@[3]@ == "MX"@ && RECORD_TYPES@[4]@ == "TXT"@ && RECORD_TYPES@[5]@ == "SOA"@,
        RECORD_TYPES@[6]@ == "CNAME"@,
{
}

/// Whether line `i` of an answer holds a record: it has one of the words of a
/// record, is no part of the resolver's banner, and does not carry its port.
pub open spec fn holds_record(ls: Seq<Seq<char>>, i: int) -> bool {
    let low = lowered(trimmed(ls[i]));
    let word = {
        ||| includes(low, "internet address"@) || includes(low, "has address"@)
        ||| includes(low, "ipv6 address"@) || includes(low, "mail exchanger"@)
        ||| includes(low, "nameserver"@) || includes(low, "name server"@)
        ||| includes(low, "text ="@) || includes(low, "canonical name"@)
        ||| includes(low, "origin ="@) || includes(low, "addresses:"@)
        ||| includes(low, "address:"@)
    };
    let banner = begins(low, "server:"@) || (i > 0 && begins(
        lowered(trimmed(ls[i - 1])),
        "server:"@,
    ) && begins(low, "address"@));
    word && !banner && !includes(trimmed(ls[i]), "#53"@)
}

proof fn lemma_records_agree(ls: Seq<Seq<char>>, i: int)
    ensures
        shows_record(ls, i) == holds_record(ls, i),
{
    let t = RECORD_WORDS@;
    assert(t[0]@ == "internet address"@ && t[1]@ == "has address"@ && t[2]@ == "ipv6 address"@);
    assert(t[3]@ == "mail exchanger"@ && t[4]@ == "nameserver"@ && t[5]@ == "name server"@);
    assert(t[6]@ == "text ="@ && t[7]@ == "canonical name"@ && t[8]@ == "origin ="@);
    assert(t[9]@ == "addresses:"@ && t[10]@ == "address:"@);
}

/// Each line of an answer adds its record behind those before it, if it holds
/// one, under the type that was asked for, and adds nothing otherwise.
pub proof fn law_records_are_read(st: Style, t: Seq<char>, ls: Seq<Seq<char>>, n: nat)
    requires
        n < ls.len(),
    ensures
        record_lines(st, t, ls, 0) == Seq::<Seq<char>>::empty(),
        record_lines(st, t, ls, n + 1) == (if holds_record(ls, n as int) {
            record_lines(st, t, ls, n).push(
                "  "@ + cyaned(st, type_text(t)) + " "@ + trimmed(ls[n as int]),
            )
        } else {
            record_lines(st, t, ls, n)
        }),
        type_text(t).len() >= 5,
        type_text(t).take(t.len() as int) == t,
        t.len() >= 5 ==> type_text(t) == t,
        forall|i: int|
            t.len() <= i < type_text(t).len() ==> #[trigger] type_text(t)[i] == ' ',
        t.len() <= 5 ==> type_text(t).len() == 5,
{
    lemma_records_agree(ls, n as int);
    assert(type_text(t).take(t.len() as int) =~= t);
}

proof fn lemma_found(st: Style, runs: Seq<ToolView>, n: nat, r: int, x: Seq<char>)
    requires
        0 <= r < n <= runs.len(),
        n <= 7,
        runs[r] is Done,
        answer_lines(st, RECORD_TYPES@[r]@, runs[r]->stdout).contains(x),
    ensures
        found_lines(st, runs, n).contains(x),
    decreases n,
{
    let had = found_lines(st, runs, (n - 1) as nat);
    if r == n - 1 {
        lemma_among(had, answer_lines(st, RECORD_TYPES@[r]@, runs[r]->stdout), x);
    } else {
        lemma_found(st, runs, (n - 1) as nat, r, x);
        match runs[n - 1] {
            ToolView::Done { stdout, .. } => {
                lemma_among(had, answer_lines(st, RECORD_TYPES@[n - 1]@, stdout), x);
            },
            _ => {},
        }
    }
}

/// Every record in the answer to a lookup is reported under the type that was
/// looked up, whatever the other lookups brought; `r` is a lookup that ran
/// before the tool was found missing, if it was, and `i` a line of its answer.
pub proof fn law_every_answer_counts(
    host: Seq<char>,
    runs: Seq<ToolView>,
    st: Style,
    r: int,
    i: int,
)
    requires
        0 <= r < runs.len() <= 7,
        forall|k: int| 0 <= k <= r ==> !(#[trigger] runs[k] is NotFound),
        runs[r] is Done,
        0 <= i < lines(runs[r]->stdout).len(),
        holds_record(lines(runs[r]->stdout), i),
    ensures
        dns_section(host, runs, st).title == "DNS records ("@ + host + ")"@,
        dns_section(host, runs, st).lines.contains(
            "  "@ + cyaned(st, type_text(RECORD_TYPES@[r]@)) + " "@ + trimmed(
                lines(runs[r]->stdout)[i],
            ),
        ),
{
    let ls = lines(runs[r]->stdout);
    let t = RECORD_TYPES@[r]@;
    lemma_records_agree(ls, i);
    law_every_record_is_reported(st, t, ls, ls.len(), i);
    let x = record_line(st, t, ls[i]);
    lemma_made_beyond(runs, r);
    let n = made(runs);
    lemma_found(st, runs, n, r, x);
    let found = found_lines(st, runs, n);
    let k = choose|k: int| 0 <= k < found.len() && found[k] == x;
    assert(dns_lines(st, runs)[k] == x);
}

proof fn lemma_made_beyond(runs: Seq<ToolView>, r: int)
    requires
        0 <= r < runs.len(),
        forall|k: int| 0 <= k <= r ==> !(#[trigger] runs[k] is NotFound),
    ensures
        r < made(runs) <= runs.len(),
    decreases runs.len(),
{
    assert(!(runs[0] is NotFound));
    if r > 0 {
        let rest = runs.skip(1);
        assert forall|k: int| 0 <= k <= r - 1 implies !(#[trigger] rest[k] is NotFound) by {
            assert(!(runs[k + 1] is NotFound));
        }
        lemma_made_beyond(rest, r - 1);
    } else {
        lemma_made_within(runs.skip(1));
    }
}

proof fn lemma_made_within(runs: Seq<ToolView>)
    ensures
        made(runs) <= runs.len(),
    decreases runs.len(),
{
    if runs.len() > 0 {
        lemma_made_within(runs.skip(1));
    }
}

proof fn lemma_found_from(st: Style, runs: Seq<ToolView>, n: nat)
    requires
        n <= runs.len(),
        found_lines(st, runs, n).len() > 0,
    ensures
        exists|r: int, i: int|
            0 <= r < n && #[trigger] runs[r] is Done && 0 <= i < lines(runs[r]->stdout).len()
                && #[trigger] holds_record(lines(runs[r]->stdout), i),
    decreases n,
{
    let had = found_lines(st, runs, (n - 1) as nat);
    if had.len() > 0 {
        lemma_found_from(st, runs, (n - 1) as nat);
    } else {
        let r = n - 1;
        let ls = lines(runs[r]->stdout);
        lemma_record_from(st, RECORD_TYPES@[r]@, ls, ls.len());
        let i = choose|i: int| 0 <= i < ls.len() && #[trigger] shows_record(ls, i);
        lemma_records_agree(ls, i);
        assert(holds_record(lines(runs[r]->stdout), i));
    }
}

proof fn lemma_record_from(st: Style, t: Seq<char>, ls: Seq<Seq<char>>, n: nat)
    requires
        n <= ls.len(),
        record_lines(st, t, ls, n).len() > 0,
    ensures
        exists|i: int| 0 <= i < n && #[trigger] shows_record(ls, i),
    decreases n,
{
    if !shows_record(ls, n - 1) {
        lemma_record_from(st, t, ls, (n - 1) as nat);
    }
}

/// A missing tool is told, behind what was found before. With the tool, no
/// record at all is what is amiss, and the last complaint of the lookups stands
/// behind it, if there is one.
pub proof fn law_no_records(host: Seq<char>, runs: Seq<ToolView>, st: Style)
    ensures
        ({
            let all = dns_section(host, runs, st).lines;
            let missing = exists|k: int| 0 <= k < runs.len() && #[trigger] runs[k] is NotFound;
            let any = exists|r: int, i: int|
                0 <= r < runs.len() && #[trigger] runs[r] is Done && 0 <= i < lines(
                    runs[r]->stdout,
                ).len() && #[trigger] holds_record(lines(runs[r]->stdout), i);
            let why = last_complaint(runs, runs.len());
            &&& missing ==> all.len() > 0 && all.last() == note_line(
                st,
                "nslookup not found on PATH (e.g. sudo apt install dnsutils)"@,
            )
            &&& !missing && !any && why.len() > 0 ==> all == seq![
                bad_line(st, "no records resolved"@),
                note_line(st, why),
            ]
            &&& !missing && !any && why.len() == 0 ==> all == seq![
                bad_line(st, "no records resolved"@),
            ]
        }),
{
    let missing = exists|k: int| 0 <= k < runs.len() && #[trigger] runs[k] is NotFound;
    lemma_made_within(runs);
    if missing {
        lemma_made_stops(runs);
    } else {
        lemma_made(runs, runs.len());
        if found_lines(st, runs, runs.len()).len() > 0 {
            lemma_found_from(st, runs, runs.len());
        }
    }
}

proof fn lemma_made_stops(runs: Seq<ToolView>)
    requires
        exists|k: int| 0 <= k < runs.len() && #[trigger] runs[k] is NotFound,
    ensures
        made(runs) < runs.len(),
    decreases runs.len(),
{
    if !(runs[0] is NotFound) {
        let k = choose|k: int| 0 <= k < runs.len() && #[trigger] runs[k] is NotFound;
        let rest = runs.skip(1);
        assert(rest[k - 1] is NotFound);
        lemma_made_stops(rest);
    }
}

/// The complaint that counts is that of the last lookup that went wrong and said
/// why: what kept the tool from running, or its first message.
pub proof fn law_the_last_complaint_counts(runs: Seq<ToolView>, r: ToolView)
    ensures
        last_complaint(Seq::<ToolView>::empty(), 0) == ""@,
        ({
            let now = last_complaint(runs.push(r), runs.len() + 1);
            let had = last_complaint(runs, runs.len());
            &&& forall|e: Seq<char>| r == ToolView::Failed(e) ==> now == e
            &&& r is NotFound ==> now == had
            &&& r is Done && r->success ==> now == had
            &&& r is Done && !r->success ==> now == (if messages(lines(r->stderr), 1).len() > 0 {
                messages(lines(r->stderr), 1)[0]
            } else {
                had
            })
        }),
{
    lemma_complaint_extends(runs, runs.push(r), runs.len());
}

proof fn lemma_complaint_extends(a: Seq<ToolView>, b: Seq<ToolView>, n: nat)
    requires
        n <= a.len() <= b.len(),
        forall|i: int| 0 <= i < n ==> #[trigger] a[i] == b[i],
    ensures
        last_complaint(a, n) == last_complaint(b, n),
    decreases n,
{
    if n > 0 {
        lemma_complaint_extends(a, b, (n - 1) as nat);
        assert(a[n - 1] == b[n - 1]);
    }
}

/// The records of one lookup stand behind those of the lookups before it, and
/// with the tool at hand and some record found there is nothing else to report.
pub proof fn law_answers_follow_each_other(
    host: Seq<char>,
    runs: Seq<ToolView>,
    st: Style,
    n: nat,
)
    requires
        n < runs.len() <= 7,
    ensures
        found_lines(st, runs, 0) == Seq::<Seq<char>>::empty(),
        runs[n as int] is Done ==> found_lines(st, runs, n + 1) == found_lines(st, runs, n)
            + record_lines(
            st,
            RECORD_TYPES@[n as int]@,
            lines(runs[n as int]->stdout),
            lines(runs[n as int]->stdout).len(),
        ),
        !(runs[n as int] is Done) ==> found_lines(st, runs, n + 1) == found_lines(st, runs, n),
        (forall|k: int| 0 <= k < runs.len() ==> !(#[trigger] runs[k] is NotFound)) && found_lines(
            st,
            runs,
            runs.len(),
        ).len() > 0 ==> dns_section(host, runs, st).lines == found_lines(st, runs, runs.len()),
{
    if forall|k: int| 0 <= k < runs.len() ==> !(#[trigger] runs[k] is NotFound) {
        lemma_made(runs, runs.len());
    }
}

} // verus!
