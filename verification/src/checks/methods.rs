//! Per-method probing.

use crate::checks::headers::{header_line, show_header};
use crate::number::{decimal, lemma_decimal_value, show};
use crate::response::{probed, Probe, ProbeView, Reply};
use crate::section::{note_line, section, Section, SectionView};
use crate::style::{bold, bolded, dimmed, magentaed, Style};
use crate::text::{any_same, cat2, cat4, has_text, repeat, repeated, texts};
use vstd::prelude::*;
use vstd::string::*;

verus! {

/// The methods that can be probed. The last four write, and are probed only when
/// that is asked for.
pub const METHODS: [&'static str; 8] = [
    "GET",
    "HEAD",
    "OPTIONS",
    "TRACE",
    "POST",
    "PUT",
    "DELETE",
    "PATCH",
];

/// How many methods are probed.
pub open spec fn probe_count(active: bool) -> nat {
    if active {
        8
    } else {
        4
    }
}

/// Which methods are probed, in order.
pub fn methods_to_probe(active: bool) -> (r: Vec<&'static str>)
    ensures
        r@.len() == probe_count(active),
        forall|i: int| 0 <= i < r@.len() ==> (#[trigger] r@[i])@ == METHODS@[i]@,
{
    let table = METHODS;
    let n: usize = if active {
        8
    } else {
        4
    };
    let mut r: Vec<&'static str> = Vec::new();
    let mut i: usize = 0;
    while i < n
        invariant
            i <= n <= 8,
            table == METHODS,
            r@.len() == i,
            forall|j: int| 0 <= j < i ==> (#[trigger] r@[j])@ == METHODS@[j]@,
        decreases n - i,
    {
        r.push(table[i]);
        i += 1;
    }
    r
}

/// The views of some probes.
pub open spec fn probe_views(v: Seq<Probe>) -> Seq<ProbeView> {
    Seq::new(v.len(), |i: int| v[i]@)
}

/// A status, set flush right in three columns.
pub open spec fn status_text(status: u16) -> Seq<char> {
    let d = decimal(status as nat);
    if d.len() < 3 {
        repeated(' ', (3 - d.len()) as nat) + d
    } else {
        d
    }
}

/// Where a redirect points.
pub open spec fn redirect_text(p: ProbeView) -> Seq<char> {
    if 300 <= p.status < 400 {
        match p.location {
            Some(l) => " -> "@ + l,
            None => ""@,
        }
    } else {
        ""@
    }
}

/// Whether two answers have the same body.
pub open spec fn same_body(a: ProbeView, b: ProbeView) -> bool {
    a.status != 0 && b.status != 0 && a.body_hash == b.body_hash && a.body_len == b.body_len
}

/// The remark on a write method whose answer has the body of the GET: nothing
/// was actioned there.
pub open spec fn body_text(ps: Seq<ProbeView>, i: int) -> Seq<char> {
    if i >= 4 && same_body(ps[0], ps[i]) {
        " (same body as GET)"@
    } else {
        ""@
    }
}

/// The line on one method. It holds the status only, since a label like
/// "blocked" just restates the code.
pub open spec fn method_line(st: Style, ps: Seq<ProbeView>, i: int) -> Seq<char> {
    "  "@ + status_text(ps[i].status) + " "@ + bolded(st, METHODS@[i]@) + redirect_text(ps[i])
        + body_text(ps, i)
}

/// The lines on the methods.
pub open spec fn method_lines(st: Style, ps: Seq<ProbeView>) -> Seq<Seq<char>> {
    Seq::new(ps.len(), |i: int| method_line(st, ps, i))
}

/// The distinct Allow values.
pub open spec fn allows(ps: Seq<ProbeView>) -> Seq<Seq<char>>
    decreases ps.len(),
{
    if ps.len() == 0 {
        Seq::empty()
    } else {
        let had = allows(ps.drop_last());
        match ps.last().allow {
            Some(a) => if has_text(had, a) {
                had
            } else {
                had.push(a)
            },
            None => had,
        }
    }
}

/// How a protocol is named.
pub open spec fn protocol_text(p: (Seq<char>, Seq<char>)) -> Seq<char> {
    p.0 + " ("@ + p.1 + ")"@
}

/// The distinct protocols that the answers advertise.
pub open spec fn protocols(ps: Seq<ProbeView>) -> Seq<Seq<char>>
    decreases ps.len(),
{
    if ps.len() == 0 {
        Seq::empty()
    } else {
        let had = protocols(ps.drop_last());
        match ps.last().protocol {
            Some(p) => if has_text(had, protocol_text(p)) {
                had
            } else {
                had.push(protocol_text(p))
            },
            None => had,
        }
    }
}

/// The lines that show some values under one name.
pub open spec fn value_lines(st: Style, name: Seq<char>, vals: Seq<Seq<char>>) -> Seq<Seq<char>> {
    Seq::new(vals.len(), |i: int| header_line(st, name, vals[i]))
}

/// The section on methods.
pub open spec fn methods_section(active: bool, ps: Seq<ProbeView>, st: Style) -> SectionView {
    section(
        "HTTP methods"@,
        method_lines(st, ps) + value_lines(st, "allow"@, allows(ps)) + value_lines(
            st,
            "protocol"@,
            protocols(ps),
        ) + (if active {
            Seq::empty()
        } else {
            seq![
                note_line(
                    st,
                    "POST/PUT/DELETE/PATCH not probed; pass --active to include them"@,
                ),
            ]
        }),
    )
}

fn show_status(status: u16) -> (r: String)
    ensures
        r@ == status_text(status),
{
    let d = show(status as u64);
    let n: usize = d.as_str().unicode_len();
    if n < 3 {
        let pad = repeat(' ', 3 - n);
        cat2(pad.as_str(), d.as_str())
    } else {
        d
    }
}

fn show_redirect(p: &Probe) -> (r: String)
    ensures
        r@ == redirect_text(p@),
{
    if p.status >= 300 && p.status < 400 {
        match &p.location {
            Some(l) => cat2(" -> ", l.as_str()),
            None => "".to_owned(),
        }
    } else {
        "".to_owned()
    }
}

fn show_method(st: Style, probes: &Vec<Probe>, i: usize) -> (r: String)
    requires
        i < probes@.len() <= 8,
    ensures
        r@ == method_line(st, probe_views(probes@), i as int),
{
    let table = METHODS;
    let s = show_status(probes[i].status);
    let m = bold(st, table[i]);
    let mut r = cat4("  ", s.as_str(), " ", m.as_str());
    let t = show_redirect(&probes[i]);
    r.append(t.as_str());
    let same = i >= 4 && probes[0].status != 0 && probes[i].status != 0 && probes[0].body_hash
        == probes[i].body_hash && probes[0].body_len == probes[i].body_len;
    if same {
        r.append(" (same body as GET)");
    } else {
        r.append("");
    }
    r
}

fn allows_of(probes: &Vec<Probe>) -> (r: Vec<String>)
    ensures
        texts(r@) == allows(probe_views(probes@)),
{
    let ghost ps = probe_views(probes@);
    let mut r: Vec<String> = Vec::new();
    let mut i: usize = 0;
    assert(texts(r@) =~= allows(ps.take(0)));
    while i < probes.len()
        invariant
            i <= probes@.len(),
            ps == probe_views(probes@),
            texts(r@) == allows(ps.take(i as int)),
        decreases probes@.len() - i,
    {
        assert(ps.take(i + 1).drop_last() =~= ps.take(i as int));
        assert(ps.take(i + 1).last() == probes@[i as int]@);
        match &probes[i].allow {
            Some(a) => {
                if !any_same(&r, a.as_str()) {
                    let ghost had = r@;
                    r.push(a.as_str().to_owned());
                    assert(texts(r@) =~= texts(had).push(a@));
                }
            },
            None => {},
        }
        i += 1;
    }
    assert(ps.take(i as int) =~= ps);
    r
}

fn protocols_of(probes: &Vec<Probe>) -> (r: Vec<String>)
    ensures
        texts(r@) == protocols(probe_views(probes@)),
{
    let ghost ps = probe_views(probes@);
    let mut r: Vec<String> = Vec::new();
    let mut i: usize = 0;
    assert(texts(r@) =~= protocols(ps.take(0)));
    while i < probes.len()
        invariant
            i <= probes@.len(),
            ps == probe_views(probes@),
            texts(r@) == protocols(ps.take(i as int)),
        decreases probes@.len() - i,
    {
        assert(ps.take(i + 1).drop_last() =~= ps.take(i as int));
        assert(ps.take(i + 1).last() == probes@[i as int]@);
        match &probes[i].protocol {
            Some(p) => {
                let t = cat4(p.0.as_str(), " (", p.1.as_str(), ")");
                if !any_same(&r, t.as_str()) {
                    let ghost had = r@;
                    let ghost tv = t@;
                    r.push(t);
                    assert(texts(r@) =~= texts(had).push(tv));
                }
            },
            None => {},
        }
        i += 1;
    }
    assert(ps.take(i as int) =~= ps);
    r
}

fn show_values(st: Style, sec: &mut Section, name: &str, vals: &Vec<String>)
    ensures
        final(sec)@ == old(sec)@.with_all(value_lines(st, name@, texts(vals@))),
{
    let ghost start = sec@;
    let ghost all = value_lines(st, name@, texts(vals@));
    let mut i: usize = 0;
    assert(sec@.lines =~= start.lines + all.take(0));
    while i < vals.len()
        invariant
            i <= vals@.len(),
            all == value_lines(st, name@, texts(vals@)),
            sec@.title == start.title,
            sec@.lines == start.lines + all.take(i as int),
        decreases vals@.len() - i,
    {
        let l = show_header(st, name, vals[i].as_str());
        sec.text(l.as_str());
        assert(sec@.lines =~= start.lines + all.take(i + 1));
        i += 1;
    }
    assert(all.take(i as int) =~= all);
}

/// Reports the probes of the methods, one probe for each of `methods_to_probe`.
/// Redirects are annotated with their target; the server's own Allow header and
/// the protocols it advertises are named, because several protocols reject a
/// request that omits their header before weighing the method.
pub fn methods(active: bool, probes: &Vec<Probe>, st: Style) -> (r: Section)
    requires
        probes@.len() == probe_count(active),
    ensures
        r@ == methods_section(active, probe_views(probes@), st),
{
    let mut sec = Section::new("HTTP methods");
    let ghost ps = probe_views(probes@);
    let ghost all = method_lines(st, ps);
    let mut i: usize = 0;
    assert(sec@.lines =~= all.take(0));
    while i < probes.len()
        invariant
            i <= probes@.len() <= 8,
            ps == probe_views(probes@),
            all == method_lines(st, ps),
            sec@.title == "HTTP methods"@,
            sec@.lines == all.take(i as int),
        decreases probes@.len() - i,
    {
        let l = show_method(st, probes, i);
        sec.text(l.as_str());
        assert(sec@.lines =~= all.take(i + 1));
        i += 1;
    }
    assert(all.take(i as int) =~= all);
    let a = allows_of(probes);
    show_values(st, &mut sec, "allow", &a);
    let p = protocols_of(probes);
    show_values(st, &mut sec, "protocol", &p);
    if !active {
        sec.note(st, "POST/PUT/DELETE/PATCH not probed; pass --active to include them");
    }
    assert(sec@.lines =~= methods_section(active, ps, st).lines);
    sec
}

// ---------------------------------------------------------------------------
// Laws
// ---------------------------------------------------------------------------

/// Two answers with the same bytes are recognized as such.
pub proof fn law_identical_answers_match(a: Reply, b: Reply)
    requires
        a.status != 0,
        b.status != 0,
        a.body@ == b.body@,
    ensures
        same_body(probed(Some(a)), probed(Some(b))),
{
}

/// A request that got no answer matches nothing.
pub proof fn law_no_answer_matches_nothing(p: ProbeView)
    ensures
        !same_body(p, probed(None)),
        !same_body(probed(None), p),
{
}

/// A method that only reads is never said to have the body of the GET.
pub proof fn law_only_writes_are_compared(ps: Seq<ProbeView>, i: int)
    requires
        0 <= i < 4,
    ensures
        body_text(ps, i) == ""@,
{
}

/// The methods that read come first, and those that write only when that is
/// asked for.
pub proof fn law_methods_in_order()
    ensures
        METHODS@[0]@ == "GET"@ && METHODS@[1]@ == "HEAD"@ && METHODS@[2]@ == "OPTIONS"@
            && METHODS@[3]@ == "TRACE"@,
        METHODS@[4]@ == "POST"@ && METHODS@[5]@ == "PUT"@ && METHODS@[6]@ == "DELETE"@
            && METHODS@[7]@ == "PATCH"@,
        probe_count(false) == 4,
        probe_count(true) == 8,
{
}

/// Every method has a line of its own, in order: its status in three columns,
/// its name, where it redirects to if it does, and for a method that writes
/// whether its answer has the body of the GET.
pub proof fn law_every_method_is_told(active: bool, ps: Seq<ProbeView>, st: Style, i: int)
    requires
        0 <= i < ps.len() <= 8,
    ensures
        ({
            let sec = methods_section(active, ps, st);
            let p = ps[i];
            let get = ps[0];
            let code = decimal(p.status as nat);
            let shown = if code.len() >= 3 {
                code
            } else if code.len() == 2 {
                " "@ + code
            } else {
                "  "@ + code
            };
            let target = if p.status >= 300 && p.status <= 399 && p.location is Some {
                " -> "@ + p.location->0
            } else {
                ""@
            };
            let remark = if i >= 4 && p.status != 0 && get.status != 0 && p.body_hash
                == get.body_hash && p.body_len == get.body_len {
                " (same body as GET)"@
            } else {
                ""@
            };
            &&& sec.title == "HTTP methods"@
            &&& sec.lines.len() >= ps.len()
            &&& sec.lines[i] == "  "@ + shown + " "@ + bolded(st, METHODS@[i]@) + target + remark
        }),
{
    reveal_strlit(" ");
    reveal_strlit("  ");
    let code = decimal(ps[i].status as nat);
    lemma_decimal_value(ps[i].status as nat);
    assert(repeated(' ', 1) =~= " "@);
    assert(repeated(' ', 2) =~= "  "@);
    assert(methods_section(active, ps, st).lines[i] == method_lines(st, ps)[i]);
}

proof fn lemma_allow_there(ps: Seq<ProbeView>, i: int)
    requires
        0 <= i < ps.len(),
    ensures
        ps[i].allow is Some ==> allows(ps).contains(ps[i].allow->0),
        ps[i].protocol is Some ==> protocols(ps).contains(
            (ps[i].protocol->0).0 + " ("@ + (ps[i].protocol->0).1 + ")"@,
        ),
    decreases ps.len(),
{
    let prev = ps.drop_last();
    if i < ps.len() - 1 {
        lemma_allow_there(prev, i);
        assert(prev[i] == ps[i]);
    }
    if ps[i].allow is Some {
        let a = ps[i].allow->0;
        let had = allows(prev);
        let all = allows(ps);
        if had.contains(a) {
            let k = choose|k: int| 0 <= k < had.len() && had[k] == a;
            assert(all[k] == a);
        } else {
            assert(i == ps.len() - 1);
            assert(!has_text(had, a));
            assert(all[all.len() - 1] == a);
        }
    }
    if ps[i].protocol is Some {
        let t = protocol_text(ps[i].protocol->0);
        let had = protocols(prev);
        let all = protocols(ps);
        if had.contains(t) {
            let k = choose|k: int| 0 <= k < had.len() && had[k] == t;
            assert(all[k] == t);
        } else {
            assert(i == ps.len() - 1);
            assert(!has_text(had, t));
            assert(all[all.len() - 1] == t);
        }
    }
}

proof fn lemma_allow_from(ps: Seq<ProbeView>, k: int)
    ensures
        0 <= k < allows(ps).len() ==> exists|i: int|
            0 <= i < ps.len() && (#[trigger] ps[i]).allow == Some(allows(ps)[k]),
        0 <= k < protocols(ps).len() ==> exists|i: int|
            0 <= i < ps.len() && (#[trigger] ps[i]).protocol is Some && protocols(ps)[k] == (
            ps[i].protocol->0).0 + " ("@ + (ps[i].protocol->0).1 + ")"@,
    decreases ps.len(),
{
    if ps.len() > 0 {
        let prev = ps.drop_last();
        lemma_allow_from(prev, k);
        assert(forall|i: int| 0 <= i < prev.len() ==> #[trigger] prev[i] == ps[i]);
        assert(ps[ps.len() - 1] == ps.last());
        if 0 <= k < allows(prev).len() {
            let i = choose|i: int|
                0 <= i < prev.len() && (#[trigger] prev[i]).allow == Some(allows(prev)[k]);
            assert(ps[i].allow == Some(allows(ps)[k]));
        }
        if 0 <= k < protocols(prev).len() {
            let i = choose|i: int|
                0 <= i < prev.len() && (#[trigger] prev[i]).protocol is Some && protocols(prev)[k]
                    == (prev[i].protocol->0).0 + " ("@ + (prev[i].protocol->0).1 + ")"@;
            assert(ps[i].protocol is Some);
        }
    }
}

/// The Allow header and the protocol of every answer are shown behind the
/// methods, and nothing else is but the note that the methods that write were
/// left out, when they were.
pub proof fn law_advertised_values_are_told(active: bool, ps: Seq<ProbeView>, st: Style, i: int)
    requires
        0 <= i < ps.len(),
    ensures
        ({
            let all = methods_section(active, ps, st).lines;
            let shown = |name: Seq<char>, v: Seq<char>|
                "  "@ + magentaed(st, name) + ": "@ + dimmed(st, v);
            let note = note_line(
                st,
                "POST/PUT/DELETE/PATCH not probed; pass --active to include them"@,
            );
            let end = if active {
                all.len() as int
            } else {
                all.len() - 1
            };
            &&& ps[i].allow is Some ==> all.contains(shown("allow"@, ps[i].allow->0))
            &&& ps[i].protocol is Some ==> all.contains(
                shown(
                    "protocol"@,
                    (ps[i].protocol->0).0 + " ("@ + (ps[i].protocol->0).1 + ")"@,
                ),
            )
            &&& !active ==> all.last() == note
            &&& forall|k: int|
                ps.len() <= k < end ==> exists|j: int|
                    0 <= j < ps.len() && ((#[trigger] ps[j]).allow is Some && #[trigger] all[k]
                        == shown("allow"@, ps[j].allow->0) || (ps[j].protocol is Some && all[k]
                        == shown(
                        "protocol"@,
                        (ps[j].protocol->0).0 + " ("@ + (ps[j].protocol->0).1 + ")"@,
                    )))
        }),
{
    let all = methods_section(active, ps, st).lines;
    let n = ps.len() as int;
    let a = allows(ps);
    let p = protocols(ps);
    lemma_allow_there(ps, i);
    if ps[i].allow is Some {
        let k = choose|k: int| 0 <= k < a.len() && a[k] == ps[i].allow->0;
        assert(all[n + k] == header_line(st, "allow"@, a[k]));
    }
    if ps[i].protocol is Some {
        let t = protocol_text(ps[i].protocol->0);
        let k = choose|k: int| 0 <= k < p.len() && p[k] == t;
        assert(all[n + a.len() + k] == header_line(st, "protocol"@, p[k]));
    }
    let end = if active {
        all.len() as int
    } else {
        all.len() - 1
    };
    assert(end == n + a.len() + p.len());
    assert forall|k: int| n <= k < end implies exists|j: int|
        0 <= j < ps.len() && ((#[trigger] ps[j]).allow is Some && #[trigger] all[k] == header_line(
            st,
            "allow"@,
            ps[j].allow->0,
        ) || (ps[j].protocol is Some && all[k] == header_line(
            st,
            "protocol"@,
            (ps[j].protocol->0).0 + " ("@ + (ps[j].protocol->0).1 + ")"@,
        ))) by {
        if k < n + a.len() {
            lemma_allow_from(ps, k - n);
            assert(all[k] == header_line(st, "allow"@, a[k - n]));
        } else {
            lemma_allow_from(ps, k - n - a.len());
            assert(all[k] == header_line(st, "protocol"@, p[k - n - a.len()]));
        }
    }
}

/// Each Allow value and each protocol is named once, in the order of the first
/// answer that had it.
pub proof fn law_advertised_values_are_named_once(ps: Seq<ProbeView>, p: ProbeView)
    ensures
        ({
            let none = Seq::<ProbeView>::empty();
            let a = allows(ps);
            let b = protocols(ps);
            let t = (p.protocol->0).0 + " ("@ + (p.protocol->0).1 + ")"@;
            &&& allows(none).len() == 0
            &&& protocols(none).len() == 0
            &&& p.allow is None ==> allows(ps.push(p)) == a
            &&& p.allow is Some && a.contains(p.allow->0) ==> allows(ps.push(p)) == a
            &&& p.allow is Some && !a.contains(p.allow->0) ==> allows(ps.push(p)) == a.push(
                p.allow->0,
            )
            &&& p.protocol is None ==> protocols(ps.push(p)) == b
            &&& p.protocol is Some && b.contains(t) ==> protocols(ps.push(p)) == b
            &&& p.protocol is Some && !b.contains(t) ==> protocols(ps.push(p)) == b.push(t)
        }),
{
    assert(ps.push(p).drop_last() =~= ps);
}

/// The answers to the probes come first; what they allow, the protocols that
/// they advertise, and the note on what was left out follow in this order.
pub proof fn law_the_section_on_methods(active: bool, ps: Seq<ProbeView>, st: Style)
    ensures
        ({
            let all = methods_section(active, ps, st).lines;
            let n = ps.len() as int;
            let m = n + allows(ps).len();
            let o = m + protocols(ps).len();
            &&& all.len() == (if active {
                o
            } else {
                o + 1
            })
            &&& forall|i: int|
                n <= i < m ==> #[trigger] all[i] == "  "@ + magentaed(st, "allow"@) + ": "@
                    + dimmed(st, allows(ps)[i - n])
            &&& forall|i: int|
                m <= i < o ==> #[trigger] all[i] == "  "@ + magentaed(st, "protocol"@) + ": "@
                    + dimmed(st, protocols(ps)[i - m])
        }),
{
}

} // verus!
