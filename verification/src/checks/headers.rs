//! The header dump, and the matrix of security headers.

use crate::checks::hsts::{
    age_at, age_count, ages, directives, discarded, gives_age, hsts_policy, last_age,
    law_case_keeps_the_policy, law_policy_is_read, law_trimming_keeps_the_policy, parse_hsts, Hsts,
};
use crate::fields::{header_fields, list_headers, optional_text, value_text, Field};
use crate::number::{decimal, show};
use crate::order::{
    items, law_sorting_is_stable, law_sorting_keeps_every_item, law_sorting_orders,
    lemma_sorted_len, named, precedes, sort_items, sorted, Item,
};
use crate::response::{Fetched, FetchedView};
use crate::section::{bad_line, good_line, law_marks_differ, section, Section, SectionView};
use crate::style::{bold, bolded, dim, dimmed, magenta, magentaed, Style};
use crate::text::{
    ascii_upper, before, cat2, cat3, cat4, from_chars, halves, head, is_white,
    lemma_trimming_around, lemma_upper_lowered, lemma_upper_strip, lowered, pieces, same, split,
    split_once, split_words, strip, strip_both, strip_start, texts, to_chars, to_lowercase, trim,
    trimmed, words, CharSet,
};
use vstd::prelude::*;
use vstd::string::*;

verus! {

/// The security headers of the matrix.
pub const SECURITY_HEADERS: [&'static str; 9] = [
    "strict-transport-security",
    "content-security-policy",
    "x-frame-options",
    "x-content-type-options",
    "referrer-policy",
    "permissions-policy",
    "cross-origin-opener-policy",
    "cross-origin-embedder-policy",
    "cross-origin-resource-policy",
];

// ---------------------------------------------------------------------------
// Whether a header does anything
// ---------------------------------------------------------------------------

/// The name of a CSP directive: its first word.
pub open spec fn directive_name(d: Seq<char>) -> Option<Seq<char>> {
    if words(d).len() > 0 {
        Some(words(d)[0])
    } else {
        None
    }
}

/// Whether a policy has a directive of that name.
pub open spec fn names_directive(policy: Seq<char>, name: Seq<char>) -> bool {
    exists|i: int|
        0 <= i < pieces(policy, CharSet::One(';')).len() && directive_name(
            #[trigger] pieces(policy, CharSet::One(';'))[i],
        ) == Some(name)
}

/// Whether the CSP names frame-ancestors.
pub open spec fn frame_ancestors_named(f: FetchedView) -> bool {
    match f.get("content-security-policy"@) {
        Some(p) => names_directive(p, "frame-ancestors"@),
        None => false,
    }
}

/// True when the CSP names frame-ancestors, which makes browsers ignore
/// X-Frame-Options entirely.
pub fn csp_has_frame_ancestors(f: &Fetched) -> (r: bool)
    ensures
        r == frame_ancestors_named(f@),
{
    let p = match f.get("content-security-policy") {
        Some(p) => p,
        None => {
            return false;
        },
    };
    let parts = split(p.as_str(), CharSet::One(';'));
    let mut i: usize = 0;
    while i < parts.len()
        invariant
            i <= parts@.len(),
            texts(parts@) == pieces(p@, CharSet::One(';')),
            f@.get("content-security-policy"@) == Some(p@),
            forall|j: int|
                0 <= j < i ==> directive_name(#[trigger] pieces(p@, CharSet::One(';'))[j]) != Some(
                    "frame-ancestors"@,
                ),
        decreases parts@.len() - i,
    {
        let w = split_words(parts[i].as_str());
        assert(texts(parts@)[i as int] == parts@[i as int]@);
        if w.len() > 0 {
            assert(texts(w@)[0] == w@[0]@);
            if same(w[0].as_str(), "frame-ancestors") {
                return true;
            }
        }
        i += 1;
    }
    false
}

/// Whether one of the comma-separated members of a value is `t`.
pub open spec fn lists(v: Seq<char>, t: Seq<char>) -> bool {
    exists|i: int|
        0 <= i < pieces(v, CharSet::One(',')).len() && trimmed(
            #[trigger] pieces(v, CharSet::One(','))[i],
        ) == t
}

fn lists_member(v: &str, t: &str) -> (r: bool)
    ensures
        r == lists(v@, t@),
{
    let parts = split(v, CharSet::One(','));
    let mut i: usize = 0;
    while i < parts.len()
        invariant
            i <= parts@.len(),
            texts(parts@) == pieces(v@, CharSet::One(',')),
            forall|j: int|
                0 <= j < i ==> trimmed(#[trigger] pieces(v@, CharSet::One(','))[j]) != t@,
        decreases parts@.len() - i,
    {
        assert(texts(parts@)[i as int] == parts@[i as int]@);
        let m = trim(parts[i].as_str());
        if same(m.as_str(), t) {
            return true;
        }
        i += 1;
    }
    false
}

/// Whether an entry of a permissions policy allowlists its feature to `*`.
pub open spec fn is_open_entry(d: Seq<char>) -> bool {
    match halves(d, '=') {
        Some(p) => strip(trimmed(head(p.1, '=')), CharSet::One('"')) == "*"@,
        None => false,
    }
}

/// Whether a permissions policy has entries, and all of them are open.
pub open spec fn all_open(v: Seq<char>) -> bool {
    let p = pieces(v, CharSet::One(','));
    &&& exists|i: int| 0 <= i < p.len() && trimmed(#[trigger] p[i]).len() > 0
    &&& forall|i: int|
        0 <= i < p.len() && trimmed(#[trigger] p[i]).len() > 0 ==> is_open_entry(p[i])
}

fn opens_everything(v: &str) -> (r: bool)
    ensures
        r == all_open(v@),
{
    let parts = split(v, CharSet::One(','));
    let ghost p = pieces(v@, CharSet::One(','));
    let mut any = false;
    let mut i: usize = 0;
    while i < parts.len()
        invariant
            i <= parts@.len(),
            p == pieces(v@, CharSet::One(',')),
            texts(parts@) == p,
            any == exists|j: int| 0 <= j < i && trimmed(#[trigger] p[j]).len() > 0,
            forall|j: int|
                0 <= j < i && trimmed(#[trigger] p[j]).len() > 0 ==> is_open_entry(p[j]),
        decreases parts@.len() - i,
    {
        assert(texts(parts@)[i as int] == parts@[i as int]@);
        let t = trim(parts[i].as_str());
        if !t.as_str().is_empty() {
            assert(trimmed(p[i as int]).len() > 0);
            any = true;
            let open = match split_once(parts[i].as_str(), '=') {
                Some(q) => {
                    let a = before(q.1.as_str(), '=');
                    let a = trim(a.as_str());
                    let a = strip_both(a.as_str(), CharSet::One('"'));
                    same(a.as_str(), "*")
                },
                None => false,
            };
            if !open {
                return false;
            }
        }
        i += 1;
    }
    any
}

/// What an HSTS value leaves off.
pub open spec fn hsts_fault(is_https: bool, h: Hsts) -> Option<Seq<char>> {
    if !is_https {
        Some("served over http"@)
    } else if h.repeated_max_age {
        Some("repeated max-age"@)
    } else {
        match h.max_age {
            None => Some("no valid max-age"@),
            Some(a) => if a == 0 {
                Some("max-age=0"@)
            } else {
                None
            },
        }
    }
}

/// Why a security header that is present leaves its protection off, if it does.
pub open spec fn fault(name: Seq<char>, value: Seq<char>, f: FetchedView) -> Option<Seq<char>> {
    let v = trimmed(value);
    let low = lowered(v);
    if v.len() == 0 {
        Some("empty value"@)
    } else if name == "strict-transport-security"@ {
        hsts_fault(f.is_https, hsts_policy(v))
    } else if name == "x-frame-options"@ {
        if frame_ancestors_named(f) {
            Some("overridden by CSP frame-ancestors"@)
        } else if low == "deny"@ || low == "sameorigin"@ {
            None
        } else {
            Some(v + " is not honored"@)
        }
    } else if name == "x-content-type-options"@ {
        if low == "nosniff"@ {
            None
        } else {
            Some(v + " is not nosniff"@)
        }
    } else if name == "referrer-policy"@ {
        if lists(low, "unsafe-url"@) {
            Some("unsafe-url sends the full URL"@)
        } else {
            None
        }
    } else if name == "cross-origin-opener-policy"@ || name == "cross-origin-embedder-policy"@ {
        // A single token, ignoring any report-to style parameters.
        if trimmed(head(low, ';')) == "unsafe-none"@ {
            Some("unsafe-none is the default"@)
        } else {
            None
        }
    } else if name == "cross-origin-resource-policy"@ {
        if low == "cross-origin"@ {
            Some("cross-origin allows any site"@)
        } else {
            None
        }
    } else if name == "permissions-policy"@ {
        // An allowlist of * grants the feature to every embedded frame, so a
        // policy whose entries are all * is looser than sending no header.
        if all_open(low) {
            Some("every feature allowlisted to *"@)
        } else {
            None
        }
    } else {
        None
    }
}

fn hsts_fault_of(is_https: bool, h: Hsts) -> (r: Option<String>)
    ensures
        optional_text(r) == hsts_fault(is_https, h),
{
    if !is_https {
        return Some("served over http".to_owned());
    }
    if h.repeated_max_age {
        return Some("repeated max-age".to_owned());
    }
    match h.max_age {
        None => Some("no valid max-age".to_owned()),
        Some(a) => if a == 0 {
            Some("max-age=0".to_owned())
        } else {
            None
        },
    }
}

/// Judges whether a security header actually does anything. Returns the reason
/// when the header is present but its value leaves the protection off.
pub fn header_ineffective(name: &str, value: &str, f: &Fetched) -> (r: Option<String>)
    ensures
        optional_text(r) == fault(name@, value@, f@),
{
    let v = trim(value);
    let low = to_lowercase(v.as_str());
    if v.as_str().is_empty() {
        return Some("empty value".to_owned());
    }
    if same(name, "strict-transport-security") {
        let h = parse_hsts(v.as_str());
        hsts_fault_of(f.is_https, h)
    } else if same(name, "x-frame-options") {
        // Only DENY and SAMEORIGIN are honored; ALLOW-FROM was never implemented.
        if csp_has_frame_ancestors(f) {
            Some("overridden by CSP frame-ancestors".to_owned())
        } else if same(low.as_str(), "deny") || same(low.as_str(), "sameorigin") {
            None
        } else {
            Some(cat2(v.as_str(), " is not honored"))
        }
    } else if same(name, "x-content-type-options") {
        if same(low.as_str(), "nosniff") {
            None
        } else {
            Some(cat2(v.as_str(), " is not nosniff"))
        }
    } else if same(name, "referrer-policy") {
        if lists_member(low.as_str(), "unsafe-url") {
            Some("unsafe-url sends the full URL".to_owned())
        } else {
            None
        }
    } else if same(name, "cross-origin-opener-policy") || same(
        name,
        "cross-origin-embedder-policy",
    ) {
        let token = before(low.as_str(), ';');
        let token = trim(token.as_str());
        if same(token.as_str(), "unsafe-none") {
            Some("unsafe-none is the default".to_owned())
        } else {
            None
        }
    } else if same(name, "cross-origin-resource-policy") {
        if same(low.as_str(), "cross-origin") {
            Some("cross-origin allows any site".to_owned())
        } else {
            None
        }
    } else if same(name, "permissions-policy") {
        if opens_everything(low.as_str()) {
            Some("every feature allowlisted to *".to_owned())
        } else {
            None
        }
    } else {
        None
    }
}

// ---------------------------------------------------------------------------
// The section
// ---------------------------------------------------------------------------

/// The headers as they are listed: a value that is not text shows as empty.
pub open spec fn listed(fs: Seq<Field>) -> Seq<Item> {
    Seq::new(
        fs.len(),
        |i: int|
            (
                fs[i].0,
                match value_text(fs[i].1) {
                    Some(t) => t,
                    None => Seq::empty(),
                },
            ),
    )
}

/// A value as it is shown: cookies in full; other long values are cut for
/// readability.
pub open spec fn shown_value(name: Seq<char>, value: Seq<char>) -> Seq<char> {
    if name == "set-cookie"@ || value.len() <= 100 {
        value
    } else {
        value.take(100) + "..."@
    }
}

/// The line that shows a header.
pub open spec fn header_line(st: Style, name: Seq<char>, value: Seq<char>) -> Seq<char> {
    "  "@ + magentaed(st, name) + ": "@ + dimmed(st, value)
}

/// The lines that show some headers.
pub open spec fn dump(st: Style, hs: Seq<Item>) -> Seq<Seq<char>> {
    Seq::new(hs.len(), |i: int| header_line(st, hs[i].0, shown_value(hs[i].0, hs[i].1)))
}

/// The line of the matrix on one security header.
pub open spec fn matrix_line(st: Style, f: FetchedView, name: Seq<char>) -> Seq<char> {
    match f.get(name) {
        None => bad_line(st, name),
        Some(v) => match fault(name, v, f) {
            None => good_line(st, name),
            Some(why) => bad_line(st, name + " ineffective ("@ + why + ")"@),
        },
    }
}

/// The matrix of security headers.
pub open spec fn matrix(st: Style, f: FetchedView) -> Seq<Seq<char>> {
    Seq::new(9, |i: int| matrix_line(st, f, SECURITY_HEADERS@[i]@))
}

/// The section on headers.
pub open spec fn headers_section(f: FetchedView, st: Style) -> SectionView {
    section(
        "HTTP headers"@,
        seq![
            dimmed(st, "  "@ + decimal(f.fields.len()) + " response headers"@),
        ] + dump(st, sorted(listed(f.fields))) + seq![
            ""@,
            bolded(st, "  security headers"@),
        ] + matrix(st, f),
    )
}

fn show_value(name: &str, value: &str) -> (r: String)
    ensures
        r@ == shown_value(name@, value@),
{
    let v = to_chars(value);
    if same(name, "set-cookie") || v.len() <= 100 {
        value.to_owned()
    } else {
        let h = from_chars(&v, 0, 100);
        cat2(h.as_str(), "...")
    }
}

/// Shows a header.
pub fn show_header(st: Style, name: &str, value: &str) -> (r: String)
    ensures
        r@ == header_line(st, name@, value@),
{
    let n = magenta(st, name);
    let v = dim(st, value);
    cat4("  ", n.as_str(), ": ", v.as_str())
}

fn list_of(f: &Fetched) -> (r: Vec<(String, String)>)
    ensures
        items(r@) == listed(f@.fields),
{
    let all = list_headers(&f.headers);
    let mut r: Vec<(String, String)> = Vec::new();
    let ghost want = listed(f@.fields);
    let mut i: usize = 0;
    assert(items(r@) =~= want.take(0));
    while i < all.len()
        invariant
            i <= all@.len(),
            all@.len() == f@.fields.len(),
            want == listed(f@.fields),
            f@.fields == header_fields(f.headers),
            forall|j: int|
                0 <= j < all@.len() ==> (#[trigger] all@[j]).0@ == header_fields(f.headers)[j].0
                    && optional_text(all@[j].1) == value_text(header_fields(f.headers)[j].1),
            items(r@) == want.take(i as int),
        decreases all@.len() - i,
    {
        let ghost before = items(r@);
        let v = match &all[i].1 {
            Some(t) => t.as_str().to_owned(),
            None => String::new(),
        };
        let k = all[i].0.as_str().to_owned();
        assert(all@[i as int].0@ == header_fields(f.headers)[i as int].0);
        assert(want[i as int] == (k@, v@));
        r.push((k, v));
        assert(items(r@) =~= before.push((k@, v@)));
        assert(want.take(i + 1) =~= want.take(i as int).push(want[i as int]));
        i += 1;
    }
    assert(want.take(i as int) =~= want);
    r
}

fn judge(st: Style, f: &Fetched, name: &str, sec: &mut Section)
    ensures
        final(sec)@ == old(sec)@.with(matrix_line(st, f@, name@)),
{
    match f.get(name) {
        None => sec.bad(st, name),
        Some(v) => match header_ineffective(name, v.as_str(), f) {
            None => sec.good(st, name),
            Some(why) => {
                let t = cat4(name, " ineffective (", why.as_str(), ")");
                sec.bad(st, t.as_str());
            },
        },
    }
}

/// The full response-header dump, and the security-header matrix. Values are
/// checked, not just presence.
pub fn headers(f: &Fetched, st: Style) -> (r: Section)
    ensures
        r@ == headers_section(f@, st),
{
    let mut sec = Section::new("HTTP headers");
    let list = list_of(f);
    let list = sort_items(&list);
    let ghost want = sorted(listed(f@.fields));
    proof {
        lemma_sorted_len(listed(f@.fields));
    }
    let n = show(list.len() as u64);
    let t = cat3("  ", n.as_str(), " response headers");
    let t = dim(st, t.as_str());
    sec.text(t.as_str());
    let ghost first = seq![dimmed(st, "  "@ + decimal(f@.fields.len()) + " response headers"@)];
    let mut i: usize = 0;
    assert(sec@.lines =~= first + dump(st, want.take(0)));
    while i < list.len()
        invariant
            i <= list@.len(),
            items(list@) == want,
            sec@.title == "HTTP headers"@,
            sec@.lines == first + dump(st, want.take(i as int)),
        decreases list@.len() - i,
    {
        let v = show_value(list[i].0.as_str(), list[i].1.as_str());
        let l = show_header(st, list[i].0.as_str(), v.as_str());
        sec.text(l.as_str());
        assert(want[i as int] == (list@[i as int].0@, list@[i as int].1@));
        assert(sec@.lines =~= first + dump(st, want.take(i + 1)));
        i += 1;
    }
    assert(want.take(i as int) =~= want);
    sec.text("");
    let b = bold(st, "  security headers");
    sec.text(b.as_str());
    let ghost upper = first + dump(st, want) + seq![""@, bolded(st, "  security headers"@)];
    assert(sec@.lines =~= upper);
    let table = SECURITY_HEADERS;
    let mut j: usize = 0;
    assert(upper =~= upper + matrix(st, f@).take(0));
    while j < 9
        invariant
            j <= 9,
            table == SECURITY_HEADERS,
            sec@.title == "HTTP headers"@,
            sec@.lines == upper + matrix(st, f@).take(j as int),
        decreases 9 - j,
    {
        judge(st, f, table[j], &mut sec);
        assert(sec@.lines =~= upper + matrix(st, f@).take(j + 1));
        j += 1;
    }
    assert(matrix(st, f@).take(9) =~= matrix(st, f@));
    sec
}

/// The matrix calls an HSTS header ineffective exactly when the HSTS check, on a
/// host that is no IP address, reports that browsers discard it.
pub proof fn law_matrix_agrees_with_hsts(value: Seq<char>, f: FetchedView)
    ensures
        fault("strict-transport-security"@, value, f) is Some <==> discarded(
            f.is_https,
            false,
            hsts_policy(value),
        ) is Some,
{
    law_trimming_keeps_the_policy(value);
    let v = trimmed(value);
    if v.len() == 0 {
        reveal_strlit("max-age=");
        reveal_with_fuel(age_count, 2);
        reveal_with_fuel(last_age, 2);
        let ds = directives(v);
        assert(v =~= Seq::empty());
        assert(pieces(v, CharSet::One(';')) =~= seq![v]);
        assert(trimmed(v) =~= v);
        assert(ds.len() == 1 && ds[0] == lowered(v));
        assert(ds.drop_last() =~= Seq::empty());
        assert(lowered(v) =~= Seq::empty());
        assert(!gives_age(ds[0]));
    }
}

/// The matrix passes a header exactly when it is present and its value leaves the
/// protection on.
pub proof fn law_only_effective_headers_pass(st: Style, f: FetchedView, name: Seq<char>)
    ensures
        matrix_line(st, f, name) == good_line(st, name) <==> (match f.get(name) {
            Some(v) => fault(name, v, f) is None,
            None => false,
        }),
{
    match f.get(name) {
        None => {
            law_marks_differ(st, name, name);
        },
        Some(v) => match fault(name, v, f) {
            Some(why) => {
                law_marks_differ(st, name, name + " ineffective ("@ + why + ")"@);
            },
            None => {},
        },
    }
}

/// White space around a value makes no difference to the judgement.
pub proof fn law_white_space_is_ignored(
    name: Seq<char>,
    before: Seq<char>,
    value: Seq<char>,
    after: Seq<char>,
    f: FetchedView,
)
    requires
        forall|i: int| 0 <= i < before.len() ==> is_white(#[trigger] before[i]),
        forall|i: int| 0 <= i < after.len() ==> is_white(#[trigger] after[i]),
    ensures
        fault(name, before + value + after, f) == fault(name, value, f),
{
    lemma_trimming_around(before, value, after);
}

/// A blank value leaves the protection off, whatever the header.
pub proof fn law_a_blank_value_is_ineffective(name: Seq<char>, value: Seq<char>, f: FetchedView)
    requires
        forall|i: int| 0 <= i < value.len() ==> is_white(#[trigger] value[i]),
    ensures
        fault(name, value, f) == Some("empty value"@),
{
    let none = Seq::<char>::empty();
    lemma_trimming_around(value, none, none);
    assert(value + none + none =~= value);
    assert(trimmed(none) =~= none);
}

/// The case of the ASCII letters of a value makes no difference to whether the
/// protection is on.
pub proof fn law_case_is_ignored(name: Seq<char>, value: Seq<char>, f: FetchedView)
    ensures
        fault(name, ascii_upper(value), f) is Some <==> fault(name, value, f) is Some,
{
    let w = CharSet::White;
    lemma_upper_strip(value, w);
    lemma_upper_strip(strip_start(value, w), w);
    lemma_upper_lowered(trimmed(value));
    law_case_keeps_the_policy(trimmed(value));
}

/// Whether one of the parts of a policy begins with that word.
pub open spec fn opens_with(policy: Seq<char>, word: Seq<char>) -> bool {
    exists|i: int|
        0 <= i < pieces(policy, CharSet::One(';')).len() && words(
            #[trigger] pieces(policy, CharSet::One(';'))[i],
        ).len() > 0 && words(pieces(policy, CharSet::One(';'))[i])[0] == word
}

/// A CSP that names frame-ancestors is known for it.
pub proof fn law_frame_ancestors(f: FetchedView)
    ensures
        frame_ancestors_named(f) <==> match f.get("content-security-policy"@) {
            Some(p) => opens_with(p, "frame-ancestors"@),
            None => false,
        },
{
    match f.get("content-security-policy"@) {
        Some(p) => {
            let q = pieces(p, CharSet::One(';'));
            if frame_ancestors_named(f) {
                let i = choose|i: int|
                    0 <= i < q.len() && directive_name(#[trigger] q[i]) == Some(
                        "frame-ancestors"@,
                    );
                assert(words(q[i])[0] == "frame-ancestors"@);
            }
            if opens_with(p, "frame-ancestors"@) {
                let i = choose|i: int|
                    0 <= i < q.len() && words(#[trigger] q[i]).len() > 0 && words(q[i])[0]
                        == "frame-ancestors"@;
                assert(directive_name(q[i]) == Some("frame-ancestors"@));
            }
        },
        None => {},
    }
}

/// The framing and sniffing headers protect with their honored values alone;
/// every other value is named.
pub proof fn law_honored_values(value: Seq<char>, f: FetchedView)
    requires
        trimmed(value).len() > 0,
    ensures
        ({
            let v = trimmed(value);
            let low = lowered(v);
            let framed = match f.get("content-security-policy"@) {
                Some(p) => opens_with(p, "frame-ancestors"@),
                None => false,
            };
            &&& fault("x-frame-options"@, value, f) == (if framed {
                Some("overridden by CSP frame-ancestors"@)
            } else if low == "deny"@ || low == "sameorigin"@ {
                None
            } else {
                Some(v + " is not honored"@)
            })
            &&& fault("x-content-type-options"@, value, f) == (if low == "nosniff"@ {
                None
            } else {
                Some(v + " is not nosniff"@)
            })
        }),
{
    law_frame_ancestors(f);
    lemma_names_differ();
}

/// The policies on referrers, openers, embedders and resources protect unless
/// they say the one thing that gives the protection up.
pub proof fn law_given_up_values(value: Seq<char>, f: FetchedView)
    requires
        trimmed(value).len() > 0,
    ensures
        ({
            let low = lowered(trimmed(value));
            let members = pieces(low, CharSet::One(','));
            let default = if trimmed(head(low, ';')) == "unsafe-none"@ {
                Some("unsafe-none is the default"@)
            } else {
                None
            };
            &&& fault("referrer-policy"@, value, f) == (if exists|i: int|
                0 <= i < members.len() && trimmed(#[trigger] members[i]) == "unsafe-url"@ {
                Some("unsafe-url sends the full URL"@)
            } else {
                None
            })
            &&& fault("cross-origin-opener-policy"@, value, f) == default
            &&& fault("cross-origin-embedder-policy"@, value, f) == default
            &&& fault("cross-origin-resource-policy"@, value, f) == (if low == "cross-origin"@ {
                Some("cross-origin allows any site"@)
            } else {
                None
            })
            &&& fault("content-security-policy"@, value, f) is None
        }),
{
    lemma_names_differ();
}

/// A permissions policy protects unless it has entries and each of them opens
/// its feature to every site.
pub proof fn law_open_permissions(value: Seq<char>, f: FetchedView)
    requires
        trimmed(value).len() > 0,
    ensures
        ({
            let entries = pieces(lowered(trimmed(value)), CharSet::One(','));
            let opens = |e: Seq<char>|
                halves(e, '=') is Some && strip(
                    trimmed(head((halves(e, '=')->0).1, '=')),
                    CharSet::One('"'),
                ) == "*"@;
            fault("permissions-policy"@, value, f) == (if (exists|i: int|
                0 <= i < entries.len() && trimmed(#[trigger] entries[i]).len() > 0) && (forall|
                i: int,
            |
                0 <= i < entries.len() && trimmed(#[trigger] entries[i]).len() > 0 ==> opens(
                    entries[i],
                )) {
                Some("every feature allowlisted to *"@)
            } else {
                None
            })
        }),
{
    lemma_names_differ();
    let entries = pieces(lowered(trimmed(value)), CharSet::One(','));
    let opens = |e: Seq<char>|
        halves(e, '=') is Some && strip(
            trimmed(head((halves(e, '=')->0).1, '=')),
            CharSet::One('"'),
        ) == "*"@;
    assert(forall|e: Seq<char>| #[trigger] is_open_entry(e) == opens(e));
    if forall|i: int|
        0 <= i < entries.len() && trimmed(#[trigger] entries[i]).len() > 0 ==> opens(entries[i]) {
        assert forall|i: int|
            0 <= i < entries.len() && trimmed(#[trigger] entries[i]).len() > 0 implies is_open_entry(
            entries[i],
        ) by {
            assert(opens(entries[i]));
        }
    }
    if forall|i: int|
        0 <= i < entries.len() && trimmed(#[trigger] entries[i]).len() > 0 ==> is_open_entry(
            entries[i],
        ) {
        assert forall|i: int|
            0 <= i < entries.len() && trimmed(#[trigger] entries[i]).len() > 0 implies opens(
            entries[i],
        ) by {
            assert(is_open_entry(entries[i]));
        }
    }
}

/// Transport security protects over https, with one max-age that is a number
/// other than zero, and only so.
pub proof fn law_transport_security(value: Seq<char>, f: FetchedView)
    requires
        trimmed(value).len() > 0,
    ensures
        ({
            let v = trimmed(value);
            let why = fault("strict-transport-security"@, value, f);
            let twice = exists|i: int, j: int|
                i < j && #[trigger] ages(v, i) && #[trigger] ages(v, j);
            &&& !f.is_https ==> why == Some("served over http"@)
            &&& f.is_https && twice ==> why == Some("repeated max-age"@)
            &&& f.is_https && !twice && (forall|i: int| !#[trigger] ages(v, i)) ==> why == Some(
                "no valid max-age"@,
            )
            &&& forall|i: int|
                f.is_https && !twice && #[trigger] ages(v, i) ==> why == (match age_at(v, i) {
                    None => Some("no valid max-age"@),
                    Some(a) => if a == 0 {
                        Some("max-age=0"@)
                    } else {
                        None
                    },
                })
        }),
{
    let v = trimmed(value);
    law_policy_is_read(v);
    assert forall|i: int| #[trigger] ages(v, i) && !hsts_policy(v).repeated_max_age implies
        hsts_policy(v).max_age == age_at(v, i) by {
        assert forall|j: int| i < j implies !#[trigger] ages(v, j) by {}
    }
}

proof fn lemma_names_differ()
    ensures
        "strict-transport-security"@.len() == 25,
        "content-security-policy"@.len() == 23,
        "x-frame-options"@.len() == 15,
        "x-content-type-options"@.len() == 22,
        "referrer-policy"@.len() == 15,
        "permissions-policy"@.len() == 18,
        "cross-origin-opener-policy"@.len() == 26,
        "cross-origin-embedder-policy"@.len() == 28,
        "cross-origin-resource-policy"@.len() == 28,
        "x-frame-options"@ != "referrer-policy"@,
        "cross-origin-embedder-policy"@ != "cross-origin-resource-policy"@,
{
    reveal_strlit("strict-transport-security");
    reveal_strlit("content-security-policy");
    reveal_strlit("x-frame-options");
    reveal_strlit("x-content-type-options");
    reveal_strlit("referrer-policy");
    reveal_strlit("permissions-policy");
    reveal_strlit("cross-origin-opener-policy");
    reveal_strlit("cross-origin-embedder-policy");
    reveal_strlit("cross-origin-resource-policy");
    assert("x-frame-options"@[0] == 'x' && "referrer-policy"@[0] == 'r');
    assert("cross-origin-embedder-policy"@[13] == 'e' && "cross-origin-resource-policy"@[13]
        == 'r');
}

/// The matrix stands at the end, with one line for each of the nine security
/// headers: missing, ineffective with the reason, or in order.
pub proof fn law_the_matrix_is_whole(f: FetchedView, st: Style)
    ensures
        ({
            let all = headers_section(f, st).lines;
            let m = all.skip(all.len() - 9);
            let told = |name: Seq<char>, l: Seq<char>|
                match f.get(name) {
                    None => l == bad_line(st, name),
                    Some(v) => match fault(name, v, f) {
                        None => l == good_line(st, name),
                        Some(why) => l == bad_line(st, name + " ineffective ("@ + why + ")"@),
                    },
                };
            &&& headers_section(f, st).title == "HTTP headers"@
            &&& all.len() == f.fields.len() + 12
            &&& told("strict-transport-security"@, m[0])
            &&& told("content-security-policy"@, m[1])
            &&& told("x-frame-options"@, m[2])
            &&& told("x-content-type-options"@, m[3])
            &&& told("referrer-policy"@, m[4])
            &&& told("permissions-policy"@, m[5])
            &&& told("cross-origin-opener-policy"@, m[6])
            &&& told("cross-origin-embedder-policy"@, m[7])
            &&& told("cross-origin-resource-policy"@, m[8])
        }),
{
    lemma_sorted_len(listed(f.fields));
    let all = headers_section(f, st).lines;
    let m = all.skip(all.len() - 9);
    assert(m =~= matrix(st, f));
    let t = SECURITY_HEADERS@;
    assert(t[0]@ == "strict-transport-security"@ && t[1]@ == "content-security-policy"@ && t[2]@
        == "x-frame-options"@);
    assert(t[3]@ == "x-content-type-options"@ && t[4]@ == "referrer-policy"@ && t[5]@
        == "permissions-policy"@);
    assert(t[6]@ == "cross-origin-opener-policy"@ && t[7]@ == "cross-origin-embedder-policy"@
        && t[8]@ == "cross-origin-resource-policy"@);
}

/// Every header of a response is shown, in the order of the names behind the
/// number of headers: a cookie in full, any other value up to a hundred
/// characters.
pub proof fn law_every_header_is_shown(f: FetchedView, st: Style, i: int)
    requires
        0 <= i < f.fields.len(),
    ensures
        ({
            let all = headers_section(f, st).lines;
            let name = f.fields[i].0;
            let value = match value_text(f.fields[i].1) {
                Some(t) => t,
                None => Seq::empty(),
            };
            let shown = if name != "set-cookie"@ && value.len() > 100 {
                value.take(100) + "..."@
            } else {
                value
            };
            &&& all[0] == dimmed(st, "  "@ + decimal(f.fields.len()) + " response headers"@)
            &&& exists|k: int|
                1 <= k <= f.fields.len() && #[trigger] all[k] == "  "@ + magentaed(st, name)
                    + ": "@ + dimmed(st, shown)
        }),
{
    let s = listed(f.fields);
    let t = sorted(s);
    law_sorting_keeps_every_item(s, s[i]);
    assert(s.contains(s[i]));
    let k = choose|k: int| 0 <= k < t.len() && t[k] == s[i];
    let all = headers_section(f, st).lines;
    assert(all[k + 1] == dump(st, t)[k]);
}

/// The headers are listed by name, those of one name in the order in which they
/// came, and none is added or left out.
pub proof fn law_headers_are_listed_in_order(f: FetchedView, st: Style, name: Seq<char>)
    ensures
        ({
            let s = listed(f.fields);
            let t = sorted(s);
            let all = headers_section(f, st).lines;
            &&& s.len() == f.fields.len()
            &&& forall|i: int|
                0 <= i < s.len() ==> (#[trigger] s[i]).0 == f.fields[i].0 && s[i].1 == (
                match value_text(f.fields[i].1) {
                    Some(v) => v,
                    None => Seq::empty(),
                })
            &&& t.to_multiset() == s.to_multiset()
            &&& forall|i: int, j: int|
                0 <= i < j < t.len() ==> !precedes((#[trigger] t[j]).0, (#[trigger] t[i]).0)
            &&& named(t, name) == named(s, name)
            &&& t.len() == f.fields.len()
            &&& forall|i: int|
                0 <= i < t.len() ==> #[trigger] all[i + 1] == "  "@ + magentaed(st, t[i].0) + ": "@
                    + dimmed(
                    st,
                    if t[i].0 != "set-cookie"@ && t[i].1.len() > 100 {
                        t[i].1.take(100) + "..."@
                    } else {
                        t[i].1
                    },
                )
            &&& all[(t.len() + 1) as int] == ""@
            &&& all[(t.len() + 2) as int] == bolded(st, "  security headers"@)
        }),
{
    let s = listed(f.fields);
    let t = sorted(s);
    let all = headers_section(f, st).lines;
    law_sorting_orders(s);
    law_sorting_is_stable(s, name);
    lemma_sorted_len(s);
    assert forall|i: int| 0 <= i < t.len() implies #[trigger] all[i + 1] == header_line(
        st,
        t[i].0,
        shown_value(t[i].0, t[i].1),
    ) by {
        assert(all[i + 1] == dump(st, t)[i]);
    }
}

} // verus!
