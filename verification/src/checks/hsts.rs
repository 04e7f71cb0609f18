//! Strict-Transport-Security: parsing and grading.

use crate::fields::optional_text;
use crate::number::{integer_in, read_integer, show_quotient, show_signed, signed_decimal, towards_zero};
use crate::response::{Fetched, FetchedView};
use crate::section::{bad_line, good_line, section, Section, SectionView};
use crate::style::{dim, dimmed, Style};
use crate::text::{
    any_same, ascii_upper, begins, cat2, cat3, cat5, from_chars, has_text, is_white, join, joined,
    law_joining, lemma_pieces_front, lemma_pieces_nonempty, lemma_trimming_white,
    lemma_upper_lowered, lemma_upper_pieces, lemma_upper_strip, lowered, pieces, split, starts_with,
    strip, strip_both, strip_end, strip_start, texts, to_chars, to_lowercase, trim, trimmed,
    CharSet,
};
use crate::url::{host_is_address, host_is_ip};
use vstd::prelude::*;
use vstd::string::*;

verus! {

/// Shortest HSTS max-age generally considered adequate (6 months).
pub const HSTS_MIN_AGE: i64 = 15_768_000;

/// Shortest max-age the HSTS preload list accepts (1 year).
pub const PRELOAD_MIN_AGE: i64 = 31_536_000;

/// A parsed Strict-Transport-Security value.
#[derive(Clone, Copy, Debug, PartialEq, Eq, Structural)]
pub struct Hsts {
    /// The age that the last `max-age` gives, if it is a number.
    pub max_age: Option<i64>,
    pub include_subdomains: bool,
    pub preload: bool,
    pub repeated_max_age: bool,
}

/// The directives of a value, trimmed and in lower case.
pub open spec fn directives(v: Seq<char>) -> Seq<Seq<char>> {
    let p = pieces(v, CharSet::One(';'));
    Seq::new(p.len(), |i: int| lowered(trimmed(p[i])))
}

/// Whether a directive gives a max-age.
pub open spec fn gives_age(d: Seq<char>) -> bool {
    begins(d, "max-age="@)
}

/// The age in a directive that gives one.
pub open spec fn age_in(d: Seq<char>) -> Option<i64> {
    integer_in(strip(trimmed(d.skip(8)), CharSet::One('"')))
}

/// How many directives give a max-age.
pub open spec fn age_count(ds: Seq<Seq<char>>) -> nat
    decreases ds.len(),
{
    if ds.len() == 0 {
        0
    } else if gives_age(ds.last()) {
        age_count(ds.drop_last()) + 1
    } else {
        age_count(ds.drop_last())
    }
}

/// The age that the last max-age gives.
pub open spec fn last_age(ds: Seq<Seq<char>>) -> Option<i64>
    decreases ds.len(),
{
    if ds.len() == 0 {
        None
    } else if gives_age(ds.last()) {
        age_in(ds.last())
    } else {
        last_age(ds.drop_last())
    }
}

/// The policy that some directives make.
pub open spec fn policy_of(ds: Seq<Seq<char>>) -> Hsts {
    Hsts {
        max_age: last_age(ds),
        include_subdomains: has_text(ds, "includesubdomains"@),
        preload: has_text(ds, "preload"@),
        repeated_max_age: age_count(ds) > 1,
    }
}

/// The policy that a value states.
pub open spec fn hsts_policy(v: Seq<char>) -> Hsts {
    policy_of(directives(v))
}

/// Parses a Strict-Transport-Security value.
pub fn parse_hsts(v: &str) -> (r: Hsts)
    ensures
        r == hsts_policy(v@),
{
    proof {
        reveal_strlit("max-age=");
    }
    let parts = split(v, CharSet::One(';'));
    let mut ds: Vec<String> = Vec::new();
    let mut count: usize = 0;
    let mut max_age: Option<i64> = None;
    let ghost want = directives(v@);
    let mut i: usize = 0;
    while i < parts.len()
        invariant
            i <= parts@.len(),
            "max-age="@.len() == 8,
            texts(parts@) == pieces(v@, CharSet::One(';')),
            want == directives(v@),
            want.len() == parts@.len(),
            texts(ds@) == want.take(i as int),
            count == age_count(want.take(i as int)),
            count <= i,
            max_age == last_age(want.take(i as int)),
        decreases parts@.len() - i,
    {
        let t = trim(parts[i].as_str());
        let d = to_lowercase(t.as_str());
        assert(texts(parts@)[i as int] == parts@[i as int]@);
        assert(want.take(i + 1).drop_last() =~= want.take(i as int));
        assert(want.take(i + 1).last() == d@);
        if starts_with(d.as_str(), "max-age=") {
            let chars = to_chars(d.as_str());
            let rest = from_chars(&chars, 8, chars.len());
            assert(rest@ =~= d@.skip(8));
            let rest = trim(rest.as_str());
            let rest = strip_both(rest.as_str(), CharSet::One('"'));
            max_age = read_integer(rest.as_str());
            count += 1;
        }
        let ghost before = ds@;
        ds.push(d);
        assert(texts(ds@) =~= texts(before).push(d@));
        assert(want.take(i + 1) =~= want.take(i as int).push(d@));
        i += 1;
    }
    assert(want.take(i as int) =~= want);
    Hsts {
        max_age,
        include_subdomains: any_same(&ds, "includesubdomains"),
        preload: any_same(&ds, "preload"),
        repeated_max_age: count > 1,
    }
}

/// What keeps a preload token from taking effect. The preload list requires
/// max-age >= 1 year plus includeSubDomains, so the token alone is inert if
/// either is missing.
pub open spec fn preload_unmet(h: Hsts) -> Seq<Seq<char>> {
    let young = match h.max_age {
        Some(a) => a < PRELOAD_MIN_AGE,
        None => true,
    };
    (if young {
        seq!["max-age under 1y"@]
    } else {
        Seq::empty()
    }) + (if !h.include_subdomains {
        seq!["no includeSubDomains"@]
    } else {
        Seq::empty()
    })
}

/// An age with its days.
pub open spec fn age_text(lead: Seq<char>, age: i64) -> Seq<char> {
    lead + signed_decimal(age as int) + " (~"@ + signed_decimal(
        towards_zero(age as int, 86400),
    ) + "d)"@
}

/// Why browsers would discard the whole header, if they would.
pub open spec fn discarded(is_https: bool, host_is_ip: bool, h: Hsts) -> Option<Seq<char>> {
    if !is_https {
        Some("ineffective (served over http)"@)
    } else if host_is_ip {
        Some("ineffective (host is an IP address)"@)
    } else if h.repeated_max_age {
        Some("ineffective (repeated max-age)"@)
    } else {
        match h.max_age {
            None => Some("ineffective (no valid max-age)"@),
            Some(a) => if a == 0 {
                Some("ineffective (max-age=0 deletes the policy)"@)
            } else {
                None
            },
        }
    }
}

/// The lines that grade a policy in force.
pub open spec fn graded(st: Style, h: Hsts, age: i64) -> Seq<Seq<char>> {
    let first = if age < HSTS_MIN_AGE {
        bad_line(st, age_text("max-age too short: "@, age))
    } else {
        good_line(st, age_text("max-age="@, age))
    };
    let second = if h.include_subdomains {
        good_line(st, "includeSubDomains set"@)
    } else {
        bad_line(st, "includeSubDomains not set"@)
    };
    let both = seq![first, second];
    if !h.preload {
        both
    } else if preload_unmet(h).len() == 0 {
        both.push(good_line(st, "preload set"@))
    } else {
        both.push(
            bad_line(st, "preload ineffective ("@ + joined(preload_unmet(h), ", "@) + ")"@),
        )
    }
}

/// The lines that grade a value.
pub open spec fn hsts_lines(st: Style, v: Seq<char>, is_https: bool, host_is_ip: bool) -> Seq<
    Seq<char>,
> {
    let h = hsts_policy(v);
    let shown = seq!["  "@ + dimmed(st, v)];
    match discarded(is_https, host_is_ip, h) {
        Some(why) => shown.push(bad_line(st, why)),
        None => shown + graded(st, h, h.max_age->0),
    }
}

/// The section on HSTS, given whether the host of the page is an IP address.
pub open spec fn hsts_section(f: FetchedView, host_is_ip: bool, st: Style) -> SectionView {
    section(
        "HSTS (Strict-Transport-Security)"@,
        match f.get("strict-transport-security"@) {
            None => seq![bad_line(st, "no Strict-Transport-Security header"@)],
            Some(v) => hsts_lines(st, v, f.is_https, host_is_ip),
        },
    )
}

fn show_age(lead: &str, age: i64) -> (r: String)
    ensures
        r@ == age_text(lead@, age),
{
    let a = show_signed(age);
    let d = show_quotient(age, 86400);
    cat5(lead, a.as_str(), " (~", d.as_str(), "d)")
}

fn unmet_of(h: Hsts) -> (r: Vec<String>)
    ensures
        texts(r@) == preload_unmet(h),
{
    let mut r: Vec<String> = Vec::new();
    let young = match h.max_age {
        Some(a) => a < PRELOAD_MIN_AGE,
        None => true,
    };
    if young {
        r.push("max-age under 1y".to_owned());
    }
    if !h.include_subdomains {
        r.push("no includeSubDomains".to_owned());
    }
    assert(texts(r@) =~= preload_unmet(h));
    r
}

fn discarded_why(is_https: bool, host_is_ip: bool, h: Hsts) -> (r: Option<String>)
    ensures
        optional_text(r) == discarded(is_https, host_is_ip, h),
{
    if !is_https {
        Some("ineffective (served over http)".to_owned())
    } else if host_is_ip {
        Some("ineffective (host is an IP address)".to_owned())
    } else if h.repeated_max_age {
        Some("ineffective (repeated max-age)".to_owned())
    } else {
        match h.max_age {
            None => Some("ineffective (no valid max-age)".to_owned()),
            Some(a) => if a == 0 {
                Some("ineffective (max-age=0 deletes the policy)".to_owned())
            } else {
                None
            },
        }
    }
}

/// Parses and grades HSTS, given whether the host of the page is an IP address.
pub fn hsts_on(f: &Fetched, host_is_ip: bool, st: Style) -> (r: Section)
    ensures
        r@ == hsts_section(f@, host_is_ip, st),
{
    let mut sec = Section::new("HSTS (Strict-Transport-Security)");
    let v = match f.get("strict-transport-security") {
        None => {
            sec.bad(st, "no Strict-Transport-Security header");
            assert(sec@.lines =~= hsts_section(f@, host_is_ip, st).lines);
            return sec;
        },
        Some(v) => v,
    };
    let d = dim(st, v.as_str());
    let l = cat2("  ", d.as_str());
    sec.text(l.as_str());
    let h = parse_hsts(v.as_str());
    let ghost shown = sec@.lines;
    assert(shown =~= seq!["  "@ + dimmed(st, v@)]);
    match discarded_why(f.is_https, host_is_ip, h) {
        Some(why) => {
            sec.bad(st, why.as_str());
            return sec;
        },
        None => {},
    }
    let age: i64 = match h.max_age {
        Some(a) => a,
        None => 0,
    };
    if age < HSTS_MIN_AGE {
        let t = show_age("max-age too short: ", age);
        sec.bad(st, t.as_str());
    } else {
        let t = show_age("max-age=", age);
        sec.good(st, t.as_str());
    }
    if h.include_subdomains {
        sec.good(st, "includeSubDomains set");
    } else {
        sec.bad(st, "includeSubDomains not set");
    }
    if h.preload {
        let unmet = unmet_of(h);
        if unmet.len() == 0 {
            sec.good(st, "preload set");
        } else {
            let why = join(&unmet, ", ");
            let t = cat3("preload ineffective (", why.as_str(), ")");
            sec.bad(st, t.as_str());
        }
    }
    assert(sec@.lines =~= shown + graded(st, h, age));
    sec
}

/// Parses and grades HSTS. Browsers discard the whole header when it does not
/// arrive over https or when the host is an IP address.
pub fn hsts(f: &Fetched, st: Style) -> (r: Section)
    ensures
        r@ == hsts_section(f@, host_is_address(f@.url), st),
{
    let ip = host_is_ip(f.url.as_str());
    hsts_on(f, ip, st)
}

// ---------------------------------------------------------------------------
// Laws
// ---------------------------------------------------------------------------

proof fn lemma_front_space(c: char, v: Seq<char>)
    requires
        is_white(c),
    ensures
        directives(seq![c] + v) == directives(v),
{
    let k = CharSet::One(';');
    lemma_pieces_nonempty(v, k);
    lemma_pieces_front(c, v, k);
    lemma_trimming_white(pieces(v, k)[0], c);
    assert(directives(seq![c] + v) =~= directives(v));
}

proof fn lemma_back_space(v: Seq<char>, c: char)
    requires
        is_white(c),
    ensures
        directives(v.push(c)) == directives(v),
{
    let k = CharSet::One(';');
    lemma_pieces_nonempty(v, k);
    assert(v.push(c).drop_last() =~= v);
    lemma_trimming_white(pieces(v, k).last(), c);
    assert(directives(v.push(c)) =~= directives(v));
}

proof fn lemma_stripped_start(v: Seq<char>)
    ensures
        directives(strip_start(v, CharSet::White)) == directives(v),
    decreases v.len(),
{
    if v.len() > 0 && is_white(v[0]) {
        assert(v =~= seq![v[0]] + v.skip(1));
        lemma_front_space(v[0], v.skip(1));
        lemma_stripped_start(v.skip(1));
    }
}

proof fn lemma_stripped_end(v: Seq<char>)
    ensures
        directives(strip_end(v, CharSet::White)) == directives(v),
    decreases v.len(),
{
    if v.len() > 0 && is_white(v.last()) {
        assert(v =~= v.drop_last().push(v.last()));
        lemma_back_space(v.drop_last(), v.last());
        lemma_stripped_end(v.drop_last());
    }
}

/// White space around a value makes no difference to its policy.
pub proof fn law_trimming_keeps_the_policy(v: Seq<char>)
    ensures
        hsts_policy(trimmed(v)) == hsts_policy(v),
{
    lemma_stripped_start(v);
    lemma_stripped_end(strip_start(v, CharSet::White));
}

/// The case of the ASCII letters of a value makes no difference to its policy.
pub proof fn law_case_keeps_the_policy(v: Seq<char>)
    ensures
        hsts_policy(ascii_upper(v)) == hsts_policy(v),
{
    let k = CharSet::One(';');
    let w = CharSet::White;
    lemma_upper_pieces(v, k);
    let p = pieces(v, k);
    let q = pieces(ascii_upper(v), k);
    assert forall|i: int| 0 <= i < p.len() implies lowered(trimmed(#[trigger] q[i])) == lowered(
        trimmed(p[i]),
    ) by {
        let a = strip_start(p[i], w);
        lemma_upper_strip(p[i], w);
        lemma_upper_strip(a, w);
        lemma_upper_lowered(trimmed(p[i]));
    }
    assert(directives(ascii_upper(v)) =~= directives(v));
}

/// A preload token counts only with at least a year of max-age and with
/// includeSubDomains.
pub proof fn law_preload_needs_a_year_and_subdomains(h: Hsts)
    ensures
        preload_unmet(h).len() == 0 <==> (h.include_subdomains && match h.max_age {
            Some(a) => a >= PRELOAD_MIN_AGE,
            None => false,
        }),
{
}

/// A policy that browsers discard is not graded: the section then holds the
/// value and the reason, nothing more.
pub proof fn law_discarded_policy_is_not_graded(
    st: Style,
    v: Seq<char>,
    is_https: bool,
    host_is_ip: bool,
)
    ensures
        (hsts_lines(st, v, is_https, host_is_ip).len() == 2) <==> discarded(
            is_https,
            host_is_ip,
            hsts_policy(v),
        ) is Some,
{
}

/// Directive `i` of a value: what stands between two semicolons, without the
/// white space around it and in lower case.
pub open spec fn part(v: Seq<char>, i: int) -> Seq<char> {
    lowered(trimmed(pieces(v, CharSet::One(';'))[i]))
}

/// Whether one of the directives of a value is `d`.
pub open spec fn says(v: Seq<char>, d: Seq<char>) -> bool {
    exists|i: int| 0 <= i < pieces(v, CharSet::One(';')).len() && #[trigger] part(v, i) == d
}

/// Whether directive `i` of a value gives a max-age.
pub open spec fn ages(v: Seq<char>, i: int) -> bool {
    0 <= i < pieces(v, CharSet::One(';')).len() && begins(part(v, i), "max-age="@)
}

/// The number behind `max-age=`, which may stand in quotes, if it is one.
pub open spec fn age_at(v: Seq<char>, i: int) -> Option<i64> {
    integer_in(strip(trimmed(part(v, i).skip(8)), CharSet::One('"')))
}

proof fn lemma_ages_counted(ds: Seq<Seq<char>>)
    ensures
        age_count(ds) == 0 <==> forall|i: int|
            0 <= i < ds.len() ==> !begins(#[trigger] ds[i], "max-age="@),
        age_count(ds) > 1 <==> exists|i: int, j: int|
            0 <= i < j < ds.len() && begins(#[trigger] ds[i], "max-age="@) && begins(
                #[trigger] ds[j],
                "max-age="@,
            ),
        age_count(ds) == 0 ==> last_age(ds) is None,
        age_count(ds) > 0 ==> exists|i: int|
            0 <= i < ds.len() && begins(#[trigger] ds[i], "max-age="@) && last_age(ds) == age_in(
                ds[i],
            ) && forall|j: int| i < j < ds.len() ==> !begins(#[trigger] ds[j], "max-age="@),
    decreases ds.len(),
{
    if ds.len() > 0 {
        let t = ds.drop_last();
        let n = ds.len() - 1;
        lemma_ages_counted(t);
        assert(forall|i: int| 0 <= i < n ==> #[trigger] ds[i] == t[i]);
        assert(ds[n] == ds.last());
        if begins(ds.last(), "max-age="@) {
            if age_count(t) > 0 {
                let i = choose|i: int| 0 <= i < t.len() && begins(#[trigger] t[i], "max-age="@);
                assert(begins(ds[i], "max-age="@) && begins(ds[n], "max-age="@));
            } else {
                assert forall|i: int, j: int|
                    0 <= i < j < ds.len() && begins(#[trigger] ds[i], "max-age="@) && begins(
                        #[trigger] ds[j],
                        "max-age="@,
                    ) implies false by {
                    assert(!begins(t[i], "max-age="@));
                }
            }
        } else {
            if age_count(t) > 1 {
                let (i, j) = choose|i: int, j: int|
                    0 <= i < j < t.len() && begins(#[trigger] t[i], "max-age="@) && begins(
                        #[trigger] t[j],
                        "max-age="@,
                    );
                assert(begins(ds[i], "max-age="@) && begins(ds[j], "max-age="@));
            } else {
                assert forall|i: int, j: int|
                    0 <= i < j < ds.len() && begins(#[trigger] ds[i], "max-age="@) && begins(
                        #[trigger] ds[j],
                        "max-age="@,
                    ) implies false by {
                    assert(begins(t[i], "max-age="@) && begins(t[j], "max-age="@));
                }
            }
            if age_count(t) > 0 {
                let i = choose|i: int|
                    0 <= i < t.len() && begins(#[trigger] t[i], "max-age="@) && last_age(t)
                        == age_in(t[i]) && forall|j: int|
                        i < j < t.len() ==> !begins(#[trigger] t[j], "max-age="@);
                assert(begins(ds[i], "max-age="@) && last_age(ds) == age_in(ds[i]));
                assert forall|j: int| i < j < ds.len() implies !begins(
                    #[trigger] ds[j],
                    "max-age="@,
                ) by {
                    if j < n {
                        assert(!begins(t[j], "max-age="@));
                    }
                }
            }
        }
    }
}

/// A policy includes the subdomains, asks for preloading, or repeats its max-age
/// exactly when its directives say so, in whatever order and case; its age is
/// that of the last max-age.
pub proof fn law_policy_is_read(v: Seq<char>)
    ensures
        hsts_policy(v).include_subdomains <==> says(v, "includesubdomains"@),
        hsts_policy(v).preload <==> says(v, "preload"@),
        hsts_policy(v).repeated_max_age <==> exists|i: int, j: int|
            i < j && #[trigger] ages(v, i) && #[trigger] ages(v, j),
        (forall|i: int| !#[trigger] ages(v, i)) ==> hsts_policy(v).max_age is None,
        forall|i: int|
            #[trigger] ages(v, i) && (forall|j: int| i < j ==> !#[trigger] ages(v, j))
                ==> hsts_policy(v).max_age == age_at(v, i),
{
    let ds = directives(v);
    let p = pieces(v, CharSet::One(';'));
    assert(ds.len() == p.len());
    assert(forall|i: int| 0 <= i < ds.len() ==> #[trigger] ds[i] == part(v, i));
    lemma_ages_counted(ds);
    if says(v, "includesubdomains"@) {
        let i = choose|i: int| 0 <= i < p.len() && #[trigger] part(v, i) == "includesubdomains"@;
        assert(ds[i] == "includesubdomains"@);
    }
    if has_text(ds, "includesubdomains"@) {
        let i = choose|i: int| 0 <= i < ds.len() && ds[i] == "includesubdomains"@;
        assert(part(v, i) == "includesubdomains"@);
    }
    if says(v, "preload"@) {
        let i = choose|i: int| 0 <= i < p.len() && #[trigger] part(v, i) == "preload"@;
        assert(ds[i] == "preload"@);
    }
    if has_text(ds, "preload"@) {
        let i = choose|i: int| 0 <= i < ds.len() && ds[i] == "preload"@;
        assert(part(v, i) == "preload"@);
    }
    if age_count(ds) > 1 {
        let (i, j) = choose|i: int, j: int|
            0 <= i < j < ds.len() && begins(#[trigger] ds[i], "max-age="@) && begins(
                #[trigger] ds[j],
                "max-age="@,
            );
        assert(ages(v, i) && ages(v, j));
    }
    if exists|i: int, j: int| i < j && #[trigger] ages(v, i) && #[trigger] ages(v, j) {
        let (i, j) = choose|i: int, j: int| i < j && #[trigger] ages(v, i) && #[trigger] ages(v, j);
        assert(begins(ds[i], "max-age="@) && begins(ds[j], "max-age="@));
    }
    if age_count(ds) > 0 {
        let k = choose|k: int|
            0 <= k < ds.len() && begins(#[trigger] ds[k], "max-age="@) && last_age(ds) == age_in(
                ds[k],
            ) && forall|j: int| k < j < ds.len() ==> !begins(#[trigger] ds[j], "max-age="@);
        assert(ages(v, k));
        assert forall|i: int|
            #[trigger] ages(v, i) && (forall|j: int| i < j ==> !#[trigger] ages(v, j)) implies
            hsts_policy(v).max_age == age_at(v, i) by {
            assert(!(i < k));
            if k < i {
                assert(begins(ds[i], "max-age="@));
            }
            assert(i == k);
        }
    } else {
        assert forall|i: int| !#[trigger] ages(v, i) by {
            if ages(v, i) {
                assert(begins(ds[i], "max-age="@));
            }
        }
    }
}

/// A page without the header is told so. One with it shows its value, and then
/// why browsers discard it, if they do: over http, on an IP address, with two
/// max-ages, or without a positive or negative number for its age.
pub proof fn law_discarded_policies(f: FetchedView, host_is_ip: bool, st: Style)
    ensures
        ({
            let sec = hsts_section(f, host_is_ip, st);
            &&& sec.title == "HSTS (Strict-Transport-Security)"@
            &&& match f.get("strict-transport-security"@) {
                None => sec.lines == seq![bad_line(st, "no Strict-Transport-Security header"@)],
                Some(v) => {
                    let shown = "  "@ + dimmed(st, v);
                    let told = |why: Seq<char>| sec.lines == seq![shown, bad_line(st, why)];
                    let twice = exists|i: int, j: int|
                        i < j && #[trigger] ages(v, i) && #[trigger] ages(v, j);
                    let heard = f.is_https && !host_is_ip && !twice;
                    &&& sec.lines[0] == shown
                    &&& !f.is_https ==> told("ineffective (served over http)"@)
                    &&& f.is_https && host_is_ip ==> told("ineffective (host is an IP address)"@)
                    &&& f.is_https && !host_is_ip && twice ==> told(
                        "ineffective (repeated max-age)"@,
                    )
                    &&& heard && (forall|i: int| !#[trigger] ages(v, i)) ==> told(
                        "ineffective (no valid max-age)"@,
                    )
                    &&& forall|i: int|
                        heard && #[trigger] ages(v, i) && age_at(v, i) is None ==> told(
                            "ineffective (no valid max-age)"@,
                        )
                    &&& forall|i: int|
                        heard && #[trigger] ages(v, i) && age_at(v, i) == Some(0i64) ==> told(
                            "ineffective (max-age=0 deletes the policy)"@,
                        )
                },
            }
        }),
{
    match f.get("strict-transport-security"@) {
        None => {},
        Some(v) => {
            law_policy_is_read(v);
            let h = hsts_policy(v);
            let lines = hsts_section(f, host_is_ip, st).lines;
            match discarded(f.is_https, host_is_ip, h) {
                Some(why) => {
                    assert(lines =~= seq!["  "@ + dimmed(st, v), bad_line(st, why)]);
                },
                None => {},
            }
            assert forall|i: int| #[trigger] ages(v, i) && !h.repeated_max_age implies h.max_age
                == age_at(v, i) by {
                assert forall|j: int| i < j implies !#[trigger] ages(v, j) by {}
            }
        },
    }
}

/// A policy in force is graded point by point. Its age is in order exactly when
/// it comes to half a year; the subdomains are covered exactly when a directive
/// says so, whatever the age; and a preload token, which alone is spoken of
/// behind that, counts exactly with a year of age and with the subdomains.
pub proof fn law_policies_in_force_are_graded(
    f: FetchedView,
    host_is_ip: bool,
    st: Style,
    v: Seq<char>,
    i: int,
    age: i64,
)
    requires
        f.get("strict-transport-security"@) == Some(v),
        f.is_https,
        !host_is_ip,
        ages(v, i),
        forall|j: int| #[trigger] ages(v, j) ==> j == i,
        age_at(v, i) == Some(age),
        age != 0,
    ensures
        ({
            let lines = hsts_section(f, host_is_ip, st).lines;
            let days = signed_decimal(towards_zero(age as int, 86400));
            let shown = signed_decimal(age as int) + " (~"@ + days + "d)"@;
            let covered = says(v, "includesubdomains"@);
            &&& lines[1] == (if age >= 15_768_000 {
                good_line(st, "max-age="@ + shown)
            } else {
                bad_line(st, "max-age too short: "@ + shown)
            })
            &&& lines[2] == (if covered {
                good_line(st, "includeSubDomains set"@)
            } else {
                bad_line(st, "includeSubDomains not set"@)
            })
            &&& lines.len() == (if says(v, "preload"@) {
                4int
            } else {
                3
            })
            &&& says(v, "preload"@) ==> lines[3] == (if covered && age >= 31_536_000 {
                good_line(st, "preload set"@)
            } else {
                bad_line(
                    st,
                    "preload ineffective ("@ + (if covered {
                        "max-age under 1y"@
                    } else if age >= 31_536_000 {
                        "no includeSubDomains"@
                    } else {
                        "max-age under 1y, no includeSubDomains"@
                    }) + ")"@,
                )
            })
        }),
{
    law_policy_is_read(v);
    let h = hsts_policy(v);
    assert forall|j: int| i < j implies !#[trigger] ages(v, j) by {}
    assert(h.max_age == Some(age));
    assert(!h.repeated_max_age);
    let lines = hsts_section(f, host_is_ip, st).lines;
    assert(lines =~= seq!["  "@ + dimmed(st, v)] + graded(st, h, age));
    let a = signed_decimal(age as int);
    let days = signed_decimal(towards_zero(age as int, 86400));
    assert("max-age="@ + (a + " (~"@ + days + "d)"@) =~= age_text("max-age="@, age));
    assert("max-age too short: "@ + (a + " (~"@ + days + "d)"@) =~= age_text(
        "max-age too short: "@,
        age,
    ));
    let u = preload_unmet(h);
    reveal_strlit("max-age under 1y");
    reveal_strlit("no includeSubDomains");
    reveal_strlit(", ");
    reveal_strlit("max-age under 1y, no includeSubDomains");
    if u.len() == 2 {
        assert(u =~= seq!["max-age under 1y"@].push("no includeSubDomains"@));
        law_joining(seq!["max-age under 1y"@], "no includeSubDomains"@, ", "@);
        law_joining(u, "max-age under 1y"@, ", "@);
        assert(joined(u, ", "@) =~= "max-age under 1y, no includeSubDomains"@);
    }
}

} // verus!
