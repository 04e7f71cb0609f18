//! Caching headers: the shared-cache exposure of authenticated responses.

use crate::checks::headers::{header_line, show_header};
use crate::fields::optional_text;
use crate::number::{integer_in, read_integer, show_signed, signed_decimal};
use crate::response::{Fetched, FetchedView};
use crate::section::{bad_line, good_line, section, Section, SectionView};
use crate::style::{dimmed, magentaed, Style};
use crate::text::{
    cat3, contains, includes, lowered, to_lowercase, trim, trimmed,
};
use vstd::prelude::*;
use vstd::string::*;

verus! {

/// The headers that are shown.
pub const CACHE_HEADERS: [&'static str; 5] = ["cache-control", "pragma", "expires", "age", "vary"];

/// The lines that show the first `n` of the headers.
pub open spec fn shown_lines(st: Style, f: FetchedView, n: nat) -> Seq<Seq<char>>
    decreases n,
{
    if n == 0 {
        Seq::empty()
    } else {
        let had = shown_lines(st, f, (n - 1) as nat);
        let name = CACHE_HEADERS@[n - 1]@;
        match f.get(name) {
            Some(v) => had.push(header_line(st, name, v)),
            None => had,
        }
    }
}

/// The line that judges the Cache-Control of an authenticated response.
pub open spec fn control_line(st: Style, cc: Option<Seq<char>>) -> Seq<char> {
    match cc {
        None => bad_line(st, "no Cache-Control on an authenticated response"@),
        Some(v) => {
            let low = lowered(v);
            if includes(low, "public"@) {
                bad_line(st, "authenticated response marked Cache-Control: public"@)
            } else if includes(low, "no-store"@) {
                good_line(st, "no-store set"@)
            } else if includes(low, "private"@) {
                // private only bars shared caches; the browser still stores it.
                good_line(st, "private set, not stored by shared caches"@)
            } else {
                bad_line(st, "authenticated response is cacheable (no no-store / private)"@)
            }
        },
    }
}

/// The age that a shared cache reports, if it reports one.
pub open spec fn stored_age(age: Option<Seq<char>>) -> Option<i64> {
    match age {
        Some(v) => match integer_in(trimmed(v)) {
            Some(a) => if a > 0 {
                Some(a)
            } else {
                None
            },
            None => None,
        },
        None => None,
    }
}

/// The lines on a response that was served from a shared cache. A non-zero Age
/// is a shared cache reporting that it stored and replayed this response,
/// whatever the directives now say.
pub open spec fn stored_lines(st: Style, age: Option<Seq<char>>) -> Seq<Seq<char>> {
    match stored_age(age) {
        Some(a) => seq![
            bad_line(st, "served from a shared cache (age "@ + signed_decimal(a as int) + ")"@),
        ],
        None => Seq::empty(),
    }
}

/// The section on caching. Only an authenticated response is a confidentiality
/// concern: if it can be stored by a shared cache, private data may leak to
/// other users.
pub open spec fn caching_section(f: FetchedView, authenticated: bool, st: Style) -> SectionView {
    section(
        "Caching"@,
        shown_lines(st, f, 5) + (if authenticated {
            seq![control_line(st, f.get("cache-control"@))] + stored_lines(st, f.get("age"@))
        } else {
            Seq::empty()
        }),
    )
}

fn stored_age_of(age: Option<String>) -> (r: Option<i64>)
    ensures
        r == stored_age(optional_text(age)),
{
    match age {
        Some(v) => {
            let t = trim(v.as_str());
            match read_integer(t.as_str()) {
                Some(a) => if a > 0 {
                    Some(a)
                } else {
                    None
                },
                None => None,
            }
        },
        None => None,
    }
}

fn judge_control(st: Style, sec: &mut Section, cc: Option<String>)
    ensures
        final(sec)@ == old(sec)@.with(control_line(st, optional_text(cc))),
{
    match cc {
        None => sec.bad(st, "no Cache-Control on an authenticated response"),
        Some(v) => {
            let low = to_lowercase(v.as_str());
            if contains(low.as_str(), "public") {
                sec.bad(st, "authenticated response marked Cache-Control: public");
            } else if contains(low.as_str(), "no-store") {
                sec.good(st, "no-store set");
            } else if contains(low.as_str(), "private") {
                sec.good(st, "private set, not stored by shared caches");
            } else {
                sec.bad(st, "authenticated response is cacheable (no no-store / private)");
            }
        },
    }
}

/// Shows the caching headers, and judges them if the response was authenticated.
pub fn caching(f: &Fetched, authenticated: bool, st: Style) -> (r: Section)
    ensures
        r@ == caching_section(f@, authenticated, st),
{
    let mut sec = Section::new("Caching");
    let table = CACHE_HEADERS;
    let mut i: usize = 0;
    while i < 5
        invariant
            i <= 5,
            table == CACHE_HEADERS,
            sec@.title == "Caching"@,
            sec@.lines == shown_lines(st, f@, i as nat),
        decreases 5 - i,
    {
        let name: &str = table[i];
        match f.get(name) {
            Some(v) => {
                let l = show_header(st, name, v.as_str());
                sec.text(l.as_str());
            },
            None => {},
        }
        i += 1;
    }
    if authenticated {
        judge_control(st, &mut sec, f.get("cache-control"));
        match stored_age_of(f.get("age")) {
            Some(a) => {
                let n = show_signed(a);
                let t = cat3("served from a shared cache (age ", n.as_str(), ")");
                sec.bad(st, t.as_str());
            },
            None => {},
        }
    }
    assert(sec@.lines =~= caching_section(f@, authenticated, st).lines);
    sec
}

// ---------------------------------------------------------------------------
// Laws
// ---------------------------------------------------------------------------

/// Without credentials nothing is judged: the section only shows headers.
pub proof fn law_only_authenticated_responses_are_judged(f: FetchedView, st: Style)
    ensures
        caching_section(f, false, st).lines == shown_lines(st, f, 5),
{
    assert(caching_section(f, false, st).lines =~= shown_lines(st, f, 5));
}

/// The headers on caching are shown as they came: each of the five that a
/// response has, whoever asked for it.
pub proof fn law_caching_headers_are_shown(
    f: FetchedView,
    authenticated: bool,
    st: Style,
    name: Seq<char>,
    v: Seq<char>,
)
    requires
        name == "cache-control"@ || name == "pragma"@ || name == "expires"@ || name == "age"@
            || name == "vary"@,
        f.get(name) == Some(v),
    ensures
        caching_section(f, authenticated, st).title == "Caching"@,
        caching_section(f, authenticated, st).lines.contains(
            "  "@ + magentaed(st, name) + ": "@ + dimmed(st, v),
        ),
{
    let t = CACHE_HEADERS@;
    assert(t[0]@ == "cache-control"@ && t[1]@ == "pragma"@ && t[2]@ == "expires"@ && t[3]@ == "age"@
        && t[4]@ == "vary"@);
    let k = choose|k: int| 0 <= k < 5 && #[trigger] t[k]@ == name;
    lemma_shown(st, f, 5, k);
    let x = header_line(st, name, v);
    let shown = shown_lines(st, f, 5);
    let i = choose|i: int| 0 <= i < shown.len() && shown[i] == x;
    assert(caching_section(f, authenticated, st).lines[i] == x);
}

proof fn lemma_shown(st: Style, f: FetchedView, n: nat, k: int)
    requires
        0 <= k < n <= 5,
        f.get(CACHE_HEADERS@[k]@) is Some,
    ensures
        shown_lines(st, f, n).contains(
            header_line(st, CACHE_HEADERS@[k]@, f.get(CACHE_HEADERS@[k]@)->0),
        ),
    decreases n,
{
    let x = header_line(st, CACHE_HEADERS@[k]@, f.get(CACHE_HEADERS@[k]@)->0);
    let all = shown_lines(st, f, n);
    if k == n - 1 {
        assert(all.last() == x);
    } else {
        lemma_shown(st, f, (n - 1) as nat, k);
        let had = shown_lines(st, f, (n - 1) as nat);
        let i = choose|i: int| 0 <= i < had.len() && had[i] == x;
        assert(all[i] == x);
    }
}

/// An authenticated response is judged by its Cache-Control: public is a leak
/// whatever else it says, no-store and private are in order, and anything else
/// may be cached. An age above zero shows that a shared cache had it; nothing
/// else is said of it.
pub proof fn law_authenticated_responses_are_judged(f: FetchedView, st: Style)
    ensures
        ({
            let shown = caching_section(f, false, st).lines;
            let all = caching_section(f, true, st).lines;
            let n = shown.len() as int;
            let says = |w: Seq<char>|
                f.get("cache-control"@) is Some && includes(
                    lowered(f.get("cache-control"@)->0),
                    w,
                );
            let age = if f.get("age"@) is Some {
                integer_in(trimmed(f.get("age"@)->0))
            } else {
                None
            };
            &&& all.take(n) == shown
            &&& f.get("cache-control"@) is None ==> all[n] == bad_line(
                st,
                "no Cache-Control on an authenticated response"@,
            )
            &&& says("public"@) ==> all[n] == bad_line(
                st,
                "authenticated response marked Cache-Control: public"@,
            )
            &&& !says("public"@) && says("no-store"@) ==> all[n] == good_line(
                st,
                "no-store set"@,
            )
            &&& !says("public"@) && !says("no-store"@) && says("private"@) ==> all[n] == good_line(
                st,
                "private set, not stored by shared caches"@,
            )
            &&& f.get("cache-control"@) is Some && !says("public"@) && !says("no-store"@) && !says(
                "private"@,
            ) ==> all[n] == bad_line(
                st,
                "authenticated response is cacheable (no no-store / private)"@,
            )
            &&& match age {
                Some(a) => if a > 0 {
                    all.len() == n + 2 && all[n + 1] == bad_line(
                        st,
                        "served from a shared cache (age "@ + signed_decimal(a as int) + ")"@,
                    )
                } else {
                    all.len() == n + 1
                },
                None => all.len() == n + 1,
            }
        }),
{
    law_only_authenticated_responses_are_judged(f, st);
    let shown = caching_section(f, false, st).lines;
    let all = caching_section(f, true, st).lines;
    assert(all.take(shown.len() as int) =~= shown);
}

/// Nothing but the caching headers that a response has is shown of it.
pub proof fn law_only_caching_headers_are_shown(f: FetchedView, st: Style)
    ensures
        ({
            let told = |name: Seq<char>|
                if f.get(name) is Some {
                    1int
                } else {
                    0
                };
            caching_section(f, false, st).lines.len() == told("cache-control"@) + told("pragma"@)
                + told("expires"@) + told("age"@) + told("vary"@)
        }),
{
    reveal_with_fuel(shown_lines, 6);
    let t = CACHE_HEADERS@;
    assert(t[0]@ == "cache-control"@ && t[1]@ == "pragma"@ && t[2]@ == "expires"@ && t[3]@ == "age"@
        && t[4]@ == "vary"@);
}

} // verus!
