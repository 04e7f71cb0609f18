//! CORS configuration.

use crate::fields::optional_text;
use crate::response::{Fetched, FetchedView};
use crate::section::{bad_line, good_line, note_line, section, Section, SectionView};
use crate::style::{dim, dimmed, Style};
use crate::text::{
    begins, cat2, cat3, eq_ignore_case, lowered, same, same_ignoring_case, starts_with,
    to_lowercase, trim, trimmed,
};
use vstd::prelude::*;
use vstd::string::*;

verus! {

/// Origin sent to see whether the server reflects arbitrary origins in CORS.
pub const PROBE_ORIGIN: &'static str = "https://vantage-cors-probe.example";

/// The view of a page that may be missing.
pub open spec fn optional_page(p: Option<&Fetched>) -> Option<FetchedView> {
    match p {
        Some(f) => Some(f@),
        None => None,
    }
}

/// The text of a header of a page that may be missing.
pub open spec fn get_from(p: Option<FetchedView>, name: Seq<char>) -> Option<Seq<char>> {
    match p {
        Some(f) => f.get(name),
        None => None,
    }
}

/// Whether a value grants credentials.
pub open spec fn grants(v: Option<Seq<char>>) -> bool {
    match v {
        Some(t) => same_ignoring_case(trimmed(t), "true"@),
        None => false,
    }
}

/// The origin that is allowed: what the page says, or else what it said once an
/// origin was sent. Servers that reflect the request Origin send none when no
/// Origin was sent, so the first response alone cannot tell "restricted" from
/// "reflects anything".
pub open spec fn allowed_origin(f: FetchedView, probe: Option<FetchedView>) -> Option<Seq<char>> {
    match f.get("access-control-allow-origin"@) {
        Some(v) => Some(v),
        None => get_from(probe, "access-control-allow-origin"@),
    }
}

/// Whether the server gave the origin back that it was sent.
pub open spec fn reflects(probe: Option<FetchedView>) -> bool {
    match get_from(probe, "access-control-allow-origin"@) {
        Some(v) => trimmed(v) == PROBE_ORIGIN@,
        None => false,
    }
}

/// What is amiss with an allowed origin, if anything is.
pub open spec fn origin_fault(a: Seq<char>, reflected: bool, creds: bool, is_https: bool) -> Option<
    Seq<char>,
> {
    if reflected {
        if creds {
            Some("reflects any origin with credentials"@)
        } else {
            Some("reflects any origin"@)
        }
    } else if a == "*"@ {
        if creds {
            Some("wildcard origin (*) with credentials"@)
        } else {
            Some("wildcard origin (*)"@)
        }
    } else if same_ignoring_case(a, "null"@) {
        Some("origin null ineffective (any sandboxed iframe or data: document sends it)"@)
    } else if is_https && begins(lowered(a), "http://"@) {
        Some("allows an http origin ("@ + a + ")"@)
    } else {
        None
    }
}

/// The lines on an allowed origin.
pub open spec fn origin_lines(
    st: Style,
    acao: Seq<char>,
    reflected: bool,
    creds: bool,
    is_https: bool,
) -> Seq<Seq<char>> {
    seq![
        "  access-control-allow-origin: "@ + dimmed(st, acao),
        match origin_fault(trimmed(acao), reflected, creds, is_https) {
            Some(why) => bad_line(st, why),
            None => good_line(st, "origin is restricted"@),
        },
    ]
}

/// The section on CORS.
pub open spec fn cors_section(f: FetchedView, probe: Option<FetchedView>, st: Style) -> SectionView {
    section(
        "CORS"@,
        match allowed_origin(f, probe) {
            None => seq![note_line(st, "no Access-Control-Allow-Origin header"@)],
            Some(acao) => origin_lines(
                st,
                acao,
                reflects(probe),
                grants(f.get("access-control-allow-credentials"@)) || grants(
                    get_from(probe, "access-control-allow-credentials"@),
                ),
                f.is_https,
            ),
        },
    )
}

fn read_from(p: Option<&Fetched>, name: &str) -> (r: Option<String>)
    ensures
        optional_text(r) == get_from(optional_page(p), name@),
{
    match p {
        Some(f) => f.get(name),
        None => None,
    }
}

fn is_granted(v: Option<String>) -> (r: bool)
    ensures
        r == grants(optional_text(v)),
{
    match v {
        Some(t) => {
            let t = trim(t.as_str());
            eq_ignore_case(t.as_str(), "true")
        },
        None => false,
    }
}

fn fault_of(a: &str, reflected: bool, creds: bool, is_https: bool) -> (r: Option<String>)
    ensures
        optional_text(r) == origin_fault(a@, reflected, creds, is_https),
{
    if reflected {
        if creds {
            return Some("reflects any origin with credentials".to_owned());
        }
        return Some("reflects any origin".to_owned());
    }
    if same(a, "*") {
        if creds {
            return Some("wildcard origin (*) with credentials".to_owned());
        }
        return Some("wildcard origin (*)".to_owned());
    }
    if eq_ignore_case(a, "null") {
        return Some(
            "origin null ineffective (any sandboxed iframe or data: document sends it)".to_owned(),
        );
    }
    let low = to_lowercase(a);
    if is_https && starts_with(low.as_str(), "http://") {
        return Some(cat3("allows an http origin (", a, ")"));
    }
    None
}

/// Judges the CORS configuration of a page. `probe` is the page fetched again
/// with `PROBE_ORIGIN` for an origin, if that fetch succeeded.
pub fn cors(f: &Fetched, probe: Option<&Fetched>, st: Style) -> (r: Section)
    ensures
        r@ == cors_section(f@, optional_page(probe), st),
{
    let mut sec = Section::new("CORS");
    let probe_acao = read_from(probe, "access-control-allow-origin");
    let creds = is_granted(f.get("access-control-allow-credentials")) || is_granted(
        read_from(probe, "access-control-allow-credentials"),
    );
    let reflected = match &probe_acao {
        Some(v) => {
            let t = trim(v.as_str());
            same(t.as_str(), PROBE_ORIGIN)
        },
        None => false,
    };
    let allowed = match f.get("access-control-allow-origin") {
        Some(v) => Some(v),
        None => probe_acao,
    };
    let acao = match allowed {
        None => {
            sec.note(st, "no Access-Control-Allow-Origin header");
            assert(sec@.lines =~= cors_section(f@, optional_page(probe), st).lines);
            return sec;
        },
        Some(v) => v,
    };
    let d = dim(st, acao.as_str());
    let l = cat2("  access-control-allow-origin: ", d.as_str());
    sec.text(l.as_str());
    let a = trim(acao.as_str());
    match fault_of(a.as_str(), reflected, creds, f.is_https) {
        Some(why) => sec.bad(st, why.as_str()),
        None => sec.good(st, "origin is restricted"),
    }
    assert(sec@.lines =~= cors_section(f@, optional_page(probe), st).lines);
    sec
}

// ---------------------------------------------------------------------------
// Laws
// ---------------------------------------------------------------------------

/// Whether an answer allows credentials, as its header says in whatever case.
pub open spec fn allows_credentials(f: FetchedView) -> bool {
    match f.get("access-control-allow-credentials"@) {
        Some(v) => same_ignoring_case(trimmed(v), "true"@),
        None => false,
    }
}

/// A server that gives back the origin it was sent is called out for it,
/// whatever its first answer said: with credentials exactly when its first
/// answer or the one to the probe allows them.
pub proof fn law_reflection_is_never_restricted(
    f: FetchedView,
    probe: FetchedView,
    st: Style,
    given: Seq<char>,
)
    requires
        probe.get("access-control-allow-origin"@) == Some(given),
        trimmed(given) == "https://vantage-cors-probe.example"@,
    ensures
        cors_section(f, Some(probe), st).lines == seq![
            "  access-control-allow-origin: "@ + dimmed(
                st,
                match f.get("access-control-allow-origin"@) {
                    Some(v) => v,
                    None => given,
                },
            ),
            bad_line(
                st,
                if allows_credentials(f) || allows_credentials(probe) {
                    "reflects any origin with credentials"@
                } else {
                    "reflects any origin"@
                },
            ),
        ],
{
}

/// A server that does not give the origin back is judged by the origin that it
/// allows, first of all in its first answer: any origin with or without
/// credentials, no origin in particular, an http origin for an https page, or a
/// restricted one. Where neither answer allows one, that is noted.
pub proof fn law_allowed_origins_are_judged(f: FetchedView, probe: Option<FetchedView>, st: Style)
    requires
        match probe {
            Some(p) => match p.get("access-control-allow-origin"@) {
                Some(v) => trimmed(v) != "https://vantage-cors-probe.example"@,
                None => true,
            },
            None => true,
        },
    ensures
        ({
            let sec = cors_section(f, probe, st);
            let creds = allows_credentials(f) || (probe is Some && allows_credentials(probe->0));
            let allowed = if f.get("access-control-allow-origin"@) is Some {
                f.get("access-control-allow-origin"@)
            } else if probe is Some {
                probe->0.get("access-control-allow-origin"@)
            } else {
                None
            };
            &&& sec.title == "CORS"@
            &&& match allowed {
                None => sec.lines == seq![note_line(st, "no Access-Control-Allow-Origin header"@)],
                Some(v) => {
                    let a = trimmed(v);
                    let nowhere = same_ignoring_case(a, "null"@);
                    let plain = f.is_https && begins(lowered(a), "http://"@);
                    &&& sec.lines.len() == 2
                    &&& sec.lines[0] == "  access-control-allow-origin: "@ + dimmed(st, v)
                    &&& a == "*"@ && creds ==> sec.lines[1] == bad_line(
                        st,
                        "wildcard origin (*) with credentials"@,
                    )
                    &&& a == "*"@ && !creds ==> sec.lines[1] == bad_line(
                        st,
                        "wildcard origin (*)"@,
                    )
                    &&& a != "*"@ && nowhere ==> sec.lines[1] == bad_line(
                        st,
                        "origin null ineffective (any sandboxed iframe or data: document sends it)"@,
                    )
                    &&& a != "*"@ && !nowhere && plain ==> sec.lines[1] == bad_line(
                        st,
                        "allows an http origin ("@ + a + ")"@,
                    )
                    &&& a != "*"@ && !nowhere && !plain ==> sec.lines[1] == good_line(
                        st,
                        "origin is restricted"@,
                    )
                },
            }
        }),
{
}

/// An origin counts as restricted exactly when it is not reflected, is neither
/// `*` nor `null`, and does not let http into an https page.
pub proof fn law_restricted_origin(a: Seq<char>, reflected: bool, creds: bool, is_https: bool)
    ensures
        origin_fault(a, reflected, creds, is_https) is None <==> (!reflected && a != "*"@
            && !same_ignoring_case(a, "null"@) && !(is_https && begins(lowered(a), "http://"@))),
{
}

} // verus!
