//! Whether credentials make a difference.

use crate::fields::{header_fields, new_header_map, valid_value, Field};
use crate::number::{decimal, show};
use crate::request::{build_headers, with_headers, Built, HttpConfig, USER_AGENT};
use crate::response::{Fetched, FetchedView};
use crate::section::{bad_line, good_line, note_line, section, Section, SectionView};
use crate::style::Style;
use crate::text::{cat2, cat4, cat5, texts};
use vstd::prelude::*;
use vstd::string::*;
use vstd::utf8::encode_utf8;

verus! {

/// The title of the section.
pub const AUTH_TITLE: &'static str = "Auth effectiveness";

/// The fields of a request without credentials: the User-Agent alone.
pub open spec fn bare_fields() -> Seq<Field> {
    seq![("user-agent"@, encode_utf8(USER_AGENT@))]
}

proof fn lemma_user_agent_is_valid()
    ensures
        valid_value(USER_AGENT@),
{
    reveal_strlit("vantage/0.9 (+https://github.com/husenet/vantage)");
}

/// The settings of the unauthenticated baseline: those of `cfg`, but with the
/// User-Agent for the only header (no cookies, tokens or custom headers).
pub fn anonymous(cfg: &HttpConfig) -> (r: HttpConfig)
    ensures
        r.timeout_nanos == cfg.timeout_nanos,
        r.insecure == cfg.insecure,
        r.http1_only == cfg.http1_only,
        header_fields(r.headers) == bare_fields(),
{
    let none: Vec<String> = Vec::new();
    let ghost nothing = Seq::<Seq<char>>::empty();
    assert(texts(none@) =~= nothing);
    proof {
        lemma_user_agent_is_valid();
        assert(with_headers(bare_fields(), nothing) == Built::Ok(bare_fields()));
    }
    let headers = match build_headers(None, &none, &none, None, None) {
        Ok(h) => h,
        Err(_) => {
            assert(false);
            new_header_map()
        },
    };
    HttpConfig {
        timeout_nanos: cfg.timeout_nanos,
        insecure: cfg.insecure,
        headers,
        http1_only: cfg.http1_only,
    }
}

/// Whether a status turns an anonymous visitor away.
pub open spec fn turns_away(status: u16) -> bool {
    status == 401 || status == 403 || 300 <= status < 400
}

/// Whether two body lengths are within 5% (or 64 bytes) of each other, and the
/// bodies count as the same page.
pub open spec fn similar(authed: nat, anon: nat) -> bool {
    let diff = if authed >= anon {
        authed - anon
    } else {
        anon - authed
    };
    diff <= 64 || diff * 20 <= authed
}

/// The line that shows a response.
pub open spec fn response_line(who: Seq<char>, f: FetchedView) -> Seq<char> {
    who + decimal(f.status as nat) + " ("@ + decimal(f.body_len) + " bytes)"@
}

/// The conclusion from the two responses.
pub open spec fn conclusion(authed: FetchedView, anon: FetchedView, st: Style) -> Seq<char> {
    if turns_away(anon.status) && 200 <= authed.status < 300 {
        good_line(
            st,
            "auth enforced: unauthenticated request returns "@ + decimal(anon.status as nat)
                + ", authenticated returns "@ + decimal(authed.status as nat),
        )
    } else if authed.status == anon.status && similar(authed.body_len, anon.body_len) {
        bad_line(st, "same response with and without credentials"@)
    } else {
        note_line(st, "inconclusive: authenticated and unauthenticated responses differ"@)
    }
}

/// The view of a fetch that may have failed.
pub open spec fn fetch_view(r: Result<Fetched, String>) -> Result<FetchedView, Seq<char>> {
    match r {
        Ok(f) => Ok(f@),
        Err(e) => Err(e@),
    }
}

/// The section on auth effectiveness.
pub open spec fn auth_section(
    authed: FetchedView,
    anon: Result<FetchedView, Seq<char>>,
    st: Style,
) -> SectionView {
    section(
        AUTH_TITLE@,
        match anon {
            Err(e) => seq![note_line(st, "could not fetch unauthenticated baseline: "@ + e)],
            Ok(a) => seq![
                response_line("  authenticated: HTTP "@, authed),
                response_line("  unauthenticated: HTTP "@, a),
                conclusion(authed, a, st),
            ],
        },
    )
}

/// The section when there are no credentials to compare with.
pub open spec fn no_auth_section(st: Style) -> SectionView {
    section(
        AUTH_TITLE@,
        seq![
            note_line(
                st,
                "no credentials supplied; nothing to compare (see --cookie/--bearer/--header)"@,
            ),
        ],
    )
}

/// The section when there are no credentials to compare with.
pub fn no_auth(st: Style) -> (r: Section)
    ensures
        r@ == no_auth_section(st),
{
    let mut sec = Section::new(AUTH_TITLE);
    sec.note(
        st,
        "no credentials supplied; nothing to compare (see --cookie/--bearer/--header)",
    );
    assert(sec@.lines =~= no_auth_section(st).lines);
    sec
}

fn is_similar(authed: usize, anon: usize) -> (r: bool)
    ensures
        r == similar(authed as nat, anon as nat),
{
    let diff: usize = if authed >= anon {
        authed - anon
    } else {
        anon - authed
    };
    let least: usize = if authed > 0 {
        authed
    } else {
        1
    };
    diff <= 64 || (diff as u128) * 20 <= least as u128
}

fn show_response(who: &str, f: &Fetched) -> (r: String)
    ensures
        r@ == response_line(who@, f@),
{
    let s = show(f.status as u64);
    let n = show(f.body_len as u64);
    cat5(who, s.as_str(), " (", n.as_str(), " bytes)")
}

/// Compares the authenticated response against an unauthenticated one to confirm
/// the session is actually being enforced. Only meaningful when credentials were
/// supplied; `authed` is the response fetched with them, `anon` what the
/// `anonymous` settings brought from the same URL.
pub fn auth_effect(authed: &Fetched, anon: &Result<Fetched, String>, st: Style) -> (r: Section)
    ensures
        r@ == auth_section(authed@, fetch_view(*anon), st),
{
    let mut sec = Section::new(AUTH_TITLE);
    let a = match anon {
        Ok(a) => a,
        Err(e) => {
            let t = cat2("could not fetch unauthenticated baseline: ", e.as_str());
            sec.note(st, t.as_str());
            assert(sec@.lines =~= auth_section(authed@, fetch_view(*anon), st).lines);
            return sec;
        },
    };
    let l = show_response("  authenticated: HTTP ", authed);
    sec.text(l.as_str());
    let l = show_response("  unauthenticated: HTTP ", a);
    sec.text(l.as_str());
    let blocked = a.status == 401 || a.status == 403 || (a.status >= 300 && a.status < 400);
    let passed = authed.status >= 200 && authed.status < 300;
    if blocked && passed {
        let x = show(a.status as u64);
        let y = show(authed.status as u64);
        let t = cat4(
            "auth enforced: unauthenticated request returns ",
            x.as_str(),
            ", authenticated returns ",
            y.as_str(),
        );
        sec.good(st, t.as_str());
    } else if authed.status == a.status && is_similar(authed.body_len, a.body_len) {
        sec.bad(st, "same response with and without credentials");
    } else {
        sec.note(st, "inconclusive: authenticated and unauthenticated responses differ");
    }
    assert(sec@.lines =~= auth_section(authed@, fetch_view(*anon), st).lines);
    sec
}

// ---------------------------------------------------------------------------
// Laws
// ---------------------------------------------------------------------------

/// The same page with and without credentials is never called enforced.
pub proof fn law_same_page_is_not_enforced(f: FetchedView, st: Style)
    ensures
        conclusion(f, f, st) == bad_line(st, "same response with and without credentials"@),
{
}

/// Credentials count as enforced exactly when the page opens with them and an
/// anonymous visitor is refused or sent elsewhere; as no use when the same
/// status comes with a body of about the same length, within 64 bytes or a
/// twentieth; and nothing is concluded otherwise. Both answers are shown first.
pub proof fn law_credentials_are_compared(
    authed: FetchedView,
    anon: FetchedView,
    e: Seq<char>,
    st: Style,
)
    ensures
        ({
            let sec = auth_section(authed, Ok(anon), st);
            let refused = anon.status == 401 || anon.status == 403 || (anon.status >= 300
                && anon.status <= 399);
            let opens = authed.status >= 200 && authed.status <= 299;
            let apart = if authed.body_len >= anon.body_len {
                authed.body_len - anon.body_len
            } else {
                anon.body_len - authed.body_len
            };
            let alike = authed.status == anon.status && (apart <= 64 || 20 * apart
                <= authed.body_len);
            &&& sec.title == "Auth effectiveness"@
            &&& sec.lines.len() == 3
            &&& sec.lines[0] == "  authenticated: HTTP "@ + decimal(authed.status as nat) + " ("@
                + decimal(authed.body_len) + " bytes)"@
            &&& sec.lines[1] == "  unauthenticated: HTTP "@ + decimal(anon.status as nat) + " ("@
                + decimal(anon.body_len) + " bytes)"@
            &&& refused && opens ==> sec.lines[2] == good_line(
                st,
                "auth enforced: unauthenticated request returns "@ + decimal(anon.status as nat)
                    + ", authenticated returns "@ + decimal(authed.status as nat),
            )
            &&& !(refused && opens) && alike ==> sec.lines[2] == bad_line(
                st,
                "same response with and without credentials"@,
            )
            &&& !(refused && opens) && !alike ==> sec.lines[2] == note_line(
                st,
                "inconclusive: authenticated and unauthenticated responses differ"@,
            )
            &&& auth_section(authed, Err(e), st).lines == seq![
                note_line(st, "could not fetch unauthenticated baseline: "@ + e),
            ]
            &&& no_auth_section(st).title == "Auth effectiveness"@
            &&& no_auth_section(st).lines == seq![
                note_line(
                    st,
                    "no credentials supplied; nothing to compare (see --cookie/--bearer/--header)"@,
                ),
            ]
        }),
{
}

/// An anonymous request carries the default User-Agent and nothing else.
pub proof fn law_anonymous_requests_are_bare()
    ensures
        bare_fields() == seq![
            (
                "user-agent"@,
                encode_utf8("vantage/0.9 (+https://github.com/husenet/vantage)"@),
            ),
        ],
{
}

} // verus!
