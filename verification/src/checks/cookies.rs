//! Cookie flags: Secure, HttpOnly, SameSite.

use crate::checks::set_cookie::{
    any_attribute, assigned, attribute_value, attributes, attributes_of, carries, cookie_name,
    has_attribute, law_attributes_are_found, law_the_first_value_counts, name_of, value_of,
};
use crate::fields::optional_text;
use crate::response::{Fetched, FetchedView};
use crate::section::{
    bad_line, good_line, law_marks_differ, note_line, section, Section, SectionView,
};
use crate::style::{dim, dimmed, Style};
use crate::text::{
    any_same_ignoring_case, cat2, cat3, cat4, contains, eq_ignore_case, has_text_ignoring_case,
    head, includes, join, joined, lowered, same_ignoring_case, texts, to_lowercase, trimmed,
};
use vstd::prelude::*;
use vstd::string::*;

verus! {

/// What the name of a cookie holds that carries a session, login, or anti-CSRF
/// value.
pub const SESSION_WORDS: [&'static str; 12] = [
    "sess",
    "sid",
    "auth",
    "token",
    "jwt",
    "login",
    "remember",
    "csrf",
    "xsrf",
    "antiforgery",
    "aspnetcore.cookies",
    "applicationcookie",
];

/// Whether a name says that the cookie carries a session.
pub open spec fn session_cookie(name: Seq<char>) -> bool {
    exists|i: int| 0 <= i < 12 && includes(lowered(name), #[trigger] SESSION_WORDS@[i]@)
}

/// Cookie names that carry a session, login, or anti-CSRF value, where losing
/// same-site protection actually matters.
pub fn is_session_cookie(name: &str) -> (r: bool)
    ensures
        r == session_cookie(name@),
{
    let n = to_lowercase(name);
    let table = SESSION_WORDS;
    let mut i: usize = 0;
    while i < 12
        invariant
            i <= 12,
            table == SESSION_WORDS,
            n@ == lowered(name@),
            forall|j: int|
                0 <= j < i ==> !includes(lowered(name@), #[trigger] SESSION_WORDS@[j]@),
        decreases 12 - i,
    {
        let word: &str = table[i];
        if contains(n.as_str(), word) {
            assert(includes(lowered(name@), SESSION_WORDS@[i as int]@));
            return true;
        }
        i += 1;
    }
    false
}

/// What is known of a cookie.
pub struct Flags {
    pub secure: bool,
    pub http_only: bool,
    /// The value of SameSite, if there is one.
    pub same_site: Option<String>,
    /// Whether a "<name>SameSite" companion ships alongside. A cookie with no
    /// SameSite is then the deliberate legacy half of a pair (Azure App Service
    /// emits ARRAffinity + ARRAffinitySameSite this way), so the modern
    /// companion already covers current browsers.
    pub paired: bool,
}

/// What is known of a cookie.
pub struct FlagsView {
    pub secure: bool,
    pub http_only: bool,
    pub same_site: Option<Seq<char>>,
    pub paired: bool,
}

impl View for Flags {
    type V = FlagsView;

    open spec fn view(&self) -> FlagsView {
        FlagsView {
            secure: self.secure,
            http_only: self.http_only,
            same_site: optional_text(self.same_site),
            paired: self.paired,
        }
    }
}

/// The names of the cookies that some lines set.
pub open spec fn names_set(lines: Seq<Seq<char>>) -> Seq<Seq<char>> {
    Seq::new(lines.len(), |i: int| cookie_name(lines[i]))
}

/// What a line says of its cookie, next to the cookies of those names.
pub open spec fn flags(line: Seq<char>, names: Seq<Seq<char>>) -> FlagsView {
    let attrs = attributes(line);
    FlagsView {
        secure: has_attribute(attrs, "secure"@),
        http_only: has_attribute(attrs, "httponly"@),
        same_site: attribute_value(attrs, "samesite"@),
        paired: has_text_ignoring_case(names, cookie_name(line) + "SameSite"@),
    }
}

/// Whether a cookie is sent on every cross-site request.
pub open spec fn crosses_sites(fl: FlagsView) -> bool {
    match fl.same_site {
        Some(v) => same_ignoring_case(v, "none"@),
        None => false,
    }
}

/// The flags that a cookie misses.
pub open spec fn missing(fl: FlagsView) -> Seq<Seq<char>> {
    (if !fl.secure {
        seq!["Secure"@]
    } else {
        Seq::empty()
    }) + (if !fl.http_only {
        seq!["HttpOnly"@]
    } else {
        Seq::empty()
    }) + (if fl.same_site is None && !fl.paired {
        seq!["SameSite"@]
    } else {
        Seq::empty()
    })
}

/// How a cookie is called in a verdict.
pub open spec fn label(name: Seq<char>, is_auth: bool) -> Seq<char> {
    if is_auth {
        name + " (auth cookie)"@
    } else {
        name
    }
}

/// What is amiss with a cookie, if anything is.
pub open spec fn cookie_fault(
    name: Seq<char>,
    fl: FlagsView,
    is_auth: bool,
    is_https: bool,
) -> Option<Seq<char>> {
    if crosses_sites(fl) && !fl.secure {
        // Browsers refuse to store SameSite=None without Secure.
        Some("ineffective (SameSite=None without Secure, cookie not stored)"@)
    } else if missing(fl).len() > 0 {
        Some("missing "@ + joined(missing(fl), ", "@))
    } else if !is_https {
        Some("Secure ineffective (response served over http)"@)
    } else if crosses_sites(fl) && (is_auth || session_cookie(name)) {
        // SameSite=None is a deliberate, valid choice for a cookie that has to
        // travel cross-site, so it is only a weakness on a session or auth
        // cookie, where it removes the CSRF protection.
        Some("SameSite=None on a session cookie (sent on cross-site requests)"@)
    } else {
        None
    }
}

/// What is said of a cookie's same-site protection when nothing is amiss.
pub open spec fn same_site_text(fl: FlagsView) -> Seq<char> {
    match fl.same_site {
        Some(v) => "SameSite="@ + v,
        None => "SameSite via companion cookie"@,
    }
}

/// The line with the verdict on a cookie.
pub open spec fn verdict(
    st: Style,
    name: Seq<char>,
    fl: FlagsView,
    is_auth: bool,
    is_https: bool,
) -> Seq<char> {
    match cookie_fault(name, fl, is_auth, is_https) {
        Some(why) => bad_line(st, label(name, is_auth) + " - "@ + why),
        None => good_line(
            st,
            label(name, is_auth) + " - Secure, HttpOnly, "@ + same_site_text(fl) + " set"@,
        ),
    }
}

/// The lines on the first `n` cookies: each Set-Cookie line in full, and then
/// the verdict on it.
pub open spec fn cookie_lines(
    st: Style,
    set: Seq<Seq<char>>,
    auth: Seq<Seq<char>>,
    is_https: bool,
    n: nat,
) -> Seq<Seq<char>>
    decreases n,
{
    if n == 0 {
        Seq::empty()
    } else {
        let line = set[n - 1];
        let name = cookie_name(line);
        cookie_lines(st, set, auth, is_https, (n - 1) as nat).push("  "@ + dimmed(st, line)).push(
            verdict(
                st,
                name,
                flags(line, names_set(set)),
                has_text_ignoring_case(auth, name),
                is_https,
            ),
        )
    }
}

/// What is said of an auth cookie that the server did not set again.
pub open spec fn unseen_text(name: Seq<char>) -> Seq<char> {
    name + " (auth cookie) not re-issued; flags not visible on this response"@
}

/// The lines on the auth cookies that are not among `names`. Their flags are
/// set by the server on Set-Cookie, so a plain request cookie carries none to
/// check.
pub open spec fn unseen_lines(st: Style, auth: Seq<Seq<char>>, names: Seq<Seq<char>>) -> Seq<
    Seq<char>,
>
    decreases auth.len(),
{
    if auth.len() == 0 {
        Seq::empty()
    } else {
        let had = unseen_lines(st, auth.drop_last(), names);
        if has_text_ignoring_case(names, auth.last()) {
            had
        } else {
            had.push(note_line(st, unseen_text(auth.last())))
        }
    }
}

/// The section on cookies.
pub open spec fn cookies_section(f: FetchedView, auth: Seq<Seq<char>>, st: Style) -> SectionView {
    let set = f.get_all("set-cookie"@);
    section(
        "Cookies"@,
        if set.len() == 0 && auth.len() == 0 {
            seq![note_line(st, "no Set-Cookie headers"@)]
        } else {
            cookie_lines(st, set, auth, f.is_https, set.len()) + unseen_lines(
                st,
                auth,
                names_set(set),
            )
        },
    )
}

fn flags_of(line: &str, name: &str, names: &Vec<String>) -> (r: Flags)
    requires
        name@ == cookie_name(line@),
    ensures
        r@ == flags(line@, texts(names@)),
{
    let attrs = attributes_of(line);
    let companion = cat2(name, "SameSite");
    Flags {
        secure: any_attribute(&attrs, "secure"),
        http_only: any_attribute(&attrs, "httponly"),
        same_site: value_of(&attrs, "samesite"),
        paired: any_same_ignoring_case(names, companion.as_str()),
    }
}

fn missing_of(fl: &Flags) -> (r: Vec<String>)
    ensures
        texts(r@) == missing(fl@),
{
    let mut r: Vec<String> = Vec::new();
    if !fl.secure {
        r.push("Secure".to_owned());
    }
    if !fl.http_only {
        r.push("HttpOnly".to_owned());
    }
    let bare = match fl.same_site {
        Some(_) => false,
        None => true,
    };
    if bare && !fl.paired {
        r.push("SameSite".to_owned());
    }
    assert(texts(r@) =~= missing(fl@));
    r
}

fn fault_of(name: &str, fl: &Flags, is_auth: bool, is_https: bool) -> (r: Option<String>)
    ensures
        optional_text(r) == cookie_fault(name@, fl@, is_auth, is_https),
{
    let crosses = match &fl.same_site {
        Some(v) => eq_ignore_case(v.as_str(), "none"),
        None => false,
    };
    let gaps = missing_of(fl);
    if crosses && !fl.secure {
        Some("ineffective (SameSite=None without Secure, cookie not stored)".to_owned())
    } else if gaps.len() > 0 {
        let t = join(&gaps, ", ");
        Some(cat2("missing ", t.as_str()))
    } else if !is_https {
        Some("Secure ineffective (response served over http)".to_owned())
    } else if crosses && (is_auth || is_session_cookie(name)) {
        Some("SameSite=None on a session cookie (sent on cross-site requests)".to_owned())
    } else {
        None
    }
}

fn judge(
    st: Style,
    sec: &mut Section,
    name: &str,
    fl: &Flags,
    is_auth: bool,
    is_https: bool,
)
    ensures
        final(sec)@ == old(sec)@.with(verdict(st, name@, fl@, is_auth, is_https)),
{
    let called = if is_auth {
        cat2(name, " (auth cookie)")
    } else {
        name.to_owned()
    };
    match fault_of(name, fl, is_auth, is_https) {
        Some(why) => {
            let t = cat3(called.as_str(), " - ", why.as_str());
            sec.bad(st, t.as_str());
        },
        None => {
            let ss = match &fl.same_site {
                Some(v) => cat2("SameSite=", v.as_str()),
                None => "SameSite via companion cookie".to_owned(),
            };
            let t = cat4(called.as_str(), " - Secure, HttpOnly, ", ss.as_str(), " set");
            sec.good(st, t.as_str());
        },
    }
}

fn all_names(set: &Vec<String>) -> (r: Vec<String>)
    ensures
        texts(r@) == names_set(texts(set@)),
{
    let mut r: Vec<String> = Vec::new();
    let mut i: usize = 0;
    while i < set.len()
        invariant
            i <= set@.len(),
            r@.len() == i,
            forall|j: int| 0 <= j < i ==> (#[trigger] r@[j])@ == cookie_name(set@[j]@),
        decreases set@.len() - i,
    {
        r.push(name_of(set[i].as_str()));
        i += 1;
    }
    assert(texts(r@) =~= names_set(texts(set@)));
    r
}

/// Grades the flags of the cookies that a response sets, and singles out those
/// that were sent with the request.
pub fn cookies(f: &Fetched, auth_cookies: &Vec<String>, st: Style) -> (r: Section)
    ensures
        r@ == cookies_section(f@, texts(auth_cookies@), st),
{
    let mut sec = Section::new("Cookies");
    let set = f.get_all("set-cookie");
    let names = all_names(&set);
    let ghost lines = texts(set@);
    let ghost auth = texts(auth_cookies@);
    let mut i: usize = 0;
    while i < set.len()
        invariant
            i <= set@.len(),
            lines == texts(set@),
            auth == texts(auth_cookies@),
            texts(names@) == names_set(lines),
            sec@.title == "Cookies"@,
            sec@.lines == cookie_lines(st, lines, auth, f.is_https, i as nat),
        decreases set@.len() - i,
    {
        assert(texts(names@).len() == lines.len());
        let line = set[i].as_str();
        let name = names[i].as_str();
        assert(lines[i as int] == line@);
        assert(texts(names@)[i as int] == name@);
        let is_auth = any_same_ignoring_case(auth_cookies, name);
        let fl = flags_of(line, name, &names);
        let d = dim(st, line);
        let l = cat2("  ", d.as_str());
        sec.text(l.as_str());
        judge(st, &mut sec, name, &fl, is_auth, f.is_https);
        i += 1;
    }
    let ghost graded = sec@.lines;
    let mut k: usize = 0;
    assert(graded =~= graded + unseen_lines(st, auth.take(0), names_set(lines)));
    while k < auth_cookies.len()
        invariant
            k <= auth_cookies@.len(),
            auth == texts(auth_cookies@),
            texts(names@) == names_set(lines),
            sec@.title == "Cookies"@,
            sec@.lines == graded + unseen_lines(st, auth.take(k as int), names_set(lines)),
        decreases auth_cookies@.len() - k,
    {
        let a = auth_cookies[k].as_str();
        assert(auth.take(k + 1).drop_last() =~= auth.take(k as int));
        assert(auth.take(k + 1).last() == a@);
        if !any_same_ignoring_case(&names, a) {
            let t = cat2(a, " (auth cookie) not re-issued; flags not visible on this response");
            sec.note(st, t.as_str());
            assert(sec@.lines =~= graded + unseen_lines(
                st,
                auth.take(k + 1),
                names_set(lines),
            ));
        }
        k += 1;
    }
    assert(auth.take(k as int) =~= auth);
    if set.len() == 0 && auth_cookies.len() == 0 {
        sec.note(st, "no Set-Cookie headers");
        assert(sec@.lines =~= seq![note_line(st, "no Set-Cookie headers"@)]);
    }
    sec
}

// ---------------------------------------------------------------------------
// Laws
// ---------------------------------------------------------------------------

/// A cookie passes exactly when it came over https with Secure and HttpOnly,
/// carries SameSite or has a companion that does, and does not give up its
/// same-site protection although it is a session or auth cookie.
pub proof fn law_only_a_guarded_cookie_passes(
    name: Seq<char>,
    fl: FlagsView,
    is_auth: bool,
    is_https: bool,
)
    ensures
        cookie_fault(name, fl, is_auth, is_https) is None <==> (is_https && fl.secure
            && fl.http_only && (fl.same_site is Some || fl.paired) && !(crosses_sites(fl) && (
        is_auth || session_cookie(name)))),
{
}

/// The verdict on a cookie marks it as in order exactly when nothing is amiss.
pub proof fn law_verdicts_tell_faults(
    st: Style,
    name: Seq<char>,
    fl: FlagsView,
    is_auth: bool,
    is_https: bool,
    praise: Seq<char>,
)
    ensures
        cookie_fault(name, fl, is_auth, is_https) is Some ==> verdict(
            st,
            name,
            fl,
            is_auth,
            is_https,
        ) != good_line(st, praise),
        cookie_fault(name, fl, is_auth, is_https) is None ==> verdict(
            st,
            name,
            fl,
            is_auth,
            is_https,
        ) == good_line(
            st,
            label(name, is_auth) + " - Secure, HttpOnly, "@ + same_site_text(fl) + " set"@,
        ),
{
    match cookie_fault(name, fl, is_auth, is_https) {
        Some(why) => {
            law_marks_differ(st, praise, label(name, is_auth) + " - "@ + why);
        },
        None => {},
    }
}

/// Every cookie that was sent is spoken of: the server set it again and its
/// flags are graded, or a note says that it did not.
pub proof fn law_every_auth_cookie_is_spoken_of(
    st: Style,
    auth: Seq<Seq<char>>,
    names: Seq<Seq<char>>,
    i: int,
)
    requires
        0 <= i < auth.len(),
    ensures
        has_text_ignoring_case(names, auth[i]) || unseen_lines(st, auth, names).contains(
            note_line(st, unseen_text(auth[i])),
        ),
    decreases auth.len(),
{
    let had = unseen_lines(st, auth.drop_last(), names);
    let all = unseen_lines(st, auth, names);
    if i == auth.len() - 1 {
        if !has_text_ignoring_case(names, auth.last()) {
            assert(all.last() == note_line(st, unseen_text(auth[i])));
        }
    } else {
        law_every_auth_cookie_is_spoken_of(st, auth.drop_last(), names, i);
        let x = note_line(st, unseen_text(auth[i]));
        if had.contains(x) {
            let k = choose|k: int| 0 <= k < had.len() && had[k] == x;
            assert(all[k] == x);
        }
    }
}

/// The cookies that carry a session are known by one of twelve words in their
/// name, in whatever case.
pub proof fn law_session_words(name: Seq<char>)
    ensures
        session_cookie(name) <==> ({
            let n = lowered(name);
            ||| includes(n, "sess"@) || includes(n, "sid"@) || includes(n, "auth"@)
            ||| includes(n, "token"@) || includes(n, "jwt"@) || includes(n, "login"@)
            ||| includes(n, "remember"@) || includes(n, "csrf"@) || includes(n, "xsrf"@)
            ||| includes(n, "antiforgery"@) || includes(n, "aspnetcore.cookies"@)
            ||| includes(n, "applicationcookie"@)
        }),
{
    let n = lowered(name);
    let t = SESSION_WORDS@;
    assert(t[0]@ == "sess"@ && t[1]@ == "sid"@ && t[2]@ == "auth"@ && t[3]@ == "token"@);
    assert(t[4]@ == "jwt"@ && t[5]@ == "login"@ && t[6]@ == "remember"@ && t[7]@ == "csrf"@);
    assert(t[8]@ == "xsrf"@ && t[9]@ == "antiforgery"@ && t[10]@ == "aspnetcore.cookies"@);
    assert(t[11]@ == "applicationcookie"@);
}

/// Each flag is missing or not on its own account: Secure and HttpOnly when the
/// cookie lacks them, SameSite when it has neither a value nor a companion. They
/// are named once each, in this order, and nothing else is.
pub proof fn law_missing_flags_are_independent(fl: FlagsView)
    ensures
        missing(fl).contains("Secure"@) <==> !fl.secure,
        missing(fl).contains("HttpOnly"@) <==> !fl.http_only,
        missing(fl).contains("SameSite"@) <==> fl.same_site is None && !fl.paired,
        forall|i: int|
            0 <= i < missing(fl).len() ==> #[trigger] missing(fl)[i] == "Secure"@ || missing(fl)[i]
                == "HttpOnly"@ || missing(fl)[i] == "SameSite"@,
        missing(fl).no_duplicates(),
        forall|i: int| 0 < i < missing(fl).len() ==> #[trigger] missing(fl)[i] != "Secure"@,
        forall|i: int|
            0 <= i < missing(fl).len() - 1 ==> #[trigger] missing(fl)[i] != "SameSite"@,
{
    reveal_strlit("Secure");
    reveal_strlit("HttpOnly");
    reveal_strlit("SameSite");
    assert("Secure"@.len() == 6 && "HttpOnly"@.len() == 8 && "SameSite"@.len() == 8);
    assert("HttpOnly"@[0] == 'H' && "SameSite"@[0] == 'S');
    let e = Seq::<Seq<char>>::empty();
    let a = if !fl.secure {
        seq!["Secure"@]
    } else {
        e
    };
    let b = if !fl.http_only {
        seq!["HttpOnly"@]
    } else {
        e
    };
    let c = if fl.same_site is None && !fl.paired {
        seq!["SameSite"@]
    } else {
        e
    };
    let m = missing(fl);
    assert(m =~= a + b + c);
    if !fl.secure {
        assert(m[0] == "Secure"@);
    }
    if !fl.http_only {
        assert(m[a.len() as int] == "HttpOnly"@);
    }
    if fl.same_site is None && !fl.paired {
        assert(m[m.len() - 1] == "SameSite"@);
    }
}

/// The flags of a cookie are those that its line carries, and it has a companion
/// exactly when some cookie bears its name with `SameSite` behind it.
pub proof fn law_flags_are_read(
    line: Seq<char>,
    names: Seq<Seq<char>>,
    site: Option<Seq<char>>,
)
    requires
        assigned(line, "samesite"@, site),
    ensures
        flags(line, names).secure <==> carries(line, "secure"@),
        flags(line, names).http_only <==> carries(line, "httponly"@),
        flags(line, names).same_site == site,
        flags(line, names).paired <==> exists|k: int|
            0 <= k < names.len() && same_ignoring_case(
                #[trigger] names[k],
                trimmed(head(line, '=')) + "SameSite"@,
            ),
{
    law_attributes_are_found(line, "secure"@);
    law_attributes_are_found(line, "httponly"@);
    law_the_first_value_counts(line, "samesite"@, site);
}

proof fn lemma_cookie_lines(
    st: Style,
    set: Seq<Seq<char>>,
    auth: Seq<Seq<char>>,
    is_https: bool,
    n: nat,
    i: int,
)
    requires
        0 <= i < n <= set.len(),
    ensures
        cookie_lines(st, set, auth, is_https, n).len() == 2 * n,
        cookie_lines(st, set, auth, is_https, n)[2 * i] == "  "@ + dimmed(st, set[i]),
        cookie_lines(st, set, auth, is_https, n)[2 * i + 1] == verdict(
            st,
            cookie_name(set[i]),
            flags(set[i], names_set(set)),
            has_text_ignoring_case(auth, cookie_name(set[i])),
            is_https,
        ),
    decreases n,
{
    if n > 1 {
        lemma_cookie_lines(
            st,
            set,
            auth,
            is_https,
            (n - 1) as nat,
            if i < n - 1 {
                i
            } else {
                0
            },
        );
    } else {
        assert(cookie_lines(st, set, auth, is_https, 0) =~= Seq::empty());
    }
}

/// Whether some text equals `t` up to case.
pub open spec fn listed_up_to_case(v: Seq<Seq<char>>, t: Seq<char>) -> bool {
    exists|k: int| 0 <= k < v.len() && same_ignoring_case(#[trigger] v[k], t)
}

/// Every cookie that a response sets is shown in full and graded in the line
/// behind. SameSite=None without Secure is what counts first. Otherwise every
/// flag that the line does not carry is named, whatever the others say: Secure,
/// HttpOnly, and SameSite if no companion makes up for it. A cookie with all of
/// them is faulted only over http, or where it is sent across sites although it
/// is a session or auth cookie; if it is not, it passes.
pub proof fn law_every_cookie_is_graded(
    f: FetchedView,
    auth: Seq<Seq<char>>,
    st: Style,
    i: int,
    site: Option<Seq<char>>,
)
    requires
        0 <= i < f.get_all("set-cookie"@).len(),
        assigned(f.get_all("set-cookie"@)[i], "samesite"@, site),
    ensures
        ({
            let set = f.get_all("set-cookie"@);
            let line = set[i];
            let name = trimmed(head(line, '='));
            let secure = carries(line, "secure"@);
            let http_only = carries(line, "httponly"@);
            let paired = exists|k: int|
                0 <= k < set.len() && same_ignoring_case(
                    trimmed(head(#[trigger] set[k], '=')),
                    name + "SameSite"@,
                );
            let guarded = site is Some || paired;
            let sent_anywhere = site is Some && same_ignoring_case(site->0, "none"@);
            let is_auth = listed_up_to_case(auth, name);
            let called = if is_auth {
                name + " (auth cookie)"@
            } else {
                name
            };
            let all = cookies_section(f, auth, st).lines;
            let graded = all[2 * i + 1];
            &&& cookies_section(f, auth, st).title == "Cookies"@
            &&& all[2 * i] == "  "@ + dimmed(st, line)
            &&& sent_anywhere && !secure ==> graded == bad_line(
                st,
                called + " - ineffective (SameSite=None without Secure, cookie not stored)"@,
            )
            &&& !(sent_anywhere && !secure) && !(secure && http_only && guarded) ==> exists|
                gaps: Seq<Seq<char>>,
            |
                graded == bad_line(st, called + " - missing "@ + #[trigger] joined(gaps, ", "@)) && (
                gaps.contains("Secure"@) <==> !secure) && (gaps.contains("HttpOnly"@)
                    <==> !http_only) && (gaps.contains("SameSite"@) <==> !guarded)
                    && gaps.no_duplicates()
            &&& secure && http_only && guarded && !f.is_https ==> graded == bad_line(
                st,
                called + " - Secure ineffective (response served over http)"@,
            )
            &&& secure && http_only && guarded && f.is_https && sent_anywhere && (is_auth
                || session_cookie(name)) ==> graded == bad_line(
                st,
                called
                    + " - SameSite=None on a session cookie (sent on cross-site requests)"@,
            )
            &&& secure && http_only && guarded && f.is_https && !(sent_anywhere && (is_auth
                || session_cookie(name))) ==> graded == good_line(
                st,
                called + " - Secure, HttpOnly, "@ + (match site {
                    Some(v) => "SameSite="@ + v,
                    None => "SameSite via companion cookie"@,
                }) + " set"@,
            )
        }),
{
    let set = f.get_all("set-cookie"@);
    let line = set[i];
    let name = cookie_name(line);
    let names = names_set(set);
    let fl = flags(line, names);
    lemma_cookie_lines(st, set, auth, f.is_https, set.len(), i);
    law_flags_are_read(line, names, site);
    law_missing_flags_are_independent(fl);
    let paired = exists|k: int|
        0 <= k < set.len() && same_ignoring_case(
            trimmed(head(#[trigger] set[k], '=')),
            name + "SameSite"@,
        );
    assert(fl.paired == paired) by {
        if fl.paired {
            let k = choose|k: int|
                0 <= k < names.len() && same_ignoring_case(#[trigger] names[k], name + "SameSite"@);
            assert(names[k] == trimmed(head(set[k], '=')));
        }
        if paired {
            let k = choose|k: int|
                0 <= k < set.len() && same_ignoring_case(
                    trimmed(head(#[trigger] set[k], '=')),
                    name + "SameSite"@,
                );
            assert(names[k] == trimmed(head(set[k], '=')));
        }
    }
    let is_auth = listed_up_to_case(auth, name);
    assert(is_auth == has_text_ignoring_case(auth, name)) by {
        if is_auth {
            let k = choose|k: int| 0 <= k < auth.len() && same_ignoring_case(#[trigger] auth[k], name);
            assert(same_ignoring_case(auth[k], name));
        }
    }
    let called = label(name, is_auth);
    let gaps = missing(fl);
    reveal_strlit(" - ");
    reveal_strlit("missing ");
    reveal_strlit(" - missing ");
    assert(" - "@ + "missing "@ =~= " - missing "@);
    assert(called + " - "@ + ("missing "@ + joined(gaps, ", "@)) =~= called + (" - "@ + "missing "@)
        + joined(gaps, ", "@));
    let a = "ineffective (SameSite=None without Secure, cookie not stored)"@;
    let b = "Secure ineffective (response served over http)"@;
    let c = "SameSite=None on a session cookie (sent on cross-site requests)"@;
    reveal_strlit("ineffective (SameSite=None without Secure, cookie not stored)");
    reveal_strlit(" - ineffective (SameSite=None without Secure, cookie not stored)");
    reveal_strlit("Secure ineffective (response served over http)");
    reveal_strlit(" - Secure ineffective (response served over http)");
    reveal_strlit("SameSite=None on a session cookie (sent on cross-site requests)");
    reveal_strlit(" - SameSite=None on a session cookie (sent on cross-site requests)");
    assert(called + " - "@ + a =~= called
        + " - ineffective (SameSite=None without Secure, cookie not stored)"@);
    assert(called + " - "@ + b =~= called + " - Secure ineffective (response served over http)"@);
    assert(called + " - "@ + c =~= called
        + " - SameSite=None on a session cookie (sent on cross-site requests)"@);
    if fl.secure && fl.http_only && (fl.same_site is Some || fl.paired) {
        assert(gaps.len() == 0) by {
            if gaps.len() > 0 {
                assert(gaps.contains(gaps[0]));
            }
        }
    }
}

proof fn lemma_unseen(st: Style, auth: Seq<Seq<char>>, names: Seq<Seq<char>>, k: int)
    requires
        0 <= k < unseen_lines(st, auth, names).len(),
    ensures
        exists|j: int|
            0 <= j < auth.len() && unseen_lines(st, auth, names)[k] == note_line(
                st,
                #[trigger] auth[j]
                    + " (auth cookie) not re-issued; flags not visible on this response"@,
            ) && !has_text_ignoring_case(names, auth[j]),
    decreases auth.len(),
{
    let had = unseen_lines(st, auth.drop_last(), names);
    if k < had.len() {
        lemma_unseen(st, auth.drop_last(), names, k);
        let j = choose|j: int|
            0 <= j < auth.drop_last().len() && had[k] == note_line(
                st,
                #[trigger] auth.drop_last()[j]
                    + " (auth cookie) not re-issued; flags not visible on this response"@,
            ) && !has_text_ignoring_case(names, auth.drop_last()[j]);
        assert(auth[j] == auth.drop_last()[j]);
    } else {
        assert(auth[auth.len() - 1] == auth.last());
    }
}

/// Behind the graded cookies stands one note for each cookie that was sent and
/// not set again, and nothing else; a response without cookies, asked without
/// any, says so.
pub proof fn law_sent_cookies_are_noted(f: FetchedView, auth: Seq<Seq<char>>, st: Style, j: int)
    ensures
        ({
            let set = f.get_all("set-cookie"@);
            let n = 2 * set.len();
            let all = cookies_section(f, auth, st).lines;
            let note = |t: Seq<char>|
                note_line(
                    st,
                    t + " (auth cookie) not re-issued; flags not visible on this response"@,
                );
            &&& set.len() == 0 && auth.len() == 0 ==> all == seq![
                note_line(st, "no Set-Cookie headers"@),
            ]
            &&& 0 <= j < auth.len() && (forall|k: int|
                0 <= k < set.len() ==> !same_ignoring_case(
                    trimmed(head(#[trigger] set[k], '=')),
                    auth[j],
                )) ==> exists|k: int| n <= k < all.len() && #[trigger] all[k] == note(auth[j])
            &&& auth.len() > 0 || set.len() > 0 ==> forall|k: int|
                n <= k < all.len() ==> exists|i: int|
                    0 <= i < auth.len() && #[trigger] all[k] == note(#[trigger] auth[i]) && forall|
                        m: int,
                    |
                        0 <= m < set.len() ==> !same_ignoring_case(
                            trimmed(head(#[trigger] set[m], '=')),
                            auth[i],
                        )
        }),
{
    let set = f.get_all("set-cookie"@);
    let names = names_set(set);
    let all = cookies_section(f, auth, st).lines;
    let graded = cookie_lines(st, set, auth, f.is_https, set.len());
    let unseen = unseen_lines(st, auth, names);
    if set.len() > 0 {
        lemma_cookie_lines(st, set, auth, f.is_https, set.len(), 0);
    }
    if 0 <= j < auth.len() && (forall|k: int|
        0 <= k < set.len() ==> !same_ignoring_case(
            trimmed(head(#[trigger] set[k], '=')),
            auth[j],
        )) {
        assert(!has_text_ignoring_case(names, auth[j])) by {
            if has_text_ignoring_case(names, auth[j]) {
                let k = choose|k: int|
                    0 <= k < names.len() && same_ignoring_case(#[trigger] names[k], auth[j]);
                assert(names[k] == trimmed(head(set[k], '=')));
            }
        }
        law_every_auth_cookie_is_spoken_of(st, auth, names, j);
        let x = note_line(st, unseen_text(auth[j]));
        let k = choose|k: int| 0 <= k < unseen.len() && unseen[k] == x;
        assert(all[graded.len() + k] == x);
    }
    if auth.len() > 0 || set.len() > 0 {
        assert forall|k: int| 2 * set.len() <= k < all.len() implies exists|i: int|
            0 <= i < auth.len() && #[trigger] all[k] == note_line(
                st,
                #[trigger] auth[i]
                    + " (auth cookie) not re-issued; flags not visible on this response"@,
            ) && forall|m: int|
                0 <= m < set.len() ==> !same_ignoring_case(
                    trimmed(head(#[trigger] set[m], '=')),
                    auth[i],
                ) by {
            assert(all[k] == unseen[k - graded.len()]);
            lemma_unseen(st, auth, names, k - graded.len());
            let i = choose|i: int|
                0 <= i < auth.len() && unseen[k - graded.len()] == note_line(
                    st,
                    #[trigger] auth[i]
                        + " (auth cookie) not re-issued; flags not visible on this response"@,
                ) && !has_text_ignoring_case(names, auth[i]);
            assert forall|m: int| 0 <= m < set.len() implies !same_ignoring_case(
                trimmed(head(#[trigger] set[m], '=')),
                auth[i],
            ) by {
                assert(names[m] == trimmed(head(set[m], '=')));
            }
        }
    }
}

/// The cookies that were sent are noted in the order in which they were sent,
/// each one that is not among those set again.
pub proof fn law_notes_add_up(
    st: Style,
    auth: Seq<Seq<char>>,
    a: Seq<char>,
    names: Seq<Seq<char>>,
)
    ensures
        ({
            let had = unseen_lines(st, auth, names);
            let all = unseen_lines(st, auth.push(a), names);
            let seen = exists|k: int|
                0 <= k < names.len() && same_ignoring_case(#[trigger] names[k], a);
            &&& unseen_lines(st, Seq::<Seq<char>>::empty(), names).len() == 0
            &&& seen ==> all == had
            &&& !seen ==> all == had.push(
                note_line(
                    st,
                    a + " (auth cookie) not re-issued; flags not visible on this response"@,
                ),
            )
        }),
{
    assert(auth.push(a).drop_last() =~= auth);
    if has_text_ignoring_case(names, a) {
        let k = choose|k: int| 0 <= k < names.len() && same_ignoring_case(#[trigger] names[k], a);
        assert(same_ignoring_case(names[k], a));
    }
}

} // verus!
