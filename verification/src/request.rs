//! What every request carries: the default headers and the shared settings.

use crate::base64::{base64, base64_encode};
use crate::fields::{
    append_header, appended, check_header_name, check_header_value, copy_header_map, header_fields, insert_header, inserted, law_append_adds, law_insert_replaces, new_header_map,
    others, valid_name, valid_value, values, Field, SURE_FIELDS,
};
use crate::text::{
    ascii_lower, cat2, eq_ignore_case, from_chars, halves, join, joined, law_joining, law_parting,
    lemma_strip_end_concat, lemma_trimming_in_two_steps, same_ignoring_case, split_once, strip_end,
    texts, to_chars, trim, trimmed, CharSet,
};
use reqwest::header::{HeaderMap, HeaderValue};
use vstd::prelude::*;
use vstd::string::*;
use vstd::utf8::encode_utf8;

verus! {

/// The `User-Agent` that is sent unless another one is asked for.
pub const USER_AGENT: &'static str = "vantage/0.9 (+https://github.com/husenet/vantage)";

/// The complaint about more headers than a header map holds.
pub const TOO_MANY: &'static str = "too many headers";

/// Shared request settings: timeout, TLS strictness, and the default headers
/// (User-Agent plus any auth the user passed).
pub struct HttpConfig {
    /// Per-request timeout in nanoseconds.
    pub timeout_nanos: u128,
    /// Accept invalid certificates.
    pub insecure: bool,
    /// Sent with every request.
    pub headers: HeaderMap<HeaderValue>,
    /// Force HTTP/1.1 instead of letting ALPN negotiate HTTP/2.
    pub http1_only: bool,
}

/// Whether a text begins with `Cookie:`, in whatever case.
pub open spec fn has_cookie_prefix(t: Seq<char>) -> bool {
    t.len() >= 7 && same_ignoring_case(t.take(7), "cookie:"@)
}

/// A cookie string without the leading `Cookie:` that it may have been pasted
/// with.
pub open spec fn cookie_pairs(s: Seq<char>) -> Seq<char> {
    let t = trimmed(s);
    if has_cookie_prefix(t) {
        trimmed(t.skip(7))
    } else {
        t
    }
}

/// A pasted cookie string often includes the leading "Cookie:" header name
/// (e.g. copied from devtools). Drop it so the value is just the pairs.
pub fn strip_cookie_prefix(s: &str) -> (r: String)
    ensures
        r@ == cookie_pairs(s@),
{
    let t = trim(s);
    let v = to_chars(t.as_str());
    let n: usize = v.len();
    if n >= 7 {
        let p = from_chars(&v, 0, 7);
        assert(p@ =~= t@.take(7));
        if eq_ignore_case(p.as_str(), "cookie:") {
            let rest = from_chars(&v, 7, n);
            assert(rest@ =~= t@.skip(7));
            return trim(rest.as_str());
        }
    }
    t
}

/// The fields or the complaint that some inputs give.
pub type Built = Result<Seq<Field>, Seq<char>>;

/// `fs` with one custom header of the form `Name: Value` added.
pub open spec fn with_header(fs: Seq<Field>, h: Seq<char>) -> Built {
    match halves(h, ':') {
        None => Err("invalid --header (expected 'Name: Value'): "@ + h),
        Some(p) => {
            let name = trimmed(p.0);
            let value = trimmed(p.1);
            if !valid_name(name) {
                Err("invalid header name: "@ + name)
            } else if !valid_value(value) {
                Err("invalid header value for "@ + name)
            } else {
                Ok(appended(fs, ascii_lower(name), encode_utf8(value)))
            }
        },
    }
}

/// `fs` with custom headers added, up to the first malformed one.
pub open spec fn with_headers(fs: Seq<Field>, hs: Seq<Seq<char>>) -> Built
    decreases hs.len(),
{
    if hs.len() == 0 {
        Ok(fs)
    } else {
        match with_header(fs, hs[0]) {
            Ok(f) => with_headers(f, hs.skip(1)),
            Err(e) => Err(e),
        }
    }
}

/// The one `Cookie` value that some cookie strings collapse into.
pub open spec fn cookie_value(cookies: Seq<Seq<char>>) -> Seq<char> {
    joined(Seq::new(cookies.len(), |i: int| cookie_pairs(cookies[i])), "; "@)
}

/// `fs` with the cookies set.
pub open spec fn with_cookies(fs: Seq<Field>, cookies: Seq<Seq<char>>) -> Built {
    if cookies.len() == 0 {
        Ok(fs)
    } else if valid_value(cookie_value(cookies)) {
        Ok(inserted(fs, "cookie"@, encode_utf8(cookie_value(cookies))))
    } else {
        Err("invalid --cookie value"@)
    }
}

/// The `Authorization` value for a bearer token.
pub open spec fn bearer_value(token: Seq<char>) -> Seq<char> {
    "Bearer "@ + token
}

/// The `Authorization` value for `user:pass`.
pub open spec fn basic_value(creds: Seq<char>) -> Seq<char> {
    "Basic "@ + base64(encode_utf8(creds))
}

/// `fs` with the `Authorization` header set: for the token if there is one, or
/// else for the credentials.
pub open spec fn with_auth(
    fs: Seq<Field>,
    bearer: Option<Seq<char>>,
    basic: Option<Seq<char>>,
) -> Built {
    match bearer {
        Some(t) => if valid_value(bearer_value(t)) {
            Ok(inserted(fs, "authorization"@, encode_utf8(bearer_value(t))))
        } else {
            Err("invalid --bearer token"@)
        },
        None => match basic {
            Some(c) => if valid_value(basic_value(c)) {
                Ok(inserted(fs, "authorization"@, encode_utf8(basic_value(c))))
            } else {
                Err("invalid --basic value"@)
            },
            None => Ok(fs),
        },
    }
}

/// The default headers for the given inputs, or the complaint about the first
/// malformed one.
pub open spec fn request_headers(
    ua: Seq<char>,
    headers: Seq<Seq<char>>,
    cookies: Seq<Seq<char>>,
    bearer: Option<Seq<char>>,
    basic: Option<Seq<char>>,
) -> Built {
    if !valid_value(ua) {
        Err("invalid --user-agent value: "@ + ua)
    } else {
        match with_headers(seq![("user-agent"@, encode_utf8(ua))], headers) {
            Err(e) => Err(e),
            Ok(a) => match with_cookies(a, cookies) {
                Err(e) => Err(e),
                Ok(b) => with_auth(b, bearer, basic),
            },
        }
    }
}

/// The view of an optional borrowed string.
pub open spec fn optional_str(o: Option<&str>) -> Option<Seq<char>> {
    match o {
        Some(s) => Some(s@),
        None => None,
    }
}

/// The `User-Agent` to send.
pub open spec fn user_agent_or_default(ua: Option<Seq<char>>) -> Seq<char> {
    match ua {
        Some(s) => s,
        None => USER_AGENT@,
    }
}

proof fn lemma_lengths(fs: Seq<Field>, name: Seq<char>, value: Seq<u8>)
    ensures
        others(fs, name).len() <= fs.len(),
        inserted(fs, name, value).len() <= fs.len() + 1,
        appended(fs, name, value).len() == fs.len() + 1,
    decreases fs.len(),
{
    if fs.len() > 0 {
        lemma_lengths(fs.skip(1), name, value);
        lemma_lengths(fs.drop_last(), name, value);
    }
}

proof fn lemma_known_names()
    ensures
        valid_name("user-agent"@) && ascii_lower("user-agent"@) == "user-agent"@,
        valid_name("cookie"@) && ascii_lower("cookie"@) == "cookie"@,
        valid_name("authorization"@) && ascii_lower("authorization"@) == "authorization"@,
        valid_name("origin"@) && ascii_lower("origin"@) == "origin"@,
        "cookie"@ != "authorization"@,
        "user-agent"@ != "authorization"@,
        "user-agent"@ != "cookie"@,
{
    reveal_strlit("user-agent");
    reveal_strlit("cookie");
    reveal_strlit("authorization");
    reveal_strlit("origin");
    assert(ascii_lower("user-agent"@) =~= "user-agent"@);
    assert(ascii_lower("cookie"@) =~= "cookie"@);
    assert(ascii_lower("authorization"@) =~= "authorization"@);
    assert(ascii_lower("origin"@) =~= "origin"@);
    assert("cookie"@.len() == 6 && "authorization"@.len() == 13 && "user-agent"@.len() == 10);
}

/// Adds the custom headers to the map.
fn add_headers(map: &mut HeaderMap<HeaderValue>, headers: &Vec<String>) -> (r: Result<(), String>)
    ensures
        match r {
            Ok(_) => with_headers(header_fields(*old(map)), texts(headers@)) == Built::Ok(
                header_fields(*final(map)),
            ) && header_fields(*final(map)).len() == header_fields(*old(map)).len()
                + headers@.len(),
            Err(e) => with_headers(header_fields(*old(map)), texts(headers@)) == Built::Err(e@) || (
            e@ == TOO_MANY@ && header_fields(*old(map)).len() + headers@.len() > SURE_FIELDS),
        },
{
    let ghost fs = header_fields(*map);
    let ghost hs = texts(headers@);
    let mut i: usize = 0;
    assert(hs.skip(0) =~= hs);
    while i < headers.len()
        invariant
            i <= headers@.len(),
            fs == header_fields(*old(map)),
            hs == texts(headers@),
            with_headers(fs, hs) == with_headers(header_fields(*map), hs.skip(i as int)),
            header_fields(*map).len() == fs.len() + i,
        decreases headers@.len() - i,
    {
        let ghost now = header_fields(*map);
        let h = headers[i].as_str();
        proof {
            assert(hs.skip(i as int)[0] == h@);
            assert(hs.skip(i as int).skip(1) =~= hs.skip(i + 1));
        }
        match split_once(h, ':') {
            None => {
                return Err(cat2("invalid --header (expected 'Name: Value'): ", h));
            },
            Some(p) => {
                let name = trim(p.0.as_str());
                let value = trim(p.1.as_str());
                match check_header_name(name.as_str()) {
                    Err(_) => {
                        return Err(cat2("invalid header name: ", name.as_str()));
                    },
                    Ok(_) => {},
                }
                match check_header_value(value.as_str()) {
                    Err(_) => {
                        return Err(cat2("invalid header value for ", name.as_str()));
                    },
                    Ok(_) => {},
                }
                proof {
                    lemma_lengths(now, ascii_lower(name@), encode_utf8(value@));
                }
                match append_header(map, name.as_str(), value.as_str()) {
                    Err(_) => {
                        return Err(TOO_MANY.to_owned());
                    },
                    Ok(_) => {},
                }
            },
        }
        i += 1;
    }
    assert(hs.skip(i as int) =~= Seq::empty());
    Ok(())
}

/// Joins the cookie strings into one `Cookie` value.
fn join_cookies(cookies: &Vec<String>) -> (r: String)
    ensures
        r@ == cookie_value(texts(cookies@)),
{
    let mut parts: Vec<String> = Vec::new();
    let mut i: usize = 0;
    while i < cookies.len()
        invariant
            i <= cookies@.len(),
            parts@.len() == i,
            forall|j: int| 0 <= j < i ==> (#[trigger] parts@[j])@ == cookie_pairs(cookies@[j]@),
        decreases cookies@.len() - i,
    {
        parts.push(strip_cookie_prefix(cookies[i].as_str()));
        i += 1;
    }
    assert(texts(parts@) =~= Seq::new(
        texts(cookies@).len(),
        |j: int| cookie_pairs(texts(cookies@)[j]),
    ));
    join(&parts, "; ")
}

/// Build the default-header map from the auth inputs. Returns a human-readable
/// error describing the first malformed input, if any.
///
/// Precedence for the Authorization header: an explicit custom header is
/// overridden by a bearer token or by credentials if those are also given
/// (the token wins over the credentials).
pub fn build_headers(
    user_agent: Option<&str>,
    headers: &Vec<String>,
    cookies: &Vec<String>,
    bearer: Option<&str>,
    basic: Option<&str>,
) -> (r: Result<HeaderMap<HeaderValue>, String>)
    ensures
        ({
            let built = request_headers(
                user_agent_or_default(optional_str(user_agent)),
                texts(headers@),
                texts(cookies@),
                optional_str(bearer),
                optional_str(basic),
            );
            match r {
                Ok(m) => built == Built::Ok(header_fields(m)),
                Err(e) => built == Built::Err(e@) || (e@ == TOO_MANY@ && headers@.len() + 2
                    > SURE_FIELDS),
            }
        }),
{
    proof {
        lemma_known_names();
    }
    let mut map = new_header_map();
    let ua: &str = match user_agent {
        Some(s) => s,
        None => USER_AGENT,
    };
    match check_header_value(ua) {
        Err(_) => {
            return Err(cat2("invalid --user-agent value: ", ua));
        },
        Ok(_) => {},
    }
    match insert_header(&mut map, "user-agent", ua) {
        Err(_) => {
            return Err(TOO_MANY.to_owned());
        },
        Ok(_) => {},
    }
    assert(header_fields(map) =~= seq![("user-agent"@, encode_utf8(ua@))]);
    match add_headers(&mut map, headers) {
        Err(e) => {
            return Err(e);
        },
        Ok(_) => {},
    }
    if cookies.len() > 0 {
        let value = join_cookies(cookies);
        match check_header_value(value.as_str()) {
            Err(_) => {
                return Err("invalid --cookie value".to_owned());
            },
            Ok(_) => {},
        }
        proof {
            lemma_lengths(header_fields(map), "cookie"@, encode_utf8(value@));
        }
        match insert_header(&mut map, "cookie", value.as_str()) {
            Err(_) => {
                return Err(TOO_MANY.to_owned());
            },
            Ok(_) => {},
        }
    }
    if let Some(token) = bearer {
        let value = cat2("Bearer ", token);
        match check_header_value(value.as_str()) {
            Err(_) => {
                return Err("invalid --bearer token".to_owned());
            },
            Ok(_) => {},
        }
        match insert_header(&mut map, "authorization", value.as_str()) {
            Err(_) => {
                return Err(TOO_MANY.to_owned());
            },
            Ok(_) => {},
        }
    } else if let Some(creds) = basic {
        let code = base64_encode(creds.as_bytes());
        let value = cat2("Basic ", code.as_str());
        match check_header_value(value.as_str()) {
            Err(_) => {
                return Err("invalid --basic value".to_owned());
            },
            Ok(_) => {},
        }
        match insert_header(&mut map, "authorization", value.as_str()) {
            Err(_) => {
                return Err(TOO_MANY.to_owned());
            },
            Ok(_) => {},
        }
    }
    Ok(map)
}

/// The fields with an `Origin` added, if the origin can be a header value.
pub open spec fn with_origin_fields(fs: Seq<Field>, origin: Seq<char>) -> Seq<Field> {
    if valid_value(origin) {
        inserted(fs, "origin"@, encode_utf8(origin))
    } else {
        fs
    }
}

/// Copies the config with an Origin header added, for the CORS reflection
/// probe. An origin that no header can carry, or that the header map has no
/// room for, is left out.
pub fn with_origin(cfg: &HttpConfig, origin: &str) -> (r: HttpConfig)
    ensures
        r.timeout_nanos == cfg.timeout_nanos,
        r.insecure == cfg.insecure,
        r.http1_only == cfg.http1_only,
        header_fields(r.headers) == with_origin_fields(header_fields(cfg.headers), origin@) || (
        header_fields(r.headers) == header_fields(cfg.headers) && header_fields(cfg.headers).len()
            > SURE_FIELDS),
{
    proof {
        lemma_known_names();
    }
    let mut headers = copy_header_map(&cfg.headers);
    match check_header_value(origin) {
        Ok(_) => {
            match insert_header(&mut headers, "origin", origin) {
                Ok(_) => {},
                Err(_) => {},
            }
        },
        Err(_) => {},
    }
    HttpConfig {
        timeout_nanos: cfg.timeout_nanos,
        insecure: cfg.insecure,
        headers,
        http1_only: cfg.http1_only,
    }
}

// ---------------------------------------------------------------------------
// Laws
// ---------------------------------------------------------------------------

/// The values that custom headers give to a name, in order.
pub open spec fn given_values(hs: Seq<Seq<char>>, name: Seq<char>) -> Seq<Seq<u8>>
    decreases hs.len(),
{
    if hs.len() == 0 {
        Seq::empty()
    } else {
        let rest = given_values(hs.skip(1), name);
        match halves(hs[0], ':') {
            Some(p) => if ascii_lower(trimmed(p.0)) == name {
                seq![encode_utf8(trimmed(p.1))] + rest
            } else {
                rest
            },
            None => rest,
        }
    }
}

/// Custom headers of one name stack: each adds its value behind those that the
/// name already had, and touches no other name.
pub proof fn law_custom_headers_stack(fs: Seq<Field>, hs: Seq<Seq<char>>, name: Seq<char>)
    ensures
        match with_headers(fs, hs) {
            Ok(r) => values(r, name) == values(fs, name) + given_values(hs, name),
            Err(_) => true,
        },
    decreases hs.len(),
{
    if hs.len() == 0 {
        assert(values(fs, name) + given_values(hs, name) =~= values(fs, name));
    } else {
        match with_header(fs, hs[0]) {
            Ok(f) => {
                let p = halves(hs[0], ':')->0;
                let n = ascii_lower(trimmed(p.0));
                law_append_adds(fs, n, encode_utf8(trimmed(p.1)), name);
                law_custom_headers_stack(f, hs.skip(1), name);
                let rest = given_values(hs.skip(1), name);
                if n == name {
                    assert(values(fs, name).push(encode_utf8(trimmed(p.1))) + rest =~= values(
                        fs,
                        name,
                    ) + (seq![encode_utf8(trimmed(p.1))] + rest));
                }
            },
            Err(_) => {},
        }
    }
}

/// Where the headers can be built at all, a bearer token is the only
/// `Authorization` sent; without one the credentials are; and either replaces
/// whatever a custom header said.
pub proof fn law_authorization_precedence(
    ua: Seq<char>,
    headers: Seq<Seq<char>>,
    cookies: Seq<Seq<char>>,
    bearer: Option<Seq<char>>,
    basic: Option<Seq<char>>,
)
    ensures
        match request_headers(ua, headers, cookies, bearer, basic) {
            Ok(fs) => match bearer {
                Some(t) => values(fs, "authorization"@) == seq![encode_utf8(bearer_value(t))],
                None => match basic {
                    Some(c) => values(fs, "authorization"@) == seq![encode_utf8(basic_value(c))],
                    None => values(fs, "authorization"@) == given_values(
                        headers,
                        "authorization"@,
                    ),
                },
            },
            Err(_) => true,
        },
{
    lemma_known_names();
    let start = seq![("user-agent"@, encode_utf8(ua))];
    match with_headers(start, headers) {
        Ok(a) => {
            law_custom_headers_stack(start, headers, "authorization"@);
            assert(start.drop_last() =~= Seq::empty());
            assert(values(start.drop_last(), "authorization"@) =~= Seq::empty());
            assert(values(start, "authorization"@) + given_values(headers, "authorization"@)
                =~= given_values(headers, "authorization"@));
            match with_cookies(a, cookies) {
                Ok(b) => {
                    law_insert_replaces(
                        a,
                        "cookie"@,
                        encode_utf8(cookie_value(cookies)),
                        "authorization"@,
                    );
                    match bearer {
                        Some(t) => {
                            law_insert_replaces(
                                b,
                                "authorization"@,
                                encode_utf8(bearer_value(t)),
                                "cookie"@,
                            );
                        },
                        None => match basic {
                            Some(c) => {
                                law_insert_replaces(
                                    b,
                                    "authorization"@,
                                    encode_utf8(basic_value(c)),
                                    "cookie"@,
                                );
                            },
                            None => {},
                        },
                    }
                },
                Err(_) => {},
            }
        },
        Err(_) => {},
    }
}

/// Where the headers can be built at all, the cookie strings collapse into one
/// `Cookie` header, as a browser sends.
pub proof fn law_cookies_collapse(
    ua: Seq<char>,
    headers: Seq<Seq<char>>,
    cookies: Seq<Seq<char>>,
    bearer: Option<Seq<char>>,
    basic: Option<Seq<char>>,
)
    requires
        cookies.len() > 0,
    ensures
        match request_headers(ua, headers, cookies, bearer, basic) {
            Ok(fs) => values(fs, "cookie"@) == seq![encode_utf8(cookie_value(cookies))],
            Err(_) => true,
        },
{
    lemma_known_names();
    let start = seq![("user-agent"@, encode_utf8(ua))];
    match with_headers(start, headers) {
        Ok(a) => match with_cookies(a, cookies) {
            Ok(b) => {
                law_insert_replaces(
                    a,
                    "cookie"@,
                    encode_utf8(cookie_value(cookies)),
                    "authorization"@,
                );
                match bearer {
                    Some(t) => {
                        law_insert_replaces(
                            b,
                            "authorization"@,
                            encode_utf8(bearer_value(t)),
                            "cookie"@,
                        );
                    },
                    None => match basic {
                        Some(c) => {
                            law_insert_replaces(
                                b,
                                "authorization"@,
                                encode_utf8(basic_value(c)),
                                "cookie"@,
                            );
                        },
                        None => {},
                    },
                }
            },
            Err(_) => {},
        },
        Err(_) => {},
    }
}

/// An added origin is the only one sent, and no other header changes.
pub proof fn law_origin_is_added(fs: Seq<Field>, origin: Seq<char>, other: Seq<char>)
    requires
        valid_value(origin),
        other != "origin"@,
    ensures
        values(with_origin_fields(fs, origin), "origin"@) == seq![encode_utf8(origin)],
        values(with_origin_fields(fs, origin), other) == values(fs, other),
{
    law_insert_replaces(fs, "origin"@, encode_utf8(origin), other);
}

/// A leading `Cookie:` makes no difference to a cookie string.
pub proof fn law_cookie_prefix_is_dropped(pairs: Seq<char>)
    requires
        !has_cookie_prefix(trimmed(pairs)),
    ensures
        cookie_pairs("Cookie:"@ + pairs) == cookie_pairs(pairs),
{
    reveal_strlit("Cookie:");
    reveal_strlit("cookie:");
    let c = "Cookie:"@;
    let k = CharSet::White;
    assert(c.len() == 7 && c[0] == 'C' && c.last() == ':');
    lemma_strip_end_concat(c, pairs, k);
    assert(strip_end(c, k) == c);
    let t = trimmed(c + pairs);
    assert(t =~= c + strip_end(pairs, k));
    assert(t.take(7) =~= c);
    assert(t.skip(7) =~= strip_end(pairs, k));
    assert(ascii_lower(c) =~= ascii_lower("cookie:"@));
    lemma_trimming_in_two_steps(pairs, k);
}

/// A custom header is read at its first colon: what stands before it is the
/// name, what stands behind it the value, both trimmed. A header without a
/// colon, with a bad name or with a bad value is refused, each in its own words.
pub proof fn law_custom_headers_are_read(fs: Seq<Field>, a: Seq<char>, b: Seq<char>)
    requires
        !a.contains(':'),
    ensures
        ({
            let h = a + seq![':'] + b;
            let name = trimmed(a);
            let value = trimmed(b);
            &&& with_header(fs, a) == Built::Err(
                "invalid --header (expected 'Name: Value'): "@ + a,
            )
            &&& !valid_name(name) ==> with_header(fs, h) == Built::Err(
                "invalid header name: "@ + name,
            )
            &&& valid_name(name) && !valid_value(value) ==> with_header(fs, h) == Built::Err(
                "invalid header value for "@ + name,
            )
            &&& valid_name(name) && valid_value(value) ==> with_header(fs, h) == Built::Ok(
                appended(fs, ascii_lower(name), encode_utf8(value)),
            )
        }),
{
    law_parting(a, ':', b);
}

/// Each custom header is added to what those before it made; the first that is
/// refused is what is complained of.
pub proof fn law_custom_headers_in_order(fs: Seq<Field>, hs: Seq<Seq<char>>, h: Seq<char>)
    ensures
        with_headers(fs, Seq::<Seq<char>>::empty()) == Built::Ok(fs),
        with_headers(fs, hs) is Err ==> with_headers(fs, hs.push(h)) == with_headers(fs, hs),
        with_headers(fs, hs) is Ok ==> with_headers(fs, hs.push(h)) == with_header(
            with_headers(fs, hs)->Ok_0,
            h,
        ),
    decreases hs.len(),
{
    let all = hs.push(h);
    if hs.len() == 0 {
        reveal_with_fuel(with_headers, 2);
        assert(all.skip(1) =~= Seq::empty());
        assert(all[0] == h);
        assert(with_headers(fs, hs) == Built::Ok(fs));
    } else {
        assert(all[0] == hs[0]);
        assert(all.skip(1) =~= hs.skip(1).push(h));
        match with_header(fs, hs[0]) {
            Ok(f) => {
                law_custom_headers_in_order(f, hs.skip(1), h);
            },
            Err(_) => {},
        }
    }
}

/// A cookie string is trimmed, and loses a `Cookie:` that it begins with, in
/// whatever case; the strings are joined by a semicolon and a blank.
pub proof fn law_cookie_strings(s: Seq<char>, cookies: Seq<Seq<char>>)
    ensures
        ({
            let t = trimmed(s);
            let prefixed = t.len() >= 7 && same_ignoring_case(t.take(7), "cookie:"@);
            &&& prefixed ==> cookie_pairs(s) == trimmed(t.skip(7))
            &&& !prefixed ==> cookie_pairs(s) == t
            &&& cookie_value(seq![s]) == cookie_pairs(s)
            &&& cookies.len() > 0 ==> cookie_value(cookies.push(s)) == cookie_value(cookies)
                + "; "@ + cookie_pairs(s)
        }),
{
    let one = Seq::new(1, |i: int| cookie_pairs(seq![s][i]));
    assert(one =~= seq![cookie_pairs(s)]);
    let had = Seq::new(cookies.len(), |i: int| cookie_pairs(cookies[i]));
    let all = Seq::new(cookies.push(s).len(), |i: int| cookie_pairs(cookies.push(s)[i]));
    assert(all =~= had.push(cookie_pairs(s)));
    law_joining(had, cookie_pairs(s), "; "@);
    assert(cookie_value(seq![s]) == joined(one, "; "@));
}

/// A token is sent as `Bearer`, and credentials as `Basic` in base64; the User-
/// Agent is the one that was asked for, or else that of this program.
pub proof fn law_credentials_are_written(token: Seq<char>, creds: Seq<char>, ua: Seq<char>)
    ensures
        bearer_value(token) == "Bearer "@ + token,
        basic_value(creds) == "Basic "@ + base64(encode_utf8(creds)),
        user_agent_or_default(Some(ua)) == ua,
        user_agent_or_default(None) == "vantage/0.9 (+https://github.com/husenet/vantage)"@,
{
}

/// The headers are refused exactly when the User-Agent, a custom header, the
/// cookies, or the credentials that would be sent cannot be carried by a header,
/// and the first of these is what is complained of.
pub proof fn law_bad_input_is_refused(
    ua: Seq<char>,
    headers: Seq<Seq<char>>,
    cookies: Seq<Seq<char>>,
    bearer: Option<Seq<char>>,
    basic: Option<Seq<char>>,
)
    ensures
        ({
            let built = request_headers(ua, headers, cookies, bearer, basic);
            let custom = with_headers(seq![("user-agent"@, encode_utf8(ua))], headers);
            let named = valid_value(ua) && custom is Ok;
            let crumbs = cookies.len() > 0 && !valid_value(cookie_value(cookies));
            let token = bearer is Some && !valid_value("Bearer "@ + bearer->0);
            let pass = bearer is None && basic is Some && !valid_value(
                "Basic "@ + base64(encode_utf8(basic->0)),
            );
            &&& !valid_value(ua) ==> built == Built::Err("invalid --user-agent value: "@ + ua)
            &&& valid_value(ua) && custom is Err ==> built == custom
            &&& named && crumbs ==> built == Built::Err("invalid --cookie value"@)
            &&& named && !crumbs && token ==> built == Built::Err("invalid --bearer token"@)
            &&& named && !crumbs && pass ==> built == Built::Err("invalid --basic value"@)
            &&& named && !crumbs && !token && !pass ==> built is Ok
        }),
{
}

/// The User-Agent is sent first under its name, with what custom headers say
/// behind it; every other name but those of the cookies and the credentials has
/// what the custom headers gave it.
pub proof fn law_other_headers_are_kept(
    ua: Seq<char>,
    headers: Seq<Seq<char>>,
    cookies: Seq<Seq<char>>,
    bearer: Option<Seq<char>>,
    basic: Option<Seq<char>>,
    name: Seq<char>,
)
    requires
        name != "cookie"@,
        name != "authorization"@,
    ensures
        match request_headers(ua, headers, cookies, bearer, basic) {
            Ok(fs) => values(fs, name) == (if name == "user-agent"@ {
                seq![encode_utf8(ua)]
            } else {
                Seq::empty()
            }) + given_values(headers, name),
            Err(_) => true,
        },
{
    lemma_known_names();
    let start = seq![("user-agent"@, encode_utf8(ua))];
    assert(start.drop_last() =~= Seq::empty());
    assert(values(start.drop_last(), name) =~= Seq::empty());
    assert(values(start, name) =~= (if name == "user-agent"@ {
        seq![encode_utf8(ua)]
    } else {
        Seq::empty()
    }));
    match with_headers(start, headers) {
        Ok(a) => {
            law_custom_headers_stack(start, headers, name);
            law_insert_replaces(a, "cookie"@, encode_utf8(cookie_value(cookies)), name);
            match with_cookies(a, cookies) {
                Ok(b) => {
                    if bearer is Some {
                        law_insert_replaces(
                            b,
                            "authorization"@,
                            encode_utf8(bearer_value(bearer->0)),
                            name,
                        );
                    } else if basic is Some {
                        law_insert_replaces(
                            b,
                            "authorization"@,
                            encode_utf8(basic_value(basic->0)),
                            name,
                        );
                    }
                },
                Err(_) => {},
            }
        },
        Err(_) => {},
    }
}

} // verus!
