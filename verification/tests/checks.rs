use reqwest::header::{HeaderMap, HeaderValue};
use vantage::checks::auth::{anonymous, auth_effect, no_auth};
use vantage::checks::caching::caching;
use vantage::checks::cookies::{cookies, is_session_cookie};
use vantage::checks::cors::{cors, PROBE_ORIGIN};
use vantage::checks::csp::csp;
use vantage::checks::disclosure::{disclosure, disclosure_on};
use vantage::checks::dns::{dnsrecon, next_lookup};
use vantage::checks::headers::{csp_has_frame_ancestors, header_ineffective, headers};
use vantage::checks::hsts::{hsts, hsts_on, parse_hsts, Hsts};
use vantage::checks::methods::{methods, methods_to_probe};
use vantage::checks::nmap::{nmap, nmap_args};
use vantage::request::{HttpConfig, USER_AGENT};
use vantage::response::{Fetched, Probe};
use vantage::section::Section;
use vantage::style::Style;
use vantage::tool::ToolRun;

const ST: Style = Style { color: false };

fn page(fields: &[(&'static str, &'static str)]) -> Fetched {
    let mut m = HeaderMap::new();
    for (k, v) in fields {
        m.append(*k, HeaderValue::from_static(v));
    }
    Fetched {
        status: 200,
        url: "https://app.example.com/".to_string(),
        headers: m,
        is_https: true,
        redirected: false,
        body_len: 1000,
        version: "HTTP/2".to_string(),
    }
}

fn over_http(fields: &[(&'static str, &'static str)]) -> Fetched {
    Fetched { is_https: false, url: "http://app.example.com/".to_string(), ..page(fields) }
}

fn owned(v: &[&str]) -> Vec<String> {
    v.iter().map(|s| s.to_string()).collect()
}

// ---------------------------------------------------------------------------
// HSTS
// ---------------------------------------------------------------------------

#[test]
fn hsts_is_parsed() {
    assert_eq!(
        parse_hsts("max-age=31536000; includeSubDomains; preload"),
        Hsts {
            max_age: Some(31536000),
            include_subdomains: true,
            preload: true,
            repeated_max_age: false
        }
    );
    assert_eq!(
        parse_hsts(" MAX-AGE= \"5\" ;max-age=x"),
        Hsts {
            max_age: None,
            include_subdomains: false,
            preload: false,
            repeated_max_age: true
        }
    );
    assert_eq!(parse_hsts("max-age=\"300\"").max_age, Some(300));
    assert_eq!(parse_hsts("").max_age, None);
    assert_eq!(parse_hsts(" max-age=7 "), parse_hsts("max-age=7"));
}

fn hsts_lines(v: &'static str) -> Vec<String> {
    hsts(&page(&[("strict-transport-security", v)]), ST).lines
}

#[test]
fn hsts_is_graded() {
    assert_eq!(
        hsts_lines("max-age=31536000; includeSubDomains; preload"),
        vec![
            "  max-age=31536000; includeSubDomains; preload",
            "  + max-age=31536000 (~365d)",
            "  + includeSubDomains set",
            "  + preload set",
        ]
    );
    assert_eq!(
        hsts_lines("max-age=86400; preload")[1..],
        [
            "  - max-age too short: 86400 (~1d)",
            "  - includeSubDomains not set",
            "  - preload ineffective (max-age under 1y, no includeSubDomains)",
        ]
    );
    assert_eq!(hsts_lines("max-age=-90000")[1], "  - max-age too short: -90000 (~-1d)");
    assert_eq!(hsts_lines("max-age=15768000").len(), 3);
}

#[test]
fn case_makes_no_difference_to_a_header() {
    let f = page(&[]);
    for (name, value) in [
        ("x-content-type-options", "nosniff"),
        ("x-content-type-options", "nosniff\u{e9}"),
        ("x-frame-options", " \u{a0}deny"),
        ("referrer-policy", "no-referrer, \u{3a3}x\u{3a3}"),
        ("strict-transport-security", "\u{130}=a; max-age=31536000"),
        ("strict-transport-security", "max-age=0; a\u{3a3}"),
        ("content-security-policy", "default-src 'self'"),
    ] {
        let upper = value.to_ascii_uppercase();
        let given = header_ineffective(name, value, &f).is_some();
        assert_eq!(header_ineffective(name, &upper, &f).is_some(), given, "{name} {value}");
    }
    assert_eq!(parse_hsts("MAX-AGE=9; \u{130}; PRELOAD").max_age, Some(9));
    assert!(parse_hsts("MAX-AGE=9; \u{130}; PRELOAD").preload);
}

#[test]
fn a_discarded_hsts_policy_is_not_graded() {
    assert_eq!(hsts_lines("max-age=0; preload")[1..], ["  - ineffective (max-age=0 deletes the policy)"]);
    assert_eq!(hsts_lines("preload")[1..], ["  - ineffective (no valid max-age)"]);
    assert_eq!(hsts_lines("max-age=1;max-age=2")[1..], ["  - ineffective (repeated max-age)"]);
    let f = page(&[("strict-transport-security", "max-age=31536000")]);
    assert_eq!(hsts_on(&f, true, ST).lines[1..], ["  - ineffective (host is an IP address)"]);
    for url in ["https://192.0.2.1/", "https://[2001:db8::1]:8443/x", "::1", "[192.0.2.1]"] {
        let f = Fetched { url: url.to_string(), ..page(&[("strict-transport-security", "max-age=1")]) };
        assert_eq!(hsts(&f, ST).lines[1..], ["  - ineffective (host is an IP address)"]);
    }
    let f = over_http(&[("strict-transport-security", "max-age=31536000")]);
    assert_eq!(hsts_on(&f, true, ST).lines[1..], ["  - ineffective (served over http)"]);
    let sec = hsts(&page(&[]), ST);
    assert_eq!(sec.title, "HSTS (Strict-Transport-Security)");
    assert_eq!(sec.lines, vec!["  - no Strict-Transport-Security header"]);
}

// ---------------------------------------------------------------------------
// Headers
// ---------------------------------------------------------------------------

fn why(name: &str, value: &str) -> Option<String> {
    header_ineffective(name, value, &page(&[]))
}

#[test]
fn security_headers_are_judged_by_value() {
    assert_eq!(why("x-frame-options", "  ").as_deref(), Some("empty value"));
    assert_eq!(why("x-frame-options", "DENY"), None);
    assert_eq!(why("x-frame-options", " SameOrigin "), None);
    assert_eq!(
        why("x-frame-options", "ALLOW-FROM x").as_deref(),
        Some("ALLOW-FROM x is not honored")
    );
    assert_eq!(why("x-content-type-options", "NoSniff"), None);
    assert_eq!(why("x-content-type-options", "no").as_deref(), Some("no is not nosniff"));
    assert_eq!(why("referrer-policy", "no-referrer"), None);
    assert_eq!(
        why("referrer-policy", "origin, Unsafe-URL").as_deref(),
        Some("unsafe-url sends the full URL")
    );
    assert_eq!(
        why("cross-origin-embedder-policy", "unsafe-none; report-to=\"x\"").as_deref(),
        Some("unsafe-none is the default")
    );
    assert_eq!(why("cross-origin-opener-policy", "same-origin"), None);
    assert_eq!(
        why("cross-origin-resource-policy", "Cross-Origin").as_deref(),
        Some("cross-origin allows any site")
    );
    assert_eq!(why("cross-origin-resource-policy", "same-site"), None);
    assert_eq!(
        why("permissions-policy", "geolocation=*, camera=\"*\", ").as_deref(),
        Some("every feature allowlisted to *")
    );
    assert_eq!(why("permissions-policy", "geolocation=*, camera=()"), None);
    assert_eq!(why("permissions-policy", ","), None);
    assert_eq!(why("content-security-policy", "anything"), None);
    assert_eq!(why("permissions-policy", " GEOLOCATION=* "), why("permissions-policy", "geolocation=*"));
    assert_eq!(why("referrer-policy", "UNSAFE-URL"), why("referrer-policy", "\tunsafe-url "));
    assert_eq!(why("anything", " \t").as_deref(), Some("empty value"));
}

#[test]
fn the_matrix_judges_hsts_as_its_check_does() {
    assert_eq!(why("strict-transport-security", "max-age=5"), None);
    assert_eq!(why("strict-transport-security", "max-age=0").as_deref(), Some("max-age=0"));
    assert_eq!(why("strict-transport-security", "x").as_deref(), Some("no valid max-age"));
    assert_eq!(
        why("strict-transport-security", "max-age=1; max-age=1").as_deref(),
        Some("repeated max-age")
    );
    assert_eq!(
        header_ineffective("strict-transport-security", "max-age=5", &over_http(&[])).as_deref(),
        Some("served over http")
    );
}

#[test]
fn frame_ancestors_override_frame_options() {
    let f = page(&[("content-security-policy", "default-src 'self';  frame-ancestors 'none'")]);
    assert!(csp_has_frame_ancestors(&f));
    assert_eq!(
        header_ineffective("x-frame-options", "DENY", &f).as_deref(),
        Some("overridden by CSP frame-ancestors")
    );
    assert!(!csp_has_frame_ancestors(&page(&[("content-security-policy", "x frame-ancestors")])));
    assert!(!csp_has_frame_ancestors(&page(&[])));
}

#[test]
fn headers_are_dumped_in_order_and_the_matrix_follows() {
    let long: &'static str = "0123456789012345678901234567890123456789012345678901234567890123456789012345678901234567890123456789x";
    let f = page(&[
        ("server", long),
        ("set-cookie", long),
        ("content-type", "text/html"),
        ("x-frame-options", "DENY"),
        ("referrer-policy", "unsafe-url"),
    ]);
    let sec = headers(&f, ST);
    assert_eq!(sec.title, "HTTP headers");
    let cut = format!("  server: {}...", &long[..100]);
    let full = format!("  set-cookie: {long}");
    assert_eq!(
        sec.lines,
        vec![
            "  5 response headers",
            "  content-type: text/html",
            "  referrer-policy: unsafe-url",
            cut.as_str(),
            full.as_str(),
            "  x-frame-options: DENY",
            "",
            "  security headers",
            "  - strict-transport-security",
            "  - content-security-policy",
            "  + x-frame-options",
            "  - x-content-type-options",
            "  - referrer-policy ineffective (unsafe-url sends the full URL)",
            "  - permissions-policy",
            "  - cross-origin-opener-policy",
            "  - cross-origin-embedder-policy",
            "  - cross-origin-resource-policy",
        ]
    );
}

#[test]
fn a_header_that_is_not_text_shows_as_empty() {
    let mut f = page(&[]);
    f.headers.append("odd", HeaderValue::from_bytes(b"\xff").unwrap());
    assert_eq!(headers(&f, ST).lines[1], "  odd: ");
    let st = Style { color: true };
    assert_eq!(headers(&f, st).lines[1], "  \x1b[35modd\x1b[0m: \x1b[2m\x1b[0m");
}

// ---------------------------------------------------------------------------
// Cookies
// ---------------------------------------------------------------------------

fn verdict_on(line: &'static str) -> String {
    cookies(&page(&[("set-cookie", line)]), &Vec::new(), ST).lines[1].clone()
}

#[test]
fn cookie_flags_are_graded() {
    assert_eq!(
        verdict_on("a=1; Secure; HttpOnly; SameSite=Lax"),
        "  + a - Secure, HttpOnly, SameSite=Lax set"
    );
    assert_eq!(verdict_on("a=1"), "  - a - missing Secure, HttpOnly, SameSite");
    assert_eq!(verdict_on("a=1; secure; samesite = Strict"), "  - a - missing HttpOnly");
    assert_eq!(
        verdict_on("a=1; SameSite=None; HttpOnly"),
        "  - a - ineffective (SameSite=None without Secure, cookie not stored)"
    );
    assert_eq!(
        verdict_on("a=1; SameSite=None; HttpOnly; Secure"),
        "  + a - Secure, HttpOnly, SameSite=None set"
    );
    assert_eq!(
        verdict_on("MySession=1; SameSite=None; HttpOnly; Secure"),
        "  - MySession - SameSite=None on a session cookie (sent on cross-site requests)"
    );
    let f = over_http(&[("set-cookie", "a=1; Secure; HttpOnly; SameSite=Lax")]);
    assert_eq!(
        cookies(&f, &Vec::new(), ST).lines[1],
        "  - a - Secure ineffective (response served over http)"
    );
}

#[test]
fn a_value_or_domain_is_no_flag() {
    assert_eq!(
        verdict_on("a=secure; Domain=secure.example.com; HttpOnly; SameSite=Lax"),
        "  - a - missing Secure"
    );
}

#[test]
fn a_companion_covers_same_site() {
    let f = page(&[
        ("set-cookie", "ARRAffinity=x; Secure; HttpOnly"),
        ("set-cookie", "ARRAffinitySameSite=x; Secure; HttpOnly; SameSite=None"),
    ]);
    assert_eq!(
        cookies(&f, &Vec::new(), ST).lines,
        vec![
            "  ARRAffinity=x; Secure; HttpOnly",
            "  + ARRAffinity - Secure, HttpOnly, SameSite via companion cookie set",
            "  ARRAffinitySameSite=x; Secure; HttpOnly; SameSite=None",
            "  + ARRAffinitySameSite - Secure, HttpOnly, SameSite=None set",
        ]
    );
}

#[test]
fn auth_cookies_are_singled_out() {
    let f = page(&[("set-cookie", "SID=1; Secure; HttpOnly; SameSite=Lax")]);
    let sec = cookies(&f, &owned(&["sid", "other"]), ST);
    assert_eq!(sec.title, "Cookies");
    assert_eq!(
        sec.lines,
        vec![
            "  SID=1; Secure; HttpOnly; SameSite=Lax",
            "  + SID (auth cookie) - Secure, HttpOnly, SameSite=Lax set",
            "    other (auth cookie) not re-issued; flags not visible on this response",
        ]
    );
    let f = page(&[("set-cookie", "x=1; Secure; HttpOnly; SameSite=none")]);
    assert_eq!(
        cookies(&f, &owned(&["X"]), ST).lines[1],
        "  - x (auth cookie) - SameSite=None on a session cookie (sent on cross-site requests)"
    );
}

#[test]
fn no_cookies_are_noted() {
    assert_eq!(cookies(&page(&[]), &Vec::new(), ST).lines, vec!["    no Set-Cookie headers"]);
    assert_eq!(
        cookies(&page(&[]), &owned(&["a"]), ST).lines,
        vec!["    a (auth cookie) not re-issued; flags not visible on this response"]
    );
}

#[test]
fn session_cookies_are_known_by_name() {
    assert!(is_session_cookie("PHPSESSID"));
    assert!(is_session_cookie(".AspNetCore.Cookies"));
    assert!(is_session_cookie("X-CSRF"));
    assert!(!is_session_cookie("theme"));
    assert!(!is_session_cookie("\u{130}"));
    assert!(is_session_cookie("\u{c9}-TO\u{212a}EN"));
}

// ---------------------------------------------------------------------------
// CORS
// ---------------------------------------------------------------------------

fn cors_lines(first: &[(&'static str, &'static str)], second: Option<&[(&'static str, &'static str)]>) -> Vec<String> {
    let f = page(first);
    let p = second.map(page);
    cors(&f, p.as_ref(), ST).lines
}

const ACAO: &str = "access-control-allow-origin";
const ACAC: &str = "access-control-allow-credentials";

#[test]
fn cors_origins_are_judged() {
    assert_eq!(cors_lines(&[], Some(&[])), vec!["    no Access-Control-Allow-Origin header"]);
    assert_eq!(cors_lines(&[], None), vec!["    no Access-Control-Allow-Origin header"]);
    assert_eq!(
        cors_lines(&[(ACAO, "https://a.example")], None),
        vec!["  access-control-allow-origin: https://a.example", "  + origin is restricted"]
    );
    assert_eq!(cors_lines(&[(ACAO, " * ")], None)[1], "  - wildcard origin (*)");
    assert_eq!(
        cors_lines(&[(ACAO, "*")], Some(&[(ACAC, " TRUE ")]))[1],
        "  - wildcard origin (*) with credentials"
    );
    assert_eq!(
        cors_lines(&[(ACAO, "Null")], None)[1],
        "  - origin null ineffective (any sandboxed iframe or data: document sends it)"
    );
    assert_eq!(
        cors_lines(&[(ACAO, "HTTP://a.example")], None)[1],
        "  - allows an http origin (HTTP://a.example)"
    );
    let f = over_http(&[(ACAO, "http://a.example")]);
    assert_eq!(cors(&f, None, ST).lines[1], "  + origin is restricted");
}

#[test]
fn reflected_origins_are_caught() {
    assert_eq!(PROBE_ORIGIN, "https://vantage-cors-probe.example");
    assert_eq!(
        cors_lines(&[], Some(&[(ACAO, "https://vantage-cors-probe.example")])),
        vec![
            "  access-control-allow-origin: https://vantage-cors-probe.example",
            "  - reflects any origin",
        ]
    );
    assert_eq!(
        cors_lines(
            &[(ACAO, "https://a.example"), (ACAC, "true")],
            Some(&[(ACAO, "https://vantage-cors-probe.example")])
        )[1],
        "  - reflects any origin with credentials"
    );
}

// ---------------------------------------------------------------------------
// Disclosure
// ---------------------------------------------------------------------------

#[test]
fn disclosure_names_headers_backends_and_stacks() {
    let f = page(&[
        ("via", "1.1 x"),
        ("server", "cloudflare"),
        ("set-cookie", "PHPSESSID=1; Domain=.origin.azurewebsites.net"),
        ("set-cookie", "ASP.NET_SessionId=1; domain=ORIGIN.azurewebsites.net"),
        ("set-cookie", "x.mvc.y=1; Domain=example.com"),
        ("set-cookie", "phpsessid2=1; Domain=app.example.com"),
    ]);
    let sec = disclosure(&f, ST);
    assert_eq!(sec.title, "Information disclosure");
    assert_eq!(
        sec.lines,
        vec![
            "  server: cloudflare",
            "  via: 1.1 x",
            "  - backend host in cookie Domain: origin.azurewebsites.net",
            "  - cookie names reveal ASP.NET, ASP.NET Core MVC, PHP",
        ]
    );
    assert_eq!(
        disclosure_on(&f, "other.example", ST).lines[2..5],
        [
            "  - backend host in cookie Domain: origin.azurewebsites.net",
            "  - backend host in cookie Domain: example.com",
            "  - backend host in cookie Domain: app.example.com",
        ]
    );
}

#[test]
fn nothing_disclosed_is_good() {
    assert_eq!(
        disclosure(&page(&[("date", "x")]), ST).lines,
        vec!["  + no server/framework headers disclosed"]
    );
}

// ---------------------------------------------------------------------------
// CSP
// ---------------------------------------------------------------------------

#[test]
fn csp_is_parsed_and_flagged() {
    let f = page(&[(
        "content-security-policy",
        "Script-Src 'self' 'unsafe-inline'  'unsafe-eval' ; img-src * http:;; frame-ancestors *; report-uri *",
    )]);
    let sec = csp(&f, ST);
    assert_eq!(sec.title, "Content-Security-Policy");
    assert_eq!(
        sec.lines,
        vec![
            "  script-src 'self' 'unsafe-inline' 'unsafe-eval'",
            "  img-src * http:",
            "  frame-ancestors *",
            "  report-uri *",
            "  - no default-src fallback",
            "  - script-src allows 'unsafe-inline'",
            "  - script-src allows 'unsafe-eval'",
            "  - img-src allows wildcard *",
            "  - img-src allows http: sources",
            "  - frame-ancestors allows wildcard *",
        ]
    );
    assert_eq!(
        csp(&page(&[("content-security-policy", "default-src 'self'")]), ST).lines,
        vec!["  default-src 'self'"]
    );
}

#[test]
fn a_missing_csp_is_flagged() {
    assert_eq!(csp(&page(&[]), ST).lines, vec!["  - no Content-Security-Policy header"]);
    assert_eq!(
        csp(&page(&[("content-security-policy-report-only", "x")]), ST).lines,
        vec!["  - only Content-Security-Policy-Report-Only set"]
    );
    assert_eq!(
        csp(&page(&[("content-security-policy", " ; ")]), ST).lines,
        vec!["  - no default-src fallback"]
    );
}

// ---------------------------------------------------------------------------
// Caching
// ---------------------------------------------------------------------------

#[test]
fn caching_is_judged_only_with_credentials() {
    let f = page(&[("cache-control", "public, max-age=60"), ("age", "12"), ("vary", "Cookie")]);
    let shown = ["  cache-control: public, max-age=60", "  age: 12", "  vary: Cookie"];
    assert_eq!(caching(&f, false, ST).lines, shown);
    let sec = caching(&f, true, ST);
    assert_eq!(sec.title, "Caching");
    assert_eq!(
        sec.lines[3..],
        [
            "  - authenticated response marked Cache-Control: public",
            "  - served from a shared cache (age 12)",
        ]
    );
    let last = |v: &'static str| caching(&page(&[("cache-control", v)]), true, ST).lines[1].clone();
    assert_eq!(last("No-Store"), "  + no-store set");
    assert_eq!(last("private"), "  + private set, not stored by shared caches");
    assert_eq!(last("max-age=1"), "  - authenticated response is cacheable (no no-store / private)");
    assert_eq!(
        caching(&page(&[("age", "0")]), true, ST).lines,
        vec!["  age: 0", "  - no Cache-Control on an authenticated response"]
    );
}

// ---------------------------------------------------------------------------
// Auth
// ---------------------------------------------------------------------------

fn sized(status: u16, body_len: usize) -> Fetched {
    Fetched { status, body_len, ..page(&[]) }
}

#[test]
fn auth_effect_compares_two_responses() {
    let sec = auth_effect(&sized(200, 5000), &Ok(sized(302, 0)), ST);
    assert_eq!(sec.title, "Auth effectiveness");
    assert_eq!(
        sec.lines,
        vec![
            "  authenticated: HTTP 200 (5000 bytes)",
            "  unauthenticated: HTTP 302 (0 bytes)",
            "  + auth enforced: unauthenticated request returns 302, authenticated returns 200",
        ]
    );
    let last = |a: Fetched, b: Fetched| auth_effect(&a, &Ok(b), ST).lines[2].clone();
    let same = "  - same response with and without credentials";
    let open = "    inconclusive: authenticated and unauthenticated responses differ";
    assert_eq!(last(sized(200, 10), sized(200, 74)), same);
    assert_eq!(last(sized(200, 10), sized(200, 75)), open);
    assert_eq!(last(sized(200, 2000), sized(200, 1900)), same);
    assert_eq!(last(sized(200, 2000), sized(200, 1899)), open);
    assert_eq!(last(sized(200, 10), sized(404, 10)), open);
    assert_eq!(last(sized(500, 10), sized(403, 10)), open);
    assert_eq!(last(sized(0, usize::MAX), sized(0, 0)), open);
}

#[test]
fn a_missing_baseline_is_noted() {
    assert_eq!(
        auth_effect(&sized(200, 1), &Err("timed out".to_string()), ST).lines,
        vec!["    could not fetch unauthenticated baseline: timed out"]
    );
    assert_eq!(
        no_auth(ST).lines,
        vec!["    no credentials supplied; nothing to compare (see --cookie/--bearer/--header)"]
    );
}

#[test]
fn the_baseline_carries_no_credentials() {
    let mut m = HeaderMap::new();
    m.append("cookie", HeaderValue::from_static("a=1"));
    m.append("user-agent", HeaderValue::from_static("other"));
    let cfg = HttpConfig { timeout_nanos: 9, insecure: true, headers: m, http1_only: true };
    let bare = anonymous(&cfg);
    assert_eq!(bare.headers.len(), 1);
    assert_eq!(bare.headers["user-agent"], USER_AGENT);
    assert_eq!((bare.timeout_nanos, bare.insecure, bare.http1_only), (9, true, true));
}

// ---------------------------------------------------------------------------
// Methods
// ---------------------------------------------------------------------------

fn answer(status: u16, body_hash: u64) -> Probe {
    Probe { status, location: None, allow: None, protocol: None, body_hash, body_len: 3 }
}

#[test]
fn methods_report_the_status_only() {
    assert_eq!(methods_to_probe(false), vec!["GET", "HEAD", "OPTIONS", "TRACE"]);
    let mut ps = vec![answer(307, 1), answer(200, 1), answer(405, 1), answer(0, 1)];
    ps[0].location = Some("/auth/login".to_string());
    ps[1].location = Some("/not-shown".to_string());
    ps[2].allow = Some("GET, HEAD".to_string());
    ps[1].allow = Some("GET, HEAD".to_string());
    ps[2].protocol = Some(("WebDAV".to_string(), "dav: 1".to_string()));
    let sec = methods(false, &ps, ST);
    assert_eq!(sec.title, "HTTP methods");
    assert_eq!(
        sec.lines,
        vec![
            "  307 GET -> /auth/login",
            "  200 HEAD",
            "  405 OPTIONS",
            "    0 TRACE",
            "  allow: GET, HEAD",
            "  protocol: WebDAV (dav: 1)",
            "    POST/PUT/DELETE/PATCH not probed; pass --active to include them",
        ]
    );
}

#[test]
fn writes_with_the_body_of_get_are_annotated() {
    assert_eq!(
        methods_to_probe(true),
        vec!["GET", "HEAD", "OPTIONS", "TRACE", "POST", "PUT", "DELETE", "PATCH"]
    );
    let mut ps: Vec<Probe> = (0..8).map(|_| answer(200, 1)).collect();
    ps[5] = answer(200, 2);
    ps[6] = answer(0, 1);
    ps[7].body_len = 4;
    assert_eq!(
        methods(true, &ps, ST).lines,
        vec![
            "  200 GET",
            "  200 HEAD",
            "  200 OPTIONS",
            "  200 TRACE",
            "  200 POST (same body as GET)",
            "  200 PUT",
            "    0 DELETE",
            "  200 PATCH",
        ]
    );
}

// ---------------------------------------------------------------------------
// DNS
// ---------------------------------------------------------------------------

fn done(success: bool, out: &str, err: &str) -> ToolRun {
    ToolRun::Done {
        success,
        code: Some(if success { 0 } else { 1 }),
        stdout: out.as_bytes().to_vec(),
        stderr: err.as_bytes().to_vec(),
    }
}

fn lines_of(sec: Section) -> Vec<String> {
    sec.lines
}

#[test]
fn lookups_go_through_the_record_types() {
    let mut runs = Vec::new();
    let mut asked = Vec::new();
    while let Some(args) = next_lookup("h.example", &runs) {
        assert_eq!(args[1], "h.example");
        asked.push(args[0].clone());
        runs.push(done(true, "", ""));
    }
    assert_eq!(
        asked,
        vec![
            "-type=A", "-type=AAAA", "-type=NS", "-type=MX", "-type=TXT", "-type=SOA",
            "-type=CNAME"
        ]
    );
    assert!(next_lookup("h", &vec![ToolRun::NotFound]).is_none());
    assert!(next_lookup("h", &vec![ToolRun::Failed("x".to_string())]).is_some());
}

#[test]
fn records_are_read_without_the_resolver_banner() {
    let a = "Server:\t\t127.0.0.53\nAddress:\t127.0.0.53#53\n\nName:\th.example\nAddress: 93.184.216.34\n";
    let win = "Server:  dns\r\nAddress:  10.0.0.1\r\n\r\nAddresses:  1.2.3.4\r\n";
    let ns = "h.example\tnameserver = a.iana.\n";
    let sec = dnsrecon("h.example", &vec![done(true, a, ""), done(true, win, ""), done(false, ns, "e")], ST);
    assert_eq!(sec.title, "DNS records (h.example)");
    assert_eq!(
        sec.lines,
        vec![
            "  A     Address: 93.184.216.34",
            "  AAAA  Addresses:  1.2.3.4",
            "  NS    h.example\tnameserver = a.iana.",
        ]
    );
}

#[test]
fn missing_records_are_explained() {
    assert_eq!(
        lines_of(dnsrecon("h", &vec![ToolRun::NotFound], ST)),
        vec!["    nslookup not found on PATH (e.g. sudo apt install dnsutils)"]
    );
    assert_eq!(lines_of(dnsrecon("h", &vec![done(true, "nothing", "x")], ST)), vec!["  - no records resolved"]);
    assert_eq!(
        lines_of(dnsrecon("h", &vec![done(false, "", "\n  first \nsecond"), done(false, "", " \n")], ST)),
        vec!["  - no records resolved", "    first"]
    );
    assert_eq!(
        lines_of(dnsrecon("h", &vec![ToolRun::Failed("boom".to_string())], ST)),
        vec!["  - no records resolved", "    boom"]
    );
    let kept = vec![done(true, "has address 1.2.3.4", ""), ToolRun::NotFound];
    assert_eq!(
        lines_of(dnsrecon("h", &kept, ST)),
        vec![
            "  A     has address 1.2.3.4",
            "    nslookup not found on PATH (e.g. sudo apt install dnsutils)",
        ]
    );
}

#[test]
fn output_that_is_not_utf8_is_read_lossily() {
    let run = ToolRun::Done {
        success: true,
        code: Some(0),
        stdout: b"text = \xff!".to_vec(),
        stderr: Vec::new(),
    };
    assert_eq!(lines_of(dnsrecon("h", &vec![run], ST)), vec!["  A     text = \u{fffd}!"]);
}

// ---------------------------------------------------------------------------
// nmap
// ---------------------------------------------------------------------------

#[test]
fn nmap_arguments_follow_the_options() {
    assert_eq!(nmap_args("h", false, None), vec!["-Pn", "-sV", "h"]);
    assert_eq!(
        nmap_args("h", true, Some("-")),
        vec!["-Pn", "-sV", "-p", "-", "--script", "vulners", "h"]
    );
}

#[test]
fn nmap_results_are_filtered() {
    let out = "Starting Nmap\n\nPORT   STATE SERVICE\n80/tcp open  http  \n| vulners:\n|  CVE-2020-1  7.5\nService Info: OS\ndone\n";
    let sec = nmap("h", true, Some("80"), &done(true, out, ""), ST);
    assert_eq!(sec.title, "nmap --script vulners (h)");
    assert_eq!(
        sec.lines,
        vec![
            "  $ nmap -Pn -sV -p 80 --script vulners h",
            "  PORT   STATE SERVICE",
            "  80/tcp open  http",
            "  | vulners:",
            "  |  CVE-2020-1  7.5",
            "  Service Info: OS",
            "  - 1 CVE line(s) reported by vulners",
        ]
    );
    let sec = nmap("h", false, None, &done(true, "80/tcp open", ""), ST);
    assert_eq!(sec.title, "nmap service scan (h)");
    assert_eq!(sec.lines, vec!["  $ nmap -Pn -sV h", "  80/tcp open"]);
    assert_eq!(
        nmap("h", true, None, &done(true, "80/tcp open", ""), ST).lines[2],
        "  + no CVEs reported for the detected service versions"
    );
}

#[test]
fn nmap_failures_are_visible() {
    let rest = |r: ToolRun| nmap("h", true, None, &r, ST).lines[1..].to_vec();
    assert_eq!(
        rest(ToolRun::NotFound),
        vec!["    nmap not installed / not on PATH (e.g. sudo apt install nmap)"]
    );
    assert_eq!(
        rest(ToolRun::Failed("denied".to_string())),
        vec!["    nmap failed to launch: denied"]
    );
    assert_eq!(
        rest(done(false, "80/tcp open", "a\n\nb\nc\nd\ne\nf")),
        vec![
            "  80/tcp open",
            "    nmap exited with status 1",
            "    a",
            "    b",
            "    c",
            "    d",
            "    e",
        ]
    );
    assert_eq!(
        rest(done(true, "nothing", "why\n")),
        vec!["  - nmap returned no scan results", "    why"]
    );
    let killed = ToolRun::Done {
        success: false,
        code: None,
        stdout: Vec::new(),
        stderr: Vec::new(),
    };
    assert_eq!(rest(killed), vec!["    nmap exited with status signal"]);
}
