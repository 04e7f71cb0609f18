use reqwest::header::{HeaderMap, HeaderName, HeaderValue};
use std::collections::hash_map::DefaultHasher;
use std::hash::{Hash, Hasher};
use vantage::base64::base64_encode;
use vantage::number::{read_integer, show, show_quotient, show_signed};
use vantage::rate::RateLimiter;
use vantage::request::{
    build_headers, strip_cookie_prefix, with_origin, HttpConfig, TOO_MANY, USER_AGENT,
};
use vantage::response::{
    fetch, fetched_from, probe, protocol_of, version_str, Fetched, Page, Reply, Version, PROTOCOLS,
};
use vantage::url::{
    host_is_ip, host_literal, host_of, host_or, is_ip, names_v4, names_v6, looks_like_pasted_value, normalize_url, was_redirected,
};

fn map_of(fields: &[(&'static str, &'static str)]) -> HeaderMap {
    let mut m = HeaderMap::new();
    for (k, v) in fields {
        m.append(*k, HeaderValue::from_static(v));
    }
    m
}

fn strings(v: &[&str]) -> Vec<String> {
    v.iter().map(|s| s.to_string()).collect()
}

#[test]
fn probe_reports_the_redirect_not_its_destination() {
    let reply = Reply {
        status: 307,
        headers: map_of(&[("location", "/auth/login"), ("content-length", "0")]),
        body: Vec::new(),
    };
    let p = probe(Some(reply));
    assert_eq!(p.status, 307, "must not follow the redirect");
    assert_eq!(p.location.as_deref(), Some("/auth/login"));
}

#[test]
fn probe_hashes_the_body_so_identical_responses_match() {
    let reply = || {
        Some(Reply {
            status: 200,
            headers: map_of(&[("content-length", "5")]),
            body: b"hello".to_vec(),
        })
    };
    let a = probe(reply());
    let b = probe(reply());
    assert_eq!(a.status, 200);
    assert_eq!(a.body_len, 5);
    assert_eq!(a.body_hash, b.body_hash, "same bytes must hash the same");
    let other = probe(Some(Reply { status: 200, headers: HeaderMap::new(), body: b"hellp".to_vec() }));
    assert_ne!(a.body_hash, other.body_hash);
    let mut h = DefaultHasher::new();
    b"hello"[..].hash(&mut h);
    assert_eq!(a.body_hash, h.finish());
}

#[test]
fn version_is_named_for_the_report() {
    assert_eq!(version_str(Version::Http11), "HTTP/1.1");
    assert_eq!(version_str(Version::Http2), "HTTP/2");
    assert_eq!(version_str(Version::Http09), "HTTP/0.9");
    assert_eq!(version_str(Version::Http10), "HTTP/1.0");
    assert_eq!(version_str(Version::Http3), "HTTP/3");
    assert_eq!(version_str(Version::Other), "HTTP");
}

#[test]
fn no_answer_is_status_zero() {
    let p = probe(None);
    assert_eq!(p.status, 0);
    assert_eq!(p.body_hash, 0);
    assert_eq!(p.body_len, 0);
    assert!(p.location.is_none() && p.allow.is_none() && p.protocol.is_none());
}

#[test]
fn probe_reads_allow_and_protocol() {
    let p = probe(Some(Reply {
        status: 405,
        headers: map_of(&[("allow", "  GET, HEAD "), ("dav", " 1,2 ")]),
        body: Vec::new(),
    }));
    assert_eq!(p.allow.as_deref(), Some("GET, HEAD"));
    assert_eq!(p.protocol, Some(("WebDAV".to_string(), "dav: 1,2".to_string())));
    let p = probe(Some(Reply {
        status: 405,
        headers: map_of(&[("allow", "   ")]),
        body: Vec::new(),
    }));
    assert_eq!(p.allow, None);
    assert_eq!(p.protocol, None);
}

#[test]
fn the_first_protocol_of_the_table_is_named() {
    assert_eq!(PROTOCOLS.len(), 25);
    let r = protocol_of(|h: &str| match h {
        "x-vault-token" | "grpc-status" => Some(format!(" v-{h} ")),
        _ => None,
    });
    assert_eq!(r, Some(("gRPC".to_string(), "grpc-status: v-grpc-status".to_string())));
    assert_eq!(protocol_of(|_: &str| None), None);
}

#[test]
fn fetched_page_knows_its_scheme_and_redirect() {
    let page = |url: &str, text: Option<&str>| Page {
        status: 200,
        url: url.to_string(),
        headers: HeaderMap::new(),
        version: Version::Http2,
        text: text.map(|t| t.to_string()),
    };
    let f = fetch("https://a.example", page("https://a.example/", Some("h\u{e9}")));
    assert!(f.is_https);
    assert!(!f.redirected, "a trailing slash is no redirect");
    assert_eq!(f.body_len, 3);
    assert_eq!(f.version, "HTTP/2");
    let f = fetch("https://a.example", page("http://b.example/", None));
    assert!(!f.is_https);
    assert!(f.redirected);
    assert_eq!(f.body_len, 0);
    let f = fetched_from("nonsense", None, page("nonsense", None));
    assert!(!f.redirected);
    assert!(was_redirected("a", Some("b".to_string()), "a"));
    assert!(!was_redirected("a", Some("b".to_string()), "b"));
}

fn fetched_with(fields: &[(&'static str, &'static str)]) -> Fetched {
    Fetched {
        status: 200,
        url: "https://a.example/".to_string(),
        headers: map_of(fields),
        is_https: true,
        redirected: false,
        body_len: 0,
        version: "HTTP/2".to_string(),
    }
}

#[test]
fn headers_are_read_without_regard_to_case() {
    let mut f = fetched_with(&[("set-cookie", "a=1"), ("server", "x"), ("set-cookie", "b=2")]);
    assert_eq!(f.get("Server").as_deref(), Some("x"));
    assert_eq!(f.get("set-cookie").as_deref(), Some("a=1"));
    assert_eq!(f.get_all("Set-Cookie"), vec!["a=1", "b=2"]);
    assert_eq!(f.get("absent"), None);
    assert_eq!(f.get(""), None);
    assert!(f.get_all("absent").is_empty());
    f.headers.append("odd", HeaderValue::from_bytes(b"\xff").unwrap());
    f.headers.append("odd", HeaderValue::from_static("plain"));
    assert_eq!(f.get("odd"), None, "a value that is not text");
    assert_eq!(f.get_all("odd"), vec!["plain"]);
    f.headers.append(HeaderName::from_static("a\"b"), HeaderValue::from_static("x"));
    assert_eq!(f.get("a\"b"), None, "a name that no header can be asked for by");
    assert!(f.get_all("a\"b").is_empty());
}

#[test]
fn default_headers_carry_the_user_agent() {
    let m = build_headers(None, &Vec::new(), &Vec::new(), None, None).unwrap();
    assert_eq!(m.len(), 1);
    assert_eq!(m["user-agent"], USER_AGENT);
    let m = build_headers(Some("me/1"), &Vec::new(), &Vec::new(), None, None).unwrap();
    assert_eq!(m["user-agent"], "me/1");
}

#[test]
fn custom_headers_stack() {
    let m = build_headers(
        None,
        &strings(&["X-A: 1 ", "x-a:2", "B : c:d"]),
        &Vec::new(),
        None,
        None,
    )
    .unwrap();
    let all: Vec<&HeaderValue> = m.get_all("x-a").iter().collect();
    assert_eq!(all, vec!["1", "2"]);
    assert_eq!(m["b"], "c:d");
}

#[test]
fn cookies_collapse_into_one_header() {
    let m = build_headers(
        None,
        &strings(&["Cookie: old=1"]),
        &strings(&["Cookie: a=1; b=2", " c=3 "]),
        None,
        None,
    )
    .unwrap();
    let all: Vec<&HeaderValue> = m.get_all("cookie").iter().collect();
    assert_eq!(all, vec!["a=1; b=2; c=3"]);
}

#[test]
fn bearer_wins_over_basic_and_both_over_a_header() {
    let h = strings(&["Authorization: mine"]);
    let none = Vec::new();
    let auth = |bearer: Option<&str>, basic: Option<&str>| {
        build_headers(None, &h, &none, bearer, basic)
            .unwrap()
            .get_all("authorization")
            .iter()
            .map(|v| v.to_str().unwrap().to_string())
            .collect::<Vec<_>>()
    };
    assert_eq!(auth(None, None), vec!["mine"]);
    assert_eq!(auth(Some("tok"), Some("u:p")), vec!["Bearer tok"]);
    assert_eq!(auth(None, Some("admin:s3cret")), vec!["Basic YWRtaW46czNjcmV0"]);
}

#[test]
fn malformed_inputs_are_named() {
    let none: Vec<String> = Vec::new();
    let err = |ua: Option<&str>, h: &[&str], c: &[&str], b: Option<&str>| {
        build_headers(ua, &strings(h), &strings(c), b, None).unwrap_err()
    };
    assert_eq!(err(Some("a\nb"), &[], &[], None), "invalid --user-agent value: a\nb");
    assert_eq!(
        err(None, &["nocolon"], &[], None),
        "invalid --header (expected 'Name: Value'): nocolon"
    );
    assert_eq!(err(None, &["b d: x"], &[], None), "invalid header name: b d");
    assert_eq!(err(None, &[": x"], &[], None), "invalid header name: ");
    assert_eq!(err(None, &["ok: x\u{7f}y"], &[], None), "invalid header value for ok");
    assert_eq!(err(None, &[], &["a=\u{1}"], None), "invalid --cookie value");
    assert_eq!(err(None, &[], &[], Some("a\rb")), "invalid --bearer token");
    assert_eq!(
        err(None, &["bad", "b d: x"], &["a=\u{1}"], None),
        "invalid --header (expected 'Name: Value'): bad"
    );
    assert!(build_headers(None, &none, &none, None, Some("a\nb")).is_ok());
}

#[test]
fn more_headers_than_a_map_holds_are_refused() {
    let many: Vec<String> = (0..40000).map(|i| format!("x-{i}: 1")).collect();
    assert_eq!(build_headers(None, &many, &Vec::new(), None, None).unwrap_err(), TOO_MANY);
    let fewer: Vec<String> = (0..6551).map(|i| format!("x-{i}: 1")).collect();
    assert_eq!(build_headers(None, &fewer, &Vec::new(), None, None).unwrap().len(), 6552);
}

#[test]
fn an_origin_is_added_to_a_copy() {
    let cfg = HttpConfig {
        timeout_nanos: 5,
        insecure: true,
        headers: map_of(&[("origin", "https://old.example"), ("a", "1")]),
        http1_only: false,
    };
    let with = with_origin(&cfg, "https://new.example");
    assert_eq!(with.headers["origin"], "https://new.example");
    assert_eq!(with.headers["a"], "1");
    assert_eq!((with.timeout_nanos, with.insecure, with.http1_only), (5, true, false));
    assert_eq!(cfg.headers["origin"], "https://old.example");
    assert_eq!(with_origin(&cfg, "a\nb").headers, cfg.headers);
}

#[test]
fn a_cookie_prefix_is_dropped() {
    assert_eq!(strip_cookie_prefix("  Cookie: a=b; c=d "), "a=b; c=d");
    assert_eq!(strip_cookie_prefix("COOKIE:a=b"), "a=b");
    assert_eq!(strip_cookie_prefix("a=b"), "a=b");
    assert_eq!(strip_cookie_prefix("cookie"), "cookie");
    assert_eq!(strip_cookie_prefix("c\u{f6}\u{f6}kie:x"), "c\u{f6}\u{f6}kie:x");
}

#[test]
fn base64_pads() {
    assert_eq!(base64_encode(b""), "");
    assert_eq!(base64_encode(b"f"), "Zg==");
    assert_eq!(base64_encode(b"fo"), "Zm8=");
    assert_eq!(base64_encode(b"foo"), "Zm9v");
    assert_eq!(base64_encode(b"user:pass"), "dXNlcjpwYXNz");
    assert_eq!(base64_encode(&[0xff, 0xfe, 0xfb]), "//77");
}

#[test]
fn urls_get_a_scheme() {
    assert_eq!(normalize_url(" example.com "), "https://example.com");
    assert_eq!(normalize_url("http://a"), "http://a");
    assert_eq!(normalize_url("https://a"), "https://a");
    assert_eq!(normalize_url(&normalize_url("x y")), normalize_url("x y"));
    assert_eq!(normalize_url("ftp://a"), "https://ftp://a");
}

#[test]
fn hosts_are_parsed() {
    assert_eq!(host_of("Example.COM/path"), "example.com");
    assert_eq!(host_of("http://u:p@h.example:8080/x"), "h.example");
    assert_eq!(host_of("https://[::1]/"), "[::1]");
    assert!(host_is_ip("https://[::1]/"));
    assert!(host_is_ip("192.0.2.7:8080"));
    assert!(!host_is_ip("example.com"));
    assert!(!host_is_ip("1.example"));
    assert!(!host_is_ip("a b"));
    assert_eq!(host_literal("https://[::1]/"), "::1");
    assert!(host_is_ip("::1"), "a text that is no URL");
    assert!(host_is_ip(" [192.0.2.7] "));
    assert!(!host_is_ip("[0x7f.1]"));
    for t in [
        "192.0.2.7", "0.0.0.0", "255.255.255.255", "::", "::1", "1::", "1:2:3:4:5:6:7:8", "FE80::A",
        "1:2:3:4:5:6:7::", "::1:2:3:4:5:6:7", "::ffff:1.2.3.4", "1:2:3:4:5:6:1.2.3.4", "0001::",
    ] {
        assert!(is_ip(t), "{t:?}");
    }
    for t in [
        "[::1]", "256.1.1.1", "1.2.3", "01.2.3.4", "1.2.3.4.", "1.2.3.4/x", "1.2.3.4:80", "0x7f.0.0.1", "1",
        "1.2.3.\t4", "1.2.3.4 ", "u@1.2.3.4", "", ":", ":1", "1:", "::g", "12345::", "::1%eth0",
        "::1]/x", ":\t:1", "a@::1", "1:2:3:4:5:6:7::8", "::1:2:3:4:5:6:7:8", "1.2.3.4::",
        "1:2:3:4:5:6:7:1.2.3.4", "::1.2.3.04", "::1.2.3", "1::2::3", "dead.beef", "a.example",
    ] {
        assert!(!is_ip(t), "{t:?}");
    }
    assert!(names_v4("1.2.3.4", &Some("1.2.3.4".to_string()), &None));
    assert!(!names_v4("1", &Some("0.0.0.1".to_string()), &None));
    assert!(!names_v4("a", &Some("a".to_string()), &Some("a".to_string())));
    assert!(names_v6("::1", &Some("[::1]".to_string())));
    assert!(!names_v6("::1", &None));
    assert!(!names_v6("::1]", &Some("[::1]".to_string())));
    assert_eq!(host_of(" a b "), "a b");
    assert_eq!(host_or(None, " t "), "t");
    assert_eq!(host_or(Some("h".to_string()), " t "), "h");
}

#[test]
fn pasted_values_are_recognized() {
    assert!(looks_like_pasted_value("a=b; c=d"));
    assert!(looks_like_pasted_value(""));
    assert!(looks_like_pasted_value("session=abc"));
    assert!(!looks_like_pasted_value("example.com"));
    assert!(!looks_like_pasted_value("https://example.com/?a=b"));
}

#[test]
fn requests_are_spread_over_a_minute() {
    let mut r = RateLimiter::new(60);
    assert_eq!(r.wait(7), 0);
    r.sent(7);
    assert_eq!(r.wait(7), 1_000_000_000);
    assert_eq!(r.wait(400_000_007), 600_000_000);
    assert_eq!(r.wait(1_000_000_007), 0);
    r.sent(1_000_000_007);
    assert_eq!(r.wait(1_000_000_008), 999_999_999);
    let mut r = RateLimiter::new(0);
    r.sent(1);
    assert_eq!(r.wait(1), 0);
    let mut r = RateLimiter::new(-5);
    r.sent(1);
    assert_eq!(r.wait(1), 0);
    let mut r = RateLimiter::new(7);
    r.sent(0);
    assert_eq!(r.wait(0), 8_571_428_571);
}

#[test]
fn numbers_are_written_and_read() {
    assert_eq!(show(0), "0");
    assert_eq!(show(18446744073709551615), "18446744073709551615");
    assert_eq!(show_signed(-9223372036854775808), "-9223372036854775808");
    assert_eq!(show_quotient(-90000, 86400), "-1");
    assert_eq!(show_quotient(31536000, 86400), "365");
    assert_eq!(read_integer("31536000"), Some(31536000));
    assert_eq!(read_integer("+5"), Some(5));
    assert_eq!(read_integer("-9223372036854775808"), Some(-9223372036854775808));
    assert_eq!(read_integer("9223372036854775808"), None);
    assert_eq!(read_integer(""), None);
    assert_eq!(read_integer("-"), None);
    assert_eq!(read_integer("1x"), None);
}
