use reqwest::header::HeaderMap;
use vantage::cli::{
    auth_summary, choose_targets, color_wanted, cookie_names, is_authenticated, plaintext_warning, redirect_warning,
    refused_target, resolve, status_line, target_list, warn_of_redirect, Options, Plan,
};
use vantage::json::error_json;
use vantage::response::{Fetched, Probe};
use vantage::results::{emit_json, exit_code, write_report};
use vantage::scan::{is_complete, next_step, record, scan_on, scan_one, Event, Evidence, Step, TargetResult};
use vantage::section::Section;
use vantage::style::Style;
use vantage::tool::ToolRun;

const OFF: Style = Style { color: false };

fn words(v: &[&str]) -> Vec<String> {
    v.iter().map(|s| s.to_string()).collect()
}

fn no_options() -> Options {
    Options {
        all: false,
        dnsrecon: false,
        nmap: false,
        vulners: false,
        headers: false,
        methods: false,
        csp: false,
        hsts: false,
        cookies: false,
        cors: false,
        disclosure: false,
        caching: false,
        auth_check: false,
        ports: None,
        all_ports: false,
        header: Vec::new(),
        cookie: Vec::new(),
        bearer: None,
        basic: None,
        user_agent: None,
        active: false,
    }
}

fn fetched_page() -> Fetched {
    Fetched {
        status: 200,
        url: "https://a.example/".to_string(),
        headers: HeaderMap::new(),
        is_https: true,
        redirected: false,
        body_len: 0,
        version: "HTTP/1.1".to_string(),
    }
}

fn flags_of(p: &Plan) -> [bool; 12] {
    [
        p.dns, p.nmap, p.vulners, p.headers, p.cookies, p.cors, p.disclosure, p.csp, p.hsts,
        p.caching, p.auth_check, p.methods,
    ]
}

#[test]
fn the_default_audit_runs_when_nothing_is_asked_for() {
    let p = resolve(&no_options());
    assert_eq!(
        flags_of(&p),
        [false, false, false, true, true, true, true, true, true, false, false, false]
    );
    assert!(p.needs_fetch());
    assert_eq!(p.port_spec, None);
}

#[test]
fn only_the_named_checks_run() {
    let p = resolve(&Options { dnsrecon: true, methods: true, active: true, ..no_options() });
    assert_eq!(
        flags_of(&p),
        [true, false, false, false, false, false, false, false, false, false, false, true]
    );
    assert!(p.active);
    assert!(!p.needs_fetch());
    let p = resolve(&Options { all: true, ..no_options() });
    assert_eq!(flags_of(&p), [true; 12]);
}

#[test]
fn an_explicit_port_spec_wins() {
    let spec = |ports: Option<&str>, all_ports: bool| {
        resolve(&Options { ports: ports.map(|p| p.to_string()), all_ports, ..no_options() }).port_spec
    };
    assert_eq!(spec(Some("80"), true).as_deref(), Some("80"));
    assert_eq!(spec(None, true).as_deref(), Some("-"));
    assert_eq!(spec(None, false), None);
}

#[test]
fn cookie_names_are_pulled_out() {
    assert_eq!(
        cookie_names(&words(&["Cookie: sid=abc; csrf=x=y; ;=z", "theme"])),
        vec!["sid", "csrf", "theme"]
    );
    assert!(cookie_names(&Vec::new()).is_empty());
    let p = resolve(&Options { cookie: words(&["a=1"]), ..no_options() });
    assert_eq!(p.auth_cookies, vec!["a"]);
}

#[test]
fn credentials_are_summarized() {
    assert!(!is_authenticated(&no_options()));
    assert_eq!(auth_summary(&no_options()), "");
    let o = Options {
        header: words(&["a: b", "c: d"]),
        cookie: words(&["a=1"]),
        bearer: Some("t".to_string()),
        basic: Some("u:p".to_string()),
        user_agent: Some("x".to_string()),
        ..no_options()
    };
    assert!(is_authenticated(&o));
    assert_eq!(auth_summary(&o), "2 header(s), 1 cookie(s), bearer token, basic auth, custom UA");
    assert!(is_authenticated(&Options { user_agent: Some("x".to_string()), ..no_options() }));
}

#[test]
fn targets_come_from_the_command_line_and_a_list() {
    let list = Some("\n# comment\n  a.example  \r\n\n\t#x\nb.example".to_string());
    assert_eq!(
        target_list(&words(&["first", "second"]), &list),
        vec!["first", "second", "a.example", "b.example"]
    );
    assert!(target_list(&Vec::new(), &None).is_empty());
}

#[test]
fn a_pasted_cookie_is_no_target() {
    assert_eq!(refused_target(&words(&["a.example"])), None);
    assert_eq!(
        refused_target(&words(&["a.example", "sid=1; b=2"])).as_deref(),
        Some("not a domain or URL: sid=1; b=2 (cookies go into --cookie \"n=v\", headers into --header \"N: V\")")
    );
}

#[test]
fn a_run_needs_a_target() {
    assert_eq!(
        choose_targets(&Vec::new(), &Some("# none\n".to_string())),
        Err("provide a domain to scan, or a list via --targets <file>".to_string())
    );
    assert_eq!(choose_targets(&Vec::new(), &Some("a".to_string())), Ok(words(&["a"])));
    assert_eq!(choose_targets(&words(&["b"]), &None), Ok(words(&["b"])));
    assert!(choose_targets(&words(&["a=b"]), &None).unwrap_err().starts_with("not a domain"));
}

#[test]
fn the_status_line_names_the_protocol() {
    assert_eq!(status_line(&fetched_page()), "HTTP/1.1 200");
    let f = Fetched { redirected: true, ..fetched_page() };
    assert_eq!(status_line(&f), "HTTP/1.1 200  (redirected to https://a.example/)");
}

#[test]
fn cross_host_redirects_are_warned_of() {
    let f = Fetched { redirected: true, ..fetched_page() };
    assert_eq!(
        redirect_warning(true, "b.example", &f).as_deref(),
        Some("  warning: redirected to a different host (a.example); cookies/custom headers may have been sent there")
    );
    assert_eq!(redirect_warning(true, "A.example", &f), None);
    assert_eq!(redirect_warning(false, "b.example", &f), None);
    assert_eq!(redirect_warning(true, "b.example", &fetched_page()), None);
    assert_eq!(warn_of_redirect(true, true, "x", "X"), None);
    assert_eq!(
        plaintext_warning(true, "http://a"),
        Some("  warning: sending credentials over plaintext http://")
    );
    assert_eq!(plaintext_warning(true, "https://a"), None);
    assert_eq!(plaintext_warning(false, "http://a"), None);
}

fn no_probe() -> Probe {
    Probe { status: 0, location: None, allow: None, protocol: None, body_hash: 0, body_len: 0 }
}

#[test]
fn a_full_scan_takes_its_steps_in_order() {
    let plan = resolve(&Options { all: true, ..no_options() });
    let mut ev = Evidence::new();
    let mut seen: Vec<String> = Vec::new();
    assert!(!is_complete(&plan, true, &ev));
    loop {
        let event = match next_step(&plan, "h", true, &ev) {
            Step::Lookup(a) => {
                seen.push(a[0].clone());
                Event::Looked(ToolRun::Failed("x".to_string()))
            }
            Step::Nmap(a) => {
                seen.push(a.join(" "));
                Event::Scanned(ToolRun::NotFound)
            }
            Step::Fetch => {
                seen.push("fetch".to_string());
                Event::Fetched(Ok(fetched_page()))
            }
            Step::FetchWithOrigin(u) => {
                seen.push(format!("origin {u}"));
                Event::FetchedWithOrigin(None)
            }
            Step::FetchAnonymously => {
                seen.push("anonymous".to_string());
                Event::FetchedAnonymously(Err("x".to_string()))
            }
            Step::Probe(m) => {
                seen.push(m.to_string());
                Event::Probed(no_probe())
            }
            Step::Finished => break,
        };
        record(&mut ev, event);
    }
    assert_eq!(
        seen,
        vec![
            "-type=A", "-type=AAAA", "-type=NS", "-type=MX", "-type=TXT", "-type=SOA",
            "-type=CNAME", "-Pn -sV --script vulners h", "fetch", "origin https://a.example/",
            "anonymous", "GET", "HEAD", "OPTIONS", "TRACE",
        ]
    );
    assert!(is_complete(&plan, true, &ev));
    let r = scan_one("https://a.example", &plan, true, &ev, OFF);
    assert_eq!(r.host, "a.example");
    assert_eq!(r.status, Some(200));
    assert!(!r.fetch_failed);
    let titles: Vec<&str> = r.sections.iter().map(|s| s.title.as_str()).collect();
    assert_eq!(
        titles,
        vec![
            "DNS records (a.example)",
            "nmap --script vulners (a.example)",
            "HTTP headers",
            "Cookies",
            "CORS",
            "Information disclosure",
            "Content-Security-Policy",
            "HSTS (Strict-Transport-Security)",
            "Caching",
            "Auth effectiveness",
            "HTTP methods",
        ]
    );
}

#[test]
fn a_failed_fetch_is_reported() {
    let plan = resolve(&no_options());
    let mut ev = Evidence::new();
    record(&mut ev, Event::Fetched(Err("refused".to_string())));
    assert!(matches!(next_step(&plan, "h", false, &ev), Step::Finished));
    let r = scan_on("u", "h", &plan, false, &ev, OFF);
    assert!(r.fetch_failed);
    assert_eq!(r.status, None);
    assert_eq!(r.sections.len(), 1);
    assert_eq!(r.sections[0].title, "HTTP");
    assert_eq!(r.sections[0].lines, vec!["  - fetch failed: refused"]);
    assert_eq!(exit_code(&vec![r]), 2);
}

#[test]
fn auth_check_without_credentials_is_a_note() {
    let plan = resolve(&Options { auth_check: true, nmap: true, ..no_options() });
    let mut ev = Evidence::new();
    record(&mut ev, Event::Scanned(ToolRun::NotFound));
    record(&mut ev, Event::Fetched(Ok(fetched_page())));
    assert!(is_complete(&plan, false, &ev));
    assert!(!is_complete(&plan, true, &ev));
    let r = scan_on("u", "h", &plan, false, &ev, OFF);
    assert_eq!(r.sections.len(), 2);
    assert_eq!(r.sections[0].title, "nmap service scan (h)");
    assert_eq!(r.sections[1].title, "Auth effectiveness");
}

#[test]
fn too_much_evidence_is_not_complete() {
    let plan = resolve(&Options { methods: true, ..no_options() });
    let mut ev = Evidence::new();
    for _ in 0..4 {
        assert!(!is_complete(&plan, false, &ev));
        record(&mut ev, Event::Probed(no_probe()));
    }
    assert!(is_complete(&plan, false, &ev));
    record(&mut ev, Event::Probed(no_probe()));
    assert!(!is_complete(&plan, false, &ev));
}

fn result_with(url: &str, status: Option<u16>, fetch_failed: bool) -> TargetResult {
    let mut sec = Section::new("T");
    sec.text("a \"b\"");
    TargetResult {
        url: url.to_string(),
        host: "h".to_string(),
        status,
        fetch_failed,
        sections: vec![sec],
    }
}

#[test]
fn json_is_one_object_or_a_list() {
    assert_eq!(
        emit_json(&vec![result_with("u", Some(200), false)]),
        "{\n  \"host\": \"h\",\n  \"sections\": [\n    {\n      \"lines\": [\n        \"a \\\"b\\\"\"\n      ],\n      \"title\": \"T\"\n    }\n  ],\n  \"status\": 200,\n  \"target\": \"u\"\n}"
    );
    let two = emit_json(&vec![result_with("u", None, true), result_with("v", Some(1), false)]);
    let v: serde_json::Value = serde_json::from_str(&two).unwrap();
    assert_eq!(v["targets"][0]["status"], serde_json::Value::Null);
    assert_eq!(v["targets"][1]["target"], "v");
    assert_eq!(emit_json(&Vec::new()), "{\n  \"targets\": []\n}");
    assert_eq!(error_json("no \"x\""), "{\"error\":\"no \\\"x\\\"\"}");
}

#[test]
fn reports_follow_the_path() {
    let rs = vec![result_with("u", Some(200), false)];
    assert_eq!(
        write_report("r.md", &rs),
        "# vantage report\n\n## u\n\nHost: `h`\n\nHTTP 200\n\n### T\n\n```\na \"b\"\n```\n\n"
    );
    assert!(write_report("r.HTML", &rs).starts_with("<!doctype html>"));
}

#[test]
fn only_a_single_failed_target_fails_the_run() {
    assert_eq!(exit_code(&Vec::new()), 0);
    assert_eq!(exit_code(&vec![result_with("u", None, true)]), 2);
    assert_eq!(exit_code(&vec![result_with("u", Some(500), false)]), 0);
    assert_eq!(exit_code(&vec![result_with("u", None, true), result_with("v", None, true)]), 0);
}

#[test]
fn color_is_for_people() {
    assert!(color_wanted(false, false, true));
    assert!(!color_wanted(true, false, true));
    assert!(!color_wanted(false, true, true));
    assert!(!color_wanted(false, false, false));
}
