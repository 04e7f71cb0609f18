//! The scan of one target: what is fetched and in which order, and what is made
//! of it.

use crate::checks::auth::{auth_effect, auth_section, fetch_view, no_auth, no_auth_section};
use crate::checks::caching::{caching, caching_section};
use crate::checks::cookies::{cookies, cookies_section};
use crate::checks::cors::{cors, cors_section, optional_page};
use crate::checks::csp::{csp, csp_section};
use crate::checks::disclosure::{disclosure, disclosure_section};
use crate::checks::dns::{
    dns_section, dnsrecon, lookup_args, lookups_are_over, next_lookup, run_views, RECORD_TYPES,
};
use crate::checks::headers::{headers, headers_section};
use crate::checks::hsts::{hsts, hsts_section};
use crate::checks::methods::{methods, methods_section, probe_count, probe_views, METHODS};
use crate::checks::nmap::{nmap, nmap_args, nmap_section, scan_args};
use crate::cli::{Plan, PlanView};
use crate::report::section_views;
use crate::response::{Fetched, FetchedView, Probe, ProbeView};
use crate::section::{bad_line, section, Section, SectionView};
use crate::style::Style;
use crate::text::{cat2, texts};
use crate::tool::{ToolRun, ToolView};
use crate::url::{host, host_is_address, host_of};
use vstd::prelude::*;
use vstd::string::*;

verus! {

/// What a scan has gathered so far.
pub struct Evidence {
    /// The lookups made.
    pub lookups: Vec<ToolRun>,
    /// The run of nmap.
    pub nmap: Option<ToolRun>,
    /// The page, or why it could not be fetched.
    pub page: Option<Result<Fetched, String>>,
    /// The page fetched again with an origin, which may have failed.
    pub with_origin: Option<Option<Fetched>>,
    /// The page fetched again without credentials.
    pub anonymous: Option<Result<Fetched, String>>,
    /// The methods probed.
    pub probes: Vec<Probe>,
}

/// What a scan has gathered so far.
pub struct EvidenceView {
    pub lookups: Seq<ToolView>,
    pub nmap: Option<ToolView>,
    pub page: Option<Result<FetchedView, Seq<char>>>,
    pub with_origin: Option<Option<FetchedView>>,
    pub anonymous: Option<Result<FetchedView, Seq<char>>>,
    pub probes: Seq<ProbeView>,
}

/// The view of a run that may not have been made.
pub open spec fn optional_run(r: Option<ToolRun>) -> Option<ToolView> {
    match r {
        Some(t) => Some(t@),
        None => None,
    }
}

/// The view of a fetch that may not have been made.
pub open spec fn optional_fetch(r: Option<Result<Fetched, String>>) -> Option<
    Result<FetchedView, Seq<char>>,
> {
    match r {
        Some(f) => Some(fetch_view(f)),
        None => None,
    }
}

/// The view of a page that may be missing.
pub open spec fn page_view(p: Option<Fetched>) -> Option<FetchedView> {
    match p {
        Some(f) => Some(f@),
        None => None,
    }
}

/// The view of a page that may not have been fetched, and may be missing.
pub open spec fn optional_page_view(p: Option<Option<Fetched>>) -> Option<Option<FetchedView>> {
    match p {
        Some(o) => Some(page_view(o)),
        None => None,
    }
}

impl View for Evidence {
    type V = EvidenceView;

    open spec fn view(&self) -> EvidenceView {
        EvidenceView {
            lookups: run_views(self.lookups@),
            nmap: optional_run(self.nmap),
            page: optional_fetch(self.page),
            with_origin: optional_page_view(self.with_origin),
            anonymous: optional_fetch(self.anonymous),
            probes: probe_views(self.probes@),
        }
    }
}

/// No evidence.
pub open spec fn nothing() -> EvidenceView {
    EvidenceView {
        lookups: Seq::empty(),
        nmap: None,
        page: None,
        with_origin: None,
        anonymous: None,
        probes: Seq::empty(),
    }
}

impl Evidence {
    /// No evidence.
    pub fn new() -> (r: Evidence)
        ensures
            r@ == nothing(),
    {
        let r = Evidence {
            lookups: Vec::new(),
            nmap: None,
            page: None,
            with_origin: None,
            anonymous: None,
            probes: Vec::new(),
        };
        assert(r@.lookups =~= Seq::empty());
        assert(r@.probes =~= Seq::empty());
        r
    }
}

/// What is to be done next in a scan.
#[derive(Debug)]
pub enum Step {
    /// Run nslookup with these arguments.
    Lookup(Vec<String>),
    /// Run nmap with these arguments.
    Nmap(Vec<String>),
    /// Fetch the target.
    Fetch,
    /// Fetch this URL with an origin.
    FetchWithOrigin(String),
    /// Fetch the target without credentials.
    FetchAnonymously,
    /// Probe the target with this method.
    Probe(&'static str),
    /// The evidence is complete.
    Finished,
}

/// What is to be done next in a scan.
pub enum StepView {
    Lookup(Seq<Seq<char>>),
    Nmap(Seq<Seq<char>>),
    Fetch,
    FetchWithOrigin(Seq<char>),
    FetchAnonymously,
    Probe(Seq<char>),
    Finished,
}

impl View for Step {
    type V = StepView;

    open spec fn view(&self) -> StepView {
        match *self {
            Step::Lookup(a) => StepView::Lookup(texts(a@)),
            Step::Nmap(a) => StepView::Nmap(texts(a@)),
            Step::Fetch => StepView::Fetch,
            Step::FetchWithOrigin(u) => StepView::FetchWithOrigin(u@),
            Step::FetchAnonymously => StepView::FetchAnonymously,
            Step::Probe(m) => StepView::Probe(m@),
            Step::Finished => StepView::Finished,
        }
    }
}

/// The page that was fetched, if it was.
pub open spec fn page_of(ev: EvidenceView) -> Option<FetchedView> {
    match ev.page {
        Some(Ok(f)) => Some(f),
        _ => None,
    }
}

/// The next step of a scan: the lookups, the nmap scan, the page with what the
/// checks on it ask for besides, and the method probes, in this order.
pub open spec fn step(
    plan: PlanView,
    host: Seq<char>,
    authenticated: bool,
    ev: EvidenceView,
) -> StepView {
    if plan.dns && !lookups_are_over(ev.lookups) {
        StepView::Lookup(lookup_args(RECORD_TYPES@[ev.lookups.len() as int]@, host))
    } else if (plan.vulners || plan.nmap) && ev.nmap is None {
        StepView::Nmap(scan_args(host, plan.vulners, plan.port_spec))
    } else if plan.reads_page() && ev.page is None {
        StepView::Fetch
    } else if plan.cors && page_of(ev) is Some && ev.with_origin is None {
        StepView::FetchWithOrigin(page_of(ev)->0.url)
    } else if plan.auth_check && authenticated && page_of(ev) is Some && ev.anonymous is None {
        StepView::FetchAnonymously
    } else if plan.methods && ev.probes.len() < probe_count(plan.active) {
        StepView::Probe(METHODS@[ev.probes.len() as int]@)
    } else {
        StepView::Finished
    }
}

/// Decides what is to be done next in a scan.
pub fn next_step(plan: &Plan, host: &str, authenticated: bool, ev: &Evidence) -> (r: Step)
    ensures
        r@ == step(plan@, host@, authenticated, ev@),
{
    if plan.dns {
        match next_lookup(host, &ev.lookups) {
            Some(args) => {
                return Step::Lookup(args);
            },
            None => {},
        }
    }
    if plan.vulners || plan.nmap {
        match ev.nmap {
            None => {
                let ports = match &plan.port_spec {
                    Some(p) => Some(p.as_str()),
                    None => None,
                };
                return Step::Nmap(nmap_args(host, plan.vulners, ports));
            },
            Some(_) => {},
        }
    }
    if plan.needs_fetch() {
        match &ev.page {
            None => {
                return Step::Fetch;
            },
            Some(Ok(f)) => {
                if plan.cors {
                    match ev.with_origin {
                        None => {
                            return Step::FetchWithOrigin(f.url.as_str().to_owned());
                        },
                        Some(_) => {},
                    }
                }
                if plan.auth_check && authenticated {
                    match ev.anonymous {
                        None => {
                            return Step::FetchAnonymously;
                        },
                        Some(_) => {},
                    }
                }
            },
            Some(Err(_)) => {},
        }
    }
    let count: usize = if plan.active {
        8
    } else {
        4
    };
    if plan.methods && ev.probes.len() < count {
        let table = METHODS;
        return Step::Probe(table[ev.probes.len()]);
    }
    Step::Finished
}

/// Whether the evidence holds no more than a scan gathers.
pub open spec fn in_bounds(plan: PlanView, ev: EvidenceView) -> bool {
    ev.lookups.len() <= 7 && ev.probes.len() <= probe_count(plan.active)
}

/// Whether the evidence is complete.
pub open spec fn complete(plan: PlanView, authenticated: bool, ev: EvidenceView) -> bool {
    &&& in_bounds(plan, ev)
    &&& plan.dns ==> lookups_are_over(ev.lookups)
    &&& (plan.vulners || plan.nmap) ==> ev.nmap is Some
    &&& plan.reads_page() ==> ev.page is Some
    &&& (plan.cors && page_of(ev) is Some) ==> ev.with_origin is Some
    &&& (plan.auth_check && authenticated && page_of(ev) is Some) ==> ev.anonymous is Some
    &&& plan.methods ==> ev.probes.len() == probe_count(plan.active)
}

/// Tells whether the evidence is complete.
pub fn is_complete(plan: &Plan, authenticated: bool, ev: &Evidence) -> (r: bool)
    ensures
        r == complete(plan@, authenticated, ev@),
{
    let count: usize = if plan.active {
        8
    } else {
        4
    };
    assert(ev@.lookups.len() == ev.lookups@.len() && ev@.probes.len() == ev.probes@.len());
    if ev.lookups.len() > 7 || ev.probes.len() > count {
        return false;
    }
    match next_step(plan, "", authenticated, ev) {
        Step::Finished => true,
        _ => false,
    }
}

/// What a step brought.
pub enum Event {
    Looked(ToolRun),
    Scanned(ToolRun),
    Fetched(Result<Fetched, String>),
    FetchedWithOrigin(Option<Fetched>),
    FetchedAnonymously(Result<Fetched, String>),
    Probed(Probe),
}

/// What a step brought.
pub enum EventView {
    Looked(ToolView),
    Scanned(ToolView),
    Fetched(Result<FetchedView, Seq<char>>),
    FetchedWithOrigin(Option<FetchedView>),
    FetchedAnonymously(Result<FetchedView, Seq<char>>),
    Probed(ProbeView),
}

impl View for Event {
    type V = EventView;

    open spec fn view(&self) -> EventView {
        match *self {
            Event::Looked(t) => EventView::Looked(t@),
            Event::Scanned(t) => EventView::Scanned(t@),
            Event::Fetched(f) => EventView::Fetched(fetch_view(f)),
            Event::FetchedWithOrigin(f) => EventView::FetchedWithOrigin(page_view(f)),
            Event::FetchedAnonymously(f) => EventView::FetchedAnonymously(fetch_view(f)),
            Event::Probed(p) => EventView::Probed(p@),
        }
    }
}

/// The evidence with what a step brought.
pub open spec fn recorded(ev: EvidenceView, e: EventView) -> EvidenceView {
    match e {
        EventView::Looked(t) => EvidenceView { lookups: ev.lookups.push(t), ..ev },
        EventView::Scanned(t) => EvidenceView { nmap: Some(t), ..ev },
        EventView::Fetched(f) => EvidenceView { page: Some(f), ..ev },
        EventView::FetchedWithOrigin(f) => EvidenceView { with_origin: Some(f), ..ev },
        EventView::FetchedAnonymously(f) => EvidenceView { anonymous: Some(f), ..ev },
        EventView::Probed(p) => EvidenceView { probes: ev.probes.push(p), ..ev },
    }
}

/// Records what a step brought.
pub fn record(ev: &mut Evidence, e: Event)
    ensures
        final(ev)@ == recorded(old(ev)@, e@),
{
    match e {
        Event::Looked(t) => {
            let ghost had = ev@.lookups;
            let ghost tv = t@;
            ev.lookups.push(t);
            assert(ev@.lookups =~= had.push(tv));
        },
        Event::Scanned(t) => {
            ev.nmap = Some(t);
        },
        Event::Fetched(f) => {
            ev.page = Some(f);
        },
        Event::FetchedWithOrigin(f) => {
            ev.with_origin = Some(f);
        },
        Event::FetchedAnonymously(f) => {
            ev.anonymous = Some(f);
        },
        Event::Probed(p) => {
            let ghost had = ev@.probes;
            let ghost pv = p@;
            ev.probes.push(p);
            assert(ev@.probes =~= had.push(pv));
        },
    }
}

// ---------------------------------------------------------------------------
// The sections
// ---------------------------------------------------------------------------

/// A section, if it is wanted.
pub open spec fn one(wanted: bool, s: SectionView) -> Seq<SectionView> {
    if wanted {
        seq![s]
    } else {
        Seq::empty()
    }
}

/// The section on a page that could not be fetched.
pub open spec fn failed_section(e: Seq<char>, st: Style) -> SectionView {
    section("HTTP"@, seq![bad_line(st, "fetch failed: "@ + e)])
}

/// The sections on a page.
pub open spec fn page_sections(
    plan: PlanView,
    authenticated: bool,
    f: FetchedView,
    ev: EvidenceView,
    st: Style,
) -> Seq<SectionView> {
    one(plan.headers, headers_section(f, st)) + one(
        plan.cookies,
        cookies_section(f, plan.auth_cookies, st),
    ) + one(plan.cors, cors_section(f, ev.with_origin->0, st)) + one(
        plan.disclosure,
        disclosure_section(f, host(f.url), st),
    ) + one(plan.csp, csp_section(f, st)) + one(plan.hsts, hsts_section(f, host_is_address(f.url), st)) + one(
        plan.caching,
        caching_section(f, authenticated, st),
    ) + one(
        plan.auth_check,
        if authenticated {
            auth_section(f, ev.anonymous->0, st)
        } else {
            no_auth_section(st)
        },
    )
}

/// The sections on the target itself, where a check reads its page.
pub open spec fn fetch_sections(
    plan: PlanView,
    authenticated: bool,
    ev: EvidenceView,
    st: Style,
) -> Seq<SectionView> {
    if plan.reads_page() {
        match ev.page->0 {
            Ok(f) => page_sections(plan, authenticated, f, ev, st),
            Err(e) => seq![failed_section(e, st)],
        }
    } else {
        Seq::empty()
    }
}

/// The status of the page, if a check read it.
pub open spec fn status_found(plan: PlanView, ev: EvidenceView) -> Option<u16> {
    if plan.reads_page() {
        match ev.page->0 {
            Ok(f) => Some(f.status),
            Err(_) => None,
        }
    } else {
        None
    }
}

/// Whether a check wanted the page, but it could not be fetched.
pub open spec fn fetch_failed(plan: PlanView, ev: EvidenceView) -> bool {
    plan.reads_page() && ev.page->0 is Err
}

/// The sections of a scan.
pub open spec fn scan_sections(
    plan: PlanView,
    host: Seq<char>,
    authenticated: bool,
    ev: EvidenceView,
    st: Style,
) -> Seq<SectionView> {
    one(plan.dns, dns_section(host, ev.lookups, st)) + one(
        plan.vulners || plan.nmap,
        nmap_section(host, plan.vulners, plan.port_spec, ev.nmap->0, st),
    ) + fetch_sections(plan, authenticated, ev, st) + one(
        plan.methods,
        methods_section(plan.active, ev.probes, st),
    )
}

fn push_section(v: &mut Vec<Section>, s: Section)
    ensures
        section_views(final(v)@) == section_views(old(v)@) + one(true, s@),
{
    let ghost had = section_views(v@);
    let ghost sv = s@;
    v.push(s);
    assert(section_views(v@) =~= had + one(true, sv));
}

proof fn lemma_one_false(v: Seq<SectionView>, s: SectionView)
    ensures
        v + one(false, s) == v,
{
    assert(v + one(false, s) =~= v);
}

fn report_failure(e: &str, st: Style) -> (r: Section)
    ensures
        r@ == failed_section(e@, st),
{
    let mut sec = Section::new("HTTP");
    let t = cat2("fetch failed: ", e);
    sec.bad(st, t.as_str());
    assert(sec@.lines =~= failed_section(e@, st).lines);
    sec
}

fn sections_on_page(
    plan: &Plan,
    authenticated: bool,
    f: &Fetched,
    ev: &Evidence,
    st: Style,
) -> (r: Vec<Section>)
    requires
        plan.cors ==> ev.with_origin is Some,
        plan.auth_check && authenticated ==> ev.anonymous is Some,
    ensures
        section_views(r@) == page_sections(plan@, authenticated, f@, ev@, st),
{
    let mut v: Vec<Section> = Vec::new();
    assert(section_views(v@) =~= Seq::empty());
    if plan.headers {
        push_section(&mut v, headers(f, st));
    } else {
        proof {
            lemma_one_false(section_views(v@), headers_section(f@, st));
        }
    }
    assert(section_views(v@) =~= one(plan.headers, headers_section(f@, st)));
    if plan.cookies {
        push_section(&mut v, cookies(f, &plan.auth_cookies, st));
    } else {
        proof {
            lemma_one_false(section_views(v@), cookies_section(f@, plan@.auth_cookies, st));
        }
    }
    if plan.cors {
        let probe: Option<&Fetched> = match &ev.with_origin {
            Some(Some(p)) => Some(p),
            _ => None,
        };
        assert(optional_page(probe) == ev@.with_origin->0);
        push_section(&mut v, cors(f, probe, st));
    } else {
        proof {
            lemma_one_false(section_views(v@), cors_section(f@, ev@.with_origin->0, st));
        }
    }
    if plan.disclosure {
        push_section(&mut v, disclosure(f, st));
    } else {
        proof {
            lemma_one_false(section_views(v@), disclosure_section(f@, host(f@.url), st));
        }
    }
    if plan.csp {
        push_section(&mut v, csp(f, st));
    } else {
        proof {
            lemma_one_false(section_views(v@), csp_section(f@, st));
        }
    }
    if plan.hsts {
        push_section(&mut v, hsts(f, st));
    } else {
        proof {
            lemma_one_false(section_views(v@), hsts_section(f@, host_is_address(f@.url), st));
        }
    }
    if plan.caching {
        push_section(&mut v, caching(f, authenticated, st));
    } else {
        proof {
            lemma_one_false(section_views(v@), caching_section(f@, authenticated, st));
        }
    }
    if plan.auth_check {
        if authenticated {
            match &ev.anonymous {
                Some(a) => push_section(&mut v, auth_effect(f, a, st)),
                None => {},
            }
        } else {
            push_section(&mut v, no_auth(st));
        }
    } else {
        proof {
            lemma_one_false(section_views(v@), if authenticated {
                auth_section(f@, ev@.anonymous->0, st)
            } else {
                no_auth_section(st)
            });
        }
    }
    v
}

fn sections_on_target(
    plan: &Plan,
    authenticated: bool,
    ev: &Evidence,
    st: Style,
) -> (r: Vec<Section>)
    requires
        complete(plan@, authenticated, ev@),
    ensures
        section_views(r@) == fetch_sections(plan@, authenticated, ev@, st),
{
    let mut v: Vec<Section> = Vec::new();
    assert(section_views(v@) =~= Seq::empty());
    if plan.needs_fetch() {
        match &ev.page {
            Some(Ok(f)) => {
                return sections_on_page(plan, authenticated, f, ev, st);
            },
            Some(Err(e)) => {
                let s = report_failure(e.as_str(), st);
                push_section(&mut v, s);
                assert(section_views(v@) =~= seq![failed_section(e@, st)]);
            },
            None => {},
        }
    }
    v
}

fn dns_part(plan: &Plan, host: &str, ev: &Evidence, st: Style) -> (r: Vec<Section>)
    requires
        ev@.lookups.len() <= 7,
    ensures
        section_views(r@) == one(plan.dns, dns_section(host@, ev@.lookups, st)),
{
    let mut v: Vec<Section> = Vec::new();
    assert(section_views(v@) =~= Seq::empty());
    if plan.dns {
        push_section(&mut v, dnsrecon(host, &ev.lookups, st));
        assert(section_views(v@) =~= one(true, dns_section(host@, ev@.lookups, st)));
    }
    v
}

fn nmap_part(plan: &Plan, host: &str, ev: &Evidence, st: Style) -> (r: Vec<Section>)
    requires
        plan.vulners || plan.nmap ==> ev.nmap is Some,
    ensures
        section_views(r@) == one(
            plan.vulners || plan.nmap,
            nmap_section(host@, plan.vulners, plan@.port_spec, ev@.nmap->0, st),
        ),
{
    let mut v: Vec<Section> = Vec::new();
    assert(section_views(v@) =~= Seq::empty());
    if plan.vulners || plan.nmap {
        let ports = match &plan.port_spec {
            Some(p) => Some(p.as_str()),
            None => None,
        };
        match &ev.nmap {
            Some(t) => {
                let s = nmap(host, plan.vulners, ports, t, st);
                let ghost sv = s@;
                push_section(&mut v, s);
                assert(section_views(v@) =~= one(true, sv));
            },
            None => {},
        }
    }
    v
}

fn methods_part(plan: &Plan, ev: &Evidence, st: Style) -> (r: Vec<Section>)
    requires
        plan.methods ==> ev@.probes.len() == probe_count(plan.active),
    ensures
        section_views(r@) == one(plan.methods, methods_section(plan.active, ev@.probes, st)),
{
    let mut v: Vec<Section> = Vec::new();
    assert(section_views(v@) =~= Seq::empty());
    if plan.methods {
        push_section(&mut v, methods(plan.active, &ev.probes, st));
        assert(section_views(v@) =~= one(true, methods_section(plan.active, ev@.probes, st)));
    }
    v
}

fn concat(a: Vec<Section>, b: Vec<Section>) -> (r: Vec<Section>)
    ensures
        section_views(r@) == section_views(a@) + section_views(b@),
{
    let mut r = a;
    let mut rest = b;
    r.append(&mut rest);
    assert(section_views(r@) =~= section_views(a@) + section_views(b@));
    r
}

fn status_of(plan: &Plan, ev: &Evidence) -> (r: (Option<u16>, bool))
    requires
        plan@.reads_page() ==> ev@.page is Some,
    ensures
        r.0 == status_found(plan@, ev@),
        r.1 == fetch_failed(plan@, ev@),
{
    if plan.needs_fetch() {
        match &ev.page {
            Some(Ok(f)) => (Some(f.status), false),
            _ => (None, true),
        }
    } else {
        (None, false)
    }
}

/// The outcome of scanning a single target.
#[derive(Debug)]
pub struct TargetResult {
    pub url: String,
    pub host: String,
    pub status: Option<u16>,
    pub fetch_failed: bool,
    pub sections: Vec<Section>,
}

/// What the outcome of a scan holds.
pub struct ResultView {
    pub url: Seq<char>,
    pub host: Seq<char>,
    pub status: Option<u16>,
    pub fetch_failed: bool,
    pub sections: Seq<SectionView>,
}

impl View for TargetResult {
    type V = ResultView;

    open spec fn view(&self) -> ResultView {
        ResultView {
            url: self.url@,
            host: self.host@,
            status: self.status,
            fetch_failed: self.fetch_failed,
            sections: section_views(self.sections@),
        }
    }
}

/// The outcome of a scan, given the host of the URL.
pub open spec fn outcome(
    url: Seq<char>,
    host: Seq<char>,
    plan: PlanView,
    authenticated: bool,
    ev: EvidenceView,
    st: Style,
) -> ResultView {
    ResultView {
        url,
        host,
        status: status_found(plan, ev),
        fetch_failed: fetch_failed(plan, ev),
        sections: scan_sections(plan, host, authenticated, ev, st),
    }
}

/// Makes the outcome of a scan from complete evidence, given the host of the
/// URL.
pub fn scan_on(
    url: &str,
    host: &str,
    plan: &Plan,
    authenticated: bool,
    ev: &Evidence,
    st: Style,
) -> (r: TargetResult)
    requires
        complete(plan@, authenticated, ev@),
    ensures
        r@ == outcome(url@, host@, plan@, authenticated, ev@, st),
{
    let dns = dns_part(plan, host, ev, st);
    let services = nmap_part(plan, host, ev, st);
    let page = sections_on_target(plan, authenticated, ev, st);
    let probes = methods_part(plan, ev, st);
    let sections = concat(concat(concat(dns, services), page), probes);
    let found = status_of(plan, ev);
    TargetResult {
        url: url.to_owned(),
        host: host.to_owned(),
        status: found.0,
        fetch_failed: found.1,
        sections,
    }
}

/// Makes the outcome of a scan from complete evidence.
pub fn scan_one(
    url: &str,
    plan: &Plan,
    authenticated: bool,
    ev: &Evidence,
    st: Style,
) -> (r: TargetResult)
    requires
        complete(plan@, authenticated, ev@),
    ensures
        r@ == outcome(url@, host(url@), plan@, authenticated, ev@, st),
{
    let h = host_of(url);
    scan_on(url, h.as_str(), plan, authenticated, ev, st)
}

// ---------------------------------------------------------------------------
// Laws
// ---------------------------------------------------------------------------

/// Whether what a step brought is what it was to bring.
pub open spec fn answers_step(s: StepView, e: EventView) -> bool {
    match s {
        StepView::Lookup(_) => e is Looked,
        StepView::Nmap(_) => e is Scanned,
        StepView::Fetch => e is Fetched,
        StepView::FetchWithOrigin(_) => e is FetchedWithOrigin,
        StepView::FetchAnonymously => e is FetchedAnonymously,
        StepView::Probe(_) => e is Probed,
        StepView::Finished => false,
    }
}

/// How many steps a scan can still take.
pub open spec fn steps_left(ev: EvidenceView) -> int {
    (7 - ev.lookups.len()) + (if ev.nmap is None {
        1int
    } else {
        0
    }) + (if ev.page is None {
        1int
    } else {
        0
    }) + (if ev.with_origin is None {
        1int
    } else {
        0
    }) + (if ev.anonymous is None {
        1int
    } else {
        0
    }) + (8 - ev.probes.len())
}

/// A scan starts in bounds, and each of its steps stays there and brings the
/// end nearer.
pub proof fn law_a_scan_ends(
    plan: PlanView,
    host: Seq<char>,
    authenticated: bool,
    ev: EvidenceView,
    e: EventView,
)
    requires
        in_bounds(plan, ev),
        answers_step(step(plan, host, authenticated, ev), e),
    ensures
        in_bounds(plan, nothing()),
        in_bounds(plan, recorded(ev, e)),
        0 <= steps_left(recorded(ev, e)) < steps_left(ev),
{
}

/// A scan is finished exactly when its evidence is complete.
pub proof fn law_finished_is_complete(
    plan: PlanView,
    host: Seq<char>,
    authenticated: bool,
    ev: EvidenceView,
)
    requires
        in_bounds(plan, ev),
    ensures
        step(plan, host, authenticated, ev) is Finished <==> complete(plan, authenticated, ev),
{
}

/// Nothing is sent that the plan does not call for: the target is fetched only
/// for a check that reads its page, the origin probe is sent only for the CORS
/// check, the anonymous request only with credentials to compare it to, and a
/// method that writes is probed only in an active scan.
pub proof fn law_only_planned_steps(
    plan: PlanView,
    host: Seq<char>,
    authenticated: bool,
    ev: EvidenceView,
)
    requires
        in_bounds(plan, ev),
    ensures
        ({
            let s = step(plan, host, authenticated, ev);
            &&& s is Lookup ==> plan.dns
            &&& s is Nmap ==> plan.nmap || plan.vulners
            &&& s is Fetch ==> plan.reads_page()
            &&& s is FetchWithOrigin ==> plan.cors
            &&& s is FetchAnonymously ==> plan.auth_check && authenticated
            &&& s is Probe ==> plan.methods && (plan.active || ev.probes.len() < 4)
        }),
{
}

/// One for what is wanted, and nothing for what is not.
pub open spec fn count(wanted: bool) -> int {
    if wanted {
        1
    } else {
        0
    }
}

/// Each check that is wanted has its section, made of the evidence for it, in
/// its place behind those of the checks before it that are wanted, and there are
/// no other sections.
pub proof fn law_every_wanted_section_is_there(
    url: Seq<char>,
    host_name: Seq<char>,
    plan: PlanView,
    authenticated: bool,
    ev: EvidenceView,
    st: Style,
    f: FetchedView,
)
    requires
        ev.page == Some(Ok::<FetchedView, Seq<char>>(f)),
    ensures
        ({
            let r = outcome(url, host_name, plan, authenticated, ev, st);
            let s = r.sections;
            let a = count(plan.dns);
            let b = a + count(plan.vulners || plan.nmap);
            let c = b + count(plan.headers);
            let d = c + count(plan.cookies);
            let e = d + count(plan.cors);
            let g = e + count(plan.disclosure);
            let h = g + count(plan.csp);
            let i = h + count(plan.hsts);
            let j = i + count(plan.caching);
            let k = j + count(plan.auth_check);
            let page = plan.headers || plan.cookies || plan.cors || plan.disclosure || plan.csp
                || plan.hsts || plan.caching || plan.auth_check;
            &&& r.url == url
            &&& r.host == host_name
            &&& !r.fetch_failed
            &&& page ==> r.status == Some(f.status)
            &&& !page ==> r.status is None
            &&& plan.dns ==> s[0] == dns_section(host_name, ev.lookups, st)
            &&& plan.vulners || plan.nmap ==> s[a] == nmap_section(
                host_name,
                plan.vulners,
                plan.port_spec,
                ev.nmap->0,
                st,
            )
            &&& plan.headers ==> s[b] == headers_section(f, st)
            &&& plan.cookies ==> s[c] == cookies_section(f, plan.auth_cookies, st)
            &&& plan.cors ==> s[d] == cors_section(f, ev.with_origin->0, st)
            &&& plan.disclosure ==> s[e] == disclosure_section(f, host(f.url), st)
            &&& plan.csp ==> s[g] == csp_section(f, st)
            &&& plan.hsts ==> s[h] == hsts_section(f, host_is_address(f.url), st)
            &&& plan.caching ==> s[i] == caching_section(f, authenticated, st)
            &&& plan.auth_check && authenticated ==> s[j] == auth_section(f, ev.anonymous->0, st)
            &&& plan.auth_check && !authenticated ==> s[j] == no_auth_section(st)
            &&& plan.methods ==> s[k] == methods_section(plan.active, ev.probes, st)
            &&& s.len() == k + count(plan.methods)
        }),
{
    let last = if authenticated {
        auth_section(f, ev.anonymous->0, st)
    } else {
        no_auth_section(st)
    };
    let p = page_sections(plan, authenticated, f, ev, st);
    assert(fetch_sections(plan, authenticated, ev, st) == p) by {
        if !plan.reads_page() {
            assert(p =~= Seq::empty());
        }
    }
    assert(p == row(
        (plan.headers, headers_section(f, st)),
        (plan.cookies, cookies_section(f, plan.auth_cookies, st)),
        (plan.cors, cors_section(f, ev.with_origin->0, st)),
        (plan.disclosure, disclosure_section(f, host(f.url), st)),
        (plan.csp, csp_section(f, st)),
        (plan.hsts, hsts_section(f, host_is_address(f.url), st)),
        (plan.caching, caching_section(f, authenticated, st)),
        (plan.auth_check, last),
    )) by {
        reveal(row);
    }
    lemma_all_in_a_row(
        (plan.dns, dns_section(host_name, ev.lookups, st)),
        (
            plan.vulners || plan.nmap,
            nmap_section(host_name, plan.vulners, plan.port_spec, ev.nmap->0, st),
        ),
        (plan.headers, headers_section(f, st)),
        (plan.cookies, cookies_section(f, plan.auth_cookies, st)),
        (plan.cors, cors_section(f, ev.with_origin->0, st)),
        (plan.disclosure, disclosure_section(f, host(f.url), st)),
        (plan.csp, csp_section(f, st)),
        (plan.hsts, hsts_section(f, host_is_address(f.url), st)),
        (plan.caching, caching_section(f, authenticated, st)),
        (plan.auth_check, last),
        (plan.methods, methods_section(plan.active, ev.probes, st)),
    );
}

/// A wanted section stands at the end of a row, which otherwise stays the same.
proof fn lemma_put(v: Seq<SectionView>, w: bool, s: SectionView)
    ensures
        (v + one(w, s)).len() == v.len() + count(w),
        w ==> (v + one(w, s))[v.len() as int] == s,
        forall|k: int| 0 <= k < v.len() ==> #[trigger] (v + one(w, s))[k] == v[k],
{
}

/// The wanted ones of eight sections, in a row.
#[verifier::opaque]
spec fn row(
    a: (bool, SectionView),
    b: (bool, SectionView),
    c: (bool, SectionView),
    d: (bool, SectionView),
    e: (bool, SectionView),
    g: (bool, SectionView),
    h: (bool, SectionView),
    i: (bool, SectionView),
) -> Seq<SectionView> {
    one(a.0, a.1) + one(b.0, b.1) + one(c.0, c.1) + one(d.0, d.1) + one(e.0, e.1) + one(g.0, g.1)
        + one(h.0, h.1) + one(i.0, i.1)
}

#[verifier::rlimit(50)]
#[verifier::spinoff_prover]
proof fn lemma_in_a_row(
    a: (bool, SectionView),
    b: (bool, SectionView),
    c: (bool, SectionView),
    d: (bool, SectionView),
    e: (bool, SectionView),
    g: (bool, SectionView),
    h: (bool, SectionView),
    i: (bool, SectionView),
)
    ensures
        ({
            let s = row(a, b, c, d, e, g, h, i);
            let n = count(a.0);
            let m = n + count(b.0);
            let o = m + count(c.0);
            let p = o + count(d.0);
            let q = p + count(e.0);
            let r = q + count(g.0);
            let t = r + count(h.0);
            &&& a.0 ==> s[0] == a.1
            &&& b.0 ==> s[n] == b.1
            &&& c.0 ==> s[m] == c.1
            &&& d.0 ==> s[o] == d.1
            &&& e.0 ==> s[p] == e.1
            &&& g.0 ==> s[q] == g.1
            &&& h.0 ==> s[r] == h.1
            &&& i.0 ==> s[t] == i.1
            &&& s.len() == t + count(i.0)
        }),
{
    reveal(row);
    let s1 = one(a.0, a.1);
    let s2 = s1 + one(b.0, b.1);
    let s3 = s2 + one(c.0, c.1);
    let s4 = s3 + one(d.0, d.1);
    let s5 = s4 + one(e.0, e.1);
    let s6 = s5 + one(g.0, g.1);
    let s7 = s6 + one(h.0, h.1);
    lemma_put(s1, b.0, b.1);
    lemma_put(s2, c.0, c.1);
    lemma_put(s3, d.0, d.1);
    lemma_put(s4, e.0, e.1);
    lemma_put(s5, g.0, g.1);
    lemma_put(s6, h.0, h.1);
    lemma_put(s7, i.0, i.1);
}

proof fn lemma_around(
    wx: bool,
    x: SectionView,
    wy: bool,
    y: SectionView,
    p: Seq<SectionView>,
    wz: bool,
    z: SectionView,
)
    ensures
        ({
            let s = one(wx, x) + one(wy, y) + p + one(wz, z);
            let a = count(wx);
            let b = a + count(wy);
            &&& wx ==> s[0] == x
            &&& wy ==> s[a] == y
            &&& forall|i: int| 0 <= i < p.len() ==> s[b + i] == #[trigger] p[i]
            &&& wz ==> s[b + p.len()] == z
            &&& s.len() == b + p.len() + count(wz)
        }),
{
}

proof fn lemma_at(
    s: Seq<SectionView>,
    mid: Seq<SectionView>,
    from: int,
    k: int,
    w: (bool, SectionView),
)
    requires
        forall|n: int| 0 <= n < mid.len() ==> s[from + n] == #[trigger] mid[n],
        w.0 ==> 0 <= k < mid.len() && mid[k] == w.1,
    ensures
        w.0 ==> s[from + k] == w.1,
{
}

#[verifier::rlimit(50)]
#[verifier::spinoff_prover]
proof fn lemma_all_in_a_row(
    x: (bool, SectionView),
    y: (bool, SectionView),
    a: (bool, SectionView),
    b: (bool, SectionView),
    c: (bool, SectionView),
    d: (bool, SectionView),
    e: (bool, SectionView),
    g: (bool, SectionView),
    h: (bool, SectionView),
    i: (bool, SectionView),
    z: (bool, SectionView),
)
    ensures
        ({
            let mid = row(a, b, c, d, e, g, h, i);
            let s = one(x.0, x.1) + one(y.0, y.1) + mid + one(z.0, z.1);
            let k = count(x.0);
            let l = k + count(y.0);
            let n = l + count(a.0);
            let m = n + count(b.0);
            let o = m + count(c.0);
            let p = o + count(d.0);
            let q = p + count(e.0);
            let r = q + count(g.0);
            let t = r + count(h.0);
            let u = t + count(i.0);
            &&& x.0 ==> s[0] == x.1
            &&& y.0 ==> s[k] == y.1
            &&& a.0 ==> s[l] == a.1
            &&& b.0 ==> s[n] == b.1
            &&& c.0 ==> s[m] == c.1
            &&& d.0 ==> s[o] == d.1
            &&& e.0 ==> s[p] == e.1
            &&& g.0 ==> s[q] == g.1
            &&& h.0 ==> s[r] == h.1
            &&& i.0 ==> s[t] == i.1
            &&& z.0 ==> s[u] == z.1
            &&& s.len() == u + count(z.0)
        }),
{
    let mid = row(a, b, c, d, e, g, h, i);
    let s = one(x.0, x.1) + one(y.0, y.1) + mid + one(z.0, z.1);
    lemma_in_a_row(a, b, c, d, e, g, h, i);
    lemma_around(x.0, x.1, y.0, y.1, mid, z.0, z.1);
    let from = count(x.0) + count(y.0);
    let n = count(a.0);
    let m = n + count(b.0);
    let o = m + count(c.0);
    let p = o + count(d.0);
    let q = p + count(e.0);
    let r = q + count(g.0);
    let t = r + count(h.0);
    lemma_at(s, mid, from, 0, a);
    lemma_at(s, mid, from, n, b);
    lemma_at(s, mid, from, m, c);
    lemma_at(s, mid, from, o, d);
    lemma_at(s, mid, from, p, e);
    lemma_at(s, mid, from, q, g);
    lemma_at(s, mid, from, r, h);
    lemma_at(s, mid, from, t, i);
}

/// A page that could not be fetched is told by one section in the place of those
/// on it, with the reason; there is then no status, and the scan has failed. The
/// checks that need no page are not touched by that.
pub proof fn law_a_failed_fetch_is_told(
    url: Seq<char>,
    host_name: Seq<char>,
    plan: PlanView,
    authenticated: bool,
    ev: EvidenceView,
    st: Style,
    e: Seq<char>,
)
    requires
        ev.page == Some(Err::<FetchedView, Seq<char>>(e)),
        plan.headers || plan.cookies || plan.cors || plan.disclosure || plan.csp || plan.hsts
            || plan.caching || plan.auth_check,
    ensures
        ({
            let r = outcome(url, host_name, plan, authenticated, ev, st);
            let s = r.sections;
            let a = count(plan.dns);
            let b = a + count(plan.vulners || plan.nmap);
            &&& r.fetch_failed
            &&& r.status is None
            &&& plan.dns ==> s[0] == dns_section(host_name, ev.lookups, st)
            &&& plan.vulners || plan.nmap ==> s[a] == nmap_section(
                host_name,
                plan.vulners,
                plan.port_spec,
                ev.nmap->0,
                st,
            )
            &&& s[b].title == "HTTP"@
            &&& s[b].lines == seq![bad_line(st, "fetch failed: "@ + e)]
            &&& plan.methods ==> s[b + 1] == methods_section(plan.active, ev.probes, st)
            &&& s.len() == b + 1 + count(plan.methods)
        }),
{
}

/// The next step is the first that is called for and not done yet: a lookup, the
/// nmap scan, the page, the page with an origin from where it was found, the
/// page without credentials, or a method.
pub proof fn law_steps_are_taken_in_order(
    plan: PlanView,
    host: Seq<char>,
    authenticated: bool,
    ev: EvidenceView,
)
    ensures
        ({
            let s = step(plan, host, authenticated, ev);
            let page = plan.headers || plan.cookies || plan.cors || plan.disclosure || plan.csp
                || plan.hsts || plan.caching || plan.auth_check;
            let lookup = plan.dns && ev.lookups.len() < 7 && forall|i: int|
                0 <= i < ev.lookups.len() ==> !(#[trigger] ev.lookups[i] is NotFound);
            let scan = (plan.nmap || plan.vulners) && ev.nmap is None;
            let fetch = page && ev.page is None;
            let got = ev.page is Some && ev.page->0 is Ok;
            let origin = plan.cors && got && ev.with_origin is None;
            let bare = plan.auth_check && authenticated && got && ev.anonymous is None;
            let total: nat = if plan.active {
                8
            } else {
                4
            };
            let probe = plan.methods && ev.probes.len() < total;
            &&& lookup ==> s == StepView::Lookup(
                seq!["-type="@ + RECORD_TYPES@[ev.lookups.len() as int]@, host],
            )
            &&& !lookup && scan ==> s == StepView::Nmap(
                scan_args(host, plan.vulners, plan.port_spec),
            )
            &&& !lookup && !scan && fetch ==> s is Fetch
            &&& !lookup && !scan && !fetch && origin ==> s == StepView::FetchWithOrigin(
                (ev.page->0->Ok_0).url,
            )
            &&& !lookup && !scan && !fetch && !origin && bare ==> s is FetchAnonymously
            &&& !lookup && !scan && !fetch && !origin && !bare && probe ==> s == StepView::Probe(
                METHODS@[ev.probes.len() as int]@,
            )
            &&& !lookup && !scan && !fetch && !origin && !bare && !probe ==> s is Finished
        }),
{
}

/// What a step brings is kept, and nothing that was known before is lost.
pub proof fn law_evidence_is_kept(ev: EvidenceView, e: EventView)
    ensures
        ({
            let r = recorded(ev, e);
            &&& r.lookups == (if e is Looked {
                ev.lookups.push(e->Looked_0)
            } else {
                ev.lookups
            })
            &&& r.nmap == (if e is Scanned {
                Some(e->Scanned_0)
            } else {
                ev.nmap
            })
            &&& r.page == (if e is Fetched {
                Some(e->Fetched_0)
            } else {
                ev.page
            })
            &&& r.with_origin == (if e is FetchedWithOrigin {
                Some(e->FetchedWithOrigin_0)
            } else {
                ev.with_origin
            })
            &&& r.anonymous == (if e is FetchedAnonymously {
                Some(e->FetchedAnonymously_0)
            } else {
                ev.anonymous
            })
            &&& r.probes == (if e is Probed {
                ev.probes.push(e->Probed_0)
            } else {
                ev.probes
            })
        }),
{
}

} // verus!
