//! What the command line asks for: the checks to run, the targets, and the
//! words that are printed around a scan.

use crate::fields::optional_text;
use crate::number::{decimal, show};
use crate::request::{cookie_pairs, strip_cookie_prefix};
use crate::response::{Fetched, FetchedView};
use crate::text::{
    before, begins, cat2, cat3, cat4, eq_ignore_case, head, join, joined, lines, pieces,
    same_ignoring_case, split, split_lines, starts_with, texts, trim, trimmed, CharSet,
};
use crate::url::{host, host_of, looks_like_pasted_value, pasted};
use vstd::prelude::*;
use vstd::string::*;

verus! {

/// The options that decide what is scanned, and how.
pub struct Options {
    /// Run every check.
    pub all: bool,
    pub dnsrecon: bool,
    pub nmap: bool,
    pub vulners: bool,
    pub headers: bool,
    pub methods: bool,
    pub csp: bool,
    pub hsts: bool,
    pub cookies: bool,
    pub cors: bool,
    pub disclosure: bool,
    pub caching: bool,
    pub auth_check: bool,
    /// Port spec for nmap.
    pub ports: Option<String>,
    /// Scan all 65535 ports.
    pub all_ports: bool,
    /// Custom request headers.
    pub header: Vec<String>,
    /// Cookies to send.
    pub cookie: Vec<String>,
    pub bearer: Option<String>,
    pub basic: Option<String>,
    pub user_agent: Option<String>,
    /// Probe the methods that write, too.
    pub active: bool,
}

/// Which checks to run, resolved once and reused for every target.
pub struct Plan {
    pub dns: bool,
    pub nmap: bool,
    pub vulners: bool,
    pub headers: bool,
    pub cookies: bool,
    pub cors: bool,
    pub disclosure: bool,
    pub csp: bool,
    pub hsts: bool,
    pub caching: bool,
    pub auth_check: bool,
    pub methods: bool,
    pub active: bool,
    pub port_spec: Option<String>,
    pub auth_cookies: Vec<String>,
}

impl Options {
    /// Whether a check was asked for by name.
    pub open spec fn selected(self) -> bool {
        self.dnsrecon || self.nmap || self.vulners || self.headers || self.methods || self.csp
            || self.hsts || self.cookies || self.cors || self.disclosure || self.caching
            || self.auth_check
    }

    /// Whether the default HTTP audit runs: no check was asked for.
    pub open spec fn audits(self) -> bool {
        !self.selected() && !self.all
    }

    /// The port spec: an explicit one wins; otherwise all ports means `-`;
    /// otherwise there is none, so nmap scans its normal default port set.
    pub open spec fn port_spec(self) -> Option<Seq<char>> {
        match self.ports {
            Some(p) => Some(p@),
            None => if self.all_ports {
                Some("-"@)
            } else {
                None
            },
        }
    }

    /// Whether something beyond the default headers is sent.
    pub open spec fn sends_credentials(self) -> bool {
        self.user_agent is Some || self.header@.len() > 0 || self.cookie@.len() > 0
            || self.bearer is Some || self.basic is Some
    }
}

impl Plan {
    /// Whether a check reads the page itself.
    pub fn needs_fetch(&self) -> (r: bool)
        ensures
            r == self@.reads_page(),
    {
        self.headers || self.cookies || self.cors || self.disclosure || self.csp || self.hsts
            || self.caching || self.auth_check
    }
}

/// What a plan holds.
pub struct PlanView {
    pub dns: bool,
    pub nmap: bool,
    pub vulners: bool,
    pub headers: bool,
    pub cookies: bool,
    pub cors: bool,
    pub disclosure: bool,
    pub csp: bool,
    pub hsts: bool,
    pub caching: bool,
    pub auth_check: bool,
    pub methods: bool,
    pub active: bool,
    pub port_spec: Option<Seq<char>>,
    pub auth_cookies: Seq<Seq<char>>,
}

impl View for Plan {
    type V = PlanView;

    open spec fn view(&self) -> PlanView {
        PlanView {
            dns: self.dns,
            nmap: self.nmap,
            vulners: self.vulners,
            headers: self.headers,
            cookies: self.cookies,
            cors: self.cors,
            disclosure: self.disclosure,
            csp: self.csp,
            hsts: self.hsts,
            caching: self.caching,
            auth_check: self.auth_check,
            methods: self.methods,
            active: self.active,
            port_spec: optional_text(self.port_spec),
            auth_cookies: texts(self.auth_cookies@),
        }
    }
}

impl PlanView {
    /// Whether a check reads the page itself.
    pub open spec fn reads_page(self) -> bool {
        self.headers || self.cookies || self.cors || self.disclosure || self.csp || self.hsts
            || self.caching || self.auth_check
    }
}

/// The plan for some options.
pub open spec fn planned(o: Options) -> PlanView {
    PlanView {
        dns: o.all || o.dnsrecon,
        nmap: o.all || o.nmap,
        vulners: o.all || o.vulners,
        headers: o.all || o.headers || o.audits(),
        cookies: o.all || o.cookies || o.audits(),
        cors: o.all || o.cors || o.audits(),
        disclosure: o.all || o.disclosure || o.audits(),
        csp: o.all || o.csp || o.audits(),
        hsts: o.all || o.hsts || o.audits(),
        caching: o.all || o.caching,
        auth_check: o.all || o.auth_check,
        methods: o.all || o.methods,
        active: o.active,
        port_spec: o.port_spec(),
        auth_cookies: sent_names(texts(o.cookie@)),
    }
}

/// Resolves the options into a plan. With no check asked for, the default HTTP
/// audit runs: headers, cookies, CORS, disclosure, CSP and HSTS.
pub fn resolve(o: &Options) -> (r: Plan)
    ensures
        r@ == planned(*o),
{
    let selected = o.dnsrecon || o.nmap || o.vulners || o.headers || o.methods || o.csp || o.hsts
        || o.cookies || o.cors || o.disclosure || o.caching || o.auth_check;
    let audit = !selected && !o.all;
    let port_spec = match &o.ports {
        Some(p) => Some(p.as_str().to_owned()),
        None => if o.all_ports {
            Some("-".to_owned())
        } else {
            None
        },
    };
    Plan {
        dns: o.all || o.dnsrecon,
        nmap: o.all || o.nmap,
        vulners: o.all || o.vulners,
        headers: o.all || o.headers || audit,
        cookies: o.all || o.cookies || audit,
        cors: o.all || o.cors || audit,
        disclosure: o.all || o.disclosure || audit,
        csp: o.all || o.csp || audit,
        hsts: o.all || o.hsts || audit,
        caching: o.all || o.caching,
        auth_check: o.all || o.auth_check,
        methods: o.all || o.methods,
        active: o.active,
        port_spec,
        auth_cookies: cookie_names(&o.cookie),
    }
}

// ---------------------------------------------------------------------------
// Credentials
// ---------------------------------------------------------------------------

/// The cookie names in some `name=value` pairs.
pub open spec fn pair_names(pairs: Seq<Seq<char>>) -> Seq<Seq<char>>
    decreases pairs.len(),
{
    if pairs.len() == 0 {
        Seq::empty()
    } else {
        let had = pair_names(pairs.drop_last());
        let name = trimmed(head(pairs.last(), '='));
        if name.len() > 0 {
            had.push(name)
        } else {
            had
        }
    }
}

/// The names in some cookie strings, each of which may hold several pairs
/// separated by semicolons, and may begin with `Cookie:`.
pub open spec fn sent_names(cookies: Seq<Seq<char>>) -> Seq<Seq<char>>
    decreases cookies.len(),
{
    if cookies.len() == 0 {
        Seq::empty()
    } else {
        sent_names(cookies.drop_last()) + pair_names(
            pieces(cookie_pairs(cookies.last()), CharSet::One(';')),
        )
    }
}

fn add_names(names: &mut Vec<String>, cookie: &str)
    ensures
        texts(final(names)@) == texts(old(names)@) + pair_names(
            pieces(cookie_pairs(cookie@), CharSet::One(';')),
        ),
{
    let bare = strip_cookie_prefix(cookie);
    let pairs = split(bare.as_str(), CharSet::One(';'));
    let ghost ps = texts(pairs@);
    let ghost start = texts(names@);
    let mut i: usize = 0;
    assert(start =~= start + pair_names(ps.take(0)));
    while i < pairs.len()
        invariant
            i <= pairs@.len(),
            ps == texts(pairs@),
            texts(names@) == start + pair_names(ps.take(i as int)),
        decreases pairs@.len() - i,
    {
        assert(ps.take(i + 1).drop_last() =~= ps.take(i as int));
        assert(ps.take(i + 1).last() == pairs@[i as int]@);
        let n = before(pairs[i].as_str(), '=');
        let n = trim(n.as_str());
        if !n.as_str().is_empty() {
            let ghost had = texts(names@);
            let ghost nv = n@;
            names.push(n);
            assert(texts(names@) =~= had.push(nv));
            assert(texts(names@) =~= start + pair_names(ps.take(i + 1)));
        }
        i += 1;
    }
    assert(ps.take(i as int) =~= ps);
}

/// Pulls the cookie names out of the cookie strings (each may hold several
/// "name=value" pairs separated by ';').
pub fn cookie_names(cookies: &Vec<String>) -> (r: Vec<String>)
    ensures
        texts(r@) == sent_names(texts(cookies@)),
{
    let ghost cs = texts(cookies@);
    let mut r: Vec<String> = Vec::new();
    let mut i: usize = 0;
    assert(texts(r@) =~= sent_names(cs.take(0)));
    while i < cookies.len()
        invariant
            i <= cookies@.len(),
            cs == texts(cookies@),
            texts(r@) == sent_names(cs.take(i as int)),
        decreases cookies@.len() - i,
    {
        assert(cs.take(i + 1).drop_last() =~= cs.take(i as int));
        assert(cs.take(i + 1).last() == cookies@[i as int]@);
        add_names(&mut r, cookies[i].as_str());
        i += 1;
    }
    assert(cs.take(i as int) =~= cs);
    r
}

/// Whether something beyond the default headers is sent.
pub fn is_authenticated(o: &Options) -> (r: bool)
    ensures
        r == o.sends_credentials(),
{
    let ua = match o.user_agent {
        Some(_) => true,
        None => false,
    };
    let bearer = match o.bearer {
        Some(_) => true,
        None => false,
    };
    let basic = match o.basic {
        Some(_) => true,
        None => false,
    };
    ua || o.header.len() > 0 || o.cookie.len() > 0 || bearer || basic
}

/// A member of the summary, if it applies.
pub open spec fn bit(applies: bool, t: Seq<char>) -> Seq<Seq<char>> {
    if applies {
        seq![t]
    } else {
        Seq::empty()
    }
}

/// The members of the summary.
pub open spec fn summary_bits(o: Options) -> Seq<Seq<char>> {
    bit(o.header@.len() > 0, decimal(o.header@.len()) + " header(s)"@) + bit(
        o.cookie@.len() > 0,
        decimal(o.cookie@.len()) + " cookie(s)"@,
    ) + bit(o.bearer is Some, "bearer token"@) + bit(o.basic is Some, "basic auth"@) + bit(
        o.user_agent is Some,
        "custom UA"@,
    )
}

/// A one-line summary of the supplied credentials, for the banner.
pub fn auth_summary(o: &Options) -> (r: String)
    ensures
        r@ == joined(summary_bits(*o), ", "@),
{
    let mut bits: Vec<String> = Vec::new();
    if o.header.len() > 0 {
        let n = show(o.header.len() as u64);
        bits.push(cat2(n.as_str(), " header(s)"));
    }
    if o.cookie.len() > 0 {
        let n = show(o.cookie.len() as u64);
        bits.push(cat2(n.as_str(), " cookie(s)"));
    }
    match o.bearer {
        Some(_) => bits.push("bearer token".to_owned()),
        None => {},
    }
    match o.basic {
        Some(_) => bits.push("basic auth".to_owned()),
        None => {},
    }
    match o.user_agent {
        Some(_) => bits.push("custom UA".to_owned()),
        None => {},
    }
    assert(texts(bits@) =~= summary_bits(*o));
    join(&bits, ", ")
}

// ---------------------------------------------------------------------------
// Targets
// ---------------------------------------------------------------------------

/// The targets that a list names: one per line; blank lines and # comments are
/// ignored.
pub open spec fn listed_targets(ls: Seq<Seq<char>>) -> Seq<Seq<char>>
    decreases ls.len(),
{
    if ls.len() == 0 {
        Seq::empty()
    } else {
        let had = listed_targets(ls.drop_last());
        let t = trimmed(ls.last());
        if t.len() > 0 && !begins(t, "#"@) {
            had.push(t)
        } else {
            had
        }
    }
}

/// The targets: those of the command line, and then those of the list.
pub open spec fn all_targets(domains: Seq<Seq<char>>, list: Option<Seq<char>>) -> Seq<Seq<char>> {
    match list {
        Some(t) => domains + listed_targets(lines(t)),
        None => domains,
    }
}

/// Resolves the target list: the targets of the command line plus those of the
/// text of a list.
pub fn target_list(domains: &Vec<String>, list: &Option<String>) -> (r: Vec<String>)
    ensures
        texts(r@) == all_targets(texts(domains@), optional_text(*list)),
{
    let mut r: Vec<String> = Vec::new();
    let ghost ds = texts(domains@);
    let mut i: usize = 0;
    assert(texts(r@) =~= ds.take(0));
    while i < domains.len()
        invariant
            i <= domains@.len(),
            ds == texts(domains@),
            texts(r@) == ds.take(i as int),
        decreases domains@.len() - i,
    {
        let ghost had = texts(r@);
        r.push(domains[i].as_str().to_owned());
        assert(texts(r@) =~= had.push(ds[i as int]));
        assert(ds.take(i + 1) =~= ds.take(i as int).push(ds[i as int]));
        i += 1;
    }
    assert(ds.take(i as int) =~= ds);
    match list {
        Some(t) => {
            let all = split_lines(t.as_str());
            let ghost ls = texts(all@);
            let mut k: usize = 0;
            assert(ds =~= ds + listed_targets(ls.take(0)));
            while k < all.len()
                invariant
                    k <= all@.len(),
                    ls == texts(all@),
                    texts(r@) == ds + listed_targets(ls.take(k as int)),
                decreases all@.len() - k,
            {
                assert(ls.take(k + 1).drop_last() =~= ls.take(k as int));
                assert(ls.take(k + 1).last() == all@[k as int]@);
                let l = trim(all[k].as_str());
                if !l.as_str().is_empty() && !starts_with(l.as_str(), "#") {
                    let ghost had = texts(r@);
                    let ghost lv = l@;
                    r.push(l);
                    assert(texts(r@) =~= had.push(lv));
                    assert(texts(r@) =~= ds + listed_targets(ls.take(k + 1)));
                }
                k += 1;
            }
            assert(ls.take(k as int) =~= ls);
        },
        None => {},
    }
    r
}

/// The complaint about a target that is no host or URL.
pub open spec fn pasted_complaint(t: Seq<char>) -> Seq<char> {
    "not a domain or URL: "@ + t
        + " (cookies go into --cookie \"n=v\", headers into --header \"N: V\")"@
}

/// The complaint about the first target that is almost certainly a mis-pasted
/// cookie or header.
pub open spec fn complaint(targets: Seq<Seq<char>>) -> Option<Seq<char>>
    decreases targets.len(),
{
    if targets.len() == 0 {
        None
    } else if pasted(targets[0]) {
        Some(pasted_complaint(targets[0]))
    } else {
        complaint(targets.skip(1))
    }
}

/// Looks for a target of the command line that is almost certainly a mis-pasted
/// cookie or header.
pub fn refused_target(targets: &Vec<String>) -> (r: Option<String>)
    ensures
        optional_text(r) == complaint(texts(targets@)),
{
    let ghost ts = texts(targets@);
    let mut i: usize = 0;
    assert(ts.skip(0) =~= ts);
    while i < targets.len()
        invariant
            i <= targets@.len(),
            ts == texts(targets@),
            complaint(ts) == complaint(ts.skip(i as int)),
        decreases targets@.len() - i,
    {
        let t = targets[i].as_str();
        assert(ts.skip(i as int)[0] == t@);
        assert(ts.skip(i as int).skip(1) =~= ts.skip(i + 1));
        if looks_like_pasted_value(t) {
            return Some(
                cat3(
                    "not a domain or URL: ",
                    t,
                    " (cookies go into --cookie \"n=v\", headers into --header \"N: V\")",
                ),
            );
        }
        i += 1;
    }
    None
}

/// The complaint about a command line without a target.
pub const NO_TARGET: &'static str = "provide a domain to scan, or a list via --targets <file>";

/// The targets to scan, or the complaint about them.
pub open spec fn chosen(domains: Seq<Seq<char>>, list: Option<Seq<char>>) -> Result<
    Seq<Seq<char>>,
    Seq<char>,
> {
    match complaint(domains) {
        Some(c) => Err(c),
        None => if all_targets(domains, list).len() == 0 {
            Err(NO_TARGET@)
        } else {
            Ok(all_targets(domains, list))
        },
    }
}

/// Resolves the targets to scan from those of the command line and the text of a
/// list.
pub fn choose_targets(domains: &Vec<String>, list: &Option<String>) -> (r: Result<
    Vec<String>,
    String,
>)
    ensures
        match r {
            Ok(t) => chosen(texts(domains@), optional_text(*list)) == Ok::<
                Seq<Seq<char>>,
                Seq<char>,
            >(texts(t@)),
            Err(e) => chosen(texts(domains@), optional_text(*list)) == Err::<
                Seq<Seq<char>>,
                Seq<char>,
            >(e@),
        },
{
    match refused_target(domains) {
        Some(c) => {
            return Err(c);
        },
        None => {},
    }
    let t = target_list(domains, list);
    assert(texts(t@).len() == t@.len());
    if t.len() == 0 {
        Err(NO_TARGET.to_owned())
    } else {
        Ok(t)
    }
}

// ---------------------------------------------------------------------------
// What is printed around a scan
// ---------------------------------------------------------------------------

/// Whether output is colored: on a terminal, unless that is switched off or the
/// output is for a machine.
pub open spec fn colored(no_color: bool, json: bool, terminal: bool) -> bool {
    terminal && !no_color && !json
}

/// Whether output is colored.
pub fn color_wanted(no_color: bool, json: bool, terminal: bool) -> (r: bool)
    ensures
        r == colored(no_color, json, terminal),
        r == (terminal && !no_color && !json),
{
    !no_color && !json && terminal
}

/// The line on the status of a page. It names the protocol, since hop-by-hop
/// headers exist in HTTP/1.1 but not 2, so the header count differs between
/// them.
pub open spec fn status_text(f: FetchedView) -> Seq<char> {
    let s = f.version + " "@ + decimal(f.status as nat);
    if f.redirected {
        s + "  (redirected to "@ + f.url + ")"@
    } else {
        s
    }
}

/// The line on the status of a page.
pub fn status_line(f: &Fetched) -> (r: String)
    ensures
        r@ == status_text(f@),
{
    let n = show(f.status as u64);
    let s = cat3(f.version.as_str(), " ", n.as_str());
    if f.redirected {
        cat4(s.as_str(), "  (redirected to ", f.url.as_str(), ")")
    } else {
        s
    }
}

/// The warning about a redirect from one host to another. The HTTP client drops
/// Authorization on a cross-origin redirect but not cookies or custom headers,
/// so credentials can still reach an unexpected host.
pub open spec fn redirect_warning_text(
    authenticated: bool,
    redirected: bool,
    from: Seq<char>,
    to: Seq<char>,
) -> Option<Seq<char>> {
    if authenticated && redirected && !same_ignoring_case(from, to) {
        Some(
            "  warning: redirected to a different host ("@ + to
                + "); cookies/custom headers may have been sent there"@,
        )
    } else {
        None
    }
}

/// The warning about a redirect from one host to another, if there is cause for
/// one.
pub fn warn_of_redirect(authenticated: bool, redirected: bool, from: &str, to: &str) -> (r: Option<
    String,
>)
    ensures
        optional_text(r) == redirect_warning_text(authenticated, redirected, from@, to@),
{
    if authenticated && redirected && !eq_ignore_case(from, to) {
        Some(
            cat3(
                "  warning: redirected to a different host (",
                to,
                "); cookies/custom headers may have been sent there",
            ),
        )
    } else {
        None
    }
}

/// The warning about a page that came from another host than the one that was
/// asked, if there is cause for one.
pub fn redirect_warning(authenticated: bool, host_asked: &str, f: &Fetched) -> (r: Option<String>)
    ensures
        optional_text(r) == redirect_warning_text(
            authenticated,
            f@.redirected,
            host_asked@,
            host(f@.url),
        ),
{
    let to = host_of(f.url.as_str());
    warn_of_redirect(authenticated, f.redirected, host_asked, to.as_str())
}

/// Whether there is cause to warn of credentials sent without encryption.
pub open spec fn sends_in_the_clear(authenticated: bool, url: Seq<char>) -> bool {
    authenticated && begins(url, "http://"@)
}

/// The warning about credentials sent without encryption, if there is cause for
/// one.
pub fn plaintext_warning(authenticated: bool, url: &str) -> (r: Option<&'static str>)
    ensures
        (r is Some) == sends_in_the_clear(authenticated, url@),
        (r is Some) == (authenticated && begins(url@, "http://"@)),
        r is Some ==> r->0@ == "  warning: sending credentials over plaintext http://"@,
{
    if authenticated && starts_with(url, "http://") {
        Some("  warning: sending credentials over plaintext http://")
    } else {
        None
    }
}

// ---------------------------------------------------------------------------
// Laws
// ---------------------------------------------------------------------------

/// With no check asked for, the default HTTP audit runs and nothing else.
pub proof fn law_default_audit(o: Options)
    requires
        !o.all,
        !o.selected(),
    ensures
        ({
            let p = planned(o);
            &&& p.headers && p.cookies && p.cors && p.disclosure && p.csp && p.hsts
            &&& !p.dns && !p.nmap && !p.vulners && !p.caching && !p.auth_check && !p.methods
        }),
{
}

/// With some checks asked for by name, those run and nothing else.
pub proof fn law_checks_run_when_asked_for(o: Options)
    requires
        !o.all,
        o.selected(),
    ensures
        ({
            let p = planned(o);
            &&& p.dns == o.dnsrecon && p.nmap == o.nmap && p.vulners == o.vulners
            &&& p.headers == o.headers && p.cookies == o.cookies && p.cors == o.cors
            &&& p.disclosure == o.disclosure && p.csp == o.csp && p.hsts == o.hsts
            &&& p.caching == o.caching && p.auth_check == o.auth_check && p.methods == o.methods
        }),
{
}

/// With everything asked for, every check runs.
pub proof fn law_all_runs_every_check(o: Options)
    requires
        o.all,
    ensures
        ({
            let p = planned(o);
            &&& p.dns && p.nmap && p.vulners && p.headers && p.cookies && p.cors
            &&& p.disclosure && p.csp && p.hsts && p.caching && p.auth_check && p.methods
        }),
{
}

proof fn lemma_pair_names_nonempty(pairs: Seq<Seq<char>>, i: int)
    requires
        0 <= i < pair_names(pairs).len(),
    ensures
        pair_names(pairs)[i].len() > 0,
    decreases pairs.len(),
{
    if i < pair_names(pairs.drop_last()).len() {
        lemma_pair_names_nonempty(pairs.drop_last(), i);
    }
}

/// No cookie name is empty.
pub proof fn law_no_cookie_name_is_empty(cookies: Seq<Seq<char>>, i: int)
    requires
        0 <= i < sent_names(cookies).len(),
    ensures
        sent_names(cookies)[i].len() > 0,
    decreases cookies.len(),
{
    let had = sent_names(cookies.drop_last());
    if i < had.len() {
        law_no_cookie_name_is_empty(cookies.drop_last(), i);
    } else {
        lemma_pair_names_nonempty(
            pieces(cookie_pairs(cookies.last()), CharSet::One(';')),
            i - had.len(),
        );
    }
}

/// No target of a list is blank or a comment.
pub proof fn law_listed_targets_are_targets(ls: Seq<Seq<char>>, i: int)
    requires
        0 <= i < listed_targets(ls).len(),
    ensures
        listed_targets(ls)[i].len() > 0,
        !begins(listed_targets(ls)[i], "#"@),
    decreases ls.len(),
{
    if i < listed_targets(ls.drop_last()).len() {
        law_listed_targets_are_targets(ls.drop_last(), i);
    }
}

/// A check runs when everything was asked for, when it was asked for itself, or,
/// for the six checks of the audit, when nothing was.
pub proof fn law_each_check_is_decided_alone(o: Options)
    ensures
        ({
            let p = planned(o);
            let audit = !(o.all || o.dnsrecon || o.nmap || o.vulners || o.headers || o.methods
                || o.csp || o.hsts || o.cookies || o.cors || o.disclosure || o.caching
                || o.auth_check);
            &&& p.headers <==> o.all || o.headers || audit
            &&& p.cookies <==> o.all || o.cookies || audit
            &&& p.cors <==> o.all || o.cors || audit
            &&& p.disclosure <==> o.all || o.disclosure || audit
            &&& p.csp <==> o.all || o.csp || audit
            &&& p.hsts <==> o.all || o.hsts || audit
            &&& p.dns <==> o.all || o.dnsrecon
            &&& p.nmap <==> o.all || o.nmap
            &&& p.vulners <==> o.all || o.vulners
            &&& p.caching <==> o.all || o.caching
            &&& p.auth_check <==> o.all || o.auth_check
            &&& p.methods <==> o.all || o.methods
            &&& p.active <==> o.active
            &&& p.reads_page() <==> p.headers || p.cookies || p.cors || p.disclosure || p.csp
                || p.hsts || p.caching || p.auth_check
        }),
{
}

/// Ports that were named win over all of them, and without either there is no
/// port spec.
pub proof fn law_named_ports_win(o: Options)
    ensures
        o.ports is Some ==> planned(o).port_spec == Some(o.ports->0@),
        o.ports is None && o.all_ports ==> planned(o).port_spec == Some("-"@),
        o.ports is None && !o.all_ports ==> planned(o).port_spec is None,
        planned(o).auth_cookies == sent_names(texts(o.cookie@)),
{
}

/// A run is authenticated exactly when something was given to send along, and
/// the summary names each such thing, in order, with the number of headers and
/// cookies.
pub proof fn law_credentials_are_summed_up(o: Options)
    ensures
        ({
            let bits = summary_bits(o);
            let headers = decimal(o.header@.len()) + " header(s)"@;
            let cookies = decimal(o.cookie@.len()) + " cookie(s)"@;
            let wanted = |b: Seq<char>|
                {
                    ||| b == headers && o.header@.len() > 0
                    ||| b == cookies && o.cookie@.len() > 0
                    ||| b == "bearer token"@ && o.bearer is Some
                    ||| b == "basic auth"@ && o.basic is Some
                    ||| b == "custom UA"@ && o.user_agent is Some
                };
            &&& o.sends_credentials() <==> bits.len() > 0
            &&& o.header@.len() > 0 ==> bits.contains(headers)
            &&& o.cookie@.len() > 0 ==> bits.contains(cookies)
            &&& o.bearer is Some ==> bits.contains("bearer token"@)
            &&& o.basic is Some ==> bits.contains("basic auth"@)
            &&& o.user_agent is Some ==> bits.contains("custom UA"@)
            &&& forall|i: int| 0 <= i < bits.len() ==> wanted(#[trigger] bits[i])
            &&& bits.len() == (if o.header@.len() > 0 {
                1int
            } else {
                0
            }) + (if o.cookie@.len() > 0 {
                1int
            } else {
                0
            }) + (if o.bearer is Some {
                1int
            } else {
                0
            }) + (if o.basic is Some {
                1int
            } else {
                0
            }) + (if o.user_agent is Some {
                1int
            } else {
                0
            })
            &&& o.header@.len() > 0 ==> bits[0] == headers
            &&& o.user_agent is Some ==> bits.last() == "custom UA"@
        }),
{
    let bits = summary_bits(o);
    let headers = decimal(o.header@.len()) + " header(s)"@;
    let cookies = decimal(o.cookie@.len()) + " cookie(s)"@;
    let a = bit(o.header@.len() > 0, headers);
    let b = bit(o.cookie@.len() > 0, cookies);
    let c = bit(o.bearer is Some, "bearer token"@);
    let d = bit(o.basic is Some, "basic auth"@);
    let e = bit(o.user_agent is Some, "custom UA"@);
    if o.header@.len() > 0 {
        assert(bits[0] == headers);
    }
    if o.cookie@.len() > 0 {
        assert(bits[a.len() as int] == cookies);
    }
    if o.bearer is Some {
        assert(bits[(a.len() + b.len()) as int] == "bearer token"@);
    }
    if o.basic is Some {
        assert(bits[(a.len() + b.len() + c.len()) as int] == "basic auth"@);
    }
    if o.user_agent is Some {
        assert(bits[(a.len() + b.len() + c.len() + d.len()) as int] == "custom UA"@);
    }
}

/// Each cookie string adds the names in its pairs behind those before it, once a
/// pasted `Cookie:` is gone; a pair adds what stands before its equals sign, if
/// that is not blank.
pub proof fn law_every_sent_cookie_is_named(
    cookies: Seq<Seq<char>>,
    c: Seq<char>,
    pairs: Seq<Seq<char>>,
    p: Seq<char>,
)
    ensures
        ({
            let none = Seq::<Seq<char>>::empty();
            let name = trimmed(head(p, '='));
            &&& sent_names(none) == none
            &&& pair_names(none) == none
            &&& sent_names(cookies.push(c)) == sent_names(cookies) + pair_names(
                pieces(cookie_pairs(c), CharSet::One(';')),
            )
            &&& pair_names(pairs.push(p)) == (if name.len() == 0 {
                pair_names(pairs)
            } else {
                pair_names(pairs).push(name)
            })
        }),
{
    assert(cookies.push(c).drop_last() =~= cookies);
    assert(pairs.push(p).drop_last() =~= pairs);
}

/// The targets of the command line come first and as they are; each line of a
/// list adds its target behind them, trimmed, unless it is blank or a comment.
pub proof fn law_every_target_is_listed(
    domains: Seq<Seq<char>>,
    text: Seq<char>,
    ls: Seq<Seq<char>>,
    l: Seq<char>,
)
    ensures
        ({
            let t = trimmed(l);
            let none = Seq::<Seq<char>>::empty();
            &&& all_targets(domains, None) == domains
            &&& all_targets(domains, Some(text)) == domains + listed_targets(lines(text))
            &&& listed_targets(none) == none
            &&& listed_targets(ls.push(l)) == (if t.len() == 0 || t[0] == '#' {
                listed_targets(ls)
            } else {
                listed_targets(ls).push(t)
            })
        }),
{
    reveal_strlit("#");
    let t = trimmed(l);
    assert(ls.push(l).drop_last() =~= ls);
    if t.len() > 0 {
        assert(t.take(1)[0] == t[0]);
        if t[0] == '#' {
            assert(t.take(1) =~= "#"@);
        }
    }
}

proof fn lemma_complaint(targets: Seq<Seq<char>>)
    ensures
        match complaint(targets) {
            Some(c) => exists|i: int|
                0 <= i < targets.len() && pasted(#[trigger] targets[i]) && c
                    == "not a domain or URL: "@ + targets[i]
                    + " (cookies go into --cookie \"n=v\", headers into --header \"N: V\")"@
                    && forall|j: int| 0 <= j < i ==> !pasted(#[trigger] targets[j]),
            None => forall|i: int| 0 <= i < targets.len() ==> !pasted(#[trigger] targets[i]),
        },
    decreases targets.len(),
{
    if targets.len() > 0 {
        let rest = targets.skip(1);
        lemma_complaint(rest);
        if pasted(targets[0]) {
            assert(complaint(targets) == Some(pasted_complaint(targets[0])));
        } else {
            match complaint(rest) {
                Some(c) => {
                    let i = choose|i: int|
                        0 <= i < rest.len() && pasted(#[trigger] rest[i]) && c
                            == "not a domain or URL: "@ + rest[i]
                            + " (cookies go into --cookie \"n=v\", headers into --header \"N: V\")"@
                            && forall|j: int| 0 <= j < i ==> !pasted(#[trigger] rest[j]);
                    assert(targets[i + 1] == rest[i]);
                    assert forall|j: int| 0 <= j < i + 1 implies !pasted(#[trigger] targets[j]) by {
                        if j > 0 {
                            assert(!pasted(rest[j - 1]));
                        }
                    }
                },
                None => {
                    assert forall|i: int| 0 <= i < targets.len() implies !pasted(
                        #[trigger] targets[i],
                    ) by {
                        if i > 0 {
                            assert(!pasted(rest[i - 1]));
                        }
                    }
                },
            }
        }
    }
}

/// Targets are refused exactly when one of the command line cannot be a host or
/// URL, of which the first is named, or when there is none at all.
pub proof fn law_targets_are_chosen(domains: Seq<Seq<char>>, list: Option<Seq<char>>)
    ensures
        ({
            let all = all_targets(domains, list);
            let sound = forall|i: int| 0 <= i < domains.len() ==> !pasted(#[trigger] domains[i]);
            &&& sound && all.len() > 0 ==> chosen(domains, list) == Ok::<
                Seq<Seq<char>>,
                Seq<char>,
            >(all)
            &&& sound && all.len() == 0 ==> chosen(domains, list) == Err::<
                Seq<Seq<char>>,
                Seq<char>,
            >("provide a domain to scan, or a list via --targets <file>"@)
            &&& forall|i: int|
                0 <= i < domains.len() && pasted(#[trigger] domains[i]) && (forall|j: int|
                    0 <= j < i ==> !pasted(#[trigger] domains[j])) ==> chosen(domains, list) == Err::<
                    Seq<Seq<char>>,
                    Seq<char>,
                >(
                    "not a domain or URL: "@ + domains[i]
                        + " (cookies go into --cookie \"n=v\", headers into --header \"N: V\")"@,
                )
        }),
{
    lemma_complaint(domains);
    match complaint(domains) {
        Some(c) => {
            let k = choose|k: int|
                0 <= k < domains.len() && pasted(#[trigger] domains[k]) && c
                    == "not a domain or URL: "@ + domains[k]
                    + " (cookies go into --cookie \"n=v\", headers into --header \"N: V\")"@
                    && forall|j: int| 0 <= j < k ==> !pasted(#[trigger] domains[j]);
            assert forall|i: int|
                0 <= i < domains.len() && pasted(#[trigger] domains[i]) && (forall|j: int|
                    0 <= j < i ==> !pasted(#[trigger] domains[j])) implies i == k by {
                assert(!(i < k) && !(k < i));
            }
        },
        None => {},
    }
}

/// The status of a page is told with its protocol, and with where it came from
/// if that is not where it was asked for. A redirect to another host is warned
/// of exactly when credentials may have gone along.
pub proof fn law_a_page_is_announced(
    f: FetchedView,
    authenticated: bool,
    redirected: bool,
    from: Seq<char>,
    to: Seq<char>,
)
    ensures
        !f.redirected ==> status_text(f) == f.version + " "@ + decimal(f.status as nat),
        f.redirected ==> status_text(f) == f.version + " "@ + decimal(f.status as nat)
            + "  (redirected to "@ + f.url + ")"@,
        redirect_warning_text(authenticated, redirected, from, to) is Some <==> authenticated
            && redirected && !same_ignoring_case(from, to),
        redirect_warning_text(authenticated, redirected, from, to) is Some
            ==> redirect_warning_text(authenticated, redirected, from, to)->0
            == "  warning: redirected to a different host ("@ + to
            + "); cookies/custom headers may have been sent there"@,
{
}

/// Color needs a terminal, and is off for a machine or on request; credentials
/// that go to an http URL are warned of, and no others.
pub proof fn law_color_and_plaintext(no_color: bool, json: bool, terminal: bool, rest: Seq<char>)
    ensures
        colored(false, false, true),
        colored(no_color, json, terminal) ==> terminal && !no_color && !json,
        sends_in_the_clear(true, "http://"@ + rest),
        !sends_in_the_clear(true, "https://"@ + rest),
        !sends_in_the_clear(false, "http://"@ + rest),
{
    reveal_strlit("http://");
    reveal_strlit("https://");
    assert(("http://"@ + rest).take(7) =~= "http://"@);
    let s = "https://"@ + rest;
    if begins(s, "http://"@) {
        assert(s.take(7)[4] == 's');
    }
}

} // verus!
