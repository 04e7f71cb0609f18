//! What a response gives away about the server and its framework.

use crate::checks::headers::{header_line, show_header};
use crate::checks::set_cookie::{
    assigned, attribute_value, attributes, attributes_of, cookie_name, law_the_first_value_counts,
    name_of, value_of,
};
use crate::fields::optional_text;
use crate::order::{
    items, law_sorting_keeps_every_item, law_sorting_orders, precedes, sort_items, sorted, Item,
};
use crate::response::{optional_pair, Fetched, FetchedView};
use crate::section::{bad_line, good_line, section, Section, SectionView};
use crate::style::{dim, dimmed, magentaed, Style};
use crate::text::{
    any_same_ignoring_case, cat2, contains, ends, ends_with, eq_ignore_case, has_text_ignoring_case,
    head, includes, join, joined, lowered, same, same_ignoring_case, strip_front, strip_start,
    texts, to_lowercase, trimmed, CharSet,
};
use crate::url::{host, host_of};
use vstd::prelude::*;
use vstd::string::*;

verus! {

/// The headers that name the server or the framework.
pub const TELLING_HEADERS: [&'static str; 6] = [
    "server",
    "x-powered-by",
    "x-aspnet-version",
    "x-aspnetmvc-version",
    "x-generator",
    "via",
];

/// What the name of a cookie holds, and the stack that it names.
pub const FRAMEWORK_COOKIES: [(&'static str, &'static str); 12] = [
    ("asp.net_sessionid", "ASP.NET"),
    (".aspnetcore.", "ASP.NET Core"),
    (".aspnet.", "ASP.NET"),
    (".mvc.", "ASP.NET Core MVC"),
    ("arraffinity", "Azure App Service"),
    ("phpsessid", "PHP"),
    ("jsessionid", "Java"),
    ("laravel_session", "Laravel"),
    ("ci_session", "CodeIgniter"),
    ("connect.sid", "Express"),
    ("_rails_session", "Rails"),
    ("django", "Django"),
];

// ---------------------------------------------------------------------------
// Headers
// ---------------------------------------------------------------------------

/// The lines that show the first `n` of the telling headers.
pub open spec fn telling_lines(st: Style, f: FetchedView, n: nat) -> Seq<Seq<char>>
    decreases n,
{
    if n == 0 {
        Seq::empty()
    } else {
        let had = telling_lines(st, f, (n - 1) as nat);
        let name = TELLING_HEADERS@[n - 1]@;
        match f.get(name) {
            Some(v) => had.push(header_line(st, name, v)),
            None => had,
        }
    }
}

// ---------------------------------------------------------------------------
// Cookies
// ---------------------------------------------------------------------------

/// Whether a cookie domain is the scanned host or a parent of it.
pub open spec fn covers(domain: Seq<char>, host: Seq<char>) -> bool {
    same_ignoring_case(host, domain) || ends(lowered(host), "."@ + lowered(domain))
}

/// The domain that a Set-Cookie line names outside the scanned host. A parent
/// of the host (example.com for app.example.com) is ordinary scoping.
pub open spec fn foreign_domain(line: Seq<char>, host: Seq<char>) -> Option<Seq<char>> {
    match attribute_value(attributes(line), "domain"@) {
        Some(v) => {
            let d = strip_start(v, CharSet::One('.'));
            if covers(d, host) {
                None
            } else {
                Some(d)
            }
        },
        None => None,
    }
}

/// The distinct domains outside the scanned host.
pub open spec fn backends(lines: Seq<Seq<char>>, host: Seq<char>) -> Seq<Seq<char>>
    decreases lines.len(),
{
    if lines.len() == 0 {
        Seq::empty()
    } else {
        let had = backends(lines.drop_last(), host);
        match foreign_domain(lines.last(), host) {
            Some(d) => if has_text_ignoring_case(had, d) {
                had
            } else {
                had.push(d)
            },
            None => had,
        }
    }
}

/// The stack that a cookie name in lower case names, with what names it, looking
/// from entry `i` of the table on.
pub open spec fn stack_from(name: Seq<char>, i: int) -> Option<Item>
    decreases 12 - i,
{
    if i < 0 || i >= 12 {
        None
    } else if includes(name, FRAMEWORK_COOKIES@[i].0@) {
        Some((FRAMEWORK_COOKIES@[i].1@, FRAMEWORK_COOKIES@[i].0@))
    } else {
        stack_from(name, i + 1)
    }
}

/// The stack that a Set-Cookie line names.
pub open spec fn stack_named(line: Seq<char>) -> Option<Item> {
    stack_from(lowered(cookie_name(line)), 0)
}

/// Whether a stack is among those found.
pub open spec fn has_stack(found: Seq<Item>, stack: Seq<char>) -> bool {
    exists|i: int| 0 <= i < found.len() && (#[trigger] found[i]).0 == stack
}

/// The distinct stacks that the cookies name.
pub open spec fn stacks(lines: Seq<Seq<char>>) -> Seq<Item>
    decreases lines.len(),
{
    if lines.len() == 0 {
        Seq::empty()
    } else {
        let had = stacks(lines.drop_last());
        match stack_named(lines.last()) {
            Some(s) => if has_stack(had, s.0) {
                had
            } else {
                had.push(s)
            },
            None => had,
        }
    }
}

/// The names among some items.
pub open spec fn item_names(s: Seq<Item>) -> Seq<Seq<char>> {
    Seq::new(s.len(), |i: int| s[i].0)
}

/// The lines on some backends.
pub open spec fn backend_lines(st: Style, bs: Seq<Seq<char>>) -> Seq<Seq<char>> {
    Seq::new(
        bs.len(),
        |i: int| bad_line(st, "backend host in cookie Domain: "@ + dimmed(st, bs[i])),
    )
}

/// The lines on some stacks.
pub open spec fn stack_lines(st: Style, found: Seq<Item>) -> Seq<Seq<char>> {
    if found.len() == 0 {
        Seq::empty()
    } else {
        seq![
            bad_line(
                st,
                "cookie names reveal "@ + joined(item_names(sorted(found)), ", "@),
            ),
        ]
    }
}

// ---------------------------------------------------------------------------
// The section
// ---------------------------------------------------------------------------

/// What is disclosed, given the host that was scanned.
pub open spec fn disclosed(f: FetchedView, host: Seq<char>, st: Style) -> Seq<Seq<char>> {
    let lines = f.get_all("set-cookie"@);
    telling_lines(st, f, 6) + backend_lines(st, backends(lines, host)) + stack_lines(
        st,
        stacks(lines),
    )
}

/// The section on disclosure, given the host that was scanned.
pub open spec fn disclosure_section(f: FetchedView, host: Seq<char>, st: Style) -> SectionView {
    section(
        "Information disclosure"@,
        if disclosed(f, host, st).len() == 0 {
            seq![good_line(st, "no server/framework headers disclosed"@)]
        } else {
            disclosed(f, host, st)
        },
    )
}

fn foreign_domain_of(line: &str, host: &str) -> (r: Option<String>)
    ensures
        optional_text(r) == foreign_domain(line@, host@),
{
    let attrs = attributes_of(line);
    match value_of(&attrs, "domain") {
        Some(v) => {
            let d = strip_front(v.as_str(), CharSet::One('.'));
            let h = to_lowercase(host);
            let low = to_lowercase(d.as_str());
            let parent = cat2(".", low.as_str());
            if eq_ignore_case(host, d.as_str()) || ends_with(h.as_str(), parent.as_str()) {
                None
            } else {
                Some(d)
            }
        },
        None => None,
    }
}

fn backends_of(lines: &Vec<String>, host: &str) -> (r: Vec<String>)
    ensures
        texts(r@) == backends(texts(lines@), host@),
{
    let ghost ls = texts(lines@);
    let mut r: Vec<String> = Vec::new();
    let mut i: usize = 0;
    assert(texts(r@) =~= backends(ls.take(0), host@));
    while i < lines.len()
        invariant
            i <= lines@.len(),
            ls == texts(lines@),
            texts(r@) == backends(ls.take(i as int), host@),
        decreases lines@.len() - i,
    {
        assert(ls.take(i + 1).drop_last() =~= ls.take(i as int));
        assert(ls.take(i + 1).last() == lines@[i as int]@);
        match foreign_domain_of(lines[i].as_str(), host) {
            Some(d) => {
                if !any_same_ignoring_case(&r, d.as_str()) {
                    let ghost had = r@;
                    let ghost dv = d@;
                    r.push(d);
                    assert(texts(r@) =~= texts(had).push(dv));
                }
            },
            None => {},
        }
        i += 1;
    }
    assert(ls.take(i as int) =~= ls);
    r
}

fn stack_of(line: &str) -> (r: Option<(String, String)>)
    ensures
        optional_pair(r) == stack_named(line@),
{
    let name = name_of(line);
    let name = to_lowercase(name.as_str());
    let table = FRAMEWORK_COOKIES;
    let mut i: usize = 0;
    while i < 12
        invariant
            i <= 12,
            table == FRAMEWORK_COOKIES,
            name@ == lowered(cookie_name(line@)),
            stack_named(line@) == stack_from(name@, i as int),
        decreases 12 - i,
    {
        let key: &str = table[i].0;
        if contains(name.as_str(), key) {
            return Some((table[i].1.to_owned(), key.to_owned()));
        }
        i += 1;
    }
    None
}

fn any_stack(found: &Vec<(String, String)>, stack: &str) -> (r: bool)
    ensures
        r == has_stack(items(found@), stack@),
{
    let ghost fs = items(found@);
    let mut i: usize = 0;
    while i < found.len()
        invariant
            i <= found@.len(),
            fs == items(found@),
            forall|j: int| 0 <= j < i ==> (#[trigger] fs[j]).0 != stack@,
        decreases found@.len() - i,
    {
        assert(fs[i as int].0 == found@[i as int].0@);
        if same(found[i].0.as_str(), stack) {
            return true;
        }
        i += 1;
    }
    false
}

fn stacks_of(lines: &Vec<String>) -> (r: Vec<(String, String)>)
    ensures
        items(r@) == stacks(texts(lines@)),
{
    let ghost ls = texts(lines@);
    let mut r: Vec<(String, String)> = Vec::new();
    let mut i: usize = 0;
    assert(items(r@) =~= stacks(ls.take(0)));
    while i < lines.len()
        invariant
            i <= lines@.len(),
            ls == texts(lines@),
            items(r@) == stacks(ls.take(i as int)),
        decreases lines@.len() - i,
    {
        assert(ls.take(i + 1).drop_last() =~= ls.take(i as int));
        assert(ls.take(i + 1).last() == lines@[i as int]@);
        match stack_of(lines[i].as_str()) {
            Some(s) => {
                if !any_stack(&r, s.0.as_str()) {
                    let ghost had = items(r@);
                    let ghost sv = (s.0@, s.1@);
                    r.push(s);
                    assert(items(r@) =~= had.push(sv));
                }
            },
            None => {},
        }
        i += 1;
    }
    assert(ls.take(i as int) =~= ls);
    r
}

fn names_of(v: &Vec<(String, String)>) -> (r: Vec<String>)
    ensures
        texts(r@) == item_names(items(v@)),
{
    let mut r: Vec<String> = Vec::new();
    let mut i: usize = 0;
    while i < v.len()
        invariant
            i <= v@.len(),
            r@.len() == i,
            forall|j: int| 0 <= j < i ==> (#[trigger] r@[j])@ == v@[j].0@,
        decreases v@.len() - i,
    {
        r.push(v[i].0.as_str().to_owned());
        i += 1;
    }
    assert(texts(r@) =~= item_names(items(v@)));
    r
}

fn tell_headers(st: Style, sec: &mut Section, f: &Fetched)
    ensures
        final(sec)@ == old(sec)@.with_all(telling_lines(st, f@, 6)),
{
    let ghost start = sec@;
    let table = TELLING_HEADERS;
    let mut i: usize = 0;
    assert(sec@.lines =~= start.lines + telling_lines(st, f@, 0));
    while i < 6
        invariant
            i <= 6,
            table == TELLING_HEADERS,
            sec@.title == start.title,
            sec@.lines == start.lines + telling_lines(st, f@, i as nat),
        decreases 6 - i,
    {
        let name: &str = table[i];
        match f.get(name) {
            Some(v) => {
                let l = show_header(st, name, v.as_str());
                sec.text(l.as_str());
                assert(sec@.lines =~= start.lines + telling_lines(st, f@, (i + 1) as nat));
            },
            None => {},
        }
        i += 1;
    }
}

fn tell_backends(st: Style, sec: &mut Section, bs: &Vec<String>)
    ensures
        final(sec)@ == old(sec)@.with_all(backend_lines(st, texts(bs@))),
{
    let ghost start = sec@;
    let ghost all = backend_lines(st, texts(bs@));
    let mut i: usize = 0;
    assert(sec@.lines =~= start.lines + all.take(0));
    while i < bs.len()
        invariant
            i <= bs@.len(),
            all == backend_lines(st, texts(bs@)),
            sec@.title == start.title,
            sec@.lines == start.lines + all.take(i as int),
        decreases bs@.len() - i,
    {
        let d = dim(st, bs[i].as_str());
        let t = cat2("backend host in cookie Domain: ", d.as_str());
        sec.bad(st, t.as_str());
        assert(sec@.lines =~= start.lines + all.take(i + 1));
        i += 1;
    }
    assert(all.take(i as int) =~= all);
}

/// What a response gives away, given the host that was scanned. Cookies leak
/// too: a Domain attribute can name the backend origin behind a proxy or custom
/// domain, and the cookie name often names the stack. The distinct facts are
/// collected rather than repeated once per cookie.
pub fn disclosure_on(f: &Fetched, host: &str, st: Style) -> (r: Section)
    ensures
        r@ == disclosure_section(f@, host@, st),
{
    let mut sec = Section::new("Information disclosure");
    let lines = f.get_all("set-cookie");
    tell_headers(st, &mut sec, f);
    let bs = backends_of(&lines, host);
    tell_backends(st, &mut sec, &bs);
    let found = stacks_of(&lines);
    assert(items(found@).len() == found@.len());
    let ghost upper = sec@.lines;
    if found.len() > 0 {
        let ordered = sort_items(&found);
        let names = names_of(&ordered);
        let t = join(&names, ", ");
        let t = cat2("cookie names reveal ", t.as_str());
        sec.bad(st, t.as_str());
    }
    assert(sec@.lines =~= upper + stack_lines(st, items(found@)));
    assert(sec@.lines =~= disclosed(f@, host@, st));
    if sec.lines.len() == 0 {
        sec.good(st, "no server/framework headers disclosed");
        assert(sec@.lines =~= seq![good_line(st, "no server/framework headers disclosed"@)]);
    } else {
        assert(sec@.lines.len() > 0);
    }
    sec
}

/// What a response gives away about the server and its framework.
pub fn disclosure(f: &Fetched, st: Style) -> (r: Section)
    ensures
        r@ == disclosure_section(f@, host(f@.url), st),
{
    let h = host_of(f.url.as_str());
    disclosure_on(f, h.as_str(), st)
}

// ---------------------------------------------------------------------------
// Laws
// ---------------------------------------------------------------------------

/// No domain is reported twice, whatever its case.
pub proof fn law_backends_are_distinct(lines: Seq<Seq<char>>, host: Seq<char>, i: int, j: int)
    requires
        0 <= i < j < backends(lines, host).len(),
    ensures
        !same_ignoring_case(backends(lines, host)[i], backends(lines, host)[j]),
    decreases lines.len(),
{
    let had = backends(lines.drop_last(), host);
    let all = backends(lines, host);
    if j < had.len() {
        law_backends_are_distinct(lines.drop_last(), host, i, j);
    } else {
        assert(all[i] == had[i]);
        assert(!has_text_ignoring_case(had, all[j]));
    }
}

/// No stack is reported twice.
pub proof fn law_stacks_are_distinct(lines: Seq<Seq<char>>, i: int, j: int)
    requires
        0 <= i < j < stacks(lines).len(),
    ensures
        stacks(lines)[i].0 != stacks(lines)[j].0,
    decreases lines.len(),
{
    let had = stacks(lines.drop_last());
    let all = stacks(lines);
    if j < had.len() {
        law_stacks_are_distinct(lines.drop_last(), i, j);
    } else {
        assert(all[i] == had[i]);
        assert(!has_stack(had, all[j].0));
    }
}

/// The scanned host is never reported as a backend of itself.
pub proof fn law_own_host_is_no_backend(lines: Seq<Seq<char>>, host: Seq<char>, i: int)
    requires
        0 <= i < backends(lines, host).len(),
    ensures
        !covers(backends(lines, host)[i], host),
    decreases lines.len(),
{
    let had = backends(lines.drop_last(), host);
    if i < had.len() {
        law_own_host_is_no_backend(lines.drop_last(), host, i);
    }
}

proof fn lemma_telling(st: Style, f: FetchedView, n: nat, k: int)
    requires
        0 <= k < n <= 6,
        f.get(TELLING_HEADERS@[k]@) is Some,
    ensures
        telling_lines(st, f, n).contains(
            header_line(st, TELLING_HEADERS@[k]@, f.get(TELLING_HEADERS@[k]@)->0),
        ),
    decreases n,
{
    let x = header_line(st, TELLING_HEADERS@[k]@, f.get(TELLING_HEADERS@[k]@)->0);
    let all = telling_lines(st, f, n);
    if k == n - 1 {
        assert(all.last() == x);
    } else {
        lemma_telling(st, f, (n - 1) as nat, k);
        let had = telling_lines(st, f, (n - 1) as nat);
        let i = choose|i: int| 0 <= i < had.len() && had[i] == x;
        assert(all[i] == x);
    }
}

/// Each of the six headers that name the server or its framework is shown with
/// its value, if the response has it.
pub proof fn law_telling_headers_are_shown(
    f: FetchedView,
    host: Seq<char>,
    st: Style,
    name: Seq<char>,
    v: Seq<char>,
)
    requires
        name == "server"@ || name == "x-powered-by"@ || name == "x-aspnet-version"@ || name
            == "x-aspnetmvc-version"@ || name == "x-generator"@ || name == "via"@,
        f.get(name) == Some(v),
    ensures
        disclosure_section(f, host, st).title == "Information disclosure"@,
        disclosure_section(f, host, st).lines.contains(
            "  "@ + magentaed(st, name) + ": "@ + dimmed(st, v),
        ),
{
    let t = TELLING_HEADERS@;
    assert(t[0]@ == "server"@ && t[1]@ == "x-powered-by"@ && t[2]@ == "x-aspnet-version"@);
    assert(t[3]@ == "x-aspnetmvc-version"@ && t[4]@ == "x-generator"@ && t[5]@ == "via"@);
    let k = choose|k: int| 0 <= k < 6 && #[trigger] t[k]@ == name;
    lemma_telling(st, f, 6, k);
    let x = header_line(st, name, v);
    let shown = telling_lines(st, f, 6);
    let i = choose|i: int| 0 <= i < shown.len() && shown[i] == x;
    assert(disclosed(f, host, st)[i] == x);
}

proof fn lemma_backend_there(lines: Seq<Seq<char>>, host: Seq<char>, i: int)
    requires
        0 <= i < lines.len(),
        foreign_domain(lines[i], host) is Some,
    ensures
        exists|k: int|
            0 <= k < backends(lines, host).len() && same_ignoring_case(
                #[trigger] backends(lines, host)[k],
                foreign_domain(lines[i], host)->0,
            ),
    decreases lines.len(),
{
    let d = foreign_domain(lines[i], host)->0;
    let had = backends(lines.drop_last(), host);
    let all = backends(lines, host);
    if i == lines.len() - 1 {
        if has_text_ignoring_case(had, d) {
            let k = choose|k: int| 0 <= k < had.len() && same_ignoring_case(#[trigger] had[k], d);
            assert(all[k] == had[k]);
        } else {
            assert(same_ignoring_case(all[all.len() - 1], d));
        }
    } else {
        lemma_backend_there(lines.drop_last(), host, i);
        let k = choose|k: int| 0 <= k < had.len() && same_ignoring_case(#[trigger] had[k], d);
        assert(all[k] == had[k]);
    }
}

proof fn lemma_backend_from(lines: Seq<Seq<char>>, host: Seq<char>, k: int)
    requires
        0 <= k < backends(lines, host).len(),
    ensures
        exists|i: int|
            0 <= i < lines.len() && foreign_domain(#[trigger] lines[i], host) == Some(
                backends(lines, host)[k],
            ),
    decreases lines.len(),
{
    let had = backends(lines.drop_last(), host);
    if k < had.len() {
        lemma_backend_from(lines.drop_last(), host, k);
        let i = choose|i: int|
            0 <= i < lines.drop_last().len() && foreign_domain(
                #[trigger] lines.drop_last()[i],
                host,
            ) == Some(had[k]);
        assert(lines[i] == lines.drop_last()[i]);
    } else {
        assert(lines[lines.len() - 1] == lines.last());
    }
}

/// Whether a domain lies outside a host: it is neither the host itself nor a
/// parent of it, up to case.
pub open spec fn lies_outside(domain: Seq<char>, host: Seq<char>) -> bool {
    !same_ignoring_case(host, domain) && !ends(lowered(host), "."@ + lowered(domain))
}

/// A cookie whose Domain, without the dots before it, lies outside the scanned
/// host gives that domain away: some line names it, up to case. A domain that
/// covers the host is no such thing.
pub proof fn law_foreign_domains_are_told(
    f: FetchedView,
    host: Seq<char>,
    st: Style,
    i: int,
    v: Seq<char>,
)
    requires
        0 <= i < f.get_all("set-cookie"@).len(),
        assigned(f.get_all("set-cookie"@)[i], "domain"@, Some(v)),
    ensures
        ({
            let line = f.get_all("set-cookie"@)[i];
            let d = strip_start(v, CharSet::One('.'));
            let all = disclosure_section(f, host, st).lines;
            &&& lies_outside(d, host) ==> exists|k: int, e: Seq<char>|
                0 <= k < all.len() && #[trigger] all[k] == bad_line(
                    st,
                    "backend host in cookie Domain: "@ + dimmed(st, e),
                ) && #[trigger] same_ignoring_case(e, d)
            &&& lies_outside(d, host) <==> foreign_domain(line, host) == Some(d)
            &&& !lies_outside(d, host) ==> foreign_domain(line, host) is None
        }),
{
    let set = f.get_all("set-cookie"@);
    let line = set[i];
    let d = strip_start(v, CharSet::One('.'));
    law_the_first_value_counts(line, "domain"@, Some(v));
    if lies_outside(d, host) {
        lemma_backend_there(set, host, i);
        let bs = backends(set, host);
        let k = choose|k: int| 0 <= k < bs.len() && same_ignoring_case(#[trigger] bs[k], d);
        let n = telling_lines(st, f, 6).len();
        let all = disclosure_section(f, host, st).lines;
        assert(all[n + k] == bad_line(
            st,
            "backend host in cookie Domain: "@ + dimmed(st, bs[k]),
        ));
    }
}

/// Each cookie name is matched with the stacks that it may name in the order of
/// the table, and the first match counts.
pub proof fn law_stacks_are_known(line: Seq<char>)
    ensures
        ({
            let n = lowered(trimmed(head(line, '=')));
            let first = |s: Seq<char>| stack_named(line) is Some && (stack_named(line)->0).0 == s;
            if includes(n, "asp.net_sessionid"@) {
                first("ASP.NET"@)
            } else if includes(n, ".aspnetcore."@) {
                first("ASP.NET Core"@)
            } else if includes(n, ".aspnet."@) {
                first("ASP.NET"@)
            } else if includes(n, ".mvc."@) {
                first("ASP.NET Core MVC"@)
            } else if includes(n, "arraffinity"@) {
                first("Azure App Service"@)
            } else if includes(n, "phpsessid"@) {
                first("PHP"@)
            } else if includes(n, "jsessionid"@) {
                first("Java"@)
            } else if includes(n, "laravel_session"@) {
                first("Laravel"@)
            } else if includes(n, "ci_session"@) {
                first("CodeIgniter"@)
            } else if includes(n, "connect.sid"@) {
                first("Express"@)
            } else if includes(n, "_rails_session"@) {
                first("Rails"@)
            } else if includes(n, "django"@) {
                first("Django"@)
            } else {
                stack_named(line) is None
            }
        }),
{
    reveal_with_fuel(stack_from, 13);
    let t = FRAMEWORK_COOKIES@;
    assert(t[0] == ("asp.net_sessionid", "ASP.NET") && t[1] == (".aspnetcore.", "ASP.NET Core"));
    assert(t[2] == (".aspnet.", "ASP.NET") && t[3] == (".mvc.", "ASP.NET Core MVC"));
    assert(t[4] == ("arraffinity", "Azure App Service") && t[5] == ("phpsessid", "PHP"));
    assert(t[6] == ("jsessionid", "Java") && t[7] == ("laravel_session", "Laravel"));
    assert(t[8] == ("ci_session", "CodeIgniter") && t[9] == ("connect.sid", "Express"));
    assert(t[10] == ("_rails_session", "Rails") && t[11] == ("django", "Django"));
}

proof fn lemma_stack_there(lines: Seq<Seq<char>>, i: int)
    requires
        0 <= i < lines.len(),
        stack_named(lines[i]) is Some,
    ensures
        has_stack(stacks(lines), (stack_named(lines[i])->0).0),
    decreases lines.len(),
{
    let s = (stack_named(lines[i])->0).0;
    let had = stacks(lines.drop_last());
    let all = stacks(lines);
    if i == lines.len() - 1 {
        if has_stack(had, s) {
            let k = choose|k: int| 0 <= k < had.len() && (#[trigger] had[k]).0 == s;
            assert(all[k].0 == s);
        } else {
            assert(all[all.len() - 1].0 == s);
        }
    } else {
        lemma_stack_there(lines.drop_last(), i);
        let k = choose|k: int| 0 <= k < had.len() && (#[trigger] had[k]).0 == s;
        assert(all[k].0 == s);
    }
}

proof fn lemma_stack_from_line(lines: Seq<Seq<char>>, k: int)
    requires
        0 <= k < stacks(lines).len(),
    ensures
        exists|i: int|
            0 <= i < lines.len() && stack_named(#[trigger] lines[i]) == Some(stacks(lines)[k]),
    decreases lines.len(),
{
    let had = stacks(lines.drop_last());
    if k < had.len() {
        lemma_stack_from_line(lines.drop_last(), k);
        let i = choose|i: int|
            0 <= i < lines.drop_last().len() && stack_named(#[trigger] lines.drop_last()[i])
                == Some(had[k]);
        assert(lines[i] == lines.drop_last()[i]);
    } else {
        assert(lines[lines.len() - 1] == lines.last());
    }
}

/// The stacks that the cookie names give away are told in one line at the end,
/// in the order of the alphabet: every stack that some cookie names, and no
/// other.
pub proof fn law_stacks_are_told(f: FetchedView, host: Seq<char>, st: Style, i: int)
    requires
        0 <= i < f.get_all("set-cookie"@).len(),
        stack_named(f.get_all("set-cookie"@)[i]) is Some,
    ensures
        ({
            let set = f.get_all("set-cookie"@);
            let all = disclosure_section(f, host, st).lines;
            exists|names: Seq<Seq<char>>|
                all.len() > 0 && all.last() == bad_line(
                    st,
                    "cookie names reveal "@ + #[trigger] joined(names, ", "@),
                ) && names.contains((stack_named(set[i])->0).0) && (forall|k: int|
                    0 <= k < names.len() ==> exists|j: int|
                        0 <= j < set.len() && stack_named(#[trigger] set[j]) is Some && (
                        stack_named(set[j])->0).0 == #[trigger] names[k]) && (forall|a: int, b: int|
                    0 <= a < b < names.len() ==> !precedes(#[trigger] names[b], #[trigger] names[a]))
        }),
{
    let set = f.get_all("set-cookie"@);
    let s = (stack_named(set[i])->0).0;
    let found = stacks(set);
    let ordered = sorted(found);
    let names = item_names(ordered);
    lemma_stack_there(set, i);
    let k = choose|k: int| 0 <= k < found.len() && (#[trigger] found[k]).0 == s;
    law_sorting_keeps_every_item(found, found[k]);
    assert(found.contains(found[k]));
    let m = choose|m: int| 0 <= m < ordered.len() && ordered[m] == found[k];
    assert(names[m] == s);
    law_sorting_orders(found);
    let all = disclosure_section(f, host, st).lines;
    assert(all.last() == bad_line(st, "cookie names reveal "@ + joined(names, ", "@)));
    assert forall|a: int| 0 <= a < names.len() implies exists|j: int|
        0 <= j < set.len() && stack_named(#[trigger] set[j]) is Some && (stack_named(set[j])->0).0
            == #[trigger] names[a] by {
        law_sorting_keeps_every_item(found, ordered[a]);
        assert(ordered.contains(ordered[a]));
        let b = choose|b: int| 0 <= b < found.len() && found[b] == ordered[a];
        lemma_stack_from_line(set, b);
    }
    assert forall|a: int, b: int| 0 <= a < b < names.len() implies !precedes(
        #[trigger] names[b],
        #[trigger] names[a],
    ) by {
        assert(names[b] == ordered[b].0 && names[a] == ordered[a].0);
    }
}

/// A response gives nothing away exactly when it has none of the telling
/// headers, and none of its cookies names a foreign domain or a stack; that, and
/// only that, is in order.
pub proof fn law_nothing_disclosed(f: FetchedView, host: Seq<char>, st: Style)
    ensures
        ({
            let set = f.get_all("set-cookie"@);
            let all = disclosure_section(f, host, st).lines;
            let nothing = f.get("server"@) is None && f.get("x-powered-by"@) is None && f.get(
                "x-aspnet-version"@,
            ) is None && f.get("x-aspnetmvc-version"@) is None && f.get("x-generator"@) is None
                && f.get("via"@) is None && (forall|i: int|
                0 <= i < set.len() ==> foreign_domain(#[trigger] set[i], host) is None
                    && stack_named(set[i]) is None);
            &&& nothing ==> all == seq![good_line(st, "no server/framework headers disclosed"@)]
            &&& !nothing ==> all == disclosed(f, host, st) && all.len() > 0
        }),
{
    let set = f.get_all("set-cookie"@);
    let t = TELLING_HEADERS@;
    assert(t[0]@ == "server"@ && t[1]@ == "x-powered-by"@ && t[2]@ == "x-aspnet-version"@);
    assert(t[3]@ == "x-aspnetmvc-version"@ && t[4]@ == "x-generator"@ && t[5]@ == "via"@);
    let bs = backends(set, host);
    let found = stacks(set);
    let d = disclosed(f, host, st);
    reveal_with_fuel(telling_lines, 7);
    if telling_lines(st, f, 6).len() == 0 && bs.len() == 0 && found.len() == 0 {
        assert forall|i: int| 0 <= i < set.len() implies foreign_domain(#[trigger] set[i], host)
            is None && stack_named(set[i]) is None by {
            if foreign_domain(set[i], host) is Some {
                lemma_backend_there(set, host, i);
            }
            if stack_named(set[i]) is Some {
                lemma_stack_there(set, i);
            }
        }
    }
    if bs.len() > 0 {
        lemma_backend_from(set, host, 0);
    }
    if found.len() > 0 {
        lemma_stack_from_line(set, 0);
    }
}

/// Each cookie line adds its foreign domain behind those found before, unless
/// one of them is the same up to case; and its stack, unless that was found.
pub proof fn law_findings_add_up(lines: Seq<Seq<char>>, l: Seq<char>, host: Seq<char>)
    ensures
        ({
            let none = Seq::<Seq<char>>::empty();
            let b = backends(lines, host);
            let s = stacks(lines);
            let d = foreign_domain(l, host);
            let t = stack_named(l);
            let known = exists|i: int| 0 <= i < b.len() && same_ignoring_case(#[trigger] b[i], d->0);
            let found = exists|i: int| 0 <= i < s.len() && (#[trigger] s[i]).0 == (t->0).0;
            &&& backends(none, host).len() == 0
            &&& stacks(none).len() == 0
            &&& d is None || known ==> backends(lines.push(l), host) == b
            &&& d is Some && !known ==> backends(lines.push(l), host) == b.push(d->0)
            &&& t is None || found ==> stacks(lines.push(l)) == s
            &&& t is Some && !found ==> stacks(lines.push(l)) == s.push(t->0)
        }),
{
    assert(lines.push(l).drop_last() =~= lines);
    let b = backends(lines, host);
    let s = stacks(lines);
    let d = foreign_domain(l, host);
    let t = stack_named(l);
    if d is Some && has_text_ignoring_case(b, d->0) {
        let i = choose|i: int| 0 <= i < b.len() && same_ignoring_case(#[trigger] b[i], d->0);
        assert(same_ignoring_case(b[i], d->0));
    }
}

/// What a response gives away is told in this order: the headers, then each
/// foreign domain in a line, then the stacks in one line if there are any.
pub proof fn law_the_section_on_disclosure(f: FetchedView, host: Seq<char>, st: Style)
    ensures
        ({
            let set = f.get_all("set-cookie"@);
            let bs = backends(set, host);
            let found = stacks(set);
            let all = disclosed(f, host, st);
            let told = |name: Seq<char>|
                if f.get(name) is Some {
                    1int
                } else {
                    0
                };
            let n = told("server"@) + told("x-powered-by"@) + told("x-aspnet-version"@) + told(
                "x-aspnetmvc-version"@,
            ) + told("x-generator"@) + told("via"@);
            &&& all.len() == n + bs.len() + (if found.len() > 0 {
                1int
            } else {
                0
            })
            &&& forall|i: int|
                0 <= i < bs.len() ==> all[n + i] == bad_line(
                    st,
                    "backend host in cookie Domain: "@ + dimmed(st, #[trigger] bs[i]),
                )
        }),
{
    reveal_with_fuel(telling_lines, 7);
    let t = TELLING_HEADERS@;
    assert(t[0]@ == "server"@ && t[1]@ == "x-powered-by"@ && t[2]@ == "x-aspnet-version"@);
    assert(t[3]@ == "x-aspnetmvc-version"@ && t[4]@ == "x-generator"@ && t[5]@ == "via"@);
}

} // verus!
