//! Targets as URLs and hosts.

use crate::fields::optional_text;
use crate::text::{
    begins, cat2, cat3, contains_char, is_white, law_trimming, same, starts_with, strip, strip_both,
    strip_end, strip_start, to_chars, trim, trimmed, CharSet,
};
use vstd::prelude::*;
use vstd::string::*;

verus! {

/// The host of a URL, in the form in which `Url::host_str` gives it; none if
/// the text does not parse as a URL or the URL has no host.
pub uninterp spec fn url_host(url: Seq<char>) -> Option<Seq<char>>;

/// The text of a parsed URL; none if the text does not parse as one.
pub uninterp spec fn url_text(url: Seq<char>) -> Option<Seq<char>>;

/// Calls `Url::parse`, and `Url::host_str` on the result. What they make of a
/// text follows the URL standard and is only given a name here.
#[verifier::external_body]
pub(crate) fn parse_host(url: &str) -> (r: Option<String>)
    ensures
        optional_text(r) == url_host(url@),
{
    reqwest::Url::parse(url).ok().and_then(|u| u.host_str().map(|h| h.to_string()))
}

/// Calls `Url::parse` and writes the result out again. What comes out follows
/// the URL standard and is only given a name here.
#[verifier::external_body]
pub(crate) fn parse_text(url: &str) -> (r: Option<String>)
    ensures
        optional_text(r) == url_text(url@),
{
    reqwest::Url::parse(url).ok().map(|u| u.to_string())
}

/// The domain of a URL, in the form in which `Url::domain` gives it; none if the
/// text does not parse as a URL, or the URL has no host or an IP address for
/// one.
pub uninterp spec fn url_domain(url: Seq<char>) -> Option<Seq<char>>;

/// Calls `Url::parse`, and `Url::domain` on the result. What they make of a text
/// follows the URL standard and is only given a name here.
#[verifier::external_body]
pub(crate) fn parse_domain(url: &str) -> (r: Option<String>)
    ensures
        optional_text(r) == url_domain(url@),
{
    reqwest::Url::parse(url).ok().and_then(|u| u.domain().map(|d| d.to_string()))
}

/// A target with a scheme: `https` unless it names `http` or `https` itself.
pub open spec fn normalized(target: Seq<char>) -> Seq<char> {
    let t = trimmed(target);
    if begins(t, "http://"@) || begins(t, "https://"@) {
        t
    } else {
        "https://"@ + t
    }
}

/// Turns a target into a URL.
pub fn normalize_url(target: &str) -> (r: String)
    ensures
        r@ == normalized(target@),
{
    let t = trim(target);
    if starts_with(t.as_str(), "http://") || starts_with(t.as_str(), "https://") {
        t
    } else {
        cat2("https://", t.as_str())
    }
}

/// The host that was found, or else the target itself.
pub open spec fn host_or_target(found: Option<Seq<char>>, target: Seq<char>) -> Seq<char> {
    match found {
        Some(h) => h,
        None => trimmed(target),
    }
}

/// The host of a target.
pub open spec fn host(target: Seq<char>) -> Seq<char> {
    host_or_target(url_host(normalized(target)), target)
}

/// Falls back to the target where no host was found.
pub fn host_or(found: Option<String>, target: &str) -> (r: String)
    ensures
        r@ == host_or_target(optional_text(found), target@),
{
    match found {
        Some(h) => h,
        None => trim(target),
    }
}

/// The host of a target: what the URL parser finds, or the target itself where
/// it finds none.
pub fn host_of(target: &str) -> (r: String)
    ensures
        r@ == host(target@),
{
    let u = normalize_url(target);
    host_or(parse_host(u.as_str()), target)
}

// ---------------------------------------------------------------------------
// IP literals
// ---------------------------------------------------------------------------

/// The host of a target without the brackets of an IPv6 literal.
pub open spec fn host_literal_of(target: Seq<char>) -> Seq<char> {
    strip(host(target), CharSet::Two('[', ']'))
}

/// Whether a text is an IPv4 address in dotted decimal: the URL parser, given
/// the text for a host, finds exactly that host, no domain and no brackets.
pub open spec fn is_v4(t: Seq<char>, found: Option<Seq<char>>, domain: Option<Seq<char>>) -> bool {
    found == Some(t) && domain is None && !begins(t, "["@)
}

/// The characters of an IPv6 address.
pub open spec fn is_address_char(c: char) -> bool {
    ||| '0' <= c && c <= '9'
    ||| 'a' <= c && c <= 'f'
    ||| 'A' <= c && c <= 'F'
    ||| c == ':' || c == '.'
}

/// Whether a text is an IPv6 address: it is made of the characters of one, and
/// the URL parser, given the text in brackets, finds a host.
pub open spec fn is_v6(t: Seq<char>, found: Option<Seq<char>>) -> bool {
    (forall|i: int| 0 <= i < t.len() ==> is_address_char(#[trigger] t[i])) && found is Some
}

/// Whether a text is an IP address.
pub open spec fn is_address(t: Seq<char>) -> bool {
    is_v4(t, url_host("https://"@ + t), url_domain("https://"@ + t)) || is_v6(
        t,
        url_host("https://["@ + t + "]"@),
    )
}

/// Whether the host of a target is an IP address.
pub open spec fn host_is_address(target: Seq<char>) -> bool {
    is_address(host_literal_of(target))
}

/// The host of a target without the brackets of an IPv6 literal.
pub fn host_literal(target: &str) -> (r: String)
    ensures
        r@ == host_literal_of(target@),
{
    let h = host_of(target);
    strip_both(h.as_str(), CharSet::Two('[', ']'))
}

/// Tells whether a text is an IPv4 address, from what the URL parser finds.
pub fn names_v4(t: &str, found: &Option<String>, domain: &Option<String>) -> (r: bool)
    ensures
        r == is_v4(t@, optional_text(*found), optional_text(*domain)),
{
    match found {
        Some(h) => match domain {
            Some(_) => false,
            None => same(h.as_str(), t) && !starts_with(t, "["),
        },
        None => false,
    }
}

/// Tells whether a text is an IPv6 address, from what the URL parser finds.
pub fn names_v6(t: &str, found: &Option<String>) -> (r: bool)
    ensures
        r == is_v6(t@, optional_text(*found)),
{
    let v = to_chars(t);
    let mut i: usize = 0;
    while i < v.len()
        invariant
            i <= v@.len(),
            v@ == t@,
            forall|j: int| 0 <= j < i ==> is_address_char(#[trigger] t@[j]),
        decreases v@.len() - i,
    {
        let c = v[i];
        let known = ('0' <= c && c <= '9') || ('a' <= c && c <= 'f') || ('A' <= c && c <= 'F') || c
            == ':' || c == '.';
        if !known {
            assert(!is_address_char(t@[i as int]));
            return false;
        }
        i += 1;
    }
    match found {
        Some(_) => true,
        None => false,
    }
}

/// Tells whether a text is an IP address.
pub fn is_ip(t: &str) -> (r: bool)
    ensures
        r == is_address(t@),
{
    let plain = cat2("https://", t);
    let found = parse_host(plain.as_str());
    let domain = parse_domain(plain.as_str());
    let bracketed = cat3("https://[", t, "]");
    let found6 = parse_host(bracketed.as_str());
    names_v4(t, &found, &domain) || names_v6(t, &found6)
}

/// Tells whether the host of a target is an IP address.
pub fn host_is_ip(target: &str) -> (r: bool)
    ensures
        r == host_is_address(target@),
{
    let t = host_literal(target);
    is_ip(t.as_str())
}

// ---------------------------------------------------------------------------
// Mistaken targets and redirects
// ---------------------------------------------------------------------------

/// Whether a text holds white space.
pub open spec fn has_white(s: Seq<char>) -> bool {
    exists|i: int| 0 <= i < s.len() && is_white(#[trigger] s[i])
}

/// Whether a host cannot be one.
pub open spec fn unlikely_host(h: Seq<char>) -> bool {
    h.len() == 0 || h.contains('=')
}

/// Whether a host is empty or carries a `=`, as no host does.
pub fn is_unlikely_host(h: &str) -> (r: bool)
    ensures
        r == unlikely_host(h@),
{
    h.is_empty() || contains_char(h, '=')
}

/// Whether a target is almost certainly a mis-pasted cookie or header.
pub open spec fn pasted(target: Seq<char>) -> bool {
    let t = trimmed(target);
    t.len() == 0 || has_white(t) || unlikely_host(host(t))
}

/// True when a positional argument cannot be a host or URL and is almost
/// certainly a mis-pasted cookie or header: it holds white space, or the host
/// part carries a `=`.
pub fn looks_like_pasted_value(target: &str) -> (r: bool)
    ensures
        r == pasted(target@),
{
    let t = trim(target);
    let v = to_chars(t.as_str());
    if v.len() == 0 {
        return true;
    }
    let mut i: usize = 0;
    while i < v.len()
        invariant
            i <= v@.len(),
            v@ == t@,
            t@ == trimmed(target@),
            forall|j: int| 0 <= j < i ==> !is_white(#[trigger] v@[j]),
        decreases v@.len() - i,
    {
        if CharSet::White.holds(v[i]) {
            assert(is_white(t@[i as int]));
            return true;
        }
        i += 1;
    }
    let h = host_of(t.as_str());
    is_unlikely_host(h.as_str())
}

/// Whether a reply came from another URL than the one asked for, `parsed` being
/// the latter as the URL parser writes it.
pub open spec fn redirected_from(url: Seq<char>, parsed: Option<Seq<char>>, last: Seq<char>) -> bool {
    last != (match parsed {
        Some(t) => t,
        None => url,
    })
}

/// Whether the final URL differs from the one asked for.
pub fn was_redirected(url: &str, parsed: Option<String>, last: &str) -> (r: bool)
    ensures
        r == redirected_from(url@, optional_text(parsed), last@),
{
    match parsed {
        Some(t) => !same(last, t.as_str()),
        None => !same(last, url),
    }
}

proof fn lemma_strip_start_idempotent(s: Seq<char>, k: CharSet)
    ensures
        starts_outside(strip_start(s, k), k),
    decreases s.len(),
{
    if s.len() > 0 && k.has(s[0]) {
        lemma_strip_start_idempotent(s.skip(1), k);
    }
}

spec fn starts_outside(s: Seq<char>, k: CharSet) -> bool {
    s.len() > 0 ==> !k.has(s[0])
}

proof fn lemma_strip_end_ends(s: Seq<char>, k: CharSet)
    ensures
        strip_end(s, k).len() > 0 ==> !k.has(strip_end(s, k).last()),
        strip_end(s, k).len() <= s.len(),
        strip_end(s, k).len() > 0 ==> strip_end(s, k)[0] == s[0],
    decreases s.len(),
{
    if s.len() > 0 && k.has(s.last()) {
        lemma_strip_end_ends(s.drop_last(), k);
    }
}

/// Normalizing a URL again changes nothing.
pub proof fn law_normalizing_twice_is_normalizing_once(target: Seq<char>)
    ensures
        normalized(normalized(target)) == normalized(target),
{
    reveal_strlit("http://");
    reveal_strlit("https://");
    let t = trimmed(target);
    let a = strip_start(target, CharSet::White);
    lemma_strip_start_idempotent(target, CharSet::White);
    lemma_strip_end_ends(a, CharSet::White);
    let n = normalized(target);
    assert(n.len() > 0 ==> !is_white(n[0]));
    assert(n.len() > 0 ==> !is_white(n.last()) || t.len() == 0);
    assert(trimmed(n) == n);
    if !begins(t, "http://"@) && !begins(t, "https://"@) {
        assert(n.take(8) =~= "https://"@);
    }
}

/// A target keeps the scheme that it names, and is taken for https without one;
/// white space around it does not count.
pub proof fn law_targets_get_a_scheme(target: Seq<char>)
    ensures
        ({
            let t = trimmed(target);
            let named = begins(t, "http://"@) || begins(t, "https://"@);
            &&& named ==> normalized(target) == t
            &&& !named ==> normalized(target) == "https://"@ + t
        }),
{
}

/// The host is what the URL parser finds in the target once it has a scheme, or
/// the trimmed target where it finds none.
pub proof fn law_hosts(target: Seq<char>)
    ensures
        url_host(normalized(target)) is Some ==> host(target) == url_host(normalized(target))->0,
        url_host(normalized(target)) is None ==> host(target) == trimmed(target),
{
}

/// A target is taken for something pasted exactly when it is blank, holds white
/// space between other characters, or has a host that is empty or holds an
/// equals sign.
pub proof fn law_pasted_targets(target: Seq<char>)
    ensures
        ({
            let t = trimmed(target);
            pasted(target) <==> t.len() == 0 || host(t).len() == 0 || host(t).contains('=')
                || exists|i: int| 0 < i < t.len() - 1 && is_white(#[trigger] t[i])
        }),
{
    let t = trimmed(target);
    law_trimming(target);
    if has_white(t) {
        let i = choose|i: int| 0 <= i < t.len() && is_white(#[trigger] t[i]);
        assert(t[0] != t[i] || i != 0);
        assert(0 < i < t.len() - 1);
    }
}

/// A page was redirected exactly when it came from another URL than the one
/// asked for, as the URL parser writes that, or as it stands if it is no URL.
pub proof fn law_redirects(url: Seq<char>, parsed: Seq<char>, last: Seq<char>)
    ensures
        redirected_from(url, Some(parsed), last) <==> last != parsed,
        redirected_from(url, None, last) <==> last != url,
{
}

/// A host is an IP address exactly when, without the brackets around it, the URL
/// parser takes it as it stands for a host that is no domain, or takes it for a
/// host in brackets.
pub proof fn law_addresses(target: Seq<char>, t: Seq<char>)
    requires
        t == strip(host(target), CharSet::Two('[', ']')),
    ensures
        ({
            let four = url_host("https://"@ + t) == Some(t) && url_domain("https://"@ + t) is None
                && (t.len() > 0 ==> t[0] != '[');
            let six = url_host("https://["@ + t + "]"@) is Some && forall|i: int|
                0 <= i < t.len() ==> {
                    ||| '0' <= #[trigger] t[i] && t[i] <= '9'
                    ||| 'a' <= t[i] && t[i] <= 'f'
                    ||| 'A' <= t[i] && t[i] <= 'F'
                    ||| t[i] == ':' || t[i] == '.'
                };
            host_is_address(target) <==> four || six
        }),
{
    reveal_strlit("[");
    if t.len() > 0 {
        assert(t.take(1)[0] == t[0]);
        if t[0] == '[' {
            assert(t.take(1) =~= "["@);
        }
    }
    assert(begins(t, "["@) <==> t.len() > 0 && t[0] == '[');
    assert((forall|i: int| 0 <= i < t.len() ==> is_address_char(#[trigger] t[i])) <==> (forall|i: int|
        0 <= i < t.len() ==> {
            ||| '0' <= #[trigger] t[i] && t[i] <= '9'
            ||| 'a' <= t[i] && t[i] <= 'f'
            ||| 'A' <= t[i] && t[i] <= 'F'
            ||| t[i] == ':' || t[i] == '.'
        }));
}

} // verus!
