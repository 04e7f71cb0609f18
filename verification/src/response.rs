//! What a server answered: the fetched page, and the probe of one method.

use crate::fields::{
    check_header_name, field_text, field_texts, get_all_headers, get_header, header_fields, optional_text, readable,
    value_text, values, Field,
};
use crate::text::{ascii_lower, begins, cat3, starts_with, texts, trim, trimmed};
use crate::url::{parse_text, redirected_from, url_text, was_redirected};
use reqwest::header::{HeaderMap, HeaderValue};
use std::collections::hash_map::DefaultHasher;
use std::hash::Hasher;
use vstd::prelude::*;
use vstd::std_specs::hash::DefaultHasherAdditionalSpecFns;
use vstd::string::*;
use vstd::utf8::encode_utf8;

verus! {

// ---------------------------------------------------------------------------
// Protocols
// ---------------------------------------------------------------------------

/// Protocols and APIs identifiable from response headers alone, each with a
/// header that identifies it. Naming one matters because several of them reject
/// any request that omits their protocol header before ever weighing the
/// method, which otherwise reads as a method restriction.
pub const PROTOCOLS: [(&'static str, &'static str); 25] = [
    ("tus resumable upload", "tus-resumable"),
    ("tus resumable upload", "tus-version"),
    ("tus resumable upload", "tus-extension"),
    ("tus resumable upload", "tus-max-size"),
    ("WebDAV", "dav"),
    ("WebDAV", "ms-author-via"),
    ("OData", "odata-version"),
    ("OData", "dataserviceversion"),
    ("gRPC", "grpc-status"),
    ("gRPC", "grpc-encoding"),
    ("gRPC", "grpc-accept-encoding"),
    ("S3-compatible object storage", "x-amz-request-id"),
    ("S3-compatible object storage", "x-amz-id-2"),
    ("S3-compatible object storage", "x-amz-bucket-region"),
    ("Azure Storage", "x-ms-request-id"),
    ("Azure Storage", "x-ms-version"),
    ("Elasticsearch / OpenSearch", "x-elastic-product"),
    ("Elasticsearch / OpenSearch", "x-opensearch-version"),
    ("CouchDB", "x-couchdb-body-time"),
    ("CouchDB", "x-couch-request-id"),
    ("WebSocket upgrade", "sec-websocket-version"),
    ("WebSocket upgrade", "sec-websocket-accept"),
    ("Kubernetes API", "x-kubernetes-pf-flowschema-uid"),
    ("HashiCorp Vault", "x-vault-index"),
    ("HashiCorp Vault", "x-vault-token"),
];

/// Whether `get`, asked for the header `name`, may answer `answer`.
pub open spec fn answers<G: Fn(&str) -> Option<String>>(
    get: G,
    name: Seq<char>,
    answer: Option<Seq<char>>,
) -> bool {
    exists|h: &str, r: Option<String>| #[trigger]
        call_ensures(get, (h,), r) && h@ == name && optional_text(r) == answer
}

/// The evidence for a protocol: the header with its value.
pub open spec fn evidence(name: Seq<char>, value: Seq<char>) -> Seq<char> {
    name + ": "@ + trimmed(value)
}

/// Finds the protocol a response advertises, as the name and "header: value":
/// that of the first entry of the table whose header `get` finds.
pub fn protocol_of<G: Fn(&str) -> Option<String>>(get: G) -> (r: Option<(String, String)>)
    requires
        forall|h: &str| #[trigger] call_requires(get, (h,)),
    ensures
        match r {
            Some(p) => exists|i: int, v: Seq<char>|
                0 <= i < 25 && #[trigger] answers(get, PROTOCOLS@[i].1@, Some(v)) && p.0@
                    == PROTOCOLS@[i].0@ && p.1@ == evidence(PROTOCOLS@[i].1@, v) && forall|j: int|
                    0 <= j < i ==> answers(get, #[trigger] PROTOCOLS@[j].1@, None),
            None => forall|j: int|
                0 <= j < 25 ==> answers(get, #[trigger] PROTOCOLS@[j].1@, None),
        },
{
    let table = PROTOCOLS;
    let mut i: usize = 0;
    while i < 25
        invariant
            i <= 25,
            table == PROTOCOLS,
            forall|h: &str| #[trigger] call_requires(get, (h,)),
            forall|j: int| 0 <= j < i ==> answers(get, #[trigger] PROTOCOLS@[j].1@, None),
        decreases 25 - i,
    {
        let h: &str = table[i].1;
        let a = get(h);
        assert(answers(get, PROTOCOLS@[i as int].1@, optional_text(a)));
        match a {
            Some(v) => {
                let t = trim(v.as_str());
                return Some((table[i].0.to_owned(), cat3(h, ": ", t.as_str())));
            },
            None => {},
        }
        i += 1;
    }
    None
}

/// The protocol that some header fields advertise, looking from entry `i` of
/// the table on.
pub open spec fn protocol_from(fs: Seq<Field>, i: int) -> Option<(Seq<char>, Seq<char>)>
    decreases 25 - i,
{
    if i < 0 || i >= 25 {
        None
    } else {
        match field_text(fs, PROTOCOLS@[i].1@) {
            Some(v) => Some((PROTOCOLS@[i].0@, evidence(PROTOCOLS@[i].1@, v))),
            None => protocol_from(fs, i + 1),
        }
    }
}

proof fn lemma_protocol_skips(fs: Seq<Field>, i: int, k: int)
    requires
        0 <= i <= k <= 25,
        forall|j: int| i <= j < k ==> field_text(fs, #[trigger] PROTOCOLS@[j].1@) is None,
    ensures
        protocol_from(fs, i) == protocol_from(fs, k),
    decreases k - i,
{
    if i < k {
        lemma_protocol_skips(fs, i + 1, k);
        assert(field_text(fs, PROTOCOLS@[i].1@) is None);
    }
}

/// The view of an optional pair of strings.
pub open spec fn optional_pair(o: Option<(String, String)>) -> Option<(Seq<char>, Seq<char>)> {
    match o {
        Some(p) => Some((p.0@, p.1@)),
        None => None,
    }
}

// ---------------------------------------------------------------------------
// Fields of a response
// ---------------------------------------------------------------------------

/// The text of the first header of that name.
fn text_of(headers: &HeaderMap<HeaderValue>, name: &str) -> (r: Option<String>)
    ensures
        optional_text(r) == field_text(header_fields(*headers), name@),
{
    match check_header_name(name) {
        Ok(_) => {},
        Err(_) => {
            return None;
        },
    }
    match get_header(headers, name) {
        Some(t) => t,
        None => None,
    }
}

/// The texts of all the headers of that name.
fn texts_of(headers: &HeaderMap<HeaderValue>, name: &str) -> (r: Vec<String>)
    ensures
        texts(r@) == field_texts(header_fields(*headers), name@),
{
    let mut r: Vec<String> = Vec::new();
    match check_header_name(name) {
        Ok(_) => {},
        Err(_) => {
            assert(texts(r@) =~= Seq::empty());
            return r;
        },
    }
    let found = get_all_headers(headers, name);
    let ghost vs = values(header_fields(*headers), ascii_lower(name@));
    let mut i: usize = 0;
    assert(texts(r@) =~= readable(vs.take(0)));
    while i < found.len()
        invariant
            i <= found@.len(),
            found@.len() == vs.len(),
            forall|j: int|
                0 <= j < found@.len() ==> optional_text(#[trigger] found@[j]) == value_text(vs[j]),
            texts(r@) == readable(vs.take(i as int)),
        decreases found@.len() - i,
    {
        assert(vs.take(i + 1).drop_last() =~= vs.take(i as int));
        assert(vs.take(i + 1).last() == vs[i as int]);
        assert(optional_text(found@[i as int]) == value_text(vs[i as int]));
        match &found[i] {
            Some(t) => {
                let ghost before = r@;
                r.push(t.as_str().to_owned());
                assert(texts(r@) =~= texts(before).push(t@));
            },
            None => {},
        }
        i += 1;
    }
    assert(vs.take(i as int) =~= vs);
    r
}

/// The versions of HTTP that a response can come in.
#[derive(Clone, Copy, Debug, PartialEq, Eq, Structural)]
pub enum Version {
    Http09,
    Http10,
    Http11,
    Http2,
    Http3,
    Other,
}

/// The name of a version.
pub open spec fn version_name(v: Version) -> Seq<char> {
    match v {
        Version::Http09 => "HTTP/0.9"@,
        Version::Http10 => "HTTP/1.0"@,
        Version::Http11 => "HTTP/1.1"@,
        Version::Http2 => "HTTP/2"@,
        Version::Http3 => "HTTP/3"@,
        Version::Other => "HTTP"@,
    }
}

/// Human name for the negotiated protocol, so a header count in a report can be
/// reproduced (hop-by-hop headers exist in HTTP/1.1 but not HTTP/2).
pub fn version_str(v: Version) -> (r: &'static str)
    ensures
        r@ == version_name(v),
{
    match v {
        Version::Http09 => "HTTP/0.9",
        Version::Http10 => "HTTP/1.0",
        Version::Http11 => "HTTP/1.1",
        Version::Http2 => "HTTP/2",
        Version::Http3 => "HTTP/3",
        Version::Other => "HTTP",
    }
}

// ---------------------------------------------------------------------------
// A fetched page
// ---------------------------------------------------------------------------

/// The answer to a request that followed redirects.
pub struct Page {
    pub status: u16,
    /// The URL that the answer came from.
    pub url: String,
    pub headers: HeaderMap<HeaderValue>,
    pub version: Version,
    /// The decoded body, if it could be read.
    pub text: Option<String>,
}

/// A fetched page, as the checks read it.
pub struct Fetched {
    pub status: u16,
    pub url: String,
    pub headers: HeaderMap<HeaderValue>,
    pub is_https: bool,
    /// True only if the final URL differs from the request after URL
    /// normalization (so a bare host gaining a trailing "/" does not count).
    pub redirected: bool,
    /// Length of the decoded response body, used to compare authenticated vs
    /// unauthenticated responses in the auth-effectiveness check.
    pub body_len: usize,
    /// Negotiated protocol ("HTTP/1.1", "HTTP/2"). Reported because the header
    /// count depends on it: hop-by-hop headers exist in 1.1 but not 2.
    pub version: String,
}

/// What a fetched page holds.
pub struct FetchedView {
    pub status: u16,
    pub url: Seq<char>,
    pub fields: Seq<Field>,
    pub is_https: bool,
    pub redirected: bool,
    pub body_len: nat,
    pub version: Seq<char>,
}

impl View for Fetched {
    type V = FetchedView;

    open spec fn view(&self) -> FetchedView {
        FetchedView {
            status: self.status,
            url: self.url@,
            fields: header_fields(self.headers),
            is_https: self.is_https,
            redirected: self.redirected,
            body_len: self.body_len as nat,
            version: self.version@,
        }
    }
}

impl FetchedView {
    /// The text of the first header of that name.
    pub open spec fn get(self, name: Seq<char>) -> Option<Seq<char>> {
        field_text(self.fields, name)
    }

    /// The texts of all the headers of that name.
    pub open spec fn get_all(self, name: Seq<char>) -> Seq<Seq<char>> {
        field_texts(self.fields, name)
    }
}

impl Fetched {
    /// The text of the first header of that name, if it is text.
    pub fn get(&self, name: &str) -> (r: Option<String>)
        ensures
            optional_text(r) == self@.get(name@),
    {
        text_of(&self.headers, name)
    }

    /// The texts of all the headers of that name.
    pub fn get_all(&self, name: &str) -> (r: Vec<String>)
        ensures
            texts(r@) == self@.get_all(name@),
    {
        texts_of(&self.headers, name)
    }
}

/// The length of the body of a page, in bytes.
pub open spec fn body_length(text: Option<Seq<char>>) -> nat {
    match text {
        Some(t) => encode_utf8(t).len(),
        None => 0,
    }
}

/// The page fetched from `url`, given that `url` reads `parsed` once it is parsed.
pub open spec fn fetched(url: Seq<char>, parsed: Option<Seq<char>>, page: Page) -> FetchedView {
    FetchedView {
        status: page.status,
        url: page.url@,
        fields: header_fields(page.headers),
        is_https: begins(page.url@, "https://"@),
        redirected: redirected_from(url, parsed, page.url@),
        body_len: body_length(optional_text(page.text)),
        version: version_name(page.version),
    }
}

/// The page fetched from `url`, given that `url` reads `parsed` once it is
/// parsed.
pub fn fetched_from(url: &str, parsed: Option<String>, page: Page) -> (r: Fetched)
    ensures
        r@ == fetched(url@, optional_text(parsed), page),
{
    let is_https = starts_with(page.url.as_str(), "https://");
    let redirected = was_redirected(url, parsed, page.url.as_str());
    let body_len: usize = match &page.text {
        Some(t) => t.as_str().as_bytes().len(),
        None => 0,
    };
    Fetched {
        status: page.status,
        is_https,
        redirected,
        url: page.url,
        headers: page.headers,
        body_len,
        version: version_str(page.version).to_owned(),
    }
}

/// The page that a GET of `url` brought, with what the checks need to know of
/// it. 4xx and 5xx are pages like any other.
pub fn fetch(url: &str, page: Page) -> (r: Fetched)
    ensures
        r@ == fetched(url@, url_text(url@), page),
{
    let parsed = parse_text(url);
    fetched_from(url, parsed, page)
}

// ---------------------------------------------------------------------------
// A method probe
// ---------------------------------------------------------------------------

/// The answer to a request that did not follow redirects.
pub struct Reply {
    pub status: u16,
    pub headers: HeaderMap<HeaderValue>,
    pub body: Vec<u8>,
}

/// One method probe: what the server returned at the URL that was asked for.
#[derive(Debug)]
pub struct Probe {
    /// The status, or 0 when no answer came.
    pub status: u16,
    /// Location header, when the server answered with a redirect.
    pub location: Option<String>,
    /// Allow header. RFC 9110 requires this on a 405, where it is the server
    /// naming the methods it permits, which beats inferring it from probes.
    pub allow: Option<String>,
    /// Protocol this response advertised, as (name, "header: value").
    pub protocol: Option<(String, String)>,
    /// Hash of the body, so callers can tell responses apart by content and not
    /// just by status.
    pub body_hash: u64,
    pub body_len: usize,
}

/// What a probe holds.
pub struct ProbeView {
    pub status: u16,
    pub location: Option<Seq<char>>,
    pub allow: Option<Seq<char>>,
    pub protocol: Option<(Seq<char>, Seq<char>)>,
    pub body_hash: u64,
    pub body_len: nat,
}

impl View for Probe {
    type V = ProbeView;

    open spec fn view(&self) -> ProbeView {
        ProbeView {
            status: self.status,
            location: optional_text(self.location),
            allow: optional_text(self.allow),
            protocol: optional_pair(self.protocol),
            body_hash: self.body_hash,
            body_len: self.body_len as nat,
        }
    }
}

/// A number in `k` bytes, the lowest first.
pub open spec fn little_endian(n: nat, k: nat) -> Seq<u8>
    decreases k,
{
    if k == 0 {
        Seq::empty()
    } else {
        seq![(n % 256) as u8] + little_endian(n / 256, (k - 1) as nat)
    }
}

/// The bytes of a length: as many as a `usize` has.
pub open spec fn length_bytes(n: nat) -> Seq<u8> {
    little_endian(n, (usize::BITS / 8) as nat)
}

/// The hash of a slice of bytes: of its length, and then of the bytes.
pub open spec fn bytes_hash(b: Seq<u8>) -> u64 {
    DefaultHasher::spec_finish(seq![length_bytes(b.len()), b])
}

fn write_length(n: usize) -> (r: Vec<u8>)
    ensures
        r@ == length_bytes(n as nat),
{
    let k: u32 = usize::BITS / 8;
    let mut r: Vec<u8> = Vec::new();
    let mut rest: usize = n;
    let mut i: u32 = 0;
    assert(r@ + little_endian(n as nat, k as nat) =~= little_endian(n as nat, k as nat));
    while i < k
        invariant
            i <= k,
            r@ + little_endian(rest as nat, (k - i) as nat) == little_endian(n as nat, k as nat),
        decreases k - i,
    {
        let low = (rest % 256) as u8;
        let ghost tail = little_endian(rest as nat / 256, (k - i - 1) as nat);
        let ghost had = r@;
        r.push(low);
        rest = rest / 256;
        assert(r@ + tail =~= had + (seq![low] + tail));
        i += 1;
    }
    assert(r@ + Seq::<u8>::empty() =~= r@);
    r
}

/// Hashes a body as the standard library hashes a slice of bytes on a
/// little-endian machine.
fn hash_bytes(b: &Vec<u8>) -> (r: u64)
    ensures
        r == bytes_hash(b@),
{
    let length = write_length(b.len());
    let mut h = DefaultHasher::new();
    h.write(length.as_slice());
    h.write(b.as_slice());
    assert(h@ =~= seq![length_bytes(b@.len()), b@]);
    h.finish()
}

/// The trimmed text, unless it is empty.
pub open spec fn trimmed_text(o: Option<Seq<char>>) -> Option<Seq<char>> {
    match o {
        Some(t) => if trimmed(t).len() == 0 {
            None
        } else {
            Some(trimmed(t))
        },
        None => None,
    }
}

/// What is learned from the answer to a probe; with no answer the status is 0.
pub open spec fn probed(reply: Option<Reply>) -> ProbeView {
    match reply {
        Some(r) => {
            let fs = header_fields(r.headers);
            ProbeView {
                status: r.status,
                location: field_text(fs, "location"@),
                allow: trimmed_text(field_text(fs, "allow"@)),
                protocol: protocol_from(fs, 0),
                body_hash: bytes_hash(r.body@),
                body_len: r.body@.len(),
            }
        },
        None => ProbeView {
            status: 0,
            location: None,
            allow: None,
            protocol: None,
            body_hash: 0,
            body_len: 0,
        },
    }
}

/// The protocol that the headers advertise.
fn protocol_in(headers: &HeaderMap<HeaderValue>) -> (r: Option<(String, String)>)
    ensures
        optional_pair(r) == protocol_from(header_fields(*headers), 0),
{
    let ghost fs = header_fields(*headers);
    let get = |h: &str| -> (r: Option<String>)
        ensures
            optional_text(r) == field_text(header_fields(*headers), h@),
        { text_of(headers, h) };
    let r = protocol_of(get);
    proof {
        match optional_pair(r) {
            Some(p) => {
                let (i, v) = choose|i: int, v: Seq<char>|
                    0 <= i < 25 && #[trigger] answers(get, PROTOCOLS@[i].1@, Some(v)) && p.0
                        == PROTOCOLS@[i].0@ && p.1 == evidence(PROTOCOLS@[i].1@, v) && forall|
                        j: int,
                    |
                        0 <= j < i ==> answers(get, #[trigger] PROTOCOLS@[j].1@, None);
                assert forall|j: int| 0 <= j < i implies field_text(
                    fs,
                    #[trigger] PROTOCOLS@[j].1@,
                ) is None by {
                    assert(answers(get, PROTOCOLS@[j].1@, None));
                }
                lemma_protocol_skips(fs, 0, i);
            },
            None => {
                assert forall|j: int| 0 <= j < 25 implies field_text(
                    fs,
                    #[trigger] PROTOCOLS@[j].1@,
                ) is None by {
                    assert(answers(get, PROTOCOLS@[j].1@, None));
                }
                lemma_protocol_skips(fs, 0, 25);
            },
        }
    }
    r
}

/// What is learned from the answer to one request sent WITHOUT following
/// redirects, so the reported status is the one returned at the requested URL
/// rather than the status of whatever page the server pointed at. A transport
/// failure is no answer, and comes back as status 0.
pub fn probe(reply: Option<Reply>) -> (r: Probe)
    ensures
        r@ == probed(reply),
{
    match reply {
        Some(reply) => {
            let location = text_of(&reply.headers, "location");
            let allow = match text_of(&reply.headers, "allow") {
                Some(t) => {
                    let u = trim(t.as_str());
                    if u.as_str().is_empty() {
                        None
                    } else {
                        Some(u)
                    }
                },
                None => None,
            };
            let protocol = protocol_in(&reply.headers);
            let body_hash: u64 = hash_bytes(&reply.body);
            Probe {
                status: reply.status,
                location,
                allow,
                protocol,
                body_hash,
                body_len: reply.body.len(),
            }
        },
        None => Probe {
            status: 0,
            location: None,
            allow: None,
            protocol: None,
            body_hash: 0,
            body_len: 0,
        },
    }
}

// ---------------------------------------------------------------------------
// Laws
// ---------------------------------------------------------------------------

/// A fetched page is what came: its status, URL, headers and version, the length
/// of its body in bytes, whether it came over https, and whether from elsewhere.
pub proof fn law_pages_are_taken_as_they_come(url: Seq<char>, parsed: Option<Seq<char>>, page: Page)
    ensures
        ({
            let f = fetched(url, parsed, page);
            &&& f.status == page.status
            &&& f.url == page.url@
            &&& f.fields == header_fields(page.headers)
            &&& f.is_https <==> begins(page.url@, "https://"@)
            &&& parsed is Some ==> (f.redirected <==> page.url@ != parsed->0)
            &&& parsed is None ==> (f.redirected <==> page.url@ != url)
            &&& page.text is Some ==> f.body_len == encode_utf8(page.text->0@).len()
            &&& page.text is None ==> f.body_len == 0
            &&& page.version is Http09 ==> f.version == "HTTP/0.9"@
            &&& page.version is Http10 ==> f.version == "HTTP/1.0"@
            &&& page.version is Http11 ==> f.version == "HTTP/1.1"@
            &&& page.version is Http2 ==> f.version == "HTTP/2"@
            &&& page.version is Http3 ==> f.version == "HTTP/3"@
            &&& page.version is Other ==> f.version == "HTTP"@
        }),
{
}

/// A probe tells the status, where it redirects to, the methods that are
/// allowed, and the length and hash of the body; without an answer it tells
/// nothing, and its status is zero.
pub proof fn law_probes_are_taken_as_they_come(r: Reply)
    ensures
        ({
            let p = probed(Some(r));
            let fs = header_fields(r.headers);
            let allow = field_text(fs, "allow"@);
            &&& p.status == r.status
            &&& p.location == field_text(fs, "location"@)
            &&& allow is None ==> p.allow is None
            &&& allow is Some && trimmed(allow->0).len() == 0 ==> p.allow is None
            &&& allow is Some && trimmed(allow->0).len() > 0 ==> p.allow == Some(trimmed(allow->0))
            &&& p.body_len == r.body@.len()
            &&& probed(None).status == 0
            &&& probed(None).location is None
            &&& probed(None).allow is None
            &&& probed(None).protocol is None
            &&& probed(None).body_len == 0
        }),
{
}

/// The protocol that a header identifies, if it identifies one.
pub open spec fn identified(h: Seq<char>) -> Option<Seq<char>> {
    if h == "tus-resumable"@ || h == "tus-version"@ || h == "tus-extension"@ || h
        == "tus-max-size"@ {
        Some("tus resumable upload"@)
    } else if h == "dav"@ || h == "ms-author-via"@ {
        Some("WebDAV"@)
    } else if h == "odata-version"@ || h == "dataserviceversion"@ {
        Some("OData"@)
    } else if h == "grpc-status"@ || h == "grpc-encoding"@ || h == "grpc-accept-encoding"@ {
        Some("gRPC"@)
    } else if h == "x-amz-request-id"@ || h == "x-amz-id-2"@ || h == "x-amz-bucket-region"@ {
        Some("S3-compatible object storage"@)
    } else if h == "x-ms-request-id"@ || h == "x-ms-version"@ {
        Some("Azure Storage"@)
    } else if h == "x-elastic-product"@ || h == "x-opensearch-version"@ {
        Some("Elasticsearch / OpenSearch"@)
    } else if h == "x-couchdb-body-time"@ || h == "x-couch-request-id"@ {
        Some("CouchDB"@)
    } else if h == "sec-websocket-version"@ || h == "sec-websocket-accept"@ {
        Some("WebSocket upgrade"@)
    } else if h == "x-kubernetes-pf-flowschema-uid"@ {
        Some("Kubernetes API"@)
    } else if h == "x-vault-index"@ || h == "x-vault-token"@ {
        Some("HashiCorp Vault"@)
    } else {
        None
    }
}

proof fn lemma_some_entry(h: Seq<char>) -> (i: int)
    requires
        identified(h) is Some,
    ensures
        0 <= i < 25,
        PROTOCOLS@[i].1@ == h,
{
    let t = PROTOCOLS@;
    if h == "tus-resumable"@ {
        assert(t[0].1@ == h);
        0
    } else if h == "tus-version"@ {
        assert(t[1].1@ == h);
        1
    } else if h == "tus-extension"@ {
        assert(t[2].1@ == h);
        2
    } else if h == "tus-max-size"@ {
        assert(t[3].1@ == h);
        3
    } else if h == "dav"@ {
        assert(t[4].1@ == h);
        4
    } else if h == "ms-author-via"@ {
        assert(t[5].1@ == h);
        5
    } else if h == "odata-version"@ {
        assert(t[6].1@ == h);
        6
    } else if h == "dataserviceversion"@ {
        assert(t[7].1@ == h);
        7
    } else if h == "grpc-status"@ {
        assert(t[8].1@ == h);
        8
    } else if h == "grpc-encoding"@ {
        assert(t[9].1@ == h);
        9
    } else if h == "grpc-accept-encoding"@ {
        assert(t[10].1@ == h);
        10
    } else if h == "x-amz-request-id"@ {
        assert(t[11].1@ == h);
        11
    } else if h == "x-amz-id-2"@ {
        assert(t[12].1@ == h);
        12
    } else if h == "x-amz-bucket-region"@ {
        assert(t[13].1@ == h);
        13
    } else if h == "x-ms-request-id"@ {
        assert(t[14].1@ == h);
        14
    } else if h == "x-ms-version"@ {
        assert(t[15].1@ == h);
        15
    } else if h == "x-elastic-product"@ {
        assert(t[16].1@ == h);
        16
    } else if h == "x-opensearch-version"@ {
        assert(t[17].1@ == h);
        17
    } else if h == "x-couchdb-body-time"@ {
        assert(t[18].1@ == h);
        18
    } else if h == "x-couch-request-id"@ {
        assert(t[19].1@ == h);
        19
    } else if h == "sec-websocket-version"@ {
        assert(t[20].1@ == h);
        20
    } else if h == "sec-websocket-accept"@ {
        assert(t[21].1@ == h);
        21
    } else if h == "x-kubernetes-pf-flowschema-uid"@ {
        assert(t[22].1@ == h);
        22
    } else if h == "x-vault-index"@ {
        assert(t[23].1@ == h);
        23
    } else {
        assert(t[24].1@ == h);
        24
    }
}

proof fn lemma_protocol_found(fs: Seq<Field>, i: int)
    requires
        0 <= i <= 25,
    ensures
        match protocol_from(fs, i) {
            Some(p) => exists|k: int|
                i <= k < 25 && field_text(fs, (#[trigger] PROTOCOLS@[k]).1@) is Some && p.0
                    == PROTOCOLS@[k].0@ && p.1 == PROTOCOLS@[k].1@ + ": "@ + trimmed(
                    field_text(fs, PROTOCOLS@[k].1@)->0,
                ) && forall|j: int|
                    i <= j < k ==> field_text(fs, (#[trigger] PROTOCOLS@[j]).1@) is None,
            None => forall|k: int|
                i <= k < 25 ==> field_text(fs, (#[trigger] PROTOCOLS@[k]).1@) is None,
        },
    decreases 25 - i,
{
    if i < 25 {
        lemma_protocol_found(fs, i + 1);
        if field_text(fs, PROTOCOLS@[i].1@) is None {
            match protocol_from(fs, i + 1) {
                Some(p) => {
                    let k = choose|k: int|
                        i + 1 <= k < 25 && field_text(fs, (#[trigger] PROTOCOLS@[k]).1@) is Some
                            && p.0 == PROTOCOLS@[k].0@ && p.1 == PROTOCOLS@[k].1@ + ": "@ + trimmed(
                            field_text(fs, PROTOCOLS@[k].1@)->0,
                        ) && forall|j: int|
                            i + 1 <= j < k ==> field_text(fs, (#[trigger] PROTOCOLS@[j]).1@) is None;
                    assert forall|j: int| i <= j < k implies field_text(
                        fs,
                        (#[trigger] PROTOCOLS@[j]).1@,
                    ) is None by {}
                },
                None => {
                    assert forall|k: int| i <= k < 25 implies field_text(
                        fs,
                        (#[trigger] PROTOCOLS@[k]).1@,
                    ) is None by {}
                },
            }
        }
    }
}

/// The table of protocols gives each header the protocol that it identifies.
pub proof fn law_headers_identify_protocols(i: int)
    requires
        0 <= i < 25,
    ensures
        identified(PROTOCOLS@[i].1@) == Some(PROTOCOLS@[i].0@),
{
    if i < 12 {
        lemma_first_entries(i);
    } else {
        lemma_last_entries(i);
    }
}

proof fn lemma_first_entries(i: int)
    requires
        0 <= i < 12,
    ensures
        identified(PROTOCOLS@[i].1@) == Some(PROTOCOLS@[i].0@),
{
    lemma_header_names();
    let t = PROTOCOLS@;
    assert(t[0] == ("tus resumable upload", "tus-resumable"));
    assert(t[1] == ("tus resumable upload", "tus-version"));
    assert(t[2] == ("tus resumable upload", "tus-extension"));
    assert(t[3] == ("tus resumable upload", "tus-max-size"));
    assert(t[4] == ("WebDAV", "dav"));
    assert(t[5] == ("WebDAV", "ms-author-via"));
    assert(t[6] == ("OData", "odata-version"));
    assert(t[7] == ("OData", "dataserviceversion"));
    assert(t[8] == ("gRPC", "grpc-status"));
    assert(t[9] == ("gRPC", "grpc-encoding"));
    assert(t[10] == ("gRPC", "grpc-accept-encoding"));
    assert(t[11] == ("S3-compatible object storage", "x-amz-request-id"));
}

proof fn lemma_last_entries(i: int)
    requires
        12 <= i < 25,
    ensures
        identified(PROTOCOLS@[i].1@) == Some(PROTOCOLS@[i].0@),
{
    lemma_header_names();
    let t = PROTOCOLS@;
    assert(t[12] == ("S3-compatible object storage", "x-amz-id-2"));
    assert(t[13] == ("S3-compatible object storage", "x-amz-bucket-region"));
    assert(t[14] == ("Azure Storage", "x-ms-request-id"));
    assert(t[15] == ("Azure Storage", "x-ms-version"));
    assert(t[16] == ("Elasticsearch / OpenSearch", "x-elastic-product"));
    assert(t[17] == ("Elasticsearch / OpenSearch", "x-opensearch-version"));
    assert(t[18] == ("CouchDB", "x-couchdb-body-time"));
    assert(t[19] == ("CouchDB", "x-couch-request-id"));
    assert(t[20] == ("WebSocket upgrade", "sec-websocket-version"));
    assert(t[21] == ("WebSocket upgrade", "sec-websocket-accept"));
    assert(t[22] == ("Kubernetes API", "x-kubernetes-pf-flowschema-uid"));
    assert(t[23] == ("HashiCorp Vault", "x-vault-index"));
    assert(t[24] == ("HashiCorp Vault", "x-vault-token"));
}

/// What tells the header names of one protocol from those of the others: their
/// length and one of their characters.
proof fn lemma_header_names()
    ensures
        "tus-resumable"@[0] == 't' && "tus-version"@[0] == 't' && "tus-extension"@[0] == 't'
            && "tus-max-size"@[0] == 't',
        "dav"@.len() == 3 && "dav"@[0] == 'd',
        "ms-author-via"@[0] == 'm',
        "odata-version"@[0] == 'o',
        "dataserviceversion"@.len() == 18 && "dataserviceversion"@[0] == 'd',
        "grpc-status"@[0] == 'g' && "grpc-encoding"@[0] == 'g' && "grpc-accept-encoding"@[0] == 'g',
        "x-amz-request-id"@[0] == 'x' && "x-amz-request-id"@[2] == 'a',
        "x-amz-id-2"@[0] == 'x' && "x-amz-id-2"@[2] == 'a',
        "x-amz-bucket-region"@[0] == 'x' && "x-amz-bucket-region"@[2] == 'a',
        "x-ms-request-id"@[0] == 'x' && "x-ms-request-id"@[2] == 'm',
        "x-ms-version"@[0] == 'x' && "x-ms-version"@[2] == 'm',
        "x-elastic-product"@[0] == 'x' && "x-elastic-product"@[2] == 'e',
        "x-opensearch-version"@[0] == 'x' && "x-opensearch-version"@[2] == 'o',
        "x-couchdb-body-time"@[0] == 'x' && "x-couchdb-body-time"@[2] == 'c',
        "x-couch-request-id"@[0] == 'x' && "x-couch-request-id"@[2] == 'c',
        "sec-websocket-version"@[0] == 's' && "sec-websocket-accept"@[0] == 's',
        "x-kubernetes-pf-flowschema-uid"@[0] == 'x' && "x-kubernetes-pf-flowschema-uid"@[2] == 'k',
        "x-vault-index"@[0] == 'x' && "x-vault-index"@[2] == 'v',
        "x-vault-token"@[0] == 'x' && "x-vault-token"@[2] == 'v',
{
    reveal_strlit("tus-resumable");
    reveal_strlit("tus-version");
    reveal_strlit("tus-extension");
    reveal_strlit("tus-max-size");
    reveal_strlit("dav");
    reveal_strlit("ms-author-via");
    reveal_strlit("odata-version");
    reveal_strlit("dataserviceversion");
    reveal_strlit("grpc-status");
    reveal_strlit("grpc-encoding");
    reveal_strlit("grpc-accept-encoding");
    reveal_strlit("x-amz-request-id");
    reveal_strlit("x-amz-id-2");
    reveal_strlit("x-amz-bucket-region");
    reveal_strlit("x-ms-request-id");
    reveal_strlit("x-ms-version");
    reveal_strlit("x-elastic-product");
    reveal_strlit("x-opensearch-version");
    reveal_strlit("x-couchdb-body-time");
    reveal_strlit("x-couch-request-id");
    reveal_strlit("sec-websocket-version");
    reveal_strlit("sec-websocket-accept");
    reveal_strlit("x-kubernetes-pf-flowschema-uid");
    reveal_strlit("x-vault-index");
    reveal_strlit("x-vault-token");
}

/// An answer advertises a protocol exactly when it has a header that identifies
/// one, and the header that is cited for it is one that it has.
pub proof fn law_protocols_are_recognized(r: Reply)
    ensures
        ({
            let fs = header_fields(r.headers);
            let p = probed(Some(r)).protocol;
            &&& p is Some ==> exists|h: Seq<char>|
                #[trigger] field_text(fs, h) is Some && identified(h) == Some((p->0).0) && (p->0).1
                    == h + ": "@ + trimmed(field_text(fs, h)->0)
            &&& forall|h: Seq<char>|
                #[trigger] field_text(fs, h) is Some && identified(h) is Some ==> p is Some
        }),
{
    let fs = header_fields(r.headers);
    lemma_protocol_found(fs, 0);
    match protocol_from(fs, 0) {
        Some(p) => {
            let k = choose|k: int|
                0 <= k < 25 && field_text(fs, (#[trigger] PROTOCOLS@[k]).1@) is Some && p.0
                    == PROTOCOLS@[k].0@ && p.1 == PROTOCOLS@[k].1@ + ": "@ + trimmed(
                    field_text(fs, PROTOCOLS@[k].1@)->0,
                ) && forall|j: int|
                    0 <= j < k ==> field_text(fs, (#[trigger] PROTOCOLS@[j]).1@) is None;
            law_headers_identify_protocols(k);
            assert(field_text(fs, PROTOCOLS@[k].1@) is Some);
        },
        None => {
            assert forall|h: Seq<char>|
                #[trigger] field_text(fs, h) is Some && identified(h) is Some implies false by {
                let i = lemma_some_entry(h);
                assert(field_text(fs, PROTOCOLS@[i].1@) is None);
            }
        },
    }
}

/// The hash of a body is taken of its length, the lowest byte first, and of its
/// bytes.
pub proof fn law_bodies_are_hashed(b: Seq<u8>, n: nat, k: nat)
    ensures
        bytes_hash(b) == DefaultHasher::spec_finish(
            seq![little_endian(b.len(), (usize::BITS / 8) as nat), b],
        ),
        little_endian(n, k).len() == k,
        little_endian(n, 0) == Seq::<u8>::empty(),
        little_endian(n, k + 1) == seq![(n % 256) as u8] + little_endian(n / 256, k),
    decreases k,
{
    if k > 0 {
        law_bodies_are_hashed(b, n / 256, (k - 1) as nat);
    }
}

} // verus!
