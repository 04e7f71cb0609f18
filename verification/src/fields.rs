//! Header fields: the model of a header map, and the calls made on one.

use crate::text::ascii_lower;
use reqwest::header::{
    HeaderMap, HeaderName, HeaderValue, InvalidHeaderName, InvalidHeaderValue, MaxSizeReached,
};
use vstd::prelude::*;
use vstd::string::*;
use vstd::utf8::{encode_utf8, is_ascii_chars, is_ascii_chars_encode_utf8};

verus! {

/// The header map of the HTTP client.
#[verifier::external_type_specification]
#[verifier::external_body]
#[verifier::reject_recursive_types(T)]
pub struct ExHeaderMap<T>(reqwest::header::HeaderMap<T>);

/// The value of one header field.
#[verifier::external_type_specification]
#[verifier::external_body]
pub struct ExHeaderValue(reqwest::header::HeaderValue);

/// The refusal of a header name.
#[verifier::external_type_specification]
#[verifier::external_body]
pub struct ExInvalidHeaderName(reqwest::header::InvalidHeaderName);

/// The refusal of a header value.
#[verifier::external_type_specification]
#[verifier::external_body]
pub struct ExInvalidHeaderValue(reqwest::header::InvalidHeaderValue);

/// The refusal of one more header.
#[verifier::external_type_specification]
#[verifier::external_body]
pub struct ExMaxSizeReached(reqwest::header::MaxSizeReached);

// ---------------------------------------------------------------------------
// The model
// ---------------------------------------------------------------------------

/// A field: its name in lower case, and the bytes of its value.
pub type Field = (Seq<char>, Seq<u8>);

/// The fields that a header map holds, in the order in which it hands them out;
/// the values of one name stand together, in the order in which they were added.
pub uninterp spec fn header_fields(m: HeaderMap<HeaderValue>) -> Seq<(Seq<char>, Seq<u8>)>;

/// The value of the first field of that name.
pub open spec fn first_value(fs: Seq<Field>, name: Seq<char>) -> Option<Seq<u8>>
    decreases fs.len(),
{
    if fs.len() == 0 {
        None
    } else if fs[0].0 == name {
        Some(fs[0].1)
    } else {
        first_value(fs.skip(1), name)
    }
}

/// The values of all the fields of that name, in order.
pub open spec fn values(fs: Seq<Field>, name: Seq<char>) -> Seq<Seq<u8>>
    decreases fs.len(),
{
    if fs.len() == 0 {
        Seq::empty()
    } else if fs.last().0 == name {
        values(fs.drop_last(), name).push(fs.last().1)
    } else {
        values(fs.drop_last(), name)
    }
}

/// The fields of other names.
pub open spec fn others(fs: Seq<Field>, name: Seq<char>) -> Seq<Field>
    decreases fs.len(),
{
    if fs.len() == 0 {
        fs
    } else if fs.last().0 == name {
        others(fs.drop_last(), name)
    } else {
        others(fs.drop_last(), name).push(fs.last())
    }
}

/// The fields once `name` has `value` for its only value: in the place of the
/// first field of that name, or at the end.
pub open spec fn inserted(fs: Seq<Field>, name: Seq<char>, value: Seq<u8>) -> Seq<Field>
    decreases fs.len(),
{
    if fs.len() == 0 {
        seq![(name, value)]
    } else if fs[0].0 == name {
        seq![(name, value)] + others(fs.skip(1), name)
    } else {
        seq![fs[0]] + inserted(fs.skip(1), name, value)
    }
}

/// Whether there is a field of that name.
pub open spec fn has_field(fs: Seq<Field>, name: Seq<char>) -> bool {
    exists|i: int| 0 <= i < fs.len() && (#[trigger] fs[i]).0 == name
}

/// The fields once `name` has one value more: behind the last field of that
/// name, or at the end.
pub open spec fn appended(fs: Seq<Field>, name: Seq<char>, value: Seq<u8>) -> Seq<Field>
    decreases fs.len(),
{
    if !has_field(fs, name) || fs.len() == 0 || fs.last().0 == name {
        fs.push((name, value))
    } else {
        appended(fs.drop_last(), name, value).push(fs.last())
    }
}

/// The characters of a header name.
pub open spec fn is_name_char(c: char) -> bool {
    ||| 'a' <= c && c <= 'z'
    ||| 'A' <= c && c <= 'Z'
    ||| '0' <= c && c <= '9'
    ||| c == '!' || c == '#' || c == '$' || c == '%' || c == '&' || c == '\''
    ||| c == '*' || c == '+' || c == '-' || c == '.'
    ||| c == '^' || c == '_' || c == '`' || c == '|' || c == '~'
}

/// Whether a text can be the name of a header.
pub open spec fn valid_name(s: Seq<char>) -> bool {
    1 <= s.len() <= 65535 && forall|i: int| 0 <= i < s.len() ==> is_name_char(#[trigger] s[i])
}

/// Whether a text can be the value of a header: it holds no control character
/// but the tab.
pub open spec fn valid_value(s: Seq<char>) -> bool {
    forall|i: int|
        0 <= i < s.len() ==> (#[trigger] s[i]) == '\t' || (s[i] >= ' ' && s[i] != '\x7f')
}

/// The bytes of a value that can be read as text.
pub open spec fn is_visible_byte(b: u8) -> bool {
    32 <= b < 127 || b == 9
}

/// The text of a value, if it is made of visible ASCII characters and tabs.
pub open spec fn value_text(b: Seq<u8>) -> Option<Seq<char>> {
    if forall|i: int| 0 <= i < b.len() ==> is_visible_byte(#[trigger] b[i]) {
        Some(Seq::new(b.len(), |i: int| b[i] as char))
    } else {
        None
    }
}

/// The view of an optional string.
pub open spec fn optional_text(o: Option<String>) -> Option<Seq<char>> {
    match o {
        Some(s) => Some(s@),
        None => None,
    }
}

/// So many fields always fit into a header map.
pub const SURE_FIELDS: usize = 6553;

// ---------------------------------------------------------------------------
// The calls
// ---------------------------------------------------------------------------

/// Calls `HeaderMap::new`, which makes an empty map.
#[verifier::external_body]
pub(crate) fn new_header_map() -> (m: HeaderMap<HeaderValue>)
    ensures
        header_fields(m) == Seq::<Field>::empty(),
{
    HeaderMap::new()
}

/// Calls `HeaderMap::clone`: the copy holds the same fields.
#[verifier::external_body]
pub(crate) fn copy_header_map(m: &HeaderMap<HeaderValue>) -> (r: HeaderMap<HeaderValue>)
    ensures
        header_fields(r) == header_fields(*m),
{
    m.clone()
}

/// Calls `HeaderName::from_bytes`. It accepts a non-empty row of at most 65535
/// name characters.
#[verifier::external_body]
pub(crate) fn check_header_name(name: &str) -> (r: Result<(), InvalidHeaderName>)
    ensures
        r is Ok == valid_name(name@),
{
    HeaderName::from_bytes(name.as_bytes()).map(|_| ())
}

/// Calls `HeaderValue::from_str`. It accepts text without control characters
/// other than the tab.
#[verifier::external_body]
pub(crate) fn check_header_value(value: &str) -> (r: Result<(), InvalidHeaderValue>)
    ensures
        r is Ok == valid_value(value@),
{
    HeaderValue::from_str(value).map(|_| ())
}

/// Calls `HeaderMap::try_insert`, which makes `value` the only value of `name`.
/// It refuses only when the map has grown to its limit, which depends on how the
/// names hash but is never reached from `SURE_FIELDS` fields or fewer; the fields are
/// then what they were.
#[verifier::external_body]
pub(crate) fn insert_header(m: &mut HeaderMap<HeaderValue>, name: &str, value: &str) -> (r: Result<
    (),
    MaxSizeReached,
>)
    requires
        valid_name(name@),
        valid_value(value@),
    ensures
        r is Ok ==> header_fields(*final(m)) == inserted(
            header_fields(*old(m)),
            ascii_lower(name@),
            encode_utf8(value@),
        ),
        r is Err ==> header_fields(*final(m)) == header_fields(*old(m)),
        header_fields(*old(m)).len() <= SURE_FIELDS ==> r is Ok,
{
    let n = HeaderName::from_bytes(name.as_bytes()).unwrap();
    let v = HeaderValue::from_str(value).unwrap();
    m.try_insert(n, v).map(|_| ())
}

/// Calls `HeaderMap::try_append`, which adds `value` to the values of `name`. It
/// refuses only when the map has grown to its limit, which depends on how the
/// names hash but is never reached from `SURE_FIELDS` fields or fewer; the fields are
/// then what they were.
#[verifier::external_body]
pub(crate) fn append_header(m: &mut HeaderMap<HeaderValue>, name: &str, value: &str) -> (r: Result<
    (),
    MaxSizeReached,
>)
    requires
        valid_name(name@),
        valid_value(value@),
    ensures
        r is Ok ==> header_fields(*final(m)) == appended(
            header_fields(*old(m)),
            ascii_lower(name@),
            encode_utf8(value@),
        ),
        r is Err ==> header_fields(*final(m)) == header_fields(*old(m)),
        header_fields(*old(m)).len() <= SURE_FIELDS ==> r is Ok,
{
    let n = HeaderName::from_bytes(name.as_bytes()).unwrap();
    let v = HeaderValue::from_str(value).unwrap();
    m.try_append(n, v).map(|_| ())
}

/// Calls `HeaderMap::get` and reads the value with `HeaderValue::to_str`. Names
/// are compared without regard to ASCII case. The outer `None` says that there
/// is no such field, the inner one that its value is not visible ASCII. Only of
/// a name that `HeaderName::from_bytes` accepts is anything claimed: a map can
/// hold fields under other names, which a lookup by text does not find.
#[verifier::external_body]
pub(crate) fn get_header(m: &HeaderMap<HeaderValue>, name: &str) -> (r: Option<Option<String>>)
    requires
        valid_name(name@),
    ensures
        match r {
            None => first_value(header_fields(*m), ascii_lower(name@)) is None,
            Some(t) => match first_value(header_fields(*m), ascii_lower(name@)) {
                Some(b) => optional_text(t) == value_text(b),
                None => false,
            },
        },
{
    m.get(name).map(|v| v.to_str().ok().map(|s| s.to_string()))
}

/// Calls `HeaderMap::get_all` and reads each value with `HeaderValue::to_str`.
/// As with `get_header`, the name has to be one that `HeaderName::from_bytes`
/// accepts.
#[verifier::external_body]
pub(crate) fn get_all_headers(m: &HeaderMap<HeaderValue>, name: &str) -> (r: Vec<Option<String>>)
    requires
        valid_name(name@),
    ensures
        r@.len() == values(header_fields(*m), ascii_lower(name@)).len(),
        forall|i: int|
            0 <= i < r@.len() ==> optional_text(#[trigger] r@[i]) == value_text(
                values(header_fields(*m), ascii_lower(name@))[i],
            ),
{
    m.get_all(name).iter().map(|v| v.to_str().ok().map(|s| s.to_string())).collect()
}

/// Calls `HeaderMap::iter` and reads each value with `HeaderValue::to_str`.
#[verifier::external_body]
pub(crate) fn list_headers(m: &HeaderMap<HeaderValue>) -> (r: Vec<(String, Option<String>)>)
    ensures
        r@.len() == header_fields(*m).len(),
        forall|i: int|
            0 <= i < r@.len() ==> (#[trigger] r@[i]).0@ == header_fields(*m)[i].0 && optional_text(
                r@[i].1,
            ) == value_text(header_fields(*m)[i].1),
{
    m.iter().map(|(k, v)| (k.as_str().to_string(), v.to_str().ok().map(|s| s.to_string()))).collect()
}

// ---------------------------------------------------------------------------
// Reading
// ---------------------------------------------------------------------------

/// The text of the first field of that name, if there is one and it is text.
/// Nothing is found under a name that no header can be asked for by.
pub open spec fn field_text(fs: Seq<Field>, name: Seq<char>) -> Option<Seq<char>> {
    if !valid_name(name) {
        None
    } else {
        match first_value(fs, ascii_lower(name)) {
            Some(b) => value_text(b),
            None => None,
        }
    }
}

/// The values that are text.
pub open spec fn readable(vs: Seq<Seq<u8>>) -> Seq<Seq<char>>
    decreases vs.len(),
{
    if vs.len() == 0 {
        Seq::empty()
    } else {
        match value_text(vs.last()) {
            Some(t) => readable(vs.drop_last()).push(t),
            None => readable(vs.drop_last()),
        }
    }
}

/// The texts of all the fields of that name.
pub open spec fn field_texts(fs: Seq<Field>, name: Seq<char>) -> Seq<Seq<char>> {
    if !valid_name(name) {
        Seq::empty()
    } else {
        readable(values(fs, ascii_lower(name)))
    }
}

// ---------------------------------------------------------------------------
// Laws
// ---------------------------------------------------------------------------

proof fn lemma_first_of_others(fs: Seq<Field>, name: Seq<char>, other: Seq<char>)
    requires
        name != other,
    ensures
        values(others(fs, name), other) == values(fs, other),
        values(others(fs, name), name) == Seq::<Seq<u8>>::empty(),
    decreases fs.len(),
{
    if fs.len() > 0 {
        lemma_first_of_others(fs.drop_last(), name, other);
        let o = others(fs.drop_last(), name);
        if fs.last().0 != name {
            assert(o.push(fs.last()).drop_last() =~= o);
        }
    }
}

proof fn lemma_values_concat(a: Seq<Field>, b: Seq<Field>, name: Seq<char>)
    ensures
        values(a + b, name) == values(a, name) + values(b, name),
    decreases b.len(),
{
    if b.len() == 0 {
        assert(a + b =~= a);
        assert(values(a, name) + values(b, name) =~= values(a, name));
    } else {
        lemma_values_concat(a, b.drop_last(), name);
        assert((a + b).drop_last() =~= a + b.drop_last());
        assert(values(a + b, name) =~= values(a, name) + values(b, name));
    }
}

proof fn lemma_values_one(f: Field, name: Seq<char>)
    ensures
        values(seq![f], name) == (if f.0 == name {
            seq![f.1]
        } else {
            Seq::empty()
        }),
{
    assert(seq![f].drop_last() =~= Seq::empty());
    assert(values(seq![f].drop_last(), name) =~= Seq::empty());
    assert(values(seq![f], name) =~= (if f.0 == name {
        seq![f.1]
    } else {
        Seq::empty()
    }));
}

/// The first value of a name is the first of its values.
pub proof fn law_get_is_the_first_of_get_all(fs: Seq<Field>, name: Seq<char>)
    ensures
        first_value(fs, name) == (if values(fs, name).len() > 0 {
            Some(values(fs, name)[0])
        } else {
            None
        }),
    decreases fs.len(),
{
    if fs.len() > 0 {
        law_get_is_the_first_of_get_all(fs.skip(1), name);
        assert(fs =~= seq![fs[0]] + fs.skip(1));
        lemma_values_concat(seq![fs[0]], fs.skip(1), name);
        lemma_values_one(fs[0], name);
    }
}

/// After an insertion the name has that one value, and every other name has
/// the values it had.
pub proof fn law_insert_replaces(
    fs: Seq<Field>,
    name: Seq<char>,
    value: Seq<u8>,
    other: Seq<char>,
)
    ensures
        values(inserted(fs, name, value), name) == seq![value],
        other != name ==> values(inserted(fs, name, value), other) == values(fs, other),
    decreases fs.len(),
{
    lemma_values_one((name, value), name);
    lemma_values_one((name, value), other);
    if fs.len() == 0 {
        assert(values(inserted(fs, name, value), other) =~= values(fs, other) || other == name);
    } else {
        let rest = fs.skip(1);
        assert(fs =~= seq![fs[0]] + rest);
        lemma_values_concat(seq![fs[0]], rest, other);
        lemma_values_one(fs[0], name);
        lemma_values_one(fs[0], other);
        if fs[0].0 == name {
            lemma_values_concat(seq![(name, value)], others(rest, name), name);
            lemma_values_concat(seq![(name, value)], others(rest, name), other);
            let apart = name.push(' ');
            assert(apart.len() != name.len());
            lemma_first_of_others(rest, name, apart);
            if other != name {
                lemma_first_of_others(rest, name, other);
                assert(values(inserted(fs, name, value), other) =~= values(fs, other));
            }
            assert(values(inserted(fs, name, value), name) =~= seq![value]);
        } else {
            law_insert_replaces(rest, name, value, other);
            lemma_values_concat(seq![fs[0]], inserted(rest, name, value), name);
            lemma_values_concat(seq![fs[0]], inserted(rest, name, value), other);
            assert(values(inserted(fs, name, value), name) =~= seq![value]);
        }
    }
}

/// After an appending the name has that value behind the values it had, and
/// every other name has the values it had.
pub proof fn law_append_adds(fs: Seq<Field>, name: Seq<char>, value: Seq<u8>, other: Seq<char>)
    ensures
        values(appended(fs, name, value), name) == values(fs, name).push(value),
        other != name ==> values(appended(fs, name, value), other) == values(fs, other),
    decreases fs.len(),
{
    if !has_field(fs, name) || fs.len() == 0 || fs.last().0 == name {
        assert(fs.push((name, value)).drop_last() =~= fs);
    } else {
        law_append_adds(fs.drop_last(), name, value, other);
        let a = appended(fs.drop_last(), name, value);
        assert(a.push(fs.last()).drop_last() =~= a);
    }
}

/// A value of visible ASCII characters is read back as it was written.
pub proof fn law_value_reads_back(s: Seq<char>)
    requires
        forall|i: int|
            0 <= i < s.len() ==> (#[trigger] s[i]) == '\t' || (' ' <= s[i] && s[i] <= '~'),
    ensures
        valid_value(s),
        value_text(encode_utf8(s)) == Some(s),
{
    assert(is_ascii_chars(s)) by {
        assert forall|i: int| 0 <= i < s.len() implies 0 <= (#[trigger] s[i]) as nat <= 127 by {
            assert(s[i] == '\t' || (' ' <= s[i] && s[i] <= '~'));
        }
    }
    is_ascii_chars_encode_utf8(s);
    let b = encode_utf8(s);
    assert forall|i: int| 0 <= i < b.len() implies is_visible_byte(#[trigger] b[i]) && b[i] as char
        == s[i] by {
        assert(s[i] == '\t' || (' ' <= s[i] && s[i] <= '~'));
    }
    assert(Seq::new(b.len(), |i: int| b[i] as char) =~= s);
}

/// Whatever is read from a header is ASCII.
pub proof fn law_read_values_are_ascii(fs: Seq<Field>, name: Seq<char>)
    ensures
        field_text(fs, name) is Some ==> is_ascii_chars(field_text(fs, name)->0),
{
    if field_text(fs, name) is Some {
        let b = first_value(fs, ascii_lower(name))->0;
        let t = field_text(fs, name)->0;
        assert forall|i: int| 0 <= i < t.len() implies 0 <= (#[trigger] t[i]) as nat <= 127 by {
            assert(is_visible_byte(b[i]));
        }
    }
}

/// A header is read by the first field of its name, in whatever case that is
/// asked for, and only if its value is text.
pub proof fn law_headers_are_read(fs: Seq<Field>, name: Seq<char>, i: int)
    requires
        valid_name(name),
        0 <= i < fs.len(),
        fs[i].0 == ascii_lower(name),
        forall|j: int| 0 <= j < i ==> (#[trigger] fs[j]).0 != ascii_lower(name),
    ensures
        field_text(fs, name) == value_text(fs[i].1),
    decreases fs.len(),
{
    lemma_first(fs, ascii_lower(name), i);
}

proof fn lemma_first(fs: Seq<Field>, name: Seq<char>, i: int)
    requires
        0 <= i < fs.len(),
        fs[i].0 == name,
        forall|j: int| 0 <= j < i ==> (#[trigger] fs[j]).0 != name,
    ensures
        first_value(fs, name) == Some(fs[i].1),
    decreases fs.len(),
{
    if i > 0 {
        let t = fs.skip(1);
        assert(fs[0].0 != name);
        assert forall|j: int| 0 <= j < i - 1 implies (#[trigger] t[j]).0 != name by {
            assert(fs[j + 1].0 != name);
        }
        lemma_first(t, name, i - 1);
    }
}

/// Each further field of a name that holds text adds that to what is read under
/// the name; no other field does.
pub proof fn law_all_headers_are_read(fs: Seq<Field>, f: Field, name: Seq<char>)
    requires
        valid_name(name),
    ensures
        field_texts(Seq::<Field>::empty(), name) == Seq::<Seq<char>>::empty(),
        f.0 == ascii_lower(name) && value_text(f.1) is Some ==> field_texts(fs.push(f), name)
            == field_texts(fs, name).push(value_text(f.1)->0),
        f.0 != ascii_lower(name) || value_text(f.1) is None ==> field_texts(fs.push(f), name)
            == field_texts(fs, name),
{
    let n = ascii_lower(name);
    assert(fs.push(f).drop_last() =~= fs);
    let vs = values(fs, n);
    assert(vs.push(f.1).drop_last() =~= vs);
}

} // verus!
