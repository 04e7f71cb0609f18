//! The grammar of a Set-Cookie line.

use crate::fields::optional_text;
use crate::text::{
    before, eq_ignore_case, halves, head, law_parting, lemma_pieces_concat, lemma_pieces_nonempty,
    lemma_pieces_whole, pieces, same_ignoring_case, split, split_once, texts, trim, trimmed,
    CharSet,
};
use vstd::prelude::*;
use vstd::string::*;

verus! {

/// The name of the cookie that a line sets.
pub open spec fn cookie_name(line: Seq<char>) -> Seq<char> {
    trimmed(head(line, '='))
}

/// The attributes of a line: the trimmed pieces behind the first semicolon. A
/// value or a domain like "secure.example.com" is no attribute.
pub open spec fn attributes(line: Seq<char>) -> Seq<Seq<char>> {
    let p = pieces(line, CharSet::One(';'));
    Seq::new((p.len() - 1) as nat, |i: int| trimmed(p[i + 1]))
}

/// Whether an attribute has that name, up to ASCII case.
pub open spec fn is_attribute(a: Seq<char>, name: Seq<char>) -> bool {
    same_ignoring_case(trimmed(head(a, '=')), name)
}

/// Whether one of the attributes has that name.
pub open spec fn has_attribute(attrs: Seq<Seq<char>>, name: Seq<char>) -> bool {
    exists|i: int| 0 <= i < attrs.len() && is_attribute(#[trigger] attrs[i], name)
}

/// The value of the first attribute that has that name and a value.
pub open spec fn attribute_value(attrs: Seq<Seq<char>>, name: Seq<char>) -> Option<Seq<char>>
    decreases attrs.len(),
{
    if attrs.len() == 0 {
        None
    } else {
        let rest = attribute_value(attrs.skip(1), name);
        match halves(attrs[0], '=') {
            Some(p) => if same_ignoring_case(trimmed(p.0), name) {
                Some(trimmed(p.1))
            } else {
                rest
            },
            None => rest,
        }
    }
}

/// Reads the name of the cookie that a line sets.
pub fn name_of(line: &str) -> (r: String)
    ensures
        r@ == cookie_name(line@),
{
    let n = before(line, '=');
    trim(n.as_str())
}

/// Reads the attributes of a line.
pub fn attributes_of(line: &str) -> (r: Vec<String>)
    ensures
        texts(r@) == attributes(line@),
{
    let parts = split(line, CharSet::One(';'));
    let ghost want = attributes(line@);
    let mut r: Vec<String> = Vec::new();
    let mut i: usize = 1;
    assert(texts(r@) =~= want.take(0));
    while i < parts.len()
        invariant
            1 <= i <= parts@.len(),
            texts(parts@) == pieces(line@, CharSet::One(';')),
            want == attributes(line@),
            texts(r@) == want.take(i - 1),
        decreases parts@.len() - i,
    {
        let t = trim(parts[i].as_str());
        assert(texts(parts@)[i as int] == parts@[i as int]@);
        assert(want[i - 1] == t@);
        let ghost had = r@;
        r.push(t);
        assert(texts(r@) =~= texts(had).push(t@));
        assert(want.take(i as int) =~= want.take(i - 1).push(t@));
        i += 1;
    }
    assert(want.take(i - 1) =~= want);
    r
}

/// Tells whether one of the attributes has that name.
pub fn any_attribute(attrs: &Vec<String>, name: &str) -> (r: bool)
    ensures
        r == has_attribute(texts(attrs@), name@),
{
    let mut i: usize = 0;
    while i < attrs.len()
        invariant
            i <= attrs@.len(),
            forall|j: int| 0 <= j < i ==> !is_attribute(#[trigger] texts(attrs@)[j], name@),
        decreases attrs@.len() - i,
    {
        let n = before(attrs[i].as_str(), '=');
        let n = trim(n.as_str());
        if eq_ignore_case(n.as_str(), name) {
            assert(is_attribute(texts(attrs@)[i as int], name@));
            return true;
        }
        i += 1;
    }
    false
}

/// Reads the value of the first attribute that has that name and a value.
pub fn value_of(attrs: &Vec<String>, name: &str) -> (r: Option<String>)
    ensures
        optional_text(r) == attribute_value(texts(attrs@), name@),
{
    let ghost all = texts(attrs@);
    let mut i: usize = 0;
    assert(all.skip(0) =~= all);
    while i < attrs.len()
        invariant
            i <= attrs@.len(),
            all == texts(attrs@),
            attribute_value(all, name@) == attribute_value(all.skip(i as int), name@),
        decreases attrs@.len() - i,
    {
        assert(all.skip(i as int)[0] == attrs@[i as int]@);
        assert(all.skip(i as int).skip(1) =~= all.skip(i + 1));
        match split_once(attrs[i].as_str(), '=') {
            Some(p) => {
                let k = trim(p.0.as_str());
                if eq_ignore_case(k.as_str(), name) {
                    return Some(trim(p.1.as_str()));
                }
            },
            None => {},
        }
        i += 1;
    }
    None
}

// ---------------------------------------------------------------------------
// Laws
// ---------------------------------------------------------------------------

/// The name and value of a cookie are never taken for an attribute: whatever
/// they say, the attributes are those that stand behind the first semicolon.
pub proof fn law_cookie_value_is_no_attribute(pair: Seq<char>, rest: Seq<char>)
    requires
        !pair.contains(';'),
    ensures
        attributes(pair + seq![';'] + rest) == Seq::new(
            pieces(rest, CharSet::One(';')).len(),
            |i: int| trimmed(pieces(rest, CharSet::One(';'))[i]),
        ),
        attributes(pair) == Seq::<Seq<char>>::empty(),
{
    let k = CharSet::One(';');
    lemma_pieces_whole(pair, k);
    lemma_pieces_concat(pair, ';', rest, k);
    let p = pieces(rest, k);
    assert(attributes(pair + seq![';'] + rest) =~= Seq::new(p.len(), |i: int| trimmed(p[i])));
}

/// Whether one of the pieces behind the first semicolon has that name, with or
/// without a value.
pub open spec fn carries(line: Seq<char>, name: Seq<char>) -> bool {
    exists|i: int|
        1 <= i < pieces(line, CharSet::One(';')).len() && same_ignoring_case(
            trimmed(head(trimmed(#[trigger] pieces(line, CharSet::One(';'))[i]), '=')),
            name,
        )
}

/// Whether piece `i` gives that name a value.
pub open spec fn assigns(line: Seq<char>, name: Seq<char>, i: int) -> bool {
    match halves(trimmed(pieces(line, CharSet::One(';'))[i]), '=') {
        Some(p) => same_ignoring_case(trimmed(p.0), name),
        None => false,
    }
}

/// Whether `v` is what the first piece behind the first semicolon that gives
/// that name a value says; none if there is no such piece.
pub open spec fn assigned(line: Seq<char>, name: Seq<char>, v: Option<Seq<char>>) -> bool {
    let n = pieces(line, CharSet::One(';')).len();
    match v {
        Some(t) => exists|i: int|
            1 <= i < n && #[trigger] assigns(line, name, i) && t == trimmed(
                (halves(trimmed(pieces(line, CharSet::One(';'))[i]), '=')->0).1,
            ) && forall|j: int| 1 <= j < i ==> !#[trigger] assigns(line, name, j),
        None => forall|j: int| 1 <= j < n ==> !#[trigger] assigns(line, name, j),
    }
}

/// The name of a cookie is what stands before the first equals sign.
pub proof fn law_cookie_is_named(name: Seq<char>, rest: Seq<char>)
    requires
        !name.contains('='),
    ensures
        cookie_name(name + seq!['='] + rest) == trimmed(name),
{
    law_parting(name, '=', rest);
}

/// A line has an attribute exactly when it carries its name.
pub proof fn law_attributes_are_found(line: Seq<char>, name: Seq<char>)
    ensures
        has_attribute(attributes(line), name) <==> carries(line, name),
{
    let p = pieces(line, CharSet::One(';'));
    let attrs = attributes(line);
    lemma_pieces_nonempty(line, CharSet::One(';'));
    if has_attribute(attrs, name) {
        let i = choose|i: int| 0 <= i < attrs.len() && is_attribute(#[trigger] attrs[i], name);
        assert(attrs[i] == trimmed(p[i + 1]));
    }
    if carries(line, name) {
        let i = choose|i: int|
            1 <= i < p.len() && same_ignoring_case(
                trimmed(head(trimmed(#[trigger] p[i]), '=')),
                name,
            );
        assert(is_attribute(attrs[i - 1], name));
    }
}

proof fn lemma_value_found(line: Seq<char>, name: Seq<char>, k: int, v: Option<Seq<char>>)
    requires
        0 <= k < pieces(line, CharSet::One(';')).len(),
        assigned(line, name, v),
        forall|j: int| 1 <= j < k + 1 ==> !#[trigger] assigns(line, name, j),
    ensures
        attribute_value(attributes(line).skip(k), name) == v,
    decreases attributes(line).len() - k,
{
    let p = pieces(line, CharSet::One(';'));
    let attrs = attributes(line);
    let rest = attrs.skip(k);
    if k < attrs.len() {
        assert(rest[0] == trimmed(p[k + 1]));
        assert(rest.skip(1) =~= attrs.skip(k + 1));
        if assigns(line, name, k + 1) {
            assert(v is Some);
            let i = choose|i: int|
                1 <= i < p.len() && #[trigger] assigns(line, name, i) && v->0 == trimmed(
                    (halves(trimmed(p[i]), '=')->0).1,
                ) && forall|j: int| 1 <= j < i ==> !#[trigger] assigns(line, name, j);
            assert(i == k + 1);
        } else {
            lemma_value_found(line, name, k + 1, v);
        }
    } else {
        if v is Some {
            let i = choose|i: int|
                1 <= i < p.len() && #[trigger] assigns(line, name, i) && v->0 == trimmed(
                    (halves(trimmed(p[i]), '=')->0).1,
                ) && forall|j: int| 1 <= j < i ==> !#[trigger] assigns(line, name, j);
            assert(false);
        }
    }
}

/// The value of an attribute is the one that the line assigns to it first.
pub proof fn law_the_first_value_counts(line: Seq<char>, name: Seq<char>, v: Option<Seq<char>>)
    requires
        assigned(line, name, v),
    ensures
        attribute_value(attributes(line), name) == v,
{
    lemma_pieces_nonempty(line, CharSet::One(';'));
    lemma_value_found(line, name, 0, v);
    assert(attributes(line).skip(0) =~= attributes(line));
}

} // verus!
