//! Text primitives: the vocabulary in which every contract of the crate is
//! written, together with verified code for each of them.

use vstd::prelude::*;
use vstd::string::*;
use vstd::utf8::is_ascii_chars;

verus! {

/// `String::push` appends one character.
pub assume_specification[ String::push ](s: &mut String, c: char)
    ensures
        final(s)@ == old(s)@.push(c),
;

/// The views of a sequence of owned strings.
pub open spec fn texts(v: Seq<String>) -> Seq<Seq<char>> {
    Seq::new(v.len(), |i: int| v[i]@)
}

/// The characters of a string, in order.
pub fn to_chars(s: &str) -> (r: Vec<char>)
    ensures
        r@ == s@,
{
    let mut r: Vec<char> = Vec::new();
    for c in it: s.chars()
        invariant
            r@ == it.seq().take(it.index() as int),
            it.seq() == s@,
    {
        r.push(c);
    }
    r
}

/// The string made of the characters `v[from..to]`.
pub fn from_chars(v: &Vec<char>, from: usize, to: usize) -> (r: String)
    requires
        from <= to <= v@.len(),
    ensures
        r@ == v@.subrange(from as int, to as int),
{
    let mut r = String::new();
    let mut i: usize = from;
    while i < to
        invariant
            from <= i <= to <= v@.len(),
            r@ == v@.subrange(from as int, i as int),
        decreases to - i,
    {
        r.push(v[i]);
        i += 1;
    }
    r
}

// ---------------------------------------------------------------------------
// Concatenation
// ---------------------------------------------------------------------------

/// Two strings in a row.
pub fn cat2(a: &str, b: &str) -> (r: String)
    ensures
        r@ == a@ + b@,
{
    let mut r = a.to_owned();
    r.append(b);
    r
}

/// Three strings in a row.
pub fn cat3(a: &str, b: &str, c: &str) -> (r: String)
    ensures
        r@ == a@ + b@ + c@,
{
    let mut r = cat2(a, b);
    r.append(c);
    r
}

/// Four strings in a row.
pub fn cat4(a: &str, b: &str, c: &str, d: &str) -> (r: String)
    ensures
        r@ == a@ + b@ + c@ + d@,
{
    let mut r = cat3(a, b, c);
    r.append(d);
    r
}

/// Five strings in a row.
pub fn cat5(a: &str, b: &str, c: &str, d: &str, e: &str) -> (r: String)
    ensures
        r@ == a@ + b@ + c@ + d@ + e@,
{
    let mut r = cat4(a, b, c, d);
    r.append(e);
    r
}

/// `n` copies of one character.
pub open spec fn repeated(c: char, n: nat) -> Seq<char> {
    Seq::new(n, |i: int| c)
}

/// A string of `n` copies of `c`.
pub fn repeat(c: char, n: usize) -> (r: String)
    ensures
        r@ == repeated(c, n as nat),
{
    let mut r = String::new();
    let mut i: usize = 0;
    while i < n
        invariant
            i <= n,
            r@ == repeated(c, i as nat),
        decreases n - i,
    {
        r.push(c);
        i += 1;
        assert(r@ =~= repeated(c, i as nat));
    }
    r
}

/// The parts in order, with `sep` between neighbours.
pub open spec fn joined(parts: Seq<Seq<char>>, sep: Seq<char>) -> Seq<char>
    decreases parts.len(),
{
    if parts.len() == 0 {
        Seq::empty()
    } else if parts.len() == 1 {
        parts[0]
    } else {
        joined(parts.drop_last(), sep) + sep + parts.last()
    }
}

/// Joins strings with a separator.
pub fn join(parts: &Vec<String>, sep: &str) -> (r: String)
    ensures
        r@ == joined(texts(parts@), sep@),
{
    let mut r = String::new();
    let mut i: usize = 0;
    while i < parts.len()
        invariant
            i <= parts@.len(),
            r@ == joined(texts(parts@).take(i as int), sep@),
        decreases parts@.len() - i,
    {
        if i > 0 {
            r.append(sep);
        }
        r.append(parts[i].as_str());
        proof {
            assert(texts(parts@).take(i + 1).drop_last() =~= texts(parts@).take(i as int));
            if i == 0 {
                assert(r@ =~= parts@[0]@);
            }
        }
        i += 1;
    }
    assert(texts(parts@).take(i as int) =~= texts(parts@));
    r
}

// ---------------------------------------------------------------------------
// Equality and ASCII case
// ---------------------------------------------------------------------------

/// Whether two strings hold the same characters.
pub fn same(a: &str, b: &str) -> (r: bool)
    ensures
        r == (a@ == b@),
{
    let x = a.to_owned();
    let y = b.to_owned();
    x == y
}

/// The lower-case form of an ASCII letter; any other character itself.
pub open spec fn ascii_lower_char(c: char) -> char {
    if 'A' <= c && c <= 'Z' {
        ((c as u32) + 32) as char
    } else {
        c
    }
}

/// Every ASCII letter in lower case, the rest untouched.
pub open spec fn ascii_lower(s: Seq<char>) -> Seq<char> {
    Seq::new(s.len(), |i: int| ascii_lower_char(s[i]))
}

/// Equality up to the case of ASCII letters.
pub open spec fn same_ignoring_case(a: Seq<char>, b: Seq<char>) -> bool {
    ascii_lower(a) == ascii_lower(b)
}

fn lower_char(c: char) -> (r: char)
    ensures
        r == ascii_lower_char(c),
{
    if 'A' <= c && c <= 'Z' {
        ((c as u8) + 32) as char
    } else {
        c
    }
}

/// Lower-cases the ASCII letters of a string.
pub fn to_ascii_lower(s: &str) -> (r: String)
    ensures
        r@ == ascii_lower(s@),
{
    let mut r = String::new();
    for c in it: s.chars()
        invariant
            r@ == ascii_lower(it.seq().take(it.index() as int)),
            it.seq() == s@,
    {
        r.push(lower_char(c));
        assert(r@ =~= ascii_lower(it.seq().take(it.index() + 1)));
    }
    assert(s@.take(s@.len() as int) =~= s@);
    r
}

/// Compares two strings up to the case of ASCII letters.
pub fn eq_ignore_case(a: &str, b: &str) -> (r: bool)
    ensures
        r == same_ignoring_case(a@, b@),
{
    let x = to_ascii_lower(a);
    let y = to_ascii_lower(b);
    x == y
}

/// What `str::to_lowercase` makes of a string that is not all ASCII.
pub uninterp spec fn unicode_lowercase(s: Seq<char>) -> Seq<char>;

/// The lower-case form of a string: its ASCII letters go to lower case first,
/// and the rest, if there is any, by the Unicode tables of the standard library.
/// Those see the two cases of an ASCII letter alike, so the order is free.
pub open spec fn lowered(s: Seq<char>) -> Seq<char> {
    if is_ascii_chars(s) {
        ascii_lower(s)
    } else {
        unicode_lowercase(ascii_lower(s))
    }
}

/// Calls `str::to_lowercase`. On ASCII text it lowers each of the letters `A`
/// to `Z` and keeps every other character; on other text the result is only
/// given a name, since it follows the Unicode case tables.
#[verifier::external_body]
fn lower_unicode(s: &str) -> (r: String)
    ensures
        r@ == (if is_ascii_chars(s@) {
            ascii_lower(s@)
        } else {
            unicode_lowercase(s@)
        }),
{
    s.to_lowercase()
}

/// Lower-cases a string.
pub fn to_lowercase(s: &str) -> (r: String)
    ensures
        r@ == lowered(s@),
{
    let a = to_ascii_lower(s);
    let r = lower_unicode(a.as_str());
    proof {
        lemma_lower_keeps_ascii(s@);
        assert(ascii_lower(a@) =~= a@);
    }
    r
}

/// Lower-casing ASCII letters leaves ASCII text ASCII, and other text other.
pub proof fn lemma_lower_keeps_ascii(s: Seq<char>)
    ensures
        is_ascii_chars(ascii_lower(s)) == is_ascii_chars(s),
{
    let a = ascii_lower(s);
    assert forall|i: int| 0 <= i < s.len() implies ('\0' <= #[trigger] s[i] <= '\u{7f}') == ('\0'
        <= a[i] <= '\u{7f}') by {}
    if is_ascii_chars(a) {
        assert forall|i: int| 0 <= i < s.len() implies '\0' <= #[trigger] s[i] <= '\u{7f}' by {
            assert(a[i] <= '\u{7f}');
        }
    }
}

// ---------------------------------------------------------------------------
// Character sets, trimming and splitting
// ---------------------------------------------------------------------------

/// A set of characters to trim or split at.
#[derive(Clone, Copy)]
pub enum CharSet {
    /// Unicode white space.
    White,
    /// One character.
    One(char),
    /// Either of two characters.
    Two(char, char),
}

/// The characters with the Unicode property `White_Space`.
pub open spec fn is_white(c: char) -> bool {
    ||| '\t' <= c && c <= '\r'
    ||| c == ' '
    ||| c == '\u{85}'
    ||| c == '\u{a0}'
    ||| c == '\u{1680}'
    ||| '\u{2000}' <= c && c <= '\u{200a}'
    ||| c == '\u{2028}'
    ||| c == '\u{2029}'
    ||| c == '\u{202f}'
    ||| c == '\u{205f}'
    ||| c == '\u{3000}'
}

impl CharSet {
    /// Whether the set holds `c`.
    pub open spec fn has(self, c: char) -> bool {
        match self {
            CharSet::White => is_white(c),
            CharSet::One(a) => c == a,
            CharSet::Two(a, b) => c == a || c == b,
        }
    }

    /// Whether the set holds `c`.
    pub fn holds(self, c: char) -> (r: bool)
        ensures
            r == self.has(c),
    {
        match self {
            CharSet::White => ('\t' <= c && c <= '\r') || c == ' ' || c == '\u{85}'
                || c == '\u{a0}' || c == '\u{1680}' || ('\u{2000}' <= c && c <= '\u{200a}')
                || c == '\u{2028}' || c == '\u{2029}' || c == '\u{202f}' || c == '\u{205f}'
                || c == '\u{3000}',
            CharSet::One(a) => c == a,
            CharSet::Two(a, b) => c == a || c == b,
        }
    }
}

/// `s` without the longest prefix made of characters of `k`.
pub open spec fn strip_start(s: Seq<char>, k: CharSet) -> Seq<char>
    decreases s.len(),
{
    if s.len() > 0 && k.has(s[0]) {
        strip_start(s.skip(1), k)
    } else {
        s
    }
}

/// `s` without the longest suffix made of characters of `k`.
pub open spec fn strip_end(s: Seq<char>, k: CharSet) -> Seq<char>
    decreases s.len(),
{
    if s.len() > 0 && k.has(s.last()) {
        strip_end(s.drop_last(), k)
    } else {
        s
    }
}

/// `s` without the characters of `k` at both ends.
pub open spec fn strip(s: Seq<char>, k: CharSet) -> Seq<char> {
    strip_end(strip_start(s, k), k)
}

/// `s` without the white space at both ends.
pub open spec fn trimmed(s: Seq<char>) -> Seq<char> {
    strip(s, CharSet::White)
}

/// Drops the characters of `k` from the chosen ends of a string.
fn strip_ends(s: &str, k: CharSet, front: bool, back: bool) -> (r: String)
    ensures
        r@ == ({
            let a = if front { strip_start(s@, k) } else { s@ };
            if back { strip_end(a, k) } else { a }
        }),
{
    let v = to_chars(s);
    let mut from: usize = 0;
    let mut to: usize = v.len();
    assert(s@.skip(0) =~= s@);
    if front {
        while from < to && k.holds(v[from])
            invariant
                from <= to == v@.len(),
                v@ == s@,
                strip_start(s@, k) == strip_start(s@.skip(from as int), k),
            decreases to - from,
        {
            assert(s@.skip(from as int).skip(1) =~= s@.skip(from + 1));
            from += 1;
        }
        assert(strip_start(s@, k) == s@.skip(from as int));
    }
    let ghost a = s@.skip(from as int);
    assert(a =~= s@.subrange(from as int, to as int));
    if back {
        while from < to && k.holds(v[to - 1])
            invariant
                from <= to <= v@.len(),
                v@ == s@,
                strip_end(a, k) == strip_end(s@.subrange(from as int, to as int), k),
            decreases to - from,
        {
            assert(s@.subrange(from as int, to as int).drop_last() =~= s@.subrange(
                from as int,
                to - 1,
            ));
            to -= 1;
        }
    }
    from_chars(&v, from, to)
}

/// Drops the characters of `k` from both ends.
pub fn strip_both(s: &str, k: CharSet) -> (r: String)
    ensures
        r@ == strip(s@, k),
{
    strip_ends(s, k, true, true)
}

/// Drops white space from both ends.
pub fn trim(s: &str) -> (r: String)
    ensures
        r@ == trimmed(s@),
{
    strip_ends(s, CharSet::White, true, true)
}

/// Drops the characters of `k` from the front.
pub fn strip_front(s: &str, k: CharSet) -> (r: String)
    ensures
        r@ == strip_start(s@, k),
{
    strip_ends(s, k, true, false)
}

/// Drops the characters of `k` from the back.
pub fn strip_back(s: &str, k: CharSet) -> (r: String)
    ensures
        r@ == strip_end(s@, k),
{
    strip_ends(s, k, false, true)
}

/// The pieces of `s` between the characters of `k`: one more piece than `s`
/// has such characters, some of them possibly empty.
pub open spec fn pieces(s: Seq<char>, k: CharSet) -> Seq<Seq<char>>
    decreases s.len(),
{
    if s.len() == 0 {
        seq![Seq::empty()]
    } else {
        let p = pieces(s.drop_last(), k);
        if k.has(s.last()) {
            p.push(Seq::empty())
        } else {
            p.drop_last().push(p.last().push(s.last()))
        }
    }
}

/// There is always a first piece.
pub proof fn lemma_pieces_nonempty(s: Seq<char>, k: CharSet)
    ensures
        pieces(s, k).len() >= 1,
    decreases s.len(),
{
    if s.len() > 0 {
        lemma_pieces_nonempty(s.drop_last(), k);
    }
}

/// No piece holds a character that was split at.
pub proof fn law_pieces_hold_no_separator(s: Seq<char>, k: CharSet, i: int, j: int)
    requires
        0 <= i < pieces(s, k).len(),
        0 <= j < pieces(s, k)[i].len(),
    ensures
        !k.has(pieces(s, k)[i][j]),
    decreases s.len(),
{
    if s.len() > 0 {
        let p = pieces(s.drop_last(), k);
        lemma_pieces_nonempty(s.drop_last(), k);
        if i < p.len() && j < p[i].len() {
            law_pieces_hold_no_separator(s.drop_last(), k, i, j);
        }
    }
}

/// Joining the pieces with the separator gives the text back.
pub proof fn law_joining_undoes_splitting(s: Seq<char>, c: char)
    ensures
        joined(pieces(s, CharSet::One(c)), seq![c]) == s,
    decreases s.len(),
{
    let k = CharSet::One(c);
    let q = pieces(s, k);
    lemma_pieces_nonempty(s, k);
    if s.len() > 0 {
        let p = pieces(s.drop_last(), k);
        law_joining_undoes_splitting(s.drop_last(), c);
        lemma_pieces_nonempty(s.drop_last(), k);
        if k.has(s.last()) {
            assert(q.drop_last() =~= p);
            assert(joined(q, seq![c]) =~= s);
        } else {
            assert(q.drop_last() =~= p.drop_last());
            assert(joined(q, seq![c]) =~= joined(p, seq![c]).push(s.last()));
            assert(s.drop_last().push(s.last()) =~= s);
        }
    }
}

/// What stripping the end of a concatenation gives.
pub proof fn lemma_strip_end_concat(a: Seq<char>, b: Seq<char>, k: CharSet)
    ensures
        strip_end(a + b, k) == (if strip_end(b, k).len() > 0 {
            a + strip_end(b, k)
        } else {
            strip_end(a, k)
        }),
        strip_end(strip_end(b, k), k) == strip_end(b, k),
    decreases b.len(),
{
    if b.len() == 0 {
        assert(a + b =~= a);
    } else if k.has(b.last()) {
        lemma_strip_end_concat(a, b.drop_last(), k);
        assert((a + b).drop_last() =~= a + b.drop_last());
    }
}

/// Stripping the end first makes no difference.
pub proof fn lemma_trimming_in_two_steps(p: Seq<char>, k: CharSet)
    ensures
        strip(strip_end(p, k), k) == strip(p, k),
    decreases p.len(),
{
    if p.len() > 0 {
        let one = seq![p[0]];
        let rest = p.skip(1);
        assert(p =~= one + rest);
        lemma_strip_end_concat(one, rest, k);
        assert(one.drop_last() =~= Seq::empty());
        lemma_strip_end_concat(one, p, k);
        if k.has(p[0]) {
            lemma_trimming_in_two_steps(rest, k);
            assert((one + strip_end(rest, k)).skip(1) =~= strip_end(rest, k));
            assert(strip_end(one.drop_last(), k) =~= Seq::empty());
            assert(strip_end(one, k) =~= Seq::empty());
        }
    }
}

/// White space at either end makes no difference to a trimmed text.
pub proof fn lemma_trimming_white(x: Seq<char>, c: char)
    requires
        is_white(c),
    ensures
        trimmed(x.push(c)) == trimmed(x),
        trimmed(seq![c] + x) == trimmed(x),
{
    let k = CharSet::White;
    assert(x.push(c).drop_last() =~= x);
    lemma_trimming_in_two_steps(x.push(c), k);
    lemma_trimming_in_two_steps(x, k);
    assert((seq![c] + x).skip(1) =~= x);
}

/// A character in front that is no separator goes to the first piece.
pub proof fn lemma_pieces_front(c: char, t: Seq<char>, k: CharSet)
    requires
        !k.has(c),
    ensures
        pieces(seq![c] + t, k) == pieces(t, k).update(0, seq![c] + pieces(t, k)[0]),
    decreases t.len(),
{
    let s = seq![c] + t;
    lemma_pieces_nonempty(t, k);
    if t.len() == 0 {
        assert(s.drop_last() =~= Seq::empty());
        assert(pieces(s.drop_last(), k) =~= seq![Seq::empty()]);
        assert(Seq::<char>::empty().push(c) =~= seq![c] + Seq::<char>::empty());
        assert(pieces(s, k) =~= pieces(t, k).update(0, seq![c] + pieces(t, k)[0]));
    } else {
        lemma_pieces_front(c, t.drop_last(), k);
        lemma_pieces_nonempty(t.drop_last(), k);
        assert(s.drop_last() =~= seq![c] + t.drop_last());
        let p = pieces(t.drop_last(), k);
        if !k.has(t.last()) && p.len() == 1 {
            assert((seq![c] + p[0]).push(t.last()) =~= seq![c] + p[0].push(t.last()));
        }
        assert(pieces(s, k) =~= pieces(t, k).update(0, seq![c] + pieces(t, k)[0]));
    }
}

/// A text without separators is one piece.
pub proof fn lemma_pieces_whole(s: Seq<char>, k: CharSet)
    requires
        forall|i: int| 0 <= i < s.len() ==> !k.has(#[trigger] s[i]),
    ensures
        pieces(s, k) == seq![s],
    decreases s.len(),
{
    if s.len() > 0 {
        lemma_pieces_whole(s.drop_last(), k);
        assert(s.drop_last().push(s.last()) =~= s);
        assert(pieces(s, k) =~= seq![s]);
    } else {
        assert(s =~= Seq::empty());
    }
}

/// The pieces on the two sides of a separator.
pub proof fn lemma_pieces_concat(a: Seq<char>, c: char, b: Seq<char>, k: CharSet)
    requires
        k.has(c),
    ensures
        pieces(a + seq![c] + b, k) == pieces(a, k) + pieces(b, k),
    decreases b.len(),
{
    let s = a + seq![c] + b;
    lemma_pieces_nonempty(b, k);
    if b.len() == 0 {
        assert(s.drop_last() =~= a);
        assert(pieces(s, k) =~= pieces(a, k) + pieces(b, k));
    } else {
        assert(s.drop_last() =~= a + seq![c] + b.drop_last());
        lemma_pieces_concat(a, c, b.drop_last(), k);
        lemma_pieces_nonempty(b.drop_last(), k);
        assert(pieces(s, k) =~= pieces(a, k) + pieces(b, k));
    }
}

/// White space around a text makes no difference once it is trimmed.
pub proof fn lemma_trimming_around(before: Seq<char>, s: Seq<char>, after: Seq<char>)
    requires
        forall|i: int| 0 <= i < before.len() ==> is_white(#[trigger] before[i]),
        forall|i: int| 0 <= i < after.len() ==> is_white(#[trigger] after[i]),
    ensures
        trimmed(before + s + after) == trimmed(s),
    decreases before.len() + after.len(),
{
    if after.len() > 0 {
        let rest = after.drop_last();
        assert forall|i: int| 0 <= i < rest.len() implies is_white(#[trigger] rest[i]) by {
            assert(is_white(after[i]));
        }
        lemma_trimming_around(before, s, rest);
        assert(is_white(after[after.len() - 1]));
        assert(before + s + after =~= (before + s + rest).push(after.last()));
        lemma_trimming_white(before + s + rest, after.last());
    } else if before.len() > 0 {
        let rest = before.skip(1);
        assert forall|i: int| 0 <= i < rest.len() implies is_white(#[trigger] rest[i]) by {
            assert(is_white(before[i + 1]));
        }
        lemma_trimming_around(rest, s, after);
        assert(is_white(before[0]));
        assert(before + s + after =~= seq![before[0]] + (rest + s + after));
        lemma_trimming_white(rest + s + after, before[0]);
    } else {
        assert(before + s + after =~= s);
    }
}

/// The upper-case form of an ASCII letter; any other character itself.
pub open spec fn ascii_upper_char(c: char) -> char {
    if 'a' <= c && c <= 'z' {
        ((c as u32) - 32) as char
    } else {
        c
    }
}

/// Every ASCII letter in upper case, the rest untouched.
pub open spec fn ascii_upper(s: Seq<char>) -> Seq<char> {
    Seq::new(s.len(), |i: int| ascii_upper_char(s[i]))
}

/// Whether a set makes no difference between the cases of an ASCII letter.
pub open spec fn caseless(k: CharSet) -> bool {
    forall|c: char| k.has(#[trigger] ascii_upper_char(c)) == k.has(c)
}

/// Upper-casing does not change where a text is trimmed.
pub proof fn lemma_upper_strip(s: Seq<char>, k: CharSet)
    requires
        caseless(k),
    ensures
        strip_start(ascii_upper(s), k) == ascii_upper(strip_start(s, k)),
        strip_end(ascii_upper(s), k) == ascii_upper(strip_end(s, k)),
    decreases s.len(),
{
    let u = ascii_upper(s);
    if s.len() > 0 {
        assert(k.has(ascii_upper_char(s[0])) == k.has(s[0]));
        assert(k.has(ascii_upper_char(s.last())) == k.has(s.last()));
        assert(u.skip(1) =~= ascii_upper(s.skip(1)));
        assert(u.drop_last() =~= ascii_upper(s.drop_last()));
        lemma_upper_strip(s.skip(1), k);
        lemma_upper_strip(s.drop_last(), k);
    }
}

/// Upper-casing does not change where a text is split.
pub proof fn lemma_upper_pieces(s: Seq<char>, k: CharSet)
    requires
        caseless(k),
    ensures
        pieces(ascii_upper(s), k).len() == pieces(s, k).len(),
        forall|i: int|
            0 <= i < pieces(s, k).len() ==> #[trigger] pieces(ascii_upper(s), k)[i] == ascii_upper(
                pieces(s, k)[i],
            ),
    decreases s.len(),
{
    let u = ascii_upper(s);
    if s.len() > 0 {
        assert(k.has(ascii_upper_char(s.last())) == k.has(s.last()));
        assert(u.drop_last() =~= ascii_upper(s.drop_last()));
        lemma_upper_pieces(s.drop_last(), k);
        lemma_pieces_nonempty(s.drop_last(), k);
        let p = pieces(s.drop_last(), k);
        let q = pieces(u.drop_last(), k);
        assert(q[p.len() - 1] == ascii_upper(p[p.len() - 1]));
        assert(ascii_upper(p.last().push(s.last())) =~= ascii_upper(p.last()).push(u.last()));
        assert(ascii_upper(Seq::<char>::empty()) =~= Seq::<char>::empty());
        assert forall|i: int| 0 <= i < pieces(s, k).len() implies #[trigger] pieces(u, k)[i]
            == ascii_upper(pieces(s, k)[i]) by {
            if i < p.len() - 1 {
                assert(q[i] == ascii_upper(p[i]));
            } else if i == p.len() - 1 {
                assert(q[i] == ascii_upper(p[i]));
            }
        }
    } else {
        assert(u =~= s);
        assert(ascii_upper(Seq::<char>::empty()) =~= Seq::<char>::empty());
    }
}

/// Upper-casing ASCII letters does not change the lower-case form of a text.
pub proof fn lemma_upper_lowered(s: Seq<char>)
    ensures
        lowered(ascii_upper(s)) == lowered(s),
{
    assert(ascii_lower(ascii_upper(s)) =~= ascii_lower(s));
    lemma_lower_keeps_ascii(s);
    lemma_lower_keeps_ascii(ascii_upper(s));
}

/// Splits a string at every character of `k`.
pub fn split(s: &str, k: CharSet) -> (r: Vec<String>)
    ensures
        texts(r@) == pieces(s@, k),
        r@.len() >= 1,
{
    let mut r: Vec<String> = Vec::new();
    let mut cur = String::new();
    assert(texts(r@).push(cur@) =~= pieces(s@.take(0), k));
    for c in it: s.chars()
        invariant
            it.seq() == s@,
            texts(r@).push(cur@) == pieces(s@.take(it.index() as int), k),
    {
        proof {
            assert(s@.take(it.index() + 1).drop_last() =~= s@.take(it.index() as int));
            assert(texts(r@).push(cur@).drop_last() =~= texts(r@));
        }
        if k.holds(c) {
            let ghost before = texts(r@).push(cur@);
            r.push(cur);
            cur = String::new();
            assert(texts(r@) =~= before);
        } else {
            cur.push(c);
        }
    }
    assert(s@.take(s@.len() as int) =~= s@);
    let ghost before = texts(r@).push(cur@);
    r.push(cur);
    assert(texts(r@) =~= before);
    r
}

/// The non-empty members of a sequence of texts.
pub open spec fn nonempty(p: Seq<Seq<char>>) -> Seq<Seq<char>>
    decreases p.len(),
{
    if p.len() == 0 {
        p
    } else if p.last().len() == 0 {
        nonempty(p.drop_last())
    } else {
        nonempty(p.drop_last()).push(p.last())
    }
}

/// The words of a text: what stands between runs of white space.
pub open spec fn words(s: Seq<char>) -> Seq<Seq<char>> {
    nonempty(pieces(s, CharSet::White))
}

/// Splits a string into words.
pub fn split_words(s: &str) -> (r: Vec<String>)
    ensures
        texts(r@) == words(s@),
{
    let all = split(s, CharSet::White);
    let mut r: Vec<String> = Vec::new();
    let mut i: usize = 0;
    assert(texts(all@).take(0) =~= Seq::empty());
    assert(texts(r@) =~= Seq::empty());
    while i < all.len()
        invariant
            i <= all@.len(),
            texts(r@) == nonempty(texts(all@).take(i as int)),
        decreases all@.len() - i,
    {
        assert(texts(all@).take(i + 1).drop_last() =~= texts(all@).take(i as int));
        let ghost before = texts(r@);
        if !all[i].as_str().is_empty() {
            r.push(all[i].clone());
            assert(texts(r@) =~= before.push(all@[i as int]@));
        }
        i += 1;
    }
    assert(texts(all@).take(i as int) =~= texts(all@));
    r
}

/// A line without the carriage return that ended it.
pub open spec fn without_cr(s: Seq<char>) -> Seq<char> {
    if s.len() > 0 && s.last() == '\r' {
        s.drop_last()
    } else {
        s
    }
}

/// The lines of a text. A line ends with a newline, or a carriage return and a
/// newline, neither of which belongs to it; the end of the last one is optional.
pub open spec fn lines(s: Seq<char>) -> Seq<Seq<char>> {
    let p = pieces(s, CharSet::One('\n'));
    let ended = Seq::new((p.len() - 1) as nat, |i: int| without_cr(p[i]));
    if p.last().len() == 0 {
        ended
    } else {
        ended.push(p.last())
    }
}

/// Splits a string into lines.
pub fn split_lines(s: &str) -> (r: Vec<String>)
    ensures
        texts(r@) == lines(s@),
{
    let p = split(s, CharSet::One('\n'));
    let last: usize = p.len() - 1;
    let mut r: Vec<String> = Vec::new();
    let mut i: usize = 0;
    while i < last
        invariant
            i <= last == p@.len() - 1,
            r@.len() == i,
            forall|j: int| 0 <= j < i ==> (#[trigger] r@[j])@ == without_cr(p@[j]@),
        decreases last - i,
    {
        let v = to_chars(p[i].as_str());
        let n = v.len();
        if n > 0 && v[n - 1] == '\r' {
            r.push(from_chars(&v, 0, n - 1));
            assert(v@.subrange(0, n - 1) =~= v@.drop_last());
        } else {
            r.push(p[i].clone());
        }
        i += 1;
    }
    if !p[last].as_str().is_empty() {
        r.push(p[last].clone());
    }
    assert(texts(r@) =~= lines(s@));
    r
}

// ---------------------------------------------------------------------------
// Searching
// ---------------------------------------------------------------------------

/// The position of the first `c` in `s`, or the length of `s` if there is none.
pub open spec fn position(s: Seq<char>, c: char) -> nat
    decreases s.len(),
{
    if s.len() == 0 || s[0] == c {
        0
    } else {
        1 + position(s.skip(1), c)
    }
}

/// What `position` is, without the recursion.
pub proof fn lemma_position(s: Seq<char>, c: char, i: int)
    requires
        0 <= i <= s.len(),
        forall|j: int| 0 <= j < i ==> s[j] != c,
        i < s.len() ==> s[i] == c,
    ensures
        position(s, c) == i,
    decreases s.len(),
{
    if i > 0 {
        assert forall|j: int| 0 <= j < i - 1 implies s.skip(1)[j] != c by {
            assert(s[j + 1] != c);
        }
        lemma_position(s.skip(1), c, i - 1);
    }
}

/// What stands before the first `c`: the whole text if there is none.
pub open spec fn head(s: Seq<char>, c: char) -> Seq<char> {
    s.take(position(s, c) as int)
}

/// The two sides of the first `c`, if there is one.
pub open spec fn halves(s: Seq<char>, c: char) -> Option<(Seq<char>, Seq<char>)> {
    if position(s, c) < s.len() {
        Some((head(s, c), s.skip((position(s, c) + 1) as int)))
    } else {
        None
    }
}

fn find_char(v: &Vec<char>, c: char) -> (r: usize)
    ensures
        r == position(v@, c),
        r <= v@.len(),
{
    let mut i: usize = 0;
    while i < v.len() && v[i] != c
        invariant
            i <= v@.len(),
            forall|j: int| 0 <= j < i ==> v@[j] != c,
        decreases v@.len() - i,
    {
        i += 1;
    }
    proof {
        lemma_position(v@, c, i as int);
    }
    i
}

/// Returns what stands before the first `c`.
pub fn before(s: &str, c: char) -> (r: String)
    ensures
        r@ == head(s@, c),
{
    let v = to_chars(s);
    let i = find_char(&v, c);
    from_chars(&v, 0, i)
}

/// Splits a string at the first `c`.
pub fn split_once(s: &str, c: char) -> (r: Option<(String, String)>)
    ensures
        match r {
            Some(p) => halves(s@, c) == Some((p.0@, p.1@)),
            None => halves(s@, c) is None,
        },
{
    let v = to_chars(s);
    let i = find_char(&v, c);
    if i < v.len() {
        let a = from_chars(&v, 0, i);
        let b = from_chars(&v, i + 1, v.len());
        assert(b@ =~= s@.skip(i + 1));
        Some((a, b))
    } else {
        None
    }
}

/// Whether `s` begins with `p`.
pub open spec fn begins(s: Seq<char>, p: Seq<char>) -> bool {
    p.len() <= s.len() && s.take(p.len() as int) == p
}

/// Whether `s` ends with `p`.
pub open spec fn ends(s: Seq<char>, p: Seq<char>) -> bool {
    p.len() <= s.len() && s.skip(s.len() - p.len()) == p
}

/// Whether `p` occurs in `s` at `i`.
pub open spec fn occurs_at(s: Seq<char>, p: Seq<char>, i: int) -> bool {
    0 <= i && i + p.len() <= s.len() && s.subrange(i, i + p.len()) == p
}

/// Whether `p` occurs anywhere in `s`.
pub open spec fn includes(s: Seq<char>, p: Seq<char>) -> bool {
    exists|i: int| occurs_at(s, p, i)
}

fn matches_at(v: &Vec<char>, p: &Vec<char>, at: usize) -> (r: bool)
    requires
        at + p@.len() <= v@.len(),
    ensures
        r == occurs_at(v@, p@, at as int),
{
    let n: usize = v.len();
    let mut i: usize = 0;
    while i < p.len()
        invariant
            i <= p@.len(),
            at + p@.len() <= n == v@.len(),
            forall|j: int| 0 <= j < i ==> v@[at + j] == p@[j],
        decreases p@.len() - i,
    {
        if v[at + i] != p[i] {
            assert(v@.subrange(at as int, at + p@.len())[i as int] != p@[i as int]);
            return false;
        }
        i += 1;
    }
    assert(v@.subrange(at as int, at + p@.len()) =~= p@);
    true
}

/// Whether a string begins with another.
pub fn starts_with(s: &str, p: &str) -> (r: bool)
    ensures
        r == begins(s@, p@),
{
    let v = to_chars(s);
    let q = to_chars(p);
    if q.len() > v.len() {
        return false;
    }
    assert(s@.subrange(0, p@.len() as int) =~= s@.take(p@.len() as int));
    matches_at(&v, &q, 0)
}

/// Whether a string ends with another.
pub fn ends_with(s: &str, p: &str) -> (r: bool)
    ensures
        r == ends(s@, p@),
{
    let v = to_chars(s);
    let q = to_chars(p);
    if q.len() > v.len() {
        return false;
    }
    assert(s@.subrange(s@.len() - p@.len(), s@.len() as int) =~= s@.skip(s@.len() - p@.len()));
    matches_at(&v, &q, v.len() - q.len())
}

/// Whether a string occurs in another.
pub fn contains(s: &str, p: &str) -> (r: bool)
    ensures
        r == includes(s@, p@),
{
    let v = to_chars(s);
    let q = to_chars(p);
    if q.len() > v.len() {
        return false;
    }
    let top: usize = v.len() - q.len();
    let mut i: usize = 0;
    while i <= top
        invariant
            i <= top + 1,
            top + q@.len() == v@.len(),
            v@ == s@,
            q@ == p@,
            forall|j: int| 0 <= j < i ==> !occurs_at(s@, p@, j),
        decreases top + 1 - i,
    {
        if matches_at(&v, &q, i) {
            return true;
        }
        if i == top {
            return false;
        }
        i += 1;
    }
    false
}

/// Whether a string holds a character.
pub fn contains_char(s: &str, c: char) -> (r: bool)
    ensures
        r == s@.contains(c),
{
    let v = to_chars(s);
    let i = find_char(&v, c);
    proof {
        lemma_position_misses(s@, c);
    }
    i < v.len()
}

/// A text holds `c` exactly when the search for it ends inside the text.
pub proof fn lemma_position_misses(s: Seq<char>, c: char)
    ensures
        position(s, c) <= s.len(),
        s.contains(c) <==> position(s, c) < s.len(),
        position(s, c) < s.len() ==> s[position(s, c) as int] == c,
    decreases s.len(),
{
    if s.len() > 0 && s[0] != c {
        lemma_position_misses(s.skip(1), c);
        if s.contains(c) {
            let i = choose|i: int| 0 <= i < s.len() && s[i] == c;
            assert(s.skip(1)[i - 1] == c);
        }
        if s.skip(1).contains(c) {
            let i = choose|i: int| 0 <= i < s.skip(1).len() && s.skip(1)[i] == c;
            assert(s[i + 1] == c);
        }
    } else if s.len() > 0 {
        assert(s[0] == c);
    }
}

/// Whether one of the texts equals `t`.
pub open spec fn has_text(v: Seq<Seq<char>>, t: Seq<char>) -> bool {
    exists|i: int| 0 <= i < v.len() && v[i] == t
}

/// Whether one of the texts equals `t` up to ASCII case.
pub open spec fn has_text_ignoring_case(v: Seq<Seq<char>>, t: Seq<char>) -> bool {
    exists|i: int| 0 <= i < v.len() && same_ignoring_case(#[trigger] v[i], t)
}

/// Whether one of the strings equals `t`.
pub fn any_same(v: &Vec<String>, t: &str) -> (r: bool)
    ensures
        r == has_text(texts(v@), t@),
{
    let mut i: usize = 0;
    while i < v.len()
        invariant
            i <= v@.len(),
            forall|j: int| 0 <= j < i ==> texts(v@)[j] != t@,
        decreases v@.len() - i,
    {
        if same(v[i].as_str(), t) {
            assert(texts(v@)[i as int] == t@);
            return true;
        }
        i += 1;
    }
    false
}

/// Whether one of the strings equals `t` up to ASCII case.
pub fn any_same_ignoring_case(v: &Vec<String>, t: &str) -> (r: bool)
    ensures
        r == has_text_ignoring_case(texts(v@), t@),
{
    let mut i: usize = 0;
    while i < v.len()
        invariant
            i <= v@.len(),
            forall|j: int| 0 <= j < i ==> !same_ignoring_case(#[trigger] texts(v@)[j], t@),
        decreases v@.len() - i,
    {
        if eq_ignore_case(v[i].as_str(), t) {
            assert(same_ignoring_case(texts(v@)[i as int], t@));
            return true;
        }
        i += 1;
    }
    false
}

// ---------------------------------------------------------------------------
// Laws
// ---------------------------------------------------------------------------

/// What stands in a concatenation stands in one of its parts.
pub proof fn lemma_among<A>(a: Seq<A>, b: Seq<A>, x: A)
    ensures
        (a + b).contains(x) <==> a.contains(x) || b.contains(x),
        a.push(x).contains(x),
{
    assert(a.push(x)[a.len() as int] == x);
    if a.contains(x) {
        let i = choose|i: int| 0 <= i < a.len() && a[i] == x;
        assert((a + b)[i] == x);
    }
    if b.contains(x) {
        let i = choose|i: int| 0 <= i < b.len() && b[i] == x;
        assert((a + b)[a.len() + i] == x);
    }
    if (a + b).contains(x) {
        let i = choose|i: int| 0 <= i < (a + b).len() && (a + b)[i] == x;
        if i < a.len() {
            assert(a[i] == x);
        } else {
            assert(b[i - a.len()] == x);
        }
    }
}

/// Lower-casing touches the letters `A` to `Z` alone, and moves each to its
/// small letter.
pub proof fn law_lower_case(s: Seq<char>)
    ensures
        ascii_lower(s).len() == s.len(),
        forall|i: int|
            0 <= i < s.len() ==> (if 'A' <= s[i] && s[i] <= 'Z' {
                (#[trigger] ascii_lower(s)[i]) as u32 == s[i] as u32 + 32
            } else {
                ascii_lower(s)[i] == s[i]
            }),
        is_ascii_chars(s) ==> lowered(s) == ascii_lower(s),
{
}

/// Two texts are the same up to case exactly when they are as long, and each
/// pair of characters is equal or the two cases of one ASCII letter.
pub proof fn law_same_up_to_case(a: Seq<char>, b: Seq<char>)
    ensures
        same_ignoring_case(a, b) <==> a.len() == b.len() && forall|i: int|
            0 <= i < a.len() ==> #[trigger] a[i] == b[i] || ('A' <= a[i] && a[i] <= 'Z' && b[i] as u32
                == a[i] as u32 + 32) || ('A' <= b[i] && b[i] <= 'Z' && a[i] as u32 == b[i] as u32
                + 32),
{
    let x = ascii_lower(a);
    let y = ascii_lower(b);
    if same_ignoring_case(a, b) {
        assert(x.len() == y.len());
        assert forall|i: int| 0 <= i < a.len() implies #[trigger] a[i] == b[i] || ('A' <= a[i]
            && a[i] <= 'Z' && b[i] as u32 == a[i] as u32 + 32) || ('A' <= b[i] && b[i] <= 'Z'
            && a[i] as u32 == b[i] as u32 + 32) by {
            assert(x[i] == y[i]);
        }
    } else if a.len() == b.len() && forall|i: int|
        0 <= i < a.len() ==> #[trigger] a[i] == b[i] || ('A' <= a[i] && a[i] <= 'Z' && b[i] as u32
            == a[i] as u32 + 32) || ('A' <= b[i] && b[i] <= 'Z' && a[i] as u32 == b[i] as u32
            + 32) {
        assert forall|i: int| 0 <= i < x.len() implies x[i] == y[i] by {
            assert(a[i] == b[i] || a[i] != b[i]);
        }
        assert(x =~= y);
    }
}

/// The characters of printed ASCII are no white space; the blank, the tab and
/// the ends of a line are.
pub proof fn law_white_space(c: char)
    ensures
        '!' <= c && c <= '~' ==> !is_white(c),
        c == ' ' || c == '\t' || c == '\n' || c == '\r' || c == '\u{a0}' ==> is_white(c),
{
}

/// Stripping takes characters of the set alone, and takes all of them from the
/// end at which it works.
pub proof fn law_stripping(s: Seq<char>, k: CharSet)
    ensures
        exists|n: int|
            0 <= n <= s.len() && strip_start(s, k) == #[trigger] s.skip(n) && (forall|i: int|
                0 <= i < n ==> k.has(#[trigger] s[i])),
        strip_start(s, k).len() > 0 ==> !k.has(strip_start(s, k)[0]),
        exists|n: int|
            0 <= n <= s.len() && strip_end(s, k) == #[trigger] s.take(n) && (forall|i: int|
                n <= i < s.len() ==> k.has(#[trigger] s[i])),
        strip_end(s, k).len() > 0 ==> !k.has(strip_end(s, k).last()),
    decreases s.len(),
{
    if s.len() > 0 && k.has(s[0]) {
        let t = s.skip(1);
        law_stripping(t, k);
        let n = choose|n: int|
            0 <= n <= t.len() && strip_start(t, k) == #[trigger] t.skip(n) && (forall|i: int|
                0 <= i < n ==> k.has(#[trigger] t[i]));
        assert(t.skip(n) =~= s.skip(n + 1));
        assert forall|i: int| 0 <= i < n + 1 implies k.has(#[trigger] s[i]) by {
            if i > 0 {
                assert(k.has(t[i - 1]));
            }
        }
    } else {
        assert(s.skip(0) =~= s);
    }
    if s.len() > 0 && k.has(s.last()) {
        let t = s.drop_last();
        law_stripping(t, k);
        let n = choose|n: int|
            0 <= n <= t.len() && strip_end(t, k) == #[trigger] t.take(n) && (forall|i: int|
                n <= i < t.len() ==> k.has(#[trigger] t[i]));
        assert(t.take(n) =~= s.take(n));
        assert forall|i: int| n <= i < s.len() implies k.has(#[trigger] s[i]) by {
            if i < t.len() {
                assert(k.has(t[i]));
            }
        }
    } else {
        assert(s.take(s.len() as int) =~= s);
    }
}

/// Trimming leaves a part of the text around which there is only white space,
/// and that neither begins nor ends with any.
pub proof fn law_trimming(s: Seq<char>)
    ensures
        exists|n: int, m: int|
            0 <= n <= m <= s.len() && trimmed(s) == #[trigger] s.subrange(n, m) && (forall|i: int|
                0 <= i < n ==> is_white(#[trigger] s[i])) && (forall|i: int|
                m <= i < s.len() ==> is_white(#[trigger] s[i])),
        trimmed(s).len() > 0 ==> !is_white(trimmed(s)[0]) && !is_white(trimmed(s).last()),
{
    let k = CharSet::White;
    law_stripping(s, k);
    let a = strip_start(s, k);
    let n = choose|n: int|
        0 <= n <= s.len() && a == #[trigger] s.skip(n) && (forall|i: int|
            0 <= i < n ==> k.has(#[trigger] s[i]));
    law_stripping(a, k);
    let m = choose|m: int|
        0 <= m <= a.len() && strip_end(a, k) == #[trigger] a.take(m) && (forall|i: int|
            m <= i < a.len() ==> k.has(#[trigger] a[i]));
    assert(a.take(m) =~= s.subrange(n, n + m));
    assert forall|i: int| 0 <= i < n implies is_white(#[trigger] s[i]) by {
        assert(k.has(s[i]));
    }
    assert forall|i: int| n + m <= i < s.len() implies is_white(#[trigger] s[i]) by {
        assert(k.has(a[i - n]));
    }
}

/// A text begins with another exactly when it is that text and something behind
/// it; it ends with another exactly when something stands before that text.
pub proof fn law_beginnings_and_endings(s: Seq<char>, p: Seq<char>)
    ensures
        begins(s, p) <==> exists|t: Seq<char>| s == #[trigger] (p + t),
        ends(s, p) <==> exists|t: Seq<char>| s == #[trigger] (t + p),
{
    if begins(s, p) {
        assert(s =~= p + s.skip(p.len() as int));
    }
    if exists|t: Seq<char>| s == #[trigger] (p + t) {
        assert(s.take(p.len() as int) =~= p);
    }
    if ends(s, p) {
        assert(s =~= s.take(s.len() - p.len()) + p);
    }
    if exists|t: Seq<char>| s == #[trigger] (t + p) {
        assert(s.skip(s.len() - p.len()) =~= p);
    }
}

/// A text occurs in another exactly when something stands before it and behind
/// it there.
pub proof fn law_occurrences(s: Seq<char>, p: Seq<char>)
    ensures
        includes(s, p) <==> exists|a: Seq<char>, b: Seq<char>| s == #[trigger] (a + p + b),
{
    if includes(s, p) {
        let i = choose|i: int| occurs_at(s, p, i);
        assert(s =~= s.take(i) + p + s.skip(i + p.len()));
    }
    if exists|a: Seq<char>, b: Seq<char>| s == #[trigger] (a + p + b) {
        let (a, b) = choose|a: Seq<char>, b: Seq<char>| s == #[trigger] (a + p + b);
        assert(s.subrange(a.len() as int, (a.len() + p.len()) as int) =~= p);
        assert(occurs_at(s, p, a.len() as int));
    }
}

/// A joined row begins with its first part, and each further part adds the
/// separator and itself.
pub proof fn law_joining(parts: Seq<Seq<char>>, x: Seq<char>, sep: Seq<char>)
    ensures
        joined(Seq::<Seq<char>>::empty(), sep) == Seq::<char>::empty(),
        joined(seq![x], sep) == x,
        parts.len() > 0 ==> joined(parts.push(x), sep) == joined(parts, sep) + sep + x,
{
    assert(parts.push(x).drop_last() =~= parts);
}

/// A first occurrence of a character parts a text in two; without one the whole
/// text is its head.
pub proof fn law_parting(a: Seq<char>, c: char, b: Seq<char>)
    requires
        !a.contains(c),
    ensures
        head(a + seq![c] + b, c) == a,
        halves(a + seq![c] + b, c) == Some((a, b)),
        head(a, c) == a,
        halves(a, c) is None,
{
    let s = a + seq![c] + b;
    assert forall|j: int| 0 <= j < a.len() implies s[j] != c && a[j] != c by {
        assert(a.contains(a[j]));
    }
    lemma_position(s, c, a.len() as int);
    lemma_position(a, c, a.len() as int);
    assert(s.take(a.len() as int) =~= a);
    assert(s.skip((a.len() + 1) as int) =~= b);
    assert(a.take(a.len() as int) =~= a);
}

proof fn lemma_nonempty_concat(a: Seq<Seq<char>>, b: Seq<Seq<char>>)
    ensures
        nonempty(a + b) == nonempty(a) + nonempty(b),
    decreases b.len(),
{
    if b.len() == 0 {
        assert(a + b =~= a);
        assert(nonempty(a) + nonempty(b) =~= nonempty(a));
    } else {
        lemma_nonempty_concat(a, b.drop_last());
        assert((a + b).drop_last() =~= a + b.drop_last());
        assert(nonempty(a + b) =~= nonempty(a) + nonempty(b));
    }
}

/// White space parts words, a text without any is one word, and there is no
/// empty word.
pub proof fn law_words(a: Seq<char>, c: char, b: Seq<char>)
    requires
        is_white(c),
    ensures
        words(a + seq![c] + b) == words(a) + words(b),
        (forall|i: int| 0 <= i < a.len() ==> !is_white(#[trigger] a[i])) && a.len() > 0 ==> words(a)
            == seq![a],
        words(Seq::<char>::empty()) == Seq::<Seq<char>>::empty(),
{
    let k = CharSet::White;
    lemma_pieces_concat(a, c, b, k);
    lemma_nonempty_concat(pieces(a, k), pieces(b, k));
    if (forall|i: int| 0 <= i < a.len() ==> !is_white(#[trigger] a[i])) && a.len() > 0 {
        assert forall|i: int| 0 <= i < a.len() implies !k.has(#[trigger] a[i]) by {
            assert(!is_white(a[i]));
        }
        lemma_pieces_whole(a, k);
        reveal_with_fuel(nonempty, 2);
        assert(seq![a].drop_last() =~= Seq::empty());
        assert(words(a) =~= seq![a]);
    }
    reveal_with_fuel(nonempty, 2);
    let one = seq![Seq::<char>::empty()];
    assert(pieces(Seq::<char>::empty(), k) =~= one);
    assert(one.drop_last() =~= Seq::empty());
    assert(nonempty(one) =~= Seq::empty());
}

/// A newline ends a line, and takes a carriage return before it along; what is
/// left behind the last newline is a line if it is not empty.
pub proof fn law_lines(a: Seq<char>, b: Seq<char>)
    requires
        !a.contains('\n'),
    ensures
        lines(a + seq!['\n'] + b) == seq![
            if a.len() > 0 && a.last() == '\r' {
                a.drop_last()
            } else {
                a
            },
        ] + lines(b),
        a.len() > 0 ==> lines(a) == seq![a],
        lines(Seq::<char>::empty()) == Seq::<Seq<char>>::empty(),
{
    let k = CharSet::One('\n');
    assert forall|i: int| 0 <= i < a.len() implies !k.has(#[trigger] a[i]) by {
        assert(a.contains(a[i]));
    }
    lemma_pieces_whole(a, k);
    lemma_pieces_concat(a, '\n', b, k);
    lemma_pieces_nonempty(b, k);
    let p = pieces(b, k);
    let q = pieces(a + seq!['\n'] + b, k);
    assert(q =~= seq![a] + p);
    assert(q.last() == p.last());
    assert(lines(a + seq!['\n'] + b) =~= seq![without_cr(a)] + lines(b));
    assert(a.len() > 0 ==> lines(a) =~= seq![a]);
    assert(pieces(Seq::<char>::empty(), k) =~= seq![Seq::<char>::empty()]);
    assert(lines(Seq::<char>::empty()) =~= Seq::empty());
}

/// What occurs in a text occurs in a longer one.
pub proof fn lemma_includes_around(a: Seq<char>, s: Seq<char>, b: Seq<char>, p: Seq<char>)
    requires
        includes(s, p),
    ensures
        includes(a + s + b, p),
        includes(a + s, p),
        includes(s + b, p),
{
    let i = choose|i: int| occurs_at(s, p, i);
    let n = a.len() as int;
    assert((a + s + b).subrange(n + i, n + i + p.len()) =~= p);
    assert(occurs_at(a + s + b, p, n + i));
    assert((a + s).subrange(n + i, n + i + p.len()) =~= p);
    assert(occurs_at(a + s, p, n + i));
    assert((s + b).subrange(i, i + p.len()) =~= p);
    assert(occurs_at(s + b, p, i));
}

/// A text occurs in itself.
pub proof fn lemma_includes_itself(p: Seq<char>)
    ensures
        includes(p, p),
{
    assert(p.subrange(0, p.len() as int) =~= p);
    assert(occurs_at(p, p, 0));
}

} // verus!
