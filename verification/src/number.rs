//! Decimal numbers: how they are written and how they are read.

use crate::text::{cat2, to_chars};
use vstd::prelude::*;

verus! {

/// The character for one decimal digit.
pub open spec fn digit_char(d: nat) -> char {
    (('0' as u32) + d) as char
}

/// A natural number in decimal, without leading zeros.
pub open spec fn decimal(n: nat) -> Seq<char>
    decreases n,
{
    if n < 10 {
        seq![digit_char(n)]
    } else {
        decimal(n / 10).push(digit_char(n % 10))
    }
}

/// An integer in decimal, with a minus sign if it is negative.
pub open spec fn signed_decimal(n: int) -> Seq<char> {
    if n < 0 {
        "-"@ + decimal((-n) as nat)
    } else {
        decimal(n as nat)
    }
}

fn write_digits(out: &mut String, n: u64)
    ensures
        final(out)@ == old(out)@ + decimal(n as nat),
    decreases n,
{
    if n >= 10 {
        write_digits(out, n / 10);
    }
    let d: u8 = (n % 10) as u8;
    out.push((48 + d) as char);
    assert(decimal(n as nat).last() == digit_char((n % 10) as nat));
    assert(out@ =~= old(out)@ + decimal(n as nat));
}

/// Writes a natural number in decimal.
pub fn show(n: u64) -> (r: String)
    ensures
        r@ == decimal(n as nat),
{
    let mut r = String::new();
    write_digits(&mut r, n);
    assert(r@ =~= decimal(n as nat));
    r
}

/// Writes an integer in decimal.
pub fn show_signed(n: i64) -> (r: String)
    ensures
        r@ == signed_decimal(n as int),
{
    if n < 0 {
        let m: u64 = (-(n + 1)) as u64 + 1;
        cat2("-", show(m).as_str())
    } else {
        show(n as u64)
    }
}

/// Integer division that rounds towards zero.
pub open spec fn towards_zero(n: int, d: int) -> int {
    if n < 0 {
        -((-n) / d)
    } else {
        n / d
    }
}

/// Writes `n / d`, rounded towards zero, in decimal.
pub fn show_quotient(n: i64, d: u64) -> (r: String)
    requires
        d > 0,
    ensures
        r@ == signed_decimal(towards_zero(n as int, d as int)),
{
    if n < 0 {
        let m: u64 = (-(n + 1)) as u64 + 1;
        let q: u64 = m / d;
        if q == 0 {
            show(0)
        } else {
            cat2("-", show(q).as_str())
        }
    } else {
        show(n as u64 / d)
    }
}

/// Whether `c` is a decimal digit.
pub open spec fn is_digit(c: char) -> bool {
    '0' <= c && c <= '9'
}

/// The number that a row of decimal digits stands for.
pub open spec fn digits_value(s: Seq<char>) -> int
    decreases s.len(),
{
    if s.len() == 0 {
        0
    } else {
        10 * digits_value(s.drop_last()) + (s.last() as u32 - '0' as u32)
    }
}

/// Whether a text is a non-empty row of decimal digits.
pub open spec fn all_digits(s: Seq<char>) -> bool {
    s.len() > 0 && forall|i: int| 0 <= i < s.len() ==> is_digit(#[trigger] s[i])
}

/// The text after an optional sign.
pub open spec fn unsigned_part(s: Seq<char>) -> Seq<char> {
    if s.len() > 0 && (s[0] == '-' || s[0] == '+') {
        s.skip(1)
    } else {
        s
    }
}

/// The value of a row of digits with an optional sign before it.
pub open spec fn signed_value(s: Seq<char>) -> int {
    let v = digits_value(unsigned_part(s));
    if s.len() > 0 && s[0] == '-' {
        -v
    } else {
        v
    }
}

/// The 64-bit integer that a text holds: an optional sign, then decimal digits
/// and nothing else, with a value in range.
pub open spec fn integer_in(s: Seq<char>) -> Option<i64> {
    if all_digits(unsigned_part(s)) && i64::MIN <= signed_value(s) <= i64::MAX {
        Some(signed_value(s) as i64)
    } else {
        None
    }
}

/// Reads a 64-bit integer.
pub fn read_integer(s: &str) -> (r: Option<i64>)
    ensures
        r == integer_in(s@),
{
    let v = to_chars(s);
    let n: usize = v.len();
    let neg: bool = n > 0 && v[0] == '-';
    let from: usize = if n > 0 && (v[0] == '-' || v[0] == '+') {
        1
    } else {
        0
    };
    let ghost d = unsigned_part(s@);
    assert(d =~= s@.skip(from as int));
    if from == n {
        return None;
    }
    let limit: i128 = 9223372036854775808;
    let mut acc: i128 = 0;
    let mut big: bool = false;
    let mut i: usize = from;
    assert(d.take(0) =~= Seq::empty());
    while i < n
        invariant
            from <= i <= n == v@.len(),
            v@ == s@,
            d == s@.skip(from as int),
            d == unsigned_part(s@),
            limit == 9223372036854775808,
            0 <= acc <= limit,
            forall|j: int| 0 <= j < i - from ==> is_digit(#[trigger] d[j]),
            !big ==> acc == digits_value(d.take(i - from)),
            big ==> digits_value(d.take(i - from)) > limit,
        decreases n - i,
    {
        let c = v[i];
        assert(d[i - from] == c);
        if !('0' <= c && c <= '9') {
            assert(!is_digit(d[i - from]));
            return None;
        }
        proof {
            assert(d.take(i - from + 1).drop_last() =~= d.take(i - from));
            assert(digits_value(d.take(i - from + 1)) == 10 * digits_value(d.take(i - from)) + (
            c as u32 - '0' as u32));
        }
        if !big {
            let next: i128 = acc * 10 + (c as u8 - 48) as i128;
            if next > limit {
                big = true;
            } else {
                acc = next;
            }
        }
        i += 1;
    }
    assert(d.take(n - from) =~= d);
    if big {
        return None;
    }
    if neg {
        Some((-acc) as i64)
    } else if acc < limit {
        Some(acc as i64)
    } else {
        None
    }
}

/// The digits of a natural number stand for that number.
pub proof fn lemma_decimal_value(n: nat)
    ensures
        all_digits(decimal(n)),
        digits_value(decimal(n)) == n,
    decreases n,
{
    if n < 10 {
        assert(decimal(n).drop_last() =~= Seq::<char>::empty());
        assert(digits_value(decimal(n).drop_last()) == 0);
    } else {
        lemma_decimal_value(n / 10);
        let t = decimal(n / 10);
        assert(decimal(n).drop_last() =~= t);
        assert forall|i: int| 0 <= i < decimal(n).len() implies is_digit(
            #[trigger] decimal(n)[i],
        ) by {
            if i < t.len() {
                assert(is_digit(t[i]));
            }
        }
    }
}

/// An integer written in decimal and read again is the same integer.
pub proof fn law_integer_reads_back(n: i64)
    ensures
        integer_in(signed_decimal(n as int)) == Some(n),
{
    reveal_strlit("-");
    let s = signed_decimal(n as int);
    if n < 0 {
        lemma_decimal_value((-n) as nat);
        assert(unsigned_part(s) =~= decimal((-n) as nat));
    } else {
        lemma_decimal_value(n as nat);
        assert(is_digit(s[0]));
        assert(unsigned_part(s) == s);
    }
}

/// A number is written in digits, the first of which is not zero unless it is
/// the only one; a negative one has a minus sign before them.
pub proof fn law_numbers_are_written_plainly(n: nat, m: int)
    ensures
        all_digits(decimal(n)),
        n > 0 ==> decimal(n)[0] != '0',
        n < 10 ==> decimal(n).len() == 1,
        n >= 10 ==> decimal(n).len() == decimal(n / 10).len() + 1,
        m >= 0 ==> signed_decimal(m) == decimal(m as nat),
        m < 0 ==> signed_decimal(m) == seq!['-'] + decimal((-m) as nat),
    decreases n,
{
    reveal_strlit("-");
    assert("-"@ =~= seq!['-']);
    lemma_decimal_value(n);
    if n >= 10 {
        law_numbers_are_written_plainly(n / 10, m);
        assert(decimal(n)[0] == decimal(n / 10)[0]);
    }
}

/// What is read as an integer is a sign or none and then digits alone, and the
/// sign decides: a plus is as good as none.
pub proof fn law_integers_are_read(d: Seq<char>)
    requires
        all_digits(d),
    ensures
        digits_value(d) <= i64::MAX ==> integer_in(d) == Some(digits_value(d) as i64),
        digits_value(d) <= i64::MAX ==> integer_in(seq!['+'] + d) == Some(digits_value(d) as i64),
        -digits_value(d) >= i64::MIN ==> integer_in(seq!['-'] + d) == Some(
            (-digits_value(d)) as i64,
        ),
        digits_value(d) > i64::MAX ==> integer_in(d) is None,
        forall|c: char|
            !is_digit(c) ==> integer_in(#[trigger] d.push(c)) is None,
        integer_in(Seq::<char>::empty()) is None,
{
    assert(is_digit(d[0]));
    assert(unsigned_part(d) == d);
    let p = seq!['+'] + d;
    let m = seq!['-'] + d;
    assert(p[0] == '+' && p.skip(1) =~= d);
    assert(m[0] == '-' && m.skip(1) =~= d);
    lemma_digits_positive(d);
    assert forall|c: char| !is_digit(c) implies integer_in(#[trigger] d.push(c)) is None by {
        let s = d.push(c);
        assert(s[0] == d[0]);
        assert(unsigned_part(s) == s);
        assert(!is_digit(s[d.len() as int]));
    }
}

proof fn lemma_digits_positive(d: Seq<char>)
    requires
        forall|i: int| 0 <= i < d.len() ==> is_digit(#[trigger] d[i]),
    ensures
        digits_value(d) >= 0,
    decreases d.len(),
{
    if d.len() > 0 {
        let t = d.drop_last();
        assert forall|i: int| 0 <= i < t.len() implies is_digit(#[trigger] t[i]) by {
            assert(is_digit(d[i]));
        }
        lemma_digits_positive(t);
        assert(is_digit(d[d.len() - 1]));
    }
}

/// A quotient is rounded towards zero: it keeps its sign, and what is left over
/// is smaller than the divisor.
pub proof fn law_quotients(n: int, d: int)
    requires
        d > 0,
    ensures
        n >= 0 ==> 0 <= towards_zero(n, d) * d <= n < towards_zero(n, d) * d + d,
        towards_zero(-n, d) == -towards_zero(n, d),
{
    let a = if n < 0 {
        -n
    } else {
        n
    };
    vstd::arithmetic::div_mod::lemma_fundamental_div_mod(a, d);
    vstd::arithmetic::div_mod::lemma_mod_bound(a, d);
    vstd::arithmetic::div_mod::lemma_div_pos_is_pos(a, d);
    assert(d * (a / d) == (a / d) * d) by (nonlinear_arith);
    assert(0 <= (a / d) * d) by (nonlinear_arith)
        requires
            a / d >= 0,
            d > 0,
    ;
    assert(0int / d == 0) by {
        vstd::arithmetic::div_mod::lemma_div_basics(d);
    }
}

/// Each further digit counts for itself, and makes the others count tenfold.
pub proof fn law_digits_count(s: Seq<char>, c: char)
    requires
        is_digit(c),
    ensures
        digits_value(Seq::<char>::empty()) == 0,
        digits_value(s.push(c)) == 10 * digits_value(s) + (c as u32 - '0' as u32),
{
    assert(s.push(c).drop_last() =~= s);
}

} // verus!
