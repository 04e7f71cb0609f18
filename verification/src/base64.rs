//! Standard base64 with padding.

use vstd::prelude::*;

verus! {

/// The character for six bits.
pub open spec fn sextet_char(n: int) -> char {
    if n < 26 {
        ('A' as u32 + n) as char
    } else if n < 52 {
        ('a' as u32 + (n - 26)) as char
    } else if n < 62 {
        ('0' as u32 + (n - 52)) as char
    } else if n == 62 {
        '+'
    } else {
        '/'
    }
}

/// Three bytes as one number of 24 bits.
pub open spec fn packed(b0: u8, b1: u8, b2: u8) -> int {
    b0 * 65536 + b1 * 256 + b2
}

/// The four characters for the first bytes of `s`, three at most. Missing bytes
/// count as zero and are marked by padding.
pub open spec fn group(s: Seq<u8>) -> Seq<char> {
    let n = packed(
        s[0],
        if s.len() > 1 {
            s[1]
        } else {
            0
        },
        if s.len() > 2 {
            s[2]
        } else {
            0
        },
    );
    seq![
        sextet_char(n / 262144),
        sextet_char((n / 4096) % 64),
        if s.len() > 1 {
            sextet_char((n / 64) % 64)
        } else {
            '='
        },
        if s.len() > 2 {
            sextet_char(n % 64)
        } else {
            '='
        },
    ]
}

/// The base64 form of some bytes: a group of four characters for every three.
pub open spec fn base64(s: Seq<u8>) -> Seq<char>
    decreases s.len(),
{
    if s.len() == 0 {
        Seq::empty()
    } else if s.len() <= 3 {
        group(s)
    } else {
        group(s) + base64(s.skip(3))
    }
}

fn push_sextet(out: &mut String, n: u32)
    requires
        n < 64,
    ensures
        final(out)@ == old(out)@.push(sextet_char(n as int)),
{
    let k: u8 = n as u8;
    if k < 26 {
        out.push((65 + k) as char);
    } else if k < 52 {
        out.push((97 + (k - 26)) as char);
    } else if k < 62 {
        out.push((48 + (k - 52)) as char);
    } else if k == 62 {
        out.push('+');
    } else {
        out.push('/');
    }
}

/// Encodes bytes in base64, as `Authorization: Basic` carries them.
pub fn base64_encode(input: &[u8]) -> (out: String)
    ensures
        out@ == base64(input@),
{
    let mut out = String::new();
    let len: usize = input.len();
    let mut i: usize = 0;
    assert(input@.skip(0) =~= input@);
    assert(out@ + base64(input@) =~= base64(input@));
    while i < len
        invariant
            i <= len == input@.len(),
            out@ + base64(input@.skip(i as int)) == base64(input@),
        decreases len - i,
    {
        let left: usize = len - i;
        let b0: u32 = input[i] as u32;
        let b1: u32 = if left > 1 {
            input[i + 1] as u32
        } else {
            0
        };
        let b2: u32 = if left > 2 {
            input[i + 2] as u32
        } else {
            0
        };
        let n: u32 = b0 * 65536 + b1 * 256 + b2;
        let ghost before = out@;
        let ghost rest = input@.skip(i as int);
        push_sextet(&mut out, n / 262144);
        push_sextet(&mut out, (n / 4096) % 64);
        if left > 1 {
            push_sextet(&mut out, (n / 64) % 64);
        } else {
            out.push('=');
        }
        if left > 2 {
            push_sextet(&mut out, n % 64);
        } else {
            out.push('=');
        }
        assert(out@ =~= before + group(rest));
        if left > 3 {
            assert(rest.skip(3) =~= input@.skip(i + 3));
            assert(out@ + base64(rest.skip(3)) =~= before + base64(rest));
            i += 3;
        } else {
            i = len;
            assert(input@.skip(i as int) =~= Seq::empty());
            assert(out@ + base64(input@.skip(i as int)) =~= before + base64(rest));
        }
    }
    assert(input@.skip(i as int) =~= Seq::empty());
    assert(out@ + base64(input@.skip(i as int)) =~= out@);
    out
}

// ---------------------------------------------------------------------------
// Decoding, as the law reads it
// ---------------------------------------------------------------------------

/// The six bits that a character stands for; padding stands for zero.
#[verifier::opaque]
pub open spec fn sextet_value(c: char) -> int {
    if 'A' <= c && c <= 'Z' {
        c as u32 - 'A' as u32
    } else if 'a' <= c && c <= 'z' {
        c as u32 - 'a' as u32 + 26
    } else if '0' <= c && c <= '9' {
        c as u32 - '0' as u32 + 52
    } else if c == '+' {
        62
    } else if c == '/' {
        63
    } else {
        0
    }
}

/// The bytes that a group of four characters stands for.
#[verifier::opaque]
pub open spec fn ungroup(g: Seq<char>) -> Seq<u8> {
    let n = sextet_value(g[0]) * 262144 + sextet_value(g[1]) * 4096 + sextet_value(g[2]) * 64
        + sextet_value(g[3]);
    let all = seq![(n / 65536) as u8, ((n / 256) % 256) as u8, (n % 256) as u8];
    if g[2] == '=' {
        all.take(1)
    } else if g[3] == '=' {
        all.take(2)
    } else {
        all
    }
}

/// The bytes that a base64 text stands for.
pub open spec fn unbase64(s: Seq<char>) -> Seq<u8>
    decreases s.len(),
{
    if s.len() < 4 {
        Seq::empty()
    } else {
        ungroup(s.take(4)) + unbase64(s.skip(4))
    }
}

proof fn lemma_sextet(n: int)
    requires
        0 <= n < 64,
    ensures
        sextet_value(sextet_char(n)) == n,
        sextet_char(n) != '=',
{
    reveal(sextet_value);
}

proof fn lemma_sextets_pack(b0: u8, b1: u8, b2: u8)
    ensures
        ({
            let n = packed(b0, b1, b2);
            &&& 0 <= n / 262144 < 64
            &&& (n / 262144) * 262144 + ((n / 4096) % 64) * 4096 + ((n / 64) % 64) * 64 + n % 64 == n
            &&& n / 65536 == b0
            &&& (n / 256) % 256 == b1
            &&& n % 256 == b2
            &&& b2 == 0 ==> n % 64 == 0
            &&& b1 == 0 && b2 == 0 ==> (n / 64) % 64 == 0
        }),
{
    let m: u32 = packed(b0, b1, b2) as u32;
    let x: u32 = b0 as u32;
    let y: u32 = b1 as u32;
    let z: u32 = b2 as u32;
    assert(m == x * 65536 + y * 256 + z);
    assert((m / 262144) * 262144 + ((m / 4096) % 64) * 4096 + ((m / 64) % 64) * 64 + m % 64 == m)
        by (bit_vector)
        requires
            m < 16777216,
    ;
    assert(m / 262144 < 64 && m / 65536 == x && (m / 256) % 256 == y && m % 256 == z && (z == 0
        ==> m % 64 == 0) && (y == 0 && z == 0 ==> (m / 64) % 64 == 0)) by (bit_vector)
        requires
            m == x * 65536 + y * 256 + z,
            x < 256,
            y < 256,
            z < 256,
    ;
}

proof fn lemma_ungroup(c0: char, c1: char, c2: char, c3: char, b0: u8, b1: u8, b2: u8)
    requires
        sextet_value(c0) * 262144 + sextet_value(c1) * 4096 + sextet_value(c2) * 64 + sextet_value(
            c3,
        ) == packed(b0, b1, b2),
    ensures
        ungroup(seq![c0, c1, c2, c3]) == (if c2 == '=' {
            seq![b0]
        } else if c3 == '=' {
            seq![b0, b1]
        } else {
            seq![b0, b1, b2]
        }),
{
    reveal(ungroup);
    lemma_sextets_pack(b0, b1, b2);
    let all = seq![b0, b1, b2];
    assert(all.take(1) =~= seq![b0]);
    assert(all.take(2) =~= seq![b0, b1]);
}

proof fn lemma_group(s: Seq<u8>)
    requires
        1 <= s.len(),
    ensures
        group(s).len() == 4,
        ungroup(group(s)) == s.take(
            if s.len() > 3 {
                3
            } else {
                s.len() as int
            },
        ),
{
    let b1: u8 = if s.len() > 1 {
        s[1]
    } else {
        0
    };
    let b2: u8 = if s.len() > 2 {
        s[2]
    } else {
        0
    };
    let n = packed(s[0], b1, b2);
    lemma_sextets_pack(s[0], b1, b2);
    lemma_sextet(n / 262144);
    lemma_sextet((n / 4096) % 64);
    lemma_sextet((n / 64) % 64);
    lemma_sextet(n % 64);
    assert(sextet_value('=') == 0) by {
        reveal(sextet_value);
    }
    let g = group(s);
    lemma_ungroup(g[0], g[1], g[2], g[3], s[0], b1, b2);
    assert(g =~= seq![g[0], g[1], g[2], g[3]]);
    if s.len() == 1 {
        assert(s.take(1) =~= seq![s[0]]);
    } else if s.len() == 2 {
        assert(s.take(2) =~= seq![s[0], b1]);
    } else {
        assert(s.take(3) =~= seq![s[0], b1, b2]);
    }
}

/// Decoding gives back the bytes that were encoded.
pub proof fn law_base64_decodes(s: Seq<u8>)
    ensures
        unbase64(base64(s)) == s,
    decreases s.len(),
{
    if s.len() > 0 {
        lemma_group(s);
        let g = group(s);
        if s.len() <= 3 {
            assert(g.take(4) =~= g);
            assert(g.skip(4) =~= Seq::empty());
            assert(unbase64(g.skip(4)) =~= Seq::empty());
            assert(s.take(s.len() as int) =~= s);
            assert(unbase64(g) =~= s);
        } else {
            law_base64_decodes(s.skip(3));
            let t = base64(s.skip(3));
            assert((g + t).take(4) =~= g);
            assert((g + t).skip(4) =~= t);
            assert(s.take(3) + s.skip(3) =~= s);
        }
    }
}

/// The sixty-four characters are the letters, large and small, the digits, `+`
/// and `/`, in this order; three bytes make four of them, and what is missing to
/// three is filled up with `=`.
pub proof fn law_the_alphabet(n: int, s: Seq<u8>)
    ensures
        0 <= n < 26 ==> sextet_char(n) as u32 == 'A' as u32 + n,
        26 <= n < 52 ==> sextet_char(n) as u32 == 'a' as u32 + n - 26,
        52 <= n < 62 ==> sextet_char(n) as u32 == '0' as u32 + n - 52,
        n == 62 ==> sextet_char(n) == '+',
        n == 63 ==> sextet_char(n) == '/',
        base64(s).len() == 4 * ((s.len() + 2) / 3),
        s.len() % 3 == 1 ==> base64(s).last() == '=' && base64(s)[base64(s).len() - 2] == '=',
        s.len() % 3 == 2 ==> base64(s).last() == '=',
    decreases s.len(),
{
    if s.len() > 3 {
        law_the_alphabet(n, s.skip(3));
    }
}

} // verus!
