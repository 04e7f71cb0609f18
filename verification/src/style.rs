//! Tiny ANSI styling helpers with an on/off switch.

use crate::number::{decimal, show};
use crate::term::{columns, in_escape, lemma_concat, lemma_push, visible};
use crate::text::{cat2, cat5};
use vstd::prelude::*;
use vstd::string::*;

verus! {

/// Whether output is colored.
#[derive(Clone, Copy, Debug, PartialEq, Eq, Structural)]
pub struct Style {
    /// True when escape sequences are written.
    pub color: bool,
}

/// `t` between the escape sequence for `code` and the one that resets it, or
/// bare when color is off.
pub open spec fn painted(st: Style, code: Seq<char>, t: Seq<char>) -> Seq<char> {
    if st.color {
        "\x1b["@ + code + "m"@ + t + "\x1b[0m"@
    } else {
        t
    }
}

/// `t` in bold.
pub open spec fn bolded(st: Style, t: Seq<char>) -> Seq<char> {
    painted(st, "1"@, t)
}

/// `t` dimmed.
pub open spec fn dimmed(st: Style, t: Seq<char>) -> Seq<char> {
    painted(st, "2"@, t)
}

/// `t` in red.
pub open spec fn reddened(st: Style, t: Seq<char>) -> Seq<char> {
    painted(st, "31"@, t)
}

/// `t` in green.
pub open spec fn greened(st: Style, t: Seq<char>) -> Seq<char> {
    painted(st, "32"@, t)
}

/// `t` in magenta.
pub open spec fn magentaed(st: Style, t: Seq<char>) -> Seq<char> {
    painted(st, "35"@, t)
}

/// `t` in cyan.
pub open spec fn cyaned(st: Style, t: Seq<char>) -> Seq<char> {
    painted(st, "36"@, t)
}

/// The code of a 24-bit foreground color.
pub open spec fn rgb_code(r: u8, g: u8, b: u8) -> Seq<char> {
    "38;2;"@ + decimal(r as nat) + ";"@ + decimal(g as nat) + (";"@ + decimal(b as nat))
}

/// Switches color on or off.
pub fn set_color(st: &mut Style, enabled: bool)
    ensures
        final(st).color == enabled,
{
    st.color = enabled;
}

fn w(st: Style, code: &str, text: &str) -> (r: String)
    ensures
        r@ == painted(st, code@, text@),
{
    if st.color {
        cat5("\x1b[", code, "m", text, "\x1b[0m")
    } else {
        text.to_owned()
    }
}

/// Bold text.
pub fn bold(st: Style, t: &str) -> (r: String)
    ensures
        r@ == bolded(st, t@),
{
    w(st, "1", t)
}

/// Dim text.
pub fn dim(st: Style, t: &str) -> (r: String)
    ensures
        r@ == dimmed(st, t@),
{
    w(st, "2", t)
}

/// Red text.
pub fn red(st: Style, t: &str) -> (r: String)
    ensures
        r@ == reddened(st, t@),
{
    w(st, "31", t)
}

/// Green text.
pub fn green(st: Style, t: &str) -> (r: String)
    ensures
        r@ == greened(st, t@),
{
    w(st, "32", t)
}

/// Magenta text.
pub fn magenta(st: Style, t: &str) -> (r: String)
    ensures
        r@ == magentaed(st, t@),
{
    w(st, "35", t)
}

/// Cyan text.
pub fn cyan(st: Style, t: &str) -> (r: String)
    ensures
        r@ == cyaned(st, t@),
{
    w(st, "36", t)
}

/// 24-bit foreground color, for the startup banner gradient.
pub fn rgb(st: Style, r: u8, g: u8, b: u8, t: &str) -> (s: String)
    ensures
        s@ == painted(st, rgb_code(r, g, b), t@),
{
    let rs = show(r as u64);
    let gs = show(g as u64);
    let bs = show(b as u64);
    let tail = cat2(";", bs.as_str());
    let code = cat5("38;2;", rs.as_str(), ";", gs.as_str(), tail.as_str());
    w(st, code.as_str(), t)
}

/// A row of characters that an open escape sequence swallows.
proof fn lemma_swallowed(a: Seq<char>, b: Seq<char>)
    requires
        in_escape(a),
        !b.contains('m'),
    ensures
        in_escape(a + b),
        visible(a + b) == visible(a),
    decreases b.len(),
{
    if b.len() == 0 {
        assert(a + b =~= a);
    } else {
        let t = b.drop_last();
        assert forall|i: int| 0 <= i < t.len() implies t[i] != 'm' by {
            assert(t[i] == b[i]);
        }
        lemma_swallowed(a, t);
        lemma_push(a + t, b.last());
        assert((a + t).push(b.last()) =~= a + b);
    }
}

/// Styling changes nothing that is visible, and closes what it opens.
pub proof fn law_styling_is_invisible(st: Style, code: Seq<char>, t: Seq<char>)
    requires
        !code.contains('m'),
    ensures
        visible(painted(st, code, t)) == visible(t),
        columns(painted(st, code, t)) == columns(t),
        st.color || !in_escape(t) ==> !in_escape(painted(st, code, t)),
{
    if st.color {
        reveal_strlit("\x1b[");
        reveal_strlit("m");
        reveal_strlit("\x1b[0m");
        let e = Seq::<char>::empty();
        let a = "\x1b["@;
        lemma_push(e, '\x1b');
        lemma_push(e.push('\x1b'), '[');
        assert(e.push('\x1b').push('[') =~= a);
        lemma_swallowed(a, code);
        lemma_push(a + code, 'm');
        let open = a + code + "m"@;
        assert((a + code).push('m') =~= open);
        assert(visible(e) =~= e);
        lemma_concat(open, t);
        assert(e + visible(t) =~= visible(t));
        let x = open + t;
        lemma_push(x, '\x1b');
        lemma_push(x.push('\x1b'), '[');
        lemma_push(x.push('\x1b').push('['), '0');
        lemma_push(x.push('\x1b').push('[').push('0'), 'm');
        assert(x.push('\x1b').push('[').push('0').push('m') =~= painted(st, code, t));
    }
}

/// Without color every text stays as it is; with it, each style has its own
/// code, and is switched off behind the text.
pub proof fn law_styles(st: Style, t: Seq<char>)
    ensures
        !st.color ==> bolded(st, t) == t && dimmed(st, t) == t && reddened(st, t) == t && greened(
            st,
            t,
        ) == t && magentaed(st, t) == t && cyaned(st, t) == t,
        st.color ==> bolded(st, t) == "\x1b[1m"@ + t + "\x1b[0m"@,
        st.color ==> dimmed(st, t) == "\x1b[2m"@ + t + "\x1b[0m"@,
        st.color ==> reddened(st, t) == "\x1b[31m"@ + t + "\x1b[0m"@,
        st.color ==> greened(st, t) == "\x1b[32m"@ + t + "\x1b[0m"@,
        st.color ==> magentaed(st, t) == "\x1b[35m"@ + t + "\x1b[0m"@,
        st.color ==> cyaned(st, t) == "\x1b[36m"@ + t + "\x1b[0m"@,
{
    reveal_strlit("\x1b[");
    reveal_strlit("m");
    reveal_strlit("1");
    reveal_strlit("2");
    reveal_strlit("31");
    reveal_strlit("32");
    reveal_strlit("35");
    reveal_strlit("36");
    reveal_strlit("\x1b[1m");
    reveal_strlit("\x1b[2m");
    reveal_strlit("\x1b[31m");
    reveal_strlit("\x1b[32m");
    reveal_strlit("\x1b[35m");
    reveal_strlit("\x1b[36m");
    assert("\x1b["@ + "1"@ + "m"@ =~= "\x1b[1m"@);
    assert("\x1b["@ + "2"@ + "m"@ =~= "\x1b[2m"@);
    assert("\x1b["@ + "31"@ + "m"@ =~= "\x1b[31m"@);
    assert("\x1b["@ + "32"@ + "m"@ =~= "\x1b[32m"@);
    assert("\x1b["@ + "35"@ + "m"@ =~= "\x1b[35m"@);
    assert("\x1b["@ + "36"@ + "m"@ =~= "\x1b[36m"@);
}

/// A color is given by its three parts in decimal, red, green and blue.
pub proof fn law_colors(r: u8, g: u8, b: u8)
    ensures
        rgb_code(r, g, b) == "38;2;"@ + decimal(r as nat) + ";"@ + decimal(g as nat) + ";"@
            + decimal(b as nat),
{
    assert(rgb_code(r, g, b) =~= "38;2;"@ + decimal(r as nat) + ";"@ + decimal(g as nat) + ";"@
        + decimal(b as nat));
}

} // verus!
