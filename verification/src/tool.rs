//! What an external tool left behind.

use crate::text::{lines, split_lines, texts, trim, trimmed};
use vstd::prelude::*;
use vstd::string::*;
use vstd::utf8::{decode_utf8, valid_utf8};

verus! {

/// How the run of an external tool ended.
#[derive(Debug)]
pub enum ToolRun {
    /// There is no such tool.
    NotFound,
    /// The tool could not be started.
    Failed(String),
    /// The tool ran to its end.
    Done { success: bool, code: Option<i32>, stdout: Vec<u8>, stderr: Vec<u8> },
}

/// How the run of an external tool ended.
pub enum ToolView {
    NotFound,
    Failed(Seq<char>),
    Done { success: bool, code: Option<i32>, stdout: Seq<char>, stderr: Seq<char> },
}

/// What `String::from_utf8_lossy` makes of bytes that are not UTF-8.
pub uninterp spec fn lossy_text(b: Seq<u8>) -> Seq<char>;

/// The text of some output.
pub open spec fn output_text(b: Seq<u8>) -> Seq<char> {
    if valid_utf8(b) {
        decode_utf8(b)
    } else {
        lossy_text(b)
    }
}

/// Calls `String::from_utf8_lossy`. Bytes that are UTF-8 are decoded as they
/// stand; of other bytes the result is only given a name.
#[verifier::external_body]
pub(crate) fn decode_output(b: &Vec<u8>) -> (r: String)
    ensures
        r@ == (if valid_utf8(b@) {
            decode_utf8(b@)
        } else {
            lossy_text(b@)
        }),
{
    String::from_utf8_lossy(b).into_owned()
}

impl View for ToolRun {
    type V = ToolView;

    open spec fn view(&self) -> ToolView {
        match *self {
            ToolRun::NotFound => ToolView::NotFound,
            ToolRun::Failed(e) => ToolView::Failed(e@),
            ToolRun::Done { success, code, stdout, stderr } => ToolView::Done {
                success,
                code,
                stdout: output_text(stdout@),
                stderr: output_text(stderr@),
            },
        }
    }
}

/// The first `n` lines of a text that are not blank, trimmed.
pub open spec fn messages(ls: Seq<Seq<char>>, n: nat) -> Seq<Seq<char>>
    decreases ls.len(),
{
    if ls.len() == 0 {
        Seq::empty()
    } else {
        let had = messages(ls.drop_last(), n);
        if had.len() < n && trimmed(ls.last()).len() > 0 {
            had.push(trimmed(ls.last()))
        } else {
            had
        }
    }
}

/// Reads the first `n` lines of a text that are not blank.
pub fn messages_of(s: &str, n: usize) -> (r: Vec<String>)
    ensures
        texts(r@) == messages(lines(s@), n as nat),
{
    let all = split_lines(s);
    let ghost ls = texts(all@);
    let mut r: Vec<String> = Vec::new();
    let mut i: usize = 0;
    assert(texts(r@) =~= messages(ls.take(0), n as nat));
    while i < all.len()
        invariant
            i <= all@.len(),
            ls == texts(all@),
            texts(r@) == messages(ls.take(i as int), n as nat),
        decreases all@.len() - i,
    {
        assert(ls.take(i + 1).drop_last() =~= ls.take(i as int));
        assert(ls.take(i + 1).last() == all@[i as int]@);
        assert(texts(r@).len() == r@.len());
        let t = trim(all[i].as_str());
        if r.len() < n && !t.as_str().is_empty() {
            let ghost had = r@;
            let ghost tv = t@;
            r.push(t);
            assert(texts(r@) =~= texts(had).push(tv));
        }
        i += 1;
    }
    assert(ls.take(i as int) =~= ls);
    r
}

/// Messages are taken line by line from the top: each line that is not blank
/// counts, trimmed, until there are `n` of them.
pub proof fn law_messages_come_from_the_top(ls: Seq<Seq<char>>, l: Seq<char>, n: nat)
    ensures
        messages(Seq::<Seq<char>>::empty(), n) == Seq::<Seq<char>>::empty(),
        messages(ls.push(l), n) == (if trimmed(l).len() == 0 || messages(ls, n).len() >= n {
            messages(ls, n)
        } else {
            messages(ls, n).push(trimmed(l))
        }),
{
    assert(ls.push(l).drop_last() =~= ls);
}

} // verus!
