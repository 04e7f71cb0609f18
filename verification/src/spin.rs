//! The words of the spinner shown while a slow external tool runs.

use crate::text::{cat2, cat3, repeat, repeated};
use vstd::prelude::*;
use vstd::string::*;

verus! {

/// The frames of the animation.
pub const FRAMES: [&'static str; 4] = ["|", "/", "-", "\\"];

/// What hides the terminal cursor, so that it does not blink at the end of the
/// line.
pub const HIDE_CURSOR: &'static str = "\x1b[?25l";

/// What goes back to the start of the line, and shows the cursor again.
pub const SHOW_CURSOR: &'static str = "\r\x1b[?25h";

/// Frame `i` of the spinner: it draws over the frame before.
pub open spec fn frame_text(i: nat, label: Seq<char>) -> Seq<char> {
    "\r  "@ + FRAMES@[(i % 4) as int]@ + " "@ + (label + " "@)
}

/// Draws frame `i` of the spinner.
pub fn frame(i: usize, label: &str) -> (r: String)
    ensures
        r@ == frame_text(i as nat, label@),
{
    let table = FRAMES;
    let tail = cat2(label, " ");
    let head = cat3("\r  ", table[i % 4], " ");
    cat2(head.as_str(), tail.as_str())
}

/// Blanks over a frame, with the cursor restored.
pub open spec fn erased(label: Seq<char>) -> Seq<char> {
    "\r"@ + repeated(' ', (label.len() + 6) as nat) + SHOW_CURSOR@
}

/// Erases the spinner, and restores the terminal cursor.
pub fn erase(label: &str) -> (r: String)
    requires
        label@.len() + 6 <= usize::MAX,
    ensures
        r@ == erased(label@),
{
    let n: usize = label.unicode_len();
    let blank = repeat(' ', n + 6);
    cat3("\r", blank.as_str(), SHOW_CURSOR)
}

/// The blanks cover every frame.
pub proof fn law_erasing_covers_the_frame(i: nat, label: Seq<char>)
    ensures
        frame_text(i, label).len() <= erased(label).len() - SHOW_CURSOR@.len(),
{
    reveal_strlit("\r  ");
    reveal_strlit("\r");
    reveal_strlit(" ");
    reveal_strlit("|");
    reveal_strlit("/");
    reveal_strlit("-");
    reveal_strlit("\\");
    let k = (i % 4) as int;
    assert(k == 0 || k == 1 || k == 2 || k == 3);
    assert(FRAMES@[k]@.len() == 1);
}

/// The spinner turns in four steps, and each frame draws its label over the
/// frame before.
pub proof fn law_the_spinner_turns(i: nat, label: Seq<char>)
    ensures
        frame_text(i + 4, label) == frame_text(i, label),
        i % 4 == 0 ==> frame_text(i, label) == "\r  "@ + "|"@ + " "@ + (label + " "@),
        i % 4 == 1 ==> frame_text(i, label) == "\r  "@ + "/"@ + " "@ + (label + " "@),
        i % 4 == 2 ==> frame_text(i, label) == "\r  "@ + "-"@ + " "@ + (label + " "@),
        i % 4 == 3 ==> frame_text(i, label) == "\r  "@ + "\\"@ + " "@ + (label + " "@),
{
    assert((i + 4) % 4 == i % 4);
}

/// Erasing goes back to the start of the line, blanks the frame and the label,
/// goes back again, and shows the cursor that was hidden.
pub proof fn law_erasing_blanks_the_line(label: Seq<char>)
    ensures
        ({
            let e = erased(label);
            let n = label.len() + 6;
            &&& e[0] == '\r'
            &&& forall|i: int| 1 <= i <= n ==> #[trigger] e[i] == ' '
            &&& e.skip((n + 1) as int) == "\r\x1b[?25h"@
            &&& HIDE_CURSOR@ == "\x1b[?25l"@
        }),
{
    reveal_strlit("\r");
    assert(erased(label).skip((label.len() + 7) as int) =~= "\r\x1b[?25h"@);
}

} // verus!
