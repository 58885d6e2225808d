//! The text that is written at the end of a run.

use vstd::prelude::*;
use vstd::string::StringExecFns;
use crate::split::{is_at, occurs_at};
use crate::text::{chars_of, join, joined, views};

verus! {

/// Whether `part` stands somewhere in `s`.
pub open spec fn contains(s: Seq<char>, part: Seq<char>) -> bool {
    exists|at: int| occurs_at(s, part, at)
}

/// Decides `contains`.
pub fn text_contains(s: &str, part: &str) -> (found: bool)
    ensures
        found == contains(s@, part@),
{
    let chars = chars_of(s);
    let sought = chars_of(part);
    let n: usize = chars.len();
    let m: usize = sought.len();
    if m > n {
        return false;
    }
    if m == 0 {
        assert(chars@.subrange(0, 0) =~= sought@);
        assert(occurs_at(chars@, sought@, 0));
        return true;
    }
    let mut at: usize = 0;
    while at <= n - m
        invariant
            0 < m <= n == chars@.len(),
            m == sought@.len(),
            chars@ == s@,
            sought@ == part@,
            forall|k: int| 0 <= k < at ==> !occurs_at(chars@, sought@, k),
        decreases n - m + 1 - at,
    {
        if is_at(&chars, &sought, at) {
            return true;
        }
        at += 1;
    }
    false
}

/// The escape sequence that ends all colouring.
pub open spec fn reset() -> Seq<char> {
    "\x1B[0m"@
}

/// The name by which a terminal of the xterm family is known.
pub open spec fn xterm() -> Seq<char> {
    "xterm"@
}

/// The escape sequences that switch the reporting of mouse events off.
pub open spec fn mouse_tracking_off() -> Seq<char> {
    "\x1B[?9l\x1B[?1000l\x1B[?1001l\x1B[?1002l\x1B[?1003l"@
}

/// What ends the output: a reset of colours, for a terminal whose name
/// holds `xterm` the sequences that switch mouse tracking off, and one line
/// break.
pub open spec fn closing(terminal: Option<Seq<char>>) -> Seq<char> {
    reset() + (if terminal matches Some(name) && contains(name, xterm()) {
        mouse_tracking_off()
    } else {
        Seq::empty()
    }) + seq!['\n']
}

/// The output of a run: its lines, with a line break between them, and
/// what ends the output.
pub open spec fn assembled(lines: Seq<Seq<char>>, terminal: Option<Seq<char>>) -> Seq<char> {
    joined(lines, seq!['\n']) + closing(terminal)
}

/// Puts the rendered lines together to the text that is written, for a
/// terminal of the name `terminal` if it has one.
pub fn assemble(lines: &Vec<String>, terminal: Option<&str>) -> (text: String)
    ensures
        text@ == assembled(
            views(lines@),
            match terminal {
                Some(name) => Some(name@),
                None => None,
            },
        ),
{
    proof {
        reveal_strlit("\n");
        assert("\n"@ =~= seq!['\n']);
    }
    let mut text = join(lines, "\n");
    text.append("\x1B[0m");
    let is_xterm = match terminal {
        Some(name) => text_contains(name, "xterm"),
        None => false,
    };
    if is_xterm {
        text.append("\x1B[?9l\x1B[?1000l\x1B[?1001l\x1B[?1002l\x1B[?1003l");
    }
    text.append("\n");
    proof {
        let terminal_view: Option<Seq<char>> = match terminal {
            Some(name) => Some(name@),
            None => None,
        };
        assert(text@ =~= assembled(views(lines@), terminal_view));
    }
    text
}

} // verus!
