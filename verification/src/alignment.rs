//! Alignment modes and the rendering of one padded cell.

use vstd::prelude::*;
use vstd::string::StringExecFns;
use crate::text::{chars_of, push_spaces, spaces};

verus! {

/// How a cell is placed within the width of its column.
#[derive(Clone, Copy, Debug, PartialEq, Eq, Structural)]
pub enum Alignment {
    Left,
    Right,
    Center,
}

/// The characters that select left alignment.
pub open spec fn is_left_identifier(c: char) -> bool {
    c == 'l' || c == 'L' || c == '<'
}

/// The characters that select right alignment.
pub open spec fn is_right_identifier(c: char) -> bool {
    c == 'r' || c == 'R' || c == '>'
}

/// The characters that select centered alignment.
pub open spec fn is_center_identifier(c: char) -> bool {
    c == 'c' || c == 'C' || c == '^'
}

/// The characters that an alignment specification may hold.
pub open spec fn is_identifier(c: char) -> bool {
    is_left_identifier(c) || is_right_identifier(c) || is_center_identifier(c)
}

/// Whether every character of `spec` selects an alignment.
pub open spec fn is_valid_specification(spec: Seq<char>) -> bool {
    forall|i: int| 0 <= i < spec.len() ==> is_identifier(#[trigger] spec[i])
}

impl Alignment {
    /// The characters that an alignment specification may hold.
    pub const IDENTIFIERS: [char; 9] = ['l', 'L', '<', 'r', 'R', '>', 'c', 'C', '^'];

    /// The mode that an identifier selects.
    pub open spec fn of(c: char) -> Alignment {
        if is_left_identifier(c) {
            Alignment::Left
        } else if is_right_identifier(c) {
            Alignment::Right
        } else {
            Alignment::Center
        }
    }

    /// The number of spaces before the cell, of `pad` spaces in all.
    /// Centering an odd `pad` leaves the extra space on the right.
    pub open spec fn left_pad(self, pad: nat) -> nat {
        match self {
            Alignment::Left => 0,
            Alignment::Right => pad,
            Alignment::Center => if pad % 2 == 0 {
                pad / 2
            } else {
                ((pad - 1) / 2) as nat
            },
        }
    }

    /// The number of spaces after the cell, of `pad` spaces in all.
    pub open spec fn right_pad(self, pad: nat) -> nat {
        match self {
            Alignment::Left => pad,
            Alignment::Right => 0,
            Alignment::Center => if pad % 2 == 0 {
                pad / 2
            } else {
                ((pad - 1) / 2 + 1) as nat
            },
        }
    }

    /// A cell as it is written: the spaces before it, its text, the spaces
    /// after it, and the separator that follows.
    pub open spec fn rendered(
        self,
        cell: Seq<char>,
        output_separator: Seq<char>,
        pad: nat,
    ) -> Seq<char> {
        spaces(self.left_pad(pad)) + cell + spaces(self.right_pad(pad)) + output_separator
    }

    /// Decides `is_identifier`.
    pub fn is_identifier(c: char) -> (b: bool)
        ensures
            b == is_identifier(c),
    {
        c == 'l' || c == 'L' || c == '<' || c == 'r' || c == 'R' || c == '>' || c == 'c' || c
            == 'C' || c == '^'
    }

    /// Whether `specification` holds identifiers only.
    pub fn is_valid(specification: &str) -> (valid: bool)
        ensures
            valid == is_valid_specification(specification@),
    {
        let chars = chars_of(specification);
        let mut i: usize = 0;
        while i < chars.len()
            invariant
                i <= chars@.len(),
                chars@ == specification@,
                forall|k: int| 0 <= k < i ==> is_identifier(#[trigger] specification@[k]),
            decreases chars@.len() - i,
        {
            if !Self::is_identifier(chars[i]) {
                return false;
            }
            i += 1;
        }
        true
    }

    /// The mode that the identifier `alignment` selects.
    pub fn from(alignment: char) -> (mode: Self)
        requires
            is_identifier(alignment),
        ensures
            mode == Self::of(alignment),
            is_left_identifier(alignment) <==> mode == Alignment::Left,
            is_right_identifier(alignment) <==> mode == Alignment::Right,
            is_center_identifier(alignment) <==> mode == Alignment::Center,
    {
        if alignment == 'l' || alignment == 'L' || alignment == '<' {
            Alignment::Left
        } else if alignment == 'r' || alignment == 'R' || alignment == '>' {
            Alignment::Right
        } else {
            Alignment::Center
        }
    }

    /// Appends to `out` the cell `cell` padded by `space_width` spaces as
    /// this mode places them, followed by `output_separator`.
    pub fn write_cell(
        &self,
        out: &mut String,
        cell: &str,
        output_separator: &str,
        space_width: usize,
    )
        ensures
            final(out)@ == old(out)@ + self.rendered(
                cell@,
                output_separator@,
                space_width as nat,
            ),
    {
        match self {
            Alignment::Left => {
                out.append(cell);
                push_spaces(out, space_width);
            },
            Alignment::Right => {
                push_spaces(out, space_width);
                out.append(cell);
            },
            Alignment::Center => {
                if space_width % 2 == 0 {
                    push_spaces(out, space_width / 2);
                    out.append(cell);
                    push_spaces(out, space_width / 2);
                } else {
                    let width_left: usize = (space_width - 1) / 2;
                    let width_right: usize = width_left + 1;
                    push_spaces(out, width_left);
                    out.append(cell);
                    push_spaces(out, width_right);
                }
            },
        }
        out.append(output_separator);
        proof {
            let pad = space_width as nat;
            assert(spaces(0) =~= Seq::<char>::empty());
            assert(out@ =~= old(out)@ + self.rendered(cell@, output_separator@, pad));
        }
    }
}

/// The identifiers are the characters listed as such.
pub proof fn lemma_identifiers_are_listed(c: char)
    ensures
        is_identifier(c) <==> Alignment::IDENTIFIERS@.contains(c),
{
    let listed = Alignment::IDENTIFIERS@;
    if is_identifier(c) {
        let k = if c == 'l' {
            0int
        } else if c == 'L' {
            1
        } else if c == '<' {
            2
        } else if c == 'r' {
            3
        } else if c == 'R' {
            4
        } else if c == '>' {
            5
        } else if c == 'c' {
            6
        } else if c == 'C' {
            7
        } else {
            8
        };
        assert(listed[k] == c);
    }
}

/// The spaces before and after a cell are together the padding asked for,
/// and centering puts at most one space more on the right than on the left,
/// never more on the left.
pub proof fn lemma_padding_is_shared(mode: Alignment, pad: nat)
    ensures
        mode.left_pad(pad) + mode.right_pad(pad) == pad,
        mode == Alignment::Center ==> mode.left_pad(pad) <= mode.right_pad(pad)
            <= mode.left_pad(pad) + 1,
{
}

/// A rendered cell is as long as its text, its padding and its separator
/// together: rendering only pads, it never cuts.
pub proof fn lemma_rendered_len(
    mode: Alignment,
    cell: Seq<char>,
    output_separator: Seq<char>,
    pad: nat,
)
    ensures
        mode.rendered(cell, output_separator, pad).len() == cell.len() + pad
            + output_separator.len(),
{
    lemma_padding_is_shared(mode, pad);
}

} // verus!
