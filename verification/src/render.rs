//! Rendering rows of cells as padded lines.

use vstd::prelude::*;
use crate::alignment::{is_valid_specification, Alignment};
use crate::text::{chars_of, views};

verus! {

/// The mode of column `column` under an alignment specification: the mode
/// that its character at that place selects, and past its end the mode that
/// its last character selects. An empty specification aligns to the left.
pub open spec fn mode_at(specification: Seq<char>, column: int) -> Alignment {
    if specification.len() == 0 {
        Alignment::Left
    } else if 0 <= column < specification.len() {
        Alignment::of(specification[column])
    } else {
        Alignment::of(specification.last())
    }
}

/// The modes of the first `columns` columns under `specification`.
pub fn assign(specification: &str, columns: usize) -> (modes: Vec<Alignment>)
    requires
        is_valid_specification(specification@),
    ensures
        modes@.len() == columns,
        forall|c: int| 0 <= c < columns ==> #[trigger] modes@[c] == mode_at(specification@, c),
{
    let chars = chars_of(specification);
    let n: usize = chars.len();
    let repeated = if n == 0 {
        Alignment::Left
    } else {
        Alignment::from(chars[n - 1])
    };
    let mut modes: Vec<Alignment> = Vec::new();
    let mut c: usize = 0;
    while c < columns
        invariant
            c <= columns,
            n == chars@.len(),
            chars@ == specification@,
            is_valid_specification(specification@),
            repeated == mode_at(specification@, n as int),
            modes@.len() == c,
            forall|k: int| 0 <= k < c ==> #[trigger] modes@[k] == mode_at(specification@, k),
        decreases columns - c,
    {
        let mode = if c < n {
            Alignment::from(chars[c])
        } else {
            repeated
        };
        modes.push(mode);
        c += 1;
    }
    modes
}

/// The padding of a cell of width `width` in a column of width
/// `column_width`.
pub open spec fn padding(column_width: nat, width: nat) -> nat {
    (column_width - width) as nat
}

/// The first `upto` cells of a row as they are written one after the
/// other: each cell padded to the width of its column as the mode of its
/// column places it, and followed by `output_separator` unless it is the
/// last cell of the row.
pub open spec fn rendered_cells(
    cells: Seq<Seq<char>>,
    widths: Seq<usize>,
    column_widths: Seq<usize>,
    modes: Seq<Alignment>,
    output_separator: Seq<char>,
    upto: int,
) -> Seq<char>
    decreases upto,
{
    if upto <= 0 {
        Seq::empty()
    } else {
        let c = upto - 1;
        rendered_cells(cells, widths, column_widths, modes, output_separator, c) + modes[c].rendered(
            cells[c],
            if upto == cells.len() {
                Seq::empty()
            } else {
                output_separator
            },
            padding(column_widths[c] as nat, widths[c] as nat),
        )
    }
}

/// A row as it is written.
pub open spec fn rendered_row(
    cells: Seq<Seq<char>>,
    widths: Seq<usize>,
    column_widths: Seq<usize>,
    modes: Seq<Alignment>,
    output_separator: Seq<char>,
) -> Seq<char> {
    rendered_cells(cells, widths, column_widths, modes, output_separator, cells.len() as int)
}

/// Whether the cells of a row of these widths fit the columns: there is a
/// column and a mode for each, and none is wider than its column.
pub open spec fn fits(widths: Seq<usize>, column_widths: Seq<usize>, modes: Seq<Alignment>) -> bool {
    &&& widths.len() <= column_widths.len()
    &&& widths.len() <= modes.len()
    &&& forall|c: int| 0 <= c < widths.len() ==> #[trigger] widths[c] <= column_widths[c]
}

/// Renders one row: its cells, of the widths `widths`, padded to
/// `column_widths` as `modes` place them, with `output_separator` between
/// them.
pub fn render_row(
    cells: &Vec<String>,
    widths: &Vec<usize>,
    column_widths: &Vec<usize>,
    modes: &Vec<Alignment>,
    output_separator: &str,
) -> (line: String)
    requires
        widths@.len() == cells@.len(),
        fits(widths@, column_widths@, modes@),
    ensures
        line@ == rendered_row(
            views(cells@),
            widths@,
            column_widths@,
            modes@,
            output_separator@,
        ),
{
    let mut line = String::new();
    let n: usize = cells.len();
    let mut c: usize = 0;
    while c < n
        invariant
            c <= n == cells@.len(),
            widths@.len() == n,
            fits(widths@, column_widths@, modes@),
            line@ == rendered_cells(
                views(cells@),
                widths@,
                column_widths@,
                modes@,
                output_separator@,
                c as int,
            ),
        decreases n - c,
    {
        let space_width: usize = column_widths[c] - widths[c];
        assert(views(cells@)[c as int] == cells@[c as int]@);
        if c == n - 1 {
            proof {
                reveal_strlit("");
                assert(""@ =~= Seq::<char>::empty());
            }
            modes[c].write_cell(&mut line, cells[c].as_str(), "", space_width);
        } else {
            modes[c].write_cell(&mut line, cells[c].as_str(), output_separator, space_width);
        }
        c += 1;
    }
    line
}

} // verus!
