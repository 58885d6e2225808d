//! Rendering a rendered table again changes nothing: the lines of a table,
//! split at the separator that was set between their cells, are a table of
//! the same columns, and its lines are the same lines. So a second run on
//! the output of a first one writes that output again.

use vstd::prelude::*;
use crate::alignment::lemma_padding_is_shared;
use crate::render::{mode_at, padding};
use crate::rows::{lemma_visible_all, lemma_without_blank_keeps};
use crate::split::{lemma_split_of_joined, lines_of, split_on, stands_only_between};
use crate::table::{lemma_cell_fills_column, line_cells, line_of, rendered_lines, Config};
use crate::text::{joined, spaces};
use crate::width::{is_blank, visual_width};
use crate::widths::{
    cell_width,
    column_width,
    lemma_column_width_is_greatest,
    lemma_max_columns_bounds,
    max_columns,
};

verus! {

/// The cell of `row` in column `c` with the spaces that pad it to the
/// width of its column in the table `rows`.
pub open spec fn padded_cell(
    rows: Seq<Seq<Seq<char>>>,
    row: Seq<Seq<char>>,
    specification: Seq<char>,
    c: int,
) -> Seq<char> {
    let pad = padding(column_width(rows, c), visual_width(row[c]));
    let mode = mode_at(specification, c);
    spaces(mode.left_pad(pad)) + row[c] + spaces(mode.right_pad(pad))
}

/// The cells of `row` as padded in the table `rows`.
pub open spec fn padded_row(
    rows: Seq<Seq<Seq<char>>>,
    row: Seq<Seq<char>>,
    specification: Seq<char>,
) -> Seq<Seq<char>> {
    Seq::new(row.len(), |c: int| padded_cell(rows, row, specification, c))
}

/// The table that the lines are when they are split at `separator`.
pub open spec fn split_again(lines: Seq<Seq<char>>, separator: Seq<char>) -> Seq<Seq<Seq<char>>> {
    Seq::new(lines.len(), |r: int| split_on(lines[r], separator))
}

/// Whether spaces before and after a cell of the table add their number to
/// its width.
pub open spec fn padding_widens(rows: Seq<Seq<Seq<char>>>) -> bool {
    forall|r: int, c: int, before: nat, after: nat|
        0 <= r < rows.len() && 0 <= c < rows[r].len() ==> #[trigger] visual_width(
            spaces(before) + rows[r][c] + spaces(after),
        ) == before + visual_width(rows[r][c]) + after
}

/// The first cells of a line are its first padded cells joined by the
/// separator, which also follows them unless the line ends there.
proof fn lemma_cells_are_joined(
    rows: Seq<Seq<Seq<char>>>,
    row: Seq<Seq<char>>,
    specification: Seq<char>,
    output_separator: Seq<char>,
    upto: int,
)
    requires
        0 < upto <= row.len(),
    ensures
        line_cells(rows, row, specification, output_separator, upto) == joined(
            padded_row(rows, row, specification).subrange(0, upto),
            output_separator,
        ) + if upto == row.len() {
            Seq::empty()
        } else {
            output_separator
        },
    decreases upto,
{
    let cells = padded_row(rows, row, specification);
    let c = upto - 1;
    let end = if upto == row.len() {
        Seq::<char>::empty()
    } else {
        output_separator
    };
    let first = cells.subrange(0, upto);
    assert(first.last() == padded_cell(rows, row, specification, c));
    if upto == 1 {
        assert(line_cells(rows, row, specification, output_separator, 0) == Seq::<char>::empty());
        assert(line_cells(rows, row, specification, output_separator, upto) =~= first[0] + end);
    } else {
        lemma_cells_are_joined(rows, row, specification, output_separator, c);
        assert(first.drop_last() =~= cells.subrange(0, c));
        assert(line_cells(rows, row, specification, output_separator, upto) =~= joined(
            first.drop_last(),
            output_separator,
        ) + output_separator + first.last() + end);
    }
}

/// A line is its padded cells joined by the output separator.
pub proof fn lemma_line_is_joined(
    rows: Seq<Seq<Seq<char>>>,
    row: Seq<Seq<char>>,
    specification: Seq<char>,
    output_separator: Seq<char>,
)
    ensures
        line_of(rows, row, specification, output_separator) == joined(
            padded_row(rows, row, specification),
            output_separator,
        ),
{
    let cells = padded_row(rows, row, specification);
    if row.len() > 0 {
        lemma_cells_are_joined(rows, row, specification, output_separator, row.len() as int);
        assert(cells.subrange(0, row.len() as int) =~= cells);
        assert(joined(cells, output_separator) + Seq::<char>::empty() =~= joined(
            cells,
            output_separator,
        ));
    }
}

/// Whether `separator` stands in the lines of the table only where it
/// was set between two cells.
pub open spec fn separator_stands_apart(
    rows: Seq<Seq<Seq<char>>>,
    specification: Seq<char>,
    separator: Seq<char>,
) -> bool {
    forall|r: int|
        0 <= r < rows.len() ==> stands_only_between(
            #[trigger] padded_row(rows, rows[r], specification),
            separator,
        )
}

/// The lines of a table, split at the separator that was set between
/// their cells, are the padded cells of the table; these have the widths
/// of the columns of the table, so that none is padded again; and their
/// lines are the same lines. This holds where every row has a cell, the
/// separator is not empty and stands in the lines only between cells, and
/// spaces around a cell add their number to its width.
pub proof fn lemma_rendering_is_stable(
    rows: Seq<Seq<Seq<char>>>,
    specification: Seq<char>,
    separator: Seq<char>,
)
    requires
        separator.len() > 0,
        forall|r: int| 0 <= r < rows.len() ==> (#[trigger] rows[r]).len() > 0,
        separator_stands_apart(rows, specification, separator),
        padding_widens(rows),
    ensures
        ({
            let lines = rendered_lines(rows, specification, separator);
            let again = split_again(lines, separator);
            &&& forall|r: int|
                0 <= r < rows.len() ==> #[trigger] again[r] == padded_row(
                    rows,
                    rows[r],
                    specification,
                )
            &&& forall|c: int| column_width(again, c) == column_width(rows, c)
            &&& forall|r: int, c: int|
                0 <= r < rows.len() && 0 <= c < rows[r].len() ==> padding(
                    column_width(again, c),
                    #[trigger] visual_width(again[r][c]),
                ) == 0
            &&& rendered_lines(again, specification, separator) == lines
        }),
{
    let sep = separator;
    let lines = rendered_lines(rows, specification, sep);
    let again = split_again(lines, sep);
    assert forall|r: int| 0 <= r < rows.len() implies #[trigger] again[r] == padded_row(
        rows,
        rows[r],
        specification,
    ) by {
        let cells = padded_row(rows, rows[r], specification);
        lemma_line_is_joined(rows, rows[r], specification, sep);
        lemma_split_of_joined(cells, sep);
    }
    assert forall|r: int, c: int|
        0 <= r < rows.len() && 0 <= c < rows[r].len() implies #[trigger] cell_width(again[r], c)
        == column_width(rows, c) by {
        lemma_cell_fills_column(rows, r, c, specification);
        let pad = padding(column_width(rows, c), visual_width(rows[r][c]));
        let mode = mode_at(specification, c);
        assert(again[r][c] == spaces(mode.left_pad(pad)) + rows[r][c] + spaces(
            mode.right_pad(pad),
        ));
    }
    assert forall|c: int| column_width(again, c) == column_width(rows, c) by {
        lemma_column_width_is_greatest(again, c);
        lemma_column_width_is_greatest(rows, c);
        if column_width(again, c) > 0 {
            let r = choose|r: int|
                0 <= r < again.len() && cell_width(#[trigger] again[r], c) == column_width(
                    again,
                    c,
                );
            assert(0 <= c < rows[r].len());
        } else if column_width(rows, c) > 0 {
            let r = choose|r: int|
                0 <= r < rows.len() && cell_width(#[trigger] rows[r], c) == column_width(rows, c);
            assert(0 <= c < rows[r].len());
            assert(cell_width(again[r], c) == column_width(rows, c));
        }
    }
    assert forall|r: int, c: int| 0 <= r < rows.len() && 0 <= c < rows[r].len() implies padding(
        column_width(again, c),
        #[trigger] visual_width(again[r][c]),
    ) == 0 by {
        assert(cell_width(again[r], c) == column_width(rows, c));
    }
    assert forall|r: int| 0 <= r < rows.len() implies line_of(
        again,
        #[trigger] again[r],
        specification,
        sep,
    ) == lines[r] by {
        let cells = again[r];
        lemma_line_is_joined(again, cells, specification, sep);
        lemma_line_is_joined(rows, rows[r], specification, sep);
        assert forall|c: int| 0 <= c < cells.len() implies padded_cell(
            again,
            cells,
            specification,
            c,
        ) == cells[c] by {
            assert(cell_width(again[r], c) == column_width(rows, c));
            assert(padding(column_width(again, c), visual_width(cells[c])) == 0);
            lemma_padding_is_shared(mode_at(specification, c), 0);
            assert(spaces(0) =~= Seq::<char>::empty());
            assert(spaces(0) + cells[c] + spaces(0) =~= cells[c]);
        }
        assert(padded_row(again, cells, specification) =~= cells);
    }
    assert(rendered_lines(again, specification, sep) =~= lines);
}

/// Whether `second` asks for a run on the output of `first`: with its
/// output separator as the separator of both the input and the output, with
/// its alignment, and with no titles and no hidden columns.
pub open spec fn runs_again(second: Config, first: Config) -> bool {
    &&& second.separator@ == first.output_separator@
    &&& second.output_separator@ == first.output_separator@
    &&& second.alignment@ == first.alignment@
    &&& second.columns_titles is None
    &&& second.columns_hide is None
}

/// A second run on the lines that a first run has written finds the same
/// rows of as many cells, in columns of the same widths, pads no cell
/// again, and writes the same lines. Here `again` is a text whose lines are
/// the lines that the run `first` on `text` writes. This holds where the
/// first run writes lines, every row of its table has a cell, none of its
/// lines is blank, its output separator is not empty and stands in its
/// lines only between cells, and spaces around a cell add their number to
/// its width.
pub proof fn lemma_second_run_is_stable(
    first: Config,
    text: Seq<char>,
    second: Config,
    again: Seq<char>,
)
    requires
        first.kept_lines(text).len() > 0,
        max_columns(first.rows(text)) > 0,
        runs_again(second, first),
        lines_of(again) == first.output_lines(text),
        first.output_separator@.len() > 0,
        forall|r: int|
            0 <= r < first.rows(text).len() ==> (#[trigger] first.rows(text)[r]).len() > 0,
        forall|r: int|
            0 <= r < first.output_lines(text).len() ==> !is_blank(
                #[trigger] first.output_lines(text)[r],
            ),
        separator_stands_apart(first.rows(text), first.alignment@, first.output_separator@),
        padding_widens(first.rows(text)),
    ensures
        second.rows(again).len() == first.rows(text).len(),
        forall|r: int|
            0 <= r < first.rows(text).len() ==> (#[trigger] second.rows(again)[r]).len()
                == first.rows(text)[r].len(),
        forall|c: int|
            column_width(second.rows(again), c) == column_width(first.rows(text), c),
        forall|r: int, c: int|
            0 <= r < first.rows(text).len() && 0 <= c < first.rows(text)[r].len() ==> padding(
                column_width(second.rows(again), c),
                #[trigger] visual_width(second.rows(again)[r][c]),
            ) == 0,
        second.output_lines(again) == first.output_lines(text),
{
    let rows = first.rows(text);
    let specification = first.alignment@;
    let sep = first.output_separator@;
    let lines = rendered_lines(rows, specification, sep);
    assert(first.output_lines(text) == lines);
    assert(rows.len() > 0);
    lemma_without_blank_keeps(lines);
    assert(second.kept_lines(again) == lines);
    assert(second.lines(again) == lines);
    assert(second.hidden() == Set::<usize>::empty());
    let table = split_again(lines, sep);
    assert forall|r: int| 0 <= r < lines.len() implies #[trigger] second.rows(again)[r]
        == table[r] by {
        lemma_visible_all(split_on(lines[r], sep));
    }
    assert(second.rows(again) =~= table);
    lemma_rendering_is_stable(rows, specification, sep);
    lemma_max_columns_bounds(table);
    assert(table[0].len() == rows[0].len());
    assert(max_columns(table) > 0);
}

} // verus!
