//! The width of every cell, and of every column the greatest width among
//! its cells.

use vstd::prelude::*;
use crate::text::views;
use crate::width::{measure, visual_width};

verus! {

/// The rows of cells that a table is made of.
pub open spec fn rows_view(rows: Seq<Vec<String>>) -> Seq<Seq<Seq<char>>> {
    rows.map_values(|row: Vec<String>| views(row@))
}

/// The width of the cell of `row` in column `column`, 0 where the row has
/// no such cell.
pub open spec fn cell_width(row: Seq<Seq<char>>, column: int) -> nat {
    if 0 <= column < row.len() {
        visual_width(row[column])
    } else {
        0
    }
}

/// The greater of two numbers.
pub open spec fn greater(a: nat, b: nat) -> nat {
    if a < b {
        b
    } else {
        a
    }
}

/// The width of column `column`: the greatest width among the cells that
/// the rows have in it, 0 where no row has one.
pub open spec fn column_width(rows: Seq<Seq<Seq<char>>>, column: int) -> nat
    decreases rows.len(),
{
    if rows.len() == 0 {
        0
    } else {
        greater(column_width(rows.drop_last(), column), cell_width(rows.last(), column))
    }
}

/// The greatest number of cells in a row, 0 where there is no row.
pub open spec fn max_columns(rows: Seq<Seq<Seq<char>>>) -> nat
    decreases rows.len(),
{
    if rows.len() == 0 {
        0
    } else {
        greater(max_columns(rows.drop_last()), rows.last().len())
    }
}

/// No cell is wider than its column, and a column of a width above 0 has a
/// cell of just that width.
pub proof fn lemma_column_width_is_greatest(rows: Seq<Seq<Seq<char>>>, column: int)
    ensures
        forall|r: int| 0 <= r < rows.len() ==> cell_width(#[trigger] rows[r], column) <= column_width(rows, column),
        column_width(rows, column) > 0 ==> exists|r: int|
            0 <= r < rows.len() && cell_width(#[trigger] rows[r], column) == column_width(
                rows,
                column,
            ),
    decreases rows.len(),
{
    if rows.len() > 0 {
        let before = rows.drop_last();
        lemma_column_width_is_greatest(before, column);
        assert forall|r: int| 0 <= r < rows.len() implies cell_width(#[trigger] rows[r], column)
            <= column_width(rows, column) by {
            if r < before.len() {
                assert(before[r] == rows[r]);
            }
        }
        if column_width(rows, column) > 0 {
            if column_width(rows, column) == cell_width(rows.last(), column) {
                assert(rows[rows.len() - 1] == rows.last());
            } else {
                let r = choose|r: int|
                    0 <= r < before.len() && cell_width(#[trigger] before[r], column)
                        == column_width(before, column);
                assert(before[r] == rows[r]);
            }
        }
    }
}

/// A further row makes no column narrower.
pub proof fn lemma_column_width_grows(rows: Seq<Seq<Seq<char>>>, row: Seq<Seq<char>>, column: int)
    ensures
        column_width(rows, column) <= column_width(rows.push(row), column),
{
    assert(rows.push(row).drop_last() =~= rows);
}

/// No row has more cells than `max_columns` says.
pub proof fn lemma_max_columns_bounds(rows: Seq<Seq<Seq<char>>>)
    ensures
        forall|r: int| 0 <= r < rows.len() ==> (#[trigger] rows[r]).len() <= max_columns(rows),
        rows.len() > 0 ==> exists|r: int|
            0 <= r < rows.len() && (#[trigger] rows[r]).len() == max_columns(rows),
    decreases rows.len(),
{
    if rows.len() > 0 {
        let before = rows.drop_last();
        lemma_max_columns_bounds(before);
        assert forall|r: int| 0 <= r < rows.len() implies (#[trigger] rows[r]).len()
            <= max_columns(rows) by {
            if r < before.len() {
                assert(before[r] == rows[r]);
            }
        }
        if before.len() > 0 && max_columns(rows) != rows.last().len() {
            let r = choose|r: int|
                0 <= r < before.len() && (#[trigger] before[r]).len() == max_columns(before);
            assert(before[r] == rows[r]);
        } else {
            assert(rows[rows.len() - 1] == rows.last());
        }
    }
}

/// The greatest number of cells in a row.
pub fn count_columns(rows: &Vec<Vec<String>>) -> (columns: usize)
    ensures
        columns == max_columns(rows_view(rows@)),
{
    let mut columns: usize = 0;
    let mut r: usize = 0;
    while r < rows.len()
        invariant
            r <= rows@.len(),
            columns == max_columns(rows_view(rows@).subrange(0, r as int)),
        decreases rows@.len() - r,
    {
        let ghost upto = rows_view(rows@).subrange(0, r + 1);
        assert(upto.drop_last() =~= rows_view(rows@).subrange(0, r as int));
        assert(upto.last() == views(rows@[r as int]@));
        if rows[r].len() > columns {
            columns = rows[r].len();
        }
        r += 1;
    }
    assert(rows_view(rows@).subrange(0, rows@.len() as int) =~= rows_view(rows@));
    columns
}

/// Whether `widths` holds the width of every cell of `rows`.
pub open spec fn are_widths_of(widths: Seq<Vec<usize>>, rows: Seq<Seq<Seq<char>>>) -> bool {
    &&& widths.len() == rows.len()
    &&& forall|r: int|
        0 <= r < rows.len() ==> {
            &&& (#[trigger] widths[r])@.len() == rows[r].len()
            &&& forall|c: int|
                0 <= c < rows[r].len() ==> (#[trigger] widths[r]@[c]) == visual_width(rows[r][c])
        }
}

/// Whether `widths` holds the widths of the first `columns` columns of
/// `rows`.
pub open spec fn are_column_widths_of(
    widths: Seq<usize>,
    rows: Seq<Seq<Seq<char>>>,
    columns: nat,
) -> bool {
    &&& widths.len() == columns
    &&& forall|c: int| 0 <= c < columns ==> #[trigger] widths[c] == column_width(rows, c)
}

/// Measures every cell of `rows`, and finds the width of each of the first
/// `columns` columns.
pub fn aggregate(rows: &Vec<Vec<String>>, columns: usize) -> (widths: (Vec<Vec<usize>>, Vec<usize>))
    requires
        forall|r: int| 0 <= r < rows@.len() ==> (#[trigger] rows@[r])@.len() <= columns,
    ensures
        are_widths_of(widths.0@, rows_view(rows@)),
        are_column_widths_of(widths.1@, rows_view(rows@), columns as nat),
{
    let ghost table = rows_view(rows@);
    let mut column_widths: Vec<usize> = Vec::new();
    let mut c: usize = 0;
    while c < columns
        invariant
            c <= columns,
            column_widths@.len() == c,
            forall|k: int| 0 <= k < c ==> column_widths@[k] == 0,
        decreases columns - c,
    {
        column_widths.push(0);
        c += 1;
    }
    let mut cell_widths: Vec<Vec<usize>> = Vec::new();
    let mut r: usize = 0;
    while r < rows.len()
        invariant
            r <= rows@.len(),
            table == rows_view(rows@),
            forall|k: int| 0 <= k < rows@.len() ==> (#[trigger] rows@[k])@.len() <= columns,
            are_widths_of(cell_widths@, table.subrange(0, r as int)),
            are_column_widths_of(column_widths@, table.subrange(0, r as int), columns as nat),
        decreases rows@.len() - r,
    {
        let row = &rows[r];
        let ghost before = table.subrange(0, r as int);
        let ghost upto = table.subrange(0, r + 1);
        assert(upto.drop_last() =~= before);
        assert(upto.last() == views(row@));
        let mut row_widths: Vec<usize> = Vec::new();
        let mut c: usize = 0;
        while c < row.len()
            invariant
                c <= row@.len() <= columns,
                column_widths@.len() == columns,
                upto.len() > 0,
                upto.drop_last() == before,
                upto.last() == views(row@),
                row_widths@.len() == c,
                forall|k: int| 0 <= k < c ==> #[trigger] row_widths@[k] == visual_width(row@[k]@),
                forall|k: int|
                    0 <= k < c ==> #[trigger] column_widths@[k] == column_width(upto, k),
                forall|k: int|
                    c <= k < columns ==> #[trigger] column_widths@[k] == column_width(before, k),
            decreases row@.len() - c,
        {
            let width = measure(row[c].as_str());
            assert(cell_width(upto.last(), c as int) == width);
            assert(column_width(upto, c as int) == greater(
                column_width(before, c as int),
                width as nat,
            ));
            if column_widths[c] < width {
                column_widths.set(c, width);
            }
            row_widths.push(width);
            c += 1;
        }
        proof {
            assert forall|k: int| 0 <= k < columns implies #[trigger] column_widths@[k]
                == column_width(upto, k) by {
                if k >= row@.len() {
                    assert(cell_width(upto.last(), k) == 0);
                }
            }
            let ghost measured = cell_widths@.push(row_widths);
            assert forall|k: int| 0 <= k < upto.len() implies {
                &&& (#[trigger] measured[k])@.len() == upto[k].len()
                &&& forall|j: int|
                    0 <= j < upto[k].len() ==> (#[trigger] measured[k]@[j]) == visual_width(
                        upto[k][j],
                    )
            } by {
                if k < r {
                    assert(measured[k] == cell_widths@[k]);
                    assert(upto[k] == before[k]);
                }
            }
        }
        cell_widths.push(row_widths);
        r += 1;
    }
    assert(table.subrange(0, rows@.len() as int) =~= table);
    (cell_widths, column_widths)
}

} // verus!
