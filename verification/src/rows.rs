//! From lines to rows of cells: which lines count, and which cells of a
//! line are shown.

use vstd::prelude::*;
use crate::columns::ColumnsHide;
use crate::split::{split, split_on};
use crate::text::views;
use crate::width::{is_blank, line_is_blank};

verus! {

/// The lines that are not blank, in their order.
pub open spec fn without_blank(lines: Seq<Seq<char>>) -> Seq<Seq<char>>
    decreases lines.len(),
{
    if lines.len() == 0 {
        Seq::empty()
    } else if is_blank(lines.last()) {
        without_blank(lines.drop_last())
    } else {
        without_blank(lines.drop_last()).push(lines.last())
    }
}

/// Of the lines that are left none is blank, and there are not more of
/// them than there were lines.
pub proof fn lemma_without_blank(lines: Seq<Seq<char>>)
    ensures
        without_blank(lines).len() <= lines.len(),
        forall|k: int|
            0 <= k < without_blank(lines).len() ==> !is_blank(#[trigger] without_blank(lines)[k]),
        forall|k: int|
            0 <= k < without_blank(lines).len() ==> lines.contains(
                #[trigger] without_blank(lines)[k],
            ),
    decreases lines.len(),
{
    if lines.len() > 0 {
        let before = lines.drop_last();
        lemma_without_blank(before);
        assert forall|k: int| 0 <= k < without_blank(lines).len() implies lines.contains(
            #[trigger] without_blank(lines)[k],
        ) by {
            if k < without_blank(before).len() {
                let line = without_blank(before)[k];
                let j = choose|j: int| 0 <= j < before.len() && before[j] == line;
                assert(lines[j] == line);
            } else {
                assert(lines[lines.len() - 1] == lines.last());
            }
        }
    }
}

/// Where no line is blank, every line is left.
pub proof fn lemma_without_blank_keeps(lines: Seq<Seq<char>>)
    requires
        forall|k: int| 0 <= k < lines.len() ==> !is_blank(#[trigger] lines[k]),
    ensures
        without_blank(lines) == lines,
    decreases lines.len(),
{
    if lines.len() > 0 {
        let before = lines.drop_last();
        assert forall|k: int| 0 <= k < before.len() implies !is_blank(#[trigger] before[k]) by {
            assert(before[k] == lines[k]);
        }
        lemma_without_blank_keeps(before);
        assert(before.push(lines.last()) =~= lines);
    }
}

/// The lines without a blank last line.
pub open spec fn without_blank_end(lines: Seq<Seq<char>>) -> Seq<Seq<char>> {
    if lines.len() > 0 && is_blank(lines.last()) {
        lines.drop_last()
    } else {
        lines
    }
}

/// The lines that become rows. Where blank lines are kept, only a blank
/// last line goes; else every blank line goes.
pub open spec fn surviving(lines: Seq<Seq<char>>, keep_blank: bool) -> Seq<Seq<char>> {
    if keep_blank {
        without_blank_end(lines)
    } else {
        without_blank(lines)
    }
}

/// Removes the blank lines that do not count as rows.
pub fn remove_blank_lines(lines: Vec<String>, keep_blank: bool) -> (kept: Vec<String>)
    ensures
        views(kept@) == surviving(views(lines@), keep_blank),
{
    let mut lines = lines;
    if keep_blank {
        let n: usize = lines.len();
        if n > 0 && line_is_blank(lines[n - 1].as_str()) {
            let ghost before = views(lines@);
            assert(before.last() == lines@[n - 1]@);
            lines.pop();
            assert(views(lines@) =~= before.drop_last());
        } else {
            assert(n > 0 ==> views(lines@).last() == lines@[n - 1]@);
        }
        lines
    } else {
        let mut kept: Vec<String> = Vec::new();
        let mut i: usize = 0;
        while i < lines.len()
            invariant
                i <= lines@.len(),
                views(kept@) == without_blank(views(lines@).subrange(0, i as int)),
            decreases lines@.len() - i,
        {
            let ghost upto = views(lines@).subrange(0, i + 1);
            assert(upto.drop_last() =~= views(lines@).subrange(0, i as int));
            assert(upto.last() == lines@[i as int]@);
            if !line_is_blank(lines[i].as_str()) {
                let line = lines[i].clone();
                assert(views(kept@.push(line)) =~= views(kept@).push(line@));
                kept.push(line);
            }
            i += 1;
        }
        assert(views(lines@).subrange(0, lines@.len() as int) =~= views(lines@));
        kept
    }
}

/// The cells that are shown, in their order: those whose index in `cells`
/// is not in `hidden`.
pub open spec fn visible(cells: Seq<Seq<char>>, hidden: Set<usize>) -> Seq<Seq<char>>
    decreases cells.len(),
{
    if cells.len() == 0 {
        Seq::empty()
    } else if hidden.contains((cells.len() - 1) as usize) {
        visible(cells.drop_last(), hidden)
    } else {
        visible(cells.drop_last(), hidden).push(cells.last())
    }
}

/// Where no column is hidden, every cell is shown.
pub proof fn lemma_visible_all(cells: Seq<Seq<char>>)
    ensures
        visible(cells, Set::empty()) == cells,
    decreases cells.len(),
{
    if cells.len() > 0 {
        lemma_visible_all(cells.drop_last());
        assert(cells.drop_last().push(cells.last()) =~= cells);
    }
}

/// Where the columns without a title are hidden, the cells of the titled
/// columns are shown: a row of no more cells than there are titles is
/// shown whole.
pub proof fn lemma_named_cells_are_shown(cells: Seq<Seq<char>>, named_columns: usize)
    requires
        cells.len() <= named_columns,
    ensures
        visible(cells, ColumnsHide::Unnamed.hidden(Some(named_columns))) == cells,
    decreases cells.len(),
{
    if cells.len() > 0 {
        lemma_named_cells_are_shown(cells.drop_last(), named_columns);
        assert(cells.drop_last().push(cells.last()) =~= cells);
    }
}

/// The cells that are shown are not more than there are cells, and where
/// every column is hidden none is shown.
pub proof fn lemma_visible_len(cells: Seq<Seq<char>>, hidden: Set<usize>)
    requires
        cells.len() <= usize::MAX,
    ensures
        visible(cells, hidden).len() <= cells.len(),
        (forall|column: usize| hidden.contains(column)) ==> visible(cells, hidden).len() == 0,
    decreases cells.len(),
{
    if cells.len() > 0 {
        lemma_visible_len(cells.drop_last(), hidden);
    }
}

/// The cells of a line that are shown.
pub open spec fn planned(
    line: Seq<char>,
    separator: Seq<char>,
    hidden: Set<usize>,
) -> Seq<Seq<char>> {
    visible(split_on(line, separator), hidden)
}

/// Splits `line` on `separator` and leaves out the cells of the columns
/// that `columns_hide` hides, where `named_columns` is the number of titled
/// columns if there is a title row.
pub fn plan(
    line: &str,
    separator: &str,
    columns_hide: &ColumnsHide,
    named_columns: Option<usize>,
) -> (cells: Vec<String>)
    ensures
        views(cells@) == planned(line@, separator@, columns_hide.hidden(named_columns)),
{
    let all = split(line, separator);
    let mut cells: Vec<String> = Vec::new();
    let mut i: usize = 0;
    let ghost hidden = columns_hide.hidden(named_columns);
    while i < all.len()
        invariant
            i <= all@.len(),
            hidden == columns_hide.hidden(named_columns),
            views(cells@) == visible(views(all@).subrange(0, i as int), hidden),
        decreases all@.len() - i,
    {
        let ghost upto = views(all@).subrange(0, i + 1);
        assert(upto.drop_last() =~= views(all@).subrange(0, i as int));
        assert(upto.last() == all@[i as int]@);
        if !columns_hide.is_hidden(i, named_columns) {
            let cell = all[i].clone();
            assert(views(cells@.push(cell)) =~= views(cells@).push(cell@));
            cells.push(cell);
        }
        i += 1;
    }
    assert(views(all@).subrange(0, all@.len() as int) =~= views(all@));
    cells
}

} // verus!
