//! The whole way from a text to its aligned lines.

use vstd::prelude::*;
use crate::alignment::{is_valid_specification, lemma_padding_is_shared, Alignment};
use crate::columns::{
    all_column_indices,
    indices_of,
    is_first_unknown,
    items_of,
    title_line_of,
    ColumnsHide,
    ColumnsTitles,
};
use crate::error::Error;
use crate::list::{multiple_commas, pattern_compiles};
use crate::output::{assemble, assembled};
use crate::render::{assign, fits, mode_at, padding, render_row, rendered_cells};
use crate::rows::{plan, planned, remove_blank_lines, surviving};
use crate::split::{lines_of, split_lines};
use crate::text::views;
use crate::width::visual_width;
use crate::widths::{
    aggregate,
    are_column_widths_of,
    are_widths_of,
    cell_width,
    column_width,
    count_columns,
    lemma_column_width_is_greatest,
    lemma_max_columns_bounds,
    max_columns,
    rows_view,
};

verus! {

/// The first `upto` cells of the row `row` of the table `rows` as they are
/// written one after the other: each padded to the width of its column in
/// the table, as the mode of its column under `specification` places it,
/// and followed by `output_separator` unless it is the last of its row.
pub open spec fn line_cells(
    rows: Seq<Seq<Seq<char>>>,
    row: Seq<Seq<char>>,
    specification: Seq<char>,
    output_separator: Seq<char>,
    upto: int,
) -> Seq<char>
    decreases upto,
{
    if upto <= 0 {
        Seq::empty()
    } else {
        let c = upto - 1;
        line_cells(rows, row, specification, output_separator, c) + mode_at(
            specification,
            c,
        ).rendered(
            row[c],
            if upto == row.len() {
                Seq::empty()
            } else {
                output_separator
            },
            padding(column_width(rows, c), visual_width(row[c])),
        )
    }
}

/// The row `row` of the table `rows` as it is written.
pub open spec fn line_of(
    rows: Seq<Seq<Seq<char>>>,
    row: Seq<Seq<char>>,
    specification: Seq<char>,
    output_separator: Seq<char>,
) -> Seq<char> {
    line_cells(rows, row, specification, output_separator, row.len() as int)
}

/// The lines of a table: its rows as they are written, in their order.
pub open spec fn rendered_lines(
    rows: Seq<Seq<Seq<char>>>,
    specification: Seq<char>,
    output_separator: Seq<char>,
) -> Seq<Seq<char>> {
    Seq::new(rows.len(), |r: int| line_of(rows, rows[r], specification, output_separator))
}

/// The lines that are written of a table: none where it has no column.
pub open spec fn output_of(
    rows: Seq<Seq<Seq<char>>>,
    specification: Seq<char>,
    output_separator: Seq<char>,
) -> Seq<Seq<char>> {
    if max_columns(rows) == 0 {
        Seq::empty()
    } else {
        rendered_lines(rows, specification, output_separator)
    }
}

/// A row rendered from measured widths is the row of the table as it is
/// written.
proof fn lemma_rendered_cells(
    rows: Seq<Seq<Seq<char>>>,
    row: Seq<Seq<char>>,
    widths: Seq<usize>,
    column_widths: Seq<usize>,
    modes: Seq<Alignment>,
    specification: Seq<char>,
    output_separator: Seq<char>,
    upto: int,
)
    requires
        upto <= row.len() == widths.len(),
        row.len() <= column_widths.len() == modes.len(),
        forall|c: int| 0 <= c < row.len() ==> #[trigger] widths[c] == visual_width(row[c]),
        forall|c: int|
            0 <= c < column_widths.len() ==> #[trigger] column_widths[c] == column_width(rows, c),
        forall|c: int| 0 <= c < modes.len() ==> #[trigger] modes[c] == mode_at(specification, c),
    ensures
        rendered_cells(row, widths, column_widths, modes, output_separator, upto) == line_cells(
            rows,
            row,
            specification,
            output_separator,
            upto,
        ),
    decreases upto,
{
    if upto > 0 {
        lemma_rendered_cells(
            rows,
            row,
            widths,
            column_widths,
            modes,
            specification,
            output_separator,
            upto - 1,
        );
    }
}

/// In every row, the width of a cell and the spaces set before and after
/// it are together the width of its column, whatever the mode of the
/// column: the cells of a column begin and end at the same place in every
/// line.
pub proof fn lemma_cell_fills_column(
    rows: Seq<Seq<Seq<char>>>,
    r: int,
    c: int,
    specification: Seq<char>,
)
    requires
        0 <= r < rows.len(),
        0 <= c < rows[r].len(),
    ensures
        visual_width(rows[r][c]) <= column_width(rows, c),
        ({
            let pad = padding(column_width(rows, c), visual_width(rows[r][c]));
            let mode = mode_at(specification, c);
            mode.left_pad(pad) + visual_width(rows[r][c]) + mode.right_pad(pad) == column_width(
                rows,
                c,
            )
        }),
{
    lemma_column_width_is_greatest(rows, c);
    assert(cell_width(rows[r], c) == visual_width(rows[r][c]));
    let pad = padding(column_width(rows, c), visual_width(rows[r][c]));
    lemma_padding_is_shared(mode_at(specification, c), pad);
}

/// Renders the rows of a table: every cell padded to the width of its
/// column. Nothing is rendered of a table without columns.
pub fn render(rows: &Vec<Vec<String>>, specification: &str, output_separator: &str) -> (lines: Vec<
    String,
>)
    requires
        is_valid_specification(specification@),
    ensures
        views(lines@) == output_of(rows_view(rows@), specification@, output_separator@),
        max_columns(rows_view(rows@)) > 0 ==> lines@.len() == rows@.len(),
{
    let ghost table = rows_view(rows@);
    let columns = count_columns(rows);
    let mut lines: Vec<String> = Vec::new();
    if columns == 0 {
        assert(views(lines@) =~= Seq::<Seq<char>>::empty());
        return lines;
    }
    proof {
        lemma_max_columns_bounds(table);
        assert forall|r: int| 0 <= r < rows@.len() implies (#[trigger] rows@[r])@.len()
            <= columns by {
            assert(table[r].len() == rows@[r]@.len());
        }
    }
    let (cell_widths, column_widths) = aggregate(rows, columns);
    let modes = assign(specification, columns);
    let mut r: usize = 0;
    while r < rows.len()
        invariant
            r <= rows@.len(),
            table == rows_view(rows@),
            forall|k: int| 0 <= k < rows@.len() ==> (#[trigger] table[k]).len() <= columns,
            are_widths_of(cell_widths@, table),
            are_column_widths_of(column_widths@, table, columns as nat),
            modes@.len() == columns,
            forall|c: int| 0 <= c < columns ==> #[trigger] modes@[c] == mode_at(specification@, c),
            lines@.len() == r,
            forall|k: int|
                0 <= k < r ==> (#[trigger] lines@[k])@ == line_of(
                    table,
                    table[k],
                    specification@,
                    output_separator@,
                ),
        decreases rows@.len() - r,
    {
        let ghost row = table[r as int];
        assert(row == views(rows@[r as int]@));
        proof {
            assert forall|c: int| 0 <= c < row.len() implies #[trigger] cell_widths@[r as int]@[c]
                <= column_widths@[c] by {
                lemma_column_width_is_greatest(table, c);
                assert(cell_width(table[r as int], c) == visual_width(row[c]));
            }
            assert(fits(cell_widths@[r as int]@, column_widths@, modes@));
            lemma_rendered_cells(
                table,
                row,
                cell_widths@[r as int]@,
                column_widths@,
                modes@,
                specification@,
                output_separator@,
                row.len() as int,
            );
        }
        let line = render_row(&rows[r], &cell_widths[r], &column_widths, &modes, output_separator);
        lines.push(line);
        r += 1;
    }
    proof {
        assert forall|k: int| 0 <= k < table.len() implies #[trigger] views(lines@)[k] == line_of(
            table,
            table[k],
            specification@,
            output_separator@,
        ) by {
            assert(views(lines@)[k] == lines@[k]@);
        }
        assert(views(lines@) =~= rendered_lines(table, specification@, output_separator@));
    }
    lines
}

/// What a run is asked to do.
#[derive(Clone, Debug)]
pub struct Config {
    /// The text that parts the cells of an input line.
    pub separator: String,
    /// The text that parts the cells of an output line.
    pub output_separator: String,
    /// One alignment identifier for each column; the last one holds for
    /// the columns that follow.
    pub alignment: String,
    /// Whether blank lines are rows.
    pub keep_blank_lines: bool,
    /// The titles of the columns, as a list.
    pub columns_titles: Option<String>,
    /// The columns to hide: `-` for those without a title, or a list of
    /// their indices, counted from 1.
    pub columns_hide: Option<String>,
}

impl Config {
    /// Whether the alignment specification holds identifiers only.
    pub open spec fn is_valid(self) -> bool {
        is_valid_specification(self.alignment@)
    }

    /// Whether a list has to be read.
    pub open spec fn reads_list(self) -> bool {
        self.columns_titles is Some || self.hide_tokens() is Some
    }

    /// The title row, if titles are given.
    pub open spec fn title(self) -> Option<Seq<char>> {
        match self.columns_titles {
            Some(titles) => Some(title_line_of(items_of(titles@), self.separator@)),
            None => None,
        }
    }

    /// The number of titled columns, if titles are given.
    pub open spec fn named_columns(self) -> Option<usize> {
        match self.columns_titles {
            Some(titles) => Some(items_of(titles@).len() as usize),
            None => None,
        }
    }

    /// The tokens of the list of hidden columns, if there is such a list.
    pub open spec fn hide_tokens(self) -> Option<Seq<Seq<char>>> {
        match self.columns_hide {
            Some(list) => if list@ == seq!['-'] {
                None
            } else {
                Some(items_of(list@))
            },
            None => None,
        }
    }

    /// The columns that are not shown.
    pub open spec fn hidden(self) -> Set<usize> {
        match self.columns_hide {
            Some(list) => if list@ == seq!['-'] {
                ColumnsHide::Unnamed.hidden(self.named_columns())
            } else {
                indices_of(items_of(list@))
            },
            None => Set::empty(),
        }
    }

    /// The lines of `text` that become rows.
    pub open spec fn kept_lines(self, text: Seq<char>) -> Seq<Seq<char>> {
        surviving(lines_of(text), self.keep_blank_lines)
    }

    /// The lines that become rows, the title row first if titles are given.
    pub open spec fn lines(self, text: Seq<char>) -> Seq<Seq<char>> {
        match self.title() {
            Some(title) => seq![title] + self.kept_lines(text),
            None => self.kept_lines(text),
        }
    }

    /// The rows of the table: of each line the cells that are shown.
    pub open spec fn rows(self, text: Seq<char>) -> Seq<Seq<Seq<char>>> {
        Seq::new(
            self.lines(text).len(),
            |r: int| planned(self.lines(text)[r], self.separator@, self.hidden()),
        )
    }

    /// Whether the lists that a run has to read can be read, and every
    /// token of the list of hidden columns names a column.
    pub open spec fn reads_well(self) -> bool {
        &&& self.reads_list() ==> pattern_compiles(multiple_commas())
        &&& self.hide_tokens() matches Some(tokens) ==> all_column_indices(tokens)
    }

    /// Whether a run on `text` comes to an end without an error. A text
    /// without rows is done with before any list is read.
    pub open spec fn succeeds(self, text: Seq<char>) -> bool {
        self.kept_lines(text).len() == 0 || self.reads_well()
    }

    /// Whether `error` is the one that stops a run which does not succeed:
    /// that the lists cannot be read, or else the first token of the list of
    /// hidden columns that names no column.
    pub open spec fn is_stopped_by(self, error: Error) -> bool {
        if self.reads_list() && !pattern_compiles(multiple_commas()) {
            error is ListPattern
        } else {
            &&& error matches Error::UnknownColumnIndex(token)
            &&& self.hide_tokens() matches Some(tokens)
            &&& is_first_unknown(tokens, token@)
        }
    }

    /// The lines that a run on `text` writes: the rows of the table as
    /// they are written, and none where no line of the text is a row or no
    /// column is shown.
    pub open spec fn output_lines(self, text: Seq<char>) -> Seq<Seq<char>> {
        if self.kept_lines(text).len() == 0 {
            Seq::empty()
        } else {
            output_of(self.rows(text), self.alignment@, self.output_separator@)
        }
    }
}

/// Where a run writes lines at all, it writes one line for each line of
/// the text that is a row, and one more for the title row if titles are
/// given.
pub proof fn lemma_one_line_for_each_row(config: Config, text: Seq<char>)
    requires
        config.kept_lines(text).len() > 0,
        max_columns(config.rows(text)) > 0,
    ensures
        config.output_lines(text).len() == config.kept_lines(text).len() + if config.columns_titles is Some {
            1int
        } else {
            0int
        },
{
}

/// Aligns the columns of `text`. The result holds one line for each row of
/// the table, the title row included, and nothing where no line of the
/// text counts as a row or no column is shown.
pub fn tabulate(text: &str, config: &Config) -> (table: Result<Vec<String>, Error>)
    requires
        config.is_valid(),
    ensures
        table is Ok <==> config.succeeds(text@),
        table matches Ok(lines) ==> views(lines@) == config.output_lines(text@),
        table matches Err(error) ==> config.is_stopped_by(error),
{
    let mut lines = remove_blank_lines(split_lines(text), config.keep_blank_lines);
    if lines.len() == 0 {
        assert(views(lines@) =~= Seq::<Seq<char>>::empty());
        return Ok(lines);
    }
    let ghost kept = views(lines@);
    let mut named_columns: Option<usize> = None;
    match &config.columns_titles {
        Some(titles) => {
            match ColumnsTitles::from(titles.as_str(), config.separator.as_str()) {
                Some(columns_titles) => {
                    named_columns = Some(columns_titles.named_columns);
                    lines.insert(0, columns_titles.title_line);
                    assert(views(lines@) =~= config.lines(text@));
                },
                None => {
                    return Err(Error::ListPattern);
                },
            }
        },
        None => {},
    }
    assert(named_columns == config.named_columns());
    let columns_hide = match &config.columns_hide {
        Some(list) => ColumnsHide::from(Some(list.as_str())),
        None => ColumnsHide::from(None),
    };
    let columns_hide = match columns_hide {
        Ok(columns_hide) => columns_hide,
        Err(e) => {
            return Err(e);
        },
    };
    assert(columns_hide.hidden(named_columns) =~= config.hidden());
    let mut rows: Vec<Vec<String>> = Vec::new();
    let mut r: usize = 0;
    while r < lines.len()
        invariant
            r <= lines@.len(),
            columns_hide.hidden(named_columns) == config.hidden(),
            rows@.len() == r,
            forall|k: int|
                0 <= k < r ==> views((#[trigger] rows@[k])@) == planned(
                    lines@[k]@,
                    config.separator@,
                    config.hidden(),
                ),
        decreases lines@.len() - r,
    {
        let row = plan(lines[r].as_str(), config.separator.as_str(), &columns_hide, named_columns);
        rows.push(row);
        r += 1;
    }
    proof {
        assert forall|k: int| 0 <= k < lines@.len() implies #[trigger] rows_view(rows@)[k]
            == config.rows(text@)[k] by {
            assert(views(lines@)[k] == lines@[k]@);
        }
        assert(rows_view(rows@) =~= config.rows(text@));
    }
    Ok(render(&rows, config.alignment.as_str(), config.output_separator.as_str()))
}

/// Aligns the columns of `text` and puts together what is to be written,
/// for a terminal of the name `terminal` if it has one. Where there is no
/// line to write, nothing is written at all.
pub fn run(text: &str, config: &Config, terminal: Option<&str>) -> (output: Result<
    Option<String>,
    Error,
>)
    requires
        config.is_valid(),
    ensures
        output is Ok <==> config.succeeds(text@),
        output matches Ok(written) ==> match written {
            Some(written) => config.output_lines(text@).len() > 0 && written@ == assembled(
                config.output_lines(text@),
                match terminal {
                    Some(name) => Some(name@),
                    None => None,
                },
            ),
            None => config.output_lines(text@).len() == 0,
        },
        output matches Err(error) ==> config.is_stopped_by(error),
{
    match tabulate(text, config) {
        Ok(lines) => {
            if lines.len() == 0 {
                Ok(None)
            } else {
                Ok(Some(assemble(&lines, terminal)))
            }
        },
        Err(error) => Err(error),
    }
}

} // verus!
