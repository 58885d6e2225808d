//! The title row and the set of hidden columns, as a user asks for them.

use std::collections::HashSet;
use vstd::prelude::*;
use crate::error::Error;
use crate::list::{cleaned, list_clean_input, list_items, multiple_commas, pattern_compiles};
use crate::number::{digits_value, parse_number, parsed_number};
use crate::split::{
    is_free_of,
    lemma_free_items_stand_apart,
    lemma_split_of_joined,
    split_on,
    stands_only_between,
};
use crate::text::{chars_of, join, joined, views};

verus! {

/// The title row for the given names: the names joined by `separator`.
pub open spec fn title_line_of(names: Seq<Seq<char>>, separator: Seq<char>) -> Seq<char> {
    joined(names, separator)
}

/// The title row has one cell for each name, and its cells are the names,
/// where the separator is not empty and stands in the row only between the
/// names.
pub proof fn lemma_title_cells_are_the_names(names: Seq<Seq<char>>, separator: Seq<char>)
    requires
        names.len() > 0,
        separator.len() > 0,
        stands_only_between(names, separator),
    ensures
        split_on(title_line_of(names, separator), separator) == names,
{
    lemma_split_of_joined(names, separator);
}

/// The title row has one cell for each name, and its cells are the names,
/// where the separator is one character that stands in no name.
pub proof fn lemma_title_cells_of_free_names(names: Seq<Seq<char>>, d: char)
    requires
        names.len() > 0,
        forall|i: int| 0 <= i < names.len() ==> is_free_of(#[trigger] names[i], d),
    ensures
        split_on(title_line_of(names, seq![d]), seq![d]) == names,
{
    lemma_free_items_stand_apart(names, d);
    lemma_split_of_joined(names, seq![d]);
}

/// The items of a list as written.
pub open spec fn items_of(list: Seq<char>) -> Seq<Seq<char>> {
    split_on(cleaned(list), seq![','])
}

/// A row of titles that is set before the rows of the input.
pub struct ColumnsTitles {
    /// The row, to be split into cells like any other.
    pub title_line: String,
    /// The number of columns that have a title.
    pub named_columns: usize,
}

impl ColumnsTitles {
    /// The title row for the names `names`.
    pub fn from_items(names: &Vec<String>, separator: &str) -> (titles: Self)
        ensures
            titles.title_line@ == title_line_of(views(names@), separator@),
            titles.named_columns == names@.len(),
    {
        let title_line = join(names, separator);
        ColumnsTitles { title_line, named_columns: names.len() }
    }

    /// The title row for the list of names `input`. `None` where the list
    /// cannot be read.
    pub fn from(input: &str, separator: &str) -> (titles: Option<Self>)
        ensures
            titles is Some <==> pattern_compiles(multiple_commas()),
            titles matches Some(t) ==> {
                &&& t.title_line@ == title_line_of(items_of(input@), separator@)
                &&& t.named_columns == items_of(input@).len()
            },
    {
        match list_clean_input(input) {
            Some(clean) => {
                let names = list_items(clean.as_str());
                Some(Self::from_items(&names, separator))
            },
            None => None,
        }
    }
}

/// Whether `token` names a column: it writes a number from 1 on.
pub open spec fn is_column_index(token: Seq<char>) -> bool {
    parsed_number(token) matches Some(n) && n > 0
}

/// The columns, counted from 0, that the tokens name, counting from 1.
pub open spec fn indices_of(tokens: Seq<Seq<char>>) -> Set<usize> {
    Set::new(
        |column: usize|
            column < usize::MAX && exists|k: int|
                0 <= k < tokens.len() && parsed_number(#[trigger] tokens[k]) == Some(
                    (column + 1) as usize,
                ),
    )
}

/// Whether every token names a column.
pub open spec fn all_column_indices(tokens: Seq<Seq<char>>) -> bool {
    forall|k: int| 0 <= k < tokens.len() ==> is_column_index(#[trigger] tokens[k])
}

/// Whether `token` is the first of `tokens` that names no column.
pub open spec fn is_first_unknown(tokens: Seq<Seq<char>>, token: Seq<char>) -> bool {
    exists|k: int|
        0 <= k < tokens.len() && #[trigger] tokens[k] == token && !is_column_index(token)
            && all_column_indices(tokens.subrange(0, k))
}

/// A list with a token that names no column has a first such token.
pub proof fn lemma_first_unknown(tokens: Seq<Seq<char>>, k: int)
    requires
        0 <= k < tokens.len(),
        !is_column_index(tokens[k]),
    ensures
        !all_column_indices(tokens),
        exists|token: Seq<char>| is_first_unknown(tokens, token),
    decreases k,
{
    if all_column_indices(tokens.subrange(0, k)) {
        assert(is_first_unknown(tokens, tokens[k]));
    } else {
        let before = tokens.subrange(0, k);
        let j = choose|j: int| 0 <= j < before.len() && !is_column_index(#[trigger] before[j]);
        assert(before[j] == tokens[j]);
        lemma_first_unknown(tokens, j);
    }
}

/// The text `0` writes the number 0.
proof fn lemma_zero_token()
    ensures
        parsed_number(seq!['0']) == Some(0usize),
{
    let zero = seq!['0'];
    assert(zero.drop_last() =~= Seq::<char>::empty());
    assert(digits_value(zero) == 0) by {
        reveal_with_fuel(digits_value, 2);
    }
}

/// A list of hidden columns with the token `0`, or another that writes the
/// number 0, is refused, whatever else it holds: one of its tokens is the
/// first that names no column.
pub proof fn lemma_zero_is_refused(tokens: Seq<Seq<char>>, k: int)
    requires
        0 <= k < tokens.len(),
        tokens[k] == seq!['0'] || parsed_number(tokens[k]) == Some(0usize),
    ensures
        !all_column_indices(tokens),
        exists|token: Seq<char>| is_first_unknown(tokens, token),
{
    lemma_zero_token();
    lemma_first_unknown(tokens, k);
}

/// The columns that are not shown.
pub enum ColumnsHide {
    /// The columns with these indices, counted from 0.
    Indices(HashSet<usize>),
    /// Every column without a title.
    Unnamed,
    /// No column.
    Nothing,
}

impl ColumnsHide {
    /// Whether the column `column` is left out, where `named_columns` is
    /// the number of titled columns if there is a title row. Without a
    /// title row no column has a title.
    pub open spec fn hides(self, column: usize, named_columns: Option<usize>) -> bool {
        match self {
            ColumnsHide::Indices(indices) => indices@.contains(column),
            ColumnsHide::Unnamed => match named_columns {
                Some(named) => column >= named,
                None => true,
            },
            ColumnsHide::Nothing => false,
        }
    }

    /// The columns that are left out.
    pub open spec fn hidden(self, named_columns: Option<usize>) -> Set<usize> {
        Set::new(|column: usize| self.hides(column, named_columns))
    }

    /// Decides `hides`.
    pub fn is_hidden(&self, column: usize, named_columns: Option<usize>) -> (hidden: bool)
        ensures
            hidden == self.hides(column, named_columns),
            hidden == self.hidden(named_columns).contains(column),
    {
        broadcast use vstd::std_specs::hash::group_hash_axioms;

        match self {
            ColumnsHide::Indices(indices) => indices.contains(&column),
            ColumnsHide::Unnamed => match named_columns {
                Some(named) => column >= named,
                None => true,
            },
            ColumnsHide::Nothing => false,
        }
    }

    /// The set of the columns that `tokens` name, each token counting from
    /// 1. The first token that names no column is the error.
    pub fn from_items(tokens: &Vec<String>) -> (hide: Result<Self, Error>)
        ensures
            hide is Ok <==> all_column_indices(views(tokens@)),
            hide matches Ok(h) ==> h matches ColumnsHide::Indices(indices) && indices@
                == indices_of(views(tokens@)),
            hide matches Err(e) ==> e matches Error::UnknownColumnIndex(token) && is_first_unknown(
                views(tokens@),
                token@,
            ),
    {
        broadcast use vstd::std_specs::hash::group_hash_axioms;

        let mut indices: HashSet<usize> = HashSet::new();
        let mut i: usize = 0;
        while i < tokens.len()
            invariant
                i <= tokens@.len(),
                all_column_indices(views(tokens@).subrange(0, i as int)),
                indices@ == indices_of(views(tokens@).subrange(0, i as int)),
            decreases tokens@.len() - i,
        {
            let ghost all = views(tokens@);
            let ghost before = all.subrange(0, i as int);
            let ghost upto = all.subrange(0, i + 1);
            let token = &tokens[i];
            assert(all[i as int] == token@);
            match parse_number(token.as_str()) {
                Some(human_index) if human_index > 0 => {
                    indices.insert(human_index - 1);
                    proof {
                        assert forall|k: int| 0 <= k < upto.len() implies is_column_index(
                            #[trigger] upto[k],
                        ) by {
                            if k < i {
                                assert(before[k] == upto[k]);
                            }
                        }
                        assert forall|column: usize|
                            indices_of(upto).contains(column) <==> indices_of(before).insert(
                                (human_index - 1) as usize,
                            ).contains(column) by {
                            if indices_of(upto).contains(column) {
                                let k = choose|k: int|
                                    0 <= k < upto.len() && parsed_number(#[trigger] upto[k])
                                        == Some((column + 1) as usize);
                                if k < i {
                                    assert(before[k] == upto[k]);
                                }
                            }
                            if indices_of(before).contains(column) {
                                let k = choose|k: int|
                                    0 <= k < before.len() && parsed_number(#[trigger] before[k])
                                        == Some((column + 1) as usize);
                                assert(before[k] == upto[k]);
                            }
                            if column == human_index - 1 {
                                assert(upto[i as int] == token@);
                            }
                        }
                        assert(indices@ =~= indices_of(upto));
                    }
                },
                _ => {
                    proof {
                        assert(!is_column_index(all[i as int]));
                    }
                    return Err(Error::UnknownColumnIndex(token.clone()));
                },
            }
            i += 1;
        }
        assert(views(tokens@).subrange(0, tokens@.len() as int) =~= views(tokens@));
        Ok(ColumnsHide::Indices(indices))
    }

    /// Reads what a user asks to hide: nothing where `input` is `None`,
    /// every column without a title for `-`, and else the columns that a
    /// list of indices names, counted from 1.
    pub fn from(input: Option<&str>) -> (hide: Result<Self, Error>)
        ensures
            match input {
                None => (hide matches Ok(ColumnsHide::Nothing)),
                Some(list) => if list@ == seq!['-'] {
                    (hide matches Ok(ColumnsHide::Unnamed))
                } else {
                    &&& hide is Ok <==> pattern_compiles(multiple_commas())
                        && all_column_indices(items_of(list@))
                    &&& hide matches Ok(h) ==> h matches ColumnsHide::Indices(indices)
                        && indices@ == indices_of(items_of(list@))
                    &&& hide matches Err(e) ==> if pattern_compiles(multiple_commas()) {
                        (e matches Error::UnknownColumnIndex(token) && is_first_unknown(
                            items_of(list@),
                            token@,
                        ))
                    } else {
                        (e matches Error::ListPattern)
                    }
                },
            },
    {
        match input {
            Some(columns_hide) => {
                let chars = chars_of(columns_hide);
                if chars.len() == 1 && chars[0] == '-' {
                    assert(columns_hide@ =~= seq!['-']);
                    return Ok(ColumnsHide::Unnamed);
                }
                match list_clean_input(columns_hide) {
                    Some(clean) => {
                        let tokens = list_items(clean.as_str());
                        Self::from_items(&tokens)
                    },
                    None => Err(Error::ListPattern),
                }
            },
            None => Ok(ColumnsHide::Nothing),
        }
    }
}

} // verus!
