//! Splitting text into lines and lines into cells.

use vstd::prelude::*;
use crate::text::{chars_of, joined, string_of, views};

verus! {

/// Whether `sep` stands in `s` at position `at`.
pub open spec fn occurs_at(s: Seq<char>, sep: Seq<char>, at: int) -> bool {
    0 <= at && at + sep.len() <= s.len() && s.subrange(at, at + sep.len()) == sep
}

/// The pieces that splitting yields from a scan that stands at `pos`, the
/// piece at hand having begun at `start`. Occurrences of `sep` are taken
/// from the left and do not overlap. An empty `sep` occurs once at every
/// position, the two ends included.
pub open spec fn split_from(s: Seq<char>, sep: Seq<char>, start: int, pos: int) -> Seq<Seq<char>>
    decreases s.len() + 1 - pos,
{
    if 0 <= start <= pos && pos + sep.len() <= s.len() {
        if occurs_at(s, sep, pos) {
            seq![s.subrange(start, pos)] + split_from(
                s,
                sep,
                pos + sep.len(),
                if sep.len() == 0 {
                    pos + 1
                } else {
                    pos + sep.len()
                },
            )
        } else {
            split_from(s, sep, start, pos + 1)
        }
    } else if 0 <= start <= s.len() {
        seq![s.subrange(start, s.len() as int)]
    } else {
        seq![]
    }
}

/// The cells of the line `s`: what stands between the occurrences of the
/// literal separator `sep`.
pub open spec fn split_on(s: Seq<char>, sep: Seq<char>) -> Seq<Seq<char>> {
    split_from(s, sep, 0, 0)
}

/// Decides `occurs_at`.
pub fn is_at(s: &Vec<char>, sep: &Vec<char>, at: usize) -> (b: bool)
    requires
        at + sep@.len() <= s@.len(),
    ensures
        b == occurs_at(s@, sep@, at as int),
{
    let m: usize = sep.len();
    let mut i: usize = 0;
    while i < m
        invariant
            i <= m == sep@.len(),
            at + m <= s@.len() == s.len(),
            forall|j: int| 0 <= j < i ==> s@[at + j] == sep@[j],
        decreases m - i,
    {
        if s[at + i] != sep[i] {
            assert(s@.subrange(at as int, at + sep@.len())[i as int] != sep@[i as int]);
            return false;
        }
        i += 1;
    }
    assert(s@.subrange(at as int, at + sep@.len()) =~= sep@);
    true
}

/// Splits `line` on the literal separator `separator`.
pub fn split(line: &str, separator: &str) -> (cells: Vec<String>)
    ensures
        views(cells@) == split_on(line@, separator@),
{
    let s = chars_of(line);
    let sep = chars_of(separator);
    let mut cells: Vec<String> = Vec::new();
    let n: usize = s.len();
    let m: usize = sep.len();
    let mut start: usize = 0;
    let mut pos: usize = 0;
    loop
        invariant_except_break
            start <= pos,
            views(cells@) + split_from(s@, sep@, start as int, pos as int) == split_on(s@, sep@),
        invariant
            s@ == line@,
            sep@ == separator@,
            n == s@.len(),
            m == sep@.len(),
            start <= n,
        ensures
            views(cells@) + seq![s@.subrange(start as int, n as int)] == split_on(s@, sep@),
        decreases n + 1 - pos,
    {
        if m > n || pos > n - m {
            break;
        }
        if is_at(&s, &sep, pos) {
            let cell = string_of(&s, start, pos);
            proof {
                assert(views(cells@.push(cell)) =~= views(cells@) + seq![cell@]);
            }
            cells.push(cell);
            start = pos + m;
            if m == 0 {
                if pos == n {
                    proof {
                        assert(split_from(s@, sep@, n as int, n + 1) == seq![
                            s@.subrange(n as int, n as int),
                        ]);
                    }
                    break;
                }
                pos = pos + 1;
            } else {
                pos = start;
            }
        } else {
            proof {
                if m == 0 {
                    assert(s@.subrange(pos as int, pos as int) =~= sep@);
                }
            }
            pos += 1;
        }
    }
    let cell = string_of(&s, start, n);
    proof {
        assert(views(cells@.push(cell)) =~= views(cells@) + seq![cell@]);
    }
    cells.push(cell);
    cells
}

/// Whether the character `d` stands nowhere in `s`.
pub open spec fn is_free_of(s: Seq<char>, d: char) -> bool {
    forall|i: int| 0 <= i < s.len() ==> s[i] != d
}

/// A scan that begins a piece at `start` yields, where the separator does
/// not stand at any place from `start` up to `end`, that stretch as its
/// first piece: as its only piece if the text ends there, and else, if the
/// separator stands at `end`, followed by what the scan yields from behind
/// that separator.
proof fn lemma_split_piece(s: Seq<char>, sep: Seq<char>, start: int, pos: int, end: int)
    requires
        sep.len() > 0,
        0 <= start <= pos <= end <= s.len(),
        forall|at: int| start <= at < end ==> !occurs_at(s, sep, at),
        end == s.len() || occurs_at(s, sep, end),
    ensures
        split_from(s, sep, start, pos) == if end == s.len() {
            seq![s.subrange(start, end)]
        } else {
            seq![s.subrange(start, end)] + split_from(s, sep, end + sep.len(), end + sep.len())
        },
    decreases end - pos,
{
    if pos < end {
        lemma_split_piece(s, sep, start, pos + 1, end);
    }
}

/// No piece that a scan for the separator `d` yields holds `d`, where `d`
/// does not stand between the start of the piece at hand and the place of
/// the scan.
proof fn lemma_split_from_is_free(s: Seq<char>, d: char, start: int, pos: int)
    requires
        0 <= start <= pos,
        start <= s.len(),
        forall|i: int| start <= i < pos && i < s.len() ==> s[i] != d,
    ensures
        forall|k: int|
            0 <= k < split_from(s, seq![d], start, pos).len() ==> is_free_of(
                #[trigger] split_from(s, seq![d], start, pos)[k],
                d,
            ),
    decreases s.len() + 1 - pos,
{
    let sep = seq![d];
    let pieces = split_from(s, sep, start, pos);
    if pos + 1 <= s.len() {
        if occurs_at(s, sep, pos) {
            let piece = s.subrange(start, pos);
            let rest = split_from(s, sep, pos + 1, pos + 1);
            lemma_split_from_is_free(s, d, pos + 1, pos + 1);
            assert forall|k: int| 0 <= k < pieces.len() implies is_free_of(
                #[trigger] pieces[k],
                d,
            ) by {
                if k == 0 {
                    assert forall|i: int| 0 <= i < piece.len() implies piece[i] != d by {
                        assert(piece[i] == s[start + i]);
                    }
                } else {
                    assert(pieces[k] == rest[k - 1]);
                }
            }
        } else {
            assert(s[pos] == d ==> s.subrange(pos, pos + 1) =~= sep);
            lemma_split_from_is_free(s, d, start, pos + 1);
            assert(pieces == split_from(s, sep, start, pos + 1));
        }
    } else {
        let piece = s.subrange(start, s.len() as int);
        assert forall|i: int| 0 <= i < piece.len() implies piece[i] != d by {
            assert(piece[i] == s[start + i]);
        }
        assert(pieces[0] == piece);
    }
}

/// Where the separator is one character, no cell holds it.
pub proof fn lemma_cells_hold_no_separator(s: Seq<char>, d: char)
    ensures
        forall|k: int|
            0 <= k < split_on(s, seq![d]).len() ==> is_free_of(
                #[trigger] split_on(s, seq![d])[k],
                d,
            ),
{
    lemma_split_from_is_free(s, d, 0, 0);
}

/// A scan of a text from `k` on yields what a scan of the text without
/// its first `k` characters yields from its start on.
proof fn lemma_split_shift(s: Seq<char>, sep: Seq<char>, k: int, start: int, pos: int)
    requires
        0 <= k <= s.len(),
        0 <= start <= pos,
        sep.len() > 0,
    ensures
        split_from(s, sep, k + start, k + pos) == split_from(
            s.subrange(k, s.len() as int),
            sep,
            start,
            pos,
        ),
    decreases s.len() - k - pos,
{
    let rest = s.subrange(k, s.len() as int);
    if pos + sep.len() <= rest.len() {
        assert(s.subrange(k + pos, k + pos + sep.len()) =~= rest.subrange(pos, pos + sep.len()));
        assert(s.subrange(k + start, k + pos) =~= rest.subrange(start, pos));
        if occurs_at(s, sep, k + pos) {
            lemma_split_shift(s, sep, k, pos + sep.len(), pos + sep.len());
        } else {
            lemma_split_shift(s, sep, k, start, pos + 1);
        }
    } else if start <= rest.len() {
        assert(s.subrange(k + start, s.len() as int) =~= rest.subrange(start, rest.len() as int));
    }
}

/// Joining from the left: the first item, the separator, and the other
/// items joined.
pub proof fn lemma_joined_from_left(items: Seq<Seq<char>>, separator: Seq<char>)
    requires
        items.len() >= 2,
    ensures
        joined(items, separator) == items[0] + separator + joined(items.drop_first(), separator),
    decreases items.len(),
{
    let rest = items.drop_first();
    if items.len() == 2 {
        assert(items.drop_last() =~= seq![items[0]]);
        assert(rest =~= seq![items[1]]);
        assert(joined(items.drop_last(), separator) == items[0]);
        assert(joined(rest, separator) == items[1]);
        assert(joined(items, separator) =~= items[0] + separator + items[1]);
    } else {
        lemma_joined_from_left(items.drop_last(), separator);
        assert(items.drop_last().drop_first() =~= rest.drop_last());
        assert(rest.last() == items.last());
        assert(joined(items, separator) =~= items[0] + separator + joined(rest, separator));
    }
}

/// A scan yields at least one piece, and its pieces joined by the separator
/// are the text from the start of the piece at hand on.
proof fn lemma_joined_split_from(s: Seq<char>, sep: Seq<char>, start: int, pos: int)
    requires
        0 <= start <= pos,
        start <= s.len(),
    ensures
        split_from(s, sep, start, pos).len() >= 1,
        joined(split_from(s, sep, start, pos), sep) == s.subrange(start, s.len() as int),
    decreases s.len() + 1 - pos,
{
    if pos + sep.len() <= s.len() {
        if occurs_at(s, sep, pos) {
            let next = pos + sep.len();
            let after = if sep.len() == 0 {
                next + 1
            } else {
                next
            };
            let rest = split_from(s, sep, next, after);
            let pieces = seq![s.subrange(start, pos)] + rest;
            lemma_joined_split_from(s, sep, next, after);
            lemma_joined_from_left(pieces, sep);
            assert(pieces.drop_first() =~= rest);
            assert(s.subrange(start, pos) + sep + s.subrange(next, s.len() as int) =~= s.subrange(
                start,
                s.len() as int,
            ));
        } else {
            lemma_joined_split_from(s, sep, start, pos + 1);
        }
    }
}

/// Splitting loses nothing: a text has at least one cell, and its cells
/// joined by the separator are the text.
pub proof fn lemma_joined_split(s: Seq<char>, sep: Seq<char>)
    ensures
        split_on(s, sep).len() >= 1,
        joined(split_on(s, sep), sep) == s,
{
    lemma_joined_split_from(s, sep, 0, 0);
    assert(s.subrange(0, s.len() as int) =~= s);
}

/// What is joined is at least as long as its first item.
proof fn lemma_joined_len(items: Seq<Seq<char>>, separator: Seq<char>)
    requires
        items.len() > 0,
    ensures
        joined(items, separator).len() >= items[0].len(),
{
    if items.len() >= 2 {
        lemma_joined_from_left(items, separator);
    }
}

/// Whether the separator stands in the joined items only where joining
/// has set it: behind the first item, behind the first two, and so on.
pub open spec fn stands_only_between(items: Seq<Seq<char>>, separator: Seq<char>) -> bool {
    forall|at: int| #[trigger]
        occurs_at(joined(items, separator), separator, at) ==> exists|i: int|
            0 < i < items.len() && at == #[trigger] joined(items.subrange(0, i), separator).len()
}

/// Splitting what was joined gives the items back, where the separator is
/// not empty and stands in the joined text only between the items.
pub proof fn lemma_split_of_joined(items: Seq<Seq<char>>, separator: Seq<char>)
    requires
        items.len() > 0,
        separator.len() > 0,
        stands_only_between(items, separator),
    ensures
        split_on(joined(items, separator), separator) == items,
    decreases items.len(),
{
    let sep = separator;
    let s = joined(items, sep);
    let first = items[0];
    if items.len() == 1 {
        lemma_split_piece(s, sep, 0, 0, s.len() as int);
        assert(s.subrange(0, s.len() as int) =~= s);
        assert(items =~= seq![first]);
    } else {
        let rest = items.drop_first();
        lemma_joined_from_left(items, sep);
        let tail = joined(rest, sep);
        let n = first.len() as int;
        let k = n + sep.len();
        assert(s == first + sep + tail);
        assert(s.subrange(n, k) =~= sep);
        assert forall|at: int| 0 <= at < n implies !occurs_at(s, sep, at) by {
            if occurs_at(s, sep, at) {
                let i = choose|i: int|
                    0 < i < items.len() && at == #[trigger] joined(items.subrange(0, i), sep).len();
                lemma_joined_len(items.subrange(0, i), sep);
            }
        }
        lemma_split_piece(s, sep, 0, 0, n);
        lemma_split_shift(s, sep, k, 0, 0);
        assert(s.subrange(k, s.len() as int) =~= tail);
        assert(s.subrange(0, n) =~= first);
        assert forall|at: int| #[trigger] occurs_at(tail, sep, at) implies exists|i: int|
            0 < i < rest.len() && at == #[trigger] joined(rest.subrange(0, i), sep).len() by {
            assert(s.subrange(k + at, k + at + sep.len()) =~= tail.subrange(at, at + sep.len()));
            assert(occurs_at(s, sep, k + at));
            let i = choose|i: int|
                0 < i < items.len() && k + at == #[trigger] joined(items.subrange(0, i), sep).len();
            let upto = items.subrange(0, i);
            if i == 1 {
                assert(upto =~= seq![first]);
                assert(joined(upto, sep) == first);
            } else {
                lemma_joined_from_left(upto, sep);
                assert(upto.drop_first() =~= rest.subrange(0, i - 1));
            }
        }
        lemma_split_of_joined(rest, sep);
        assert(seq![first] + rest =~= items);
    }
}

/// A separator of one character that stands in none of the items stands
/// in the joined items only between them.
pub proof fn lemma_free_items_stand_apart(items: Seq<Seq<char>>, d: char)
    requires
        forall|i: int| 0 <= i < items.len() ==> is_free_of(#[trigger] items[i], d),
    ensures
        stands_only_between(items, seq![d]),
    decreases items.len(),
{
    let sep = seq![d];
    let s = joined(items, sep);
    assert forall|at: int| #[trigger] occurs_at(s, sep, at) implies exists|i: int|
        0 < i < items.len() && at == #[trigger] joined(items.subrange(0, i), sep).len() by {
        assert(s.subrange(at, at + 1)[0] == s[at]);
        assert(s[at] == d);
        if items.len() == 1 {
            assert(is_free_of(items[0], d));
        } else if items.len() >= 2 {
            let front = items.drop_last();
            let before = joined(front, sep);
            assert(is_free_of(items.last(), d));
            if at < before.len() {
                assert forall|i: int| 0 <= i < front.len() implies is_free_of(
                    #[trigger] front[i],
                    d,
                ) by {
                    assert(front[i] == items[i]);
                }
                lemma_free_items_stand_apart(front, d);
                assert(before.subrange(at, at + 1) =~= sep);
                assert(occurs_at(before, sep, at));
                let i = choose|i: int|
                    0 < i < front.len() && at == #[trigger] joined(front.subrange(0, i), sep).len();
                assert(front.subrange(0, i) =~= items.subrange(0, i));
            } else if at == before.len() {
                assert(items.subrange(0, items.len() - 1) =~= front);
            } else {
                assert(s[at] == items.last()[at - before.len() - 1]);
            }
        }
    }
}

/// A line without the carriage return that stood before its line feed.
pub open spec fn without_carriage_return(line: Seq<char>) -> Seq<char> {
    if line.len() > 0 && line.last() == '\r' {
        line.drop_last()
    } else {
        line
    }
}

/// The lines that a scan of `s` yields when it stands at `pos` and the line
/// at hand began at `start`. A line ends at a line feed, or at a carriage
/// return directly before one; neither belongs to the line. What follows
/// the last line feed is a line only if it is not empty.
pub open spec fn lines_from(s: Seq<char>, start: int, pos: int) -> Seq<Seq<char>>
    decreases s.len() - pos,
{
    if 0 <= start <= pos < s.len() {
        if s[pos] == '\n' {
            seq![without_carriage_return(s.subrange(start, pos))] + lines_from(s, pos + 1, pos + 1)
        } else {
            lines_from(s, start, pos + 1)
        }
    } else if 0 <= start < s.len() {
        seq![s.subrange(start, s.len() as int)]
    } else {
        seq![]
    }
}

/// The lines of the text `s`.
pub open spec fn lines_of(s: Seq<char>) -> Seq<Seq<char>> {
    lines_from(s, 0, 0)
}

/// No line that a scan yields holds a line feed, where none stands
/// between the start of the line at hand and the place of the scan.
proof fn lemma_lines_from_hold_no_line_feed(s: Seq<char>, start: int, pos: int)
    requires
        0 <= start <= pos,
        forall|i: int| start <= i < pos && i < s.len() ==> s[i] != '\n',
    ensures
        forall|k: int|
            0 <= k < lines_from(s, start, pos).len() ==> is_free_of(
                #[trigger] lines_from(s, start, pos)[k],
                '\n',
            ),
    decreases s.len() - pos,
{
    let lines = lines_from(s, start, pos);
    if pos < s.len() {
        if s[pos] == '\n' {
            lemma_lines_from_hold_no_line_feed(s, pos + 1, pos + 1);
            let rest = lines_from(s, pos + 1, pos + 1);
            let line = without_carriage_return(s.subrange(start, pos));
            assert forall|k: int| 0 <= k < lines.len() implies is_free_of(
                #[trigger] lines[k],
                '\n',
            ) by {
                if k == 0 {
                    assert forall|i: int| 0 <= i < line.len() implies line[i] != '\n' by {
                        assert(line[i] == s[start + i]);
                    }
                } else {
                    assert(lines[k] == rest[k - 1]);
                }
            }
        } else {
            lemma_lines_from_hold_no_line_feed(s, start, pos + 1);
            assert(lines == lines_from(s, start, pos + 1));
        }
    } else if start < s.len() {
        let line = s.subrange(start, s.len() as int);
        assert forall|i: int| 0 <= i < line.len() implies line[i] != '\n' by {
            assert(line[i] == s[start + i]);
        }
        assert(lines[0] == line);
    }
}

/// No line of a text holds a line feed.
pub proof fn lemma_lines_hold_no_line_feed(s: Seq<char>)
    ensures
        forall|k: int|
            0 <= k < lines_of(s).len() ==> is_free_of(#[trigger] lines_of(s)[k], '\n'),
{
    lemma_lines_from_hold_no_line_feed(s, 0, 0);
}

/// A scan for lines that begins a line at `start` yields, where no line
/// feed stands from `start` up to `end`, that stretch as its first line:
/// as its only line if the text ends there, unless the stretch is empty,
/// and else, if a line feed stands at `end`, followed by what the scan
/// yields from behind that line feed.
proof fn lemma_lines_piece(s: Seq<char>, start: int, pos: int, end: int)
    requires
        0 <= start <= pos <= end <= s.len(),
        forall|i: int| start <= i < end ==> s[i] != '\n',
        end == s.len() || s[end] == '\n',
    ensures
        lines_from(s, start, pos) == if end < s.len() {
            seq![without_carriage_return(s.subrange(start, end))] + lines_from(s, end + 1, end + 1)
        } else if start < s.len() {
            seq![s.subrange(start, end)]
        } else {
            Seq::empty()
        },
    decreases end - pos,
{
    if pos < end {
        lemma_lines_piece(s, start, pos + 1, end);
    }
}

/// A scan for lines from `k` on yields what a scan of the text without
/// its first `k` characters yields from its start on.
proof fn lemma_lines_shift(s: Seq<char>, k: int, start: int, pos: int)
    requires
        0 <= k <= s.len(),
        0 <= start <= pos,
    ensures
        lines_from(s, k + start, k + pos) == lines_from(s.subrange(k, s.len() as int), start, pos),
    decreases s.len() - k - pos,
{
    let rest = s.subrange(k, s.len() as int);
    if pos < rest.len() {
        assert(rest[pos] == s[k + pos]);
        assert(s.subrange(k + start, k + pos) =~= rest.subrange(start, pos));
        if s[k + pos] == '\n' {
            lemma_lines_shift(s, k, pos + 1, pos + 1);
        } else {
            lemma_lines_shift(s, k, start, pos + 1);
        }
    } else if start < rest.len() {
        assert(s.subrange(k + start, s.len() as int) =~= rest.subrange(start, rest.len() as int));
    }
}

/// Lines joined by line feeds are the lines of the text that they make,
/// where no line holds a line feed, none but the last ends with a carriage
/// return, and the last is not empty.
pub proof fn lemma_lines_of_joined(lines: Seq<Seq<char>>)
    requires
        lines.len() > 0,
        forall|k: int| 0 <= k < lines.len() ==> is_free_of(#[trigger] lines[k], '\n'),
        forall|k: int|
            0 <= k < lines.len() - 1 ==> without_carriage_return(#[trigger] lines[k]) == lines[k],
        lines.last().len() > 0,
    ensures
        lines_of(joined(lines, seq!['\n'])) == lines,
    decreases lines.len(),
{
    let sep = seq!['\n'];
    let s = joined(lines, sep);
    let first = lines[0];
    if lines.len() == 1 {
        assert(is_free_of(first, '\n'));
        lemma_lines_piece(s, 0, 0, s.len() as int);
        assert(s.subrange(0, s.len() as int) =~= s);
        assert(lines =~= seq![first]);
    } else {
        let rest = lines.drop_first();
        lemma_joined_from_left(lines, sep);
        let tail = joined(rest, sep);
        let n = first.len() as int;
        assert(s == first + sep + tail);
        assert(s[n] == '\n');
        assert(is_free_of(first, '\n'));
        assert forall|i: int| 0 <= i < n implies s[i] != '\n' by {
            assert(s[i] == first[i]);
        }
        lemma_lines_piece(s, 0, 0, n);
        lemma_lines_shift(s, n + 1, 0, 0);
        assert(s.subrange(n + 1, s.len() as int) =~= tail);
        assert(s.subrange(0, n) =~= first);
        assert forall|k: int| 0 <= k < rest.len() implies is_free_of(#[trigger] rest[k], '\n') by {
            assert(rest[k] == lines[k + 1]);
        }
        assert forall|k: int| 0 <= k < rest.len() - 1 implies without_carriage_return(
            #[trigger] rest[k],
        ) == rest[k] by {
            assert(rest[k] == lines[k + 1]);
        }
        assert(rest.last() == lines.last());
        lemma_lines_of_joined(rest);
        assert(seq![first] + rest =~= lines);
    }
}

/// Splits `text` into its lines, without their line endings.
pub fn split_lines(text: &str) -> (lines: Vec<String>)
    ensures
        views(lines@) == lines_of(text@),
{
    let s = chars_of(text);
    let n: usize = s.len();
    let mut lines: Vec<String> = Vec::new();
    let mut start: usize = 0;
    let mut pos: usize = 0;
    while pos < n
        invariant
            s@ == text@,
            n == s@.len(),
            start <= pos <= n,
            views(lines@) + lines_from(s@, start as int, pos as int) == lines_of(s@),
        decreases n - pos,
    {
        if s[pos] == '\n' {
            let end: usize = if start < pos && s[pos - 1] == '\r' {
                pos - 1
            } else {
                pos
            };
            let line = string_of(&s, start, end);
            proof {
                assert(line@ =~= without_carriage_return(s@.subrange(start as int, pos as int)));
                assert(views(lines@.push(line)) =~= views(lines@) + seq![line@]);
            }
            lines.push(line);
            start = pos + 1;
        }
        pos += 1;
    }
    if start < n {
        let line = string_of(&s, start, n);
        proof {
            assert(views(lines@.push(line)) =~= views(lines@) + seq![line@]);
        }
        lines.push(line);
    } else {
        assert(views(lines@) + Seq::<Seq<char>>::empty() =~= views(lines@));
    }
    lines
}

} // verus!
