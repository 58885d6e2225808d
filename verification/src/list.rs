//! Comma-separated lists as a user writes them: stray commas at the ends
//! and repeated commas between items count as nothing.

use vstd::prelude::*;
use crate::split::{
    is_free_of,
    lemma_cells_hold_no_separator,
    occurs_at,
    split,
    split_from,
    split_on,
};
use crate::text::{chars_of, string_of, views};

verus! {

/// Whether `regex::Regex::new` accepts a pattern.
pub uninterp spec fn pattern_compiles(pattern: Seq<char>) -> bool;

/// What `regex::Regex::replace_all` returns for the regular expression
/// compiled from `pattern`, the text `text` and the replacement
/// `replacement`.
pub uninterp spec fn replaced_all(
    pattern: Seq<char>,
    text: Seq<char>,
    replacement: Seq<char>,
) -> Seq<char>;

/// Trusted: the body compiles `pattern` with `regex::Regex::new` and, where
/// that succeeds, calls `regex::Regex::replace_all` on `text` and
/// `replacement`. The result is `None` exactly where the pattern is refused,
/// and otherwise the text that `replaced_all` names.
#[verifier::external_body]
fn regex_replace_all(pattern: &str, text: &str, replacement: &str) -> (replaced: Option<String>)
    ensures
        replaced is Some <==> pattern_compiles(pattern@),
        replaced matches Some(r) ==> r@ == replaced_all(pattern@, text@, replacement@),
{
    match regex::Regex::new(pattern) {
        Ok(re) => Some(re.replace_all(text, replacement).into_owned()),
        Err(_) => None,
    }
}

/// `s` without the characters `c` at its start.
pub open spec fn trim_start(s: Seq<char>, c: char) -> Seq<char>
    decreases s.len(),
{
    if s.len() > 0 && s[0] == c {
        trim_start(s.drop_first(), c)
    } else {
        s
    }
}

/// `s` without the characters `c` at its end.
pub open spec fn trim_end(s: Seq<char>, c: char) -> Seq<char>
    decreases s.len(),
{
    if s.len() > 0 && s.last() == c {
        trim_end(s.drop_last(), c)
    } else {
        s
    }
}

/// `s` without the characters `c` at its start and at its end.
pub open spec fn trim_matches(s: Seq<char>, c: char) -> Seq<char> {
    trim_end(trim_start(s, c), c)
}

/// Trimming at the start leaves what follows the leading run of `c`.
proof fn lemma_trim_start(s: Seq<char>, c: char, a: int)
    requires
        0 <= a <= s.len(),
        forall|i: int| 0 <= i < a ==> s[i] == c,
        a == s.len() || s[a] != c,
    ensures
        trim_start(s, c) == s.subrange(a, s.len() as int),
    decreases a,
{
    if a == 0 {
        assert(s.subrange(0, s.len() as int) =~= s);
    } else {
        lemma_trim_start(s.drop_first(), c, a - 1);
        assert(s.drop_first().subrange(a - 1, s.len() - 1) =~= s.subrange(a, s.len() as int));
    }
}

/// Trimming at the end leaves what precedes the trailing run of `c`.
proof fn lemma_trim_end(s: Seq<char>, c: char, b: int)
    requires
        0 <= b <= s.len(),
        forall|i: int| b <= i < s.len() ==> s[i] == c,
        b == 0 || s[b - 1] != c,
    ensures
        trim_end(s, c) == s.subrange(0, b),
    decreases s.len() - b,
{
    if b == s.len() {
        assert(s.subrange(0, b) =~= s);
    } else {
        lemma_trim_end(s.drop_last(), c, b);
        assert(s.drop_last().subrange(0, b) =~= s.subrange(0, b));
    }
}

/// `s` without the characters `c` at its start and at its end.
pub fn trim(s: &str, c: char) -> (trimmed: String)
    ensures
        trimmed@ == trim_matches(s@, c),
{
    let chars = chars_of(s);
    let n: usize = chars.len();
    let mut a: usize = 0;
    while a < n && chars[a] == c
        invariant
            a <= n == chars@.len(),
            forall|i: int| 0 <= i < a ==> chars@[i] == c,
        decreases n - a,
    {
        a += 1;
    }
    let mut b: usize = n;
    while a < b && chars[b - 1] == c
        invariant
            a <= b <= n == chars@.len(),
            forall|i: int| b <= i < n ==> chars@[i] == c,
        decreases b,
    {
        b -= 1;
    }
    proof {
        lemma_trim_start(chars@, c, a as int);
        let rest = chars@.subrange(a as int, n as int);
        assert forall|i: int| b - a <= i < rest.len() implies rest[i] == c by {
            assert(rest[i] == chars@[a + i]);
        }
        lemma_trim_end(rest, c, b - a);
        assert(rest.subrange(0, b - a) =~= chars@.subrange(a as int, b as int));
    }
    string_of(&chars, a, b)
}

/// The pattern for two or more commas in a row.
pub open spec fn multiple_commas() -> Seq<char> {
    ",{2,}"@
}

/// A list as written, ready to be split: without commas at its ends, and
/// with each run of commas replaced by one comma.
pub open spec fn cleaned(list: Seq<char>) -> Seq<char> {
    replaced_all(multiple_commas(), trim_matches(list, ','), seq![','])
}

/// Whether a list is ready to be split into items that are not empty: it
/// holds a character, no comma at either end, and no two commas in a row.
pub open spec fn is_clean(list: Seq<char>) -> bool {
    &&& list.len() > 0
    &&& list[0] != ','
    &&& list.last() != ','
    &&& forall|i: int| 0 <= i < list.len() - 1 ==> !(#[trigger] list[i] == ',' && list[i + 1] == ',')
}

/// No piece that a scan of a clean list yields is empty, where the piece
/// at hand begins with a character that is no comma.
proof fn lemma_clean_split_from(list: Seq<char>, start: int, pos: int)
    requires
        is_clean(list),
        0 <= start <= pos,
        start < list.len(),
        list[start] != ',',
    ensures
        forall|k: int|
            0 <= k < split_from(list, seq![','], start, pos).len() ==> (#[trigger] split_from(
                list,
                seq![','],
                start,
                pos,
            )[k]).len() > 0,
    decreases list.len() + 1 - pos,
{
    let sep = seq![','];
    let pieces = split_from(list, sep, start, pos);
    if pos + 1 <= list.len() {
        if occurs_at(list, sep, pos) {
            assert(list.subrange(pos, pos + 1)[0] == list[pos]);
            assert(list[pos] == ',');
            let rest = split_from(list, sep, pos + 1, pos + 1);
            lemma_clean_split_from(list, pos + 1, pos + 1);
            assert forall|k: int| 0 <= k < pieces.len() implies (#[trigger] pieces[k]).len()
                > 0 by {
                if k > 0 {
                    assert(pieces[k] == rest[k - 1]);
                }
            }
        } else {
            lemma_clean_split_from(list, start, pos + 1);
            assert(pieces == split_from(list, sep, start, pos + 1));
        }
    } else {
        assert(pieces[0] == list.subrange(start, list.len() as int));
    }
}

/// A clean list has no empty item, and no item holds a comma.
pub proof fn lemma_clean_list_has_no_empty_item(list: Seq<char>)
    requires
        is_clean(list),
    ensures
        forall|k: int|
            0 <= k < split_on(list, seq![',']).len() ==> {
                &&& (#[trigger] split_on(list, seq![','])[k]).len() > 0
                &&& is_free_of(split_on(list, seq![','])[k], ',')
            },
{
    lemma_clean_split_from(list, 0, 0);
    lemma_cells_hold_no_separator(list, ',');
}

/// Strips `list` of the commas at its ends and collapses the runs of
/// commas within it. `None` where the pattern for such a run is refused.
pub fn list_clean_input(list: &str) -> (clean: Option<String>)
    ensures
        clean is Some <==> pattern_compiles(multiple_commas()),
        clean matches Some(c) ==> c@ == cleaned(list@),
{
    let trimmed = trim(list, ',');
    proof {
        reveal_strlit(",");
        assert(","@ =~= seq![',']);
    }
    regex_replace_all(",{2,}", trimmed.as_str(), ",")
}

/// The items of a list: what stands between its commas.
pub fn list_items(list: &str) -> (items: Vec<String>)
    ensures
        views(items@) == split_on(list@, seq![',']),
{
    proof {
        reveal_strlit(",");
        assert(","@ =~= seq![',']);
    }
    split(list, ",")
}

} // verus!
