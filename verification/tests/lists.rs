use std::collections::HashSet;
use xcol::columns::{ColumnsHide, ColumnsTitles};
use xcol::error::Error;
use xcol::list::{list_clean_input, list_items, trim};
use xcol::number::parse_number;

fn items(raw: &str) -> Vec<String> {
    list_items(&list_clean_input(raw).unwrap())
}

#[test]
fn stray_commas_make_no_items() {
    assert_eq!(items(",,1,,3,,"), vec!["1", "3"]);
    assert_eq!(items(",,a,,b,,"), vec!["a", "b"]);
    assert_eq!(items("a,,b,"), vec!["a", "b"]);
}

#[test]
fn cleaning_collapses_runs_of_commas() {
    assert_eq!(list_clean_input("a,,,,b").unwrap(), "a,b");
    assert_eq!(list_clean_input("a,b").unwrap(), "a,b");
    assert_eq!(list_clean_input(",,,").unwrap(), "");
    assert_eq!(list_clean_input("").unwrap(), "");
    assert_eq!(list_clean_input(",a, ,b,").unwrap(), "a, ,b");
}

#[test]
fn an_empty_list_has_one_empty_item() {
    assert_eq!(list_items(""), vec![""]);
    assert_eq!(items(",,"), vec![""]);
}

#[test]
fn items_are_split_at_every_comma() {
    assert_eq!(list_items("a,b,c"), vec!["a", "b", "c"]);
    assert_eq!(list_items("a,,c"), vec!["a", "", "c"]);
    assert_eq!(list_items(",a,"), vec!["", "a", ""]);
    assert_eq!(list_items("abc"), vec!["abc"]);
}

#[test]
fn trim_takes_the_character_from_both_ends_only() {
    assert_eq!(trim(",,a,b,,", ','), "a,b");
    assert_eq!(trim(",,,", ','), "");
    assert_eq!(trim("", ','), "");
    assert_eq!(trim("a", ','), "a");
    assert_eq!(trim("xaxbx", 'x'), "axb");
    for s in ["", ",", ",,a", "a,,", ",a,b,", "é,,", ",,😀,"] {
        assert_eq!(trim(s, ','), s.trim_matches(','));
    }
}

#[test]
fn numbers_are_read_as_the_standard_library_reads_them() {
    let max = usize::MAX.to_string();
    let over = format!("{}0", max);
    let samples = [
        "0", "1", "12", "007", "+5", "+0", "+", "", "-", "-1", " 1", "1 ", "1_0", "a", "1a", "++1",
        "١", "4294967295", "4294967296", "18446744073709551615", "18446744073709551616",
        "99999999999999999999999", max.as_str(), over.as_str(),
    ];
    for s in samples {
        assert_eq!(parse_number(s), s.parse::<usize>().ok(), "for {:?}", s);
    }
}

#[test]
fn a_number_has_its_decimal_value() {
    assert_eq!(parse_number("12"), Some(12));
    assert_eq!(parse_number("+305"), Some(305));
    assert_eq!(parse_number("x"), None);
}

#[test]
fn titles_are_joined_by_the_separator() {
    let titles = ColumnsTitles::from("a,b", " ").unwrap();
    assert_eq!(titles.title_line, "a b");
    assert_eq!(titles.named_columns, 2);
    let titles = ColumnsTitles::from(",,name,,size,", "::").unwrap();
    assert_eq!(titles.title_line, "name::size");
    assert_eq!(titles.named_columns, 2);
}

#[test]
fn an_empty_list_of_titles_names_one_empty_column() {
    let titles = ColumnsTitles::from("", " ").unwrap();
    assert_eq!(titles.title_line, "");
    assert_eq!(titles.named_columns, 1);
}

#[test]
fn titles_from_items_take_the_names_as_given() {
    let names = vec![String::from("x"), String::new(), String::from("z")];
    let titles = ColumnsTitles::from_items(&names, ",");
    assert_eq!(titles.title_line, "x,,z");
    assert_eq!(titles.named_columns, 3);
    let titles = ColumnsTitles::from_items(&Vec::new(), ",");
    assert_eq!(titles.title_line, "");
    assert_eq!(titles.named_columns, 0);
}

#[test]
fn hiding_index_zero_fails() {
    match ColumnsHide::from(Some("0")) {
        Err(Error::UnknownColumnIndex(token)) => assert_eq!(token, "0"),
        _ => panic!("index 0 was accepted"),
    }
    match ColumnsHide::from(Some("1,0,x")) {
        Err(Error::UnknownColumnIndex(token)) => assert_eq!(token, "0"),
        _ => panic!("index 0 was accepted"),
    }
    match ColumnsHide::from(Some("2,+0")) {
        Err(Error::UnknownColumnIndex(token)) => assert_eq!(token, "+0"),
        _ => panic!("index 0 was accepted"),
    }
}

#[test]
fn hiding_a_token_that_is_no_number_fails() {
    match ColumnsHide::from(Some("1,two,0")) {
        Err(Error::UnknownColumnIndex(token)) => assert_eq!(token, "two"),
        _ => panic!("a word was accepted"),
    }
    match ColumnsHide::from(Some("")) {
        Err(Error::UnknownColumnIndex(token)) => assert_eq!(token, ""),
        _ => panic!("an empty token was accepted"),
    }
    match ColumnsHide::from(Some("1, 2")) {
        Err(Error::UnknownColumnIndex(token)) => assert_eq!(token, " 2"),
        _ => panic!("a token with a space was accepted"),
    }
}

#[test]
fn hidden_indices_count_from_one() {
    match ColumnsHide::from(Some(",,1,,3,,")) {
        Ok(ColumnsHide::Indices(indices)) => {
            assert_eq!(indices, HashSet::from([0, 2]));
        }
        _ => panic!("the list was refused"),
    }
    match ColumnsHide::from(Some("2,2,+2")) {
        Ok(ColumnsHide::Indices(indices)) => {
            assert_eq!(indices, HashSet::from([1]));
        }
        _ => panic!("the list was refused"),
    }
}

#[test]
fn a_dash_hides_the_unnamed_columns() {
    assert!(matches!(ColumnsHide::from(Some("-")), Ok(ColumnsHide::Unnamed)));
    assert!(matches!(ColumnsHide::from(None), Ok(ColumnsHide::Nothing)));
    assert!(matches!(ColumnsHide::from(Some("--")), Err(Error::UnknownColumnIndex(_))));
}

#[test]
fn hide_from_items_reports_the_first_unknown_token() {
    let tokens = vec![String::from("3"), String::from("a"), String::from("b")];
    match ColumnsHide::from_items(&tokens) {
        Err(Error::UnknownColumnIndex(token)) => assert_eq!(token, "a"),
        _ => panic!("a word was accepted"),
    }
    match ColumnsHide::from_items(&Vec::new()) {
        Ok(ColumnsHide::Indices(indices)) => assert!(indices.is_empty()),
        _ => panic!("no tokens were refused"),
    }
}

#[test]
fn columns_are_hidden_as_asked() {
    let by_index = ColumnsHide::Indices(HashSet::from([0, 2]));
    assert!(by_index.is_hidden(0, None));
    assert!(!by_index.is_hidden(1, Some(1)));
    assert!(by_index.is_hidden(2, Some(5)));
    assert!(!by_index.is_hidden(3, None));
    assert!(!ColumnsHide::Unnamed.is_hidden(0, Some(2)));
    assert!(!ColumnsHide::Unnamed.is_hidden(1, Some(2)));
    assert!(ColumnsHide::Unnamed.is_hidden(2, Some(2)));
    assert!(ColumnsHide::Unnamed.is_hidden(0, None));
    assert!(!ColumnsHide::Nothing.is_hidden(0, None));
    assert!(!ColumnsHide::Nothing.is_hidden(7, Some(0)));
}

#[test]
fn errors_have_a_message_and_a_status() {
    let error = Error::UnknownColumnIndex(String::from("x1"));
    assert_eq!(error.message(), "ERROR: Unknown column index (x1)");
    assert_eq!(error.exit_code(), 1);
    assert_eq!(Error::ListPattern.exit_code(), 1);
    assert!(!Error::ListPattern.message().is_empty());
}

#[test]
fn a_list_with_an_item_has_no_empty_item() {
    for raw in ["a", ",a", "a,", ",,1,,3,,", "a,,,b,c,,", ",,,x", "1,2,3", " ,a", "é,,日本,"] {
        let found = items(raw);
        let expected: Vec<&str> = raw.split(',').filter(|item| !item.is_empty()).collect();
        assert_eq!(found, expected, "{:?}", raw);
        for item in found {
            assert!(!item.is_empty());
            assert!(!item.contains(','));
        }
    }
}
