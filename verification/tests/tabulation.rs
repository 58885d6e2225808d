use xcol::alignment::Alignment;
use xcol::alignment::Alignment::{Center, Left, Right};
use xcol::columns::ColumnsHide;
use xcol::error::Error;
use xcol::output::{assemble, text_contains};
use xcol::render::{assign, render_row};
use xcol::rows::{plan, remove_blank_lines};
use xcol::table::{render, run, tabulate, Config};
use xcol::width::{line_is_blank, measure};
use xcol::widths::{aggregate, count_columns};

fn config() -> Config {
    Config {
        separator: String::from(" "),
        output_separator: String::from(" "),
        alignment: String::from("l"),
        keep_blank_lines: false,
        columns_titles: None,
        columns_hide: None,
    }
}

fn strings(items: &[&str]) -> Vec<String> {
    items.iter().map(|item| item.to_string()).collect()
}

#[test]
fn escape_sequences_have_no_width() {
    assert_eq!(measure("abc"), 3);
    assert_eq!(measure(""), 0);
    assert_eq!(measure("\x1B[31mred\x1B[0m"), 3);
    assert_eq!(measure("\x1B[0m"), 0);
}

#[test]
fn wide_characters_take_two_columns() {
    assert_eq!(measure("日本"), 4);
    assert_eq!(measure("é"), 1);
    assert_eq!(measure("e\u{301}"), 1);
}

#[test]
fn a_line_of_white_space_and_escapes_is_blank() {
    assert!(line_is_blank(""));
    assert!(line_is_blank("  \t"));
    assert!(line_is_blank("\x1B[31m \x1B[0m"));
    assert!(!line_is_blank(" c "));
    assert!(!line_is_blank("\x1B[31mx\x1B[0m"));
}

#[test]
fn blank_lines_are_removed_everywhere() {
    let lines = strings(&["", "a b", "", "  ", " c ", "\x1B[0m", ""]);
    assert_eq!(remove_blank_lines(lines, false), vec!["a b", " c "]);
    assert_eq!(remove_blank_lines(Vec::new(), false), Vec::<String>::new());
}

#[test]
fn kept_blank_lines_lose_only_a_blank_last_line() {
    let lines = strings(&["", "a b", "", "c d", " "]);
    assert_eq!(remove_blank_lines(lines, true), vec!["", "a b", "", "c d"]);
    let lines = strings(&["a", "", ""]);
    assert_eq!(remove_blank_lines(lines, true), vec!["a", ""]);
    let lines = strings(&["a", "", "b"]);
    assert_eq!(remove_blank_lines(lines, true), vec!["a", "", "b"]);
    assert_eq!(remove_blank_lines(Vec::new(), true), Vec::<String>::new());
}

#[test]
fn a_plan_leaves_out_the_hidden_columns() {
    let hide = ColumnsHide::from(Some("1,3")).unwrap();
    assert_eq!(plan("a b c d", " ", &hide, None), vec!["b", "d"]);
    assert_eq!(plan("a", " ", &hide, None), Vec::<String>::new());
    assert_eq!(plan("a b c", " ", &ColumnsHide::Nothing, None), vec!["a", "b", "c"]);
    assert_eq!(plan("a b c", " ", &ColumnsHide::Unnamed, Some(2)), vec!["a", "b"]);
    assert_eq!(plan("a b c", " ", &ColumnsHide::Unnamed, None), Vec::<String>::new());
    assert_eq!(plan("a, b", ", ", &ColumnsHide::Nothing, None), vec!["a", "b"]);
}

#[test]
fn the_widest_cell_gives_the_width_of_its_column() {
    let rows = vec![strings(&["a", "bbb"]), strings(&["cc"]), strings(&["", "d", "日本"])];
    assert_eq!(count_columns(&rows), 3);
    let (cell_widths, column_widths) = aggregate(&rows, 3);
    assert_eq!(cell_widths, vec![vec![1, 3], vec![2], vec![0, 1, 4]]);
    assert_eq!(column_widths, vec![2, 3, 4]);
    let (_, column_widths) = aggregate(&rows, 5);
    assert_eq!(column_widths, vec![2, 3, 4, 0, 0]);
    assert_eq!(count_columns(&Vec::new()), 0);
    assert_eq!(count_columns(&vec![Vec::new()]), 0);
}

#[test]
fn the_last_mode_repeats() {
    assert_eq!(assign("lc", 4), vec![Left, Center, Center, Center]);
    assert_eq!(assign("r", 3), vec![Right, Right, Right]);
    assert_eq!(assign("", 2), vec![Left, Left]);
    assert_eq!(assign("lcr", 2), vec![Left, Center]);
    assert_eq!(assign("<^>", 5), vec![Left, Center, Right, Right, Right]);
    assert_eq!(assign("c", 0), Vec::<Alignment>::new());
}

#[test]
fn a_row_is_padded_cell_by_cell() {
    let cells = strings(&["a", "b", "c"]);
    let line = render_row(&cells, &vec![1, 1, 1], &vec![3, 4, 2], &vec![Left, Center, Right], "|");
    assert_eq!(line, "a  | b  | c");
    let line = render_row(&strings(&["a"]), &vec![1], &vec![3, 4], &vec![Left, Left], "|");
    assert_eq!(line, "a  ");
    let line = render_row(&Vec::new(), &Vec::new(), &vec![3], &vec![Left], "|");
    assert_eq!(line, "");
}

#[test]
fn rows_are_rendered_to_the_width_of_their_columns() {
    let rows = vec![strings(&["a", "b"]), strings(&["ccc", "d"])];
    assert_eq!(render(&rows, "l", " "), vec!["a   b", "ccc d"]);
    assert_eq!(render(&rows, "r", " "), vec!["  a b", "ccc d"]);
    assert_eq!(render(&rows, "c", "|"), vec![" a |b", "ccc|d"]);
    assert_eq!(render(&vec![Vec::new(), Vec::new()], "l", " "), Vec::<String>::new());
    assert_eq!(render(&Vec::new(), "l", " "), Vec::<String>::new());
}

#[test]
fn columns_line_up() {
    assert_eq!(tabulate("a b\nccc d\n", &config()).unwrap(), vec!["a   b", "ccc d"]);
}

#[test]
fn blank_lines_are_removed_unless_kept() {
    assert_eq!(tabulate("a b\n\n c \n", &config()).unwrap(), vec!["a b", "  c "]);
}

#[test]
fn kept_blank_lines_are_rows_of_one_empty_cell() {
    let mut config = config();
    config.keep_blank_lines = true;
    assert_eq!(tabulate("a b\n\nc d\n", &config).unwrap(), vec!["a b", " ", "c d"]);
    assert_eq!(tabulate("a b\n\nc d\n\n", &config).unwrap(), vec!["a b", " ", "c d"]);
    assert_eq!(tabulate("a b\n\n\n", &config).unwrap(), vec!["a b", " "]);
}

#[test]
fn a_text_without_rows_gives_nothing() {
    assert_eq!(tabulate("", &config()).unwrap(), Vec::<String>::new());
    assert_eq!(tabulate("\n  \n\n", &config()).unwrap(), Vec::<String>::new());
    let mut config = config();
    config.keep_blank_lines = true;
    assert_eq!(tabulate("\n", &config).unwrap(), Vec::<String>::new());
    config.columns_titles = Some(String::from("a"));
    config.columns_hide = Some(String::from("0"));
    assert_eq!(tabulate("", &config).unwrap(), Vec::<String>::new());
}

#[test]
fn there_is_one_line_for_each_row_and_one_for_the_titles() {
    let mut config = config();
    let text = "1 2\n\n3 4\n5\n";
    assert_eq!(tabulate(text, &config).unwrap().len(), 3);
    config.keep_blank_lines = true;
    assert_eq!(tabulate(text, &config).unwrap().len(), 4);
    config.columns_titles = Some(String::from("x,y"));
    assert_eq!(tabulate(text, &config).unwrap().len(), 5);
}

#[test]
fn titles_are_the_first_row() {
    let mut config = config();
    config.columns_titles = Some(String::from("x,long"));
    assert_eq!(
        tabulate("1 2\n333 4", &config).unwrap(),
        vec!["x   long", "1   2   ", "333 4   "]
    );
}

#[test]
fn hidden_columns_are_not_shown() {
    let mut config = config();
    config.columns_hide = Some(String::from("1"));
    assert_eq!(tabulate("a b c\nd e f", &config).unwrap(), vec!["b c", "e f"]);
    config.columns_hide = Some(String::from(",3,,1,"));
    assert_eq!(tabulate("a b c\nd e f", &config).unwrap(), vec!["b", "e"]);
}

#[test]
fn unnamed_columns_are_hidden_on_request() {
    let mut config = config();
    config.columns_hide = Some(String::from("-"));
    assert_eq!(tabulate("a b c\nd e f", &config).unwrap(), Vec::<String>::new());
    config.columns_titles = Some(String::from("x"));
    assert_eq!(tabulate("a b c\nd e f", &config).unwrap(), vec!["x", "a", "d"]);
}

#[test]
fn hiding_column_zero_is_an_error() {
    let mut config = config();
    config.columns_hide = Some(String::from("0"));
    match tabulate("a b", &config) {
        Err(Error::UnknownColumnIndex(token)) => assert_eq!(token, "0"),
        _ => panic!("index 0 was accepted"),
    }
    config.columns_titles = Some(String::from("x,y"));
    config.keep_blank_lines = true;
    config.alignment = String::from("rc");
    config.columns_hide = Some(String::from("2,0"));
    match tabulate("a b", &config) {
        Err(Error::UnknownColumnIndex(token)) => assert_eq!(token, "0"),
        _ => panic!("index 0 was accepted"),
    }
}

#[test]
fn rows_may_differ_in_length() {
    assert_eq!(tabulate("a b c\nd", &config()).unwrap(), vec!["a b c", "d"]);
    assert_eq!(tabulate("a\nbbb c", &config()).unwrap(), vec!["a  ", "bbb c"]);
}

#[test]
fn each_column_has_its_alignment() {
    let mut config = config();
    config.alignment = String::from("c");
    assert_eq!(tabulate("a\nbbbb", &config).unwrap(), vec![" a  ", "bbbb"]);
    config.alignment = String::from("lrc");
    assert_eq!(
        tabulate("a b c d\naaa bbb cccc dddd", &config).unwrap(),
        vec!["a     b  c    d  ", "aaa bbb cccc dddd"]
    );
}

#[test]
fn escapes_and_wide_characters_are_measured_as_displayed() {
    assert_eq!(
        tabulate("\x1B[31mred\x1B[0m x\nlonger y", &config()).unwrap(),
        vec!["\x1B[31mred\x1B[0m    x", "longer y"]
    );
    assert_eq!(tabulate("日本 a\nab b", &config()).unwrap(), vec!["日本 a", "ab   b"]);
}

#[test]
fn separators_are_taken_literally() {
    let mut config = config();
    config.separator = String::from(", ");
    config.output_separator = String::from(" | ");
    assert_eq!(tabulate("a, b,c\nddd, e", &config).unwrap(), vec!["a   | b,c", "ddd | e  "]);
    config.separator = String::from(".");
    assert_eq!(tabulate("a.b\nc*d", &config).unwrap(), vec!["a   | b", "c*d"]);
}

#[test]
fn tabulating_the_output_again_changes_nothing() {
    let mut config = config();
    config.separator = String::from("|");
    config.output_separator = String::from("|");
    config.alignment = String::from("lcr");
    let first = tabulate("a|bb|c\nddd|e|ff\ng|hhhh", &config).unwrap();
    assert_eq!(first, vec!["a  | bb | c", "ddd| e  |ff", "g  |hhhh"]);
    let second = tabulate(&first.join("\n"), &config).unwrap();
    assert_eq!(second, first);
}

#[test]
fn the_output_ends_with_a_reset_and_a_line_break() {
    let lines = strings(&["a b", "c d"]);
    assert_eq!(assemble(&lines, None), "a b\nc d\x1B[0m\n");
    assert_eq!(assemble(&lines, Some("vt100")), "a b\nc d\x1B[0m\n");
    assert_eq!(
        assemble(&lines, Some("xterm-256color")),
        "a b\nc d\x1B[0m\x1B[?9l\x1B[?1000l\x1B[?1001l\x1B[?1002l\x1B[?1003l\n"
    );
    assert_eq!(
        assemble(&strings(&["x"]), Some("my-xterm")),
        "x\x1B[0m\x1B[?9l\x1B[?1000l\x1B[?1001l\x1B[?1002l\x1B[?1003l\n"
    );
}

#[test]
fn a_part_is_found_wherever_it_stands() {
    assert!(text_contains("xterm", "xterm"));
    assert!(text_contains("an xterm here", "xterm"));
    assert!(text_contains("abc", ""));
    assert!(text_contains("", ""));
    assert!(!text_contains("xter", "xterm"));
    assert!(!text_contains("", "x"));
    assert!(!text_contains("xxterx", "xterm"));
    assert!(text_contains("xxterm", "xterm"));
}

#[test]
fn a_run_writes_the_lines_and_what_ends_them() {
    let output = run("a b\nccc d\n", &config(), Some("xterm")).unwrap();
    assert_eq!(
        output.unwrap(),
        "a   b\nccc d\x1B[0m\x1B[?9l\x1B[?1000l\x1B[?1001l\x1B[?1002l\x1B[?1003l\n"
    );
    let output = run("a b\nccc d\n", &config(), None).unwrap();
    assert_eq!(output.unwrap(), "a   b\nccc d\x1B[0m\n");
}

#[test]
fn a_run_without_rows_or_columns_writes_nothing() {
    assert_eq!(run("", &config(), Some("xterm")).unwrap(), None);
    assert_eq!(run(" \n\n", &config(), None).unwrap(), None);
    let mut config = config();
    config.columns_hide = Some(String::from("-"));
    assert_eq!(run("a b", &config, None).unwrap(), None);
}

#[test]
fn a_run_stops_at_an_unknown_column_index() {
    let mut config = config();
    config.columns_hide = Some(String::from("1,b"));
    match run("a b", &config, None) {
        Err(Error::UnknownColumnIndex(token)) => assert_eq!(token, "b"),
        _ => panic!("a word was accepted"),
    }
    assert_eq!(run("", &config, None).unwrap(), None);
}

#[test]
fn every_cell_fills_its_column() {
    let mut config = config();
    config.output_separator = String::from("|");
    config.alignment = String::from("lcr");
    let text = "a bbbbbb c\n\x1B[1mdddd\x1B[0m e 日本語\nf gg hhh";
    let lines = tabulate(text, &config).unwrap();
    assert_eq!(lines.len(), 3);
    let widths = [4, 6, 6];
    for line in lines {
        let cells: Vec<&str> = line.split('|').collect();
        assert_eq!(cells.len(), 3);
        for (cell, width) in cells.iter().zip(widths) {
            assert_eq!(measure(cell), width, "{:?}", line);
        }
    }
}

#[test]
fn a_second_run_with_a_longer_separator_writes_the_same_lines() {
    let mut first = config();
    first.separator = String::from("|");
    first.output_separator = String::from(" | ");
    first.alignment = String::from("lcr");
    first.columns_titles = Some(String::from("n,name,id"));
    first.columns_hide = Some(String::from("2"));
    let lines = tabulate("a|-|bb|c\n\nddd|-|e|ff", &first).unwrap();
    assert_eq!(lines, vec!["n   | id", "a   | bb |  c", "ddd | e  | ff"]);

    let mut second = config();
    second.separator = String::from(" | ");
    second.output_separator = String::from(" | ");
    second.alignment = String::from("lcr");
    assert_eq!(tabulate(&lines.join("\n"), &second).unwrap(), lines);
    let text = format!("{}\n", lines.join("\n"));
    assert_eq!(tabulate(&text, &second).unwrap(), lines);
    second.keep_blank_lines = true;
    assert_eq!(tabulate(&text, &second).unwrap(), lines);
}

#[test]
fn a_second_run_finds_the_same_columns() {
    let mut first = config();
    first.output_separator = String::from("::");
    first.alignment = String::from("r");
    let lines = tabulate("1 22 333\n4444 5 6", &first).unwrap();
    assert_eq!(lines, vec!["   1::22::333", "4444:: 5::  6"]);
    let rows: Vec<Vec<String>> = lines.iter().map(|line| xcol::split::split(line, "::")).collect();
    assert_eq!(count_columns(&rows), 3);
    let (cell_widths, column_widths) = aggregate(&rows, 3);
    assert_eq!(column_widths, vec![4, 2, 3]);
    assert_eq!(cell_widths, vec![vec![4, 2, 3], vec![4, 2, 3]]);
    assert_eq!(render(&rows, "r", "::"), lines);
}

#[test]
fn the_title_row_has_a_cell_for_each_title() {
    for (titles, separator) in [("a", "m"), ("a,b", " "), ("x,y,z", "["), ("n,,id", "0"), ("a", "\x1B")] {
        let columns_titles = xcol::columns::ColumnsTitles::from(titles, separator).unwrap();
        let cells = xcol::split::split(&columns_titles.title_line, separator);
        assert_eq!(cells.len(), columns_titles.named_columns, "{:?} by {:?}", titles, separator);
    }
    let mut config = config();
    config.separator = String::from("m");
    config.output_separator = String::from("m");
    config.columns_titles = Some(String::from("a"));
    config.columns_hide = Some(String::from("-"));
    assert_eq!(tabulate("1m2\n3", &config).unwrap(), vec!["a", "1", "3"]);
}
