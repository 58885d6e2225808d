use xcol::split::{split, split_lines};
use xcol::text::{char_is_whitespace, chars_of, is_all_whitespace, join, string_of};

#[test]
fn cells_stand_between_separators() {
    assert_eq!(split("a b c", " "), vec!["a", "b", "c"]);
    assert_eq!(split("a  b", " "), vec!["a", "", "b"]);
    assert_eq!(split(" c ", " "), vec!["", "c", ""]);
    assert_eq!(split("", " "), vec![""]);
    assert_eq!(split("abc", ","), vec!["abc"]);
}

#[test]
fn a_separator_of_several_characters_is_matched_as_a_whole() {
    assert_eq!(split("a, b,c, d", ", "), vec!["a", "b,c", "d"]);
    assert_eq!(split("aaa", "aa"), vec!["", "a"]);
    assert_eq!(split("aaaa", "aa"), vec!["", "", ""]);
    assert_eq!(split("ab", "abc"), vec!["ab"]);
}

#[test]
fn splitting_agrees_with_the_standard_library() {
    let lines = ["", "a", "a b", " a  b ", "a,b;c", "aXXbXXXc", "ééé", "日本 語", "\t\tx", "abab"];
    let separators = ["", " ", ",", "XX", "ab", "é", "  ", "\t", "語"];
    for line in lines {
        for separator in separators {
            let expected: Vec<&str> = line.split(separator).collect();
            assert_eq!(split(line, separator), expected, "{:?} by {:?}", line, separator);
        }
    }
}

#[test]
fn an_empty_separator_parts_every_character() {
    assert_eq!(split("abc", ""), vec!["", "a", "b", "c", ""]);
    assert_eq!(split("", ""), vec!["", ""]);
}

#[test]
fn lines_end_at_line_feeds() {
    assert_eq!(split_lines("a b\n\n c \n"), vec!["a b", "", " c "]);
    assert_eq!(split_lines("a\nb"), vec!["a", "b"]);
    assert_eq!(split_lines(""), Vec::<String>::new());
    assert_eq!(split_lines("\n"), vec![""]);
    assert_eq!(split_lines("\n\n"), vec!["", ""]);
}

#[test]
fn a_carriage_return_before_a_line_feed_belongs_to_the_line_ending() {
    assert_eq!(split_lines("a\r\nb\r\n"), vec!["a", "b"]);
    assert_eq!(split_lines("a\rb\n"), vec!["a\rb"]);
    assert_eq!(split_lines("a\r\r\nb"), vec!["a\r", "b"]);
    assert_eq!(split_lines("\r\n"), vec![""]);
}

#[test]
fn lines_agree_with_the_standard_library() {
    let texts = [
        "", "a", "a\n", "\na", "a\r\nb", "a\n\r\nb\n\n", "\r", "a\r", "\r\n\r\n", "x\ny\nz",
        "é\n日本\r\n", "\n\n\n", "a\n\rb",
    ];
    for text in texts {
        let expected: Vec<&str> = text.lines().collect();
        assert_eq!(split_lines(text), expected, "{:?}", text);
    }
}

#[test]
fn white_space_is_what_the_standard_library_calls_so() {
    let mut code: u32 = 0;
    while code <= 0x10FFFF {
        if let Some(c) = char::from_u32(code) {
            assert_eq!(char_is_whitespace(c), c.is_whitespace(), "U+{:04X}", code);
        }
        code += 1;
    }
}

#[test]
fn a_text_of_white_space_only_is_recognised() {
    assert!(is_all_whitespace(""));
    assert!(is_all_whitespace(" \t\u{3000}"));
    assert!(!is_all_whitespace(" c "));
    assert!(!is_all_whitespace("\u{200B}"));
}

#[test]
fn characters_and_strings_convert_both_ways() {
    let chars = chars_of("aé日😀");
    assert_eq!(chars, vec!['a', 'é', '日', '😀']);
    assert_eq!(string_of(&chars, 1, 3), "é日");
    assert_eq!(string_of(&chars, 2, 2), "");
    assert_eq!(string_of(&chars, 0, 4), "aé日😀");
}

#[test]
fn joining_sets_the_separator_between_items() {
    let items = vec![String::from("a"), String::new(), String::from("c")];
    assert_eq!(join(&items, ", "), "a, , c");
    assert_eq!(join(&items[..1].to_vec(), ", "), "a");
    assert_eq!(join(&Vec::new(), ", "), "");
}

#[test]
fn joining_the_cells_of_a_line_gives_the_line_back() {
    for line in ["", "a b", " a  b ", "x"] {
        for separator in [" ", "  ", ""] {
            assert_eq!(join(&split(line, separator), separator), line);
        }
    }
}
