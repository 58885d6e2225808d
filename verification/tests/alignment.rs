use xcol::alignment::Alignment;

fn cell(mode: Alignment, text: &str, separator: &str, pad: usize) -> String {
    let mut out = String::new();
    mode.write_cell(&mut out, text, separator, pad);
    out
}

#[test]
fn identifiers_select_their_modes() {
    for c in ['l', 'L', '<'] {
        assert_eq!(Alignment::from(c), Alignment::Left);
    }
    for c in ['r', 'R', '>'] {
        assert_eq!(Alignment::from(c), Alignment::Right);
    }
    for c in ['c', 'C', '^'] {
        assert_eq!(Alignment::from(c), Alignment::Center);
    }
}

#[test]
fn only_the_nine_identifiers_are_valid() {
    assert!(Alignment::is_valid("lL<rR>cC^"));
    assert!(Alignment::is_valid(""));
    assert!(!Alignment::is_valid("lx"));
    assert!(!Alignment::is_valid(" "));
    assert!(Alignment::is_identifier('^'));
    assert!(!Alignment::is_identifier('m'));
}

#[test]
fn the_listed_identifiers_are_the_valid_ones() {
    let mut code: u32 = 0;
    while code <= 0x10FFFF {
        if let Some(c) = char::from_u32(code) {
            assert_eq!(Alignment::is_identifier(c), Alignment::IDENTIFIERS.contains(&c));
        }
        code += 1;
    }
}

#[test]
fn left_pads_after_the_cell() {
    assert_eq!(cell(Alignment::Left, "ab", "|", 3), "ab   |");
}

#[test]
fn right_pads_before_the_cell() {
    assert_eq!(cell(Alignment::Right, "ab", "|", 3), "   ab|");
}

#[test]
fn center_splits_even_padding_in_halves() {
    assert_eq!(cell(Alignment::Center, "ab", "|", 4), "  ab  |");
}

#[test]
fn center_puts_the_odd_space_on_the_right() {
    assert_eq!(cell(Alignment::Center, "x", "", 5), "  x   ");
    assert_eq!(cell(Alignment::Center, "x", "", 1), "x ");
}

#[test]
fn no_padding_leaves_the_cell_as_it_is() {
    for mode in [Alignment::Left, Alignment::Right, Alignment::Center] {
        assert_eq!(cell(mode, "abc", ", ", 0), "abc, ");
    }
}

#[test]
fn write_cell_appends_to_what_is_there() {
    let mut out = String::from("a ");
    Alignment::Right.write_cell(&mut out, "b", "", 2);
    assert_eq!(out, "a   b");
}
