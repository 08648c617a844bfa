use domake::text::{chars_of, copy_range, printable, same_text, scan_run, separator_at, trim, trim_range, whitespace};

#[test]
fn printable_is_space_to_tilde() {
    for code in 0..=0x10ffffu32 {
        if let Some(c) = char::from_u32(code) {
            assert_eq!(printable(c), (0x20..=0x7e).contains(&code), "{:?}", c);
        }
    }
    assert!(printable(' '));
    assert!(printable('~'));
    assert!(!printable('\t'));
    assert!(!printable('\n'));
    assert!(!printable('\u{7f}'));
}

#[test]
fn whitespace_is_what_std_calls_whitespace() {
    for code in 0..=0x10ffffu32 {
        if let Some(c) = char::from_u32(code) {
            assert_eq!(whitespace(c), c.is_whitespace(), "{:?}", c);
        }
    }
}

#[test]
fn trim_is_what_std_trims() {
    let cores = ["", "a", "a b", "a \t b", "\u{e9}t\u{e9}", "x\u{a0}y"];
    let edges = ["", " ", "  ", "\t", "\n", "\r\n", "\u{a0}", "\u{3000} ", "\u{200b}", "\u{1680}\u{2028}"];
    for core in cores {
        for left in edges {
            for right in edges {
                let text = format!("{}{}{}", left, core, right);
                assert_eq!(trim(&text), text.trim(), "{:?}", text);
            }
        }
    }
}

#[test]
fn trim_of_blanks_is_empty() {
    assert_eq!(trim(""), "");
    assert_eq!(trim("   "), "");
    assert_eq!(trim(" \t\r\n"), "");
    assert_eq!(trim("  a  b  "), "a  b");
}

#[test]
fn trim_range_stays_inside_its_bounds() {
    let chars = chars_of("  ab  cd  ");
    assert_eq!(trim_range(&chars, 0, 10), (2, 8));
    assert_eq!(trim_range(&chars, 3, 7), (3, 7));
    assert_eq!(trim_range(&chars, 4, 6), (6, 6));
    assert_eq!(trim_range(&chars, 4, 9), (6, 8));
    assert_eq!(trim_range(&chars, 5, 5), (5, 5));
}

#[test]
fn chars_are_counted_not_bytes() {
    let chars = chars_of("a\u{e9}\u{1f600}b");
    assert_eq!(chars, vec!['a', '\u{e9}', '\u{1f600}', 'b']);
    assert_eq!(copy_range("a\u{e9}\u{1f600}b", 1, 3), "\u{e9}\u{1f600}");
    assert_eq!(copy_range("abc", 0, 0), "");
    assert_eq!(copy_range("abc", 3, 3), "");
    assert_eq!(copy_range("abc", 0, 3), "abc");
}

#[test]
fn run_ends_at_the_first_character_that_is_not_printable() {
    let chars = chars_of("ab c\tde\n");
    assert_eq!(scan_run(&chars, 0), 4);
    assert_eq!(scan_run(&chars, 2), 4);
    assert_eq!(scan_run(&chars, 4), 4);
    assert_eq!(scan_run(&chars, 5), 7);
    assert_eq!(scan_run(&chars, 8), 8);
    let chars = chars_of("abc");
    assert_eq!(scan_run(&chars, 0), 3);
}

#[test]
fn separator_is_line_feed_with_or_without_carriage_return() {
    let chars = chars_of("a\nb\r\nc\rd\n\r");
    assert_eq!(separator_at(&chars, 0), 0);
    assert_eq!(separator_at(&chars, 1), 1);
    assert_eq!(separator_at(&chars, 3), 2);
    assert_eq!(separator_at(&chars, 4), 1);
    assert_eq!(separator_at(&chars, 6), 0);
    assert_eq!(separator_at(&chars, 8), 1);
    assert_eq!(separator_at(&chars, 9), 0);
    assert_eq!(separator_at(&chars, 10), 0);
}

#[test]
fn same_text_compares_character_by_character() {
    assert!(same_text("", ""));
    assert!(same_text("--help", "--help"));
    assert!(!same_text("--help", "--helq"));
    assert!(!same_text("--help", "--hel"));
    assert!(!same_text("-h", "-H"));
}
