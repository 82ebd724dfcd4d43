use typedb_console::command::{get_word, read_word};
use typedb_console::query::empty_line_after_in;
use typedb_console::statement::{empty_line_in, find_empty_line, index_after_empty_line};
use typedb_console::text::{
    chars_of, first_non_whitespace, first_whitespace, is_blank_text, is_whitespace_char, string_of,
    trimmed_end, trimmed_string,
};

fn chars(text: &str) -> Vec<char> {
    text.chars().collect()
}

#[test]
fn whitespace_is_the_unicode_property() {
    for c in ['\t', '\n', '\u{b}', '\u{c}', '\r', ' ', '\u{85}', '\u{a0}', '\u{1680}', '\u{2000}',
        '\u{200a}', '\u{2028}', '\u{2029}', '\u{202f}', '\u{205f}', '\u{3000}']
    {
        assert!(is_whitespace_char(c), "{:?}", c);
    }
    for c in ['a', '0', ';', '\u{8}', '\u{e}', '\u{200b}', '\u{feff}', '\u{1681}'] {
        assert!(!is_whitespace_char(c), "{:?}", c);
    }
}

#[test]
fn whitespace_agrees_with_std_on_every_character() {
    let mut code = 0u32;
    while code <= 0x10ffff {
        if let Some(c) = char::from_u32(code) {
            assert_eq!(is_whitespace_char(c), c.is_whitespace(), "U+{:04X}", code);
        }
        code += 1;
    }
}

#[test]
fn chars_and_strings_convert_back_and_forth() {
    assert_eq!(chars_of("aé\n"), vec!['a', 'é', '\n']);
    assert_eq!(string_of(&['a', 'é', '\n']), "aé\n");
    assert_eq!(chars_of(""), Vec::<char>::new());
}

#[test]
fn scanning_stops_at_the_right_character() {
    let text = chars("  \tab c ");
    assert_eq!(first_non_whitespace(&text, 0), 3);
    assert_eq!(first_non_whitespace(&text, 3), 3);
    assert_eq!(first_whitespace(&text, 3), 5);
    assert_eq!(first_non_whitespace(&text, 7), 8);
    assert_eq!(first_whitespace(&text, 6), 7);
    assert_eq!(trimmed_end(&text), 7);
    assert_eq!(trimmed_end(&chars(" \n ")), 0);
}

#[test]
fn trimming_removes_both_ends() {
    assert_eq!(trimmed_string(&chars("  a b \n")), "a b");
    assert_eq!(trimmed_string(&chars(" \n ")), "");
    assert_eq!(trimmed_string(&chars("")), "");
    assert!(is_blank_text(&chars(" \n\t")));
    assert!(is_blank_text(&chars("")));
    assert!(!is_blank_text(&chars(" x ")));
}

#[test]
fn a_word_ends_at_the_next_whitespace() {
    assert_eq!(get_word("foo bar", false), Some(3));
    assert_eq!(get_word("  foo\nbar", false), Some(5));
    assert_eq!(get_word("foo", true), Some(3));
    assert_eq!(get_word("   ", false), None);
    assert_eq!(get_word("", false), None);
    assert_eq!(read_word(&chars(" é x")), Some(2));
}

#[test]
fn an_empty_line_needs_two_newlines() {
    assert_eq!(find_empty_line("a\n\nb"), Some(3));
    assert_eq!(find_empty_line("a\n  \t\nb"), Some(6));
    assert_eq!(find_empty_line("a\nb\n\nc\n\n"), Some(5));
    assert_eq!(find_empty_line("\n\n"), Some(2));
    assert_eq!(find_empty_line("a\nb\nc"), None);
    assert_eq!(find_empty_line("a\n"), None);
    assert_eq!(find_empty_line("  \nfoo"), None);
    assert_eq!(find_empty_line(""), None);
    assert_eq!(empty_line_in(&chars("x\n\n\n")), Some(3));
}

#[test]
fn a_blank_line_before_the_start_does_not_count() {
    let text = chars("a\n\nb\nc\n \nd");
    assert_eq!(empty_line_after_in(&text, 0), Some(3));
    assert_eq!(empty_line_after_in(&text, 1), Some(3));
    assert_eq!(empty_line_after_in(&text, 2), Some(9));
    assert_eq!(empty_line_after_in(&text, 3), Some(9));
    assert_eq!(empty_line_after_in(&text, 9), None);
    assert_eq!(empty_line_after_in(&text, text.len()), None);
}

#[test]
fn a_coerced_search_takes_everything() {
    let text = chars("a\n\nb");
    assert_eq!(index_after_empty_line(&text, false), Some(3));
    assert_eq!(index_after_empty_line(&text, true), Some(4));
    assert_eq!(index_after_empty_line(&chars("a\nb"), false), None);
    assert_eq!(index_after_empty_line(&chars(""), true), Some(0));
}
