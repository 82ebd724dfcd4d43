use typedb_console::query::{
    char_offset_in, deepest_issue_of, line_start_in, next_newline_in, parse_one_query, query_end,
    utf8_width_of, ParseIssue, QueryParse,
};

fn chars(text: &str) -> Vec<char> {
    text.chars().collect()
}

fn parsed(end_offset: usize, explicit_end: bool) -> QueryParse {
    QueryParse::Parsed { end_offset, explicit_end }
}

fn failed(issues: Vec<ParseIssue>) -> QueryParse {
    QueryParse::Failed { issues }
}

#[test]
fn widths_are_those_of_utf8() {
    for c in ['a', '\u{7f}', '\u{80}', 'é', '\u{7ff}', '\u{800}', '€', '\u{ffff}', '\u{10000}', '😀'] {
        assert_eq!(utf8_width_of(c), c.len_utf8(), "{:?}", c);
    }
}

#[test]
fn byte_offsets_become_character_counts() {
    let text = chars("aé€😀b");
    assert_eq!(char_offset_in(&text, 0), 0);
    assert_eq!(char_offset_in(&text, 1), 1);
    assert_eq!(char_offset_in(&text, 2), 1);
    assert_eq!(char_offset_in(&text, 3), 2);
    assert_eq!(char_offset_in(&text, 6), 3);
    assert_eq!(char_offset_in(&text, 10), 4);
    assert_eq!(char_offset_in(&text, 11), 5);
    assert_eq!(char_offset_in(&text, 1000), 5);
}

#[test]
fn lines_start_after_newlines() {
    let text = chars("ab\ncd\n\nef");
    assert_eq!(next_newline_in(&text, 0), 2);
    assert_eq!(next_newline_in(&text, 3), 5);
    assert_eq!(next_newline_in(&text, 7), 9);
    assert_eq!(line_start_in(&text, 0), Some(0));
    assert_eq!(line_start_in(&text, 1), Some(3));
    assert_eq!(line_start_in(&text, 2), Some(6));
    assert_eq!(line_start_in(&text, 3), Some(7));
    assert_eq!(line_start_in(&text, 4), None);
}

#[test]
fn the_deepest_syntax_error_wins() {
    assert_eq!(deepest_issue_of(&[]), 0);
    assert_eq!(deepest_issue_of(&[ParseIssue::Other]), 0);
    assert_eq!(deepest_issue_of(&[ParseIssue::Syntax { line_nr: 1 }]), 0);
    assert_eq!(deepest_issue_of(&[ParseIssue::Syntax { line_nr: 0 }]), 0);
    assert_eq!(
        deepest_issue_of(&[
            ParseIssue::Syntax { line_nr: 3 },
            ParseIssue::Other,
            ParseIssue::Syntax { line_nr: 5 },
            ParseIssue::Syntax { line_nr: 2 },
        ]),
        4
    );
}

#[test]
fn an_explicit_end_is_the_boundary() {
    let text = chars("match $x isa person; end;  \nmatch $y isa dog;");
    assert_eq!(query_end(&text, &parsed(28, true)), Some(25));
    assert_eq!(query_end(&text, &parsed(25, true)), Some(25));
}

#[test]
fn an_explicit_end_stays_when_the_buffer_grows() {
    let short = "insert $x isa person; end;\n";
    let long = "insert $x isa person; end;\nmatch $y isa dog;\n\n";
    let verdict = parsed(short.len(), true);
    assert_eq!(query_end(&chars(short), &verdict), Some(26));
    assert_eq!(query_end(&chars(long), &verdict), Some(26));
}

#[test]
fn without_an_end_marker_the_next_blank_line_is_the_boundary() {
    let text = chars("match $x isa person;\nlimit 1;\n\nmatch $y isa dog;\n\n");
    assert_eq!(query_end(&text, &parsed(29, false)), Some(31));
    assert_eq!(query_end(&text, &parsed(20, false)), Some(31));
    let open = chars("match $x isa person;\nlimit 1;\n");
    assert_eq!(query_end(&open, &parsed(29, false)), None);
}

#[test]
fn a_blank_line_inside_the_parsed_part_does_not_count() {
    let text = chars("match\n\n$x isa person;\n\n");
    assert_eq!(query_end(&text, &parsed(21, false)), Some(23));
}

#[test]
fn byte_offsets_of_the_parser_are_converted() {
    let text = chars("match $x has name \"é€\";\n\nnext");
    let bytes = "match $x has name \"é€\";".len();
    assert_eq!(bytes, 26);
    assert_eq!(query_end(&text, &parsed(bytes, true)), Some(23));
    assert_eq!(query_end(&text, &parsed(bytes, false)), Some(25));
}

#[test]
fn after_a_failed_parse_the_search_starts_at_the_deepest_error() {
    let text = chars("match\n\n$x isa;\nfoo\n\nbar\n\n");
    let first_line = failed(vec![ParseIssue::Syntax { line_nr: 1 }]);
    assert_eq!(query_end(&text, &first_line), Some(7));
    let second_line = failed(vec![ParseIssue::Syntax { line_nr: 2 }]);
    assert_eq!(query_end(&text, &second_line), Some(20));
    let third_line = failed(vec![ParseIssue::Syntax { line_nr: 3 }]);
    assert_eq!(query_end(&text, &third_line), Some(20));
    let unlocated = failed(vec![ParseIssue::Other]);
    assert_eq!(query_end(&text, &unlocated), Some(7));
    let sixth_line = failed(vec![ParseIssue::Syntax { line_nr: 6 }]);
    assert_eq!(query_end(&text, &sixth_line), Some(25));
    let last = failed(vec![ParseIssue::Syntax { line_nr: 7 }]);
    assert_eq!(query_end(&text, &last), None);
}

#[test]
fn an_error_line_outside_the_buffer_falls_back_to_the_start() {
    let text = chars("match\n\n$x isa;\n");
    let beyond_lines = failed(vec![ParseIssue::Syntax { line_nr: 9 }]);
    assert_eq!(query_end(&text, &beyond_lines), Some(7));
}

#[test]
fn a_blank_buffer_holds_no_statement() {
    assert_eq!(query_end(&chars("\n\n"), &failed(vec![])), None);
    assert_eq!(query_end(&chars(" \n \n"), &parsed(0, false)), None);
    assert_eq!(query_end(&chars(""), &parsed(0, true)), None);
    assert_eq!(parse_one_query("\n\n\n", false), None);
    assert_eq!(parse_one_query("", false), None);
}

#[test]
fn a_coerced_query_is_the_whole_input() {
    assert_eq!(parse_one_query("match $x isa person;", true), Some(20));
    assert_eq!(parse_one_query("not a query at all é", true), Some(20));
    assert_eq!(parse_one_query("", true), Some(0));
}

#[test]
fn the_grammar_is_asked_for_real() {
    assert_eq!(parse_one_query("define entity person;\n\nmatch $y isa dog;\n\n", false), Some(23));
    assert_eq!(parse_one_query("match $x isa person;\n\nmatch $y isa dog;\n\n", false), Some(41));
    assert_eq!(parse_one_query("match $x isa person;\n", false), None);
    assert_eq!(parse_one_query("match $x isa person; end;\nmatch $y isa dog;", false), Some(25));
    assert_eq!(parse_one_query("match\n$x isa person;\nlimit 1;\n\n", false), Some(31));
}

#[test]
fn a_syntax_error_does_not_hide_the_blank_line() {
    assert_eq!(parse_one_query("match $x isa;;\n\nmatch $y isa dog;\n\n", false), Some(16));
    assert_eq!(parse_one_query("this is not a query\n", false), None);
    assert_eq!(parse_one_query("this is not a query\n\n", false), Some(21));
}

#[test]
fn the_detector_cuts_a_buffer_into_its_statements() {
    let statements = ["define entity a;", "define\n  entity b;", "match $x isa a;"];
    let mut buffer = String::new();
    for statement in statements {
        buffer.push_str(statement);
        buffer.push_str("\n\n");
    }
    let mut emitted = Vec::new();
    let mut offset = 0;
    for _ in 0..statements.len() {
        let taken = parse_one_query(&buffer[offset..], false).unwrap();
        emitted.push(buffer[offset..offset + taken].trim().to_string());
        offset += taken;
    }
    assert_eq!(emitted, statements);
    assert_eq!(offset, buffer.len());
    assert_eq!(parse_one_query(&buffer[offset..], false), None);
}
