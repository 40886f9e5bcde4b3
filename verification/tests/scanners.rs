use tap_parser::classes::CharClass;
use tap_parser::{ParseError, Parser};

#[test]
fn new_parser_stands_at_the_start() {
    let p = Parser::new("ab");
    assert!(!p.eof());
    assert_eq!(p.next_char(), 'a');
    assert_eq!(p.plan(), 0);
}

#[test]
fn parser_keeps_the_text_it_was_made_for() {
    let text = String::from("1..1\nok 1 - caf\u{e9}\n");
    let mut p = Parser::new(&text);
    assert_eq!(p.input(), text);
    assert!(p.parse().is_ok());
    assert_eq!(p.input(), text);
}

#[test]
fn parser_of_empty_text_is_at_its_end() {
    let p = Parser::new("");
    assert!(p.eof());
}

#[test]
fn next_char_does_not_move_the_cursor() {
    let p = Parser::new("xy");
    assert_eq!(p.next_char(), 'x');
    assert_eq!(p.next_char(), 'x');
}

#[test]
fn eat_char_moves_the_cursor_by_one_character() {
    let mut p = Parser::new("a\u{e9}\u{1f600}z");
    assert_eq!(p.eat_char(), 'a');
    assert_eq!(p.next_char(), '\u{e9}');
    assert_eq!(p.eat_char(), '\u{e9}');
    assert_eq!(p.eat_char(), '\u{1f600}');
    assert!(!p.eof());
    assert_eq!(p.eat_char(), 'z');
    assert!(p.eof());
}

#[test]
fn eat_while_returns_the_run_and_stops_behind_it() {
    let mut p = Parser::new("aaab");
    let eaten = p.eat_while(|c| c == 'a');
    assert_eq!(eaten, "aaa");
    assert_eq!(p.next_char(), 'b');
}

#[test]
fn eat_while_returns_nothing_where_the_first_character_fails() {
    let mut p = Parser::new("baa");
    let eaten = p.eat_while(|c| c == 'a');
    assert_eq!(eaten, "");
    assert_eq!(p.next_char(), 'b');
}

#[test]
fn eat_while_stops_at_the_end_of_the_text() {
    let mut p = Parser::new("aaa");
    let eaten = p.eat_while(|c| c == 'a');
    assert_eq!(eaten, "aaa");
    assert!(p.eof());
    assert_eq!(p.eat_while(|_| true), "");
}

#[test]
fn eat_while_takes_any_test() {
    let mut p = Parser::new("\u{e9}\u{e8}e");
    let eaten = p.eat_while(|c| !c.is_ascii());
    assert_eq!(eaten, "\u{e9}\u{e8}");
    assert_eq!(p.next_char(), 'e');
}

#[test]
fn eat_whitespace_skips_spaces_tabs_and_line_breaks() {
    let mut p = Parser::new(" \t\r\n \nx ");
    p.eat_whitespace();
    assert_eq!(p.next_char(), 'x');
    p.eat_whitespace();
    assert_eq!(p.next_char(), 'x');
}

#[test]
fn eat_whitespace_stops_at_other_blank_characters() {
    let mut p = Parser::new(" \u{a0} ");
    p.eat_whitespace();
    assert_eq!(p.next_char(), '\u{a0}');
    let mut q = Parser::new("\u{c}");
    q.eat_whitespace();
    assert_eq!(q.next_char(), '\u{c}');
}

#[test]
fn parse_plan_reads_the_second_number() {
    let mut p = Parser::new("1..4\nok");
    assert_eq!(p.parse_plan(), Ok(4));
    assert_eq!(p.next_char(), '\n');
    assert_eq!(p.plan(), 0);
}

#[test]
fn parse_plan_fails_on_a_single_number() {
    let mut p = Parser::new("123 ");
    assert_eq!(p.parse_plan(), Err(ParseError::MalformedPlan));
    assert_eq!(p.next_char(), ' ');
}

#[test]
fn parse_plan_fails_where_the_number_is_cut_off() {
    let mut p = Parser::new("1..x4");
    assert_eq!(p.parse_plan(), Err(ParseError::MalformedPlan));
    assert_eq!(p.next_char(), 'x');
}

#[test]
fn parse_plan_stops_at_the_first_character_that_is_no_digit() {
    let mut p = Parser::new("1..4.5");
    assert_eq!(p.parse_plan(), Ok(4));
    assert_eq!(p.next_char(), '.');
}

#[test]
fn parse_testcase_status_tells_failure_from_success() {
    let mut failed = Parser::new("not ok 2 - b");
    assert!(!failed.parse_testcase_status());
    assert_eq!(failed.next_char(), '2');
    let mut passed = Parser::new("ok 1 - a");
    assert!(passed.parse_testcase_status());
    assert_eq!(passed.next_char(), '1');
}

#[test]
fn parse_testcase_status_takes_letters_and_spaces_only() {
    let mut p = Parser::new("not ok\t1");
    assert!(p.parse_testcase_status());
    assert_eq!(p.next_char(), '\t');
    let mut q = Parser::new("not ok ");
    assert!(!q.parse_testcase_status());
    assert!(q.eof());
    let mut r = Parser::new("");
    assert!(r.parse_testcase_status());
}

#[test]
fn parse_testcase_description_returns_the_rest_of_the_line() {
    let mut p = Parser::new("4 - Summarized correctly\r\nok 5");
    assert_eq!(p.parse_testcase_description(), "Summarized correctly");
    assert_eq!(p.next_char(), '\r');
}

#[test]
fn parse_testcase_description_may_be_empty() {
    let mut p = Parser::new("4 - \nok 5");
    assert_eq!(p.parse_testcase_description(), "");
    assert_eq!(p.next_char(), '\n');
    let mut q = Parser::new("17");
    assert_eq!(q.parse_testcase_description(), "");
    assert!(q.eof());
}

#[test]
fn parse_testcase_description_runs_to_the_end_of_the_text() {
    let mut p = Parser::new("- last one");
    assert_eq!(p.parse_testcase_description(), "last one");
    assert!(p.eof());
}

#[test]
fn scanners_work_in_turn_as_parse_does() {
    let mut p = Parser::new("1..2\nok 1 - a\nnot ok 2 - b\n");
    assert_eq!(p.parse_plan(), Ok(2));
    p.eat_whitespace();
    assert!(p.parse_testcase_status());
    assert_eq!(p.parse_testcase_description(), "a");
    p.eat_whitespace();
    assert!(!p.eof());
    assert!(!p.parse_testcase_status());
    assert_eq!(p.parse_testcase_description(), "b");
    p.eat_whitespace();
    assert!(p.eof());
}

#[test]
fn digits_are_zero_to_nine() {
    for c in '0'..='9' {
        assert!(CharClass::Digit.matches(c));
    }
    assert!(!CharClass::Digit.matches('/'));
    assert!(!CharClass::Digit.matches(':'));
    assert!(!CharClass::Digit.matches('\u{663}'));
}

#[test]
fn dot_is_the_only_dot() {
    assert!(CharClass::Dot.matches('.'));
    assert!(!CharClass::Dot.matches(','));
    assert!(!CharClass::Dot.matches('\u{2024}'));
}

#[test]
fn status_words_are_ascii_letters_and_spaces() {
    for c in ['a', 'z', 'A', 'Z', 'm', 'Q', ' '] {
        assert!(CharClass::StatusWord.matches(c));
    }
    for c in ['@', '[', '`', '{', '0', '-', '\t', '\n', '\u{e9}'] {
        assert!(!CharClass::StatusWord.matches(c));
    }
}

#[test]
fn number_prefixes_are_digits_dashes_and_spaces() {
    for c in ['0', '9', '5', '-', ' '] {
        assert!(CharClass::NumberPrefix.matches(c));
    }
    for c in ['a', '#', '\t', '\n', '.', '\u{2013}'] {
        assert!(!CharClass::NumberPrefix.matches(c));
    }
}

#[test]
fn whitespace_is_space_tab_and_the_two_line_breaks() {
    for c in [' ', '\t', '\n', '\r'] {
        assert!(CharClass::Whitespace.matches(c));
    }
    for c in ['\u{b}', '\u{c}', '\u{a0}', '\u{2028}', 'a', '0'] {
        assert!(!CharClass::Whitespace.matches(c));
    }
}

#[test]
fn line_text_is_all_but_the_two_line_breaks() {
    for c in ['a', ' ', '\t', '#', '\u{b}', '\u{2028}', '\u{1f600}'] {
        assert!(CharClass::LineText.matches(c));
    }
    assert!(!CharClass::LineText.matches('\n'));
    assert!(!CharClass::LineText.matches('\r'));
}
