use tap_parser::{ParseError, Parser, TestResult};

fn record(passed: bool, description: &str) -> TestResult {
    TestResult { passed, description: description.to_string() }
}

fn parse_text(text: &str) -> Result<Vec<TestResult>, ParseError> {
    Parser::new(text).parse()
}

#[test]
fn parse_simple_tap() {
    let mut p = Parser::new("\
 1..4\r\n\
 ok 1 - Input file opened\r\n\
 not ok 2 - First line of the input valid\r\n\
 ok 3 - Read the rest of the file\r\n\
 not ok 4 - Summarized correctly # TODO Not written yet\r\n\
");
    assert!(p.parse().unwrap().len() == 4);
}

#[test]
fn sample_report_yields_its_four_records() {
    let text = "1..4\n\
ok 1 - Input file opened\n\
not ok 2 - First line of the input valid\n\
ok 3 - Read the rest of the file\n\
not ok 4 - Summarized correctly # TODO Not written yet\n";
    let mut p = Parser::new(text);
    let results = p.parse().unwrap();
    assert_eq!(
        results,
        vec![
            record(true, "Input file opened"),
            record(false, "First line of the input valid"),
            record(true, "Read the rest of the file"),
            record(false, "Summarized correctly # TODO Not written yet"),
        ]
    );
    assert_eq!(p.plan(), 4);
    assert!(p.eof());
}

#[test]
fn sample_report_with_carriage_returns_yields_the_same_records() {
    let unix = parse_text("1..2\nok 1 - first\nnot ok 2 - second\n").unwrap();
    let dos = parse_text("1..2\r\nok 1 - first\r\nnot ok 2 - second\r\n").unwrap();
    let old_mac = parse_text("1..2\rok 1 - first\rnot ok 2 - second\r").unwrap();
    assert_eq!(unix, vec![record(true, "first"), record(false, "second")]);
    assert_eq!(dos, unix);
    assert_eq!(old_mac, unix);
}

#[test]
fn plan_without_digits_is_malformed() {
    let mut p = Parser::new("abc..4");
    assert_eq!(p.parse(), Err(ParseError::MalformedPlan));
    assert_eq!(p.plan(), 0);
    assert!(!p.eof());
    assert_eq!(p.next_char(), 'a');
}

#[test]
fn empty_text_is_malformed() {
    assert_eq!(parse_text(""), Err(ParseError::MalformedPlan));
}

#[test]
fn plan_without_dots_is_malformed() {
    assert_eq!(parse_text("14\nok 1 - a\n"), Err(ParseError::MalformedPlan));
}

#[test]
fn plan_without_count_is_malformed() {
    assert_eq!(parse_text("1..\nok 1 - a\n"), Err(ParseError::MalformedPlan));
}

#[test]
fn whitespace_before_the_plan_is_malformed() {
    assert_eq!(parse_text(" 1..1\nok 1 - a\n"), Err(ParseError::MalformedPlan));
    assert_eq!(parse_text("\n1..1\nok 1 - a\n"), Err(ParseError::MalformedPlan));
}

#[test]
fn plan_above_the_largest_number_is_malformed() {
    let text = format!("1..{}0\nok 1 - a\n", usize::MAX);
    assert_eq!(parse_text(&text), Err(ParseError::MalformedPlan));
    assert_eq!(
        parse_text("1..340282366920938463463374607431768211456"),
        Err(ParseError::MalformedPlan)
    );
}

#[test]
fn plan_of_the_largest_number_is_kept() {
    let text = format!("1..{}\nok 1 - a\n", usize::MAX);
    let mut p = Parser::new(&text);
    assert_eq!(p.parse(), Ok(vec![record(true, "a")]));
    assert_eq!(p.plan(), usize::MAX);
}

#[test]
fn failed_parse_stops_behind_the_plan() {
    let mut p = Parser::new("12...\nok 1 - a\n");
    assert_eq!(p.parse(), Err(ParseError::MalformedPlan));
    assert_eq!(p.next_char(), '\n');
}

#[test]
fn plan_may_lack_its_first_number() {
    let mut p = Parser::new("..3\nok 1 - a\n");
    assert_eq!(p.parse(), Ok(vec![record(true, "a")]));
    assert_eq!(p.plan(), 3);
}

#[test]
fn plan_may_have_any_number_of_dots() {
    let mut one = Parser::new("1.7");
    assert_eq!(one.parse(), Ok(vec![]));
    assert_eq!(one.plan(), 7);
    let mut many = Parser::new("1.....7");
    assert_eq!(many.parse(), Ok(vec![]));
    assert_eq!(many.plan(), 7);
}

#[test]
fn plan_with_leading_zeros_is_read_as_a_number() {
    let mut p = Parser::new("0001..0042\n");
    assert_eq!(p.parse(), Ok(vec![]));
    assert_eq!(p.plan(), 42);
}

#[test]
fn number_of_records_does_not_depend_on_the_plan() {
    let mut more = Parser::new("1..2\nok 1 - a\nok 2 - b\nnot ok 3 - c\n");
    assert_eq!(
        more.parse(),
        Ok(vec![record(true, "a"), record(true, "b"), record(false, "c")])
    );
    assert_eq!(more.plan(), 2);
    let mut fewer = Parser::new("1..9\nok 1 - a\n");
    assert_eq!(fewer.parse().unwrap().len(), 1);
    assert_eq!(fewer.plan(), 9);
}

#[test]
fn plan_alone_yields_no_records() {
    assert_eq!(parse_text("1..4"), Ok(vec![]));
    assert_eq!(parse_text("1..4\n"), Ok(vec![]));
    assert_eq!(parse_text("1..0\r\n"), Ok(vec![]));
}

#[test]
fn trailing_whitespace_adds_no_record() {
    let plain = parse_text("1..2\nok 1 - a\nnot ok 2 - b").unwrap();
    assert_eq!(plain, vec![record(true, "a"), record(false, "b")]);
    assert_eq!(parse_text("1..2\nok 1 - a\nnot ok 2 - b\n").unwrap(), plain);
    assert_eq!(parse_text("1..2\nok 1 - a\nnot ok 2 - b\n\n\n").unwrap(), plain);
    assert_eq!(parse_text("1..2\nok 1 - a\nnot ok 2 - b\r\n \t \r\n").unwrap(), plain);
    assert_eq!(parse_text("1..0\n \n\t\n").unwrap(), vec![]);
}

#[test]
fn trailing_spaces_on_the_last_line_stay_in_its_description() {
    let results = parse_text("1..1\nok 1 - a \t").unwrap();
    assert_eq!(results, vec![record(true, "a \t")]);
}

#[test]
fn blank_lines_between_results_are_skipped() {
    let results = parse_text("1..2\n\n\nok 1 - a\n \n\t\nnot ok 2 - b\n").unwrap();
    assert_eq!(results, vec![record(true, "a"), record(false, "b")]);
}

#[test]
fn indented_lines_are_read_from_their_first_character() {
    let results = parse_text("1..2\n    ok 1 - a\n\tnot ok 2 - b\n").unwrap();
    assert_eq!(results, vec![record(true, "a"), record(false, "b")]);
}

#[test]
fn records_keep_the_order_of_their_lines() {
    let text = "1..5\nok 1 - one\nnot ok 2 - two\nnot ok 3 - three\nok 4 - four\nok 5 - five\n";
    let results = parse_text(text).unwrap();
    let descriptions: Vec<&str> = results.iter().map(|r| r.description.as_str()).collect();
    assert_eq!(descriptions, vec!["one", "two", "three", "four", "five"]);
    let statuses: Vec<bool> = results.iter().map(|r| r.passed).collect();
    assert_eq!(statuses, vec![true, false, false, true, true]);
}

#[test]
fn same_text_parses_to_the_same_records() {
    let text = "1..3\nok 1 - a\nnot ok 2 - b # TODO later\nok 3 - c\n";
    let first = parse_text(text);
    let second = parse_text(text);
    assert_eq!(first, second);
    assert_eq!(first.unwrap().len(), 3);
    assert_eq!(parse_text("x"), parse_text("x"));
}

#[test]
fn second_parse_finds_no_plan_left() {
    let mut p = Parser::new("1..1\nok 1 - a\n");
    assert_eq!(p.parse(), Ok(vec![record(true, "a")]));
    assert_eq!(p.parse(), Err(ParseError::MalformedPlan));
    assert_eq!(p.plan(), 1);
}

#[test]
fn only_the_exact_token_marks_a_failure() {
    let results = parse_text(
        "1..6\nnot ok 1 - a\nok 2 - b\nNot ok 3 - c\nnot  ok 4 - d\nnotok 5 - e\nnot ok\n",
    )
    .unwrap();
    let statuses: Vec<bool> = results.iter().map(|r| r.passed).collect();
    assert_eq!(statuses, vec![false, true, true, true, true, true]);
}

#[test]
fn words_behind_the_token_join_it() {
    let results = parse_text("1..2\nnot ok then 1 - a\nok fine\n").unwrap();
    assert_eq!(results, vec![record(true, "a"), record(true, "")]);
}

#[test]
fn unknown_status_counts_as_passed() {
    let results = parse_text("1..3\nfoo 1 - a\n# a comment\n12 - b\n").unwrap();
    assert_eq!(
        results,
        vec![record(true, "a"), record(true, "# a comment"), record(true, "b")]
    );
}

#[test]
fn text_behind_the_plan_on_its_line_is_a_result_line() {
    let results = parse_text("1..2 # two tests\nok 1 - a\n").unwrap();
    assert_eq!(results, vec![record(true, "# two tests"), record(true, "a")]);
}

#[test]
fn first_result_may_follow_the_plan_directly() {
    let results = parse_text("1..1ok 1 - a").unwrap();
    assert_eq!(results, vec![record(true, "a")]);
}

#[test]
fn description_loses_its_number_and_separator() {
    let results = parse_text(
        "1..6\nok 1 - a\nok 22 b\nok - c\nok 3 -- - d\nok 4 - 5 apples\nok 6 -\n",
    )
    .unwrap();
    let descriptions: Vec<&str> = results.iter().map(|r| r.description.as_str()).collect();
    assert_eq!(descriptions, vec!["a", "b", "c", "d", "apples", ""]);
}

#[test]
fn description_holds_no_line_break() {
    let results = parse_text("1..2\r\nok 1 - a b\tc\r\nnot ok 2 - d\r").unwrap();
    assert_eq!(results, vec![record(true, "a b\tc"), record(false, "d")]);
    for result in &results {
        assert!(!result.description.contains('\n'));
        assert!(!result.description.contains('\r'));
    }
}

#[test]
fn description_keeps_directives_and_other_text() {
    let results = parse_text("1..1\nnot ok 1 - Summarized correctly # TODO Not written yet\n")
        .unwrap();
    assert_eq!(results, vec![record(false, "Summarized correctly # TODO Not written yet")]);
}

#[test]
fn description_keeps_characters_of_several_bytes() {
    let results = parse_text("1..2\nok 1 - caf\u{e9} \u{2615}\nnot ok 2 - \u{1f600}\u{a0}x\n")
        .unwrap();
    assert_eq!(
        results,
        vec![record(true, "caf\u{e9} \u{2615}"), record(false, "\u{1f600}\u{a0}x")]
    );
}

#[test]
fn only_four_characters_are_whitespace() {
    let results = parse_text("1..1\n\u{b}\nok 1 - a\n").unwrap();
    assert_eq!(results, vec![record(true, "\u{b}"), record(true, "a")]);
    let results = parse_text("1..1\n\u{a0}ok 1 - a\n").unwrap();
    assert_eq!(results, vec![record(true, "\u{a0}ok 1 - a")]);
}

#[test]
fn letters_of_other_alphabets_end_the_status_token() {
    let results = parse_text("1..1\nnot ok \u{e9}t\u{e9}\n").unwrap();
    assert_eq!(results, vec![record(false, "\u{e9}t\u{e9}")]);
}
