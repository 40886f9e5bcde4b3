//! What holds of every report, proved from the grammar.

use crate::classes::{
    all_in, lemma_prefix_is_run, lemma_run_len_bound, lemma_run_len_concat, lemma_run_len_is,
    lemma_run_len_stops_at, lemma_run_of_parts, run_len, CharClass,
};
use crate::document::{
    lines_records, lines_text, lines_well_formed, separator, PlanLine, ResultLine,
};
use crate::decimal::decimal_value;
use crate::error::ParseError;
use crate::grammar::{
    description_len, description_of, fail_token, lemma_record_len_bounds,
    lemma_report_skips_whitespace, line_offset, number_len, parse_outcome, pass_token,
    plan_digits, plan_digits_offset, plan_len, plan_of, record_len, record_of, report,
    status_len, TestRecord,
};
use crate::parser::Parser;
use vstd::prelude::*;

verus! {

/// A result line that begins with `ok ` counts as passed, whatever follows the
/// token.
pub proof fn lemma_ok_line_passes(line: Seq<char>)
    requires
        pass_token().is_prefix_of(line),
    ensures
        record_of(line).passed,
{
    let token = line.take(status_len(line) as int);
    lemma_run_len_bound(line, CharClass::StatusWord);
    if token == fail_token() {
        assert(token[0] == line[0]);
        assert(line[0] == pass_token()[0]);
    }
}

/// A result line counts as failed in one case only: it begins with `not ok `,
/// and what follows the token, if anything does, is neither a letter nor a
/// space.
pub proof fn lemma_failed_line(line: Seq<char>)
    ensures
        !record_of(line).passed <==> (fail_token().is_prefix_of(line) && (line.len() > 7
            ==> !CharClass::StatusWord.contains(line[7]))),
{
    lemma_run_len_bound(line, CharClass::StatusWord);
    if fail_token().is_prefix_of(line) && (line.len() > 7 ==> !CharClass::StatusWord.contains(
        line[7],
    )) {
        assert(fail_token() =~= line.take(7));
        lemma_prefix_is_run(line, CharClass::StatusWord, fail_token());
    }
    if !record_of(line).passed {
        assert(line.take(status_len(line) as int).len() == 7);
        assert(line.take(7) =~= line.subrange(0, 7));
    }
}

/// The description of a result line is the rest of the line with the test
/// number and separator taken off: the text after the status token divides
/// into the longest run of digits, dashes and spaces, then the description,
/// which holds no line break, then a line break or the end of the text.
pub proof fn lemma_description_is_rest_of_line(s: Seq<char>)
    ensures
        ({
            let number = s.take(number_len(s) as int);
            let description = description_of(s);
            let rest = s.skip(description_len(s) as int);
            &&& s == number + description + rest
            &&& all_in(number, CharClass::NumberPrefix)
            &&& description.len() > 0 ==> !CharClass::NumberPrefix.contains(description[0])
            &&& all_in(description, CharClass::LineText)
            &&& rest.len() > 0 ==> rest[0] == '\n' || rest[0] == '\r'
        }),
{
    let number = s.take(number_len(s) as int);
    let after_number = s.skip(number_len(s) as int);
    let description = description_of(s);
    let rest = s.skip(description_len(s) as int);
    lemma_run_len_bound(s, CharClass::NumberPrefix);
    lemma_run_len_bound(after_number, CharClass::LineText);
    assert(s =~= number + description + rest);
    if description.len() > 0 {
        assert(description[0] == s[number_len(s) as int]);
    }
    if rest.len() > 0 {
        assert(rest[0] == after_number[description.len() as int]);
    }
}

/// Parsing is a function of the text before the cursor: two parsers with the
/// same text left to read come to the same outcome, the same failure or the
/// same records one by one, whatever each has read before.
pub proof fn lemma_same_text_same_outcome(first: Parser<'_>, second: Parser<'_>)
    requires
        first.remaining() == second.remaining(),
    ensures
        match (parse_outcome(first.remaining()), parse_outcome(second.remaining())) {
            (Ok(a), Ok(b)) => a.len() == b.len() && forall|i: int|
                0 <= i < a.len() ==> a[i] == b[i],
            (Err(e), Err(f)) => e == f,
            _ => false,
        },
{
}

/// A text that holds a plan and after it nothing but whitespace yields no
/// record, and no failure.
pub proof fn lemma_plan_alone_yields_no_records(s: Seq<char>)
    requires
        plan_of(s) is Ok,
        all_in(s.skip(plan_len(s) as int), CharClass::Whitespace),
    ensures
        parse_outcome(s) == Ok::<Seq<TestRecord>, ParseError>(Seq::empty()),
{
    let rest = s.skip(plan_len(s) as int);
    lemma_run_len_is(rest, CharClass::Whitespace, rest.len());
}

/// Records come in the order of their lines: the record with index `i` is the
/// one that the line with index `i` yields, and each line begins further down
/// the text than the line before it.
pub proof fn lemma_records_follow_lines(s: Seq<char>, i: nat)
    requires
        i < report(s).len(),
    ensures
        line_offset(s, i) < s.len(),
        report(s)[i as int] == record_of(s.skip(line_offset(s, i) as int)),
        i + 1 < report(s).len() ==> line_offset(s, i) < line_offset(s, i + 1),
    decreases i,
{
    let blank = run_len(s, CharClass::Whitespace);
    let line = s.skip(blank as int);
    let taken = record_len(line);
    let rest = line.skip(taken as int);
    lemma_run_len_bound(s, CharClass::Whitespace);
    assert(line[0] == s[blank as int]);
    lemma_record_len_bounds(line);
    if i > 0 {
        let k = line_offset(rest, (i - 1) as nat);
        lemma_records_follow_lines(rest, (i - 1) as nat);
        assert(rest.skip(k as int) =~= s.skip(line_offset(s, i) as int));
    }
}

/// Text that is whitespace throughout holds no result line.
pub proof fn lemma_blank_text_has_no_records(blank: Seq<char>)
    requires
        all_in(blank, CharClass::Whitespace),
    ensures
        report(blank) == Seq::<TestRecord>::empty(),
{
    lemma_run_len_is(blank, CharClass::Whitespace, blank.len());
}

/// Whitespace behind a text leaves the plan as it is: the same digits are
/// retained, and the same number of characters is consumed.
pub proof fn lemma_plan_ignores_trailing_whitespace(s: Seq<char>, blank: Seq<char>)
    requires
        all_in(blank, CharClass::Whitespace),
    ensures
        plan_digits(s + blank) == plan_digits(s),
        plan_len(s + blank) == plan_len(s),
        plan_len(s) <= s.len(),
        plan_of(s + blank) == plan_of(s),
        (s + blank).skip(plan_len(s) as int) == s.skip(plan_len(s) as int) + blank,
{
    let first = run_len(s, CharClass::Digit);
    lemma_run_len_bound(s, CharClass::Digit);
    lemma_run_len_stops_at(s, blank, CharClass::Digit);
    let after_first = s.skip(first as int);
    assert((s + blank).skip(first as int) =~= after_first + blank);
    let dots = run_len(after_first, CharClass::Dot);
    lemma_run_len_bound(after_first, CharClass::Dot);
    lemma_run_len_stops_at(after_first, blank, CharClass::Dot);
    let after_dots = s.skip((first + dots) as int);
    assert(after_dots =~= after_first.skip(dots as int));
    assert((s + blank).skip((first + dots) as int) =~= after_dots + blank);
    let digits = run_len(after_dots, CharClass::Digit);
    lemma_run_len_bound(after_dots, CharClass::Digit);
    lemma_run_len_stops_at(after_dots, blank, CharClass::Digit);
    assert((after_dots + blank).take(digits as int) =~= after_dots.take(digits as int));
    assert((s + blank).skip(plan_len(s) as int) =~= s.skip(plan_len(s) as int) + blank);
}

/// Blank lines behind the last line of a report change none of its records:
/// whitespace that begins with a line break can be added to any text.
pub proof fn lemma_report_ignores_blank_lines(s: Seq<char>, blank: Seq<char>)
    requires
        all_in(blank, CharClass::Whitespace),
        blank.len() > 0 ==> blank[0] == '\n' || blank[0] == '\r',
    ensures
        report(s + blank) == report(s),
    decreases s.len(),
{
    let skipped = run_len(s, CharClass::Whitespace);
    lemma_run_len_bound(s, CharClass::Whitespace);
    lemma_run_len_concat(s, blank, CharClass::Whitespace);
    if skipped == s.len() {
        lemma_run_len_is(blank, CharClass::Whitespace, blank.len());
        assert((s + blank).skip((s + blank).len() as int).len() == 0);
    } else {
        let line = s.skip(skipped as int);
        assert((s + blank).skip(skipped as int) =~= line + blank);
        assert(line[0] == s[skipped as int]);
        lemma_record_len_bounds(line);
        let status = status_len(line);
        lemma_run_len_bound(line, CharClass::StatusWord);
        lemma_run_len_stops_at(line, blank, CharClass::StatusWord);
        assert((line + blank).take(status as int) =~= line.take(status as int));
        let after_status = line.skip(status as int);
        assert((line + blank).skip(status as int) =~= after_status + blank);
        let number = number_len(after_status);
        lemma_run_len_bound(after_status, CharClass::NumberPrefix);
        lemma_run_len_stops_at(after_status, blank, CharClass::NumberPrefix);
        let after_number = after_status.skip(number as int);
        assert((after_status + blank).skip(number as int) =~= after_number + blank);
        let text = run_len(after_number, CharClass::LineText);
        lemma_run_len_bound(after_number, CharClass::LineText);
        lemma_run_len_stops_at(after_number, blank, CharClass::LineText);
        assert((after_number + blank).take(text as int) =~= after_number.take(text as int));
        let rest = line.skip(record_len(line) as int);
        assert((line + blank).skip(record_len(line) as int) =~= rest + blank);
        lemma_report_ignores_blank_lines(rest, blank);
    }
}

/// Whitespace behind the last line of a report adds no record to it.
pub proof fn lemma_report_counts_no_trailing_whitespace(s: Seq<char>, blank: Seq<char>)
    requires
        all_in(blank, CharClass::Whitespace),
    ensures
        report(s + blank).len() == report(s).len(),
    decreases s.len(),
{
    let skipped = run_len(s, CharClass::Whitespace);
    lemma_run_len_bound(s, CharClass::Whitespace);
    lemma_run_len_concat(s, blank, CharClass::Whitespace);
    if skipped == s.len() {
        lemma_run_len_is(blank, CharClass::Whitespace, blank.len());
        assert((s + blank).skip((s + blank).len() as int).len() == 0);
    } else {
        let line = s.skip(skipped as int);
        let longer = line + blank;
        assert((s + blank).skip(skipped as int) =~= longer);
        assert(line[0] == s[skipped as int]);
        assert(longer[0] == line[0]);
        lemma_record_len_bounds(line);
        lemma_record_len_bounds(longer);
        let status = status_len(line);
        lemma_run_len_bound(line, CharClass::StatusWord);
        lemma_run_len_concat(line, blank, CharClass::StatusWord);
        let after_status = line.skip(status as int);
        let number = number_len(after_status);
        lemma_run_len_bound(after_status, CharClass::NumberPrefix);
        lemma_run_len_concat(after_status, blank, CharClass::NumberPrefix);
        let after_number = after_status.skip(number as int);
        let text = run_len(after_number, CharClass::LineText);
        lemma_run_len_bound(after_number, CharClass::LineText);
        lemma_run_len_concat(after_number, blank, CharClass::LineText);
        if status < line.len() {
            assert(longer.skip(status as int) =~= after_status + blank);
            lemma_run_len_bound(after_status + blank, CharClass::NumberPrefix);
            if number < after_status.len() {
                assert((after_status + blank).skip(number as int) =~= after_number + blank);
                lemma_run_len_bound(after_number + blank, CharClass::LineText);
            } else {
                let beyond = (after_status + blank).skip(number_len(after_status + blank) as int);
                lemma_run_len_bound(beyond, CharClass::LineText);
            }
        } else {
            let beyond = longer.skip(status_len(longer) as int);
            lemma_run_len_bound(beyond, CharClass::NumberPrefix);
            lemma_run_len_bound(
                beyond.skip(number_len(beyond) as int),
                CharClass::LineText,
            );
        }
        if record_len(line) < line.len() {
            let rest = line.skip(record_len(line) as int);
            assert(longer.skip(record_len(line) as int) =~= rest + blank);
            lemma_report_counts_no_trailing_whitespace(rest, blank);
        } else {
            let over = record_len(longer) - line.len();
            assert(0 <= over <= blank.len());
            let left = blank.skip(over);
            assert(longer.skip(record_len(longer) as int) =~= left);
            lemma_blank_text_has_no_records(left);
            assert(line.skip(record_len(line) as int).len() == 0);
            lemma_blank_text_has_no_records(line.skip(record_len(line) as int));
        }
    }
}

/// Whitespace behind a text adds no record to what parsing it gives: the
/// parse fails with it exactly where it fails without it, and where it
/// succeeds the records are as many. Where the whitespace is blank lines, the
/// outcome is the same altogether.
pub proof fn lemma_trailing_whitespace_adds_no_record(s: Seq<char>, blank: Seq<char>)
    requires
        all_in(blank, CharClass::Whitespace),
    ensures
        match (parse_outcome(s), parse_outcome(s + blank)) {
            (Ok(without), Ok(with)) => with.len() == without.len(),
            (Err(e), Err(f)) => e == f,
            _ => false,
        },
        blank.len() > 0 && (blank[0] == '\n' || blank[0] == '\r') ==> parse_outcome(s + blank)
            == parse_outcome(s),
{
    lemma_plan_ignores_trailing_whitespace(s, blank);
    let lines = s.skip(plan_len(s) as int);
    lemma_report_counts_no_trailing_whitespace(lines, blank);
    if blank.len() > 0 && (blank[0] == '\n' || blank[0] == '\r') {
        lemma_report_ignores_blank_lines(lines, blank);
    }
}

/// The text of well-formed lines, where there are any, begins with the letter
/// of a status token.
proof fn lemma_lines_text_head(lines: Seq<ResultLine>)
    requires
        lines.len() > 0,
    ensures
        lines_text(lines).len() > 0,
        lines_text(lines)[0] == 'o' || lines_text(lines)[0] == 'n',
{
    let line = lines[0];
    assert(line.text()[0] == line.token()[0]);
    assert(lines_text(lines)[0] == line.text()[0]);
}

/// Whitespace before well-formed lines is skipped.
proof fn lemma_report_skips_ending(ending: Seq<char>, lines: Seq<ResultLine>)
    requires
        all_in(ending, CharClass::Whitespace),
    ensures
        report(ending + lines_text(lines)) == report(lines_text(lines)),
{
    let text = lines_text(lines);
    if lines.len() > 0 {
        lemma_lines_text_head(lines);
    }
    lemma_run_of_parts(ending, text, CharClass::Whitespace);
    lemma_report_skips_whitespace(ending + text);
}

/// The text of a line and what stands below it, with the parts grouped from
/// the right.
proof fn lemma_line_text_parts(line: ResultLine, below: Seq<char>)
    ensures
        line.text() + below == line.token() + ((line.number + separator()) + (line.description + (
            line.ending + below))),
{
    assert(line.text() + below =~= line.token() + ((line.number + separator()) + (
        line.description + (line.ending + below))));
}

/// A test number with its separator is a run of digits, dashes and spaces.
proof fn lemma_number_is_prefix(number: Seq<char>)
    requires
        all_in(number, CharClass::Digit),
    ensures
        all_in(number + separator(), CharClass::NumberPrefix),
{
    let prefix = number + separator();
    assert forall|i: int| 0 <= i < prefix.len() implies CharClass::NumberPrefix.contains(
        #[trigger] prefix[i],
    ) by {
        if i < number.len() {
            assert(prefix[i] == number[i]);
        } else {
            assert(prefix[i] == separator()[i - number.len()]);
        }
    }
}

/// A well-formed line at the head of a text yields its record and is consumed
/// up to its ending, where what stands below it is nothing or follows a line
/// break.
proof fn lemma_well_formed_line_record(line: ResultLine, below: Seq<char>)
    requires
        line.well_formed(),
        below.len() > 0 ==> line.ending.len() > 0,
    ensures
        record_of(line.text() + below) == line.record(),
        (line.text() + below).skip(record_len(line.text() + below) as int) == line.ending + below,
{
    let text = line.text() + below;
    let token = line.token();
    let prefix = line.number + separator();
    let after_description = line.ending + below;
    let after_prefix = line.description + after_description;
    let after_token = prefix + after_prefix;
    lemma_line_text_parts(line, below);
    lemma_number_is_prefix(line.number);
    assert(after_token[0] == line.number[0]);
    lemma_run_of_parts(token, after_token, CharClass::StatusWord);
    if line.description.len() > 0 {
        assert(after_prefix[0] == line.description[0]);
    } else if line.ending.len() > 0 {
        assert(after_prefix[0] == line.ending[0]);
    }
    lemma_run_of_parts(prefix, after_prefix, CharClass::NumberPrefix);
    if line.ending.len() > 0 {
        assert(after_description[0] == line.ending[0]);
    }
    lemma_run_of_parts(line.description, after_description, CharClass::LineText);
    assert(text.skip(record_len(text) as int) =~= after_description);
}

/// Well-formed lines yield their records: as many as there are lines, each
/// with the status and the description of its line, in the order of the
/// lines.
pub proof fn lemma_well_formed_lines_report(lines: Seq<ResultLine>)
    requires
        lines_well_formed(lines),
    ensures
        report(lines_text(lines)) == lines_records(lines),
    decreases lines.len(),
{
    let text = lines_text(lines);
    if lines.len() == 0 {
        assert(text.skip(0) =~= text);
        assert(lines_records(lines) =~= Seq::<TestRecord>::empty());
    } else {
        let line = lines[0];
        let others = lines.drop_first();
        let below = lines_text(others);
        assert(line.well_formed());
        assert forall|i: int| 0 <= i < others.len() implies {
            &&& (#[trigger] others[i]).well_formed()
            &&& i + 1 < others.len() ==> others[i].ending.len() > 0
        } by {
            assert(others[i] == lines[i + 1]);
        }
        if others.len() > 0 {
            lemma_lines_text_head(others);
            assert(line.ending.len() > 0);
        }
        lemma_lines_text_head(lines);
        lemma_run_len_is(text, CharClass::Whitespace, 0);
        assert(text.skip(0) =~= text);
        lemma_well_formed_line_record(line, below);
        lemma_report_skips_ending(line.ending, others);
        lemma_well_formed_lines_report(others);
        assert(lines_records(lines) =~= seq![line.record()] + lines_records(others));
    }
}

/// The text of a plan and what stands below it, with the parts grouped from
/// the right.
proof fn lemma_plan_text_parts(plan: PlanLine, below: Seq<char>)
    ensures
        plan.text() + below == plan.first + (plan.dots + (plan.count + (plan.ending + below))),
{
    assert(plan.text() + below =~= plan.first + (plan.dots + (plan.count + (plan.ending
        + below))));
}

/// A well-formed plan at the head of a text is read as the number that its
/// count spells and is consumed up to its ending, where what stands below it
/// does not begin with a digit.
proof fn lemma_well_formed_plan(plan: PlanLine, below: Seq<char>)
    requires
        plan.well_formed(),
        below.len() > 0 ==> !CharClass::Digit.contains(below[0]),
    ensures
        plan_of(plan.text() + below) == Ok::<usize, ParseError>(
            decimal_value(plan.count) as usize,
        ),
        (plan.text() + below).skip(plan_len(plan.text() + below) as int) == plan.ending + below,
{
    let text = plan.text() + below;
    let after_count = plan.ending + below;
    let after_dots = plan.count + after_count;
    let after_first = plan.dots + after_dots;
    lemma_plan_text_parts(plan, below);
    assert(after_first[0] == plan.dots[0]);
    lemma_run_of_parts(plan.first, after_first, CharClass::Digit);
    assert(after_dots[0] == plan.count[0]);
    lemma_run_of_parts(plan.dots, after_dots, CharClass::Dot);
    if plan.ending.len() > 0 {
        assert(after_count[0] == plan.ending[0]);
    }
    lemma_run_of_parts(plan.count, after_count, CharClass::Digit);
    assert(text.skip(plan_digits_offset(text) as int) =~= after_dots);
    assert(text.skip(plan_len(text) as int) =~= after_count);
}

/// A well-formed report parses into one record for each of its result lines,
/// with the status and the description of the line, in the order of the
/// lines, whatever number the plan gives. The plan is read as the number that
/// its count spells.
pub proof fn lemma_well_formed_report_parses(plan: PlanLine, lines: Seq<ResultLine>)
    requires
        plan.well_formed(),
        lines_well_formed(lines),
    ensures
        parse_outcome(plan.text() + lines_text(lines)) == Ok::<Seq<TestRecord>, ParseError>(
            lines_records(lines),
        ),
        lines_records(lines).len() == lines.len(),
        plan_of(plan.text() + lines_text(lines)) == Ok::<usize, ParseError>(
            decimal_value(plan.count) as usize,
        ),
{
    if lines.len() > 0 {
        lemma_lines_text_head(lines);
    }
    lemma_well_formed_plan(plan, lines_text(lines));
    lemma_report_skips_ending(plan.ending, lines);
    lemma_well_formed_lines_report(lines);
}

} // verus!
