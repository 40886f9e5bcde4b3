//! The report format, stated on sequences of characters.
//!
//! Every function here takes the text that is still to be read and says what a
//! scanner makes of it: how many characters it consumes and what it returns.
//! The parser's contracts are written over these functions.

use crate::classes::{lemma_run_len_bound, run_len, CharClass};
use crate::decimal::decimal_of;
use crate::error::ParseError;
use vstd::prelude::*;

verus! {

/// One entry of a report, as a value of the model: the view of a `TestResult`.
pub struct TestRecord {
    /// Whether the test passed.
    pub passed: bool,
    /// The characters of the description.
    pub description: Seq<char>,
}

/// How many characters of `s` stand before the digits that a plan retains: a
/// run of digits, which is dropped, and a run of dots.
pub open spec fn plan_digits_offset(s: Seq<char>) -> nat {
    let first = run_len(s, CharClass::Digit);
    first + run_len(s.skip(first as int), CharClass::Dot)
}

/// The digits that a plan retains: the run of digits after the dots.
pub open spec fn plan_digits(s: Seq<char>) -> Seq<char> {
    let rest = s.skip(plan_digits_offset(s) as int);
    rest.take(run_len(rest, CharClass::Digit) as int)
}

/// How many characters of `s` the plan scanner consumes, whether the plan is
/// well formed or not.
pub open spec fn plan_len(s: Seq<char>) -> nat {
    plan_digits_offset(s) + plan_digits(s).len()
}

/// What the plan scanner makes of `s`: the expected number of results, or the
/// failure where the retained digits are missing or spell a number above
/// `usize::MAX`.
pub open spec fn plan_of(s: Seq<char>) -> Result<usize, ParseError> {
    match decimal_of(plan_digits(s)) {
        Some(plan) => Ok(plan),
        None => Err(ParseError::MalformedPlan),
    }
}

/// The status token of a test that passed: `ok ` with its space.
pub open spec fn pass_token() -> Seq<char> {
    seq!['o', 'k', ' ']
}

/// The one status token that marks a failed test: `not ok ` with its space.
pub open spec fn fail_token() -> Seq<char> {
    seq!['n', 'o', 't', ' ', 'o', 'k', ' ']
}

/// The length of the status token at the head of `s`.
pub open spec fn status_len(s: Seq<char>) -> nat {
    run_len(s, CharClass::StatusWord)
}

/// Whether the status token at the head of `s` counts as passed: every token
/// does but `not ok `.
pub open spec fn status_passed(s: Seq<char>) -> bool {
    s.take(status_len(s) as int) != fail_token()
}

/// The length of the test number and separator at the head of `s`.
pub open spec fn number_len(s: Seq<char>) -> nat {
    run_len(s, CharClass::NumberPrefix)
}

/// The description that the description scanner returns on `s`: what follows
/// the test number and separator, up to the first line break or the end.
pub open spec fn description_of(s: Seq<char>) -> Seq<char> {
    let rest = s.skip(number_len(s) as int);
    rest.take(run_len(rest, CharClass::LineText) as int)
}

/// How many characters of `s` the description scanner consumes.
pub open spec fn description_len(s: Seq<char>) -> nat {
    number_len(s) + description_of(s).len()
}

/// The record that the result line at the head of `s` yields.
pub open spec fn record_of(s: Seq<char>) -> TestRecord {
    TestRecord {
        passed: status_passed(s),
        description: description_of(s.skip(status_len(s) as int)),
    }
}

/// How many characters of `s` the result line at its head takes, its line break
/// not counted.
pub open spec fn record_len(s: Seq<char>) -> nat {
    status_len(s) + description_len(s.skip(status_len(s) as int))
}

/// The records that the lines of `s` yield, in their order: whitespace is
/// skipped, and what follows it, if anything does, is a result line.
pub open spec fn report(s: Seq<char>) -> Seq<TestRecord>
    decreases s.len(),
    via report_decreases
{
    let line = s.skip(run_len(s, CharClass::Whitespace) as int);
    if line.len() == 0 {
        Seq::empty()
    } else {
        seq![record_of(line)] + report(line.skip(record_len(line) as int))
    }
}

#[via_fn]
proof fn report_decreases(s: Seq<char>) {
    let line = s.skip(run_len(s, CharClass::Whitespace) as int);
    if line.len() != 0 {
        lemma_run_len_bound(s, CharClass::Whitespace);
        lemma_record_len_bounds(line);
    }
}

/// Where in `s` the result line with index `i` begins, lines counted from
/// zero. It means something for the lines that `s` has, as many as `report(s)`
/// is long.
pub open spec fn line_offset(s: Seq<char>, i: nat) -> nat
    decreases i,
{
    let blank = run_len(s, CharClass::Whitespace);
    if i == 0 {
        blank
    } else {
        let line = s.skip(blank as int);
        let taken = record_len(line);
        blank + taken + line_offset(line.skip(taken as int), (i - 1) as nat)
    }
}

/// What parsing the text `s` gives: the records of the lines after the plan, or
/// the failure of the plan.
pub open spec fn parse_outcome(s: Seq<char>) -> Result<Seq<TestRecord>, ParseError> {
    match plan_of(s) {
        Ok(_) => Ok(report(s.skip(plan_len(s) as int))),
        Err(e) => Err(e),
    }
}

/// Whitespace before the first line changes nothing in a report.
pub proof fn lemma_report_skips_whitespace(s: Seq<char>)
    ensures
        report(s.skip(run_len(s, CharClass::Whitespace) as int)) == report(s),
{
    let line = s.skip(run_len(s, CharClass::Whitespace) as int);
    lemma_run_len_bound(s, CharClass::Whitespace);
    if line.len() > 0 {
        assert(line[0] == s[run_len(s, CharClass::Whitespace) as int]);
    }
    assert(run_len(line, CharClass::Whitespace) == 0);
    assert(line.skip(0) =~= line);
}

/// A result line that begins with a character other than whitespace takes at
/// least that character, and no more than there is.
pub proof fn lemma_record_len_bounds(s: Seq<char>)
    ensures
        record_len(s) <= s.len(),
        s.len() > 0 && !CharClass::Whitespace.contains(s[0]) ==> record_len(s) > 0,
{
    let status = status_len(s);
    lemma_run_len_bound(s, CharClass::StatusWord);
    let after_status = s.skip(status as int);
    let number = number_len(after_status);
    lemma_run_len_bound(after_status, CharClass::NumberPrefix);
    let after_number = after_status.skip(number as int);
    lemma_run_len_bound(after_number, CharClass::LineText);
    if s.len() > 0 && !CharClass::Whitespace.contains(s[0]) && status == 0 && number == 0 {
        assert(after_number[0] == s[0]);
        assert(CharClass::LineText.contains(s[0]));
    }
}

} // verus!
