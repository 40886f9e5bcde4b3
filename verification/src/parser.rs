//! The parser: a cursor over the text of a report, and the scanners that move it.

use crate::classes::{
    lemma_prefix_is_run, lemma_run_len_bound, lemma_run_len_is, run_len, CharClass,
};
use crate::decimal::parse_decimal;
use crate::error::ParseError;
use crate::grammar::{
    description_len, description_of, fail_token, lemma_record_len_bounds,
    lemma_report_skips_whitespace, parse_outcome, plan_digits_offset, plan_len, plan_of,
    record_len, record_of, report, status_len, status_passed, TestRecord,
};
use vstd::prelude::*;

verus! {

/// Taken on trust of `String::push` in std, which appends the given character
/// to the end of the string: after the call the string reads as it did before,
/// with `ch` added behind its last character.
pub assume_specification[ String::push ](s: &mut String, ch: char)
    ensures
        final(s)@ == old(s)@.push(ch),
;

/// The outcome of one test: whether it passed, and the text that describes it.
#[derive(Debug, PartialEq, Eq)]
pub struct TestResult {
    /// `false` for a line whose status token is `not ok `, `true` for any other.
    pub passed: bool,
    /// The text of the line behind its test number, without the line break.
    pub description: String,
}

impl View for TestResult {
    type V = TestRecord;

    open spec fn view(&self) -> TestRecord {
        TestRecord { passed: self.passed, description: self.description@ }
    }
}

/// The records that a vector of results stands for, in its order.
pub open spec fn records_of(results: Seq<TestResult>) -> Seq<TestRecord> {
    Seq::new(results.len(), |i: int| results[i]@)
}

/// A cursor over the text of a report.
///
/// The parser borrows the text and never changes it. Beside the text it holds
/// the characters of the text, decoded once when the parser is made, so that
/// every read and every step of the cursor takes constant time. The cursor
/// counts characters, not bytes: it cannot stand inside a character, and it
/// never passes the end of the text.
pub struct Parser<'a> {
    input: &'a str,
    chars: Vec<char>,
    pos: usize,
    plan: usize,
}

impl<'a> Parser<'a> {
    #[verifier::type_invariant]
    spec fn in_bounds(self) -> bool {
        &&& self.chars@ == self.input@
        &&& self.pos <= self.chars.len()
    }

    /// The whole text, read or not.
    pub closed spec fn text(self) -> Seq<char> {
        self.input@
    }

    /// The number of characters that the cursor has passed.
    pub closed spec fn position(self) -> nat {
        self.pos as nat
    }

    /// The plan that the parser holds: zero until a parse has read one.
    pub closed spec fn plan_value(self) -> usize {
        self.plan
    }

    /// The text from the cursor to the end.
    pub open spec fn remaining(self) -> Seq<char> {
        self.text().skip(self.position() as int)
    }

    /// A parser at the start of `s`, with no plan read yet.
    pub fn new(s: &'a str) -> (parser: Parser<'a>)
        ensures
            parser.text() == s@,
            parser.position() == 0,
            parser.plan_value() == 0,
    {
        let mut chars: Vec<char> = Vec::new();
        for c in it: s.chars()
            invariant
                it.seq() == s@,
                chars@ == it.seq().take(it.index()),
        {
            chars.push(c);
        }
        assert(s@.take(s@.len() as int) =~= s@);
        Parser { input: s, chars, pos: 0, plan: 0 }
    }

    /// The text that the parser was made for.
    pub fn input(&self) -> (text: &'a str)
        ensures
            text@ == self.text(),
    {
        self.input
    }

    /// The plan that the last successful parse read, zero before it.
    pub fn plan(&self) -> (plan: usize)
        ensures
            plan == self.plan_value(),
    {
        self.plan
    }

    /// Whether the whole text is consumed.
    pub fn eof(&self) -> (at_end: bool)
        ensures
            at_end == (self.position() >= self.text().len()),
            at_end == (self.remaining().len() == 0),
            self.position() <= self.text().len(),
    {
        proof {
            use_type_invariant(self);
        }
        self.pos >= self.chars.len()
    }

    /// The character under the cursor, which stays where it is.
    pub fn next_char(&self) -> (c: char)
        requires
            self.position() < self.text().len(),
        ensures
            c == self.text()[self.position() as int],
            c == self.remaining()[0],
    {
        proof {
            use_type_invariant(self);
        }
        self.chars[self.pos]
    }

    /// The character under the cursor, which moves past it.
    pub fn eat_char(&mut self) -> (c: char)
        requires
            old(self).position() < old(self).text().len(),
        ensures
            c == old(self).remaining()[0],
            final(self).text() == old(self).text(),
            final(self).position() == old(self).position() + 1,
            final(self).remaining() == old(self).remaining().drop_first(),
            final(self).plan_value() == old(self).plan_value(),
    {
        proof {
            use_type_invariant(&*self);
        }
        let c = self.chars[self.pos];
        self.pos = self.pos + 1;
        assert(self.remaining() =~= old(self).remaining().drop_first());
        c
    }

    /// Consumes characters for as long as `test` accepts the one under the
    /// cursor, and returns them.
    ///
    /// The cursor stops at the first character that `test` turns down, or at
    /// the end of the text.
    pub fn eat_while<F: Fn(char) -> bool>(&mut self, test: F) -> (eaten: String)
        requires
            forall|c: char| #[trigger] call_requires(test, (c,)),
        ensures
            final(self).text() == old(self).text(),
            final(self).plan_value() == old(self).plan_value(),
            final(self).position() == old(self).position() + eaten@.len(),
            final(self).remaining() == old(self).remaining().skip(eaten@.len() as int),
            eaten@.len() <= old(self).remaining().len(),
            eaten@ == old(self).remaining().take(eaten@.len() as int),
            forall|i: int|
                0 <= i < eaten@.len() ==> call_ensures(test, (#[trigger] eaten@[i],), true),
            eaten@.len() < old(self).remaining().len() ==> call_ensures(
                test,
                (old(self).remaining()[eaten@.len() as int],),
                false,
            ),
    {
        proof {
            use_type_invariant(&*self);
        }
        let mut result = String::new();
        while !self.eof() && test(self.next_char())
            invariant
                forall|c: char| #[trigger] call_requires(test, (c,)),
                self.text() == old(self).text(),
                self.plan_value() == old(self).plan_value(),
                self.position() == old(self).position() + result@.len(),
                self.position() <= self.text().len(),
                result@ == old(self).remaining().take(result@.len() as int),
                forall|i: int|
                    0 <= i < result@.len() ==> call_ensures(test, (#[trigger] result@[i],), true),
            ensures
                result@.len() < old(self).remaining().len() ==> call_ensures(
                    test,
                    (old(self).remaining()[result@.len() as int],),
                    false,
                ),
            decreases self.text().len() - self.position(),
        {
            let c = self.eat_char();
            result.push(c);
            assert(result@ =~= old(self).remaining().take(result@.len() as int));
        }
        assert(self.remaining() =~= old(self).remaining().skip(result@.len() as int));
        result
    }

    /// Consumes whitespace, as far as it goes.
    pub fn eat_whitespace(&mut self)
        ensures
            final(self).text() == old(self).text(),
            final(self).plan_value() == old(self).plan_value(),
            final(self).position() == old(self).position() + run_len(
                old(self).remaining(),
                CharClass::Whitespace,
            ),
            final(self).remaining() == old(self).remaining().skip(
                run_len(old(self).remaining(), CharClass::Whitespace) as int,
            ),
    {
        let is_blank = |c: char| -> (found: bool)
            ensures
                found == CharClass::Whitespace.contains(c),
            {
                CharClass::Whitespace.matches(c)
            };
        let blank = self.eat_while(is_blank);
        proof {
            lemma_prefix_is_run(old(self).remaining(), CharClass::Whitespace, blank@);
        }
    }

    /// Reads a plan, such as `1..4`: a run of digits, a run of dots, and the
    /// run of digits that says how many results are expected.
    ///
    /// The first number is dropped and may be missing, and any number of dots
    /// will do. The plan is malformed where the last run is empty or spells a
    /// number above `usize::MAX`. The cursor moves past all three runs either
    /// way, and the plan that the parser holds is left as it is.
    pub fn parse_plan(&mut self) -> (plan: Result<usize, ParseError>)
        ensures
            final(self).text() == old(self).text(),
            final(self).plan_value() == old(self).plan_value(),
            final(self).position() == old(self).position() + plan_len(old(self).remaining()),
            final(self).remaining() == old(self).remaining().skip(
                plan_len(old(self).remaining()) as int,
            ),
            plan == plan_of(old(self).remaining()),
    {
        let is_digit = |c: char| -> (found: bool)
            ensures
                found == CharClass::Digit.contains(c),
            {
                CharClass::Digit.matches(c)
            };
        let is_dot = |c: char| -> (found: bool)
            ensures
                found == CharClass::Dot.contains(c),
            {
                CharClass::Dot.matches(c)
            };
        let ghost start = self.remaining();
        let first = self.eat_while(is_digit);
        let ghost after_first = self.remaining();
        let dots = self.eat_while(is_dot);
        let ghost after_dots = self.remaining();
        let digits = self.eat_while(is_digit);
        proof {
            lemma_prefix_is_run(start, CharClass::Digit, first@);
            lemma_prefix_is_run(after_first, CharClass::Dot, dots@);
            assert(after_dots =~= start.skip(plan_digits_offset(start) as int));
            lemma_prefix_is_run(after_dots, CharClass::Digit, digits@);
        }
        match parse_decimal(digits.as_str()) {
            Some(plan) => Ok(plan),
            None => Err(ParseError::MalformedPlan),
        }
    }

    /// Reads the status token of a result line, a run of letters and spaces,
    /// and says whether the test passed.
    ///
    /// Only the token `not ok `, with its one space, marks a failure. Any other
    /// token counts as passed, the empty one too.
    pub fn parse_testcase_status(&mut self) -> (passed: bool)
        ensures
            final(self).text() == old(self).text(),
            final(self).plan_value() == old(self).plan_value(),
            final(self).position() == old(self).position() + status_len(old(self).remaining()),
            final(self).remaining() == old(self).remaining().skip(
                status_len(old(self).remaining()) as int,
            ),
            passed == status_passed(old(self).remaining()),
    {
        let is_status = |c: char| -> (found: bool)
            ensures
                found == CharClass::StatusWord.contains(c),
            {
                CharClass::StatusWord.matches(c)
            };
        let status = self.eat_while(is_status);
        let failed = String::from_str("not ok ");
        proof {
            lemma_prefix_is_run(old(self).remaining(), CharClass::StatusWord, status@);
            reveal_strlit("not ok ");
            assert(failed@ =~= fail_token());
        }
        status != failed
    }

    /// Reads the rest of a result line: the test number and its separator, a
    /// run of digits, dashes and spaces that is dropped, and then the
    /// description, which is returned.
    ///
    /// The description ends before the first line feed or carriage return, or
    /// at the end of the text. The cursor stops there too: it does not consume
    /// the line break.
    pub fn parse_testcase_description(&mut self) -> (description: String)
        ensures
            final(self).text() == old(self).text(),
            final(self).plan_value() == old(self).plan_value(),
            final(self).position() == old(self).position() + description_len(
                old(self).remaining(),
            ),
            final(self).remaining() == old(self).remaining().skip(
                description_len(old(self).remaining()) as int,
            ),
            description@ == description_of(old(self).remaining()),
    {
        let is_number = |c: char| -> (found: bool)
            ensures
                found == CharClass::NumberPrefix.contains(c),
            {
                CharClass::NumberPrefix.matches(c)
            };
        let number = self.eat_while(is_number);
        let ghost rest = self.remaining();
        proof {
            use_type_invariant(&*self);
            lemma_prefix_is_run(old(self).remaining(), CharClass::NumberPrefix, number@);
        }
        let mut description = String::new();
        while !self.eof()
            invariant
                self.text() == old(self).text(),
                self.plan_value() == old(self).plan_value(),
                self.position() == old(self).position() + number@.len() + description@.len(),
                self.position() <= self.text().len(),
                rest == old(self).remaining().skip(number@.len() as int),
                description@ == rest.take(description@.len() as int),
                forall|i: int|
                    0 <= i < description@.len() ==> CharClass::LineText.contains(
                        #[trigger] description@[i],
                    ),
            ensures
                description@.len() < rest.len() ==> !CharClass::LineText.contains(
                    rest[description@.len() as int],
                ),
            decreases self.text().len() - self.position(),
        {
            let c = self.next_char();
            if c == '\n' || c == '\r' {
                break;
            }
            let c = self.eat_char();
            description.push(c);
            assert(description@ =~= rest.take(description@.len() as int));
        }
        proof {
            lemma_prefix_is_run(rest, CharClass::LineText, description@);
        }
        description
    }

    /// Parses the text from the cursor on: a plan, then the result lines, one
    /// record for each, in the order of the lines.
    ///
    /// Whitespace between the plan and the first line, between two lines and
    /// after the last line is skipped; whitespace before the plan is not. The
    /// plan is kept in the parser and not held against the number of lines.
    /// Where the plan is malformed the parse stops behind it and returns the
    /// failure alone.
    pub fn parse(&mut self) -> (outcome: Result<Vec<TestResult>, ParseError>)
        ensures
            final(self).text() == old(self).text(),
            match outcome {
                Ok(results) => {
                    &&& parse_outcome(old(self).remaining()) == Ok::<Seq<TestRecord>, ParseError>(
                        records_of(results@),
                    )
                    &&& plan_of(old(self).remaining()) == Ok::<usize, ParseError>(
                        final(self).plan_value(),
                    )
                    &&& final(self).position() == final(self).text().len()
                },
                Err(e) => {
                    &&& parse_outcome(old(self).remaining()) == Err::<
                        Seq<TestRecord>,
                        ParseError,
                    >(e)
                    &&& final(self).plan_value() == old(self).plan_value()
                    &&& final(self).position() == old(self).position() + plan_len(
                        old(self).remaining(),
                    )
                },
            },
    {
        let plan = match self.parse_plan() {
            Ok(plan) => plan,
            Err(e) => {
                return Err(e);
            },
        };
        proof {
            use_type_invariant(&*self);
        }
        self.plan = plan;
        let ghost lines = self.remaining();
        self.eat_whitespace();
        proof {
            use_type_invariant(&*self);
            lemma_report_skips_whitespace(lines);
            lemma_run_len_bound(lines, CharClass::Whitespace);
        }
        let mut results: Vec<TestResult> = Vec::new();
        while !self.eof()
            invariant
                self.text() == old(self).text(),
                self.plan_value() == plan,
                self.position() <= self.text().len(),
                self.remaining().len() > 0 ==> !CharClass::Whitespace.contains(
                    self.remaining()[0],
                ),
                records_of(results@) + report(self.remaining()) == report(lines),
            decreases self.text().len() - self.position(),
        {
            let ghost line = self.remaining();
            let ghost before = records_of(results@);
            let passed = self.parse_testcase_status();
            let description = self.parse_testcase_description();
            let ghost rest = self.remaining();
            self.eat_whitespace();
            results.push(TestResult { passed, description });
            proof {
                use_type_invariant(&*self);
                lemma_record_len_bounds(line);
                lemma_run_len_is(line, CharClass::Whitespace, 0);
                assert(line.skip(0) =~= line);
                assert(rest =~= line.skip(record_len(line) as int));
                lemma_report_skips_whitespace(rest);
                lemma_run_len_bound(rest, CharClass::Whitespace);
                assert(records_of(results@) =~= before + seq![record_of(line)]);
                assert(records_of(results@) + report(self.remaining()) =~= before + report(line));
            }
        }
        proof {
            assert(records_of(results@) + report(self.remaining()) =~= records_of(results@));
        }
        Ok(results)
    }
}

} // verus!
