//! Well-formed reports, described by their parts.
//!
//! A report is well formed where its text is a plan followed by result lines
//! of the shape `ok 1 - description` or `not ok 2 - description`, each but the
//! last closed by a line break. The types here hold such a report in pieces,
//! and say what text the pieces make.

use crate::classes::{all_in, CharClass};
use crate::decimal::decimal_value;
use crate::grammar::{fail_token, pass_token, TestRecord};
use vstd::prelude::*;

verus! {

/// What stands between the test number and the description: a dash between
/// two spaces.
pub open spec fn separator() -> Seq<char> {
    seq![' ', '-', ' ']
}

/// A plan in its parts: the first number, the dots, the expected number of
/// results, and the whitespace after it.
pub struct PlanLine {
    /// The digits of the first number, which no parse retains.
    pub first: Seq<char>,
    /// The dots between the two numbers.
    pub dots: Seq<char>,
    /// The digits of the expected number of results.
    pub count: Seq<char>,
    /// The whitespace between the plan and the first result line.
    pub ending: Seq<char>,
}

impl PlanLine {
    /// The plan as text.
    pub open spec fn text(self) -> Seq<char> {
        self.first + self.dots + self.count + self.ending
    }

    /// The first number is digits, if it is there at all; there is at least
    /// one dot; the expected number is one or more digits that spell no more
    /// than `usize::MAX`; and the ending is whitespace.
    pub open spec fn well_formed(self) -> bool {
        &&& all_in(self.first, CharClass::Digit)
        &&& self.dots.len() > 0
        &&& all_in(self.dots, CharClass::Dot)
        &&& self.count.len() > 0
        &&& all_in(self.count, CharClass::Digit)
        &&& decimal_value(self.count) <= usize::MAX
        &&& all_in(self.ending, CharClass::Whitespace)
    }
}

/// A result line in its parts: the status, the test number, the description,
/// and the line break with any whitespace after it.
pub struct ResultLine {
    /// Whether the line reports a test that passed.
    pub passed: bool,
    /// The digits of the test number.
    pub number: Seq<char>,
    /// The description, as it stands behind the separator.
    pub description: Seq<char>,
    /// The line break that closes the line, with any whitespace behind it.
    pub ending: Seq<char>,
}

impl ResultLine {
    /// The status token of the line.
    pub open spec fn token(self) -> Seq<char> {
        if self.passed {
            pass_token()
        } else {
            fail_token()
        }
    }

    /// The line as text, its ending included.
    pub open spec fn text(self) -> Seq<char> {
        self.token() + self.number + separator() + self.description + self.ending
    }

    /// The record that the line stands for.
    pub open spec fn record(self) -> TestRecord {
        TestRecord { passed: self.passed, description: self.description }
    }

    /// The number is one or more digits; the description holds no line break
    /// and begins with no digit, dash or space; the ending is whitespace, and
    /// where it is not empty it begins with a line break.
    pub open spec fn well_formed(self) -> bool {
        &&& self.number.len() > 0
        &&& all_in(self.number, CharClass::Digit)
        &&& all_in(self.description, CharClass::LineText)
        &&& self.description.len() > 0 ==> !CharClass::NumberPrefix.contains(self.description[0])
        &&& all_in(self.ending, CharClass::Whitespace)
        &&& self.ending.len() > 0 ==> self.ending[0] == '\n' || self.ending[0] == '\r'
    }
}

/// Every line is well formed, and every line but the last has an ending.
pub open spec fn lines_well_formed(lines: Seq<ResultLine>) -> bool {
    forall|i: int|
        0 <= i < lines.len() ==> {
            &&& (#[trigger] lines[i]).well_formed()
            &&& i + 1 < lines.len() ==> lines[i].ending.len() > 0
        }
}

/// The lines as one text.
pub open spec fn lines_text(lines: Seq<ResultLine>) -> Seq<char>
    decreases lines.len(),
{
    if lines.len() == 0 {
        Seq::empty()
    } else {
        lines[0].text() + lines_text(lines.drop_first())
    }
}

/// The records that the lines stand for, in the order of the lines.
pub open spec fn lines_records(lines: Seq<ResultLine>) -> Seq<TestRecord> {
    Seq::new(lines.len(), |i: int| lines[i].record())
}

} // verus!
