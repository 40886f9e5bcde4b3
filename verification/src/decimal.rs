//! Unsigned decimal numbers: what a run of digits spells, and reading it.

use crate::classes::{all_in, CharClass};
use vstd::prelude::*;

verus! {

/// The value of a decimal digit; zero for any other character.
pub open spec fn digit_value(c: char) -> nat {
    if CharClass::Digit.contains(c) {
        (c as int - '0' as int) as nat
    } else {
        0
    }
}

/// The number that a sequence of decimal digits spells, the empty sequence
/// spelling zero.
pub open spec fn decimal_value(digits: Seq<char>) -> nat
    decreases digits.len(),
{
    if digits.len() == 0 {
        0
    } else {
        10 * decimal_value(digits.drop_last()) + digit_value(digits.last())
    }
}

/// The number that `s` spells, where `s` is one or more decimal digits and the
/// number fits in a `usize`.
pub open spec fn decimal_of(s: Seq<char>) -> Option<usize> {
    if s.len() > 0 && all_in(s, CharClass::Digit) && decimal_value(s) <= usize::MAX {
        Some(decimal_value(s) as usize)
    } else {
        None
    }
}

/// A prefix of a sequence of digits spells no more than the whole sequence.
pub proof fn lemma_decimal_value_prefix(digits: Seq<char>, k: int)
    requires
        0 <= k <= digits.len(),
    ensures
        decimal_value(digits.take(k)) <= decimal_value(digits),
    decreases digits.len(),
{
    if k < digits.len() {
        let front = digits.drop_last();
        lemma_decimal_value_prefix(front, k);
        assert(front.take(k) =~= digits.take(k));
    } else {
        assert(digits.take(k) =~= digits);
    }
}

/// Reads an unsigned decimal number: one or more digits with nothing before,
/// between or after them. Leading zeros are accepted. The result is `None` for
/// any other text, and for a number above `usize::MAX`.
pub fn parse_decimal(digits: &str) -> (value: Option<usize>)
    ensures
        value == decimal_of(digits@),
{
    let mut total: usize = 0;
    let mut any = false;
    for c in it: digits.chars()
        invariant
            it.seq() == digits@,
            any == (it.index() > 0),
            all_in(digits@.take(it.index()), CharClass::Digit),
            total == decimal_value(digits@.take(it.index())),
    {
        let ghost read = digits@.take(it.index());
        let ghost next = digits@.take(it.index() + 1);
        assert(next.drop_last() =~= read);
        assert(next.last() == c);
        if !CharClass::Digit.matches(c) {
            assert(!CharClass::Digit.contains(digits@[it.index()]));
            return None;
        }
        let digit = (c as u32 - '0' as u32) as usize;
        assert(digit == digit_value(c));
        proof {
            lemma_decimal_value_prefix(digits@, it.index() + 1);
        }
        let shifted = match total.checked_mul(10) {
            Some(shifted) => shifted,
            None => {
                return None;
            },
        };
        total = match shifted.checked_add(digit) {
            Some(sum) => sum,
            None => {
                return None;
            },
        };
        any = true;
        assert forall|i: int| 0 <= i < next.len() implies CharClass::Digit.contains(
            #[trigger] next[i],
        ) by {
            if i < read.len() {
                assert(next[i] == read[i]);
            }
        }
    }
    assert(digits@.take(digits@.len() as int) =~= digits@);
    if any {
        Some(total)
    } else {
        None
    }
}

} // verus!
