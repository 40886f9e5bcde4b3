//! Why a parse is given up.

use vstd::prelude::*;

verus! {

/// The failure that aborts a parse.
///
/// Reading a character at the end of the input is not among the variants: the
/// two cursor reads demand a character under the cursor, and the verifier holds
/// every call site in the scanners to that demand, so the condition cannot arise
/// while a report is parsed. A status token other than `ok ` and `not ok ` is no
/// failure either: such a line counts as passed.
#[derive(Clone, Copy, Debug, PartialEq, Eq, Structural)]
pub enum ParseError {
    /// The second run of digits of the plan is empty, or the number it spells
    /// does not fit in a `usize`.
    MalformedPlan,
}

} // verus!
