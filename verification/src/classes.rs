//! The classes of characters that the scanners tell apart, and runs of them.

use vstd::prelude::*;

verus! {

/// The sets of characters that the scanners tell apart. All of them are sets of
/// ASCII characters, except `LineText`, which is the complement of one.
#[derive(Clone, Copy, Debug, PartialEq, Eq, Structural)]
pub enum CharClass {
    /// `0` to `9`.
    Digit,
    /// The `.` between the two numbers of a plan.
    Dot,
    /// The ASCII letters and the space: what a status token is made of.
    StatusWord,
    /// The digits, `-` and the space: a test number and what parts it from the
    /// description.
    NumberPrefix,
    /// Space, tab, line feed and carriage return.
    Whitespace,
    /// Every character but line feed and carriage return.
    LineText,
}

impl CharClass {
    /// Whether `c` belongs to the class.
    pub open spec fn contains(self, c: char) -> bool {
        match self {
            CharClass::Digit => '0' <= c && c <= '9',
            CharClass::Dot => c == '.',
            CharClass::StatusWord => ('a' <= c && c <= 'z') || ('A' <= c && c <= 'Z') || c == ' ',
            CharClass::NumberPrefix => ('0' <= c && c <= '9') || c == '-' || c == ' ',
            CharClass::Whitespace => c == ' ' || c == '\t' || c == '\n' || c == '\r',
            CharClass::LineText => c != '\n' && c != '\r',
        }
    }

    /// Tests whether `c` belongs to the class.
    pub fn matches(&self, c: char) -> (found: bool)
        ensures
            found == self.contains(c),
    {
        match self {
            CharClass::Digit => '0' <= c && c <= '9',
            CharClass::Dot => c == '.',
            CharClass::StatusWord => ('a' <= c && c <= 'z') || ('A' <= c && c <= 'Z') || c == ' ',
            CharClass::NumberPrefix => ('0' <= c && c <= '9') || c == '-' || c == ' ',
            CharClass::Whitespace => c == ' ' || c == '\t' || c == '\n' || c == '\r',
            CharClass::LineText => c != '\n' && c != '\r',
        }
    }
}

/// Whether every character of `s` belongs to `class`.
pub open spec fn all_in(s: Seq<char>, class: CharClass) -> bool {
    forall|i: int| 0 <= i < s.len() ==> class.contains(#[trigger] s[i])
}

/// The length of the longest prefix of `s` whose characters all belong to
/// `class`.
pub open spec fn run_len(s: Seq<char>, class: CharClass) -> nat
    decreases s.len(),
{
    if s.len() > 0 && class.contains(s[0]) {
        1 + run_len(s.drop_first(), class)
    } else {
        0
    }
}

/// A run is a prefix, its characters belong to the class, and the character
/// after it, if there is one, does not.
pub proof fn lemma_run_len_bound(s: Seq<char>, class: CharClass)
    ensures
        run_len(s, class) <= s.len(),
        forall|i: int| 0 <= i < run_len(s, class) ==> class.contains(#[trigger] s[i]),
        run_len(s, class) < s.len() ==> !class.contains(s[run_len(s, class) as int]),
    decreases s.len(),
{
    if s.len() > 0 && class.contains(s[0]) {
        let tail = s.drop_first();
        lemma_run_len_bound(tail, class);
        assert forall|i: int| 0 <= i < run_len(s, class) implies class.contains(
            #[trigger] s[i],
        ) by {
            if i > 0 {
                assert(s[i] == tail[i - 1]);
            }
        }
        if run_len(s, class) < s.len() {
            assert(s[run_len(s, class) as int] == tail[run_len(tail, class) as int]);
        }
    }
}

/// The run is the only prefix that is in the class throughout and cannot be
/// made longer.
pub proof fn lemma_run_len_is(s: Seq<char>, class: CharClass, n: nat)
    requires
        n <= s.len(),
        forall|i: int| 0 <= i < n ==> class.contains(#[trigger] s[i]),
        n < s.len() ==> !class.contains(s[n as int]),
    ensures
        run_len(s, class) == n,
    decreases n,
{
    if n > 0 {
        let tail = s.drop_first();
        assert(class.contains(s[0]));
        assert forall|i: int| 0 <= i < n - 1 implies class.contains(#[trigger] tail[i]) by {
            assert(tail[i] == s[i + 1]);
        }
        if n - 1 < tail.len() {
            assert(tail[n - 1] == s[n as int]);
        }
        lemma_run_len_is(tail, class, (n - 1) as nat);
    }
}

/// A prefix of `s` that lies in the class throughout, and that the next
/// character of `s` does not continue, is the run of the class in `s`.
pub proof fn lemma_prefix_is_run(s: Seq<char>, class: CharClass, prefix: Seq<char>)
    requires
        prefix.len() <= s.len(),
        prefix == s.take(prefix.len() as int),
        forall|i: int| 0 <= i < prefix.len() ==> class.contains(#[trigger] prefix[i]),
        prefix.len() < s.len() ==> !class.contains(s[prefix.len() as int]),
    ensures
        run_len(s, class) == prefix.len(),
        prefix == s.take(run_len(s, class) as int),
{
    assert forall|i: int| 0 <= i < prefix.len() implies class.contains(#[trigger] s[i]) by {
        assert(s[i] == prefix[i]);
    }
    lemma_run_len_is(s, class, prefix.len());
}

/// Where `head` lies in the class throughout and `tail` does not begin with a
/// character of the class, the run of the class in `head + tail` is `head`.
pub proof fn lemma_run_of_parts(head: Seq<char>, tail: Seq<char>, class: CharClass)
    requires
        all_in(head, class),
        tail.len() > 0 ==> !class.contains(tail[0]),
    ensures
        run_len(head + tail, class) == head.len(),
        (head + tail).take(head.len() as int) == head,
        (head + tail).skip(head.len() as int) == tail,
{
    let s = head + tail;
    assert(s.take(head.len() as int) =~= head);
    assert(s.skip(head.len() as int) =~= tail);
    if tail.len() > 0 {
        assert(s[head.len() as int] == tail[0]);
    }
    lemma_prefix_is_run(s, class, head);
}

/// The run of a class in `a + b` is its run in `a` where that ends before the
/// end of `a`, and otherwise the whole of `a` and the run in `b`.
pub proof fn lemma_run_len_concat(a: Seq<char>, b: Seq<char>, class: CharClass)
    ensures
        run_len(a + b, class) == if run_len(a, class) < a.len() {
            run_len(a, class)
        } else {
            a.len() + run_len(b, class)
        },
{
    let s = a + b;
    lemma_run_len_bound(a, class);
    lemma_run_len_bound(b, class);
    if run_len(a, class) < a.len() {
        let n = run_len(a, class);
        assert(s[n as int] == a[n as int]);
        assert forall|i: int| 0 <= i < n implies class.contains(#[trigger] s[i]) by {
            assert(s[i] == a[i]);
        }
        lemma_run_len_is(s, class, n);
    } else {
        let n = a.len() + run_len(b, class);
        assert forall|i: int| 0 <= i < n implies class.contains(#[trigger] s[i]) by {
            if i < a.len() {
                assert(s[i] == a[i]);
            } else {
                assert(s[i] == b[i - a.len()]);
            }
        }
        if n < s.len() {
            assert(s[n as int] == b[n - a.len()]);
        }
        lemma_run_len_is(s, class, n);
    }
}

/// Text that does not begin with a character of the class, put behind `a`,
/// leaves the run of the class in `a` as it is.
pub proof fn lemma_run_len_stops_at(a: Seq<char>, b: Seq<char>, class: CharClass)
    requires
        b.len() > 0 ==> !class.contains(b[0]),
    ensures
        run_len(a + b, class) == run_len(a, class),
{
    lemma_run_len_concat(a, b, class);
    lemma_run_len_bound(a, class);
}

} // verus!
