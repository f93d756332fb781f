//! The furthest failure of a parse: where it happened and what was looked
//! for there.
use crate::token::{Expected, EXPECTED_KINDS};
use crate::text::{ascii_before, ascii_chars, decimal_digits, push_decimal};
use vstd::prelude::*;
use vstd::string::*;

verus! {

/// The furthest failure seen so far, as a mathematical value: an offset and
/// everything that was looked for at that offset and not found.
pub struct Failure {
    pub position: int,
    pub expected: Set<Expected>,
}

impl Failure {
    /// Nothing has failed yet.
    pub open spec fn start() -> Failure {
        Failure { position: 0, expected: Set::empty() }
    }

    /// Records that `what` was not found at `position`. A failure further
    /// on replaces what was known, one at the same offset adds to it, an
    /// earlier one is forgotten.
    pub open spec fn mark(self, position: int, what: Expected) -> Failure {
        if position > self.position {
            Failure { position, expected: Set::empty().insert(what) }
        } else if position == self.position {
            Failure { position, expected: self.expected.insert(what) }
        } else {
            self
        }
    }

    /// Whether anything is named as expected.
    pub open spec fn names_something(self) -> bool {
        exists|what: Expected| self.expected.contains(what)
    }

    /// Whether the failure can be met while `input` is parsed from its
    /// start: its offset lies within the input and behind ASCII text only,
    /// and it names what was expected unless nothing has failed yet.
    pub open spec fn sound(self, input: Seq<u8>) -> bool {
        &&& 0 <= self.position <= input.len()
        &&& ascii_before(input, self.position)
        &&& self.position > 0 ==> self.names_something()
    }

    /// Whether the failure can be met later than `earlier` in one parse.
    pub open spec fn extends(self, earlier: Failure, input: Seq<u8>) -> bool {
        &&& self.sound(input)
        &&& earlier.names_something() ==> self.names_something()
    }

    /// After a failure was recorded at an offset that a parse can reach,
    /// something is named as expected.
    pub proof fn lemma_mark(self, position: int, what: Expected, input: Seq<u8>)
        requires
            self.sound(input),
            0 <= position <= input.len(),
            ascii_before(input, position),
        ensures
            self.mark(position, what).extends(self, input),
            self.mark(position, what).names_something(),
    {
        let marked = self.mark(position, what);
        if position >= self.position {
            assert(marked.expected.contains(what));
        }
    }
}

/// A set of [`Expected`] values.
#[derive(Clone, Copy, Debug, PartialEq, Eq)]
pub struct ExpectedSet {
    flags: [bool; EXPECTED_KINDS],
}

impl View for ExpectedSet {
    type V = Set<Expected>;

    closed spec fn view(&self) -> Set<Expected> {
        Set::new(|e: Expected| self.flags@[e.rank()])
    }
}

impl ExpectedSet {
    /// The empty set.
    pub fn empty() -> (r: ExpectedSet)
        ensures
            r@ == Set::<Expected>::empty(),
    {
        let r = ExpectedSet {
            flags: [false, false, false, false, false, false, false, false, false, false, false, false],
        };
        proof {
            Expected::lemma_rank_bijective();
            assert(r@ =~= Set::<Expected>::empty());
        }
        r
    }

    /// Adds a value to the set.
    pub fn insert(&mut self, what: Expected)
        ensures
            final(self)@ == old(self)@.insert(what),
    {
        let i = what.index();
        self.flags[i] = true;
        proof {
            Expected::lemma_rank_bijective();
            assert(self@ =~= old(self)@.insert(what));
        }
    }

    /// Whether the value is in the set.
    pub fn contains(&self, what: Expected) -> (r: bool)
        ensures
            r == self@.contains(what),
    {
        self.flags[what.index()]
    }

    /// The members of the set, in the order of their labels.
    pub fn tokens(&self) -> (r: Vec<Expected>)
        ensures
            r@ == ranked(self@, EXPECTED_KINDS as int),
    {
        let mut out: Vec<Expected> = Vec::new();
        let mut i: usize = 0;
        while i < EXPECTED_KINDS
            invariant
                i <= EXPECTED_KINDS,
                out@ == ranked(self@, i as int),
            decreases EXPECTED_KINDS - i,
        {
            let e = Expected::from_index(i);
            proof {
                Expected::lemma_rank_bijective();
            }
            if self.flags[i] {
                out.push(e);
            }
            i = i + 1;
        }
        out
    }

    /// The set in words.
    pub fn description(&self) -> (r: String)
        ensures
            r@ == description(self@),
    {
        let members = self.tokens();
        if members.len() == 0 {
            return String::from_str("<unreported>");
        }
        if members.len() == 1 {
            return String::from_str(members[0].describe());
        }
        let mut out = String::from_str("one of ");
        let mut i: usize = 0;
        while i < members.len()
            invariant
                i <= members.len(),
                out@ == "one of "@ + joined(members@.subrange(0, i as int)),
            decreases members.len() - i,
        {
            let ghost before = members@.subrange(0, i as int);
            let ghost now = members@.subrange(0, i + 1);
            proof {
                assert(now.drop_last() =~= before);
                assert(now.last() == members@[i as int]);
            }
            if i > 0 {
                out.append(", ");
            }
            out.append(members[i].describe());
            proof {
                if i > 0 {
                    assert(out@ =~= "one of "@ + (joined(before) + ", "@ + now.last().label()));
                } else {
                    assert(out@ =~= "one of "@ + now.last().label());
                }
            }
            i = i + 1;
        }
        proof {
            assert(members@.subrange(0, members@.len() as int) =~= members@);
        }
        out
    }
}

/// The members of `set` whose rank is below `bound`, in the order of their
/// labels.
pub open spec fn ranked(set: Set<Expected>, bound: int) -> Seq<Expected>
    decreases bound,
{
    if bound <= 0 {
        Seq::empty()
    } else if set.contains(Expected::of_rank(bound - 1)) {
        ranked(set, bound - 1).push(Expected::of_rank(bound - 1))
    } else {
        ranked(set, bound - 1)
    }
}

/// The labels of the values, with `", "` between each two.
pub open spec fn joined(values: Seq<Expected>) -> Seq<char>
    decreases values.len(),
{
    if values.len() == 0 {
        Seq::empty()
    } else if values.len() == 1 {
        values[0].label()
    } else {
        joined(values.drop_last()) + ", "@ + values.last().label()
    }
}

/// A set of expected values in words: the label of its only member, or
/// `one of` and the labels of its members in their order.
pub open spec fn description(set: Set<Expected>) -> Seq<char> {
    let members = ranked(set, EXPECTED_KINDS as int);
    if members.len() == 0 {
        "<unreported>"@
    } else if members.len() == 1 {
        members[0].label()
    } else {
        "one of "@ + joined(members)
    }
}

/// A failure in words: its offset and what was expected there.
pub open spec fn message(failure: Failure) -> Seq<char> {
    "error at "@ + ascii_chars(decimal_digits(failure.position as nat)) + ": expected "@
        + description(failure.expected)
}

/// Why a parse failed: the offset of the furthest failure, in bytes from
/// the start of the input, and what was looked for there.
#[derive(Clone, Copy, Debug, PartialEq, Eq)]
pub struct ParseError {
    pub position: usize,
    pub expected: ExpectedSet,
}

impl View for ParseError {
    type V = Failure;

    open spec fn view(&self) -> Failure {
        Failure { position: self.position as int, expected: self.expected@ }
    }
}

impl ParseError {
    /// The error in words: `error at`, the offset, `: expected`, and what
    /// was expected.
    pub fn message(&self) -> (r: String)
        ensures
            r@ == message(self@),
    {
        let mut out = String::from_str("error at ");
        push_decimal(&mut out, self.position);
        out.append(": expected ");
        let expected = self.expected.description();
        out.append(expected.as_str());
        out
    }
}

/// The furthest failure seen while a parse runs.
pub struct ErrorState {
    position: usize,
    expected: ExpectedSet,
}

impl View for ErrorState {
    type V = Failure;

    closed spec fn view(&self) -> Failure {
        Failure { position: self.position as int, expected: self.expected@ }
    }
}

impl ErrorState {
    /// The state before anything has failed.
    pub fn new() -> (r: ErrorState)
        ensures
            r@ == Failure::start(),
    {
        ErrorState { position: 0, expected: ExpectedSet::empty() }
    }

    /// Records that `what` was not found at `position`.
    pub fn mark_failure(&mut self, position: usize, what: Expected)
        ensures
            final(self)@ == old(self)@.mark(position as int, what),
    {
        if position > self.position {
            self.position = position;
            self.expected = ExpectedSet::empty();
            self.expected.insert(what);
        } else if position == self.position {
            self.expected.insert(what);
        }
    }

    /// The error of a parse that failed in this state.
    pub fn into_error(self) -> (r: ParseError)
        ensures
            r@ == self@,
    {
        ParseError { position: self.position, expected: self.expected }
    }
}

} // verus!
