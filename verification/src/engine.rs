//! The primitives every rule is built from: matching a fixed token and
//! matching characters of a class, each at a byte offset of the input.
use crate::error::{ErrorState, Failure};
use crate::text::ascii_before;
use crate::token::{CharClass, Expected, Literal};
use vstd::prelude::*;
use vstd::string::*;

verus! {

/// What a rule did at an offset: the value it produced with the offset
/// behind what it consumed, or nothing; and the furthest failure after it.
pub struct Step<T> {
    pub outcome: Option<(int, T)>,
    pub failure: Failure,
}

/// What a repetition did: it always matches, so there is always an offset
/// behind it and a sequence of values, which may be empty.
pub struct Repeat<T> {
    pub end: int,
    pub values: Seq<T>,
    pub failure: Failure,
}

impl<T> Repeat<T> {
    /// The same repetition with `first` put before its values.
    pub open spec fn after(self, first: Seq<T>) -> Repeat<T> {
        Repeat { end: self.end, values: first + self.values, failure: self.failure }
    }

    /// The repetition as the step of a rule that matched.
    pub open spec fn matched(self) -> Step<Seq<T>> {
        Step { outcome: Some((self.end, self.values)), failure: self.failure }
    }
}

/// What a repetition without values did: the offset behind it.
pub struct Skip {
    pub end: int,
    pub failure: Failure,
}

/// The result of a rule in executable code.
#[derive(Debug)]
pub enum RuleResult<T> {
    /// The rule matched and consumed the input up to the offset.
    Matched(usize, T),
    /// The rule did not match; no input is consumed.
    Failed,
}

impl<T: DeepView> View for RuleResult<T> {
    type V = Option<(int, T::V)>;

    open spec fn view(&self) -> Option<(int, T::V)> {
        match self {
            RuleResult::Matched(end, value) => Some((*end as int, value.deep_view())),
            RuleResult::Failed => None,
        }
    }
}

/// Whether `literal` stands in `input` at `pos`.
pub open spec fn literal_at(input: Seq<u8>, pos: int, literal: Seq<u8>) -> bool {
    &&& 0 <= pos
    &&& pos + literal.len() <= input.len()
    &&& input.subrange(pos, pos + literal.len()) == literal
}

/// Matching a fixed token: consumes it where it stands at `pos`, and else
/// fails and records the token as expected at `pos`.
pub open spec fn literal(input: Seq<u8>, pos: int, token: Literal, failure: Failure) -> Step<()> {
    if literal_at(input, pos, token.bytes()) {
        Step { outcome: Some((pos + token.bytes().len(), ())), failure }
    } else {
        Step { outcome: None, failure: failure.mark(pos, Expected::Literal(token)) }
    }
}

/// The offset behind the longest run of characters of `class` that starts
/// at `pos`.
pub open spec fn run_end(input: Seq<u8>, pos: int, class: CharClass) -> int
    decreases input.len() - pos,
{
    if 0 <= pos < input.len() && class.contains(input[pos]) {
        run_end(input, pos + 1, class)
    } else {
        pos
    }
}

/// Matching one or more characters of a class. The run always ends at a
/// character outside the class or at the end of the input, which is
/// recorded as a failure there; the match fails if the run is empty.
pub open spec fn class_run(input: Seq<u8>, pos: int, class: CharClass, failure: Failure) -> Step<
    (),
> {
    let end = run_end(input, pos, class);
    Step {
        outcome: if end > pos {
            Some((end, ()))
        } else {
            None
        },
        failure: failure.mark(end, Expected::Class(class)),
    }
}

/// Matching exactly one character of a class.
pub open spec fn class_one(input: Seq<u8>, pos: int, class: CharClass, failure: Failure) -> Step<
    (),
> {
    if 0 <= pos < input.len() && class.contains(input[pos]) {
        Step { outcome: Some((pos + 1, ())), failure }
    } else {
        Step { outcome: None, failure: failure.mark(pos, Expected::Class(class)) }
    }
}

/// A run lies within the input, holds only characters of the class, and
/// cannot be made longer.
pub proof fn lemma_run_end(input: Seq<u8>, pos: int, class: CharClass)
    requires
        0 <= pos <= input.len(),
    ensures
        pos <= run_end(input, pos, class) <= input.len(),
        forall|i: int| pos <= i < run_end(input, pos, class) ==> class.contains(#[trigger] input[i]),
        run_end(input, pos, class) < input.len() ==> !class.contains(
            input[run_end(input, pos, class)],
        ),
    decreases input.len() - pos,
{
    if pos < input.len() && class.contains(input[pos]) {
        lemma_run_end(input, pos + 1, class);
    }
}

/// The end of a run is the only offset with the properties of
/// [`lemma_run_end`].
pub proof fn lemma_run_end_unique(input: Seq<u8>, pos: int, class: CharClass, end: int)
    requires
        0 <= pos <= end <= input.len(),
        forall|i: int| pos <= i < end ==> class.contains(#[trigger] input[i]),
        end < input.len() ==> !class.contains(input[end]),
    ensures
        run_end(input, pos, class) == end,
    decreases end - pos,
{
    if pos < end {
        assert(class.contains(input[pos]));
        lemma_run_end_unique(input, pos + 1, class, end);
    }
}

/// A text stands at `pos` exactly if its first part stands there and the
/// rest stands behind that.
pub proof fn lemma_literal_at_concat(input: Seq<u8>, pos: int, first: Seq<u8>, rest: Seq<u8>)
    ensures
        literal_at(input, pos, first + rest) <==> literal_at(input, pos, first) && literal_at(
            input,
            pos + first.len(),
            rest,
        ),
{
    let whole = first + rest;
    if literal_at(input, pos, whole) {
        assert(input.subrange(pos, pos + first.len()) =~= whole.subrange(0, first.len() as int));
        assert(whole.subrange(0, first.len() as int) =~= first);
        assert(input.subrange(pos + first.len(), pos + first.len() + rest.len())
            =~= whole.subrange(first.len() as int, whole.len() as int));
        assert(whole.subrange(first.len() as int, whole.len() as int) =~= rest);
    }
    if literal_at(input, pos, first) && literal_at(input, pos + first.len(), rest) {
        assert(input.subrange(pos, pos + whole.len()) =~= input.subrange(pos, pos + first.len())
            + input.subrange(pos + first.len(), pos + first.len() + rest.len()));
    }
}

/// Where a text stands at `pos`, the input holds its characters.
pub proof fn lemma_literal_at_index(input: Seq<u8>, pos: int, text: Seq<u8>, i: int)
    requires
        literal_at(input, pos, text),
        0 <= i < text.len(),
    ensures
        input[pos + i] == text[i],
{
    assert(input.subrange(pos, pos + text.len())[i] == input[pos + i]);
}

/// A text does not stand where the input ends or holds another first
/// character.
pub proof fn lemma_literal_at_mismatch(input: Seq<u8>, pos: int, text: Seq<u8>)
    requires
        text.len() > 0,
        0 <= pos,
        pos >= input.len() || input[pos] != text[0],
    ensures
        !literal_at(input, pos, text),
{
    if literal_at(input, pos, text) {
        lemma_literal_at_index(input, pos, text, 0);
    }
}

/// Where a text of characters of a class stands at `pos` and no character
/// of the class follows it, the run at `pos` is that text.
pub proof fn lemma_run_written(input: Seq<u8>, pos: int, text: Seq<u8>, class: CharClass)
    requires
        literal_at(input, pos, text),
        forall|i: int| 0 <= i < text.len() ==> class.contains(#[trigger] text[i]),
        pos + text.len() < input.len() ==> !class.contains(input[pos + text.len()]),
    ensures
        run_end(input, pos, class) == pos + text.len(),
{
    assert forall|i: int| pos <= i < pos + text.len() implies class.contains(
        #[trigger] input[i],
    ) by {
        lemma_literal_at_index(input, pos, text, i - pos);
        assert(class.contains(text[i - pos]));
    }
    lemma_run_end_unique(input, pos, class, pos + text.len());
}

/// A primitive that fails names what it expected; none of the three lets
/// a failure leave the text that a parse can reach, and what one of them
/// matches is ASCII text.
pub proof fn lemma_primitive_failures(
    input: Seq<u8>,
    pos: int,
    token: Literal,
    class: CharClass,
    failure: Failure,
)
    requires
        0 <= pos <= input.len(),
        ascii_before(input, pos),
        failure.sound(input),
    ensures
        literal(input, pos, token, failure).failure.extends(failure, input),
        match literal(input, pos, token, failure).outcome {
            Some((end, _)) => pos <= end <= input.len() && ascii_before(input, end),
            None => literal(input, pos, token, failure).failure.names_something(),
        },
        class_run(input, pos, class, failure).failure.extends(failure, input),
        class_run(input, pos, class, failure).failure.names_something(),
        pos <= run_end(input, pos, class) <= input.len(),
        ascii_before(input, run_end(input, pos, class)),
        class_one(input, pos, class, failure).failure.extends(failure, input),
        match class_one(input, pos, class, failure).outcome {
            Some((end, _)) => pos <= end <= input.len() && ascii_before(input, end),
            None => class_one(input, pos, class, failure).failure.names_something(),
        },
{
    lemma_run_end(input, pos, class);
    let run = run_end(input, pos, class);
    assert forall|i: int| 0 <= i < run implies #[trigger] input[i] < 0x80 by {
        if i >= pos {
            class.lemma_members_are_ascii(input[i]);
        }
    }
    failure.lemma_mark(pos, Expected::Literal(token), input);
    failure.lemma_mark(pos, Expected::Class(class), input);
    failure.lemma_mark(run, Expected::Class(class), input);
    if let Some((end, _)) = literal(input, pos, token, failure).outcome {
        token.lemma_bytes_are_ascii();
        assert forall|i: int| 0 <= i < end implies #[trigger] input[i] < 0x80 by {
            if i >= pos {
                lemma_literal_at_index(input, pos, token.bytes(), i - pos);
            }
        }
    }
    if let Some((end, _)) = class_one(input, pos, class, failure).outcome {
        class.lemma_members_are_ascii(input[pos]);
    }
}

/// Matches a fixed token at `pos`.
pub fn match_literal(input: &[u8], pos: usize, token: Literal, err: &mut ErrorState) -> (r:
    RuleResult<()>)
    requires
        pos <= input@.len(),
    ensures
        r@ == literal(input@, pos as int, token, old(err)@).outcome,
        final(err)@ == literal(input@, pos as int, token, old(err)@).failure,
{
    let text = token.text().as_bytes();
    let n = text.len();
    let mut same = n <= input.len() - pos;
    let mut i: usize = 0;
    while same && i < n
        invariant
            pos <= input@.len() <= usize::MAX,
            n == text@.len(),
            i <= n,
            same ==> pos + n <= input@.len(),
            same ==> forall|k: int| 0 <= k < i ==> input@[pos + k] == text@[k],
            !same ==> !literal_at(input@, pos as int, text@),
        decreases n - i,
    {
        if input[pos + i] != text[i] {
            same = false;
            proof {
                if literal_at(input@, pos as int, text@) {
                    assert(input@.subrange(pos as int, pos + n)[i as int] == text@[i as int]);
                }
            }
        }
        i = i + 1;
    }
    if same {
        proof {
            assert(input@.subrange(pos as int, pos + n) =~= text@);
        }
        RuleResult::Matched(pos + n, ())
    } else {
        err.mark_failure(pos, Expected::Literal(token));
        RuleResult::Failed
    }
}

/// The offset behind the longest run of characters of `class` that starts
/// at `pos`. Nothing is recorded as a failure.
pub fn scan_run(input: &[u8], pos: usize, class: CharClass) -> (end: usize)
    requires
        pos <= input@.len(),
    ensures
        end == run_end(input@, pos as int, class),
        pos <= end <= input@.len(),
{
    let mut end = pos;
    while end < input.len() && class.matches(input[end])
        invariant
            pos <= end <= input@.len(),
            run_end(input@, pos as int, class) == run_end(input@, end as int, class),
        decreases input@.len() - end,
    {
        end = end + 1;
    }
    end
}

/// Matches one or more characters of a class at `pos`.
pub fn match_class_run(input: &[u8], pos: usize, class: CharClass, err: &mut ErrorState) -> (r:
    RuleResult<()>)
    requires
        pos <= input@.len(),
    ensures
        r@ == class_run(input@, pos as int, class, old(err)@).outcome,
        final(err)@ == class_run(input@, pos as int, class, old(err)@).failure,
{
    let end = scan_run(input, pos, class);
    err.mark_failure(end, Expected::Class(class));
    if end > pos {
        RuleResult::Matched(end, ())
    } else {
        RuleResult::Failed
    }
}

/// Matches exactly one character of a class at `pos`.
pub fn match_class_one(input: &[u8], pos: usize, class: CharClass, err: &mut ErrorState) -> (r:
    RuleResult<()>)
    requires
        pos <= input@.len(),
    ensures
        r@ == class_one(input@, pos as int, class, old(err)@).outcome,
        final(err)@ == class_one(input@, pos as int, class, old(err)@).failure,
{
    if pos < input.len() && class.matches(input[pos]) {
        RuleResult::Matched(pos + 1, ())
    } else {
        err.mark_failure(pos, Expected::Class(class));
        RuleResult::Failed
    }
}

} // verus!
