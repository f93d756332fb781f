//! What the list grammar means: `"[" number ** "," "]"`, where a number is
//! one or more digits whose value fits in 32 bits.
use crate::engine::{
    class_run, lemma_literal_at_concat, lemma_literal_at_index, lemma_primitive_failures,
    lemma_run_end,
    lemma_run_end_unique, literal, literal_at, run_end, Repeat, Step,
};
use crate::error::Failure;
use crate::text::{ascii_before, decimal_digits, decimal_value, lemma_decimal_digits};
use crate::token::{CharClass, Expected, Literal};
use vstd::prelude::*;

verus! {

/// `number`: one or more digits. A value too large for 32 bits makes the
/// rule fail at the end of the digits.
pub open spec fn number(input: Seq<u8>, pos: int, failure: Failure) -> Step<u32> {
    let digits = class_run(input, pos, CharClass::Digit, failure);
    match digits.outcome {
        None => Step { outcome: None, failure: digits.failure },
        Some((end, _)) => {
            let value = decimal_value(input.subrange(pos, end));
            if value <= u32::MAX {
                Step { outcome: Some((end, value as u32)), failure: digits.failure }
            } else {
                Step { outcome: None, failure: digits.failure.mark(end, Expected::U32) }
            }
        },
    }
}

/// `("," number)*`: what follows the first number of a list. It stops,
/// without failing, in front of a comma that no number follows.
pub open spec fn more_numbers(input: Seq<u8>, pos: int, failure: Failure) -> Repeat<u32>
    decreases input.len() - pos,
{
    let comma = literal(input, pos, Literal::Comma, failure);
    match comma.outcome {
        None => Repeat { end: pos, values: Seq::empty(), failure: comma.failure },
        Some((after_comma, _)) => {
            let item = number(input, after_comma, comma.failure);
            match item.outcome {
                None => Repeat { end: pos, values: Seq::empty(), failure: item.failure },
                Some((after_item, value)) => {
                    proof {
                        lemma_run_end(input, after_comma, CharClass::Digit);
                    }
                    more_numbers(input, after_item, item.failure).after(seq![value])
                },
            }
        },
    }
}

/// `number ** ","`: numbers with a comma between each two; none at all
/// where no number stands at `pos`.
pub open spec fn numbers(input: Seq<u8>, pos: int, failure: Failure) -> Repeat<u32> {
    let first = number(input, pos, failure);
    match first.outcome {
        None => Repeat { end: pos, values: Seq::empty(), failure: first.failure },
        Some((after_first, value)) => more_numbers(input, after_first, first.failure).after(
            seq![value],
        ),
    }
}

/// `list`: `"["`, the numbers, `"]"`.
pub open spec fn list(input: Seq<u8>, pos: int, failure: Failure) -> Step<Seq<u32>> {
    let open = literal(input, pos, Literal::OpenBracket, failure);
    match open.outcome {
        None => Step { outcome: None, failure: open.failure },
        Some((after_open, _)) => {
            let items = numbers(input, after_open, open.failure);
            let close = literal(input, items.end, Literal::CloseBracket, items.failure);
            match close.outcome {
                None => Step { outcome: None, failure: close.failure },
                Some((end, _)) => Step { outcome: Some((end, items.values)), failure: close.failure },
            }
        },
    }
}

/// The result of parsing a whole input as a list: the numbers, or the
/// furthest failure. What follows the closing bracket is not looked at.
pub open spec fn parse_list(input: Seq<u8>) -> Result<Seq<u32>, Failure> {
    let step = list(input, 0, Failure::start());
    match step.outcome {
        Some((_, values)) => Ok(values),
        None => Err(step.failure),
    }
}

/// Each of the numbers written in base ten behind a comma.
pub open spec fn render_more(values: Seq<u32>) -> Seq<u8>
    decreases values.len(),
{
    if values.len() == 0 {
        Seq::empty()
    } else {
        seq![',' as u8] + decimal_digits(values[0] as nat) + render_more(values.drop_first())
    }
}

/// The numbers written in base ten, with a comma between each two.
pub open spec fn render_numbers(values: Seq<u32>) -> Seq<u8> {
    if values.len() == 0 {
        Seq::empty()
    } else {
        decimal_digits(values[0] as nat) + render_more(values.drop_first())
    }
}

/// The numbers written as a list: in brackets, with a comma between each
/// two.
pub open spec fn render_list(values: Seq<u32>) -> Seq<u8> {
    seq!['[' as u8] + render_numbers(values) + seq![']' as u8]
}

/// Where a number is written at `pos` and no digit follows it, `number`
/// matches it and gives its value.
pub proof fn lemma_number_written(input: Seq<u8>, pos: int, value: u32, failure: Failure)
    requires
        literal_at(input, pos, decimal_digits(value as nat)),
        pos + decimal_digits(value as nat).len() < input.len() ==> !CharClass::Digit.contains(
            input[pos + decimal_digits(value as nat).len()],
        ),
    ensures
        number(input, pos, failure).outcome == Some(
            (pos + decimal_digits(value as nat).len(), value),
        ),
{
    let digits = decimal_digits(value as nat);
    let end = pos + digits.len();
    lemma_decimal_digits(value as nat);
    assert forall|i: int| pos <= i < end implies CharClass::Digit.contains(#[trigger] input[i]) by {
        lemma_literal_at_index(input, pos, digits, i - pos);
        assert(CharClass::Digit.contains(digits[i - pos]));
    }
    lemma_run_end_unique(input, pos, CharClass::Digit, end);
}

/// Where numbers are written behind commas at `pos` and a closing bracket
/// follows them, `more_numbers` gives them all and ends at the bracket.
pub proof fn lemma_more_numbers_written(
    input: Seq<u8>,
    pos: int,
    values: Seq<u32>,
    failure: Failure,
)
    requires
        literal_at(input, pos, render_more(values) + seq![']' as u8]),
    ensures
        more_numbers(input, pos, failure).values == values,
        more_numbers(input, pos, failure).end == pos + render_more(values).len(),
    decreases values.len(),
{
    let close = seq![']' as u8];
    let comma = literal(input, pos, Literal::Comma, failure);
    lemma_literal_at_index(input, pos, render_more(values) + close, 0);
    if values.len() == 0 {
        assert(input[pos] == ']' as u8);
        if literal_at(input, pos, Literal::Comma.bytes()) {
            lemma_literal_at_index(input, pos, Literal::Comma.bytes(), 0);
        }
        assert(more_numbers(input, pos, failure).values =~= values);
    } else {
        let digits = decimal_digits(values[0] as nat);
        let rest = values.drop_first();
        let tail = render_more(rest) + close;
        lemma_decimal_digits(values[0] as nat);
        assert(render_more(values) + close =~= seq![',' as u8] + (digits + tail));
        lemma_literal_at_concat(input, pos, seq![',' as u8], digits + tail);
        lemma_literal_at_concat(input, pos + 1, digits, tail);
        let after: int = pos + 1 + digits.len();
        lemma_literal_at_index(input, after, tail, 0);
        assert(!CharClass::Digit.contains(tail[0])) by {
            if rest.len() == 0 {
                assert(tail[0] == ']' as u8);
            } else {
                assert(tail[0] == ',' as u8);
            }
        }
        assert(comma.outcome == Some((pos + 1, ())));
        lemma_number_written(input, pos + 1, values[0], comma.failure);
        let item = number(input, pos + 1, comma.failure);
        lemma_more_numbers_written(input, after, rest, item.failure);
        assert(seq![values[0]] + rest =~= values);
    }
}

/// Numbers written as a list parse to themselves, in their order and with
/// what is repeated among them: `parse_list` undoes `render_list`.
pub proof fn lemma_parse_list_round_trip(values: Seq<u32>)
    ensures
        parse_list(render_list(values)) == Ok::<Seq<u32>, Failure>(values),
{
    let input = render_list(values);
    let open = seq!['[' as u8];
    let close = seq![']' as u8];
    let start = Failure::start();
    assert(input =~= open + (render_numbers(values) + close));
    assert(input.subrange(0, input.len() as int) =~= input);
    lemma_literal_at_concat(input, 0, open, render_numbers(values) + close);
    let opened = literal(input, 0, Literal::OpenBracket, start);
    assert(opened.outcome == Some((1int, ())));
    if values.len() == 0 {
        assert(render_numbers(values) + close =~= close);
        lemma_literal_at_index(input, 1, close, 0);
        assert(!CharClass::Digit.contains(input[1]));
        assert(run_end(input, 1, CharClass::Digit) == 1);
        assert(numbers(input, 1, opened.failure).values =~= values);
    } else {
        let digits = decimal_digits(values[0] as nat);
        let rest = values.drop_first();
        let tail = render_more(rest) + close;
        lemma_decimal_digits(values[0] as nat);
        assert(render_numbers(values) + close =~= digits + tail);
        lemma_literal_at_concat(input, 1, digits, tail);
        let after: int = 1 + digits.len() as int;
        lemma_literal_at_index(input, after, tail, 0);
        assert(!CharClass::Digit.contains(tail[0])) by {
            if rest.len() == 0 {
                assert(tail[0] == ']' as u8);
            } else {
                assert(tail[0] == ',' as u8);
            }
        }
        lemma_number_written(input, 1, values[0], opened.failure);
        let first = number(input, 1, opened.failure);
        lemma_more_numbers_written(input, after, rest, first.failure);
        lemma_literal_at_concat(input, after, render_more(rest), close);
        assert(seq![values[0]] + rest =~= values);
    }
}

/// `number` keeps a failure sound, and names what it expected where it
/// fails.
pub proof fn lemma_number_failure(input: Seq<u8>, pos: int, failure: Failure)
    requires
        0 <= pos <= input.len(),
        ascii_before(input, pos),
        failure.sound(input),
    ensures
        number(input, pos, failure).failure.extends(failure, input),
        match number(input, pos, failure).outcome {
            Some((end, _)) => pos < end <= input.len() && ascii_before(input, end),
            None => number(input, pos, failure).failure.names_something(),
        },
{
    lemma_primitive_failures(input, pos, Literal::Comma, CharClass::Digit, failure);
    let digits = class_run(input, pos, CharClass::Digit, failure);
    digits.failure.lemma_mark(run_end(input, pos, CharClass::Digit), Expected::U32, input);
}

/// `more_numbers` keeps a failure sound.
pub proof fn lemma_more_numbers_failure(input: Seq<u8>, pos: int, failure: Failure)
    requires
        0 <= pos <= input.len(),
        ascii_before(input, pos),
        failure.sound(input),
    ensures
        more_numbers(input, pos, failure).failure.extends(failure, input),
        pos <= more_numbers(input, pos, failure).end <= input.len(),
        ascii_before(input, more_numbers(input, pos, failure).end),
    decreases input.len() - pos,
{
    lemma_primitive_failures(input, pos, Literal::Comma, CharClass::Digit, failure);
    let comma = literal(input, pos, Literal::Comma, failure);
    if let Some((after_comma, _)) = comma.outcome {
        lemma_number_failure(input, after_comma, comma.failure);
        let item = number(input, after_comma, comma.failure);
        if let Some((after_item, _)) = item.outcome {
            lemma_more_numbers_failure(input, after_item, item.failure);
        }
    }
}

/// A list that does not parse fails at an offset within the input, behind
/// ASCII text only, and names at least one thing that was expected there.
pub proof fn lemma_parse_list_failure(input: Seq<u8>)
    ensures
        parse_list(input) matches Err(failure) ==> 0 <= failure.position <= input.len()
            && ascii_before(input, failure.position) && failure.names_something(),
{
    let start = Failure::start();
    lemma_primitive_failures(input, 0, Literal::OpenBracket, CharClass::Digit, start);
    let open = literal(input, 0, Literal::OpenBracket, start);
    if let Some((after_open, _)) = open.outcome {
        lemma_number_failure(input, after_open, open.failure);
        let first = number(input, after_open, open.failure);
        if let Some((after_first, _)) = first.outcome {
            lemma_more_numbers_failure(input, after_first, first.failure);
        }
        let items = numbers(input, after_open, open.failure);
        lemma_primitive_failures(
            input,
            items.end,
            Literal::CloseBracket,
            CharClass::Digit,
            items.failure,
        );
    }
}

} // verus!
