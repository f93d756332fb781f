//! The parser of the list grammar.
use crate::engine::{lemma_run_end, match_class_run, match_literal, Repeat, RuleResult};
use crate::error::{ErrorState, ParseError};
use crate::list_grammar;
use crate::text::{decimal, lemma_ascii_prefix_boundary};
use crate::token::{CharClass, Expected, Literal};
use vstd::prelude::*;
use vstd::string::*;
use vstd::utf8::*;

verus! {

/// Matches a number at `pos`.
pub fn number(input: &[u8], pos: usize, err: &mut ErrorState) -> (r: RuleResult<u32>)
    requires
        pos <= input@.len(),
    ensures
        r@ == list_grammar::number(input@, pos as int, old(err)@).outcome,
        final(err)@ == list_grammar::number(input@, pos as int, old(err)@).failure,
        r matches RuleResult::Matched(end, _) ==> pos < end <= input@.len(),
{
    match match_class_run(input, pos, CharClass::Digit, err) {
        RuleResult::Failed => RuleResult::Failed,
        RuleResult::Matched(end, _) => {
            proof {
                lemma_run_end(input@, pos as int, CharClass::Digit);
            }
            match decimal(input, pos, end) {
                Some(value) => RuleResult::Matched(end, value),
                None => {
                    err.mark_failure(end, Expected::U32);
                    RuleResult::Failed
                },
            }
        },
    }
}

/// Matches numbers separated by commas at `pos`: as many as there are.
pub fn numbers(input: &[u8], pos: usize, err: &mut ErrorState) -> (r: (usize, Vec<u32>))
    requires
        pos <= input@.len(),
    ensures
        r.0 == list_grammar::numbers(input@, pos as int, old(err)@).end,
        r.1@ == list_grammar::numbers(input@, pos as int, old(err)@).values,
        final(err)@ == list_grammar::numbers(input@, pos as int, old(err)@).failure,
        pos <= r.0 <= input@.len(),
{
    let ghost whole = list_grammar::numbers(input@, pos as int, err@);
    let mut values: Vec<u32> = Vec::new();
    let mut end = pos;
    match number(input, pos, err) {
        RuleResult::Failed => {
            return (end, values);
        },
        RuleResult::Matched(after, value) => {
            values.push(value);
            end = after;
        },
    }
    assert(values@ + Seq::<u32>::empty() =~= values@);
    loop
        invariant_except_break
            whole == list_grammar::more_numbers(input@, end as int, err@).after(values@),
        invariant
            pos <= end <= input@.len(),
        ensures
            pos <= end <= input@.len(),
            whole == (Repeat { end: end as int, values: values@, failure: err@ }),
        decreases input@.len() - end,
    {
        let ghost before = values@;
        let after_comma = match match_literal(input, end, Literal::Comma, err) {
            RuleResult::Failed => {
                assert(values@ + Seq::<u32>::empty() =~= values@);
                break ;
            },
            RuleResult::Matched(after, _) => after,
        };
        match number(input, after_comma, err) {
            RuleResult::Failed => {
                assert(values@ + Seq::<u32>::empty() =~= values@);
                break ;
            },
            RuleResult::Matched(after, value) => {
                values.push(value);
                end = after;
                proof {
                    let rest = list_grammar::more_numbers(input@, end as int, err@);
                    assert(before + (seq![value] + rest.values) =~= values@ + rest.values);
                }
            },
        }
    }
    (end, values)
}

/// Matches a list at `pos`.
pub fn list(input: &[u8], pos: usize, err: &mut ErrorState) -> (r: RuleResult<Vec<u32>>)
    requires
        pos <= input@.len(),
    ensures
        r@ == list_grammar::list(input@, pos as int, old(err)@).outcome,
        final(err)@ == list_grammar::list(input@, pos as int, old(err)@).failure,
{
    let after_open = match match_literal(input, pos, Literal::OpenBracket, err) {
        RuleResult::Failed => {
            return RuleResult::Failed;
        },
        RuleResult::Matched(after, _) => after,
    };
    let (after_items, values) = numbers(input, after_open, err);
    match match_literal(input, after_items, Literal::CloseBracket, err) {
        RuleResult::Failed => RuleResult::Failed,
        RuleResult::Matched(end, _) => RuleResult::Matched(end, values),
    }
}

/// Parses a bracketed list of unsigned integers, such as `[1,2,3]`. What
/// follows the closing bracket is not looked at.
pub fn parse_list(input: &str) -> (r: Result<Vec<u32>, ParseError>)
    ensures
        match r {
            Ok(values) => list_grammar::parse_list(input.spec_bytes()) == Ok::<
                Seq<u32>,
                crate::error::Failure,
            >(values@),
            Err(e) => list_grammar::parse_list(input.spec_bytes()) == Err::<
                Seq<u32>,
                crate::error::Failure,
            >(e@),
        },
        r matches Err(e) ==> e@.names_something() && is_char_boundary(
            input.spec_bytes(),
            e.position as int,
        ),
{
    proof {
        let bytes = input.spec_bytes();
        list_grammar::lemma_parse_list_failure(bytes);
        if let Err(failure) = list_grammar::parse_list(bytes) {
            encode_utf8_valid_utf8(input@);
            lemma_ascii_prefix_boundary(bytes, failure.position);
        }
    }
    let mut err = ErrorState::new();
    match list(input.as_bytes(), 0, &mut err) {
        RuleResult::Matched(_, values) => {
            assert(values.deep_view() =~= values@);
            Ok(values)
        },
        RuleResult::Failed => Err(err.into_error()),
    }
}

} // verus!
