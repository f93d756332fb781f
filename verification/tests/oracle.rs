use mini_sql_parser::engine::{match_class_one, match_literal, RuleResult};
use mini_sql_parser::error::ErrorState;
use mini_sql_parser::token::{CharClass, Expected, Literal};
use peg::{ParseElem, ParseLiteral};

const INPUTS: [&str; 8] = [
    "",
    "SELECT x as y FROM t",
    "SELEC",
    "[1,22,333]",
    "as,FROM]SELECT[FROMas",
    "a_Z*09 \n\t,",
    "SELECT caf\u{e9} FROM t\u{4e2d}",
    "select x\tfrom t",
];

const LITERALS: [Literal; 6] = [
    Literal::OpenBracket,
    Literal::CloseBracket,
    Literal::Comma,
    Literal::Select,
    Literal::From,
    Literal::As,
];

const CLASSES: [CharClass; 4] =
    [CharClass::Digit, CharClass::Letter, CharClass::Star, CharClass::Space];

fn in_class(class: CharClass, c: char) -> bool {
    match class {
        CharClass::Digit => matches!(c, '0'..='9'),
        CharClass::Letter => matches!(c, 'a'..='z' | 'A'..='Z' | '_'),
        CharClass::Star => matches!(c, '*'),
        CharClass::Space => matches!(c, ' ' | '\n' | '\t'),
    }
}

#[test]
fn literals_match_where_the_runtime_of_peg_matches_them() {
    for input in INPUTS {
        for pos in 0..=input.len() {
            for token in LITERALS {
                let mut err = ErrorState::new();
                let ours = match match_literal(input.as_bytes(), pos, token, &mut err) {
                    RuleResult::Matched(end, ()) => Some(end),
                    RuleResult::Failed => None,
                };
                let theirs = match input.parse_string_literal(pos, token.text()) {
                    peg::RuleResult::Matched(end, ()) => Some(end),
                    peg::RuleResult::Failed => None,
                };
                assert_eq!(ours, theirs, "{:?} at {} of {:?}", token, pos, input);
            }
        }
    }
}

#[test]
fn classes_match_where_the_runtime_of_peg_reads_a_member() {
    for input in INPUTS {
        for pos in 0..=input.len() {
            if !input.is_char_boundary(pos) {
                continue;
            }
            for class in CLASSES {
                let mut err = ErrorState::new();
                let ours = match match_class_one(input.as_bytes(), pos, class, &mut err) {
                    RuleResult::Matched(end, ()) => Some(end),
                    RuleResult::Failed => None,
                };
                let theirs = match input.parse_elem(pos) {
                    peg::RuleResult::Matched(end, c) if in_class(class, c) => Some(end),
                    _ => None,
                };
                assert_eq!(ours, theirs, "{:?} at {} of {:?}", class, pos, input);
            }
        }
    }
}

fn both_ways(events: &[(usize, Expected)]) {
    let mut ours = ErrorState::new();
    for (pos, what) in events {
        ours.mark_failure(*pos, *what);
    }
    let ours = ours.into_error();

    let mut theirs = peg::error::ErrorState::new(0);
    for (pos, what) in events {
        theirs.mark_failure(*pos, what.describe());
    }
    theirs.reparse_for_error();
    for (pos, what) in events {
        theirs.mark_failure(*pos, what.describe());
    }
    let theirs = theirs.into_parse_error("0123456789abcdef");

    assert_eq!(ours.position, theirs.location.offset);
    let labels: Vec<&str> = ours.expected.tokens().iter().map(|e| e.describe()).collect();
    let their_labels: Vec<&str> = theirs.expected.tokens().collect();
    assert_eq!(labels, their_labels);
    assert_eq!(ours.expected.description(), theirs.expected.to_string());
}

#[test]
fn furthest_failure_is_kept_as_the_runtime_of_peg_keeps_it() {
    both_ways(&[]);
    both_ways(&[(0, Expected::Literal(Literal::Select))]);
    both_ways(&[(0, Expected::Literal(Literal::OpenBracket)), (0, Expected::Whitespace)]);
    both_ways(&[
        (4, Expected::Class(CharClass::Digit)),
        (4, Expected::Literal(Literal::Comma)),
        (4, Expected::Literal(Literal::CloseBracket)),
    ]);
    both_ways(&[
        (7, Expected::Class(CharClass::Letter)),
        (7, Expected::Class(CharClass::Star)),
        (3, Expected::Whitespace),
        (7, Expected::Class(CharClass::Letter)),
    ]);
    both_ways(&[
        (2, Expected::U32),
        (9, Expected::Whitespace),
        (5, Expected::Literal(Literal::As)),
        (9, Expected::Literal(Literal::From)),
    ]);
    let mut all = Vec::new();
    for i in (0..12).rev() {
        all.push((1, Expected::from_index(i)));
    }
    both_ways(&all);
    for i in 0..12 {
        both_ways(&all[i..]);
        both_ways(&all[..i]);
    }
}
