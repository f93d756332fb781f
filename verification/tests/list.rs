use mini_sql_parser::engine::{
    match_class_one, match_class_run, match_literal, scan_run, RuleResult,
};
use mini_sql_parser::error::{ErrorState, ExpectedSet, ParseError};
use mini_sql_parser::list_parser::{list, parse_list};
use mini_sql_parser::token::{CharClass, Expected, Literal};

fn failure(input: &str) -> ParseError {
    match parse_list(input) {
        Ok(values) => panic!("parsed to {:?}", values),
        Err(e) => e,
    }
}

fn render(values: &[u32]) -> String {
    let parts: Vec<String> = values.iter().map(|v| v.to_string()).collect();
    format!("[{}]", parts.join(","))
}

#[test]
fn should_parse_list() {
    assert_eq!(parse_list("[1,1,2,3,5,8]"), Ok(vec![1, 1, 2, 3, 5, 8]));
}

#[test]
fn rendered_lists_parse_to_themselves() {
    let cases: Vec<Vec<u32>> = vec![
        vec![],
        vec![0],
        vec![7, 7, 7],
        vec![10, 9, 100, 99, 1000],
        vec![u32::MAX, 0, u32::MAX - 1],
        vec![3, 2, 1, 2, 3],
    ];
    for values in cases {
        assert_eq!(parse_list(&render(&values)), Ok(values));
    }
}

#[test]
fn empty_list() {
    assert_eq!(parse_list("[]"), Ok(vec![]));
}

#[test]
fn leading_zeros_do_not_count() {
    assert_eq!(parse_list("[007,0,00]"), Ok(vec![7, 0, 0]));
}

#[test]
fn largest_number_fits() {
    assert_eq!(parse_list("[4294967295]"), Ok(vec![4294967295]));
    assert_eq!(parse_list("[0004294967295]"), Ok(vec![4294967295]));
}

#[test]
fn number_too_large_fails() {
    let e = failure("[4294967296]");
    assert_eq!(e.position, 11);
    assert_eq!(e.expected.tokens(), vec![Expected::Class(CharClass::Digit), Expected::U32]);
    let e = failure("[1,99999999999999999999999999]");
    assert_eq!(e.position, 29);
    assert!(e.expected.contains(Expected::U32));
}

#[test]
fn missing_close_bracket_fails_at_the_end() {
    let e = failure("[1,2,");
    assert_eq!(e.position, 5);
    assert_eq!(e.expected.tokens(), vec![Expected::Class(CharClass::Digit)]);
}

#[test]
fn unfinished_list_names_all_that_could_follow() {
    let e = failure("[1,2");
    assert_eq!(e.position, 4);
    assert_eq!(
        e.expected.tokens(),
        vec![
            Expected::Literal(Literal::Comma),
            Expected::Literal(Literal::CloseBracket),
            Expected::Class(CharClass::Digit),
        ]
    );
    assert_eq!(e.message(), "error at 4: expected one of \",\", \"]\", ['0'..='9']");
}

#[test]
fn missing_open_bracket_fails_at_the_start() {
    let e = failure("1,2]");
    assert_eq!(e.position, 0);
    assert_eq!(e.expected.tokens(), vec![Expected::Literal(Literal::OpenBracket)]);
    assert_eq!(e.message(), "error at 0: expected \"[\"");
    assert_eq!(failure("").position, 0);
}

#[test]
fn segment_that_is_no_number_fails() {
    let e = failure("[1,,2]");
    assert_eq!(e.position, 3);
    assert_eq!(e.expected.tokens(), vec![Expected::Class(CharClass::Digit)]);
    let e = failure("[1,x]");
    assert_eq!(e.position, 3);
    let e = failure("[-1]");
    assert_eq!(e.position, 1);
    assert_eq!(
        e.expected.tokens(),
        vec![Expected::Literal(Literal::CloseBracket), Expected::Class(CharClass::Digit)]
    );
}

#[test]
fn whitespace_is_not_part_of_a_list() {
    assert_eq!(failure("[1, 2]").position, 3);
    assert_eq!(failure(" [1]").position, 0);
}

#[test]
fn what_follows_the_list_is_ignored() {
    assert_eq!(parse_list("[1,2]3"), Ok(vec![1, 2]));
    assert_eq!(parse_list("[][1]"), Ok(vec![]));
}

#[test]
fn list_rule_gives_the_offset_behind_the_list() {
    let mut err = ErrorState::new();
    match list("xx[10,20]yy".as_bytes(), 2, &mut err) {
        RuleResult::Matched(end, values) => {
            assert_eq!(end, 9);
            assert_eq!(values, vec![10, 20]);
        }
        RuleResult::Failed => panic!("no match"),
    }
    let e = err.into_error();
    assert_eq!(e.position, 8);
    assert_eq!(
        e.expected.tokens(),
        vec![Expected::Literal(Literal::Comma), Expected::Class(CharClass::Digit)]
    );
}

#[test]
fn literal_matches_where_it_stands() {
    let input = "abSELECTcd".as_bytes();
    let mut err = ErrorState::new();
    assert!(matches!(
        match_literal(input, 2, Literal::Select, &mut err),
        RuleResult::Matched(8, ())
    ));
    assert!(matches!(match_literal(input, 3, Literal::Select, &mut err), RuleResult::Failed));
    assert!(matches!(match_literal(input, 6, Literal::Select, &mut err), RuleResult::Failed));
    assert!(matches!(match_literal(input, 10, Literal::Select, &mut err), RuleResult::Failed));
    let e = err.into_error();
    assert_eq!(e.position, 10);
    assert_eq!(e.expected.tokens(), vec![Expected::Literal(Literal::Select)]);
}

#[test]
fn class_run_is_as_long_as_it_can_be() {
    let input = "ab_Z09 \n\tx*".as_bytes();
    assert_eq!(scan_run(input, 0, CharClass::Letter), 4);
    assert_eq!(scan_run(input, 4, CharClass::Digit), 6);
    assert_eq!(scan_run(input, 6, CharClass::Space), 9);
    assert_eq!(scan_run(input, 0, CharClass::Digit), 0);
    assert_eq!(scan_run(input, 10, CharClass::Star), 11);
    assert_eq!(scan_run(input, 11, CharClass::Star), 11);
    let mut err = ErrorState::new();
    assert!(matches!(
        match_class_run(input, 0, CharClass::Letter, &mut err),
        RuleResult::Matched(4, ())
    ));
    assert!(matches!(match_class_run(input, 4, CharClass::Letter, &mut err), RuleResult::Failed));
    assert!(matches!(
        match_class_one(input, 10, CharClass::Star, &mut err),
        RuleResult::Matched(11, ())
    ));
    assert!(matches!(match_class_one(input, 11, CharClass::Star, &mut err), RuleResult::Failed));
    let e = err.into_error();
    assert_eq!(e.position, 11);
    assert_eq!(e.expected.tokens(), vec![Expected::Class(CharClass::Star)]);
}

#[test]
fn classes_hold_what_they_name() {
    for b in 0..=255u8 {
        let c = b as char;
        assert_eq!(CharClass::Digit.matches(b), c.is_ascii_digit());
        assert_eq!(CharClass::Letter.matches(b), c.is_ascii_alphabetic() || c == '_');
        assert_eq!(CharClass::Star.matches(b), c == '*');
        assert_eq!(CharClass::Space.matches(b), c == ' ' || c == '\n' || c == '\t');
    }
}

#[test]
fn furthest_failure_wins() {
    let mut err = ErrorState::new();
    err.mark_failure(3, Expected::Whitespace);
    err.mark_failure(1, Expected::U32);
    err.mark_failure(3, Expected::Literal(Literal::As));
    err.mark_failure(3, Expected::Whitespace);
    let e = err.into_error();
    assert_eq!(e.position, 3);
    assert_eq!(e.expected.tokens(), vec![Expected::Literal(Literal::As), Expected::Whitespace]);
    assert_eq!(e.message(), "error at 3: expected one of \"as\", whitespace");
    let mut err = ErrorState::new();
    err.mark_failure(3, Expected::Whitespace);
    err.mark_failure(4, Expected::U32);
    let e = err.into_error();
    assert_eq!(e.position, 4);
    assert_eq!(e.expected.tokens(), vec![Expected::U32]);
    let e = ErrorState::new().into_error();
    assert_eq!(e.position, 0);
    assert_eq!(e.expected, ExpectedSet::empty());
    assert_eq!(e.message(), "error at 0: expected <unreported>");
}

#[test]
fn expected_values_have_ranks_and_labels() {
    let labels = [
        "\",\"",
        "\"FROM\"",
        "\"SELECT\"",
        "\"[\"",
        "\"]\"",
        "\"as\"",
        "[' ' | '\\n' | '\\t']",
        "['*']",
        "['0'..='9']",
        "['a'..='z' | 'A'..='Z' | '_']",
        "u32",
        "whitespace",
    ];
    let mut sorted = labels.to_vec();
    sorted.sort();
    assert_eq!(sorted, labels.to_vec());
    let mut all = ExpectedSet::empty();
    for i in 0..12 {
        let e = Expected::from_index(i);
        assert_eq!(e.index(), i);
        assert_eq!(e.describe(), labels[i]);
        assert!(!all.contains(e));
        all.insert(e);
        assert!(all.contains(e));
        assert_eq!(all.tokens().len(), i + 1);
    }
    assert_eq!(Literal::Select.text(), "SELECT");
    assert_eq!(Literal::From.text(), "FROM");
    assert_eq!(Literal::As.text(), "as");
    assert_eq!(Literal::OpenBracket.text(), "[");
    assert_eq!(Literal::CloseBracket.text(), "]");
    assert_eq!(Literal::Comma.text(), ",");
}

#[test]
fn failures_lie_on_character_boundaries_of_a_list() {
    for input in ["[1,\u{e9}]", "\u{4e2d}[1]", "[12\u{a0}]", "[", "", "[1,2"] {
        let e = failure(input);
        assert!(e.position <= input.len());
        assert!(input.is_char_boundary(e.position));
        assert!(!e.expected.tokens().is_empty());
    }
}
