use mini_sql_parser::ast::{SelectFromTable, SelectedColumn, Table};
use mini_sql_parser::engine::RuleResult;
use mini_sql_parser::error::{ErrorState, ParseError};
use mini_sql_parser::sql_parser::{
    alias_name, as_alias, column_name, from_table, many_whitespace, parse_sql, selected_columns,
    sql, table_name, whitespace,
};
use mini_sql_parser::token::{CharClass, Expected, Literal};

fn build_table(name: &str) -> Table {
    Table { name: name.into() }
}

fn plain(name: &str) -> SelectedColumn {
    SelectedColumn { name: String::from(name), alias: None }
}

fn aliased(name: &str, alias: &str) -> SelectedColumn {
    SelectedColumn { name: String::from(name), alias: Some(String::from(alias)) }
}

fn failure(input: &str) -> ParseError {
    match parse_sql(input) {
        Ok(statement) => panic!("parsed to {:?}", statement),
        Err(e) => e,
    }
}

#[test]
fn should_parse_sql() {
    let x = parse_sql("SELECT * FROM abc_");

    assert_eq!(
        x,
        Ok(SelectFromTable {
            table: Some(build_table("abc_")),
            columns: vec![SelectedColumn { name: String::from("*"), alias: None }]
        },)
    );
}

#[test]
fn should_parse_sql2() {
    let x = parse_sql("SELECT x FROM abc_");

    assert_eq!(
        x,
        Ok(SelectFromTable {
            table: Some(Table { name: String::from("abc_") }),
            columns: vec![SelectedColumn { name: String::from("x"), alias: None }]
        })
    );
}

#[test]
fn should_parse_sql2_1() {
    let x = parse_sql("SELECT x as y FROM abc_");

    assert_eq!(
        x,
        Ok(SelectFromTable {
            table: Some(build_table("abc_")),
            columns: vec![SelectedColumn { name: String::from("x"), alias: Some("y".into()) }]
        })
    );
}

#[test]
fn should_parse_sql3() {
    let x = parse_sql("SELECT a,b,c FROM abc_");

    assert_eq!(
        x,
        Ok(SelectFromTable {
            table: Some(build_table("abc_")),
            columns: vec![
                SelectedColumn { name: String::from("a"), alias: None },
                SelectedColumn { name: String::from("b"), alias: None },
                SelectedColumn { name: String::from("c"), alias: None },
            ]
        })
    );
}

#[test]
fn should_parse_sql3_1() {
    let x = parse_sql("SELECT a, b FROM abc_");

    assert_eq!(
        x,
        Ok(SelectFromTable {
            table: Some(build_table("abc_")),
            columns: vec![
                SelectedColumn { name: String::from("a"), alias: None },
                SelectedColumn { name: String::from("b"), alias: None },
            ]
        })
    );
}

#[test]
fn should_parse_sql4() {
    let x = parse_sql("SELECT x  FROM abc_");
    assert_eq!(
        x,
        Ok(SelectFromTable {
            table: Some(build_table("abc_")),
            columns: vec![SelectedColumn { name: String::from("x"), alias: None }]
        })
    );
}

#[test]
fn should_parse_sql5() {
    let x = parse_sql(
        r#"SELECT x,
    y  FROM abc_"#,
    );
    assert_eq!(
        x,
        Ok(SelectFromTable {
            table: Some(build_table("abc_")),
            columns: vec![
                SelectedColumn { name: String::from("x"), alias: None },
                SelectedColumn { name: String::from("y"), alias: None }
            ]
        })
    );
}

#[test]
fn should_parse_sql6() {
    let x = parse_sql("SELECT x, \t y  FROM abc_");
    assert_eq!(
        x,
        Ok(SelectFromTable {
            table: Some(build_table("abc_")),
            columns: vec![
                SelectedColumn { name: String::from("x"), alias: None },
                SelectedColumn { name: String::from("y"), alias: None }
            ]
        })
    );
}

#[test]
fn star_from_table() {
    assert_eq!(
        parse_sql("SELECT * FROM t"),
        Ok(SelectFromTable { table: Some(build_table("t")), columns: vec![plain("*")] })
    );
}

#[test]
fn alias_is_kept() {
    let parsed = parse_sql("SELECT x as y FROM t").unwrap();
    assert_eq!(parsed.columns, vec![aliased("x", "y")]);
    assert_eq!(parsed.table, Some(build_table("t")));
}

#[test]
fn columns_keep_their_order() {
    let parsed = parse_sql("SELECT a,b,c FROM t").unwrap();
    assert_eq!(parsed.columns, vec![plain("a"), plain("b"), plain("c")]);
}

#[test]
fn whitespace_does_not_change_the_statement() {
    let expected =
        SelectFromTable { table: Some(build_table("t")), columns: vec![plain("x"), plain("y")] };
    let a = parse_sql("SELECT x,\n\ty  FROM t");
    let b = parse_sql("SELECT x, y FROM t");
    assert_eq!(a, b);
    assert_eq!(a, Ok(expected));
}

#[test]
fn whitespace_around_as_may_be_any_run() {
    assert_eq!(
        parse_sql("SELECT\n\tx \t as\n\n y\tFROM\n t"),
        parse_sql("SELECT x as y FROM t")
    );
    assert_eq!(parse_sql("SELECT x as y FROM t").unwrap().columns, vec![aliased("x", "y")]);
}

#[test]
fn from_may_be_left_out() {
    assert_eq!(parse_sql("SELECT x"), Ok(SelectFromTable { table: None, columns: vec![plain("x")] }));
    assert_eq!(
        parse_sql("SELECT a, b as c"),
        Ok(SelectFromTable { table: None, columns: vec![plain("a"), aliased("b", "c")] })
    );
}

#[test]
fn lowercase_keywords_fail() {
    let e = failure("select x from t");
    assert_eq!(e.position, 0);
    assert_eq!(e.expected.tokens(), vec![Expected::Literal(Literal::Select)]);
}

#[test]
fn lowercase_from_is_no_clause() {
    assert_eq!(
        parse_sql("SELECT x from t"),
        Ok(SelectFromTable { table: None, columns: vec![plain("x")] })
    );
}

#[test]
fn uppercase_as_is_no_alias() {
    assert_eq!(
        parse_sql("SELECT x AS y FROM t"),
        Ok(SelectFromTable { table: None, columns: vec![plain("x")] })
    );
}

#[test]
fn as_needs_whitespace_behind_it() {
    assert_eq!(
        parse_sql("SELECT x asy FROM t"),
        Ok(SelectFromTable { table: None, columns: vec![plain("x")] })
    );
}

#[test]
fn star_may_have_an_alias() {
    assert_eq!(
        parse_sql("SELECT * as x FROM t"),
        Ok(SelectFromTable { table: Some(build_table("t")), columns: vec![aliased("*", "x")] })
    );
    assert_eq!(
        parse_sql("SELECT *as x FROM t"),
        Ok(SelectFromTable { table: Some(build_table("t")), columns: vec![aliased("*", "x")] })
    );
    assert_eq!(
        parse_sql("SELECT x as * FROM t"),
        Ok(SelectFromTable { table: Some(build_table("t")), columns: vec![aliased("x", "*")] })
    );
}

#[test]
fn star_is_no_table_name() {
    assert_eq!(
        parse_sql("SELECT x FROM *"),
        Ok(SelectFromTable { table: None, columns: vec![plain("x")] })
    );
}

#[test]
fn comma_stands_right_behind_the_column() {
    assert_eq!(
        parse_sql("SELECT a ,b FROM t"),
        Ok(SelectFromTable { table: None, columns: vec![plain("a")] })
    );
}

#[test]
fn keywords_can_be_names() {
    assert_eq!(
        parse_sql("SELECT FROM FROM FROM"),
        Ok(SelectFromTable { table: Some(build_table("FROM")), columns: vec![plain("FROM")] })
    );
    assert_eq!(
        parse_sql("SELECT as as as"),
        Ok(SelectFromTable { table: None, columns: vec![aliased("as", "as")] })
    );
}

#[test]
fn what_follows_the_statement_is_ignored() {
    assert_eq!(
        parse_sql("SELECT x FROM t WHERE y"),
        Ok(SelectFromTable { table: Some(build_table("t")), columns: vec![plain("x")] })
    );
    assert_eq!(
        parse_sql("SELECT x, 1"),
        Ok(SelectFromTable { table: None, columns: vec![plain("x")] })
    );
}

#[test]
fn a_column_is_needed() {
    let e = failure("SELECT 1");
    assert_eq!(e.position, 7);
    assert_eq!(
        e.expected.tokens(),
        vec![Expected::Class(CharClass::Star), Expected::Class(CharClass::Letter)]
    );
    let e = failure("SELECT ");
    assert_eq!(e.position, 7);
}

#[test]
fn whitespace_is_needed_behind_select() {
    let e = failure("SELECT");
    assert_eq!(e.position, 6);
    assert_eq!(e.expected.tokens(), vec![Expected::Whitespace]);
    let e = failure("SELECT*");
    assert_eq!(e.position, 6);
    assert!(e.expected.contains(Expected::Whitespace));
    assert!(!e.expected.contains(Expected::Class(CharClass::Space)));
}

#[test]
fn empty_input_fails_at_the_start() {
    let e = failure("");
    assert_eq!(e.position, 0);
    assert_eq!(e.expected.tokens(), vec![Expected::Literal(Literal::Select)]);
}

#[test]
fn text_that_is_not_ascii_ends_a_name() {
    assert_eq!(
        parse_sql("SELECT caf\u{e9} FROM t"),
        Ok(SelectFromTable { table: None, columns: vec![plain("caf")] })
    );
    let e = failure("SELECT \u{e9}");
    assert_eq!(e.position, 7);
}

#[test]
fn statements_compare_by_their_fields() {
    let a = parse_sql("SELECT a as b, c FROM t").unwrap();
    assert!(a == SelectFromTable {
        table: Some(build_table("t")),
        columns: vec![aliased("a", "b"), plain("c")]
    });
    assert!(a != SelectFromTable {
        table: Some(build_table("u")),
        columns: vec![aliased("a", "b"), plain("c")]
    });
    assert!(a != SelectFromTable { table: None, columns: vec![aliased("a", "b"), plain("c")] });
    assert!(a != SelectFromTable {
        table: Some(build_table("t")),
        columns: vec![aliased("a", "b")]
    });
    assert!(a != SelectFromTable {
        table: Some(build_table("t")),
        columns: vec![plain("a"), plain("c")]
    });
    assert!(a != SelectFromTable {
        table: Some(build_table("t")),
        columns: vec![aliased("a", "x"), plain("c")]
    });
    assert!(plain("a") == plain("a"));
    assert!(plain("a") != plain("b"));
    assert!(aliased("a", "b") != plain("a"));
    assert!(build_table("t") == build_table("t"));
    assert!(build_table("t") != build_table("tt"));
}

#[test]
fn error_message_names_offset_and_expectation() {
    assert_eq!(failure("select").message(), "error at 0: expected \"SELECT\"");
    assert_eq!(failure("SELECT").message(), "error at 6: expected whitespace");
    assert_eq!(
        failure("SELECT  1").message(),
        "error at 8: expected one of ['*'], ['a'..='z' | 'A'..='Z' | '_']"
    );
}

#[test]
fn from_clause_names_what_it_misses() {
    let mut err = ErrorState::new();
    assert!(matches!(from_table("FRO t", 0, &mut err), RuleResult::Failed));
    let e = err.into_error();
    assert_eq!(e.position, 0);
    assert_eq!(e.expected.tokens(), vec![Expected::Literal(Literal::From)]);

    let mut err = ErrorState::new();
    assert!(matches!(from_table("FROMt", 0, &mut err), RuleResult::Failed));
    let e = err.into_error();
    assert_eq!(e.position, 4);
    assert_eq!(e.expected.tokens(), vec![Expected::Whitespace]);

    let mut err = ErrorState::new();
    assert!(matches!(from_table("FROM  1", 0, &mut err), RuleResult::Failed));
    let e = err.into_error();
    assert_eq!(e.position, 6);
    assert_eq!(e.expected.tokens(), vec![Expected::Class(CharClass::Letter)]);
}

#[test]
fn from_clause_gives_the_table_and_the_offset_behind_it() {
    let mut err = ErrorState::new();
    match from_table("xx FROM tab rest", 3, &mut err) {
        RuleResult::Matched(end, table) => {
            assert_eq!(end, 11);
            assert_eq!(table, build_table("tab"));
        }
        RuleResult::Failed => panic!("no match"),
    }
    let e = err.into_error();
    assert_eq!(e.position, 11);
    assert_eq!(e.expected.tokens(), vec![Expected::Class(CharClass::Letter)]);
}

#[test]
fn alias_rule_takes_whitespace_on_both_sides_of_as() {
    let mut err = ErrorState::new();
    match as_alias("  as  y,", 0, &mut err) {
        RuleResult::Matched(end, alias) => {
            assert_eq!(end, 7);
            assert_eq!(alias, "y");
        }
        RuleResult::Failed => panic!("no match"),
    }
    let e = err.into_error();
    assert_eq!(e.position, 7);
    assert_eq!(e.expected.tokens(), vec![Expected::Class(CharClass::Letter)]);

    let mut err = ErrorState::new();
    assert!(matches!(as_alias("asy", 0, &mut err), RuleResult::Failed));
    let e = err.into_error();
    assert_eq!(e.position, 2);
    assert_eq!(e.expected.tokens(), vec![Expected::Whitespace]);

    let mut err = ErrorState::new();
    assert!(matches!(as_alias(" x", 0, &mut err), RuleResult::Failed));
    let e = err.into_error();
    assert_eq!(e.position, 1);
    assert_eq!(e.expected.tokens(), vec![Expected::Literal(Literal::As), Expected::Whitespace]);
}

#[test]
fn columns_rule_stops_in_front_of_what_is_no_column() {
    let mut err = ErrorState::new();
    match selected_columns("a, b as c ,d", 0, &mut err) {
        RuleResult::Matched(end, columns) => {
            assert_eq!(end, 9);
            assert_eq!(columns, vec![plain("a"), aliased("b", "c")]);
        }
        RuleResult::Failed => panic!("no match"),
    }
    let mut err = ErrorState::new();
    match selected_columns("a,\n\t*,1", 0, &mut err) {
        RuleResult::Matched(end, columns) => {
            assert_eq!(end, 5);
            assert_eq!(columns, vec![plain("a"), plain("*")]);
        }
        RuleResult::Failed => panic!("no match"),
    }
    let e = err.into_error();
    assert_eq!(e.position, 6);
    assert_eq!(
        e.expected.tokens(),
        vec![
            Expected::Class(CharClass::Star),
            Expected::Class(CharClass::Letter),
            Expected::Whitespace
        ]
    );
    let mut err = ErrorState::new();
    assert!(matches!(selected_columns(",a", 0, &mut err), RuleResult::Failed));
}

#[test]
fn whitespace_rules_take_the_whole_run() {
    let mut err = ErrorState::new();
    assert!(matches!(whitespace("a \n\t b", 1, &mut err), RuleResult::Matched(5, ())));
    assert_eq!(many_whitespace("a \n\t b", 1, &mut err), 5);
    assert_eq!(many_whitespace("a \n\t b", 5, &mut err), 5);
    assert!(matches!(whitespace("a \n\t b", 5, &mut err), RuleResult::Failed));
    assert!(matches!(whitespace("a", 1, &mut err), RuleResult::Failed));
    let e = err.into_error();
    assert_eq!(e.position, 5);
    assert_eq!(e.expected.tokens(), vec![Expected::Whitespace]);
}

#[test]
fn name_rules_differ_in_the_star() {
    let mut err = ErrorState::new();
    assert!(matches!(column_name("*", 0, &mut err), RuleResult::Matched(1, _)));
    assert!(matches!(alias_name("*", 0, &mut err), RuleResult::Matched(1, _)));
    assert!(matches!(table_name("*", 0, &mut err), RuleResult::Failed));
    match column_name("ab_CD1", 0, &mut err) {
        RuleResult::Matched(end, name) => {
            assert_eq!(end, 5);
            assert_eq!(name, "ab_CD");
        }
        RuleResult::Failed => panic!("no match"),
    }
    assert!(matches!(table_name("_x y", 0, &mut err), RuleResult::Matched(2, _)));
    assert!(matches!(column_name("1", 0, &mut err), RuleResult::Failed));
}

#[test]
fn statement_rule_gives_the_offset_behind_the_statement() {
    let mut err = ErrorState::new();
    match sql("..SELECT x  FROM t;", 2, &mut err) {
        RuleResult::Matched(end, statement) => {
            assert_eq!(end, 18);
            assert_eq!(statement.table, Some(build_table("t")));
        }
        RuleResult::Failed => panic!("no match"),
    }
    let mut err = ErrorState::new();
    match sql("SELECT x  ;", 0, &mut err) {
        RuleResult::Matched(end, statement) => {
            assert_eq!(end, 10);
            assert_eq!(statement.table, None);
        }
        RuleResult::Failed => panic!("no match"),
    }
}

#[test]
fn failures_lie_on_character_boundaries() {
    for input in ["SELECT \u{e9}", "\u{4e2d}SELECT x", "SELECT\u{a0}x", "SELEC\u{e9}", ""] {
        let e = failure(input);
        assert!(input.is_char_boundary(e.position));
        assert!(!e.expected.tokens().is_empty());
        let _ = &input[e.position..];
    }
}
