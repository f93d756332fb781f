//! The parser of the `SELECT` grammar.
use crate::ast::{columns_view, SelectFromTable, SelectedColumn, Table};
use crate::engine::{
    lemma_run_end, match_class_one, match_class_run, match_literal, scan_run, RuleResult,
};
use crate::error::{ErrorState, Failure, ParseError};
use crate::sql_grammar;
use crate::text::{ascii_slice, lemma_ascii_prefix_boundary};
use crate::token::{CharClass, Expected, Literal};
use vstd::prelude::*;
use vstd::string::*;
use vstd::utf8::*;

verus! {

/// Matches whitespace at `pos`.
pub fn whitespace(input: &str, pos: usize, err: &mut ErrorState) -> (r: RuleResult<()>)
    requires
        pos <= input.spec_bytes().len(),
    ensures
        r@ == sql_grammar::whitespace(input.spec_bytes(), pos as int, old(err)@).outcome,
        final(err)@ == sql_grammar::whitespace(input.spec_bytes(), pos as int, old(err)@).failure,
        r matches RuleResult::Matched(end, _) ==> pos < end <= input.spec_bytes().len(),
{
    let end = scan_run(input.as_bytes(), pos, CharClass::Space);
    if end > pos {
        RuleResult::Matched(end, ())
    } else {
        err.mark_failure(pos, Expected::Whitespace);
        RuleResult::Failed
    }
}

/// Skips the whitespace at `pos`, if there is any.
pub fn many_whitespace(input: &str, pos: usize, err: &mut ErrorState) -> (end: usize)
    requires
        pos <= input.spec_bytes().len(),
    ensures
        end == sql_grammar::many_whitespace(input.spec_bytes(), pos as int, old(err)@).end,
        final(err)@ == sql_grammar::many_whitespace(
            input.spec_bytes(),
            pos as int,
            old(err)@,
        ).failure,
        pos <= end <= input.spec_bytes().len(),
{
    let ghost whole = sql_grammar::many_whitespace(input.spec_bytes(), pos as int, err@);
    let mut end = pos;
    loop
        invariant_except_break
            whole == sql_grammar::many_whitespace(input.spec_bytes(), end as int, err@),
        invariant
            pos <= end <= input.spec_bytes().len(),
        ensures
            whole.end == end,
            whole.failure == err@,
        decreases input.spec_bytes().len() - end,
    {
        match whitespace(input, end, err) {
            RuleResult::Failed => {
                break ;
            },
            RuleResult::Matched(after, _) => {
                end = after;
            },
        }
    }
    end
}

/// Matches one or more name characters at `pos`.
fn word(input: &str, pos: usize, err: &mut ErrorState) -> (r: RuleResult<String>)
    requires
        pos <= input.spec_bytes().len(),
    ensures
        r@ == sql_grammar::word(input.spec_bytes(), pos as int, old(err)@).outcome,
        final(err)@ == sql_grammar::word(input.spec_bytes(), pos as int, old(err)@).failure,
        r matches RuleResult::Matched(end, _) ==> pos < end <= input.spec_bytes().len(),
{
    match match_class_run(input.as_bytes(), pos, CharClass::Letter, err) {
        RuleResult::Failed => RuleResult::Failed,
        RuleResult::Matched(end, _) => {
            proof {
                let bytes = input.spec_bytes();
                lemma_run_end(bytes, pos as int, CharClass::Letter);
                let part = bytes.subrange(pos as int, end as int);
                assert forall|i: int| 0 <= i < part.len() implies #[trigger] part[i] < 0x80 by {
                    assert(CharClass::Letter.contains(bytes[pos + i]));
                }
            }
            RuleResult::Matched(end, ascii_slice(input, pos, end))
        },
    }
}

/// Matches a word or a single `*` at `pos`.
fn word_or_star(input: &str, pos: usize, err: &mut ErrorState) -> (r: RuleResult<String>)
    requires
        pos <= input.spec_bytes().len(),
    ensures
        r@ == sql_grammar::word_or_star(input.spec_bytes(), pos as int, old(err)@).outcome,
        final(err)@ == sql_grammar::word_or_star(
            input.spec_bytes(),
            pos as int,
            old(err)@,
        ).failure,
        r matches RuleResult::Matched(end, _) ==> pos < end <= input.spec_bytes().len(),
{
    match word(input, pos, err) {
        RuleResult::Matched(end, name) => RuleResult::Matched(end, name),
        RuleResult::Failed => {
            match match_class_one(input.as_bytes(), pos, CharClass::Star, err) {
                RuleResult::Failed => RuleResult::Failed,
                RuleResult::Matched(end, _) => {
                    proof {
                        let part = input.spec_bytes().subrange(pos as int, end as int);
                        assert forall|i: int| 0 <= i < part.len() implies #[trigger] part[i]
                            < 0x80 by {
                            assert(CharClass::Star.contains(input.spec_bytes()[pos + i]));
                        }
                    }
                    RuleResult::Matched(end, ascii_slice(input, pos, end))
                },
            }
        },
    }
}

/// Matches the name of a column at `pos`.
pub fn column_name(input: &str, pos: usize, err: &mut ErrorState) -> (r: RuleResult<String>)
    requires
        pos <= input.spec_bytes().len(),
    ensures
        r@ == sql_grammar::column_name(input.spec_bytes(), pos as int, old(err)@).outcome,
        final(err)@ == sql_grammar::column_name(input.spec_bytes(), pos as int, old(err)@).failure,
        r matches RuleResult::Matched(end, _) ==> pos < end <= input.spec_bytes().len(),
{
    word_or_star(input, pos, err)
}

/// Matches the name that an alias gives at `pos`.
pub fn alias_name(input: &str, pos: usize, err: &mut ErrorState) -> (r: RuleResult<String>)
    requires
        pos <= input.spec_bytes().len(),
    ensures
        r@ == sql_grammar::alias_name(input.spec_bytes(), pos as int, old(err)@).outcome,
        final(err)@ == sql_grammar::alias_name(input.spec_bytes(), pos as int, old(err)@).failure,
        r matches RuleResult::Matched(end, _) ==> pos < end <= input.spec_bytes().len(),
{
    word_or_star(input, pos, err)
}

/// Matches the name of a table at `pos`.
pub fn table_name(input: &str, pos: usize, err: &mut ErrorState) -> (r: RuleResult<String>)
    requires
        pos <= input.spec_bytes().len(),
    ensures
        r@ == sql_grammar::table_name(input.spec_bytes(), pos as int, old(err)@).outcome,
        final(err)@ == sql_grammar::table_name(input.spec_bytes(), pos as int, old(err)@).failure,
        r matches RuleResult::Matched(end, _) ==> pos < end <= input.spec_bytes().len(),
{
    word(input, pos, err)
}

/// Matches `as` and an alias at `pos`; whitespace may stand before `as`
/// and must stand behind it.
pub fn as_alias(input: &str, pos: usize, err: &mut ErrorState) -> (r: RuleResult<String>)
    requires
        pos <= input.spec_bytes().len(),
    ensures
        r@ == sql_grammar::as_alias(input.spec_bytes(), pos as int, old(err)@).outcome,
        final(err)@ == sql_grammar::as_alias(input.spec_bytes(), pos as int, old(err)@).failure,
        r matches RuleResult::Matched(end, _) ==> pos < end <= input.spec_bytes().len(),
{
    let lead = many_whitespace(input, pos, err);
    let after_keyword = match match_literal(input.as_bytes(), lead, Literal::As, err) {
        RuleResult::Failed => {
            return RuleResult::Failed;
        },
        RuleResult::Matched(after, _) => after,
    };
    let after_gap = match whitespace(input, after_keyword, err) {
        RuleResult::Failed => {
            return RuleResult::Failed;
        },
        RuleResult::Matched(after, _) => after,
    };
    alias_name(input, after_gap, err)
}

/// Matches a column at `pos`: its name and, if one follows, its alias.
pub fn selected_column(input: &str, pos: usize, err: &mut ErrorState) -> (r: RuleResult<
    SelectedColumn,
>)
    requires
        pos <= input.spec_bytes().len(),
    ensures
        r@ == sql_grammar::selected_column(input.spec_bytes(), pos as int, old(err)@).outcome,
        final(err)@ == sql_grammar::selected_column(
            input.spec_bytes(),
            pos as int,
            old(err)@,
        ).failure,
        r matches RuleResult::Matched(end, _) ==> pos < end <= input.spec_bytes().len(),
{
    let (after_name, name) = match column_name(input, pos, err) {
        RuleResult::Failed => {
            return RuleResult::Failed;
        },
        RuleResult::Matched(after, name) => (after, name),
    };
    match as_alias(input, after_name, err) {
        RuleResult::Failed => RuleResult::Matched(after_name, SelectedColumn { name, alias: None }),
        RuleResult::Matched(end, alias) => RuleResult::Matched(
            end,
            SelectedColumn { name, alias: Some(alias) },
        ),
    }
}

/// Matches one or more columns at `pos`, separated by a comma and the
/// whitespace behind it.
pub fn selected_columns(input: &str, pos: usize, err: &mut ErrorState) -> (r: RuleResult<
    Vec<SelectedColumn>,
>)
    requires
        pos <= input.spec_bytes().len(),
    ensures
        r@ == sql_grammar::selected_columns(input.spec_bytes(), pos as int, old(err)@).outcome,
        final(err)@ == sql_grammar::selected_columns(
            input.spec_bytes(),
            pos as int,
            old(err)@,
        ).failure,
        r matches RuleResult::Matched(end, _) ==> pos < end <= input.spec_bytes().len(),
{
    let ghost bytes = input.spec_bytes();
    let ghost whole = sql_grammar::selected_columns(bytes, pos as int, err@);
    let mut columns: Vec<SelectedColumn> = Vec::new();
    let mut end = pos;
    match selected_column(input, pos, err) {
        RuleResult::Failed => {
            return RuleResult::Failed;
        },
        RuleResult::Matched(after, column) => {
            proof {
                assert(columns_view(columns@.push(column)) =~= seq![column@]);
            }
            columns.push(column);
            end = after;
        },
    }
    loop
        invariant_except_break
            whole == sql_grammar::more_columns(bytes, end as int, err@).after(
                columns_view(columns@),
            ).matched(),
        invariant
            bytes == input.spec_bytes(),
            pos < end <= bytes.len(),
        ensures
            pos < end <= bytes.len(),
            whole.outcome == Some((end as int, columns_view(columns@))),
            whole.failure == err@,
        decreases bytes.len() - end,
    {
        let ghost before = columns@;
        let after_comma = match match_literal(input.as_bytes(), end, Literal::Comma, err) {
            RuleResult::Failed => {
                assert(columns_view(columns@) + Seq::empty() =~= columns_view(columns@));
                break ;
            },
            RuleResult::Matched(after, _) => after,
        };
        let after_gap = many_whitespace(input, after_comma, err);
        match selected_column(input, after_gap, err) {
            RuleResult::Failed => {
                assert(columns_view(columns@) + Seq::empty() =~= columns_view(columns@));
                break ;
            },
            RuleResult::Matched(after, column) => {
                proof {
                    let rest = sql_grammar::more_columns(bytes, after as int, err@);
                    assert(columns_view(before) + (seq![column@] + rest.values) =~= columns_view(
                        before.push(column),
                    ) + rest.values);
                }
                columns.push(column);
                end = after;
            },
        }
    }
    proof {
        assert(columns.deep_view() =~= columns_view(columns@));
    }
    RuleResult::Matched(end, columns)
}

/// Matches a `FROM` clause at `pos`.
pub fn from_table(input: &str, pos: usize, err: &mut ErrorState) -> (r: RuleResult<Table>)
    requires
        pos <= input.spec_bytes().len(),
    ensures
        r@ == sql_grammar::from_table(input.spec_bytes(), pos as int, old(err)@).outcome,
        final(err)@ == sql_grammar::from_table(input.spec_bytes(), pos as int, old(err)@).failure,
        r matches RuleResult::Matched(end, _) ==> pos < end <= input.spec_bytes().len(),
{
    let after_keyword = match match_literal(input.as_bytes(), pos, Literal::From, err) {
        RuleResult::Failed => {
            return RuleResult::Failed;
        },
        RuleResult::Matched(after, _) => after,
    };
    let after_gap = match whitespace(input, after_keyword, err) {
        RuleResult::Failed => {
            return RuleResult::Failed;
        },
        RuleResult::Matched(after, _) => after,
    };
    match table_name(input, after_gap, err) {
        RuleResult::Failed => RuleResult::Failed,
        RuleResult::Matched(end, name) => RuleResult::Matched(end, Table { name }),
    }
}

/// Matches a statement at `pos`.
pub fn sql(input: &str, pos: usize, err: &mut ErrorState) -> (r: RuleResult<SelectFromTable>)
    requires
        pos <= input.spec_bytes().len(),
    ensures
        r@ == sql_grammar::sql(input.spec_bytes(), pos as int, old(err)@).outcome,
        final(err)@ == sql_grammar::sql(input.spec_bytes(), pos as int, old(err)@).failure,
        r matches RuleResult::Matched(end, _) ==> pos < end <= input.spec_bytes().len(),
{
    let after_keyword = match match_literal(input.as_bytes(), pos, Literal::Select, err) {
        RuleResult::Failed => {
            return RuleResult::Failed;
        },
        RuleResult::Matched(after, _) => after,
    };
    let after_gap = match whitespace(input, after_keyword, err) {
        RuleResult::Failed => {
            return RuleResult::Failed;
        },
        RuleResult::Matched(after, _) => after,
    };
    let (after_columns, columns) = match selected_columns(input, after_gap, err) {
        RuleResult::Failed => {
            return RuleResult::Failed;
        },
        RuleResult::Matched(after, columns) => (after, columns),
    };
    proof {
        assert(columns.deep_view() =~= columns_view(columns@));
    }
    let tail = many_whitespace(input, after_columns, err);
    match from_table(input, tail, err) {
        RuleResult::Failed => RuleResult::Matched(tail, SelectFromTable { table: None, columns }),
        RuleResult::Matched(end, table) => RuleResult::Matched(
            end,
            SelectFromTable { table: Some(table), columns },
        ),
    }
}

/// Parses a statement such as `SELECT a, b as c FROM t`. What follows the
/// statement is not looked at.
pub fn parse_sql(input: &str) -> (r: Result<SelectFromTable, ParseError>)
    ensures
        match r {
            Ok(statement) => sql_grammar::parse_sql(input.spec_bytes()) == Ok::<_, Failure>(
                statement@,
            ),
            Err(e) => sql_grammar::parse_sql(input.spec_bytes()) == Err::<
                crate::ast::SelectFromTableView,
                _,
            >(e@),
        },
        r matches Ok(statement) ==> statement@.wf(),
        r matches Err(e) ==> e@.names_something() && is_char_boundary(
            input.spec_bytes(),
            e.position as int,
        ),
{
    proof {
        let bytes = input.spec_bytes();
        sql_grammar::lemma_sql_wf(bytes, 0, Failure::start());
        sql_grammar::lemma_parse_sql_failure(bytes);
        if let Err(failure) = sql_grammar::parse_sql(bytes) {
            encode_utf8_valid_utf8(input@);
            lemma_ascii_prefix_boundary(bytes, failure.position);
        }
    }
    let mut err = ErrorState::new();
    match sql(input, 0, &mut err) {
        RuleResult::Matched(_, statement) => Ok(statement),
        RuleResult::Failed => Err(err.into_error()),
    }
}

} // verus!
