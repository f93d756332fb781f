//! What the `SELECT` grammar means:
//!
//! ```text
//! sql              = "SELECT" whitespace selected_columns whitespace* from_table?
//! selected_columns = selected_column ("," whitespace* selected_column)*
//! selected_column  = column_name as_alias?
//! as_alias         = whitespace* "as" whitespace alias_name
//! from_table       = "FROM" whitespace table_name
//! column_name      = letter+ / "*"
//! alias_name       = letter+ / "*"
//! table_name       = letter+
//! whitespace       = (" " / "\n" / "\t")+
//! ```
//!
//! Keywords are matched as they are written here, in this case only.
use crate::ast::{
    is_column_name, is_identifier, is_name_char, SelectFromTableView, SelectedColumnView,
    TableView,
};
use crate::engine::{
    class_one, class_run, lemma_primitive_failures, lemma_run_end, literal, literal_at, run_end,
    Repeat, Skip, Step,
};
use crate::error::Failure;
use crate::text::{ascii_before, ascii_chars};
use crate::token::{CharClass, Expected, Literal};
use vstd::prelude::*;

verus! {

/// `whitespace`: one or more spaces, newlines or tabs. Where there is none
/// the failure names the rule, not the characters.
pub open spec fn whitespace(input: Seq<u8>, pos: int, failure: Failure) -> Step<()> {
    let end = run_end(input, pos, CharClass::Space);
    if end > pos {
        Step { outcome: Some((end, ())), failure }
    } else {
        Step { outcome: None, failure: failure.mark(pos, Expected::Whitespace) }
    }
}

/// `whitespace*`: `whitespace` for as long as it matches.
pub open spec fn many_whitespace(input: Seq<u8>, pos: int, failure: Failure) -> Skip
    decreases input.len() - pos,
{
    let one = whitespace(input, pos, failure);
    match one.outcome {
        None => Skip { end: pos, failure: one.failure },
        Some((end, _)) => {
            proof {
                if 0 <= pos <= input.len() {
                    lemma_run_end(input, pos, CharClass::Space);
                }
            }
            many_whitespace(input, end, one.failure)
        },
    }
}

/// One or more name characters; the value is the text matched.
pub open spec fn word(input: Seq<u8>, pos: int, failure: Failure) -> Step<Seq<char>> {
    let letters = class_run(input, pos, CharClass::Letter, failure);
    match letters.outcome {
        None => Step { outcome: None, failure: letters.failure },
        Some((end, _)) => Step {
            outcome: Some((end, ascii_chars(input.subrange(pos, end)))),
            failure: letters.failure,
        },
    }
}

/// A word or, where no word stands, a single `*`.
pub open spec fn word_or_star(input: Seq<u8>, pos: int, failure: Failure) -> Step<Seq<char>> {
    let name = word(input, pos, failure);
    match name.outcome {
        Some(_) => name,
        None => {
            let star = class_one(input, pos, CharClass::Star, name.failure);
            match star.outcome {
                None => Step { outcome: None, failure: star.failure },
                Some((end, _)) => Step {
                    outcome: Some((end, ascii_chars(input.subrange(pos, end)))),
                    failure: star.failure,
                },
            }
        },
    }
}

/// `column_name`.
pub open spec fn column_name(input: Seq<u8>, pos: int, failure: Failure) -> Step<Seq<char>> {
    word_or_star(input, pos, failure)
}

/// `alias_name`.
pub open spec fn alias_name(input: Seq<u8>, pos: int, failure: Failure) -> Step<Seq<char>> {
    word_or_star(input, pos, failure)
}

/// `table_name`.
pub open spec fn table_name(input: Seq<u8>, pos: int, failure: Failure) -> Step<Seq<char>> {
    word(input, pos, failure)
}

/// `as_alias`: the value is the alias.
pub open spec fn as_alias(input: Seq<u8>, pos: int, failure: Failure) -> Step<Seq<char>> {
    let lead = many_whitespace(input, pos, failure);
    let keyword = literal(input, lead.end, Literal::As, lead.failure);
    match keyword.outcome {
        None => Step { outcome: None, failure: keyword.failure },
        Some((after_keyword, _)) => {
            let gap = whitespace(input, after_keyword, keyword.failure);
            match gap.outcome {
                None => Step { outcome: None, failure: gap.failure },
                Some((after_gap, _)) => alias_name(input, after_gap, gap.failure),
            }
        },
    }
}

/// `selected_column`: where no alias follows the name, the column ends
/// behind the name.
pub open spec fn selected_column(input: Seq<u8>, pos: int, failure: Failure) -> Step<
    SelectedColumnView,
> {
    let name = column_name(input, pos, failure);
    match name.outcome {
        None => Step { outcome: None, failure: name.failure },
        Some((after_name, name_text)) => {
            let alias = as_alias(input, after_name, name.failure);
            match alias.outcome {
                None => Step {
                    outcome: Some((after_name, SelectedColumnView { name: name_text, alias: None })),
                    failure: alias.failure,
                },
                Some((end, alias_text)) => Step {
                    outcome: Some(
                        (end, SelectedColumnView { name: name_text, alias: Some(alias_text) }),
                    ),
                    failure: alias.failure,
                },
            }
        },
    }
}

/// `("," whitespace* selected_column)*`: what follows the first column. It
/// stops, without failing, in front of a comma that no column follows.
pub open spec fn more_columns(input: Seq<u8>, pos: int, failure: Failure) -> Repeat<
    SelectedColumnView,
>
    decreases input.len() - pos,
{
    let comma = literal(input, pos, Literal::Comma, failure);
    match comma.outcome {
        None => Repeat { end: pos, values: Seq::empty(), failure: comma.failure },
        Some((after_comma, _)) => {
            let gap = many_whitespace(input, after_comma, comma.failure);
            let column = selected_column(input, gap.end, gap.failure);
            match column.outcome {
                None => Repeat { end: pos, values: Seq::empty(), failure: column.failure },
                Some((after_column, value)) => {
                    proof {
                        lemma_many_whitespace(input, after_comma, comma.failure);
                        lemma_selected_column_bounds(input, gap.end, gap.failure);
                    }
                    more_columns(input, after_column, column.failure).after(seq![value])
                },
            }
        },
    }
}

/// `selected_columns`: one column at least.
pub open spec fn selected_columns(input: Seq<u8>, pos: int, failure: Failure) -> Step<
    Seq<SelectedColumnView>,
> {
    let first = selected_column(input, pos, failure);
    match first.outcome {
        None => Step { outcome: None, failure: first.failure },
        Some((after_first, value)) => more_columns(input, after_first, first.failure).after(
            seq![value],
        ).matched(),
    }
}

/// `from_table`.
pub open spec fn from_table(input: Seq<u8>, pos: int, failure: Failure) -> Step<TableView> {
    let keyword = literal(input, pos, Literal::From, failure);
    match keyword.outcome {
        None => Step { outcome: None, failure: keyword.failure },
        Some((after_keyword, _)) => {
            let gap = whitespace(input, after_keyword, keyword.failure);
            match gap.outcome {
                None => Step { outcome: None, failure: gap.failure },
                Some((after_gap, _)) => {
                    let name = table_name(input, after_gap, gap.failure);
                    match name.outcome {
                        None => Step { outcome: None, failure: name.failure },
                        Some((end, text)) => Step {
                            outcome: Some((end, TableView { name: text })),
                            failure: name.failure,
                        },
                    }
                },
            }
        },
    }
}

/// `sql`: where no `FROM` clause follows the columns, the statement has no
/// table.
pub open spec fn sql(input: Seq<u8>, pos: int, failure: Failure) -> Step<SelectFromTableView> {
    let keyword = literal(input, pos, Literal::Select, failure);
    match keyword.outcome {
        None => Step { outcome: None, failure: keyword.failure },
        Some((after_keyword, _)) => {
            let gap = whitespace(input, after_keyword, keyword.failure);
            match gap.outcome {
                None => Step { outcome: None, failure: gap.failure },
                Some((after_gap, _)) => {
                    let columns = selected_columns(input, after_gap, gap.failure);
                    match columns.outcome {
                        None => Step { outcome: None, failure: columns.failure },
                        Some((after_columns, values)) => {
                            let tail = many_whitespace(input, after_columns, columns.failure);
                            let from = from_table(input, tail.end, tail.failure);
                            match from.outcome {
                                None => Step {
                                    outcome: Some(
                                        (
                                            tail.end,
                                            SelectFromTableView { table: None, columns: values },
                                        ),
                                    ),
                                    failure: from.failure,
                                },
                                Some((end, table)) => Step {
                                    outcome: Some(
                                        (
                                            end,
                                            SelectFromTableView {
                                                table: Some(table),
                                                columns: values,
                                            },
                                        ),
                                    ),
                                    failure: from.failure,
                                },
                            }
                        },
                    }
                },
            }
        },
    }
}

/// The result of parsing a whole input as a statement: the statement, or
/// the furthest failure. What follows the statement is not looked at.
pub open spec fn parse_sql(input: Seq<u8>) -> Result<SelectFromTableView, Failure> {
    let step = sql(input, 0, Failure::start());
    match step.outcome {
        Some((_, statement)) => Ok(statement),
        None => Err(step.failure),
    }
}

/// `whitespace*` ends behind the run of whitespace at `pos`, and records
/// that more whitespace was looked for there.
pub proof fn lemma_many_whitespace(input: Seq<u8>, pos: int, failure: Failure)
    requires
        0 <= pos <= input.len(),
    ensures
        many_whitespace(input, pos, failure).end == run_end(input, pos, CharClass::Space),
        many_whitespace(input, pos, failure).failure == failure.mark(
            run_end(input, pos, CharClass::Space),
            Expected::Whitespace,
        ),
        pos <= many_whitespace(input, pos, failure).end <= input.len(),
{
    lemma_run_end(input, pos, CharClass::Space);
    let end = run_end(input, pos, CharClass::Space);
    if end > pos {
        lemma_run_end(input, end, CharClass::Space);
        assert(run_end(input, end, CharClass::Space) == end);
        assert(many_whitespace(input, end, failure) == Skip {
            end,
            failure: failure.mark(end, Expected::Whitespace),
        });
    }
}

/// A word or star that matched consumed at least one character of the
/// input.
pub proof fn lemma_word_or_star_bounds(input: Seq<u8>, pos: int, failure: Failure)
    requires
        0 <= pos <= input.len(),
    ensures
        word_or_star(input, pos, failure).outcome matches Some((end, _)) ==> pos < end
            <= input.len(),
        word(input, pos, failure).outcome matches Some((end, _)) ==> pos < end <= input.len(),
{
    lemma_run_end(input, pos, CharClass::Letter);
}

/// A column that matched consumed at least one character of the input.
pub proof fn lemma_selected_column_bounds(input: Seq<u8>, pos: int, failure: Failure)
    requires
        0 <= pos <= input.len(),
    ensures
        selected_column(input, pos, failure).outcome matches Some((end, _)) ==> pos < end
            <= input.len(),
{
    lemma_word_or_star_bounds(input, pos, failure);
    let name = column_name(input, pos, failure);
    if let Some((after_name, _)) = name.outcome {
        lemma_many_whitespace(input, after_name, name.failure);
        let lead = many_whitespace(input, after_name, name.failure);
        let keyword = literal(input, lead.end, Literal::As, lead.failure);
        if let Some((after_keyword, _)) = keyword.outcome {
            lemma_run_end(input, after_keyword, CharClass::Space);
            let gap = whitespace(input, after_keyword, keyword.failure);
            if let Some((after_gap, _)) = gap.outcome {
                lemma_word_or_star_bounds(input, after_gap, gap.failure);
            }
        }
    }
}

/// A word is an identifier; a word or star is a column name.
pub proof fn lemma_names_wf(input: Seq<u8>, pos: int, failure: Failure)
    requires
        0 <= pos <= input.len(),
    ensures
        word(input, pos, failure).outcome matches Some((_, text)) ==> is_identifier(text),
        word_or_star(input, pos, failure).outcome matches Some((_, text)) ==> is_column_name(text),
{
    lemma_run_end(input, pos, CharClass::Letter);
    if let Some((end, text)) = word(input, pos, failure).outcome {
        assert forall|i: int| 0 <= i < text.len() implies is_name_char(#[trigger] text[i]) by {
            assert(CharClass::Letter.contains(input[pos + i]));
        }
    } else if let Some((end, text)) = word_or_star(input, pos, failure).outcome {
        assert(text =~= seq!['*']);
    }
}

/// A column that matched is well formed.
pub proof fn lemma_selected_column_wf(input: Seq<u8>, pos: int, failure: Failure)
    requires
        0 <= pos <= input.len(),
    ensures
        selected_column(input, pos, failure).outcome matches Some((_, column)) ==> column.wf(),
{
    lemma_names_wf(input, pos, failure);
    lemma_word_or_star_bounds(input, pos, failure);
    let name = column_name(input, pos, failure);
    if let Some((after_name, _)) = name.outcome {
        lemma_many_whitespace(input, after_name, name.failure);
        let lead = many_whitespace(input, after_name, name.failure);
        let keyword = literal(input, lead.end, Literal::As, lead.failure);
        if let Some((after_keyword, _)) = keyword.outcome {
            lemma_run_end(input, after_keyword, CharClass::Space);
            let gap = whitespace(input, after_keyword, keyword.failure);
            if let Some((after_gap, _)) = gap.outcome {
                lemma_names_wf(input, after_gap, gap.failure);
            }
        }
    }
}

/// The columns that follow the first are well formed, and the repetition
/// ends within the input.
pub proof fn lemma_more_columns_wf(input: Seq<u8>, pos: int, failure: Failure)
    requires
        0 <= pos <= input.len(),
    ensures
        forall|i: int|
            0 <= i < more_columns(input, pos, failure).values.len() ==> (#[trigger] more_columns(
                input,
                pos,
                failure,
            ).values[i]).wf(),
        pos <= more_columns(input, pos, failure).end <= input.len(),
    decreases input.len() - pos,
{
    let comma = literal(input, pos, Literal::Comma, failure);
    if let Some((after_comma, _)) = comma.outcome {
        lemma_many_whitespace(input, after_comma, comma.failure);
        let gap = many_whitespace(input, after_comma, comma.failure);
        lemma_selected_column_bounds(input, gap.end, gap.failure);
        lemma_selected_column_wf(input, gap.end, gap.failure);
        let column = selected_column(input, gap.end, gap.failure);
        if let Some((after_column, value)) = column.outcome {
            lemma_more_columns_wf(input, after_column, column.failure);
            let rest = more_columns(input, after_column, column.failure);
            let all = more_columns(input, pos, failure);
            assert(all.values == seq![value] + rest.values);
            assert forall|i: int| 0 <= i < all.values.len() implies (#[trigger] all.values[i]).wf() by {
                if i > 0 {
                    assert(all.values[i] == rest.values[i - 1]);
                }
            }
        }
    }
}

/// A statement that parsed is well formed: it has a column, and the names
/// in it are names of the grammar.
pub proof fn lemma_sql_wf(input: Seq<u8>, pos: int, failure: Failure)
    requires
        0 <= pos <= input.len(),
    ensures
        sql(input, pos, failure).outcome matches Some((_, statement)) ==> statement.wf(),
{
    let keyword = literal(input, pos, Literal::Select, failure);
    if let Some((after_keyword, _)) = keyword.outcome {
        lemma_run_end(input, after_keyword, CharClass::Space);
        let gap = whitespace(input, after_keyword, keyword.failure);
        if let Some((after_gap, _)) = gap.outcome {
            lemma_selected_column_bounds(input, after_gap, gap.failure);
            lemma_selected_column_wf(input, after_gap, gap.failure);
            let first = selected_column(input, after_gap, gap.failure);
            if let Some((after_first, value)) = first.outcome {
                lemma_more_columns_wf(input, after_first, first.failure);
                let rest = more_columns(input, after_first, first.failure);
                let columns = selected_columns(input, after_gap, gap.failure);
                let values = seq![value] + rest.values;
                assert forall|i: int| 0 <= i < values.len() implies (#[trigger] values[i]).wf() by {
                    if i > 0 {
                        assert(values[i] == rest.values[i - 1]);
                    }
                }
                lemma_many_whitespace(input, rest.end, columns.failure);
                let tail = many_whitespace(input, rest.end, columns.failure);
                let from = literal(input, tail.end, Literal::From, tail.failure);
                if let Some((after_from, _)) = from.outcome {
                    lemma_run_end(input, after_from, CharClass::Space);
                    let space = whitespace(input, after_from, from.failure);
                    if let Some((after_space, _)) = space.outcome {
                        lemma_names_wf(input, after_space, space.failure);
                    }
                }
            }
        }
    }
}

/// `whitespace` and `selected_column` keep a failure sound; `whitespace`
/// names what it expected where it fails, `selected_column` always.
pub proof fn lemma_selected_column_failure(input: Seq<u8>, pos: int, failure: Failure)
    requires
        0 <= pos <= input.len(),
        ascii_before(input, pos),
        failure.sound(input),
    ensures
        whitespace(input, pos, failure).failure.extends(failure, input),
        match whitespace(input, pos, failure).outcome {
            Some((end, _)) => pos < end <= input.len() && ascii_before(input, end),
            None => whitespace(input, pos, failure).failure.names_something(),
        },
        selected_column(input, pos, failure).failure.extends(failure, input),
        selected_column(input, pos, failure).failure.names_something(),
{
    lemma_primitive_failures(input, pos, Literal::As, CharClass::Space, failure);
    failure.lemma_mark(pos, Expected::Whitespace, input);
    lemma_primitive_failures(input, pos, Literal::As, CharClass::Letter, failure);
    let letters = class_run(input, pos, CharClass::Letter, failure);
    lemma_primitive_failures(input, pos, Literal::As, CharClass::Star, letters.failure);
    let name = column_name(input, pos, failure);
    if let Some((after_name, _)) = name.outcome {
        lemma_alias_failure(input, after_name, name.failure);
    }
}

/// `as_alias` keeps a failure sound and always names what it expected
/// last.
proof fn lemma_alias_failure(input: Seq<u8>, pos: int, failure: Failure)
    requires
        0 <= pos <= input.len(),
        ascii_before(input, pos),
        failure.sound(input),
    ensures
        as_alias(input, pos, failure).failure.extends(failure, input),
        as_alias(input, pos, failure).failure.names_something(),
{
    lemma_primitive_failures(input, pos, Literal::As, CharClass::Space, failure);
    lemma_many_whitespace(input, pos, failure);
    failure.lemma_mark(run_end(input, pos, CharClass::Space), Expected::Whitespace, input);
    let lead = many_whitespace(input, pos, failure);
    lemma_primitive_failures(input, lead.end, Literal::As, CharClass::Letter, lead.failure);
    let keyword = literal(input, lead.end, Literal::As, lead.failure);
    if let Some((after_keyword, _)) = keyword.outcome {
        lemma_primitive_failures(
            input,
            after_keyword,
            Literal::As,
            CharClass::Space,
            keyword.failure,
        );
        keyword.failure.lemma_mark(after_keyword, Expected::Whitespace, input);
        let gap = whitespace(input, after_keyword, keyword.failure);
        if let Some((after_gap, _)) = gap.outcome {
            lemma_primitive_failures(input, after_gap, Literal::As, CharClass::Letter, gap.failure);
            let letters = class_run(input, after_gap, CharClass::Letter, gap.failure);
            lemma_primitive_failures(
                input,
                after_gap,
                Literal::As,
                CharClass::Star,
                letters.failure,
            );
        }
    }
}

/// A statement that does not parse fails at an offset within the input,
/// behind ASCII text only, and names at least one thing that was expected
/// there.
pub proof fn lemma_parse_sql_failure(input: Seq<u8>)
    ensures
        parse_sql(input) matches Err(failure) ==> 0 <= failure.position <= input.len()
            && ascii_before(input, failure.position) && failure.names_something(),
{
    let start = Failure::start();
    lemma_primitive_failures(input, 0, Literal::Select, CharClass::Letter, start);
    let keyword = literal(input, 0, Literal::Select, start);
    if let Some((after_keyword, _)) = keyword.outcome {
        lemma_selected_column_failure(input, after_keyword, keyword.failure);
        let gap = whitespace(input, after_keyword, keyword.failure);
        if let Some((after_gap, _)) = gap.outcome {
            lemma_selected_column_failure(input, after_gap, gap.failure);
        }
    }
}

/// Keywords are matched in their own case only: an input that does not
/// begin with the bytes of `SELECT` fails at its start, and `SELECT` is
/// all that is named as expected.
pub proof fn lemma_sql_needs_select(input: Seq<u8>)
    requires
        !literal_at(input, 0, Literal::Select.bytes()),
    ensures
        parse_sql(input) == Err::<SelectFromTableView, Failure>(
            Failure {
                position: 0,
                expected: Set::empty().insert(Expected::Literal(Literal::Select)),
            },
        ),
{
}

} // verus!
