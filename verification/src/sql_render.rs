//! Writing a statement down, and the law that ties writing to parsing: a
//! well-formed statement, written with any whitespace where the grammar
//! takes whitespace, parses to itself.
use crate::ast::{
    is_column_name, is_identifier, is_name_char, SelectFromTableView, SelectedColumnView,
    TableView,
};
use crate::engine::{
    lemma_literal_at_concat, lemma_literal_at_index, lemma_literal_at_mismatch, lemma_run_written,
    literal, literal_at, run_end,
};
use crate::error::Failure;
use crate::sql_grammar::{
    as_alias, column_name, from_table, lemma_many_whitespace, many_whitespace, more_columns,
    parse_sql, selected_column, selected_columns, whitespace, word, word_or_star,
};
use crate::text::{all_in_class, ascii_chars};
use crate::token::{CharClass, Literal};
use vstd::prelude::*;

verus! {

/// The whitespace that a statement is written with: what stands behind
/// `SELECT`, behind each comma, on both sides of each `as`, and on both
/// sides of `FROM`.
pub struct Layout {
    pub after_select: Seq<u8>,
    pub after_comma: Seq<u8>,
    pub before_as: Seq<u8>,
    pub after_as: Seq<u8>,
    pub before_from: Seq<u8>,
    pub after_from: Seq<u8>,
}

impl Layout {
    /// Every part is whitespace, and only the part behind a comma may be
    /// empty.
    pub open spec fn wf(self) -> bool {
        &&& all_in_class(self.after_select, CharClass::Space)
        &&& all_in_class(self.after_comma, CharClass::Space)
        &&& all_in_class(self.before_as, CharClass::Space)
        &&& all_in_class(self.after_as, CharClass::Space)
        &&& all_in_class(self.before_from, CharClass::Space)
        &&& all_in_class(self.after_from, CharClass::Space)
        &&& self.after_select.len() > 0
        &&& self.before_as.len() > 0
        &&& self.after_as.len() > 0
        &&& self.before_from.len() > 0
        &&& self.after_from.len() > 0
    }
}

/// The bytes of a name.
pub open spec fn name_bytes(name: Seq<char>) -> Seq<u8> {
    Seq::new(name.len(), |i: int| name[i] as u8)
}

/// An alias as it is written behind a column name; nothing where there is
/// no alias.
pub open spec fn render_alias(alias: Option<Seq<char>>, layout: Layout) -> Seq<u8> {
    match alias {
        None => Seq::empty(),
        Some(text) => layout.before_as + (Literal::As.bytes() + (layout.after_as + name_bytes(
            text,
        ))),
    }
}

/// A column as it is written.
pub open spec fn render_column(column: SelectedColumnView, layout: Layout) -> Seq<u8> {
    name_bytes(column.name) + render_alias(column.alias, layout)
}

/// Each of the columns written behind a comma.
pub open spec fn render_more_columns(columns: Seq<SelectedColumnView>, layout: Layout) -> Seq<u8>
    decreases columns.len(),
{
    if columns.len() == 0 {
        Seq::empty()
    } else {
        Literal::Comma.bytes() + (layout.after_comma + (render_column(columns[0], layout)
            + render_more_columns(columns.drop_first(), layout)))
    }
}

/// The columns as they are written, with a comma between each two.
pub open spec fn render_columns(columns: Seq<SelectedColumnView>, layout: Layout) -> Seq<u8> {
    if columns.len() == 0 {
        Seq::empty()
    } else {
        render_column(columns[0], layout) + render_more_columns(columns.drop_first(), layout)
    }
}

/// The `FROM` clause as it is written; nothing where there is no table.
pub open spec fn render_from(table: Option<TableView>, layout: Layout) -> Seq<u8> {
    match table {
        None => Seq::empty(),
        Some(t) => layout.before_from + (Literal::From.bytes() + (layout.after_from + name_bytes(
            t.name,
        ))),
    }
}

/// A statement as it is written.
pub open spec fn render_sql(statement: SelectFromTableView, layout: Layout) -> Seq<u8> {
    Literal::Select.bytes() + (layout.after_select + (render_columns(statement.columns, layout)
        + render_from(statement.table, layout)))
}

/// Nothing at `pos` continues a name or begins an alias.
pub open spec fn ends_column(input: Seq<u8>, pos: int) -> bool {
    &&& pos < input.len() ==> !CharClass::Letter.contains(input[pos])
    &&& !literal_at(input, run_end(input, pos, CharClass::Space), Literal::As.bytes())
}

/// Nothing at `pos` continues the columns.
pub open spec fn ends_columns(input: Seq<u8>, pos: int) -> bool {
    &&& ends_column(input, pos)
    &&& !literal_at(input, pos, Literal::Comma.bytes())
}

/// A name begins with a character that is neither whitespace nor a comma,
/// and its bytes stand for its characters.
pub proof fn lemma_name_bytes(name: Seq<char>)
    requires
        is_column_name(name),
    ensures
        name_bytes(name).len() == name.len() >= 1,
        !CharClass::Space.contains(name_bytes(name)[0]),
        is_identifier(name) ==> all_in_class(name_bytes(name), CharClass::Letter),
        !is_identifier(name) ==> name_bytes(name) == seq!['*' as u8],
        ascii_chars(name_bytes(name)) == name,
{
    let bytes = name_bytes(name);
    if is_identifier(name) {
        assert forall|i: int| 0 <= i < bytes.len() implies CharClass::Letter.contains(
            #[trigger] bytes[i],
        ) by {
            assert(is_name_char(name[i]));
        }
        assert(CharClass::Letter.contains(bytes[0]));
        assert forall|i: int| 0 <= i < name.len() implies ascii_chars(bytes)[i] == name[i] by {
            assert(is_name_char(name[i]));
        }
        assert(ascii_chars(bytes) =~= name);
    } else {
        assert(bytes =~= seq!['*' as u8]);
        assert(ascii_chars(bytes) =~= name);
    }
}

/// Where a name is written at `pos` and no name character follows it, the
/// name rules match it and give it back.
pub proof fn lemma_name_written(input: Seq<u8>, pos: int, name: Seq<char>, failure: Failure)
    requires
        is_column_name(name),
        literal_at(input, pos, name_bytes(name)),
        pos + name.len() < input.len() ==> !CharClass::Letter.contains(input[pos + name.len()]),
    ensures
        word_or_star(input, pos, failure).outcome == Some((pos + name.len(), name)),
        is_identifier(name) ==> word(input, pos, failure).outcome == Some(
            (pos + name.len(), name),
        ),
{
    lemma_name_bytes(name);
    let bytes = name_bytes(name);
    if is_identifier(name) {
        lemma_run_written(input, pos, bytes, CharClass::Letter);
    } else {
        lemma_literal_at_index(input, pos, bytes, 0);
        assert(run_end(input, pos, CharClass::Letter) == pos);
        assert(input.subrange(pos, pos + 1) == bytes);
    }
}

/// Where `as` does not stand behind the whitespace at `pos`, there is no
/// alias.
pub proof fn lemma_alias_absent(input: Seq<u8>, pos: int, failure: Failure)
    requires
        0 <= pos <= input.len(),
        !literal_at(input, run_end(input, pos, CharClass::Space), Literal::As.bytes()),
    ensures
        as_alias(input, pos, failure).outcome is None,
{
    lemma_many_whitespace(input, pos, failure);
}

/// Where an alias is written at `pos` and no name character follows it,
/// `as_alias` gives the alias.
pub proof fn lemma_alias_written(
    input: Seq<u8>,
    pos: int,
    alias: Seq<char>,
    layout: Layout,
    failure: Failure,
)
    requires
        layout.wf(),
        is_column_name(alias),
        literal_at(input, pos, render_alias(Some(alias), layout)),
        pos + render_alias(Some(alias), layout).len() < input.len() ==> !CharClass::Letter.contains(
            input[pos + render_alias(Some(alias), layout).len()],
        ),
    ensures
        as_alias(input, pos, failure).outcome == Some(
            (pos + render_alias(Some(alias), layout).len(), alias),
        ),
{
    let keyword = Literal::As.bytes();
    let name = name_bytes(alias);
    lemma_name_bytes(alias);
    lemma_literal_at_concat(input, pos, layout.before_as, keyword + (layout.after_as + name));
    let at_keyword = pos + layout.before_as.len();
    lemma_literal_at_concat(input, at_keyword, keyword, layout.after_as + name);
    let after_keyword = at_keyword + 2;
    lemma_literal_at_concat(input, after_keyword, layout.after_as, name);
    let at_name = after_keyword + layout.after_as.len();

    lemma_literal_at_index(input, at_keyword, keyword, 0);
    lemma_run_written(input, pos, layout.before_as, CharClass::Space);
    lemma_many_whitespace(input, pos, failure);
    let lead = many_whitespace(input, pos, failure);
    let matched = literal(input, lead.end, Literal::As, lead.failure);
    assert(matched.outcome == Some((after_keyword, ())));

    lemma_literal_at_index(input, at_name, name, 0);
    lemma_run_written(input, after_keyword, layout.after_as, CharClass::Space);
    let gap = whitespace(input, after_keyword, matched.failure);
    assert(gap.outcome == Some((at_name, ())));
    lemma_name_written(input, at_name, alias, gap.failure);
}

/// Where a column is written at `pos` and what follows ends it,
/// `selected_column` gives the column.
pub proof fn lemma_column_written(
    input: Seq<u8>,
    pos: int,
    column: SelectedColumnView,
    layout: Layout,
    failure: Failure,
)
    requires
        layout.wf(),
        column.wf(),
        literal_at(input, pos, render_column(column, layout)),
        ends_column(input, pos + render_column(column, layout).len()),
    ensures
        selected_column(input, pos, failure).outcome == Some(
            (pos + render_column(column, layout).len(), column),
        ),
{
    let name = name_bytes(column.name);
    lemma_name_bytes(column.name);
    lemma_literal_at_concat(input, pos, name, render_alias(column.alias, layout));
    let after_name = pos + name.len();
    match column.alias {
        None => {
            lemma_name_written(input, pos, column.name, failure);
            let matched = column_name(input, pos, failure);
            lemma_alias_absent(input, after_name, matched.failure);
        },
        Some(alias) => {
            let written = render_alias(Some(alias), layout);
            lemma_literal_at_index(input, after_name, written, 0);
            assert(written[0] == layout.before_as[0]);
            assert(CharClass::Space.contains(layout.before_as[0]));
            lemma_name_written(input, pos, column.name, failure);
            let matched = column_name(input, pos, failure);
            lemma_alias_written(input, after_name, alias, layout, matched.failure);
        },
    }
}

/// A column is written with a first character that is neither whitespace
/// nor a comma.
pub proof fn lemma_column_first(column: SelectedColumnView, layout: Layout)
    requires
        column.wf(),
    ensures
        render_column(column, layout).len() >= 1,
        !CharClass::Space.contains(render_column(column, layout)[0]),
{
    lemma_name_bytes(column.name);
}

/// Where columns are written behind commas at `pos` and what follows ends
/// them, `more_columns` gives them all and ends behind them.
pub proof fn lemma_more_columns_written(
    input: Seq<u8>,
    pos: int,
    columns: Seq<SelectedColumnView>,
    layout: Layout,
    failure: Failure,
)
    requires
        layout.wf(),
        forall|i: int| 0 <= i < columns.len() ==> (#[trigger] columns[i]).wf(),
        literal_at(input, pos, render_more_columns(columns, layout)),
        ends_columns(input, pos + render_more_columns(columns, layout).len()),
    ensures
        more_columns(input, pos, failure).values == columns,
        more_columns(input, pos, failure).end == pos + render_more_columns(columns, layout).len(),
    decreases columns.len(),
{
    if columns.len() == 0 {
        assert(more_columns(input, pos, failure).values =~= columns);
    } else {
        let first = columns[0];
        let rest = columns.drop_first();
        let written = render_column(first, layout);
        let tail = render_more_columns(rest, layout);
        assert(first.wf());
        assert forall|i: int| 0 <= i < rest.len() implies (#[trigger] rest[i]).wf() by {
            assert(rest[i] == columns[i + 1]);
        }
        lemma_column_first(first, layout);
        lemma_literal_at_concat(
            input,
            pos,
            Literal::Comma.bytes(),
            layout.after_comma + (written + tail),
        );
        let after_comma = pos + 1;
        lemma_literal_at_concat(input, after_comma, layout.after_comma, written + tail);
        let at_column = after_comma + layout.after_comma.len();
        lemma_literal_at_concat(input, at_column, written, tail);
        let after_column = at_column + written.len();

        let comma = literal(input, pos, Literal::Comma, failure);
        assert(comma.outcome == Some((after_comma, ())));
        lemma_literal_at_index(input, at_column, written, 0);
        lemma_run_written(input, after_comma, layout.after_comma, CharClass::Space);
        lemma_many_whitespace(input, after_comma, comma.failure);
        let gap = many_whitespace(input, after_comma, comma.failure);
        assert(gap.end == at_column);

        assert(ends_column(input, after_column)) by {
            if rest.len() > 0 {
                lemma_literal_at_index(input, after_column, tail, 0);
                assert(input[after_column] == ',' as u8);
                assert(run_end(input, after_column, CharClass::Space) == after_column);
                lemma_literal_at_mismatch(input, after_column, Literal::As.bytes());
            }
        }
        lemma_column_written(input, at_column, first, layout, gap.failure);
        let column = selected_column(input, at_column, gap.failure);
        lemma_more_columns_written(input, after_column, rest, layout, column.failure);
        assert(seq![first] + rest =~= columns);
    }
}

/// Where columns are written at `pos` and what follows ends them,
/// `selected_columns` gives them all and ends behind them.
pub proof fn lemma_columns_written(
    input: Seq<u8>,
    pos: int,
    columns: Seq<SelectedColumnView>,
    layout: Layout,
    failure: Failure,
)
    requires
        layout.wf(),
        columns.len() > 0,
        forall|i: int| 0 <= i < columns.len() ==> (#[trigger] columns[i]).wf(),
        literal_at(input, pos, render_columns(columns, layout)),
        ends_columns(input, pos + render_columns(columns, layout).len()),
    ensures
        selected_columns(input, pos, failure).outcome == Some(
            (pos + render_columns(columns, layout).len(), columns),
        ),
{
    let first = columns[0];
    let rest = columns.drop_first();
    let written = render_column(first, layout);
    let tail = render_more_columns(rest, layout);
    assert(first.wf());
    assert forall|i: int| 0 <= i < rest.len() implies (#[trigger] rest[i]).wf() by {
        assert(rest[i] == columns[i + 1]);
    }
    lemma_literal_at_concat(input, pos, written, tail);
    let after_first = pos + written.len();
    assert(ends_column(input, after_first)) by {
        if rest.len() > 0 {
            lemma_literal_at_index(input, after_first, tail, 0);
            assert(input[after_first] == ',' as u8);
            assert(run_end(input, after_first, CharClass::Space) == after_first);
            lemma_literal_at_mismatch(input, after_first, Literal::As.bytes());
        }
    }
    lemma_column_written(input, pos, first, layout, failure);
    let column = selected_column(input, pos, failure);
    lemma_more_columns_written(input, after_first, rest, layout, column.failure);
    assert(seq![first] + rest =~= columns);
}

/// Where a `FROM` clause, or nothing, is written at `pos` and the input
/// ends behind it: what stands at `pos` ends the columns, and behind the
/// whitespace at `pos` `from_table` gives the table, if one is written.
pub proof fn lemma_from_written(
    input: Seq<u8>,
    pos: int,
    table: Option<TableView>,
    layout: Layout,
    failure: Failure,
)
    requires
        layout.wf(),
        table matches Some(t) ==> t.wf(),
        literal_at(input, pos, render_from(table, layout)),
        pos + render_from(table, layout).len() == input.len(),
    ensures
        ends_columns(input, pos),
        from_table(
            input,
            many_whitespace(input, pos, failure).end,
            many_whitespace(input, pos, failure).failure,
        ).outcome == match table {
            None => None,
            Some(t) => Some((input.len() as int, t)),
        },
{
    lemma_many_whitespace(input, pos, failure);
    let space = many_whitespace(input, pos, failure);
    match table {
        None => {
            assert(run_end(input, pos, CharClass::Space) == pos);
            lemma_literal_at_mismatch(input, pos, Literal::As.bytes());
            lemma_literal_at_mismatch(input, pos, Literal::Comma.bytes());
            lemma_literal_at_mismatch(input, pos, Literal::From.bytes());
        },
        Some(t) => {
            let name = name_bytes(t.name);
            let keyword = Literal::From.bytes();
            lemma_name_bytes(t.name);
            lemma_literal_at_concat(
                input,
                pos,
                layout.before_from,
                keyword + (layout.after_from + name),
            );
            let at_keyword = pos + layout.before_from.len();
            lemma_literal_at_concat(input, at_keyword, keyword, layout.after_from + name);
            let after_keyword = at_keyword + 4;
            lemma_literal_at_concat(input, after_keyword, layout.after_from, name);
            let at_name = after_keyword + layout.after_from.len();
            lemma_literal_at_index(input, pos, layout.before_from, 0);
            lemma_literal_at_index(input, at_keyword, keyword, 0);
            lemma_literal_at_index(input, at_name, name, 0);
            assert(CharClass::Space.contains(layout.before_from[0]));
            lemma_run_written(input, pos, layout.before_from, CharClass::Space);
            lemma_literal_at_mismatch(input, at_keyword, Literal::As.bytes());
            lemma_literal_at_mismatch(input, pos, Literal::Comma.bytes());
            lemma_run_written(input, after_keyword, layout.after_from, CharClass::Space);
            let from = literal(input, at_keyword, Literal::From, space.failure);
            assert(from.outcome == Some((after_keyword, ())));
            let pad = whitespace(input, after_keyword, from.failure);
            assert(pad.outcome == Some((at_name, ())));
            lemma_name_written(input, at_name, t.name, pad.failure);
        },
    }
}

/// Whether the input parses to the statement.
#[verifier::opaque]
spec fn parses_to(input: Seq<u8>, statement: SelectFromTableView) -> bool {
    parse_sql(input) == Ok::<SelectFromTableView, Failure>(statement)
}

/// Where the parts of a statement are written one behind the other from
/// the start of the input to its end, the input parses to the statement.
proof fn lemma_sql_written(input: Seq<u8>, statement: SelectFromTableView, layout: Layout)
    requires
        statement.wf(),
        layout.wf(),
        literal_at(input, 0, Literal::Select.bytes()),
        literal_at(input, 6, layout.after_select),
        literal_at(
            input,
            6 + layout.after_select.len() as int,
            render_columns(statement.columns, layout),
        ),
        literal_at(
            input,
            6 + layout.after_select.len() as int + render_columns(statement.columns, layout).len() as int,
            render_from(statement.table, layout),
        ),
        6 + layout.after_select.len() as int + render_columns(statement.columns, layout).len()
            + render_from(statement.table, layout).len() == input.len(),
    ensures
        parses_to(input, statement),
{
    reveal(parses_to);
    let columns = render_columns(statement.columns, layout);
    let at_columns: int = 6 + layout.after_select.len() as int;
    let after_columns: int = at_columns + columns.len() as int;
    assert(statement.columns[0].wf());
    lemma_column_first(statement.columns[0], layout);

    let keyword = literal(input, 0, Literal::Select, Failure::start());
    assert(keyword.outcome == Some((6int, ())));
    lemma_literal_at_index(input, at_columns, columns, 0);
    lemma_run_written(input, 6, layout.after_select, CharClass::Space);
    let gap = whitespace(input, 6, keyword.failure);
    assert(gap.outcome == Some((at_columns, ())));

    let all = selected_columns(input, at_columns, gap.failure);
    lemma_from_written(input, after_columns, statement.table, layout, all.failure);
    lemma_columns_written(input, at_columns, statement.columns, layout, gap.failure);
    assert(all.outcome == Some((after_columns, statement.columns)));
    let tail = many_whitespace(input, after_columns, all.failure);
    let from = from_table(input, tail.end, tail.failure);
    match statement.table {
        None => {
            assert(from.outcome is None);
        },
        Some(table) => {
            assert(from.outcome == Some((input.len() as int, table)));
        },
    }
}

/// Four texts written one behind the other stand where the lengths of
/// those before them say.
proof fn lemma_four_parts(input: Seq<u8>, a: Seq<u8>, b: Seq<u8>, c: Seq<u8>, d: Seq<u8>)
    requires
        input == a + (b + (c + d)),
    ensures
        literal_at(input, 0, a),
        literal_at(input, a.len() as int, b),
        literal_at(input, (a.len() + b.len()) as int, c),
        literal_at(input, (a.len() + b.len() + c.len()) as int, d),
        input.len() == a.len() + b.len() + c.len() + d.len(),
{
    assert(input.subrange(0, input.len() as int) =~= input);
    lemma_literal_at_concat(input, 0, a, b + (c + d));
    lemma_literal_at_concat(input, a.len() as int, b, c + d);
    lemma_literal_at_concat(input, (a.len() + b.len()) as int, c, d);
}

/// A well-formed statement, written with any whitespace that the grammar
/// accepts, parses to itself: `parse_sql` undoes `render_sql`, whatever the
/// layout. So two ways of writing one statement that differ only in their
/// whitespace parse to the same value.
pub proof fn lemma_parse_sql_round_trip(statement: SelectFromTableView, layout: Layout)
    requires
        statement.wf(),
        layout.wf(),
    ensures
        parse_sql(render_sql(statement, layout)) == Ok::<SelectFromTableView, Failure>(statement),
{
    let input = render_sql(statement, layout);
    lemma_four_parts(
        input,
        Literal::Select.bytes(),
        layout.after_select,
        render_columns(statement.columns, layout),
        render_from(statement.table, layout),
    );
    lemma_sql_written(input, statement, layout);
    assert(parse_sql(input) == Ok::<SelectFromTableView, Failure>(statement)) by {
        reveal(parses_to);
    }
}

/// Whitespace does not matter: one statement written with two layouts
/// parses to the same value.
pub proof fn lemma_layout_does_not_matter(
    statement: SelectFromTableView,
    one: Layout,
    other: Layout,
)
    requires
        statement.wf(),
        one.wf(),
        other.wf(),
    ensures
        parse_sql(render_sql(statement, one)) == parse_sql(render_sql(statement, other)),
{
    lemma_parse_sql_round_trip(statement, one);
    lemma_parse_sql_round_trip(statement, other);
}

} // verus!
