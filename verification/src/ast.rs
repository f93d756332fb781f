//! What a `SELECT` statement parses to.
use vstd::prelude::*;
use vstd::string::*;

verus! {

/// A selected column as a mathematical value.
pub struct SelectedColumnView {
    pub name: Seq<char>,
    pub alias: Option<Seq<char>>,
}

/// A table as a mathematical value.
pub struct TableView {
    pub name: Seq<char>,
}

/// A statement as a mathematical value.
pub struct SelectFromTableView {
    pub table: Option<TableView>,
    pub columns: Seq<SelectedColumnView>,
}

/// Whether the character may stand in a name: an ASCII letter or `_`.
pub open spec fn is_name_char(c: char) -> bool {
    ('a' <= c <= 'z') || ('A' <= c <= 'Z') || c == '_'
}

/// Whether the text is one or more name characters.
pub open spec fn is_identifier(text: Seq<char>) -> bool {
    text.len() > 0 && forall|i: int| 0 <= i < text.len() ==> is_name_char(#[trigger] text[i])
}

/// Whether the text can name a column: an identifier, or `*` alone.
pub open spec fn is_column_name(text: Seq<char>) -> bool {
    is_identifier(text) || text == seq!['*']
}

impl SelectedColumnView {
    /// The name is a column name, and so is the alias if there is one.
    pub open spec fn wf(self) -> bool {
        &&& is_column_name(self.name)
        &&& self.alias matches Some(alias) ==> is_column_name(alias)
    }
}

impl TableView {
    /// The name is an identifier.
    pub open spec fn wf(self) -> bool {
        is_identifier(self.name)
    }
}

impl SelectFromTableView {
    /// There is at least one column; every column and the table, if there
    /// is one, are well formed.
    pub open spec fn wf(self) -> bool {
        &&& self.columns.len() > 0
        &&& forall|i: int| 0 <= i < self.columns.len() ==> (#[trigger] self.columns[i]).wf()
        &&& self.table matches Some(table) ==> table.wf()
    }
}

/// One column of a `SELECT`: its name, or `*`, and the alias given to it
/// with `as`.
#[derive(Debug)]
pub struct SelectedColumn {
    pub name: String,
    pub alias: Option<String>,
}

impl View for SelectedColumn {
    type V = SelectedColumnView;

    open spec fn view(&self) -> SelectedColumnView {
        SelectedColumnView {
            name: self.name@,
            alias: match self.alias {
                Some(alias) => Some(alias@),
                None => None,
            },
        }
    }
}

impl DeepView for SelectedColumn {
    type V = SelectedColumnView;

    open spec fn deep_view(&self) -> SelectedColumnView {
        self@
    }
}

impl PartialEq for SelectedColumn {
    fn eq(&self, other: &Self) -> (r: bool) {
        let same_alias = match (&self.alias, &other.alias) {
            (Some(a), Some(b)) => *a == *b,
            (None, None) => true,
            _ => false,
        };
        self.name == other.name && same_alias
    }
}

impl vstd::std_specs::cmp::PartialEqSpecImpl for SelectedColumn {
    open spec fn obeys_eq_spec() -> bool {
        true
    }

    open spec fn eq_spec(&self, other: &Self) -> bool {
        self@ == other@
    }
}

/// The table of a `FROM` clause.
#[derive(Debug)]
pub struct Table {
    pub name: String,
}

impl View for Table {
    type V = TableView;

    open spec fn view(&self) -> TableView {
        TableView { name: self.name@ }
    }
}

impl DeepView for Table {
    type V = TableView;

    open spec fn deep_view(&self) -> TableView {
        self@
    }
}

impl PartialEq for Table {
    fn eq(&self, other: &Self) -> (r: bool) {
        self.name == other.name
    }
}

impl vstd::std_specs::cmp::PartialEqSpecImpl for Table {
    open spec fn obeys_eq_spec() -> bool {
        true
    }

    open spec fn eq_spec(&self, other: &Self) -> bool {
        self@ == other@
    }
}

/// A parsed `SELECT`: the columns in the order in which they were written,
/// and the table of the `FROM` clause if there was one.
#[derive(Debug)]
pub struct SelectFromTable {
    pub table: Option<Table>,
    pub columns: Vec<SelectedColumn>,
}

/// The views of the columns, in order.
pub open spec fn columns_view(columns: Seq<SelectedColumn>) -> Seq<SelectedColumnView> {
    Seq::new(columns.len(), |i: int| columns[i]@)
}

impl View for SelectFromTable {
    type V = SelectFromTableView;

    open spec fn view(&self) -> SelectFromTableView {
        SelectFromTableView {
            table: match self.table {
                Some(table) => Some(table@),
                None => None,
            },
            columns: columns_view(self.columns@),
        }
    }
}

impl DeepView for SelectFromTable {
    type V = SelectFromTableView;

    open spec fn deep_view(&self) -> SelectFromTableView {
        self@
    }
}

impl PartialEq for SelectFromTable {
    fn eq(&self, other: &Self) -> (r: bool) {
        let same_table = match (&self.table, &other.table) {
            (Some(a), Some(b)) => a.eq(b),
            (None, None) => true,
            _ => false,
        };
        if !same_table || self.columns.len() != other.columns.len() {
            proof {
                if self.columns.len() != other.columns.len() {
                    assert(self@.columns.len() != other@.columns.len());
                }
            }
            return false;
        }
        let mut i: usize = 0;
        while i < self.columns.len()
            invariant
                i <= self.columns.len(),
                self.columns.len() == other.columns.len(),
                forall|k: int| 0 <= k < i ==> self.columns@[k]@ == other.columns@[k]@,
            decreases self.columns.len() - i,
        {
            if !self.columns[i].eq(&other.columns[i]) {
                proof {
                    assert(self@.columns[i as int] == self.columns@[i as int]@);
                    assert(other@.columns[i as int] == other.columns@[i as int]@);
                }
                return false;
            }
            i = i + 1;
        }
        proof {
            assert(self@.columns =~= other@.columns);
        }
        true
    }
}

impl vstd::std_specs::cmp::PartialEqSpecImpl for SelectFromTable {
    open spec fn obeys_eq_spec() -> bool {
        true
    }

    open spec fn eq_spec(&self, other: &Self) -> bool {
        self@ == other@
    }
}

/// The columns of a statement that writes to a table. No rule of the
/// grammar produces it.
#[derive(Debug)]
pub struct SelectToTable {
    pub columns: Vec<SelectedColumn>,
}

} // verus!
