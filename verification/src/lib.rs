//! A small backtracking parser for two grammars: a bracketed list of
//! unsigned integers and a minimal `SELECT` statement.
//!
//! Every rule is a function from an input and a byte offset to either a
//! value with the offset behind it, or a failure. The furthest failure seen
//! is kept in an [`error::ErrorState`] and becomes the [`error::ParseError`]
//! of a failed parse.
//!
//! What each grammar means is written down once, as mathematical functions
//! on bytes, in [`list_grammar`] and [`sql_grammar`]; the parsers in
//! [`list_parser`] and [`sql_parser`] are proved to compute exactly that.
//! [`list_grammar`] and [`sql_render`] also hold the laws that tie parsing
//! to writing: what is written down parses to itself.
pub mod ast;
pub mod engine;
pub mod error;
pub mod list_grammar;
pub mod list_parser;
pub mod sql_grammar;
pub mod sql_parser;
pub mod sql_render;
pub mod text;
pub mod token;

pub use ast::{SelectFromTable, SelectToTable, SelectedColumn, Table};
pub use error::{ExpectedSet, ParseError};
pub use list_parser::parse_list;
pub use sql_parser::parse_sql;
pub use token::{CharClass, Expected, Literal};
