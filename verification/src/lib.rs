//! A parser for the LSP snippet template grammar.
//!
//! `parse` turns a textual snippet template into a tree of tabstops,
//! placeholders, choices, variables and literal text, as used by editor
//! code-completion engines.  The grammar is a backtracking PEG: alternatives
//! are tried strictly in order, a failing production consumes nothing, and
//! the first success wins.

pub mod ast;
pub mod grammar;
pub mod laws;
pub mod parser;
pub mod scan;

pub use ast::CaseChange;
pub use ast::FormatItem;
pub use ast::Regex;
pub use ast::Snippet;
pub use ast::SnippetElement;
pub use parser::parse;
