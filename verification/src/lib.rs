//! A verified core for the `INFO` introspection clause of a small SQL-like
//! query language.
//!
//! The clause names one of four targets: the whole namespace catalog, the
//! current database, a named authorization scope, or a named table.  The
//! library parses clause text into an [`InfoStatement`], renders a statement
//! back into canonical text, and gates execution behind a permission-tier
//! check.

mod auth;
mod keywords;
mod laws;
mod parse;
mod statement;
mod text;

pub use auth::{Error, Level, Options};
pub use keywords::{
    clause, kw_database, kw_db, kw_for, kw_info, kw_namespace, kw_ns, kw_sc, kw_scope, kw_tb,
    kw_table,
};
pub use laws::{
    lemma_alias_database, lemma_alias_namespace, lemma_alias_scope, lemma_alias_table,
    lemma_mixed_case_namespace, lemma_parse_case_insensitive, lemma_round_trip, plain_ident,
    seq_ci_eq, view_ci_eq, wf_view,
};
pub use parse::{info, parse_info, ParseError};
pub use statement::{rendered, InfoStatement, InfoView};
