//! The statement model: the `INFO` clause as a value, and its canonical
//! rendering.

use crate::keywords::{
    clause, kw_database, kw_namespace, kw_scope, kw_table, lemma_keyword_literals,
};
use vstd::prelude::*;
use vstd::string::StringExecFns;

verus! {

/// One `INFO` introspection request: describe the whole namespace catalog,
/// the current database, a named authorization scope, or a named table.
///
/// Exactly one variant is active; identifier payloads carry the raw
/// (unquoted) identifier text, case preserved as parsed.
#[derive(Clone, Debug, PartialEq, Eq)]
pub enum InfoStatement {
    Namespace,
    Database,
    Scope(String),
    Table(String),
}

/// The mathematical model of an [`InfoStatement`]: the same four variants
/// with identifier payloads as character sequences.
#[verifier::ext_equal]
pub enum InfoView {
    Namespace,
    Database,
    Scope(Seq<char>),
    Table(Seq<char>),
}

impl View for InfoStatement {
    type V = InfoView;

    open spec fn view(&self) -> InfoView {
        match self {
            InfoStatement::Namespace => InfoView::Namespace,
            InfoStatement::Database => InfoView::Database,
            InfoStatement::Scope(name) => InfoView::Scope(name@),
            InfoStatement::Table(name) => InfoView::Table(name@),
        }
    }
}

/// The canonical text of a statement: upper-case full keywords, the
/// identifier payload verbatim.
pub open spec fn rendered(v: InfoView) -> Seq<char> {
    match v {
        InfoView::Namespace => clause(kw_namespace()),
        InfoView::Database => clause(kw_database()),
        InfoView::Scope(name) => clause(kw_scope()) + seq![' '] + name,
        InfoView::Table(name) => clause(kw_table()) + seq![' '] + name,
    }
}

impl InfoStatement {
    /// Serializes the statement back into canonical clause text.
    ///
    /// Keywords come out in upper case and in their full form, never as the
    /// short alias; identifier payloads are emitted verbatim.
    pub fn render(&self) -> (r: String)
        ensures
            r@ == rendered(self@),
    {
        match self {
            InfoStatement::Namespace => {
                let r = String::from_str("INFO FOR NAMESPACE");
                proof {
                    lemma_keyword_literals();
                    reveal_strlit("INFO FOR NAMESPACE");
                    assert(r@ =~= rendered(self@));
                }
                r
            },
            InfoStatement::Database => {
                let r = String::from_str("INFO FOR DATABASE");
                proof {
                    lemma_keyword_literals();
                    reveal_strlit("INFO FOR DATABASE");
                    assert(r@ =~= rendered(self@));
                }
                r
            },
            InfoStatement::Scope(name) => {
                let mut r = String::from_str("INFO FOR SCOPE ");
                r.append(name.as_str());
                proof {
                    lemma_keyword_literals();
                    reveal_strlit("INFO FOR SCOPE ");
                    assert(r@ =~= rendered(self@));
                }
                r
            },
            InfoStatement::Table(name) => {
                let mut r = String::from_str("INFO FOR TABLE ");
                r.append(name.as_str());
                proof {
                    lemma_keyword_literals();
                    reveal_strlit("INFO FOR TABLE ");
                    assert(r@ =~= rendered(self@));
                }
                r
            },
        }
    }
}

} // verus!
