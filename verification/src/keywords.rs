//! The keyword vocabulary of the `INFO` clause, as character sequences.
//!
//! Each keyword has a spec-level character sequence; `lemma_keyword_literals`
//! ties the string literals used by the executable code to these sequences.

use vstd::prelude::*;

verus! {

pub open spec fn kw_info() -> Seq<char> {
    seq!['I', 'N', 'F', 'O']
}

pub open spec fn kw_for() -> Seq<char> {
    seq!['F', 'O', 'R']
}

pub open spec fn kw_namespace() -> Seq<char> {
    seq!['N', 'A', 'M', 'E', 'S', 'P', 'A', 'C', 'E']
}

pub open spec fn kw_ns() -> Seq<char> {
    seq!['N', 'S']
}

pub open spec fn kw_database() -> Seq<char> {
    seq!['D', 'A', 'T', 'A', 'B', 'A', 'S', 'E']
}

pub open spec fn kw_db() -> Seq<char> {
    seq!['D', 'B']
}

pub open spec fn kw_scope() -> Seq<char> {
    seq!['S', 'C', 'O', 'P', 'E']
}

pub open spec fn kw_sc() -> Seq<char> {
    seq!['S', 'C']
}

pub open spec fn kw_table() -> Seq<char> {
    seq!['T', 'A', 'B', 'L', 'E']
}

pub open spec fn kw_tb() -> Seq<char> {
    seq!['T', 'B']
}

/// The canonical clause head `INFO FOR ` followed by the given keyword.
pub open spec fn clause(kw: Seq<char>) -> Seq<char> {
    kw_info() + seq![' '] + kw_for() + seq![' '] + kw
}

/// The views of the keyword string literals are the keyword sequences.
pub proof fn lemma_keyword_literals()
    ensures
        "INFO"@ == kw_info(),
        "FOR"@ == kw_for(),
        "NAMESPACE"@ == kw_namespace(),
        "NS"@ == kw_ns(),
        "DATABASE"@ == kw_database(),
        "DB"@ == kw_db(),
        "SCOPE"@ == kw_scope(),
        "SC"@ == kw_sc(),
        "TABLE"@ == kw_table(),
        "TB"@ == kw_tb(),
{
    reveal_strlit("INFO");
    reveal_strlit("FOR");
    reveal_strlit("NAMESPACE");
    reveal_strlit("NS");
    reveal_strlit("DATABASE");
    reveal_strlit("DB");
    reveal_strlit("SCOPE");
    reveal_strlit("SC");
    reveal_strlit("TABLE");
    reveal_strlit("TB");
    assert("INFO"@ =~= kw_info());
    assert("FOR"@ =~= kw_for());
    assert("NAMESPACE"@ =~= kw_namespace());
    assert("NS"@ =~= kw_ns());
    assert("DATABASE"@ =~= kw_database());
    assert("DB"@ =~= kw_db());
    assert("SCOPE"@ =~= kw_scope());
    assert("SC"@ =~= kw_sc());
    assert("TABLE"@ =~= kw_table());
    assert("TB"@ =~= kw_tb());
}

} // verus!
