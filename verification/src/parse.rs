//! The grammar of the `INFO` clause, and the parser proved against it.
//!
//! The spec functions form a functional model of the grammar: `INFO`,
//! mandatory whitespace, `FOR`, mandatory whitespace, then the first of four
//! alternatives to match (`NAMESPACE`/`NS`, `DATABASE`/`DB`, `SCOPE`/`SC`
//! with an identifier, `TABLE`/`TB` with an identifier).  Keywords match
//! case-insensitively and by prefix; a failed parse consumes nothing.  The
//! executable functions return exactly what the model says, with the
//! unconsumed remainder of the input.

use crate::keywords::{
    kw_database, kw_db, kw_for, kw_info, kw_namespace, kw_ns, kw_sc, kw_scope, kw_tb, kw_table,
    lemma_keyword_literals,
};
use crate::statement::{InfoStatement, InfoView};
use crate::text::{
    ci_eq, eq_ci, find_char, ident_char, ident_len, is_ident_char, is_ws, lemma_find_char_absent,
    lemma_find_char_at, lemma_ident_len_eq, lemma_ws_len_eq, tag_ci_matches, ws_char, ws_len,
};
use vstd::prelude::*;
use vstd::string::StrSliceExecFns;

verus! {

/// The input does not match the clause grammar at the current position.
///
/// Non-fatal: the caller may try a different grammar rule at the same
/// position, since a failed parse leaves the input unconsumed.
#[derive(Clone, Copy, Debug, PartialEq, Eq, Structural)]
pub struct ParseError;

/// Opening delimiter of a bracket-quoted identifier.
pub open spec fn open_bracket() -> char {
    '\u{27E8}'
}

/// Closing delimiter of a bracket-quoted identifier.
pub open spec fn close_bracket() -> char {
    '\u{27E9}'
}

/// A quoted identifier after its opening delimiter: at least one character
/// up to the first `close`, which is consumed but not part of the value.
pub open spec fn quoted_ident(s: Seq<char>, close: char) -> Option<(Seq<char>, Seq<char>)> {
    let m = find_char(s, close);
    if m >= 1 {
        Some((s.take(m), s.skip(m + 1)))
    } else {
        None
    }
}

/// A raw identifier: a non-empty run of identifier characters, or a
/// backtick- or bracket-quoted non-empty text.  Yields the unquoted value
/// and the remainder.
pub open spec fn parse_ident(s: Seq<char>) -> Option<(Seq<char>, Seq<char>)> {
    if s.len() == 0 {
        None
    } else if s[0] == '`' {
        quoted_ident(s.skip(1), '`')
    } else if s[0] == open_bracket() {
        quoted_ident(s.skip(1), close_bracket())
    } else {
        let n = ident_len(s) as int;
        if n == 0 {
            None
        } else {
            Some((s.take(n), s.skip(n)))
        }
    }
}

/// Mandatory whitespace followed by a raw identifier.
pub open spec fn p_ident_arg(s: Seq<char>) -> Option<(Seq<char>, Seq<char>)> {
    let w = ws_len(s) as int;
    if w == 0 {
        None
    } else {
        parse_ident(s.skip(w))
    }
}

/// The `NAMESPACE`/`NS` alternative.
pub open spec fn p_namespace(s: Seq<char>) -> Option<(InfoView, Seq<char>)> {
    if tag_ci_matches(s, kw_namespace()) {
        Some((InfoView::Namespace, s.skip(kw_namespace().len() as int)))
    } else if tag_ci_matches(s, kw_ns()) {
        Some((InfoView::Namespace, s.skip(kw_ns().len() as int)))
    } else {
        None
    }
}

/// The `DATABASE`/`DB` alternative.
pub open spec fn p_database(s: Seq<char>) -> Option<(InfoView, Seq<char>)> {
    if tag_ci_matches(s, kw_database()) {
        Some((InfoView::Database, s.skip(kw_database().len() as int)))
    } else if tag_ci_matches(s, kw_db()) {
        Some((InfoView::Database, s.skip(kw_db().len() as int)))
    } else {
        None
    }
}

/// The `SCOPE`/`SC` alternative with its identifier argument.
pub open spec fn p_scope(s: Seq<char>) -> Option<(InfoView, Seq<char>)> {
    if tag_ci_matches(s, kw_scope()) {
        match p_ident_arg(s.skip(kw_scope().len() as int)) {
            Some((name, rest)) => Some((InfoView::Scope(name), rest)),
            None => None,
        }
    } else if tag_ci_matches(s, kw_sc()) {
        match p_ident_arg(s.skip(kw_sc().len() as int)) {
            Some((name, rest)) => Some((InfoView::Scope(name), rest)),
            None => None,
        }
    } else {
        None
    }
}

/// The `TABLE`/`TB` alternative with its identifier argument.
pub open spec fn p_table(s: Seq<char>) -> Option<(InfoView, Seq<char>)> {
    if tag_ci_matches(s, kw_table()) {
        match p_ident_arg(s.skip(kw_table().len() as int)) {
            Some((name, rest)) => Some((InfoView::Table(name), rest)),
            None => None,
        }
    } else if tag_ci_matches(s, kw_tb()) {
        match p_ident_arg(s.skip(kw_tb().len() as int)) {
            Some((name, rest)) => Some((InfoView::Table(name), rest)),
            None => None,
        }
    } else {
        None
    }
}

/// Ordered choice over the four alternatives: the first to match wins.
pub open spec fn p_alt(s: Seq<char>) -> Option<(InfoView, Seq<char>)> {
    if p_namespace(s) is Some {
        p_namespace(s)
    } else if p_database(s) is Some {
        p_database(s)
    } else if p_scope(s) is Some {
        p_scope(s)
    } else {
        p_table(s)
    }
}

/// The whole clause: `INFO`, mandatory whitespace, `FOR`, mandatory
/// whitespace, then the first matching alternative.  `None` when the input
/// does not match; trailing input is left to the caller.
pub open spec fn parse_info(s: Seq<char>) -> Option<(InfoView, Seq<char>)> {
    if !tag_ci_matches(s, kw_info()) {
        None
    } else {
        let s1 = s.skip(kw_info().len() as int);
        let w1 = ws_len(s1) as int;
        if w1 == 0 {
            None
        } else {
            let s2 = s1.skip(w1);
            if !tag_ci_matches(s2, kw_for()) {
                None
            } else {
                let s3 = s2.skip(kw_for().len() as int);
                let w2 = ws_len(s3) as int;
                if w2 == 0 {
                    None
                } else {
                    p_alt(s3.skip(w2))
                }
            }
        }
    }
}

/// `t` is a case-insensitive prefix of `i` at character position `pos`.
fn tag_ci(i: &str, pos: usize, t: &str) -> (r: bool)
    requires
        pos <= i@.len(),
    ensures
        r == tag_ci_matches(i@.skip(pos as int), t@),
{
    let n = i.unicode_len();
    let m = t.unicode_len();
    if m > n - pos {
        return false;
    }
    let mut j: usize = 0;
    while j < m
        invariant
            pos <= n,
            n == i@.len(),
            m == t@.len(),
            m <= n - pos,
            j <= m,
            forall|k: int| 0 <= k < j ==> #[trigger] ci_eq(i@.skip(pos as int)[k], t@[k]),
        decreases m - j,
    {
        let a = i.get_char(pos + j);
        let b = t.get_char(j);
        assert(i@.skip(pos as int)[j as int] == i@[pos + j]);
        if !eq_ci(a, b) {
            return false;
        }
        j += 1;
    }
    true
}

/// Length of the whitespace run of `i` starting at character position `pos`.
fn ws_count(i: &str, pos: usize) -> (w: usize)
    requires
        pos <= i@.len(),
    ensures
        w == ws_len(i@.skip(pos as int)),
        pos + w <= i@.len(),
{
    let n = i.unicode_len();
    let mut w: usize = 0;
    while pos + w < n && ws_char(i.get_char(pos + w))
        invariant
            pos <= n,
            n == i@.len(),
            pos + w <= n,
            forall|k: int| 0 <= k < w ==> is_ws(#[trigger] i@.skip(pos as int)[k]),
        decreases n - pos - w,
    {
        assert(i@.skip(pos as int)[w as int] == i@[pos + w]);
        w += 1;
    }
    proof {
        if pos + w < i@.len() {
            assert(i@.skip(pos as int)[w as int] == i@[pos + w]);
        }
        lemma_ws_len_eq(i@.skip(pos as int), w as int);
    }
    w
}

/// Length of the identifier-character run of `i` starting at position `pos`.
fn ident_count(i: &str, pos: usize) -> (w: usize)
    requires
        pos <= i@.len(),
    ensures
        w == ident_len(i@.skip(pos as int)),
        pos + w <= i@.len(),
{
    let n = i.unicode_len();
    let mut w: usize = 0;
    while pos + w < n && ident_char(i.get_char(pos + w))
        invariant
            pos <= n,
            n == i@.len(),
            pos + w <= n,
            forall|k: int| 0 <= k < w ==> is_ident_char(#[trigger] i@.skip(pos as int)[k]),
        decreases n - pos - w,
    {
        assert(i@.skip(pos as int)[w as int] == i@[pos + w]);
        w += 1;
    }
    proof {
        if pos + w < i@.len() {
            assert(i@.skip(pos as int)[w as int] == i@[pos + w]);
        }
        lemma_ident_len_eq(i@.skip(pos as int), w as int);
    }
    w
}

/// Character position of the first occurrence of `c` in `i` at or after
/// `pos`, relative to `pos`.
fn find_from(i: &str, pos: usize, c: char) -> (r: Option<usize>)
    requires
        pos <= i@.len(),
    ensures
        match r {
            Some(m) => pos + m < i@.len() && find_char(i@.skip(pos as int), c) == m,
            None => find_char(i@.skip(pos as int), c) == -1,
        },
{
    let n = i.unicode_len();
    let mut m: usize = 0;
    while pos + m < n
        invariant
            pos <= n,
            n == i@.len(),
            pos + m <= n,
            forall|k: int| 0 <= k < m ==> #[trigger] i@.skip(pos as int)[k] != c,
        decreases n - pos - m,
    {
        assert(i@.skip(pos as int)[m as int] == i@[pos + m]);
        if i.get_char(pos + m) == c {
            proof {
                lemma_find_char_at(i@.skip(pos as int), c, m as int);
            }
            return Some(m);
        }
        m += 1;
    }
    proof {
        lemma_find_char_absent(i@.skip(pos as int), c);
    }
    None
}

/// A quoted identifier of `i` whose opening delimiter stands at `pos`;
/// yields the unquoted text and the position after the closing delimiter.
fn quoted(i: &str, pos: usize, close: char) -> (r: Option<(String, usize)>)
    requires
        pos < i@.len(),
    ensures
        match r {
            Some((name, np)) => {
                &&& pos < np <= i@.len()
                &&& (quoted_ident(i@.skip(pos as int + 1), close) matches Some(q) && q.0 == name@
                    && q.1 == i@.skip(np as int))
            },
            None => quoted_ident(i@.skip(pos as int + 1), close) is None,
        },
{
    // the character count fits in usize, so position sums stay in range
    let _n: usize = i.unicode_len();
    match find_from(i, pos + 1, close) {
        None => None,
        Some(m) => {
            if m == 0 {
                None
            } else {
                let name = i.substring_char(pos + 1, pos + 1 + m).to_owned();
                let np = pos + 1 + m + 1;
                proof {
                    let s = i@.skip(pos as int + 1);
                    assert(s.take(m as int) =~= i@.subrange(pos as int + 1, pos as int + 1 + m));
                    assert(s.skip(m as int + 1) =~= i@.skip(np as int));
                }
                Some((name, np))
            }
        },
    }
}

/// A raw identifier of `i` starting at character position `pos`; yields the
/// identifier text and the position of the remainder.
fn ident_raw(i: &str, pos: usize) -> (r: Option<(String, usize)>)
    requires
        pos <= i@.len(),
    ensures
        match r {
            Some((name, np)) => {
                &&& pos <= np <= i@.len()
                &&& (parse_ident(i@.skip(pos as int)) matches Some(q) && q.0 == name@ && q.1 == i@.skip(
                    np as int,
                ))
            },
            None => parse_ident(i@.skip(pos as int)) is None,
        },
{
    let n = i.unicode_len();
    if pos == n {
        return None;
    }
    let c0 = i.get_char(pos);
    assert(i@.skip(pos as int)[0] == i@[pos as int]);
    if c0 == '`' {
        proof {
            assert(i@.skip(pos as int).skip(1) =~= i@.skip(pos as int + 1));
        }
        quoted(i, pos, '`')
    } else if c0 == '\u{27E8}' {
        proof {
            assert(i@.skip(pos as int).skip(1) =~= i@.skip(pos as int + 1));
        }
        quoted(i, pos, '\u{27E9}')
    } else {
        let cnt = ident_count(i, pos);
        if cnt == 0 {
            None
        } else {
            let name = i.substring_char(pos, pos + cnt).to_owned();
            proof {
                let s = i@.skip(pos as int);
                assert(s.take(cnt as int) =~= i@.subrange(pos as int, pos as int + cnt));
                assert(s.skip(cnt as int) =~= i@.skip(pos as int + cnt));
            }
            Some((name, pos + cnt))
        }
    }
}

/// Mandatory whitespace then a raw identifier, starting at position `pos`.
fn ident_arg(i: &str, pos: usize) -> (r: Option<(String, usize)>)
    requires
        pos <= i@.len(),
    ensures
        match r {
            Some((name, np)) => {
                &&& pos <= np <= i@.len()
                &&& (p_ident_arg(i@.skip(pos as int)) matches Some(q) && q.0 == name@ && q.1 == i@.skip(
                    np as int,
                ))
            },
            None => p_ident_arg(i@.skip(pos as int)) is None,
        },
{
    // the character count fits in usize, so position sums stay in range
    let _n: usize = i.unicode_len();
    let w = ws_count(i, pos);
    if w == 0 {
        return None;
    }
    proof {
        assert(i@.skip(pos as int).skip(w as int) =~= i@.skip(pos as int + w as int));
    }
    ident_raw(i, pos + w)
}

/// The `NAMESPACE`/`NS` alternative at position `pos`.
fn namespace(i: &str, pos: usize) -> (r: Option<(InfoStatement, usize)>)
    requires
        pos <= i@.len(),
    ensures
        match r {
            Some((st, np)) => {
                &&& pos <= np <= i@.len()
                &&& (p_namespace(i@.skip(pos as int)) matches Some(q) && q.0 == st@ && q.1
                    == i@.skip(np as int))
            },
            None => p_namespace(i@.skip(pos as int)) is None,
        },
{
    proof {
        lemma_keyword_literals();
    }
    // the character count fits in usize, so position sums stay in range
    let _n: usize = i.unicode_len();
    if tag_ci(i, pos, "NAMESPACE") {
        proof {
            assert(kw_namespace().len() == 9);
            assert(pos + 9 <= i@.len());
            assert(i@.skip(pos as int).skip(9) =~= i@.skip(pos as int + 9));
        }
        Some((InfoStatement::Namespace, pos + 9))
    } else if tag_ci(i, pos, "NS") {
        proof {
            assert(kw_ns().len() == 2);
            assert(pos + 2 <= i@.len());
            assert(i@.skip(pos as int).skip(2) =~= i@.skip(pos as int + 2));
        }
        Some((InfoStatement::Namespace, pos + 2))
    } else {
        None
    }
}

/// The `DATABASE`/`DB` alternative at position `pos`.
fn database(i: &str, pos: usize) -> (r: Option<(InfoStatement, usize)>)
    requires
        pos <= i@.len(),
    ensures
        match r {
            Some((st, np)) => {
                &&& pos <= np <= i@.len()
                &&& (p_database(i@.skip(pos as int)) matches Some(q) && q.0 == st@ && q.1 == i@.skip(
                    np as int,
                ))
            },
            None => p_database(i@.skip(pos as int)) is None,
        },
{
    proof {
        lemma_keyword_literals();
    }
    // the character count fits in usize, so position sums stay in range
    let _n: usize = i.unicode_len();
    if tag_ci(i, pos, "DATABASE") {
        proof {
            assert(kw_database().len() == 8);
            assert(pos + 8 <= i@.len());
            assert(i@.skip(pos as int).skip(8) =~= i@.skip(pos as int + 8));
        }
        Some((InfoStatement::Database, pos + 8))
    } else if tag_ci(i, pos, "DB") {
        proof {
            assert(kw_db().len() == 2);
            assert(pos + 2 <= i@.len());
            assert(i@.skip(pos as int).skip(2) =~= i@.skip(pos as int + 2));
        }
        Some((InfoStatement::Database, pos + 2))
    } else {
        None
    }
}

/// The `SCOPE`/`SC` alternative at position `pos`.
fn scope(i: &str, pos: usize) -> (r: Option<(InfoStatement, usize)>)
    requires
        pos <= i@.len(),
    ensures
        match r {
            Some((st, np)) => {
                &&& pos <= np <= i@.len()
                &&& (p_scope(i@.skip(pos as int)) matches Some(q) && q.0 == st@ && q.1 == i@.skip(
                    np as int,
                ))
            },
            None => p_scope(i@.skip(pos as int)) is None,
        },
{
    proof {
        lemma_keyword_literals();
    }
    // the character count fits in usize, so position sums stay in range
    let _n: usize = i.unicode_len();
    if tag_ci(i, pos, "SCOPE") {
        proof {
            assert(kw_scope().len() == 5);
            assert(pos + 5 <= i@.len());
            assert(i@.skip(pos as int).skip(5) =~= i@.skip(pos as int + 5));
        }
        match ident_arg(i, pos + 5) {
            Some((name, np)) => Some((InfoStatement::Scope(name), np)),
            None => None,
        }
    } else if tag_ci(i, pos, "SC") {
        proof {
            assert(kw_sc().len() == 2);
            assert(pos + 2 <= i@.len());
            assert(i@.skip(pos as int).skip(2) =~= i@.skip(pos as int + 2));
        }
        match ident_arg(i, pos + 2) {
            Some((name, np)) => Some((InfoStatement::Scope(name), np)),
            None => None,
        }
    } else {
        None
    }
}

/// The `TABLE`/`TB` alternative at position `pos`.
fn table(i: &str, pos: usize) -> (r: Option<(InfoStatement, usize)>)
    requires
        pos <= i@.len(),
    ensures
        match r {
            Some((st, np)) => {
                &&& pos <= np <= i@.len()
                &&& (p_table(i@.skip(pos as int)) matches Some(q) && q.0 == st@ && q.1 == i@.skip(
                    np as int,
                ))
            },
            None => p_table(i@.skip(pos as int)) is None,
        },
{
    proof {
        lemma_keyword_literals();
    }
    // the character count fits in usize, so position sums stay in range
    let _n: usize = i.unicode_len();
    if tag_ci(i, pos, "TABLE") {
        proof {
            assert(kw_table().len() == 5);
            assert(pos + 5 <= i@.len());
            assert(i@.skip(pos as int).skip(5) =~= i@.skip(pos as int + 5));
        }
        match ident_arg(i, pos + 5) {
            Some((name, np)) => Some((InfoStatement::Table(name), np)),
            None => None,
        }
    } else if tag_ci(i, pos, "TB") {
        proof {
            assert(kw_tb().len() == 2);
            assert(pos + 2 <= i@.len());
            assert(i@.skip(pos as int).skip(2) =~= i@.skip(pos as int + 2));
        }
        match ident_arg(i, pos + 2) {
            Some((name, np)) => Some((InfoStatement::Table(name), np)),
            None => None,
        }
    } else {
        None
    }
}

/// Parses one `INFO` clause from the front of `i`.
///
/// On success the result carries the unconsumed remainder of the input and
/// the parsed statement, exactly as the grammar model `parse_info` says; on
/// failure the model says no parse exists, and the input is unconsumed.
pub fn info<'a>(i: &'a str) -> (r: Result<(&'a str, InfoStatement), ParseError>)
    ensures
        match r {
            Ok((rest, st)) => parse_info(i@) matches Some(p) && p.0 == st@ && p.1 == rest@,
            Err(_) => parse_info(i@) is None,
        },
{
    proof {
        lemma_keyword_literals();
        assert(i@.skip(0) =~= i@);
    }
    let n = i.unicode_len();
    if !tag_ci(i, 0, "INFO") {
        return Err(ParseError);
    }
    let w1 = ws_count(i, 4);
    proof {
        assert(i@.skip(0).skip(4) =~= i@.skip(4));
    }
    if w1 == 0 {
        return Err(ParseError);
    }
    let p2 = 4 + w1;
    proof {
        assert(i@.skip(4).skip(w1 as int) =~= i@.skip(p2 as int));
    }
    if !tag_ci(i, p2, "FOR") {
        return Err(ParseError);
    }
    let p3 = p2 + 3;
    let w2 = ws_count(i, p3);
    proof {
        assert(i@.skip(p2 as int).skip(3) =~= i@.skip(p3 as int));
    }
    if w2 == 0 {
        return Err(ParseError);
    }
    let p4 = p3 + w2;
    proof {
        assert(i@.skip(p3 as int).skip(w2 as int) =~= i@.skip(p4 as int));
    }
    let alt = match namespace(i, p4) {
        Some(x) => Some(x),
        None => match database(i, p4) {
            Some(x) => Some(x),
            None => match scope(i, p4) {
                Some(x) => Some(x),
                None => table(i, p4),
            },
        },
    };
    match alt {
        Some((st, np)) => {
            let rest = i.substring_char(np, n);
            proof {
                assert(rest@ =~= i@.skip(np as int));
            }
            Ok((rest, st))
        },
        None => Err(ParseError),
    }
}

} // verus!
