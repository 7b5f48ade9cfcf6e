//! The laws of the clause: round-trip, alias equivalence, and
//! case-insensitivity, proved against the grammar model.

use crate::keywords::{
    clause, kw_database, kw_db, kw_for, kw_info, kw_namespace, kw_ns, kw_sc, kw_scope, kw_tb,
    kw_table,
};
use crate::parse::{
    close_bracket, open_bracket, p_alt, p_database, p_ident_arg, p_namespace, p_scope, p_table,
    parse_ident, parse_info, quoted_ident,
};
use crate::statement::{rendered, InfoView};
use crate::text::{
    ci_eq, find_char, ident_len, is_ident_char, is_ws, lemma_find_char_range, lemma_ident_len_eq,
    lemma_ident_len_le, lemma_ws_len_eq, lemma_ws_len_le, lower_code, tag_ci_matches, ws_len,
};
use vstd::prelude::*;

verus! {

/// A non-empty run of plain identifier characters: the payloads for which
/// the renderer's verbatim output is itself a well-formed identifier token.
pub open spec fn plain_ident(s: Seq<char>) -> bool {
    s.len() > 0 && forall|i: int| 0 <= i < s.len() ==> is_ident_char(#[trigger] s[i])
}

/// A statement whose identifier payloads (if any) are plain identifiers.
pub open spec fn wf_view(v: InfoView) -> bool {
    match v {
        InfoView::Namespace => true,
        InfoView::Database => true,
        InfoView::Scope(name) => plain_ident(name),
        InfoView::Table(name) => plain_ident(name),
    }
}

/// Parsing `INFO FOR <kw><rest>`, spaced canonically, reduces to the
/// ordered choice over the four alternatives applied to `<kw><rest>`.
proof fn lemma_parse_prefix(kw: Seq<char>, rest: Seq<char>)
    requires
        kw.len() > 0,
        !is_ws(kw[0]),
    ensures
        parse_info(clause(kw) + rest) == p_alt(kw + rest),
{
    let s = clause(kw) + rest;
    assert(s.len() == 9 + kw.len() + rest.len());
    assert forall|i: int| 0 <= i < 4 implies #[trigger] ci_eq(s[i], kw_info()[i]) by {
        assert(s[i] == kw_info()[i]);
    }
    assert(tag_ci_matches(s, kw_info()));
    let s1 = s.skip(4);
    assert(s1[0] == ' ');
    assert(s1[1] == 'F');
    lemma_ws_len_eq(s1, 1);
    let s2 = s1.skip(1);
    assert(s2 =~= s.skip(5));
    assert forall|i: int| 0 <= i < 3 implies #[trigger] ci_eq(s2[i], kw_for()[i]) by {
        assert(s2[i] == s[5 + i]);
        assert(s[5 + i] == kw_for()[i]);
    }
    assert(tag_ci_matches(s2, kw_for()));
    let s3 = s2.skip(3);
    assert(s3 =~= s.skip(8));
    assert(s3[0] == ' ');
    assert(s3[1] == s[9]);
    assert(s[9] == kw[0]);
    lemma_ws_len_eq(s3, 1);
    let s4 = s3.skip(1);
    assert(s4 =~= kw + rest);
}

/// A keyword is a case-insensitive prefix of itself followed by anything.
proof fn lemma_tag_refl(kw: Seq<char>, rest: Seq<char>)
    ensures
        tag_ci_matches(kw + rest, kw),
{
    let s = kw + rest;
    assert forall|i: int| 0 <= i < kw.len() implies #[trigger] ci_eq(s[i], kw[i]) by {
        assert(s[i] == kw[i]);
    }
}

/// Round trip: parsing the canonical rendering of a statement yields that
/// statement back, with the whole input consumed.  Holds for every
/// statement whose identifier payloads are plain identifiers (a quoted
/// payload such as `a b` is rendered verbatim, so its rendering is not a
/// single identifier token again).
pub proof fn lemma_round_trip(v: InfoView)
    requires
        wf_view(v),
    ensures
        parse_info(rendered(v)) matches Some(p) && p.0 == v && p.1 == Seq::<char>::empty(),
{
    let empty = Seq::<char>::empty();
    match v {
        InfoView::Namespace => {
            assert(rendered(v) =~= clause(kw_namespace()) + empty);
            lemma_parse_prefix(kw_namespace(), empty);
            let s4 = kw_namespace() + empty;
            lemma_tag_refl(kw_namespace(), empty);
            assert(s4.skip(kw_namespace().len() as int) =~= empty);
        },
        InfoView::Database => {
            assert(rendered(v) =~= clause(kw_database()) + empty);
            lemma_parse_prefix(kw_database(), empty);
            let s4 = kw_database() + empty;
            assert(!tag_ci_matches(s4, kw_namespace())) by {
                assert(s4[0] == 'D');
                assert(!ci_eq(s4[0], kw_namespace()[0]));
            }
            assert(!tag_ci_matches(s4, kw_ns())) by {
                assert(!ci_eq(s4[0], kw_ns()[0]));
            }
            lemma_tag_refl(kw_database(), empty);
            assert(s4.skip(kw_database().len() as int) =~= empty);
        },
        InfoView::Scope(name) => {
            let tail = seq![' '] + name;
            assert(rendered(v) =~= clause(kw_scope()) + tail);
            lemma_parse_prefix(kw_scope(), tail);
            let s4 = kw_scope() + tail;
            assert(s4[0] == 'S');
            assert(!tag_ci_matches(s4, kw_namespace())) by {
                assert(!ci_eq(s4[0], kw_namespace()[0]));
            }
            assert(!tag_ci_matches(s4, kw_ns())) by {
                assert(!ci_eq(s4[0], kw_ns()[0]));
            }
            assert(!tag_ci_matches(s4, kw_database())) by {
                assert(!ci_eq(s4[0], kw_database()[0]));
            }
            assert(!tag_ci_matches(s4, kw_db())) by {
                assert(!ci_eq(s4[0], kw_db()[0]));
            }
            lemma_tag_refl(kw_scope(), tail);
            assert(s4.skip(kw_scope().len() as int) =~= tail);
            lemma_ident_arg_of_plain(name);
            assert(p_scope(s4) matches Some(q) && q.0 == InfoView::Scope(name) && q.1 == empty);
        },
        InfoView::Table(name) => {
            let tail = seq![' '] + name;
            assert(rendered(v) =~= clause(kw_table()) + tail);
            lemma_parse_prefix(kw_table(), tail);
            let s4 = kw_table() + tail;
            assert(s4[0] == 'T');
            assert(!tag_ci_matches(s4, kw_namespace())) by {
                assert(!ci_eq(s4[0], kw_namespace()[0]));
            }
            assert(!tag_ci_matches(s4, kw_ns())) by {
                assert(!ci_eq(s4[0], kw_ns()[0]));
            }
            assert(!tag_ci_matches(s4, kw_database())) by {
                assert(!ci_eq(s4[0], kw_database()[0]));
            }
            assert(!tag_ci_matches(s4, kw_db())) by {
                assert(!ci_eq(s4[0], kw_db()[0]));
            }
            assert(!tag_ci_matches(s4, kw_scope())) by {
                assert(!ci_eq(s4[0], kw_scope()[0]));
            }
            assert(!tag_ci_matches(s4, kw_sc())) by {
                assert(!ci_eq(s4[0], kw_sc()[0]));
            }
            lemma_tag_refl(kw_table(), tail);
            assert(s4.skip(kw_table().len() as int) =~= tail);
            lemma_ident_arg_of_plain(name);
            assert(p_table(s4) matches Some(q) && q.0 == InfoView::Table(name) && q.1 == empty);
        },
    }
}

/// A single space followed by a plain identifier is exactly the mandatory
/// whitespace plus identifier argument, consuming everything.
proof fn lemma_ident_arg_of_plain(name: Seq<char>)
    requires
        plain_ident(name),
    ensures
        p_ident_arg(seq![' '] + name) matches Some(q) && q.0 == name && q.1 == Seq::<
            char,
        >::empty(),
{
    let t = seq![' '] + name;
    assert(t[0] == ' ');
    assert(t[1] == name[0]);
    assert(is_ident_char(name[0]));
    assert(!is_ws(t[1]));
    lemma_ws_len_eq(t, 1);
    let u = t.skip(1);
    assert(u =~= name);
    assert(is_ident_char(u[0]));
    assert(u[0] != '`');
    assert(u[0] != open_bracket());
    lemma_ident_len_eq(u, u.len() as int);
    assert(u.take(u.len() as int) =~= name);
    assert(u.skip(u.len() as int) =~= Seq::<char>::empty());
}

/// Alias equivalence for the namespace target: with any tail `t`,
/// `INFO FOR NAMESPACE` and `INFO FOR NS` both parse to `Namespace` with
/// remainder `t`.
pub proof fn lemma_alias_namespace(t: Seq<char>)
    ensures
        parse_info(clause(kw_namespace()) + t) matches Some(p) && p.0 == InfoView::Namespace
            && p.1 == t,
        parse_info(clause(kw_ns()) + t) matches Some(p) && p.0 == InfoView::Namespace && p.1 == t,
{
    lemma_parse_prefix(kw_namespace(), t);
    let s4 = kw_namespace() + t;
    lemma_tag_refl(kw_namespace(), t);
    assert(s4.skip(kw_namespace().len() as int) =~= t);
    lemma_parse_prefix(kw_ns(), t);
    let s5 = kw_ns() + t;
    assert(!tag_ci_matches(s5, kw_namespace())) by {
        if kw_namespace().len() <= s5.len() {
            assert(s5[1] == 'S');
            assert(!ci_eq(s5[1], kw_namespace()[1]));
        }
    }
    lemma_tag_refl(kw_ns(), t);
    assert(s5.skip(kw_ns().len() as int) =~= t);
}

/// Alias equivalence for the database target: with any tail `t`,
/// `INFO FOR DATABASE` and `INFO FOR DB` both parse to `Database` with
/// remainder `t`.
pub proof fn lemma_alias_database(t: Seq<char>)
    ensures
        parse_info(clause(kw_database()) + t) matches Some(p) && p.0 == InfoView::Database && p.1
            == t,
        parse_info(clause(kw_db()) + t) matches Some(p) && p.0 == InfoView::Database && p.1 == t,
{
    lemma_parse_prefix(kw_database(), t);
    let s4 = kw_database() + t;
    assert(s4[0] == 'D');
    assert(!tag_ci_matches(s4, kw_namespace())) by {
        assert(!ci_eq(s4[0], kw_namespace()[0]));
    }
    assert(!tag_ci_matches(s4, kw_ns())) by {
        assert(!ci_eq(s4[0], kw_ns()[0]));
    }
    lemma_tag_refl(kw_database(), t);
    assert(s4.skip(kw_database().len() as int) =~= t);
    lemma_parse_prefix(kw_db(), t);
    let s5 = kw_db() + t;
    assert(s5[0] == 'D');
    assert(!tag_ci_matches(s5, kw_namespace())) by {
        assert(!ci_eq(s5[0], kw_namespace()[0]));
    }
    assert(!tag_ci_matches(s5, kw_ns())) by {
        assert(!ci_eq(s5[0], kw_ns()[0]));
    }
    assert(!tag_ci_matches(s5, kw_database())) by {
        if kw_database().len() <= s5.len() {
            assert(s5[1] == 'B');
            assert(!ci_eq(s5[1], kw_database()[1]));
        }
    }
    lemma_tag_refl(kw_db(), t);
    assert(s5.skip(kw_db().len() as int) =~= t);
}

/// Alias equivalence for the scope target: with any tail `t` that is empty
/// or begins with whitespace, `INFO FOR SCOPE` and `INFO FOR SC` parse
/// identically (to the same `Scope` statement, or both fail).
pub proof fn lemma_alias_scope(t: Seq<char>)
    requires
        t.len() == 0 || is_ws(t[0]),
    ensures
        parse_info(clause(kw_scope()) + t) == parse_info(clause(kw_sc()) + t),
{
    lemma_parse_prefix(kw_scope(), t);
    lemma_parse_prefix(kw_sc(), t);
    let s4 = kw_scope() + t;
    let s5 = kw_sc() + t;
    assert(s4[0] == 'S');
    assert(s5[0] == 'S');
    assert(!tag_ci_matches(s4, kw_namespace())) by {
        assert(!ci_eq(s4[0], kw_namespace()[0]));
    }
    assert(!tag_ci_matches(s4, kw_ns())) by {
        assert(!ci_eq(s4[0], kw_ns()[0]));
    }
    assert(!tag_ci_matches(s4, kw_database())) by {
        assert(!ci_eq(s4[0], kw_database()[0]));
    }
    assert(!tag_ci_matches(s4, kw_db())) by {
        assert(!ci_eq(s4[0], kw_db()[0]));
    }
    assert(!tag_ci_matches(s5, kw_namespace())) by {
        assert(!ci_eq(s5[0], kw_namespace()[0]));
    }
    assert(!tag_ci_matches(s5, kw_ns())) by {
        assert(!ci_eq(s5[0], kw_ns()[0]));
    }
    assert(!tag_ci_matches(s5, kw_database())) by {
        assert(!ci_eq(s5[0], kw_database()[0]));
    }
    assert(!tag_ci_matches(s5, kw_db())) by {
        assert(!ci_eq(s5[0], kw_db()[0]));
    }
    lemma_tag_refl(kw_scope(), t);
    assert(s4.skip(kw_scope().len() as int) =~= t);
    assert(!tag_ci_matches(s5, kw_scope())) by {
        if kw_scope().len() <= s5.len() {
            assert(s5[2] == t[0]);
            assert(is_ws(t[0]));
            assert(lower_code(kw_scope()[2]) == 'o' as int);
            assert(!ci_eq(s5[2], kw_scope()[2]));
        }
    }
    lemma_tag_refl(kw_sc(), t);
    assert(s5.skip(kw_sc().len() as int) =~= t);
    if p_ident_arg(t) is None {
        assert(!tag_ci_matches(s4, kw_table())) by {
            assert(!ci_eq(s4[0], kw_table()[0]));
        }
        assert(!tag_ci_matches(s4, kw_tb())) by {
            assert(!ci_eq(s4[0], kw_tb()[0]));
        }
        assert(!tag_ci_matches(s5, kw_table())) by {
            assert(!ci_eq(s5[0], kw_table()[0]));
        }
        assert(!tag_ci_matches(s5, kw_tb())) by {
            assert(!ci_eq(s5[0], kw_tb()[0]));
        }
    }
}

/// Alias equivalence for the table target: with any tail `t` that is empty
/// or begins with whitespace, `INFO FOR TABLE` and `INFO FOR TB` parse
/// identically (to the same `Table` statement, or both fail).
pub proof fn lemma_alias_table(t: Seq<char>)
    requires
        t.len() == 0 || is_ws(t[0]),
    ensures
        parse_info(clause(kw_table()) + t) == parse_info(clause(kw_tb()) + t),
{
    lemma_parse_prefix(kw_table(), t);
    lemma_parse_prefix(kw_tb(), t);
    let s4 = kw_table() + t;
    let s5 = kw_tb() + t;
    assert(s4[0] == 'T');
    assert(s5[0] == 'T');
    assert(!tag_ci_matches(s4, kw_namespace())) by {
        assert(!ci_eq(s4[0], kw_namespace()[0]));
    }
    assert(!tag_ci_matches(s4, kw_ns())) by {
        assert(!ci_eq(s4[0], kw_ns()[0]));
    }
    assert(!tag_ci_matches(s4, kw_database())) by {
        assert(!ci_eq(s4[0], kw_database()[0]));
    }
    assert(!tag_ci_matches(s4, kw_db())) by {
        assert(!ci_eq(s4[0], kw_db()[0]));
    }
    assert(!tag_ci_matches(s4, kw_scope())) by {
        assert(!ci_eq(s4[0], kw_scope()[0]));
    }
    assert(!tag_ci_matches(s4, kw_sc())) by {
        assert(!ci_eq(s4[0], kw_sc()[0]));
    }
    assert(!tag_ci_matches(s5, kw_namespace())) by {
        assert(!ci_eq(s5[0], kw_namespace()[0]));
    }
    assert(!tag_ci_matches(s5, kw_ns())) by {
        assert(!ci_eq(s5[0], kw_ns()[0]));
    }
    assert(!tag_ci_matches(s5, kw_database())) by {
        assert(!ci_eq(s5[0], kw_database()[0]));
    }
    assert(!tag_ci_matches(s5, kw_db())) by {
        assert(!ci_eq(s5[0], kw_db()[0]));
    }
    assert(!tag_ci_matches(s5, kw_scope())) by {
        assert(!ci_eq(s5[0], kw_scope()[0]));
    }
    assert(!tag_ci_matches(s5, kw_sc())) by {
        assert(!ci_eq(s5[0], kw_sc()[0]));
    }
    lemma_tag_refl(kw_table(), t);
    assert(s4.skip(kw_table().len() as int) =~= t);
    assert(!tag_ci_matches(s5, kw_table())) by {
        if kw_table().len() <= s5.len() {
            assert(s5[1] == 'B');
            assert(!ci_eq(s5[1], kw_table()[1]));
        }
    }
    lemma_tag_refl(kw_tb(), t);
    assert(s5.skip(kw_tb().len() as int) =~= t);
}

/// Two texts equal up to ASCII case, character for character.
pub open spec fn seq_ci_eq(a: Seq<char>, b: Seq<char>) -> bool {
    a.len() == b.len() && forall|i: int| 0 <= i < a.len() ==> #[trigger] ci_eq(a[i], b[i])
}

/// Two statement views equal up to ASCII case of their identifier payloads.
pub open spec fn view_ci_eq(x: InfoView, y: InfoView) -> bool {
    match (x, y) {
        (InfoView::Namespace, InfoView::Namespace) => true,
        (InfoView::Database, InfoView::Database) => true,
        (InfoView::Scope(a), InfoView::Scope(b)) => seq_ci_eq(a, b),
        (InfoView::Table(a), InfoView::Table(b)) => seq_ci_eq(a, b),
        _ => false,
    }
}

/// Case folding never moves a character across the lexical classes the
/// grammar distinguishes.
proof fn lemma_ci_classes(a: char, b: char)
    requires
        ci_eq(a, b),
    ensures
        is_ws(a) == is_ws(b),
        is_ident_char(a) == is_ident_char(b),
        (a == '`') == (b == '`'),
        (a == open_bracket()) == (b == open_bracket()),
        (a == close_bracket()) == (b == close_bracket()),
{
}

proof fn lemma_ci_skip(a: Seq<char>, b: Seq<char>, n: int)
    requires
        seq_ci_eq(a, b),
        0 <= n <= a.len(),
    ensures
        seq_ci_eq(a.skip(n), b.skip(n)),
{
    assert forall|i: int| 0 <= i < a.skip(n).len() implies #[trigger] ci_eq(
        a.skip(n)[i],
        b.skip(n)[i],
    ) by {
        assert(a.skip(n)[i] == a[n + i]);
        assert(b.skip(n)[i] == b[n + i]);
        assert(ci_eq(a[n + i], b[n + i]));
    }
}

proof fn lemma_ci_take(a: Seq<char>, b: Seq<char>, n: int)
    requires
        seq_ci_eq(a, b),
        0 <= n <= a.len(),
    ensures
        seq_ci_eq(a.take(n), b.take(n)),
{
    assert forall|i: int| 0 <= i < a.take(n).len() implies #[trigger] ci_eq(
        a.take(n)[i],
        b.take(n)[i],
    ) by {
        assert(a.take(n)[i] == a[i]);
        assert(b.take(n)[i] == b[i]);
        assert(ci_eq(a[i], b[i]));
    }
}

/// Keyword matching cannot tell two texts apart that are equal up to case.
proof fn lemma_tag_ci_resp(a: Seq<char>, b: Seq<char>, t: Seq<char>)
    requires
        seq_ci_eq(a, b),
    ensures
        tag_ci_matches(a, t) == tag_ci_matches(b, t),
{
    if tag_ci_matches(a, t) {
        assert forall|i: int| 0 <= i < t.len() implies #[trigger] ci_eq(b[i], t[i]) by {
            assert(ci_eq(a[i], t[i]));
            assert(ci_eq(a[i], b[i]));
        }
    }
    if tag_ci_matches(b, t) {
        assert forall|i: int| 0 <= i < t.len() implies #[trigger] ci_eq(a[i], t[i]) by {
            assert(ci_eq(b[i], t[i]));
            assert(ci_eq(a[i], b[i]));
        }
    }
}

proof fn lemma_ws_len_ci(a: Seq<char>, b: Seq<char>)
    requires
        seq_ci_eq(a, b),
    ensures
        ws_len(a) == ws_len(b),
    decreases a.len(),
{
    if a.len() > 0 {
        assert(ci_eq(a[0], b[0]));
        lemma_ci_classes(a[0], b[0]);
        if is_ws(a[0]) {
            lemma_ci_skip(a, b, 1);
            lemma_ws_len_ci(a.skip(1), b.skip(1));
        }
    }
}

proof fn lemma_ident_len_ci(a: Seq<char>, b: Seq<char>)
    requires
        seq_ci_eq(a, b),
    ensures
        ident_len(a) == ident_len(b),
    decreases a.len(),
{
    if a.len() > 0 {
        assert(ci_eq(a[0], b[0]));
        lemma_ci_classes(a[0], b[0]);
        if is_ident_char(a[0]) {
            lemma_ci_skip(a, b, 1);
            lemma_ident_len_ci(a.skip(1), b.skip(1));
        }
    }
}

proof fn lemma_find_char_ci(a: Seq<char>, b: Seq<char>, c: char)
    requires
        seq_ci_eq(a, b),
        c == '`' || c == open_bracket() || c == close_bracket(),
    ensures
        find_char(a, c) == find_char(b, c),
    decreases a.len(),
{
    if a.len() > 0 {
        assert(ci_eq(a[0], b[0]));
        lemma_ci_classes(a[0], b[0]);
        if a[0] != c {
            lemma_ci_skip(a, b, 1);
            lemma_find_char_ci(a.skip(1), b.skip(1), c);
        }
    }
}

proof fn lemma_parse_ident_ci(a: Seq<char>, b: Seq<char>)
    requires
        seq_ci_eq(a, b),
    ensures
        match (parse_ident(a), parse_ident(b)) {
            (Option::None, Option::None) => true,
            (Option::Some(p), Option::Some(q)) => seq_ci_eq(p.0, q.0) && seq_ci_eq(p.1, q.1),
            _ => false,
        },
{
    if a.len() > 0 {
        assert(ci_eq(a[0], b[0]));
        lemma_ci_classes(a[0], b[0]);
        if a[0] == '`' || a[0] == open_bracket() {
            let close = if a[0] == '`' {
                '`'
            } else {
                close_bracket()
            };
            lemma_ci_skip(a, b, 1);
            let a1 = a.skip(1);
            let b1 = b.skip(1);
            lemma_find_char_ci(a1, b1, close);
            lemma_find_char_range(a1, close);
            let m = find_char(a1, close);
            if m >= 1 {
                lemma_ci_take(a1, b1, m);
                lemma_ci_skip(a1, b1, m + 1);
            }
        } else {
            lemma_ident_len_ci(a, b);
            lemma_ident_len_le(a);
            let n = ident_len(a) as int;
            if n > 0 {
                lemma_ci_take(a, b, n);
                lemma_ci_skip(a, b, n);
            }
        }
    }
}

proof fn lemma_p_ident_arg_ci(a: Seq<char>, b: Seq<char>)
    requires
        seq_ci_eq(a, b),
    ensures
        match (p_ident_arg(a), p_ident_arg(b)) {
            (Option::None, Option::None) => true,
            (Option::Some(p), Option::Some(q)) => seq_ci_eq(p.0, q.0) && seq_ci_eq(p.1, q.1),
            _ => false,
        },
{
    lemma_ws_len_ci(a, b);
    let w = ws_len(a) as int;
    if w > 0 {
        lemma_ws_len_le(a);
        lemma_ci_skip(a, b, w);
        lemma_parse_ident_ci(a.skip(w), b.skip(w));
    }
}

proof fn lemma_p_namespace_ci(a: Seq<char>, b: Seq<char>)
    requires
        seq_ci_eq(a, b),
    ensures
        match (p_namespace(a), p_namespace(b)) {
            (Option::None, Option::None) => true,
            (Option::Some(p), Option::Some(q)) => p.0 == q.0 && seq_ci_eq(p.1, q.1),
            _ => false,
        },
{
    lemma_tag_ci_resp(a, b, kw_namespace());
    lemma_tag_ci_resp(a, b, kw_ns());
    if tag_ci_matches(a, kw_namespace()) {
        lemma_ci_skip(a, b, kw_namespace().len() as int);
    } else if tag_ci_matches(a, kw_ns()) {
        lemma_ci_skip(a, b, kw_ns().len() as int);
    }
}

proof fn lemma_p_database_ci(a: Seq<char>, b: Seq<char>)
    requires
        seq_ci_eq(a, b),
    ensures
        match (p_database(a), p_database(b)) {
            (Option::None, Option::None) => true,
            (Option::Some(p), Option::Some(q)) => p.0 == q.0 && seq_ci_eq(p.1, q.1),
            _ => false,
        },
{
    lemma_tag_ci_resp(a, b, kw_database());
    lemma_tag_ci_resp(a, b, kw_db());
    if tag_ci_matches(a, kw_database()) {
        lemma_ci_skip(a, b, kw_database().len() as int);
    } else if tag_ci_matches(a, kw_db()) {
        lemma_ci_skip(a, b, kw_db().len() as int);
    }
}

proof fn lemma_p_scope_ci(a: Seq<char>, b: Seq<char>)
    requires
        seq_ci_eq(a, b),
    ensures
        match (p_scope(a), p_scope(b)) {
            (Option::None, Option::None) => true,
            (Option::Some(p), Option::Some(q)) => view_ci_eq(p.0, q.0) && seq_ci_eq(p.1, q.1),
            _ => false,
        },
{
    lemma_tag_ci_resp(a, b, kw_scope());
    lemma_tag_ci_resp(a, b, kw_sc());
    if tag_ci_matches(a, kw_scope()) {
        lemma_ci_skip(a, b, kw_scope().len() as int);
        lemma_p_ident_arg_ci(
            a.skip(kw_scope().len() as int),
            b.skip(kw_scope().len() as int),
        );
    } else if tag_ci_matches(a, kw_sc()) {
        lemma_ci_skip(a, b, kw_sc().len() as int);
        lemma_p_ident_arg_ci(a.skip(kw_sc().len() as int), b.skip(kw_sc().len() as int));
    }
}

proof fn lemma_p_table_ci(a: Seq<char>, b: Seq<char>)
    requires
        seq_ci_eq(a, b),
    ensures
        match (p_table(a), p_table(b)) {
            (Option::None, Option::None) => true,
            (Option::Some(p), Option::Some(q)) => view_ci_eq(p.0, q.0) && seq_ci_eq(p.1, q.1),
            _ => false,
        },
{
    lemma_tag_ci_resp(a, b, kw_table());
    lemma_tag_ci_resp(a, b, kw_tb());
    if tag_ci_matches(a, kw_table()) {
        lemma_ci_skip(a, b, kw_table().len() as int);
        lemma_p_ident_arg_ci(
            a.skip(kw_table().len() as int),
            b.skip(kw_table().len() as int),
        );
    } else if tag_ci_matches(a, kw_tb()) {
        lemma_ci_skip(a, b, kw_tb().len() as int);
        lemma_p_ident_arg_ci(a.skip(kw_tb().len() as int), b.skip(kw_tb().len() as int));
    }
}

/// Case-insensitivity: two inputs equal up to ASCII case parse alike —
/// both fail, or both succeed with the same variant, identifier payloads
/// equal up to case (identifier case is preserved, not folded), and
/// remainders equal up to case.
pub proof fn lemma_parse_case_insensitive(a: Seq<char>, b: Seq<char>)
    requires
        seq_ci_eq(a, b),
    ensures
        match (parse_info(a), parse_info(b)) {
            (Option::None, Option::None) => true,
            (Option::Some(p), Option::Some(q)) => view_ci_eq(p.0, q.0) && seq_ci_eq(p.1, q.1),
            _ => false,
        },
{
    lemma_tag_ci_resp(a, b, kw_info());
    if tag_ci_matches(a, kw_info()) {
        lemma_ci_skip(a, b, kw_info().len() as int);
        let a1 = a.skip(kw_info().len() as int);
        let b1 = b.skip(kw_info().len() as int);
        lemma_ws_len_ci(a1, b1);
        let w1 = ws_len(a1) as int;
        if w1 > 0 {
            lemma_ws_len_le(a1);
            lemma_ci_skip(a1, b1, w1);
            let a2 = a1.skip(w1);
            let b2 = b1.skip(w1);
            lemma_tag_ci_resp(a2, b2, kw_for());
            if tag_ci_matches(a2, kw_for()) {
                lemma_ci_skip(a2, b2, kw_for().len() as int);
                let a3 = a2.skip(kw_for().len() as int);
                let b3 = b2.skip(kw_for().len() as int);
                lemma_ws_len_ci(a3, b3);
                let w2 = ws_len(a3) as int;
                if w2 > 0 {
                    lemma_ws_len_le(a3);
                    lemma_ci_skip(a3, b3, w2);
                    let a4 = a3.skip(w2);
                    let b4 = b3.skip(w2);
                    lemma_p_namespace_ci(a4, b4);
                    lemma_p_database_ci(a4, b4);
                    lemma_p_scope_ci(a4, b4);
                    lemma_p_table_ci(a4, b4);
                }
            }
        }
    }
}

/// Any casing of `INFO FOR NAMESPACE` parses to `Namespace` with the whole
/// input consumed.
pub proof fn lemma_mixed_case_namespace(s: Seq<char>)
    requires
        seq_ci_eq(s, clause(kw_namespace())),
    ensures
        parse_info(s) matches Some(p) && p.0 == InfoView::Namespace && p.1 == Seq::<char>::empty(),
{
    let empty = Seq::<char>::empty();
    lemma_alias_namespace(empty);
    assert(clause(kw_namespace()) + empty =~= clause(kw_namespace()));
    lemma_parse_case_insensitive(s, clause(kw_namespace()));
    let p = parse_info(s)->Some_0;
    assert(seq_ci_eq(p.1, empty));
    assert(p.1 =~= empty);
}

} // verus!
