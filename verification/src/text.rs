//! Character classes and text-scanning primitives shared by the grammar.
//!
//! The spec functions here are the mathematical model of the lexical layer:
//! ASCII case folding, whitespace, the identifier character class, and the
//! scanners (leading-run lengths and first-occurrence search) that the
//! grammar's spec parser is built from.  Each has an executable counterpart
//! proved against it.

use vstd::prelude::*;

verus! {

/// The code point of `c` with an ASCII upper-case letter folded to lower case.
pub open spec fn lower_code(c: char) -> int {
    if 'A' as int <= c as int && c as int <= 'Z' as int {
        c as int + 32
    } else {
        c as int
    }
}

/// Case-insensitive character equality (ASCII case folding).
pub open spec fn ci_eq(a: char, b: char) -> bool {
    lower_code(a) == lower_code(b)
}

/// Whitespace accepted as a keyword separator.
pub open spec fn is_ws(c: char) -> bool {
    c == ' ' || c == '\t' || c == '\r' || c == '\n'
}

/// Characters allowed in a plain (unquoted) identifier.
pub open spec fn is_ident_char(c: char) -> bool {
    ('a' as int <= c as int && c as int <= 'z' as int)
        || ('A' as int <= c as int && c as int <= 'Z' as int)
        || ('0' as int <= c as int && c as int <= '9' as int)
        || c == '_'
}

/// `t` is a case-insensitive prefix of `s`.
pub open spec fn tag_ci_matches(s: Seq<char>, t: Seq<char>) -> bool {
    t.len() <= s.len() && forall|i: int| 0 <= i < t.len() ==> #[trigger] ci_eq(s[i], t[i])
}

/// Length of the leading whitespace run of `s`.
pub open spec fn ws_len(s: Seq<char>) -> nat
    decreases s.len(),
{
    if s.len() > 0 && is_ws(s[0]) {
        (1 + ws_len(s.skip(1))) as nat
    } else {
        0
    }
}

/// Length of the leading run of identifier characters of `s`.
pub open spec fn ident_len(s: Seq<char>) -> nat
    decreases s.len(),
{
    if s.len() > 0 && is_ident_char(s[0]) {
        (1 + ident_len(s.skip(1))) as nat
    } else {
        0
    }
}

/// Index of the first occurrence of `c` in `s`, or `-1` when absent.
pub open spec fn find_char(s: Seq<char>, c: char) -> int
    decreases s.len(),
{
    if s.len() == 0 {
        -1
    } else if s[0] == c {
        0
    } else if find_char(s.skip(1), c) == -1 {
        -1
    } else {
        1 + find_char(s.skip(1), c)
    }
}

/// The whitespace run never reaches past the end of the input.
pub proof fn lemma_ws_len_le(s: Seq<char>)
    ensures
        ws_len(s) <= s.len(),
    decreases s.len(),
{
    if s.len() > 0 && is_ws(s[0]) {
        lemma_ws_len_le(s.skip(1));
    }
}

/// The identifier run never reaches past the end of the input.
pub proof fn lemma_ident_len_le(s: Seq<char>)
    ensures
        ident_len(s) <= s.len(),
    decreases s.len(),
{
    if s.len() > 0 && is_ident_char(s[0]) {
        lemma_ident_len_le(s.skip(1));
    }
}

/// `find_char` returns `-1` or a valid index holding `c`.
pub proof fn lemma_find_char_range(s: Seq<char>, c: char)
    ensures
        find_char(s, c) == -1 || (0 <= find_char(s, c) < s.len() && s[find_char(s, c)] == c),
    decreases s.len(),
{
    if s.len() > 0 && s[0] != c {
        lemma_find_char_range(s.skip(1), c);
    }
}

/// A leading run of `k` whitespace characters stopped by a non-whitespace
/// character (or the end of the input) pins `ws_len` to exactly `k`.
pub proof fn lemma_ws_len_eq(s: Seq<char>, k: int)
    requires
        0 <= k <= s.len(),
        forall|j: int| 0 <= j < k ==> is_ws(#[trigger] s[j]),
        k == s.len() || !is_ws(s[k]),
    ensures
        ws_len(s) == k,
    decreases k,
{
    if k == 0 {
    } else {
        assert(is_ws(s[0]));
        lemma_ws_len_eq(s.skip(1), k - 1);
    }
}

/// A leading run of `k` identifier characters stopped by a non-identifier
/// character (or the end of the input) pins `ident_len` to exactly `k`.
pub proof fn lemma_ident_len_eq(s: Seq<char>, k: int)
    requires
        0 <= k <= s.len(),
        forall|j: int| 0 <= j < k ==> is_ident_char(#[trigger] s[j]),
        k == s.len() || !is_ident_char(s[k]),
    ensures
        ident_len(s) == k,
    decreases k,
{
    if k == 0 {
    } else {
        assert(is_ident_char(s[0]));
        lemma_ident_len_eq(s.skip(1), k - 1);
    }
}

/// If `c` first occurs in `s` at index `k`, `find_char` returns `k`.
pub proof fn lemma_find_char_at(s: Seq<char>, c: char, k: int)
    requires
        0 <= k < s.len(),
        forall|j: int| 0 <= j < k ==> #[trigger] s[j] != c,
        s[k] == c,
    ensures
        find_char(s, c) == k,
    decreases k,
{
    if k == 0 {
    } else {
        assert(s[0] != c);
        lemma_find_char_at(s.skip(1), c, k - 1);
    }
}

/// If `c` occurs nowhere in `s`, `find_char` returns `-1`.
pub proof fn lemma_find_char_absent(s: Seq<char>, c: char)
    requires
        forall|j: int| 0 <= j < s.len() ==> #[trigger] s[j] != c,
    ensures
        find_char(s, c) == -1,
    decreases s.len(),
{
    if s.len() == 0 {
    } else {
        assert(s[0] != c);
        lemma_find_char_absent(s.skip(1), c);
    }
}

/// Executable case-insensitive character comparison.
pub fn eq_ci(a: char, b: char) -> (r: bool)
    ensures
        r == ci_eq(a, b),
{
    let x: u32 = a as u32;
    let y: u32 = b as u32;
    let xf: u32 = if 65 <= x && x <= 90 {
        x + 32
    } else {
        x
    };
    let yf: u32 = if 65 <= y && y <= 90 {
        y + 32
    } else {
        y
    };
    xf == yf
}

/// Executable whitespace test.
pub fn ws_char(c: char) -> (r: bool)
    ensures
        r == is_ws(c),
{
    c == ' ' || c == '\t' || c == '\r' || c == '\n'
}

/// Executable identifier-character test.
pub fn ident_char(c: char) -> (r: bool)
    ensures
        r == is_ident_char(c),
{
    let u: u32 = c as u32;
    (97 <= u && u <= 122) || (65 <= u && u <= 90) || (48 <= u && u <= 57) || u == 95
}

} // verus!
