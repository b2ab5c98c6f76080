use vstd::prelude::*;
use vstd::string::StrSliceExecFns;
use crate::strutil::str_eq;
use crate::token::TokenKind;

verus! {

/// The keyword set of the language.
pub open spec fn is_keyword(s: Seq<char>) -> bool {
    s == "let"@ || s == "be"@ || s == "fn"@
}

/// The operator set of the language.
pub open spec fn is_operator_sym(s: Seq<char>) -> bool {
    s == "="@ || s == "+"@ || s == "-"@ || s == "("@ || s == ")"@
}

pub open spec fn is_dec_digit(c: char) -> bool {
    48 <= c as u32 && c as u32 <= 57
}

pub open spec fn is_hex_digit(c: char) -> bool {
    is_dec_digit(c) || (97 <= c as u32 && c as u32 <= 102) || (65 <= c as u32 && c as u32 <= 70)
}

/// `0x` followed by hexadecimal digits only.  The bare string `0x` itself
/// counts: every character of an empty suffix is a hexadecimal digit.
pub open spec fn is_hex_literal(s: Seq<char>) -> bool {
    s.len() >= 2 && s[0] == '0' && s[1] == 'x' && (forall|i: int|
        2 <= i < s.len() ==> is_hex_digit(#[trigger] s[i]))
}

/// Length of the run of decimal digits of `s` that starts at `from`.
pub open spec fn digit_run(s: Seq<char>, from: int) -> int
    decreases s.len() - from,
{
    if from < 0 || from >= s.len() || !is_dec_digit(s[from]) {
        0
    } else {
        1 + digit_run(s, from + 1)
    }
}

/// The shape of an exponent after its `e`/`E` marker: an optional sign, then
/// one or more decimal digits.
pub open spec fn is_exponent_suffix(u: Seq<char>) -> bool {
    if u.len() > 0 && (u[0] == '+' || u[0] == '-') {
        u.len() >= 2 && (forall|i: int| 1 <= i < u.len() ==> is_dec_digit(#[trigger] u[i]))
    } else {
        u.len() >= 1 && (forall|i: int| 0 <= i < u.len() ==> is_dec_digit(#[trigger] u[i]))
    }
}

pub open spec fn is_exp_marker(c: char) -> bool {
    c == 'e' || c == 'E'
}

/// The unsigned part of a decimal floating-point literal: digits with at most
/// one point and at least one digit, then an optional exponent.  This is the
/// `Number` production of the grammar that `f64` accepts from a string.
pub open spec fn is_unsigned_number(t: Seq<char>) -> bool {
    let d1 = digit_run(t, 0);
    if d1 == t.len() {
        d1 > 0
    } else if t[d1] == '.' {
        let rest = d1 + 1 + digit_run(t, d1 + 1);
        d1 + digit_run(t, d1 + 1) > 0 && (rest == t.len() || (is_exp_marker(t[rest])
            && is_exponent_suffix(t.skip(rest + 1))))
    } else if is_exp_marker(t[d1]) {
        d1 > 0 && is_exponent_suffix(t.skip(d1 + 1))
    } else {
        false
    }
}

/// `c` equals the lower-case letter `lo` up to ASCII case.
pub open spec fn ci_char(c: char, lo: char) -> bool {
    c == lo || (97 <= lo as u32 && lo as u32 <= 122 && c as u32 + 32 == lo as u32)
}

/// `s` equals the lower-case word `lo` up to ASCII case.
pub open spec fn ci_eq(s: Seq<char>, lo: Seq<char>) -> bool {
    s.len() == lo.len() && (forall|i: int| 0 <= i < s.len() ==> ci_char(#[trigger] s[i], lo[i]))
}

/// The special floating-point words, in any ASCII case.
pub open spec fn is_special_float(t: Seq<char>) -> bool {
    ci_eq(t, "inf"@) || ci_eq(t, "infinity"@) || ci_eq(t, "nan"@)
}

/// Whether `s` is accepted as a 64-bit floating-point literal: an optional
/// sign, then a special word or an unsigned number.
pub open spec fn is_float_literal(s: Seq<char>) -> bool {
    let t = if s.len() > 0 && (s[0] == '+' || s[0] == '-') {
        s.skip(1)
    } else {
        s
    };
    is_special_float(t) || is_unsigned_number(t)
}

pub open spec fn is_numeric(s: Seq<char>) -> bool {
    is_float_literal(s) || is_hex_literal(s)
}

/// The classification of a trimmed segment.  The tie-break order is fixed:
/// keyword before operator before numeric before the default `Word`.
pub open spec fn kind_of(s: Seq<char>) -> TokenKind {
    if is_keyword(s) {
        TokenKind::Keyword
    } else if is_operator_sym(s) {
        TokenKind::Operator
    } else if is_numeric(s) {
        TokenKind::Numeric
    } else {
        TokenKind::Word
    }
}

/// The empty segment is a plain word: it is no keyword, no operator and no
/// numeric literal.
pub proof fn lemma_kind_of_empty()
    ensures
        kind_of(Seq::<char>::empty()) == TokenKind::Word,
{
    reveal_strlit("let");
    reveal_strlit("be");
    reveal_strlit("fn");
    reveal_strlit("=");
    reveal_strlit("+");
    reveal_strlit("-");
    reveal_strlit("(");
    reveal_strlit(")");
    reveal_strlit("inf");
    reveal_strlit("infinity");
    reveal_strlit("nan");
    assert("let"@.len() == 3);
    assert("be"@.len() == 2);
    assert("fn"@.len() == 2);
    assert("="@.len() == 1);
    assert("+"@.len() == 1);
    assert("-"@.len() == 1);
    assert("("@.len() == 1);
    assert(")"@.len() == 1);
    assert("inf"@.len() == 3);
    assert("infinity"@.len() == 8);
    assert("nan"@.len() == 3);
}

fn dec_digit(c: char) -> (r: bool)
    ensures
        r == is_dec_digit(c),
{
    let u: u32 = c as u32;
    48 <= u && u <= 57
}

fn hex_digit(c: char) -> (r: bool)
    ensures
        r == is_hex_digit(c),
{
    let u: u32 = c as u32;
    (48 <= u && u <= 57) || (97 <= u && u <= 102) || (65 <= u && u <= 70)
}

/// A run of decimal digits of the given extent and nothing more has exactly
/// the length that `digit_run` gives.
proof fn lemma_digit_run_extent(s: Seq<char>, from: int, end: int)
    requires
        0 <= from <= end <= s.len(),
        forall|j: int| from <= j < end ==> is_dec_digit(#[trigger] s[j]),
        end == s.len() || !is_dec_digit(s[end]),
    ensures
        digit_run(s, from) == end - from,
    decreases end - from,
{
    if from < end {
        lemma_digit_run_extent(s, from + 1, end);
    }
}

/// Scans forward from `from` over decimal digits and returns the first index
/// that does not continue the run.
fn digit_run_end(s: &str, from: usize) -> (e: usize)
    requires
        from <= s@.len(),
    ensures
        from <= e <= s@.len(),
        e - from == digit_run(s@, from as int),
        forall|j: int| from <= j < e ==> is_dec_digit(#[trigger] s@[j]),
        e == s@.len() || !is_dec_digit(s@[e as int]),
{
    let n: usize = s.unicode_len();
    let mut e: usize = from;
    loop
        invariant_except_break
            from <= e <= n,
            n == s@.len(),
            forall|j: int| from <= j < e ==> is_dec_digit(#[trigger] s@[j]),
        ensures
            from <= e <= n,
            n == s@.len(),
            forall|j: int| from <= j < e ==> is_dec_digit(#[trigger] s@[j]),
            e == n || !is_dec_digit(s@[e as int]),
        decreases n - e,
    {
        if e == n {
            break;
        }
        let c = s.get_char(e);
        if !dec_digit(c) {
            break;
        }
        e = e + 1;
    }
    proof {
        lemma_digit_run_extent(s@, from as int, e as int);
    }
    e
}

/// Decides `is_exponent_suffix` on the part of `s` that starts at `from`.
fn exponent_suffix_at(s: &str, from: usize) -> (r: bool)
    requires
        from <= s@.len(),
    ensures
        r == is_exponent_suffix(s@.skip(from as int)),
{
    let ghost u = s@.skip(from as int);
    let n: usize = s.unicode_len();
    if from == n {
        return false;
    }
    let c0 = s.get_char(from);
    assert(u[0] == c0);
    let start: usize = if c0 == '+' || c0 == '-' {
        from + 1
    } else {
        from
    };
    let e: usize = digit_run_end(s, start);
    let r = e == n && n > start;
    proof {
        assert(forall|i: int| 0 <= i < u.len() ==> u[i] == s@[from + i]);
        if r {
            assert(forall|i: int| start - from <= i < u.len() ==> is_dec_digit(#[trigger] u[i]));
        } else {
            if e < n {
                assert(!is_dec_digit(u[e - from]));
            }
        }
    }
    r
}

/// Decides `ci_eq` between the part of `s` that starts at `from` and the
/// lower-case word `lo`.
fn ci_match(s: &str, from: usize, lo: &str) -> (r: bool)
    requires
        from <= s@.len(),
    ensures
        r == ci_eq(s@.skip(from as int), lo@),
{
    let ghost u = s@.skip(from as int);
    let n: usize = s.unicode_len();
    let m: usize = lo.unicode_len();
    if n - from != m {
        return false;
    }
    let mut i: usize = 0;
    while i < m
        invariant
            i <= m,
            from + m == n,
            n == s@.len(),
            m == lo@.len(),
            u == s@.skip(from as int),
            forall|j: int| 0 <= j < i ==> ci_char(#[trigger] u[j], lo@[j]),
        decreases m - i,
    {
        let c = s.get_char(from + i);
        let p = lo.get_char(i);
        assert(u[i as int] == c);
        let pu: u32 = p as u32;
        let cu: u32 = c as u32;
        if !(c == p || (97 <= pu && pu <= 122 && cu + 32 == pu)) {
            return false;
        }
        i = i + 1;
    }
    true
}

/// Two skips in a row are one longer skip.
proof fn lemma_skip_skip(s: Seq<char>, a: int, b: int)
    requires
        0 <= a,
        0 <= b,
        a + b <= s.len(),
    ensures
        s.skip(a).skip(b) =~= s.skip(a + b),
{
}

/// `digit_run` looks only at the characters from its start index on, so it
/// commutes with dropping a prefix.
proof fn lemma_digit_run_skip(s: Seq<char>, k: int, from: int)
    requires
        0 <= k,
        0 <= from,
        k + from <= s.len(),
    ensures
        digit_run(s.skip(k), from) == digit_run(s, k + from),
    decreases s.len() - (k + from),
{
    if k + from < s.len() && is_dec_digit(s[k + from]) {
        lemma_digit_run_skip(s, k, from + 1);
    }
}

/// Decides `is_float_literal`.
fn float_literal(s: &str) -> (r: bool)
    ensures
        r == is_float_literal(s@),
{
    let n: usize = s.unicode_len();
    let mut start: usize = 0;
    if n > 0 {
        let c = s.get_char(0);
        if c == '+' || c == '-' {
            start = 1;
        }
    }
    let ghost t = s@.skip(start as int);
    proof {
        if start == 0 {
            assert(s@.skip(0) =~= s@);
        }
    }
    if ci_match(s, start, "inf") || ci_match(s, start, "infinity") || ci_match(s, start, "nan") {
        return true;
    }
    proof {
        assert(forall|i: int| 0 <= i < t.len() ==> t[i] == s@[start + i]);
        lemma_digit_run_skip(s@, start as int, 0);
    }
    let d1e: usize = digit_run_end(s, start);
    assert(digit_run(t, 0) == d1e - start);
    if d1e == n {
        return d1e > start;
    }
    let c = s.get_char(d1e);
    assert(t[d1e - start] == c);
    if c == '.' {
        proof {
            lemma_digit_run_skip(s@, start as int, d1e + 1 - start);
        }
        let d2e: usize = digit_run_end(s, d1e + 1);
        assert(digit_run(t, d1e - start + 1) == d2e - (d1e + 1));
        if d1e == start && d2e == d1e + 1 {
            return false;
        }
        if d2e == n {
            return true;
        }
        let c2 = s.get_char(d2e);
        assert(t[d2e - start] == c2);
        if c2 == 'e' || c2 == 'E' {
            let r = exponent_suffix_at(s, d2e + 1);
            proof {
                lemma_skip_skip(s@, start as int, d2e + 1 - start);
            }
            return r;
        }
        return false;
    }
    if c == 'e' || c == 'E' {
        if d1e == start {
            return false;
        }
        let r = exponent_suffix_at(s, d1e + 1);
        proof {
            lemma_skip_skip(s@, start as int, d1e + 1 - start);
        }
        return r;
    }
    false
}

/// Decides `is_hex_literal`.
fn hex_literal(s: &str) -> (r: bool)
    ensures
        r == is_hex_literal(s@),
{
    let n: usize = s.unicode_len();
    if n < 2 {
        return false;
    }
    if s.get_char(0) != '0' || s.get_char(1) != 'x' {
        return false;
    }
    let mut i: usize = 2;
    while i < n
        invariant
            2 <= i <= n,
            n == s@.len(),
            forall|j: int| 2 <= j < i ==> is_hex_digit(#[trigger] s@[j]),
        decreases n - i,
    {
        if !hex_digit(s.get_char(i)) {
            return false;
        }
        i = i + 1;
    }
    true
}

/// Classifies a trimmed segment: keyword, operator, numeric literal, or a
/// plain word, checked in that fixed order.
pub fn determine_kind(token: String) -> (k: TokenKind)
    ensures
        k == kind_of(token@),
{
    let t = token.as_str();
    if str_eq(t, "let") || str_eq(t, "be") || str_eq(t, "fn") {
        return TokenKind::Keyword;
    }
    if str_eq(t, "=") || str_eq(t, "+") || str_eq(t, "-") || str_eq(t, "(") || str_eq(t, ")") {
        return TokenKind::Operator;
    }
    if float_literal(t) || hex_literal(t) {
        return TokenKind::Numeric;
    }
    TokenKind::Word
}

} // verus!
