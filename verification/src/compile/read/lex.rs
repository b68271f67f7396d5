use vstd::prelude::*;

use crate::compile::compilation_error::CompilationError;
use crate::compile::ident::Symbol;
use crate::compile::read::token::{tokens_view, Token, TokenView};
use crate::compile::sexpr::{Bool, Char, Num, Str};
use crate::compile::span::Span;
use crate::compile::text::{chars_of, push_char, string_of};

verus! {

// ---------------------------------------------------------------------------
// Characters and byte offsets
// ---------------------------------------------------------------------------

/// Number of bytes of the UTF-8 encoding of `c`.
pub open spec fn utf8_len(c: char) -> nat {
    if (c as u32) < 0x80 {
        1
    } else if (c as u32) < 0x800 {
        2
    } else if (c as u32) < 0x10000 {
        3
    } else {
        4
    }
}

/// Byte offset of the `i`-th character of `s` in its UTF-8 encoding.
pub open spec fn off(s: Seq<char>, i: int) -> nat
    decreases i,
{
    if i <= 0 || i > s.len() {
        0
    } else {
        off(s, i - 1) + utf8_len(s[i - 1])
    }
}

/// The span covering the characters `i .. j` of `s`, in byte offsets.
pub open spec fn sp(s: Seq<char>, i: int, j: int) -> Span {
    Span { lo: off(s, i) as usize, hi: off(s, j) as usize }
}

/// Whether the UTF-8 encoding of the whole text fits in a `usize`.
pub open spec fn fits(s: Seq<char>) -> bool {
    off(s, s.len() as int) <= usize::MAX
}

/// Byte offsets grow along a text.
pub proof fn lemma_off_monotonic(s: Seq<char>, i: int, j: int)
    requires
        0 <= i <= j <= s.len(),
    ensures
        off(s, i) <= off(s, j),
    decreases j - i,
{
    if i < j {
        lemma_off_monotonic(s, i, j - 1);
    }
}

pub(crate) fn utf8_width(c: char) -> (r: usize)
    ensures
        r == utf8_len(c),
{
    if (c as u32) < 0x80 {
        1
    } else if (c as u32) < 0x800 {
        2
    } else if (c as u32) < 0x10000 {
        3
    } else {
        4
    }
}

/// The byte offset of character `j`, computed from that of character `i`.
fn offset_at(s: &Vec<char>, i: usize, lo: usize, j: usize) -> (r: usize)
    requires
        i <= j <= s@.len(),
        lo == off(s@, i as int),
        fits(s@),
    ensures
        r == off(s@, j as int),
{
    let mut k = i;
    let mut o = lo;
    while k < j
        invariant
            i <= k <= j <= s@.len(),
            o == off(s@, k as int),
            fits(s@),
        decreases j - k,
    {
        proof {
            lemma_off_monotonic(s@, k + 1, s@.len() as int);
        }
        o = o + utf8_width(s[k]);
        k = k + 1;
    }
    o
}

// ---------------------------------------------------------------------------
// Character classes
// ---------------------------------------------------------------------------

pub open spec fn is_digit(c: char) -> bool {
    '0' <= c <= '9'
}

pub open spec fn is_whitespace(c: char) -> bool {
    c == ' ' || c == '\r' || c == '\t' || c == '\n'
}

/// Characters that may start an identifier.
pub open spec fn is_id_initial(c: char) -> bool {
    ||| 'A' <= c <= 'Z'
    ||| 'a' <= c <= 'z'
    ||| c == '!' || c == '$' || c == '%' || c == '&' || c == '*' || c == '/' || c == ':'
    ||| c == '<' || c == '=' || c == '>' || c == '?' || c == '^' || c == '_' || c == '~'
    ||| c == '+' || c == '-'
}

/// Characters that may continue an identifier.
pub open spec fn is_id_subsequent(c: char) -> bool {
    is_digit(c) || c == '+' || c == '-' || c == '.' || c == '@' || is_id_initial(c)
}

fn id_initial(c: char) -> (r: bool)
    ensures
        r == is_id_initial(c),
{
    ('A' <= c && c <= 'Z') || ('a' <= c && c <= 'z') || c == '!' || c == '$' || c == '%' || c
        == '&' || c == '*' || c == '/' || c == ':' || c == '<' || c == '=' || c == '>' || c
        == '?' || c == '^' || c == '_' || c == '~' || c == '+' || c == '-'
}

fn id_subsequent(c: char) -> (r: bool)
    ensures
        r == is_id_subsequent(c),
{
    ('0' <= c && c <= '9') || c == '+' || c == '-' || c == '.' || c == '@' || id_initial(c)
}

/// Length of the run of identifier characters of `s` starting at `i`.
pub open spec fn run_id(s: Seq<char>, i: int) -> nat
    decreases s.len() - i,
{
    if 0 <= i < s.len() && is_id_subsequent(s[i]) {
        1 + run_id(s, i + 1)
    } else {
        0
    }
}

/// Length of the run of decimal digits of `s` starting at `i`.
pub open spec fn run_digits(s: Seq<char>, i: int) -> nat
    decreases s.len() - i,
{
    if 0 <= i < s.len() && is_digit(s[i]) {
        1 + run_digits(s, i + 1)
    } else {
        0
    }
}

/// Length of the run of characters of `s` other than a line feed starting at `i`.
pub open spec fn run_line(s: Seq<char>, i: int) -> nat
    decreases s.len() - i,
{
    if 0 <= i < s.len() && s[i] != '\n' {
        1 + run_line(s, i + 1)
    } else {
        0
    }
}

proof fn lemma_run_id_bound(s: Seq<char>, i: int)
    requires
        0 <= i <= s.len(),
    ensures
        i + run_id(s, i) <= s.len(),
        i + run_id(s, i) < s.len() ==> !is_id_subsequent(s[i + run_id(s, i)]),
        forall|k: int| i <= k < i + run_id(s, i) ==> is_id_subsequent(#[trigger] s[k]),
    decreases s.len() - i,
{
    if i < s.len() && is_id_subsequent(s[i]) {
        lemma_run_id_bound(s, i + 1);
    }
}

proof fn lemma_run_digits_bound(s: Seq<char>, i: int)
    requires
        0 <= i <= s.len(),
    ensures
        i + run_digits(s, i) <= s.len(),
        forall|k: int| i <= k < i + run_digits(s, i) ==> is_digit(#[trigger] s[k]),
    decreases s.len() - i,
{
    if i < s.len() && is_digit(s[i]) {
        lemma_run_digits_bound(s, i + 1);
    }
}

proof fn lemma_run_line_bound(s: Seq<char>, i: int)
    requires
        0 <= i <= s.len(),
    ensures
        i + run_line(s, i) <= s.len(),
    decreases s.len() - i,
{
    if i < s.len() && s[i] != '\n' {
        lemma_run_line_bound(s, i + 1);
    }
}

fn scan_id_run(s: &Vec<char>, i: usize) -> (r: usize)
    requires
        i <= s@.len(),
    ensures
        r == i + run_id(s@, i as int),
{
    let mut k = i;
    while k < s.len() && id_subsequent(s[k])
        invariant
            i <= k <= s@.len(),
            run_id(s@, i as int) == (k - i) + run_id(s@, k as int),
        decreases s@.len() - k,
    {
        k = k + 1;
    }
    k
}

fn scan_digit_run(s: &Vec<char>, i: usize) -> (r: usize)
    requires
        i <= s@.len(),
    ensures
        r == i + run_digits(s@, i as int),
{
    let mut k = i;
    while k < s.len() && '0' <= s[k] && s[k] <= '9'
        invariant
            i <= k <= s@.len(),
            run_digits(s@, i as int) == (k - i) + run_digits(s@, k as int),
        decreases s@.len() - k,
    {
        k = k + 1;
    }
    k
}

fn scan_line_run(s: &Vec<char>, i: usize) -> (r: usize)
    requires
        i <= s@.len(),
    ensures
        r == i + run_line(s@, i as int),
{
    let mut k = i;
    while k < s.len() && s[k] != '\n'
        invariant
            i <= k <= s@.len(),
            run_line(s@, i as int) == (k - i) + run_line(s@, k as int),
        decreases s@.len() - k,
    {
        k = k + 1;
    }
    k
}

// ---------------------------------------------------------------------------
// Numeric literals
// ---------------------------------------------------------------------------

/// ASCII lower-casing.
pub open spec fn lower(c: char) -> char {
    if 'A' <= c <= 'Z' {
        ((c as u32) + 32) as char
    } else {
        c
    }
}

/// Whether `t` spells the lower-case word `w`, ignoring ASCII case.
pub open spec fn spells(t: Seq<char>, w: Seq<char>) -> bool {
    t.len() == w.len() && forall|k: int| 0 <= k < t.len() ==> lower(#[trigger] t[k]) == w[k]
}

/// A mantissa: digits with at most one decimal point, and at least one digit.
pub open spec fn is_mantissa(m: Seq<char>) -> bool {
    &&& forall|k: int| 0 <= k < m.len() ==> is_digit(#[trigger] m[k]) || m[k] == '.'
    &&& forall|a: int, b: int| 0 <= a < b < m.len() ==> !(m[a] == '.' && m[b] == '.')
    &&& exists|k: int| 0 <= k < m.len() && is_digit(#[trigger] m[k])
}

/// The text after a leading `+` or `-`, if any.
pub open spec fn unsigned(t: Seq<char>) -> Seq<char> {
    if t.len() > 0 && (t[0] == '+' || t[0] == '-') {
        t.skip(1)
    } else {
        t
    }
}

/// An exponent: an optional sign followed by at least one digit.
pub open spec fn is_exponent(x: Seq<char>) -> bool {
    let y = unsigned(x);
    y.len() > 0 && forall|k: int| 0 <= k < y.len() ==> is_digit(#[trigger] y[k])
}

/// Index of the first exponent marker `e` or `E` in `u`, or its length if there is none.
pub open spec fn exp_mark(u: Seq<char>, i: int) -> int
    decreases u.len() - i,
{
    if 0 <= i < u.len() && u[i] != 'e' && u[i] != 'E' {
        exp_mark(u, i + 1)
    } else {
        i
    }
}

/// An unsigned decimal number: a mantissa, then optionally `e` and an exponent.
pub open spec fn is_decimal(u: Seq<char>) -> bool {
    let k = exp_mark(u, 0);
    if k >= u.len() {
        is_mantissa(u)
    } else {
        is_mantissa(u.take(k)) && is_exponent(u.skip(k + 1))
    }
}

/// The texts that denote a floating-point number: an optional sign, then `inf`,
/// `infinity`, `nan` (in any case) or a decimal number.
pub open spec fn is_number_text(t: Seq<char>) -> bool {
    let u = unsigned(t);
    ||| spells(u, seq!['i', 'n', 'f'])
    ||| spells(u, seq!['i', 'n', 'f', 'i', 'n', 'i', 't', 'y'])
    ||| spells(u, seq!['n', 'a', 'n'])
    ||| is_decimal(u)
}

fn lower_char(c: char) -> (r: char)
    ensures
        r == lower(c),
{
    if 'A' <= c && c <= 'Z' {
        ((c as u8) + 32) as char
    } else {
        c
    }
}

fn spells_word(t: &Vec<char>, from: usize, w: &[char]) -> (r: bool)
    requires
        from <= t@.len(),
    ensures
        r == spells(t@.skip(from as int), w@),
{
    let n = t.len();
    if n - from != w.len() {
        return false;
    }
    let mut k: usize = 0;
    while k < w.len()
        invariant
            n == t@.len(),
            from <= t@.len(),
            t@.len() - from == w@.len(),
            0 <= k <= w@.len(),
            forall|j: int| 0 <= j < k ==> lower(#[trigger] t@.skip(from as int)[j]) == w@[j],
        decreases w@.len() - k,
    {
        if lower_char(t[from + k]) != w[k] {
            assert(lower(t@.skip(from as int)[k as int]) != w@[k as int]);
            return false;
        }
        k = k + 1;
    }
    true
}

fn mantissa_ok(t: &Vec<char>, from: usize, to: usize) -> (r: bool)
    requires
        from <= to <= t@.len(),
    ensures
        r == is_mantissa(t@.subrange(from as int, to as int)),
{
    let ghost m = t@.subrange(from as int, to as int);
    let mut k = from;
    let mut seen_dot = false;
    let mut seen_digit = false;
    while k < to
        invariant
            from <= k <= to <= t@.len(),
            m == t@.subrange(from as int, to as int),
            forall|j: int| 0 <= j < k - from ==> is_digit(#[trigger] m[j]) || m[j] == '.',
            forall|a: int, b: int| 0 <= a < b < k - from ==> !(m[a] == '.' && m[b] == '.'),
            seen_dot == exists|j: int| 0 <= j < k - from && #[trigger] m[j] == '.',
            seen_digit == exists|j: int| 0 <= j < k - from && is_digit(#[trigger] m[j]),
        decreases to - k,
    {
        let c = t[k];
        assert(m[k - from] == c);
        if c == '.' {
            if seen_dot {
                proof {
                    let j = choose|j: int| 0 <= j < k - from && #[trigger] m[j] == '.';
                    assert(m[j] == '.' && m[k - from] == '.');
                }
                return false;
            }
            seen_dot = true;
        } else if '0' <= c && c <= '9' {
            seen_digit = true;
        } else {
            return false;
        }
        k = k + 1;
    }
    seen_digit
}

fn exponent_ok(t: &Vec<char>, from: usize) -> (r: bool)
    requires
        from <= t@.len(),
    ensures
        r == is_exponent(t@.skip(from as int)),
{
    let ghost x = t@.skip(from as int);
    let mut k = from;
    if k < t.len() && (t[k] == '+' || t[k] == '-') {
        k = k + 1;
    }
    assert(unsigned(x) =~= t@.skip(k as int));
    if k == t.len() {
        return false;
    }
    let start = k;
    while k < t.len()
        invariant
            start <= k <= t@.len(),
            x == t@.skip(from as int),
            unsigned(x) == t@.skip(start as int),
            forall|j: int| start <= j < k ==> is_digit(#[trigger] t@[j]),
        decreases t@.len() - k,
    {
        if !('0' <= t[k] && t[k] <= '9') {
            assert(t@.skip(start as int)[k - start] == t@[k as int]);
            return false;
        }
        k = k + 1;
    }
    assert forall|j: int| 0 <= j < t@.skip(start as int).len() implies is_digit(
        #[trigger] t@.skip(start as int)[j],
    ) by {
        assert(t@.skip(start as int)[j] == t@[start + j]);
    }
    true
}

/// Whether the text `t` is a numeric literal (see `is_number_text`).
fn number_text(t: &Vec<char>) -> (r: bool)
    ensures
        r == is_number_text(t@),
{
    let mut from: usize = 0;
    if t.len() > 0 && (t[0] == '+' || t[0] == '-') {
        from = 1;
    }
    assert(unsigned(t@) =~= t@.skip(from as int));
    if spells_word(t, from, &['i', 'n', 'f']) {
        assert(['i', 'n', 'f']@ =~= seq!['i', 'n', 'f']);
        return true;
    }
    if spells_word(t, from, &['i', 'n', 'f', 'i', 'n', 'i', 't', 'y']) {
        assert(['i', 'n', 'f', 'i', 'n', 'i', 't', 'y']@ =~= seq!['i', 'n', 'f', 'i', 'n', 'i', 't', 'y']);
        return true;
    }
    if spells_word(t, from, &['n', 'a', 'n']) {
        assert(['n', 'a', 'n']@ =~= seq!['n', 'a', 'n']);
        return true;
    }
    assert(['i', 'n', 'f']@ =~= seq!['i', 'n', 'f']);
    assert(['i', 'n', 'f', 'i', 'n', 'i', 't', 'y']@ =~= seq!['i', 'n', 'f', 'i', 'n', 'i', 't', 'y']);
    assert(['n', 'a', 'n']@ =~= seq!['n', 'a', 'n']);
    let ghost u = t@.skip(from as int);
    let mut k = from;
    while k < t.len() && t[k] != 'e' && t[k] != 'E'
        invariant
            from <= k <= t@.len(),
            u == t@.skip(from as int),
            exp_mark(u, 0) == exp_mark(u, k - from),
        decreases t@.len() - k,
    {
        k = k + 1;
    }
    assert(exp_mark(u, k - from) == k - from);
    if k == t.len() {
        assert(t@.subrange(from as int, t@.len() as int) =~= u);
        mantissa_ok(t, from, k)
    } else {
        assert(t@.subrange(from as int, k as int) =~= u.take(k - from));
        assert(t@.skip(k + 1) =~= u.skip(k - from + 1));
        mantissa_ok(t, from, k) && exponent_ok(t, k + 1)
    }
}

// ---------------------------------------------------------------------------
// String literals
// ---------------------------------------------------------------------------

/// Index of the quote that closes a string literal, scanning from `j` with the
/// given escape state; `None` when the text ends first.
pub open spec fn string_end(s: Seq<char>, j: int, escaped: bool) -> Option<int>
    decreases s.len() - j,
{
    if j < 0 || j >= s.len() {
        None
    } else if s[j] == '"' && !escaped {
        Some(j)
    } else {
        string_end(s, j + 1, if s[j] == '\\' { !escaped } else { false })
    }
}

proof fn lemma_string_end_bound(s: Seq<char>, j: int, escaped: bool)
    requires
        0 <= j,
    ensures
        string_end(s, j, escaped) matches Some(e) ==> j <= e < s.len() && s[e] == '"',
    decreases s.len() - j,
{
    if j < s.len() && !(s[j] == '"' && !escaped) {
        lemma_string_end_bound(s, j + 1, if s[j] == '\\' { !escaped } else { false });
    }
}

/// Replaces, left to right, every occurrence of the two characters `a b` by `r`.
pub open spec fn replace_pair(s: Seq<char>, a: char, b: char, r: char) -> Seq<char>
    decreases s.len(),
{
    if s.len() < 2 {
        s
    } else if s[0] == a && s[1] == b {
        seq![r] + replace_pair(s.skip(2), a, b, r)
    } else {
        seq![s[0]] + replace_pair(s.skip(1), a, b, r)
    }
}

/// The contents of a string literal: `\\` stands for a backslash, then `\"` for a quote.
pub open spec fn unescape(s: Seq<char>) -> Seq<char> {
    replace_pair(replace_pair(s, '\\', '\\', '\\'), '\\', '"', '"')
}

fn replace_pair_exec(s: &Vec<char>, a: char, b: char, r: char) -> (out: Vec<char>)
    ensures
        out@ == replace_pair(s@, a, b, r),
{
    let mut out: Vec<char> = Vec::new();
    let mut k: usize = 0;
    assert(s@.skip(0) =~= s@);
    while k < s.len()
        invariant
            0 <= k <= s@.len(),
            out@ + replace_pair(s@.skip(k as int), a, b, r) == replace_pair(s@, a, b, r),
        decreases s@.len() - k,
    {
        let ghost rest = s@.skip(k as int);
        if k + 1 < s.len() && s[k] == a && s[k + 1] == b {
            out.push(r);
            assert(rest.skip(2) =~= s@.skip(k + 2));
            k = k + 2;
        } else {
            out.push(s[k]);
            proof {
                if rest.len() >= 2 {
                    assert(rest.skip(1) =~= s@.skip(k + 1));
                } else {
                    assert(rest =~= seq![s@[k as int]]);
                    assert(s@.skip(k + 1) =~= Seq::<char>::empty());
                }
            }
            k = k + 1;
        }
    }
    assert(s@.skip(k as int) =~= Seq::<char>::empty());
    out
}

fn string_of_chars(v: &Vec<char>) -> (r: String)
    ensures
        r@ == v@,
{
    let mut r = String::new();
    let mut k: usize = 0;
    while k < v.len()
        invariant
            0 <= k <= v@.len(),
            r@ == v@.take(k as int),
        decreases v@.len() - k,
    {
        push_char(&mut r, v[k]);
        assert(v@.take(k + 1) =~= v@.take(k as int).push(v@[k as int]));
        k = k + 1;
    }
    assert(v@.take(k as int) =~= v@);
    r
}

fn chars_between(s: &Vec<char>, from: usize, to: usize) -> (r: Vec<char>)
    requires
        from <= to <= s@.len(),
    ensures
        r@ == s@.subrange(from as int, to as int),
{
    let mut r: Vec<char> = Vec::new();
    let mut k = from;
    while k < to
        invariant
            from <= k <= to <= s@.len(),
            r@ == s@.subrange(from as int, k as int),
        decreases to - k,
    {
        r.push(s[k]);
        assert(s@.subrange(from as int, k + 1) =~= s@.subrange(from as int, k as int).push(s@[k as int]));
        k = k + 1;
    }
    r
}

// ---------------------------------------------------------------------------
// The token grammar
// ---------------------------------------------------------------------------

/// The error value of the lexer: where and why.
pub type LexError = (Span, Seq<char>);

/// Whether the characters of `s` from `i` on begin with `w`.
pub open spec fn starts_with(s: Seq<char>, i: int, w: Seq<char>) -> bool {
    0 <= i && i + w.len() <= s.len() && s.subrange(i, i + w.len()) == w
}

/// Scans the token that starts at character `i` (which must exist): the token, if the
/// characters make one rather than blank space or a comment, and the index just past it.
pub open spec fn scan_token(s: Seq<char>, i: int) -> Result<(Option<TokenView>, int), LexError> {
    let c = s[i];
    if is_whitespace(c) {
        Ok((None, i + 1))
    } else if c == ';' {
        Ok((None, i + 1 + run_line(s, i + 1)))
    } else if c == '(' {
        Ok((Some(TokenView::LParen(sp(s, i, i + 1))), i + 1))
    } else if c == ')' {
        Ok((Some(TokenView::RParen(sp(s, i, i + 1))), i + 1))
    } else if c == '`' {
        Ok((Some(TokenView::QuasiQuote(sp(s, i, i + 1))), i + 1))
    } else if c == '|' {
        Ok((Some(TokenView::Pipe(sp(s, i, i + 1))), i + 1))
    } else if c == '\'' {
        Ok((Some(TokenView::Quote(sp(s, i, i + 1))), i + 1))
    } else if c == '.' {
        if i + 1 < s.len() && s[i + 1] == '.' {
            if i + 2 < s.len() && s[i + 2] == '.' {
                Ok((Some(TokenView::Id(seq!['.', '.', '.'], sp(s, i, i + 3))), i + 3))
            } else {
                Err((sp(s, i, i + 2), "Expected '.' after '..'"@))
            }
        } else {
            Ok((Some(TokenView::Dot(sp(s, i, i + 1))), i + 1))
        }
    } else if c == ',' {
        if i + 1 < s.len() && s[i + 1] == '@' {
            Ok((Some(TokenView::CommaAt(sp(s, i, i + 2))), i + 2))
        } else {
            Ok((Some(TokenView::Comma(sp(s, i, i + 1))), i + 1))
        }
    } else if c == '#' {
        if i + 1 < s.len() && s[i + 1] == 't' {
            Ok((Some(TokenView::Bool(true, sp(s, i, i + 2))), i + 2))
        } else if i + 1 < s.len() && s[i + 1] == 'f' {
            Ok((Some(TokenView::Bool(false, sp(s, i, i + 2))), i + 2))
        } else if i + 1 < s.len() && s[i + 1] == '(' {
            Ok((Some(TokenView::HashLParen(sp(s, i, i + 2))), i + 2))
        } else if starts_with(s, i + 1, seq!['\\', 's', 'p', 'a', 'c', 'e']) {
            Ok((Some(TokenView::Char(' ', sp(s, i, i + 7))), i + 7))
        } else if starts_with(s, i + 1, seq!['\\', 'n', 'e', 'w', 'l', 'i', 'n', 'e']) {
            Ok((Some(TokenView::Char('\n', sp(s, i, i + 9))), i + 9))
        } else if i + 1 < s.len() && s[i + 1] == '\\' {
            if i + 2 < s.len() {
                Ok((Some(TokenView::Char(s[i + 2], sp(s, i, i + 3))), i + 3))
            } else {
                Err(
                    (
                        sp(s, i, i + 2),
                        "Expected '#t', '#f', '#(', or a character literal after '#'"@,
                    ),
                )
            }
        } else {
            Err(
                (
                    sp(s, i, i + 1),
                    "Expected '#t', '#f', '#(', or a character literal after '#'"@,
                ),
            )
        }
    } else if c == '-' {
        if i + 1 >= s.len() {
            Ok((Some(TokenView::Id(seq!['-'], sp(s, i, i + 1))), i + 1))
        } else {
            let j = i + 1 + run_id(s, i + 1);
            let text = s.subrange(i, j);
            if is_number_text(text) {
                Ok((Some(TokenView::Num(text, sp(s, i, j))), j))
            } else {
                Ok((Some(TokenView::Id(text, sp(s, i, j))), j))
            }
        }
    } else if is_digit(c) {
        let j1 = i + 1 + run_digits(s, i + 1);
        let j = if j1 < s.len() && s[j1] == '.' {
            j1 + 1 + run_digits(s, j1 + 1)
        } else {
            j1
        };
        Ok((Some(TokenView::Num(s.subrange(i, j), sp(s, i, j))), j))
    } else if c == '"' {
        match string_end(s, i + 1, false) {
            None => Err((sp(s, i, s.len() as int), "Unterminated string literal"@)),
            Some(e) => Ok(
                (Some(TokenView::Str(unescape(s.subrange(i + 1, e)), sp(s, i, e + 1))), e + 1),
            ),
        }
    } else if is_id_initial(c) {
        let j = i + 1 + run_id(s, i + 1);
        Ok((Some(TokenView::Id(s.subrange(i, j), sp(s, i, j))), j))
    } else {
        Err((sp(s, i, i + 1), "Unexpected character: '"@ + seq![c] + "'"@))
    }
}

proof fn lemma_scan_token_progress(s: Seq<char>, i: int)
    requires
        0 <= i < s.len(),
    ensures
        scan_token(s, i) matches Ok((_, j)) ==> i < j <= s.len(),
{
    lemma_run_line_bound(s, i + 1);
    lemma_run_id_bound(s, i + 1);
    lemma_run_digits_bound(s, i + 1);
    let j1 = i + 1 + run_digits(s, i + 1);
    if j1 < s.len() {
        lemma_run_digits_bound(s, j1 + 1);
    }
    lemma_string_end_bound(s, i + 1, false);
}

/// Lexes the characters of `s` from index `i` on, after the tokens `acc`:
/// the tokens of the whole text, ending with the end-of-input token, or the first error.
pub open spec fn lex_from(s: Seq<char>, i: int, acc: Seq<TokenView>) -> Result<Seq<TokenView>, LexError>
    decreases s.len() - i,
{
    if i < 0 || i >= s.len() {
        Ok(acc.push(TokenView::EoF(sp(s, s.len() as int, s.len() as int))))
    } else {
        match scan_token(s, i) {
            Err(e) => Err(e),
            Ok((t, j)) => {
                if j <= i || j > s.len() {
                    Ok(acc)
                } else {
                    let acc2 = match t {
                        Some(tok) => acc.push(tok),
                        None => acc,
                    };
                    lex_from(s, j, acc2)
                }
            },
        }
    }
}

/// The tokens of a source text, or the first lexical error in it.
pub open spec fn spec_tokenize(s: Seq<char>) -> Result<Seq<TokenView>, LexError> {
    lex_from(s, 0, Seq::empty())
}

/// Whether tokens lie in the text in order: each span runs forward, and each
/// ends no later than the next begins.
pub open spec fn spans_in_order(ts: Seq<TokenView>) -> bool {
    &&& forall|i: int| 0 <= i < ts.len() ==> (#[trigger] ts[i]).span().lo <= ts[i].span().hi
    &&& forall|i: int, j: int| 0 <= i < j < ts.len() ==> (#[trigger] ts[i]).span().hi <= (#[trigger] ts[j]).span().lo
}

proof fn lemma_scan_token_span(s: Seq<char>, i: int)
    requires
        0 <= i < s.len(),
    ensures
        scan_token(s, i) matches Ok((Some(t), j)) ==> t.span() == sp(s, i, j) && !(t is EoF),
{
}

proof fn lemma_lex_from_shape(s: Seq<char>, i: int, acc: Seq<TokenView>)
    requires
        fits(s),
        0 <= i <= s.len(),
        forall|k: int| 0 <= k < acc.len() ==> !(#[trigger] acc[k] is EoF),
        spans_in_order(acc),
        forall|k: int| 0 <= k < acc.len() ==> (#[trigger] acc[k]).span().hi <= off(s, i),
    ensures
        lex_from(s, i, acc) matches Ok(ts) ==> {
            &&& ts.len() > 0
            &&& ts.last() == TokenView::EoF(sp(s, s.len() as int, s.len() as int))
            &&& forall|k: int| 0 <= k < ts.len() - 1 ==> !(#[trigger] ts[k] is EoF)
            &&& spans_in_order(ts)
        },
    decreases s.len() - i,
{
    lemma_off_monotonic(s, i, s.len() as int);
    if i >= s.len() {
        let e = TokenView::EoF(sp(s, s.len() as int, s.len() as int));
        let ts = acc.push(e);
        assert(ts.last() == e);
        assert forall|a: int, b: int| 0 <= a < b < ts.len() implies (#[trigger] ts[a]).span().hi <= (#[trigger] ts[b]).span().lo by {
            if b == ts.len() - 1 {
                assert(ts[a] == acc[a]);
            } else {
                assert(ts[a] == acc[a] && ts[b] == acc[b]);
            }
        }
        assert forall|k: int| 0 <= k < ts.len() implies (#[trigger] ts[k]).span().lo <= ts[k].span().hi by {
            if k < acc.len() {
                assert(ts[k] == acc[k]);
            }
        }
        assert forall|k: int| 0 <= k < ts.len() - 1 implies !(#[trigger] ts[k] is EoF) by {
            assert(ts[k] == acc[k]);
        }
    } else {
        lemma_scan_token_progress(s, i);
        lemma_scan_token_span(s, i);
        if let Ok((t, j)) = scan_token(s, i) {
            lemma_off_monotonic(s, i, j);
            lemma_off_monotonic(s, j, s.len() as int);
            match t {
                Some(tok) => {
                    let acc2 = acc.push(tok);
                    assert(tok.span() == sp(s, i, j));
                    assert forall|a: int, b: int| 0 <= a < b < acc2.len() implies (#[trigger] acc2[a]).span().hi <= (#[trigger] acc2[b]).span().lo by {
                        assert(acc2[a] == acc[a]);
                        if b < acc.len() {
                            assert(acc2[b] == acc[b]);
                        }
                    }
                    assert forall|k: int| 0 <= k < acc2.len() implies (#[trigger] acc2[k]).span().lo <= acc2[k].span().hi by {
                        if k < acc.len() {
                            assert(acc2[k] == acc[k]);
                        }
                    }
                    assert forall|k: int| 0 <= k < acc2.len() implies !(#[trigger] acc2[k] is EoF) by {
                        if k < acc.len() {
                            assert(acc2[k] == acc[k]);
                        }
                    }
                    assert forall|k: int| 0 <= k < acc2.len() implies (#[trigger] acc2[k]).span().hi <= off(s, j) by {
                        if k < acc.len() {
                            assert(acc2[k] == acc[k]);
                        }
                    }
                    lemma_lex_from_shape(s, j, acc2);
                },
                None => {
                    lemma_lex_from_shape(s, j, acc);
                },
            }
        }
    }
}

/// A successful `tokenize` ends with exactly one end-of-input token, empty and
/// at the byte length of the text, and its tokens lie in the text in order,
/// none overlapping the next.
pub proof fn law_tokens_end_once_in_order(s: Seq<char>)
    requires
        fits(s),
    ensures
        spec_tokenize(s) matches Ok(ts) ==> {
            &&& ts.len() > 0
            &&& ts.last() == TokenView::EoF(Span { lo: off(s, s.len() as int) as usize, hi: off(s, s.len() as int) as usize })
            &&& forall|k: int| 0 <= k < ts.len() - 1 ==> !(#[trigger] ts[k] is EoF)
            &&& spans_in_order(ts)
        },
{
    lemma_lex_from_shape(s, 0, Seq::empty());
}

// ---------------------------------------------------------------------------
// The lexer
// ---------------------------------------------------------------------------

/// The characters of a string slice, in order.
fn error(span: Span, reason: &str) -> (r: CompilationError)
    ensures
        r@ == (span, reason@),
{
    CompilationError { span, reason: string_of(reason) }
}

fn token_result(t: Token, j: usize, hi: usize) -> (r: Result<(Option<Token>, usize, usize), CompilationError>)
    ensures
        r == Ok::<(Option<Token>, usize, usize), CompilationError>((Some(t), j, hi)),
{
    Ok((Some(t), j, hi))
}

/// Whether the scanned token agrees with the token grammar.
pub open spec fn scanned(
    s: Seq<char>,
    i: int,
    r: Result<(Option<Token>, usize, usize), CompilationError>,
) -> bool {
    match (r, scan_token(s, i)) {
        (Ok((t, j, hi)), Ok((tv, sj))) => {
            &&& j == sj
            &&& hi == off(s, j as int)
            &&& match (t, tv) {
                (Some(t), Some(tv)) => t@ == tv,
                (None, None) => true,
                _ => false,
            }
        },
        (Err(e), Err(ev)) => e@ == ev,
        _ => false,
    }
}

#[verifier::rlimit(40)]
fn scan_one(s: &Vec<char>, i: usize, lo: usize) -> (r: Result<(Option<Token>, usize, usize), CompilationError>)
    requires
        i < s@.len(),
        lo == off(s@, i as int),
        fits(s@),
    ensures
        scanned(s@, i as int, r),
{
    proof {
        lemma_scan_token_progress(s@, i as int);
        lemma_run_line_bound(s@, i + 1);
        lemma_run_id_bound(s@, i + 1);
        lemma_run_digits_bound(s@, i + 1);
        lemma_string_end_bound(s@, i + 1, false);
    }
    let n = s.len();
    let c = s[i];
    if c == ' ' || c == '\r' || c == '\t' || c == '\n' {
        let hi = offset_at(s, i, lo, i + 1);
        return Ok((None, i + 1, hi));
    }
    if c == ';' {
        let j = scan_line_run(s, i + 1);
        let hi = offset_at(s, i, lo, j);
        return Ok((None, j, hi));
    }
    if c == '(' || c == ')' || c == '`' || c == '|' || c == '\'' {
        let hi = offset_at(s, i, lo, i + 1);
        let span = Span { lo, hi };
        let t = if c == '(' {
            Token::LParen(span)
        } else if c == ')' {
            Token::RParen(span)
        } else if c == '`' {
            Token::QuasiQuote(span)
        } else if c == '|' {
            Token::Pipe(span)
        } else {
            Token::Quote(span)
        };
        return token_result(t, i + 1, hi);
    }
    if c == '.' {
        if i + 1 < n && s[i + 1] == '.' {
            if i + 2 < n && s[i + 2] == '.' {
                let hi = offset_at(s, i, lo, i + 3);
                let sym = Symbol::new("...");
                proof {
                    reveal_strlit("...");
                    assert(sym@ =~= seq!['.', '.', '.']);
                }
                return token_result(Token::Id(sym, Span { lo, hi }), i + 3, hi);
            } else {
                let hi = offset_at(s, i, lo, i + 2);
                return Err(error(Span { lo, hi }, "Expected '.' after '..'"));
            }
        } else {
            let hi = offset_at(s, i, lo, i + 1);
            return token_result(Token::Dot(Span { lo, hi }), i + 1, hi);
        }
    }
    if c == ',' {
        if i + 1 < n && s[i + 1] == '@' {
            let hi = offset_at(s, i, lo, i + 2);
            return token_result(Token::CommaAt(Span { lo, hi }), i + 2, hi);
        } else {
            let hi = offset_at(s, i, lo, i + 1);
            return token_result(Token::Comma(Span { lo, hi }), i + 1, hi);
        }
    }
    if c == '#' {
        return scan_hash(s, i, lo);
    }
    if c == '-' {
        if i + 1 >= n {
            let hi = offset_at(s, i, lo, i + 1);
            let sym = Symbol::new("-");
            proof {
                reveal_strlit("-");
                assert(sym@ =~= seq!['-']);
            }
            return token_result(Token::Id(sym, Span { lo, hi }), i + 1, hi);
        }
        let j = scan_id_run(s, i + 1);
        let hi = offset_at(s, i, lo, j);
        let text = chars_between(s, i, j);
        if number_text(&text) {
            return token_result(Token::Num(Num(string_of_chars(&text)), Span { lo, hi }), j, hi);
        } else {
            return token_result(Token::Id(Symbol(string_of_chars(&text)), Span { lo, hi }), j, hi);
        }
    }
    if '0' <= c && c <= '9' {
        let j1 = scan_digit_run(s, i + 1);
        let j = if j1 < n && s[j1] == '.' {
            proof {
                lemma_run_digits_bound(s@, j1 + 1);
            }
            scan_digit_run(s, j1 + 1)
        } else {
            j1
        };
        let hi = offset_at(s, i, lo, j);
        let text = chars_between(s, i, j);
        return token_result(Token::Num(Num(string_of_chars(&text)), Span { lo, hi }), j, hi);
    }
    if c == '"' {
        return scan_string(s, i, lo);
    }
    if id_initial(c) {
        let j = scan_id_run(s, i + 1);
        let hi = offset_at(s, i, lo, j);
        let text = chars_between(s, i, j);
        return token_result(Token::Id(Symbol(string_of_chars(&text)), Span { lo, hi }), j, hi);
    }
    let hi = offset_at(s, i, lo, i + 1);
    let mut reason = string_of("Unexpected character: '");
    push_char(&mut reason, c);
    reason.append("'");
    assert(reason@ =~= "Unexpected character: '"@ + seq![c] + "'"@);
    Err(CompilationError { span: Span { lo, hi }, reason })
}

fn scan_hash(s: &Vec<char>, i: usize, lo: usize) -> (r: Result<(Option<Token>, usize, usize), CompilationError>)
    requires
        i < s@.len(),
        s@[i as int] == '#',
        lo == off(s@, i as int),
        fits(s@),
    ensures
        scanned(s@, i as int, r),
{
    let n = s.len();
    if i + 1 < n && s[i + 1] == 't' {
        let hi = offset_at(s, i, lo, i + 2);
        return token_result(Token::Bool(Bool(true), Span { lo, hi }), i + 2, hi);
    }
    if i + 1 < n && s[i + 1] == 'f' {
        let hi = offset_at(s, i, lo, i + 2);
        return token_result(Token::Bool(Bool(false), Span { lo, hi }), i + 2, hi);
    }
    if i + 1 < n && s[i + 1] == '(' {
        let hi = offset_at(s, i, lo, i + 2);
        return token_result(Token::HashLParen(Span { lo, hi }), i + 2, hi);
    }
    if n - i >= 7 && s[i + 1] == '\\' && s[i + 2] == 's' && s[i + 3] == 'p' && s[i + 4] == 'a'
        && s[i + 5] == 'c' && s[i + 6] == 'e' {
        assert(s@.subrange(i + 1, i + 7) =~= seq!['\\', 's', 'p', 'a', 'c', 'e']);
        let hi = offset_at(s, i, lo, i + 7);
        return token_result(Token::Char(Char(' '), Span { lo, hi }), i + 7, hi);
    }
    assert(!starts_with(s@, i + 1, seq!['\\', 's', 'p', 'a', 'c', 'e'])) by {
        if starts_with(s@, i + 1, seq!['\\', 's', 'p', 'a', 'c', 'e']) {
            assert(s@.subrange(i + 1, i + 7)[0] == s@[i + 1]);
            assert(s@.subrange(i + 1, i + 7)[1] == s@[i + 2]);
            assert(s@.subrange(i + 1, i + 7)[2] == s@[i + 3]);
            assert(s@.subrange(i + 1, i + 7)[3] == s@[i + 4]);
            assert(s@.subrange(i + 1, i + 7)[4] == s@[i + 5]);
            assert(s@.subrange(i + 1, i + 7)[5] == s@[i + 6]);
        }
    }
    if n - i >= 9 && s[i + 1] == '\\' && s[i + 2] == 'n' && s[i + 3] == 'e' && s[i + 4] == 'w'
        && s[i + 5] == 'l' && s[i + 6] == 'i' && s[i + 7] == 'n' && s[i + 8] == 'e' {
        assert(s@.subrange(i + 1, i + 9) =~= seq!['\\', 'n', 'e', 'w', 'l', 'i', 'n', 'e']);
        let hi = offset_at(s, i, lo, i + 9);
        return token_result(Token::Char(Char('\n'), Span { lo, hi }), i + 9, hi);
    }
    assert(!starts_with(s@, i + 1, seq!['\\', 'n', 'e', 'w', 'l', 'i', 'n', 'e'])) by {
        if starts_with(s@, i + 1, seq!['\\', 'n', 'e', 'w', 'l', 'i', 'n', 'e']) {
            assert(s@.subrange(i + 1, i + 9)[0] == s@[i + 1]);
            assert(s@.subrange(i + 1, i + 9)[1] == s@[i + 2]);
            assert(s@.subrange(i + 1, i + 9)[2] == s@[i + 3]);
            assert(s@.subrange(i + 1, i + 9)[3] == s@[i + 4]);
            assert(s@.subrange(i + 1, i + 9)[4] == s@[i + 5]);
            assert(s@.subrange(i + 1, i + 9)[5] == s@[i + 6]);
            assert(s@.subrange(i + 1, i + 9)[6] == s@[i + 7]);
            assert(s@.subrange(i + 1, i + 9)[7] == s@[i + 8]);
        }
    }
    if i + 1 < n && s[i + 1] == '\\' {
        if i + 2 < n {
            let hi = offset_at(s, i, lo, i + 3);
            return token_result(Token::Char(Char(s[i + 2]), Span { lo, hi }), i + 3, hi);
        } else {
            let hi = offset_at(s, i, lo, i + 2);
            return Err(
                error(
                    Span { lo, hi },
                    "Expected '#t', '#f', '#(', or a character literal after '#'",
                ),
            );
        }
    }
    let hi = offset_at(s, i, lo, i + 1);
    Err(error(Span { lo, hi }, "Expected '#t', '#f', '#(', or a character literal after '#'"))
}

fn scan_string(s: &Vec<char>, i: usize, lo: usize) -> (r: Result<(Option<Token>, usize, usize), CompilationError>)
    requires
        i < s@.len(),
        s@[i as int] == '"',
        lo == off(s@, i as int),
        fits(s@),
    ensures
        scanned(s@, i as int, r),
{
    let n = s.len();
    let mut j = i + 1;
    let mut escaped = false;
    while j < n && !(s[j] == '"' && !escaped)
        invariant
            i + 1 <= j <= n,
            n == s@.len(),
            string_end(s@, i + 1, false) == string_end(s@, j as int, escaped),
        decreases n - j,
    {
        escaped = if s[j] == '\\' { !escaped } else { false };
        j = j + 1;
    }
    if j == n {
        let hi = offset_at(s, i, lo, n);
        return Err(error(Span { lo, hi }, "Unterminated string literal"));
    }
    proof {
        lemma_string_end_bound(s@, i + 1, false);
    }
    let hi = offset_at(s, i, lo, j + 1);
    let body = chars_between(s, i + 1, j);
    let once = replace_pair_exec(&body, '\\', '\\', '\\');
    let twice = replace_pair_exec(&once, '\\', '"', '"');
    token_result(Token::Str(Str(string_of_chars(&twice)), Span { lo, hi }), j + 1, hi)
}

/// Splits the source text into tokens, ending with the end-of-input token whose
/// span is empty and sits at the end of the text; spans are byte offsets.
/// Fails at the first text that starts no token.
pub fn tokenize(source: &str) -> (r: Result<Vec<Token>, CompilationError>)
    requires
        fits(source@),
    ensures
        match (r, spec_tokenize(source@)) {
            (Ok(ts), Ok(tvs)) => tokens_view(ts@) == tvs,
            (Err(e), Err(ev)) => e@ == ev,
            _ => false,
        },
{
    let s = chars_of(source);
    let mut tokens: Vec<Token> = Vec::new();
    assert(tokens_view(tokens@) =~= Seq::<TokenView>::empty());
    let mut i: usize = 0;
    let mut lo: usize = 0;
    while i < s.len()
        invariant
            s@ == source@,
            fits(s@),
            0 <= i <= s@.len(),
            lo == off(s@, i as int),
            lex_from(s@, i as int, tokens_view(tokens@)) == spec_tokenize(s@),
        decreases s@.len() - i,
    {
        proof {
            lemma_scan_token_progress(s@, i as int);
        }
        match scan_one(&s, i, lo) {
            Err(e) => {
                return Err(e);
            },
            Ok((t, j, hi)) => {
                match t {
                    Some(t) => {
                        let ghost before = tokens@;
                        tokens.push(t);
                        assert(tokens_view(tokens@) =~= tokens_view(before).push(t@));
                    },
                    None => {},
                }
                i = j;
                lo = hi;
            },
        }
    }
    let ghost before = tokens@;
    tokens.push(Token::EoF(Span { lo, hi: lo }));
    assert(tokens_view(tokens@) =~= tokens_view(before).push(TokenView::EoF(sp(s@, s@.len() as int, s@.len() as int))));
    Ok(tokens)
}

/// Whether `c` is blank space between tokens: a space, a tab, a carriage
/// return or a line feed.
pub open spec fn is_blank(c: char) -> bool {
    c == ' ' || c == '\t' || c == '\r' || c == '\n'
}

/// Blank space — a space, a tab, a carriage return or a line feed — starts no
/// token and is skipped: the lexer moves one character on with no token, and
/// the tokens read from it are those read from the character after it.
pub proof fn law_blank_is_skipped(s: Seq<char>, i: int, acc: Seq<TokenView>)
    requires
        0 <= i < s.len(),
        is_blank(s[i]),
    ensures
        scan_token(s, i) == Ok::<(Option<TokenView>, int), LexError>((None, i + 1)),
        lex_from(s, i, acc) == lex_from(s, i + 1, acc),
{
}

} // verus!
