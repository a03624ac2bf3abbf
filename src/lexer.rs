use vstd::prelude::*;

use crate::classify::{
    binary_digit_char, digit_char, digit_value, hex_digit_char, is_binary_digit, is_digit,
    is_hex_digit, is_operator_char, is_real_digit, is_symbol_char, is_whitespace, operator_char,
    real_digit_char, space_char, symbol_char, value_of_digit,
};
use crate::error::LexError;
use crate::keywords::{keyword_of, Keyword};
use crate::bignat::{digits_ok, lemma_val_push, p10, val, BigNat};
use crate::number::{rat, Number, Rational};
use crate::operators::{lookup_kind, op_of, spelling_of, Operator};
use crate::token::{Token, TokenKind, TokenV};

verus! {

/// The decimal digits of a literal read as one whole number, the point skipped.
pub open spec fn digits_value(ds: Seq<char>) -> int
    decreases ds.len(),
{
    if ds.len() == 0 {
        0
    } else if ds.last() == '.' {
        digits_value(ds.drop_last())
    } else {
        digits_value(ds.drop_last()) * 10 + digit_value(ds.last())
    }
}

pub open spec fn has_point(ds: Seq<char>) -> bool
    decreases ds.len(),
{
    ds.len() > 0 && (ds.last() == '.' || has_point(ds.drop_last()))
}

/// How many digits follow the decimal point.
pub open spec fn fraction_len(ds: Seq<char>) -> nat
    decreases ds.len(),
{
    if ds.len() == 0 {
        0
    } else if ds.last() != '.' && has_point(ds.drop_last()) {
        fraction_len(ds.drop_last()) + 1
    } else {
        fraction_len(ds.drop_last())
    }
}

/// The exact value of a decimal literal such as `12.34`.
pub open spec fn parse_decimal(ds: Seq<char>) -> Rational {
    rat(digits_value(ds), p10(fraction_len(ds)) as int)
}

/// The digits read in base sixteen or two.
pub open spec fn radix_value(ds: Seq<char>, hex: bool) -> int
    decreases ds.len(),
{
    if ds.len() == 0 {
        0
    } else {
        radix_value(ds.drop_last(), hex) * (if hex { 16int } else { 2int }) + digit_value(ds.last())
    }
}

/// A hexadecimal or binary literal's value: its digits read as an unsigned
/// 64-bit integer, or zero where they do not fit or there are none.
pub open spec fn radix_literal_value(ds: Seq<char>, hex: bool) -> int {
    let v = radix_value(ds, hex);
    if v <= u64::MAX {
        v
    } else {
        0
    }
}

pub open spec fn radix_digit_char(c: char, hex: bool) -> bool {
    if hex {
        hex_digit_char(c)
    } else {
        binary_digit_char(c)
    }
}

/// Where a decimal literal ends, scanning from `i`; at most one point.
pub open spec fn decimal_end(s: Seq<char>, i: int, point_seen: bool) -> Result<int, LexError>
    decreases s.len() - i,
{
    if i < 0 || i >= s.len() {
        Ok(i)
    } else if real_digit_char(s[i]) {
        if s[i] == '.' && point_seen {
            Err(LexError::MalformedNumber)
        } else {
            decimal_end(s, i + 1, point_seen || s[i] == '.')
        }
    } else if symbol_char(s[i]) {
        Err(LexError::MalformedNumber)
    } else {
        Ok(i)
    }
}

/// Where the digits of a hexadecimal or binary literal end, scanning from `i`.
pub open spec fn radix_end(s: Seq<char>, i: int, hex: bool) -> Result<int, LexError>
    decreases s.len() - i,
{
    if i < 0 || i >= s.len() {
        Ok(i)
    } else if radix_digit_char(s[i], hex) {
        radix_end(s, i + 1, hex)
    } else if symbol_char(s[i]) || s[i] == '.' {
        Err(LexError::MalformedNumber)
    } else {
        Ok(i)
    }
}

/// The position of the quote that closes a string literal.
pub open spec fn string_end(s: Seq<char>, i: int) -> Result<int, LexError>
    decreases s.len() - i,
{
    if i < 0 || i >= s.len() {
        Err(LexError::UnterminatedString)
    } else if s[i] == '"' {
        Ok(i)
    } else {
        string_end(s, i + 1)
    }
}

/// Where a run of identifier characters starting at `i` ends.
pub open spec fn symbol_end(s: Seq<char>, i: int) -> int
    decreases s.len() - i,
{
    if 0 <= i < s.len() && symbol_char(s[i]) {
        symbol_end(s, i + 1)
    } else {
        i
    }
}

/// Where an operator spelled from `start` ends: the spelling grows while
/// the longer one is an operator, or while the shorter one is none.
pub open spec fn operator_end(s: Seq<char>, start: int, i: int) -> Result<int, LexError>
    decreases s.len() - i,
{
    if i < 0 || i >= s.len() {
        Err(LexError::DanglingOperator)
    } else if operator_char(s[i]) {
        if lookup_kind(s.subrange(start, i + 1)) is Some {
            operator_end(s, start, i + 1)
        } else if lookup_kind(s.subrange(start, i)) is Some {
            Ok(i)
        } else {
            operator_end(s, start, i + 1)
        }
    } else if lookup_kind(s.subrange(start, i)) is Some {
        Ok(i)
    } else {
        Err(LexError::UnknownOperator)
    }
}

pub open spec fn decimal_token(s: Seq<char>, i: int, j: int) -> (TokenV, int) {
    let ds = s.subrange(i, j);
    (TokenV { kind: TokenKind::NumericLiteral, value: Some(parse_decimal(ds)), lexeme: ds }, j)
}

pub open spec fn radix_token(s: Seq<char>, i: int, j: int, hex: bool) -> (TokenV, int) {
    let v = radix_literal_value(s.subrange(i + 2, j), hex);
    (TokenV { kind: TokenKind::NumericLiteral, value: Some(rat(v, 1)), lexeme: s.subrange(i, j) }, j)
}

/// A literal that starts with `0`: hexadecimal after `0x`, binary after
/// `0b`, decimal before a digit or a point, or the lone digit at the end.
pub open spec fn scan_zero(s: Seq<char>, i: int) -> Result<(TokenV, int), LexError> {
    if i + 1 >= s.len() {
        Ok(decimal_token(s, i, i + 1))
    } else if s[i + 1] == 'x' || s[i + 1] == 'b' {
        let hex = s[i + 1] == 'x';
        match radix_end(s, i + 2, hex) {
            Ok(j) => Ok(radix_token(s, i, j, hex)),
            Err(e) => Err(e),
        }
    } else if real_digit_char(s[i + 1]) {
        match decimal_end(s, i + 1, false) {
            Ok(j) => Ok(decimal_token(s, i, j)),
            Err(e) => Err(e),
        }
    } else {
        Err(LexError::MalformedNumber)
    }
}

pub open spec fn single_kind(c: char) -> Option<TokenKind> {
    if c == '(' {
        Some(TokenKind::OpeningParenthesis)
    } else if c == ')' {
        Some(TokenKind::ClosingParenthesis)
    } else if c == '{' {
        Some(TokenKind::OpeningScope)
    } else if c == '}' {
        Some(TokenKind::ClosingScope)
    } else if c == ',' {
        Some(TokenKind::Separator)
    } else if c == ';' {
        Some(TokenKind::EndOfStatement)
    } else {
        None
    }
}

pub open spec fn word_kind(ds: Seq<char>) -> TokenKind {
    match keyword_of(ds) {
        Some(k) => TokenKind::Keyword(k),
        None => TokenKind::Symbol,
    }
}

/// The token that starts at `i`, a character that is no whitespace, and
/// the position after it.
pub open spec fn scan_token(s: Seq<char>, i: int) -> Result<(TokenV, int), LexError> {
    let c = s[i];
    if digit_char(c) {
        if c == '0' {
            scan_zero(s, i)
        } else {
            match decimal_end(s, i, false) {
                Ok(j) => Ok(decimal_token(s, i, j)),
                Err(e) => Err(e),
            }
        }
    } else if operator_char(c) {
        match operator_end(s, i, i) {
            Ok(j) => match lookup_kind(s.subrange(i, j)) {
                Some(k) => Ok(
                    (
                        TokenV {
                            kind: TokenKind::Operator(op_of(k)),
                            value: None,
                            lexeme: spelling_of(k),
                        },
                        j,
                    ),
                ),
                None => Err(LexError::UnknownOperator),
            },
            Err(e) => Err(e),
        }
    } else if single_kind(c) is Some {
        Ok((TokenV { kind: single_kind(c)->0, value: None, lexeme: s.subrange(i, i + 1) }, i + 1))
    } else if c == '"' {
        match string_end(s, i + 1) {
            Ok(j) => Ok(
                (TokenV { kind: TokenKind::StringLiteral, value: None, lexeme: s.subrange(i + 1, j) }, j
                    + 1),
            ),
            Err(e) => Err(e),
        }
    } else {
        let j = symbol_end(s, i + 1);
        Ok((TokenV { kind: word_kind(s.subrange(i, j)), value: None, lexeme: s.subrange(i, j) }, j))
    }
}

/// The tokens of the text from position `i` on, whitespace skipped.
pub open spec fn lex_from(s: Seq<char>, i: int) -> Result<Seq<TokenV>, LexError>
    decreases s.len() - i,
{
    if i < 0 || i >= s.len() {
        Ok(Seq::empty())
    } else if space_char(s[i]) {
        lex_from(s, i + 1)
    } else {
        match scan_token(s, i) {
            Ok(p) => if i < p.1 <= s.len() {
                match lex_from(s, p.1) {
                    Ok(ts) => Ok(seq![p.0] + ts),
                    Err(e) => Err(e),
                }
            } else {
                // never taken: every token spans at least one character
                Err(LexError::MalformedNumber)
            },
            Err(e) => Err(e),
        }
    }
}

/// How many tokens have kind `k`.
pub open spec fn count_kind(ts: Seq<TokenV>, k: TokenKind) -> nat
    decreases ts.len(),
{
    if ts.len() == 0 {
        0
    } else {
        count_kind(ts.drop_last(), k) + if ts.last().kind == k {
            1nat
        } else {
            0nat
        }
    }
}

/// The checks made once the text is used up: no operator may come last,
/// and parentheses and scope braces must balance.
pub open spec fn end_checks(ts: Seq<TokenV>) -> Result<Seq<TokenV>, LexError> {
    if ts.len() > 0 && ts.last().kind is Operator {
        Err(LexError::DanglingOperator)
    } else if count_kind(ts, TokenKind::OpeningParenthesis) != count_kind(
        ts,
        TokenKind::ClosingParenthesis,
    ) {
        Err(LexError::UnbalancedParentheses)
    } else if count_kind(ts, TokenKind::OpeningScope) != count_kind(ts, TokenKind::ClosingScope) {
        Err(LexError::UnbalancedScope)
    } else {
        Ok(ts)
    }
}

/// The token sequence of a whole text.
pub open spec fn tokenize_spec(s: Seq<char>) -> Result<Seq<TokenV>, LexError> {
    if s.len() == 0 {
        Err(LexError::EmptyInput)
    } else {
        match lex_from(s, 0) {
            Ok(ts) => end_checks(ts),
            Err(e) => Err(e),
        }
    }
}

pub open spec fn views(ts: Seq<Token>) -> Seq<TokenV> {
    ts.map_values(|t: Token| t@)
}

pub open spec fn lift_tokens(r: Result<Vec<Token>, LexError>) -> Result<Seq<TokenV>, LexError> {
    match r {
        Ok(v) => Ok(views(v@)),
        Err(e) => Err(e),
    }
}

pub open spec fn lift_end(r: Result<usize, LexError>) -> Result<int, LexError> {
    match r {
        Ok(j) => Ok(j as int),
        Err(e) => Err(e),
    }
}

pub open spec fn prepend(pre: Seq<TokenV>, r: Result<Seq<TokenV>, LexError>) -> Result<Seq<TokenV>, LexError> {
    match r {
        Ok(ts) => Ok(pre + ts),
        Err(e) => Err(e),
    }
}

pub open spec fn lift_scan(r: Result<(Token, usize), LexError>) -> Result<(TokenV, int), LexError> {
    match r {
        Ok(p) => Ok((p.0@, p.1 as int)),
        Err(e) => Err(e),
    }
}

/// A decimal literal: a leading digit, then digits with at most one point.
pub open spec fn is_decimal_literal(s: Seq<char>) -> bool {
    &&& s.len() > 0
    &&& digit_char(s[0])
    &&& forall|i: int| 0 <= i < s.len() ==> real_digit_char(#[trigger] s[i])
    &&& forall|i: int, j: int|
        0 <= i < j < s.len() && #[trigger] s[i] == '.' ==> #[trigger] s[j] != '.'
}

/// The scan of a decimal literal runs to the end of the text.
proof fn lemma_decimal_end_reaches_end(s: Seq<char>, k: int, seen: bool)
    requires
        is_decimal_literal(s),
        0 <= k <= s.len(),
        seen ==> forall|j: int| k <= j < s.len() ==> #[trigger] s[j] != '.',
    ensures
        decimal_end(s, k, seen) == Ok::<int, LexError>(s.len() as int),
    decreases s.len() - k,
{
    if k < s.len() {
        assert(real_digit_char(s[k]));
        let seen2 = seen || s[k] == '.';
        if seen2 {
            assert forall|j: int| k + 1 <= j < s.len() implies #[trigger] s[j] != '.' by {
                if s[k] == '.' {
                    assert(0 <= k < j < s.len() && s[k] == '.');
                }
            }
        }
        lemma_decimal_end_reaches_end(s, k + 1, seen2);
    }
}

/// Every decimal literal tokenizes to one numeric literal that keeps its
/// text and whose value is the literal's exact decimal value.
pub proof fn lemma_decimal_literal_value(s: Seq<char>)
    requires
        is_decimal_literal(s),
    ensures
        tokenize_spec(s) == Ok::<Seq<TokenV>, LexError>(
            seq![TokenV { kind: TokenKind::NumericLiteral, value: Some(parse_decimal(s)), lexeme: s }],
        ),
{
    let v = parse_decimal(s);
    let n = s.len() as int;
    assert(s.subrange(0, n) =~= s);
    assert(real_digit_char(s[0]));
    if s[0] == '0' && n > 1 {
        assert(real_digit_char(s[1]));
        lemma_decimal_end_reaches_end(s, 1, false);
    } else {
        lemma_decimal_end_reaches_end(s, 0, false);
    }
    assert(!space_char(s[0]));
    {
        let t = TokenV { kind: TokenKind::NumericLiteral, value: Some(v), lexeme: s };
        assert(scan_token(s, 0) == Ok::<(TokenV, int), LexError>((t, n)));
        assert(lex_from(s, n) == Ok::<Seq<TokenV>, LexError>(Seq::empty()));
        assert(seq![t] + Seq::<TokenV>::empty() =~= seq![t]);
        assert(lex_from(s, 0) == Ok::<Seq<TokenV>, LexError>(seq![t]));
        assert(seq![t].drop_last() =~= Seq::<TokenV>::empty());
        assert(seq![t].last() == t);
        assert(count_kind(Seq::<TokenV>::empty(), TokenKind::OpeningParenthesis) == 0);
        assert(count_kind(Seq::<TokenV>::empty(), TokenKind::ClosingParenthesis) == 0);
        assert(count_kind(Seq::<TokenV>::empty(), TokenKind::OpeningScope) == 0);
        assert(count_kind(Seq::<TokenV>::empty(), TokenKind::ClosingScope) == 0);
        assert(count_kind(seq![t], TokenKind::OpeningParenthesis) == 0);
        assert(count_kind(seq![t], TokenKind::ClosingParenthesis) == 0);
        assert(count_kind(seq![t], TokenKind::OpeningScope) == 0);
        assert(count_kind(seq![t], TokenKind::ClosingScope) == 0);
    }
}

/// Relies on std's `String::push`: appends one character.
#[verifier::external_body]
fn push_char(s: &mut String, c: char)
    ensures
        final(s)@ == old(s)@.push(c),
{
    s.push(c);
}

/// The characters of a string slice, in order.
pub fn chars_of(text: &str) -> (r: Vec<char>)
    ensures
        r@ == text@,
{
    let mut v: Vec<char> = Vec::new();
    for c in it: text.chars()
        invariant
            v@ == it.seq().take(it.index() as int),
    {
        v.push(c);
        proof {
            assert(v@ =~= it.seq().take(it.index() as int + 1));
        }
    }
    v
}

/// The characters of `s` from `from` up to `to`, as a string.
fn text_of(s: &Vec<char>, from: usize, to: usize) -> (r: String)
    requires
        from <= to <= s.len(),
    ensures
        r@ == s@.subrange(from as int, to as int),
{
    let mut r = String::new();
    let mut i = from;
    while i < to
        invariant
            from <= i <= to <= s.len(),
            r@ == s@.subrange(from as int, i as int),
        decreases to - i,
    {
        push_char(&mut r, s[i]);
        i = i + 1;
        proof {
            assert(r@ =~= s@.subrange(from as int, i as int));
        }
    }
    r
}

/// The characters of `s` from `from` up to `to`.
fn chars_between(s: &Vec<char>, from: usize, to: usize) -> (r: Vec<char>)
    requires
        from <= to <= s.len(),
    ensures
        r@ == s@.subrange(from as int, to as int),
{
    let mut r: Vec<char> = Vec::new();
    let mut i = from;
    while i < to
        invariant
            from <= i <= to <= s.len(),
            r@ == s@.subrange(from as int, i as int),
        decreases to - i,
    {
        r.push(s[i]);
        i = i + 1;
        proof {
            assert(r@ =~= s@.subrange(from as int, i as int));
        }
    }
    r
}

fn scan_decimal_end(s: &Vec<char>, i: usize, point_seen: bool) -> (r: Result<usize, LexError>)
    requires
        i <= s.len(),
    ensures
        lift_end(r) == decimal_end(s@, i as int, point_seen),
        r matches Ok(j) ==> i <= j <= s.len() && forall|k: int|
            i <= k < j ==> #[trigger] real_digit_char(s@[k]),
{
    let mut k = i;
    let mut seen = point_seen;
    while k < s.len()
        invariant
            i <= k <= s.len(),
            decimal_end(s@, i as int, point_seen) == decimal_end(s@, k as int, seen),
            forall|m: int| i <= m < k ==> #[trigger] real_digit_char(s@[m]),
        decreases s.len() - k,
    {
        let c = s[k];
        if is_real_digit(c) {
            if c == '.' {
                if seen {
                    return Err(LexError::MalformedNumber);
                }
                seen = true;
            }
            k = k + 1;
        } else if is_symbol_char(c) {
            return Err(LexError::MalformedNumber);
        } else {
            return Ok(k);
        }
    }
    Ok(k)
}

fn scan_radix_end(s: &Vec<char>, i: usize, hex: bool) -> (r: Result<usize, LexError>)
    requires
        i <= s.len(),
    ensures
        lift_end(r) == radix_end(s@, i as int, hex),
        r matches Ok(j) ==> i <= j <= s.len() && forall|k: int|
            i <= k < j ==> #[trigger] radix_digit_char(s@[k], hex),
{
    let mut k = i;
    while k < s.len()
        invariant
            i <= k <= s.len(),
            radix_end(s@, i as int, hex) == radix_end(s@, k as int, hex),
            forall|m: int| i <= m < k ==> #[trigger] radix_digit_char(s@[m], hex),
        decreases s.len() - k,
    {
        let c = s[k];
        let is_radix_digit = if hex {
            is_hex_digit(c)
        } else {
            is_binary_digit(c)
        };
        if is_radix_digit {
            k = k + 1;
        } else if is_symbol_char(c) || c == '.' {
            return Err(LexError::MalformedNumber);
        } else {
            return Ok(k);
        }
    }
    Ok(k)
}

fn scan_string_end(s: &Vec<char>, i: usize) -> (r: Result<usize, LexError>)
    requires
        i <= s.len(),
    ensures
        lift_end(r) == string_end(s@, i as int),
        r matches Ok(j) ==> i <= j < s.len(),
{
    let mut k = i;
    while k < s.len()
        invariant
            i <= k <= s.len(),
            string_end(s@, i as int) == string_end(s@, k as int),
        decreases s.len() - k,
    {
        if s[k] == '"' {
            return Ok(k);
        }
        k = k + 1;
    }
    Err(LexError::UnterminatedString)
}

fn scan_symbol_end(s: &Vec<char>, i: usize) -> (r: usize)
    requires
        i <= s.len(),
    ensures
        r as int == symbol_end(s@, i as int),
        i <= r <= s.len(),
{
    let mut k = i;
    while k < s.len() && is_symbol_char(s[k])
        invariant
            i <= k <= s.len(),
            symbol_end(s@, i as int) == symbol_end(s@, k as int),
        decreases s.len() - k,
    {
        k = k + 1;
    }
    k
}

fn scan_operator_end(s: &Vec<char>, start: usize) -> (r: Result<usize, LexError>)
    requires
        start <= s.len(),
    ensures
        lift_end(r) == operator_end(s@, start as int, start as int),
        r matches Ok(j) ==> start < j <= s.len(),
{
    let mut k = start;
    while k < s.len()
        invariant
            start <= k <= s.len(),
            operator_end(s@, start as int, start as int) == operator_end(s@, start as int, k as int),
        decreases s.len() - k,
    {
        let c = s[k];
        let current = chars_between(s, start, k);
        let known = Operator::lookup(&current).is_some();
        if is_operator_char(c) {
            let longer = chars_between(s, start, k + 1);
            if Operator::lookup(&longer).is_some() {
                k = k + 1;
            } else if known {
                return Ok(k);
            } else {
                k = k + 1;
            }
        } else if known {
            return Ok(k);
        } else {
            return Err(LexError::UnknownOperator);
        }
    }
    Err(LexError::DanglingOperator)
}

/// The digits of the decimal literal `s[from..to]` as one whole number.
fn decimal_digits(s: &Vec<char>, from: usize, to: usize) -> (r: BigNat)
    requires
        from <= to <= s.len(),
        forall|k: int| from <= k < to ==> #[trigger] real_digit_char(s@[k]),
    ensures
        r@ == digits_value(s@.subrange(from as int, to as int)),
{
    let mut out: Vec<u8> = Vec::new();
    let mut k = to;
    proof {
        assert(s@.subrange(from as int, to as int) =~= s@.subrange(from as int, k as int));
        assert(p10(0) == 1);
        assert(val(out@) == 0);
    }
    while k > from
        invariant
            from <= k <= to <= s.len(),
            forall|m: int| from <= m < to ==> #[trigger] real_digit_char(s@[m]),
            digits_ok(out@),
            digits_value(s@.subrange(from as int, to as int)) == digits_value(
                s@.subrange(from as int, k as int),
            ) * p10(out@.len() as nat) + val(out@),
        decreases k,
    {
        let c = s[k - 1];
        let ghost pre = s@.subrange(from as int, k as int);
        proof {
            assert(pre.drop_last() =~= s@.subrange(from as int, k - 1));
            assert(pre.last() == c);
            assert(real_digit_char(s@[k - 1]));
        }
        if c != '.' {
            let d = value_of_digit(c) as u8;
            proof {
                let n = out@.len() as nat;
                let x = digits_value(pre.drop_last());
                lemma_val_push(out@, d);
                assert(p10(n + 1) == 10 * p10(n));
                assert((x * 10 + d) * p10(n) == x * p10(n + 1) + d * p10(n)) by (nonlinear_arith)
                    requires p10(n + 1) == 10 * p10(n);
            }
            out.push(d);
        }
        k = k - 1;
    }
    proof {
        assert(s@.subrange(from as int, from as int) =~= Seq::<char>::empty());
    }
    BigNat::from_digits(out)
}

/// Ten to the power `n`.
fn power_of_ten(n: usize) -> (r: BigNat)
    ensures
        r@ == p10(n as nat),
{
    let mut out: Vec<u8> = Vec::new();
    let mut i: usize = 0;
    while i < n
        invariant
            i <= n,
            out@.len() == i,
            digits_ok(out@),
            val(out@) == 0,
        decreases n - i,
    {
        proof {
            lemma_val_push(out@, 0);
        }
        out.push(0);
        i = i + 1;
    }
    proof {
        lemma_val_push(out@, 1);
    }
    out.push(1);
    BigNat::from_digits(out)
}

/// The exact value of the decimal literal `s[from..to]`.
fn decimal_value(s: &Vec<char>, from: usize, to: usize) -> (r: Number)
    requires
        from <= to <= s.len(),
        forall|k: int| from <= k < to ==> #[trigger] real_digit_char(s@[k]),
    ensures
        r@ == parse_decimal(s@.subrange(from as int, to as int)),
{
    let mut seen = false;
    let mut frac: usize = 0;
    let mut k = from;
    while k < to
        invariant
            from <= k <= to <= s.len(),
            frac <= k - from,
            ({
                let ds = s@.subrange(from as int, k as int);
                &&& seen == has_point(ds)
                &&& frac as nat == fraction_len(ds)
            }),
        decreases to - k,
    {
        let c = s[k];
        let ghost ds2 = s@.subrange(from as int, k as int + 1);
        proof {
            assert(ds2.drop_last() =~= s@.subrange(from as int, k as int));
            assert(ds2.last() == c);
        }
        if c == '.' {
            seen = true;
        } else if seen {
            frac = frac + 1;
        }
        k = k + 1;
    }
    let num = decimal_digits(s, from, to);
    let den = power_of_ten(frac);
    proof {
        crate::bignat::lemma_p10_pos(frac as nat);
    }
    Number::from_parts(num, den)
}

/// The value of the hexadecimal or binary digits `s[from..to]`.
fn radix_literal(s: &Vec<char>, from: usize, to: usize, hex: bool) -> (r: Number)
    requires
        from <= to <= s.len(),
        forall|k: int| from <= k < to ==> #[trigger] radix_digit_char(s@[k], hex),
    ensures
        r@ == rat(radix_literal_value(s@.subrange(from as int, to as int), hex), 1),
{
    let base: u64 = if hex {
        16
    } else {
        2
    };
    let mut v: u64 = 0;
    let mut over = false;
    let mut k = from;
    while k < to
        invariant
            from <= k <= to <= s.len(),
            base == (if hex { 16int } else { 2int }),
            forall|m: int| from <= m < to ==> #[trigger] radix_digit_char(s@[m], hex),
            ({
                let ds = s@.subrange(from as int, k as int);
                &&& radix_value(ds, hex) >= 0
                &&& !over ==> v as int == radix_value(ds, hex)
                &&& over ==> radix_value(ds, hex) > u64::MAX
            }),
        decreases to - k,
    {
        let c = s[k];
        let ghost ds = s@.subrange(from as int, k as int);
        let ghost ds2 = s@.subrange(from as int, k as int + 1);
        proof {
            assert(ds2.drop_last() =~= ds);
            assert(ds2.last() == c);
            assert(radix_digit_char(s@[k as int], hex));
        }
        let d = value_of_digit(c) as u64;
        if !over {
            match v.checked_mul(base) {
                Some(m) => match m.checked_add(d) {
                    Some(n) => {
                        v = n;
                    },
                    None => {
                        over = true;
                    },
                },
                None => {
                    over = true;
                },
            }
        }
        proof {
            let x = radix_value(ds, hex);
            assert(x * base >= x) by (nonlinear_arith)
                requires
                    x >= 0,
                    base >= 2,
            ;
        }
        k = k + 1;
    }
    let value: u64 = if over {
        0
    } else {
        v
    };
    proof {
        assert(p10(0) == 1);
    }
    Number::from_parts(BigNat::from_u64(value), BigNat::from_u64(1))
}

fn lex_decimal(s: &Vec<char>, i: usize, j: usize) -> (r: Result<(Token, usize), LexError>)
    requires
        i < j <= s.len(),
        forall|k: int| i <= k < j ==> #[trigger] real_digit_char(s@[k]),
    ensures
        lift_scan(r) == Ok::<(TokenV, int), LexError>(decimal_token(s@, i as int, j as int)),
        r matches Ok(p) ==> p.1 == j,
{
    let n = decimal_value(s, i, j);
    Ok((Token::numeric(text_of(s, i, j), n), j))
}

fn lex_zero(s: &Vec<char>, i: usize) -> (r: Result<(Token, usize), LexError>)
    requires
        i < s.len(),
        s@[i as int] == '0',
    ensures
        lift_scan(r) == scan_zero(s@, i as int),
        r matches Ok(p) ==> i < p.1 <= s.len(),
{
    if i + 1 >= s.len() {
        return lex_decimal(s, i, i + 1);
    }
    let c = s[i + 1];
    if c == 'x' || c == 'b' {
        let hex = c == 'x';
        match scan_radix_end(s, i + 2, hex) {
            Ok(j) => {
                let n = radix_literal(s, i + 2, j, hex);
                Ok((Token::numeric(text_of(s, i, j), n), j))
            },
            Err(e) => Err(e),
        }
    } else if is_real_digit(c) {
        match scan_decimal_end(s, i + 1, false) {
            Ok(j) => {
                proof {
                    assert(real_digit_char(s@[i as int]));
                }
                lex_decimal(s, i, j)
            },
            Err(e) => Err(e),
        }
    } else {
        Err(LexError::MalformedNumber)
    }
}

fn lex_token(s: &Vec<char>, i: usize) -> (r: Result<(Token, usize), LexError>)
    requires
        i < s.len(),
        !space_char(s@[i as int]),
    ensures
        lift_scan(r) == scan_token(s@, i as int),
        r matches Ok(p) ==> i < p.1 <= s.len(),
{
    let c = s[i];
    if is_digit(c) {
        if c == '0' {
            lex_zero(s, i)
        } else {
            match scan_decimal_end(s, i + 1, false) {
                Ok(j) => {
                    proof {
                        assert(real_digit_char(s@[i as int]));
                    }
                    lex_decimal(s, i, j)
                },
                Err(e) => Err(e),
            }
        }
    } else if is_operator_char(c) {
        match scan_operator_end(s, i) {
            Ok(j) => {
                let spelled = chars_between(s, i, j);
                match Operator::lookup(&spelled) {
                    Some(op) => {
                        proof {
                            assert(lookup_kind(s@.subrange(i as int, j as int)) is Some);
                        }
                        Ok((Token::from_operator(op), j))
                    },
                    None => Err(LexError::UnknownOperator),
                }
            },
            Err(e) => Err(e),
        }
    } else if c == '(' || c == ')' || c == '{' || c == '}' || c == ',' || c == ';' {
        let kind = if c == '(' {
            TokenKind::OpeningParenthesis
        } else if c == ')' {
            TokenKind::ClosingParenthesis
        } else if c == '{' {
            TokenKind::OpeningScope
        } else if c == '}' {
            TokenKind::ClosingScope
        } else if c == ',' {
            TokenKind::Separator
        } else {
            TokenKind::EndOfStatement
        };
        Ok((Token::plain(kind, text_of(s, i, i + 1)), i + 1))
    } else if c == '"' {
        match scan_string_end(s, i + 1) {
            Ok(j) => Ok((Token::plain(TokenKind::StringLiteral, text_of(s, i + 1, j)), j + 1)),
            Err(e) => Err(e),
        }
    } else {
        let j = scan_symbol_end(s, i + 1);
        let word = text_of(s, i, j);
        let kind = match Keyword::new(&word) {
            Some(k) => TokenKind::Keyword(k),
            None => TokenKind::Symbol,
        };
        Ok((Token::plain(kind, word), j))
    }
}

/// How many of the tokens have kind `k`.
fn count_tokens(ts: &Vec<Token>, k: TokenKind) -> (r: usize)
    ensures
        r == count_kind(views(ts@), k),
{
    let mut n: usize = 0;
    let mut i: usize = 0;
    while i < ts.len()
        invariant
            i <= ts.len(),
            n == count_kind(views(ts@).take(i as int), k),
            n <= i,
        decreases ts.len() - i,
    {
        proof {
            assert(views(ts@).take(i as int + 1).drop_last() =~= views(ts@).take(i as int));
        }
        if ts[i].kind() == k {
            n = n + 1;
        }
        i = i + 1;
    }
    proof {
        assert(views(ts@).take(i as int) =~= views(ts@));
    }
    n
}

fn check_end(ts: Vec<Token>) -> (r: Result<Vec<Token>, LexError>)
    ensures
        lift_tokens(r) == end_checks(views(ts@)),
{
    let n = ts.len();
    if n > 0 {
        let last_is_operator = match ts[n - 1].kind() {
            TokenKind::Operator(_) => true,
            _ => false,
        };
        if last_is_operator {
            return Err(LexError::DanglingOperator);
        }
    }
    if count_tokens(&ts, TokenKind::OpeningParenthesis) != count_tokens(
        &ts,
        TokenKind::ClosingParenthesis,
    ) {
        Err(LexError::UnbalancedParentheses)
    } else if count_tokens(&ts, TokenKind::OpeningScope) != count_tokens(
        &ts,
        TokenKind::ClosingScope,
    ) {
        Err(LexError::UnbalancedScope)
    } else {
        Ok(ts)
    }
}

/// The tokens of a text given as its characters.
pub fn tokenize_chars(s: &Vec<char>) -> (r: Result<Vec<Token>, LexError>)
    ensures
        lift_tokens(r) == tokenize_spec(s@),
{
    if s.len() == 0 {
        return Err(LexError::EmptyInput);
    }
    let mut out: Vec<Token> = Vec::new();
    let mut i: usize = 0;
    while i < s.len()
        invariant
            i <= s.len(),
            lex_from(s@, 0) == prepend(views(out@), lex_from(s@, i as int)),
        decreases s.len() - i,
    {
        if is_whitespace(s[i]) {
            i = i + 1;
        } else {
            match lex_token(s, i) {
                Ok((t, j)) => {
                    let ghost before = views(out@);
                    let ghost tv = t@;
                    out.push(t);
                    proof {
                        assert(views(out@) =~= before.push(tv));
                        match lex_from(s@, j as int) {
                            Ok(rest) => {
                                assert(before + (seq![tv] + rest) =~= before.push(tv) + rest);
                            },
                            Err(_) => {},
                        }
                    }
                    i = j;
                },
                Err(e) => {
                    return Err(e);
                },
            }
        }
    }
    proof {
        assert(views(out@) + Seq::<TokenV>::empty() =~= views(out@));
    }
    check_end(out)
}

/// The tokens of a text.
pub fn tokenize(text: &str) -> (r: Result<Vec<Token>, LexError>)
    ensures
        lift_tokens(r) == tokenize_spec(text@),
{
    let chars = chars_of(text);
    tokenize_chars(&chars)
}

/// Turns a text into tokens.
pub struct Lexer {
    input: String,
}

impl View for Lexer {
    type V = Seq<char>;

    closed spec fn view(&self) -> Seq<char> {
        self.input@
    }
}

impl Lexer {
    pub fn new(input: String) -> (r: Lexer)
        ensures
            r@ == input@,
    {
        Lexer { input }
    }

    /// The tokens of the whole input, in order.
    pub fn parse(self) -> (r: Result<Vec<Token>, LexError>)
        ensures
            lift_tokens(r) == tokenize_spec(self@),
    {
        tokenize(self.input.as_str())
    }
}

} // verus!
