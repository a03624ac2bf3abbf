use vstd::prelude::*;

use crate::classify::{digit_char, operator_char, real_digit_char, space_char};
use crate::error::LexError;
use crate::lexer::{
    decimal_end, end_checks, is_decimal_literal, lex_from, operator_end, radix_digit_char, radix_end,
    scan_token, tokenize_spec,
};
use crate::compiler::{
    compile_from, compile_spec, compile_step, drain, gives_way, pop_higher, pop_to_open, CompileState,
};
use crate::operators::{
    corrected_kind, lemma_op_of_kind, lookup_kind, op_of, precedence_of, spelling_of, unary_after,
    OperatorKind,
};
use crate::solver::join_lexemes;
use crate::token::{TokenKind, TokenV};

verus! {

/// `0x` or `0b` and then digits of that base.
pub open spec fn is_radix_literal(l: Seq<char>) -> bool {
    &&& l.len() >= 2
    &&& l[0] == '0'
    &&& (l[1] == 'x' || l[1] == 'b')
    &&& forall|i: int| 2 <= i < l.len() ==> radix_digit_char(#[trigger] l[i], l[1] == 'x')
}

pub open spec fn is_numeric_lexeme(l: Seq<char>) -> bool {
    is_decimal_literal(l) || is_radix_literal(l)
}

/// Numeric literals are spelled as literals, operators canonically.
pub open spec fn well_spelled(t: TokenV) -> bool {
    &&& t.kind is NumericLiteral ==> is_numeric_lexeme(t.lexeme)
    &&& t.kind matches TokenKind::Operator(o) ==> t.lexeme == spelling_of(o@)
}

proof fn lemma_decimal_end_sound(s: Seq<char>, k: int, seen: bool, j: int)
    requires
        0 <= k <= s.len(),
        decimal_end(s, k, seen) == Ok::<int, LexError>(j),
    ensures
        k <= j <= s.len(),
        forall|m: int| k <= m < j ==> #[trigger] real_digit_char(s[m]),
        forall|m1: int, m2: int|
            k <= m1 < m2 < j && #[trigger] s[m1] == '.' ==> #[trigger] s[m2] != '.',
        seen ==> forall|m: int| k <= m < j ==> #[trigger] s[m] != '.',
    decreases s.len() - k,
{
    if k < s.len() && real_digit_char(s[k]) {
        let seen2 = seen || s[k] == '.';
        lemma_decimal_end_sound(s, k + 1, seen2, j);
    }
}

proof fn lemma_radix_end_sound(s: Seq<char>, k: int, hex: bool, j: int)
    requires
        0 <= k <= s.len(),
        radix_end(s, k, hex) == Ok::<int, LexError>(j),
    ensures
        k <= j <= s.len(),
        forall|m: int| k <= m < j ==> #[trigger] radix_digit_char(s[m], hex),
    decreases s.len() - k,
{
    if k < s.len() && radix_digit_char(s[k], hex) {
        lemma_radix_end_sound(s, k + 1, hex, j);
    }
}

proof fn lemma_scan_token_sound(s: Seq<char>, i: int)
    requires
        0 <= i < s.len(),
        !space_char(s[i]),
        scan_token(s, i) is Ok,
    ensures
        well_spelled(scan_token(s, i)->Ok_0.0),
{
    let c = s[i];
    if digit_char(c) {
        if c == '0' {
            if i + 1 >= s.len() {
                let l = s.subrange(i, i + 1);
                assert(real_digit_char(l[0]));
                assert(is_decimal_literal(l));
            } else if s[i + 1] == 'x' || s[i + 1] == 'b' {
                let hex = s[i + 1] == 'x';
                let j = radix_end(s, i + 2, hex)->Ok_0;
                lemma_radix_end_sound(s, i + 2, hex, j);
                let l = s.subrange(i, j);
                assert forall|m: int| 2 <= m < l.len() implies radix_digit_char(#[trigger] l[m], l[1] == 'x') by {
                    assert(l[m] == s[i + m]);
                }
                assert(is_radix_literal(l));
            } else if real_digit_char(s[i + 1]) {
                let j = decimal_end(s, i + 1, false)->Ok_0;
                lemma_decimal_end_sound(s, i + 1, false, j);
                let l = s.subrange(i, j);
                assert forall|m: int| 0 <= m < l.len() implies real_digit_char(#[trigger] l[m]) by {
                    assert(l[m] == s[i + m]);
                }
                assert forall|m1: int, m2: int|
                    0 <= m1 < m2 < l.len() && #[trigger] l[m1] == '.' implies #[trigger] l[m2] != '.' by {
                    assert(l[m1] == s[i + m1]);
                    assert(l[m2] == s[i + m2]);
                }
                assert(is_decimal_literal(l));
            }
        } else {
            assert(decimal_end(s, i, false) == decimal_end(s, i + 1, false));
            let j = decimal_end(s, i, false)->Ok_0;
            lemma_decimal_end_sound(s, i + 1, false, j);
            let l = s.subrange(i, j);
            assert forall|m: int| 0 <= m < l.len() implies real_digit_char(#[trigger] l[m]) by {
                assert(l[m] == s[i + m]);
            }
            assert forall|m1: int, m2: int|
                0 <= m1 < m2 < l.len() && #[trigger] l[m1] == '.' implies #[trigger] l[m2] != '.' by {
                assert(l[m1] == s[i + m1]);
                assert(l[m2] == s[i + m2]);
            }
            assert(is_decimal_literal(l));
        }
    } else if crate::classify::operator_char(c) {
        let j = operator_end(s, i, i)->Ok_0;
        let k = lookup_kind(s.subrange(i, j))->0;
        lemma_op_of_kind(k);
    }
}

/// Every token that lexing yields is well spelled.
proof fn lemma_lex_from_sound(s: Seq<char>, i: int)
    requires
        0 <= i,
        lex_from(s, i) is Ok,
    ensures
        forall|m: int|
            0 <= m < lex_from(s, i)->Ok_0.len() ==> well_spelled(#[trigger] lex_from(s, i)->Ok_0[m]),
    decreases s.len() - i,
{
    if i < s.len() {
        if space_char(s[i]) {
            lemma_lex_from_sound(s, i + 1);
        } else {
            let p = scan_token(s, i)->Ok_0;
            lemma_scan_token_sound(s, i);
            lemma_lex_from_sound(s, p.1);
            let rest = lex_from(s, p.1)->Ok_0;
            assert forall|m: int|
                0 <= m < lex_from(s, i)->Ok_0.len() implies well_spelled(#[trigger] lex_from(s, i)->Ok_0[m]) by {
                if m > 0 {
                    assert(lex_from(s, i)->Ok_0[m] == rest[m - 1]);
                }
            }
        }
    }
}

pub proof fn lemma_tokenize_sound(s: Seq<char>)
    requires
        tokenize_spec(s) is Ok,
    ensures
        forall|m: int|
            0 <= m < tokenize_spec(s)->Ok_0.len() ==> well_spelled(#[trigger] tokenize_spec(s)->Ok_0[m]),
{
    lemma_lex_from_sound(s, 0);
}

/// What the operator stack may hold while compiling.
pub open spec fn stack_ok(t: TokenV) -> bool {
    t.kind is OpeningParenthesis || (t.kind is Operator && well_spelled(t))
}

/// What postfix output holds: well-spelled literals and operators.
pub open spec fn out_ok(t: TokenV) -> bool {
    (t.kind is NumericLiteral || t.kind is Operator) && well_spelled(t)
}

pub open spec fn all_stack_ok(q: Seq<TokenV>) -> bool {
    forall|m: int| 0 <= m < q.len() ==> stack_ok(#[trigger] q[m])
}

pub open spec fn all_out_ok(q: Seq<TokenV>) -> bool {
    forall|m: int| 0 <= m < q.len() ==> out_ok(#[trigger] q[m])
}

proof fn lemma_push_out_ok(q: Seq<TokenV>, t: TokenV)
    requires
        all_out_ok(q),
        out_ok(t),
    ensures
        all_out_ok(q.push(t)),
{
    assert forall|m: int| 0 <= m < q.push(t).len() implies out_ok(#[trigger] q.push(t)[m]) by {
        if m < q.len() {
            assert(q.push(t)[m] == q[m]);
        }
    }
}

proof fn lemma_push_stack_ok(q: Seq<TokenV>, t: TokenV)
    requires
        all_stack_ok(q),
        stack_ok(t),
    ensures
        all_stack_ok(q.push(t)),
{
    assert forall|m: int| 0 <= m < q.push(t).len() implies stack_ok(#[trigger] q.push(t)[m]) by {
        if m < q.len() {
            assert(q.push(t)[m] == q[m]);
        }
    }
}

proof fn lemma_pop_higher_ok(stack: Seq<TokenV>, out: Seq<TokenV>, p: u8)
    requires
        all_stack_ok(stack),
        all_out_ok(out),
    ensures
        all_stack_ok(pop_higher(stack, out, p).0),
        all_out_ok(pop_higher(stack, out, p).1),
    decreases stack.len(),
{
    if stack.len() > 0 && gives_way(stack.last().kind, p) {
        lemma_drop_last_stack_ok(stack);
        lemma_push_out_ok(out, stack.last());
        lemma_pop_higher_ok(stack.drop_last(), out.push(stack.last()), p);
    }
}

proof fn lemma_drop_last_stack_ok(stack: Seq<TokenV>)
    requires
        stack.len() > 0,
        all_stack_ok(stack),
    ensures
        all_stack_ok(stack.drop_last()),
        stack_ok(stack.last()),
{
    assert forall|m: int| 0 <= m < stack.drop_last().len() implies stack_ok(#[trigger] stack.drop_last()[m]) by {
        assert(stack.drop_last()[m] == stack[m]);
    }
    assert(stack_ok(stack[stack.len() - 1]));
}

proof fn lemma_pop_to_open_ok(stack: Seq<TokenV>, out: Seq<TokenV>)
    requires
        all_stack_ok(stack),
        all_out_ok(out),
        pop_to_open(stack, out) is Ok,
    ensures
        all_stack_ok(pop_to_open(stack, out)->Ok_0.0),
        all_out_ok(pop_to_open(stack, out)->Ok_0.1),
    decreases stack.len(),
{
    lemma_drop_last_stack_ok(stack);
    if stack.last().kind is Operator {
        lemma_push_out_ok(out, stack.last());
        lemma_pop_to_open_ok(stack.drop_last(), out.push(stack.last()));
    }
}

proof fn lemma_drain_ok(stack: Seq<TokenV>, out: Seq<TokenV>)
    requires
        all_stack_ok(stack),
        all_out_ok(out),
        drain(stack, out) is Ok,
    ensures
        all_out_ok(drain(stack, out)->Ok_0),
    decreases stack.len(),
{
    if stack.len() > 0 {
        lemma_drop_last_stack_ok(stack);
        lemma_push_out_ok(out, stack.last());
        lemma_drain_ok(stack.drop_last(), out.push(stack.last()));
    }
}

proof fn lemma_compile_from_ok(ts: Seq<TokenV>, i: int, st: CompileState)
    requires
        0 <= i <= ts.len(),
        forall|m: int| i <= m < ts.len() ==> well_spelled(#[trigger] ts[m]),
        all_stack_ok(st.stack),
        all_out_ok(st.out),
        compile_from(ts, i, st) is Ok,
    ensures
        all_out_ok(compile_from(ts, i, st)->Ok_0),
    decreases ts.len() - i,
{
    if i >= ts.len() {
        lemma_drain_ok(st.stack, st.out);
    } else {
        let t = ts[i];
        assert(well_spelled(t));
        let next = compile_step(st, t)->Ok_0;
        match t.kind {
            TokenKind::NumericLiteral => {
                lemma_push_out_ok(st.out, t);
            },
            TokenKind::Operator(o) => {
                let k = corrected_kind(o@, unary_after(st.prev));
                let t1 = TokenV { kind: TokenKind::Operator(op_of(k)), ..t };
                lemma_op_of_kind(k);
                lemma_pop_higher_ok(st.stack, st.out, precedence_of(k));
                lemma_push_stack_ok(pop_higher(st.stack, st.out, precedence_of(k)).0, t1);
            },
            TokenKind::OpeningParenthesis => {
                lemma_push_stack_ok(st.stack, t);
            },
            TokenKind::ClosingParenthesis => {
                lemma_pop_to_open_ok(st.stack, st.out);
            },
            _ => {},
        }
        lemma_compile_from_ok(ts, i + 1, next);
    }
}

pub open spec fn lexemes(ts: Seq<TokenV>) -> Seq<Seq<char>> {
    ts.map_values(|t: TokenV| t.lexeme)
}

proof fn lemma_join_front(us: Seq<TokenV>)
    requires
        us.len() >= 2,
    ensures
        join_lexemes(us) == us[0].lexeme + seq![' '] + join_lexemes(us.drop_first()),
    decreases us.len(),
{
    if us.len() == 2 {
        assert(us.drop_last() =~= seq![us[0]]);
        assert(us.drop_first() =~= seq![us[1]]);
    } else {
        lemma_join_front(us.drop_last());
        assert(us.drop_last().drop_first() =~= us.drop_first().drop_last());
        assert(us.drop_first().last() == us.last());
        assert(us.drop_last()[0] == us[0]);
        assert(join_lexemes(us) == join_lexemes(us.drop_last()) + seq![' '] + us.last().lexeme);
        assert(join_lexemes(us.drop_first()) == join_lexemes(us.drop_first().drop_last()) + seq![' ']
            + us.drop_first().last().lexeme);
        assert(join_lexemes(us) =~= us[0].lexeme + seq![' '] + join_lexemes(us.drop_first()));
    }
}

proof fn lemma_join_same_lexemes(a: Seq<TokenV>, b: Seq<TokenV>)
    requires
        lexemes(a) == lexemes(b),
    ensures
        join_lexemes(a) == join_lexemes(b),
    decreases a.len(),
{
    assert(a.len() == lexemes(a).len());
    assert(b.len() == lexemes(b).len());
    if a.len() > 0 {
        assert(a.last().lexeme == lexemes(a)[a.len() - 1]);
        assert(b.last().lexeme == lexemes(b)[b.len() - 1]);
        assert(a[0].lexeme == lexemes(a)[0]);
        assert(b[0].lexeme == lexemes(b)[0]);
        assert(lexemes(a.drop_last()) =~= lexemes(a).drop_last());
        assert(lexemes(b.drop_last()) =~= lexemes(b).drop_last());
        lemma_join_same_lexemes(a.drop_last(), b.drop_last());
    }
}

proof fn lemma_decimal_span(s: Seq<char>, k: int, e: int, seen: bool)
    requires
        0 <= k <= e <= s.len(),
        e == s.len() || s[e] == ' ',
        forall|m: int| k <= m < e ==> real_digit_char(#[trigger] s[m]),
        forall|m1: int, m2: int| k <= m1 < m2 < e && #[trigger] s[m1] == '.' ==> #[trigger] s[m2] != '.',
        seen ==> forall|m: int| k <= m < e ==> #[trigger] s[m] != '.',
    ensures
        decimal_end(s, k, seen) == Ok::<int, LexError>(e),
    decreases e - k,
{
    if k < e {
        assert(real_digit_char(s[k]));
        let seen2 = seen || s[k] == '.';
        if seen2 {
            assert forall|m: int| k + 1 <= m < e implies #[trigger] s[m] != '.' by {
                if s[k] == '.' {
                    assert(k < m);
                }
            }
        }
        lemma_decimal_span(s, k + 1, e, seen2);
    }
}

proof fn lemma_radix_span(s: Seq<char>, k: int, e: int, hex: bool)
    requires
        0 <= k <= e <= s.len(),
        e == s.len() || s[e] == ' ',
        forall|m: int| k <= m < e ==> radix_digit_char(#[trigger] s[m], hex),
    ensures
        radix_end(s, k, hex) == Ok::<int, LexError>(e),
    decreases e - k,
{
    if k < e {
        assert(radix_digit_char(s[k], hex));
        lemma_radix_span(s, k + 1, e, hex);
    }
}

/// A canonical spelling reads back as an operator with that same spelling.
proof fn lemma_spelling_reads_back(k: OperatorKind)
    ensures
        lookup_kind(spelling_of(k)) is Some,
        spelling_of(lookup_kind(spelling_of(k))->0) == spelling_of(k),
        forall|m: int| 0 <= m < spelling_of(k).len() ==> operator_char(#[trigger] spelling_of(k)[m]),
        1 <= spelling_of(k).len() <= 2,
        spelling_of(k).len() == 2 ==> lookup_kind(spelling_of(k).subrange(0, 1)) is Some || (
        spelling_of(k)[0] != '!' && spelling_of(k)[0] != '>' && spelling_of(k)[0] != '<'),
{
}

proof fn lemma_operator_span(s: Seq<char>, k: int, sp: Seq<char>)
    requires
        0 <= k,
        k + sp.len() <= s.len(),
        1 <= sp.len() <= 2,
        s.subrange(k, k + sp.len()) == sp,
        k + sp.len() == s.len() || s[k + sp.len()] == ' ',
        forall|m: int| 0 <= m < sp.len() ==> operator_char(#[trigger] sp[m]),
        lookup_kind(sp) is Some,
        k + sp.len() < s.len() || operator_end(s, k, k) is Ok,
    ensures
        operator_end(s, k, k) == Ok::<int, LexError>(k + sp.len()),
{
    let e = k + sp.len();
    assert(s[k] == sp[0]);
    assert(operator_char(sp[0]));
    assert(s.subrange(k, k) =~= Seq::<char>::empty());
    if sp.len() == 1 {
        assert(s.subrange(k, k + 1) =~= sp);
        assert(operator_end(s, k, k) == operator_end(s, k, k + 1));
        if e < s.len() {
            assert(!operator_char(s[e]));
        }
    } else {
        assert(s[k + 1] == sp[1]);
        assert(operator_char(sp[1]));
        assert(operator_end(s, k, k) == operator_end(s, k, k + 1));
        assert(s.subrange(k, k + 2) =~= sp);
        assert(operator_end(s, k, k + 1) == operator_end(s, k, k + 2));
        if e < s.len() {
            assert(!operator_char(s[e]));
        }
    }
}

/// A well-spelled lexeme followed by a space or the end scans back whole.
proof fn lemma_scan_lexeme(s: Seq<char>, k: int, u: TokenV)
    requires
        out_ok(u),
        0 <= k,
        k + u.lexeme.len() <= s.len(),
        s.subrange(k, k + u.lexeme.len()) == u.lexeme,
        k + u.lexeme.len() == s.len() || s[k + u.lexeme.len()] == ' ',
        u.lexeme.len() >= 1,
        scan_token(s, k) is Ok,
    ensures
        scan_token(s, k)->Ok_0.0.lexeme == u.lexeme,
        scan_token(s, k)->Ok_0.1 == k + u.lexeme.len(),
{
    let l = u.lexeme;
    let e = k + l.len();
    assert forall|m: int| 0 <= m < l.len() implies s[k + m] == #[trigger] l[m] by {
        assert(s.subrange(k, e)[m] == s[k + m]);
    }
    assert(s[k] == l[0]);
    if u.kind is NumericLiteral {
        if is_decimal_literal(l) {
            assert(digit_char(s[k]));
            assert forall|m: int| k <= m < e implies real_digit_char(#[trigger] s[m]) by {
                assert(s[m] == l[m - k]);
                assert(real_digit_char(l[m - k]));
            }
            assert forall|m1: int, m2: int| k <= m1 < m2 < e && #[trigger] s[m1] == '.' implies #[trigger] s[m2] != '.' by {
                assert(s[m1] == l[m1 - k]);
                assert(s[m2] == l[m2 - k]);
                assert(l[m1 - k] == '.');
            }
            if s[k] == '0' {
                if k + 1 >= s.len() {
                } else if l.len() == 1 {
                    assert(s[k + 1] == ' ');
                } else {
                    assert(s[k + 1] == l[1]);
                    assert(real_digit_char(l[1]));
                    lemma_decimal_span(s, k + 1, e, false);
                }
            } else {
                assert(s[k] != '.');
                lemma_decimal_span(s, k + 1, e, false);
                assert(decimal_end(s, k, false) == decimal_end(s, k + 1, false));
            }
        } else {
            assert(is_radix_literal(l));
            assert(s[k + 1] == l[1]);
            let hex = l[1] == 'x';
            assert forall|m: int| k + 2 <= m < e implies radix_digit_char(#[trigger] s[m], hex) by {
                assert(s[m] == l[m - k]);
                assert(radix_digit_char(l[m - k], hex));
            }
            lemma_radix_span(s, k + 2, e, hex);
        }
    } else {
        let o = u.kind->Operator_0;
        lemma_spelling_reads_back(o@);
        assert(operator_char(l[0]));
        assert(!digit_char(s[k]));
        lemma_operator_span(s, k, l);
    }
}

/// Lexing a text of well-spelled lexemes separated by single spaces gives
/// back those lexemes, whenever it succeeds.
proof fn lemma_relex(s: Seq<char>, k: int, us: Seq<TokenV>)
    requires
        0 <= k <= s.len(),
        us.len() >= 1,
        all_out_ok(us),
        forall|m: int| 0 <= m < us.len() ==> (#[trigger] us[m]).lexeme.len() >= 1,
        s.subrange(k, s.len() as int) == join_lexemes(us),
        lex_from(s, k) is Ok,
    ensures
        lexemes(lex_from(s, k)->Ok_0) == lexemes(us),
    decreases us.len(),
{
    let u = us[0];
    let l = u.lexeme;
    let e = k + l.len();
    assert(out_ok(us[0]));
    if us.len() == 1 {
        assert(join_lexemes(us) == l);
    } else {
        lemma_join_front(us);
    }
    let tail = s.subrange(k, s.len() as int);
    assert(tail.len() >= l.len());
    assert(e <= s.len());
    assert(s.subrange(k, e) =~= tail.subrange(0, l.len() as int));
    assert(tail.subrange(0, l.len() as int) =~= l) by {
        if us.len() > 1 {
            assert((l + seq![' '] + join_lexemes(us.drop_first())).subrange(0, l.len() as int) =~= l);
        }
    }
    if us.len() == 1 {
        assert(e == s.len());
    } else {
        assert(s[e] == tail[l.len() as int]);
        assert(s[e] == ' ');
    }
    assert(l.len() >= 1);
    assert(s[k] == l[0]) by {
        assert(s.subrange(k, e)[0] == s[k]);
    }
    assert(!space_char(s[k])) by {
        if u.kind is NumericLiteral {
            if is_decimal_literal(l) {
                assert(digit_char(l[0]));
            }
        } else {
            lemma_spelling_reads_back((u.kind->Operator_0)@);
        }
    }
    assert(scan_token(s, k) is Ok);
    lemma_scan_lexeme(s, k, u);
    let t = scan_token(s, k)->Ok_0.0;
    let rest = lex_from(s, e)->Ok_0;
    assert(lex_from(s, k)->Ok_0 == seq![t] + rest);
    if us.len() == 1 {
        assert(rest == Seq::<TokenV>::empty());
        assert(lexemes(lex_from(s, k)->Ok_0) =~= lexemes(us));
    } else {
        assert(lex_from(s, e) == lex_from(s, e + 1));
        let rs = us.drop_first();
        let j = join_lexemes(rs);
        assert(tail =~= l + seq![' '] + j);
        assert forall|m: int| 0 <= m < j.len() implies #[trigger] s.subrange(e + 1, s.len() as int)[m] == j[m] by {
            assert(s.subrange(e + 1, s.len() as int)[m] == s[e + 1 + m]);
            assert(tail[l.len() + 1 + m] == s[k + l.len() + 1 + m]);
            assert((l + seq![' '] + j)[l.len() + 1 + m] == j[m]);
        }
        assert(s.subrange(e + 1, s.len() as int) =~= j);
        assert forall|m: int| 0 <= m < rs.len() implies out_ok(#[trigger] rs[m]) by {
            assert(rs[m] == us[m + 1]);
        }
        assert forall|m: int| 0 <= m < rs.len() implies (#[trigger] rs[m]).lexeme.len() >= 1 by {
            assert(rs[m] == us[m + 1]);
        }
        lemma_relex(s, e + 1, rs);
        let out = lex_from(s, k)->Ok_0;
        assert(lexemes(rest) == lexemes(rs));
        assert(rest.len() == lexemes(rest).len());
        assert(rs.len() == lexemes(rs).len());
        assert(out.len() == us.len());
        assert forall|m: int| 0 <= m < us.len() implies #[trigger] lexemes(out)[m] == lexemes(us)[m] by {
            if m == 0 {
                assert(out[0] == t);
            } else {
                assert(out[m] == rest[m - 1]);
                assert(rs[m - 1] == us[m]);
                assert(lexemes(rest)[m - 1] == lexemes(rs)[m - 1]);
            }
        }
        assert(lexemes(out) =~= lexemes(us));
    }
}

/// The postfix text of a compiled expression is stable: whenever that text
/// tokenizes again, the new tokens render to exactly the same text. (Text
/// that ends in an operator does not tokenize again: an operator must be
/// followed by another token.)
pub proof fn lemma_postfix_round_trip(e: Seq<char>)
    requires
        tokenize_spec(e) is Ok,
        compile_spec(tokenize_spec(e)->Ok_0) is Ok,
        tokenize_spec(join_lexemes(compile_spec(tokenize_spec(e)->Ok_0)->Ok_0)) is Ok,
    ensures
        ({
            let p = join_lexemes(compile_spec(tokenize_spec(e)->Ok_0)->Ok_0);
            join_lexemes(tokenize_spec(p)->Ok_0) == p
        }),
{
    let ts = tokenize_spec(e)->Ok_0;
    lemma_tokenize_sound(e);
    let init = CompileState { stack: Seq::empty(), out: Seq::empty(), prev: None };
    lemma_compile_from_ok(ts, 0, init);
    let rpn = compile_spec(ts)->Ok_0;
    let p = join_lexemes(rpn);
    assert(rpn.len() >= 1) by {
        if rpn.len() == 0 {
            assert(p.len() == 0);
        }
    }
    assert forall|m: int| 0 <= m < rpn.len() implies (#[trigger] rpn[m]).lexeme.len() >= 1 by {
        assert(out_ok(rpn[m]));
        if rpn[m].kind is Operator {
            lemma_spelling_reads_back((rpn[m].kind->Operator_0)@);
        }
    }
    assert(p.subrange(0, p.len() as int) =~= p);
    assert(p.len() > 0);
    assert(lex_from(p, 0) is Ok);
    lemma_relex(p, 0, rpn);
    let again = lex_from(p, 0)->Ok_0;
    assert(tokenize_spec(p) == end_checks(again));
    lemma_join_same_lexemes(again, rpn);
}

/// A text cut at every space: `"a b"` gives `["a", "b"]`, and the empty text
/// one empty piece.
pub open spec fn split_spaces(s: Seq<char>) -> Seq<Seq<char>>
    decreases s.len(),
{
    if s.len() == 0 {
        seq![Seq::empty()]
    } else if s.last() == ' ' {
        split_spaces(s.drop_last()).push(Seq::empty())
    } else {
        let r = split_spaces(s.drop_last());
        r.update(r.len() - 1, r.last().push(s.last()))
    }
}

proof fn lemma_split_len(s: Seq<char>)
    ensures
        split_spaces(s).len() >= 1,
    decreases s.len(),
{
    if s.len() > 0 {
        lemma_split_len(s.drop_last());
    }
}

/// Appending a space and a word without spaces appends that word as a piece.
proof fn lemma_split_word(x: Seq<char>, l: Seq<char>)
    requires
        forall|m: int| 0 <= m < l.len() ==> #[trigger] l[m] != ' ',
    ensures
        split_spaces(x + seq![' '] + l) == split_spaces(x).push(l),
    decreases l.len(),
{
    if l.len() == 0 {
        assert(l =~= Seq::<char>::empty());
        assert(x + seq![' '] + l =~= x.push(' '));
        assert(x.push(' ').drop_last() =~= x);
    } else {
        let l0 = l.drop_last();
        lemma_split_word(x, l0);
        let y = x + seq![' '] + l;
        assert(y.drop_last() =~= x + seq![' '] + l0);
        assert(y.last() == l.last());
        assert(l[l.len() - 1] != ' ');
        lemma_split_len(x);
        assert(l0.push(l.last()) =~= l);
        let r = split_spaces(x).push(l0);
        assert(r.last() == l0);
        assert(r.update(r.len() - 1, r.last().push(y.last())) =~= split_spaces(x).push(l));
    }
}

/// A word without spaces is one piece.
proof fn lemma_split_single(l: Seq<char>)
    requires
        forall|m: int| 0 <= m < l.len() ==> #[trigger] l[m] != ' ',
    ensures
        split_spaces(l) == seq![l],
    decreases l.len(),
{
    if l.len() > 0 {
        let l0 = l.drop_last();
        lemma_split_single(l0);
        assert(l[l.len() - 1] != ' ');
        assert(l.drop_last() == l0);
        assert(l0.push(l.last()) =~= l);
        let r = seq![l0];
        assert(r.last() == l0);
        assert(r.update(r.len() - 1, r.last().push(l.last())) =~= seq![l]);
    } else {
        assert(l =~= Seq::<char>::empty());
    }
}

proof fn lemma_well_spelled_has_no_space(u: TokenV)
    requires
        out_ok(u),
    ensures
        forall|m: int| 0 <= m < u.lexeme.len() ==> #[trigger] u.lexeme[m] != ' ',
{
    if u.kind is Operator {
        lemma_spelling_reads_back((u.kind->Operator_0)@);
    } else {
        assert forall|m: int| 0 <= m < u.lexeme.len() implies #[trigger] u.lexeme[m] != ' ' by {
            if is_decimal_literal(u.lexeme) {
                assert(real_digit_char(u.lexeme[m]));
            } else if m >= 2 {
                assert(radix_digit_char(u.lexeme[m], u.lexeme[1] == 'x'));
            }
        }
    }
}

proof fn lemma_split_join(us: Seq<TokenV>)
    requires
        us.len() >= 1,
        all_out_ok(us),
    ensures
        split_spaces(join_lexemes(us)) == lexemes(us),
    decreases us.len(),
{
    let last = us.last();
    assert(out_ok(us[us.len() - 1]));
    lemma_well_spelled_has_no_space(last);
    if us.len() == 1 {
        lemma_split_single(us[0].lexeme);
        assert(lexemes(us) =~= seq![us[0].lexeme]);
    } else {
        let front = us.drop_last();
        assert forall|m: int| 0 <= m < front.len() implies out_ok(#[trigger] front[m]) by {
            assert(front[m] == us[m]);
        }
        lemma_split_join(front);
        lemma_split_word(join_lexemes(front), last.lexeme);
        assert(lexemes(front).push(last.lexeme) =~= lexemes(us));
    }
}

/// The postfix text of a compiled expression cut at its spaces gives back
/// the lexemes of the postfix tokens, one piece each.
pub proof fn lemma_postfix_splits_into_lexemes(e: Seq<char>)
    requires
        tokenize_spec(e) is Ok,
        compile_spec(tokenize_spec(e)->Ok_0) is Ok,
        compile_spec(tokenize_spec(e)->Ok_0)->Ok_0.len() > 0,
    ensures
        ({
            let rpn = compile_spec(tokenize_spec(e)->Ok_0)->Ok_0;
            split_spaces(join_lexemes(rpn)) == lexemes(rpn)
        }),
{
    let ts = tokenize_spec(e)->Ok_0;
    lemma_tokenize_sound(e);
    let init = CompileState { stack: Seq::empty(), out: Seq::empty(), prev: None };
    lemma_compile_from_ok(ts, 0, init);
    lemma_split_join(compile_spec(ts)->Ok_0);
}

/// The two spellings that cannot be read back in place: an operator that
/// ends the text, and a lone `0` that another token follows.
pub open spec fn excused(us: Seq<TokenV>) -> bool {
    (us[0].kind is Operator && us.len() == 1) || (us[0].lexeme == seq!['0'] && us.len() > 1)
}

/// Scanning the text from `k` meets the lexemes of `us` one by one, each
/// ending where the next space begins.
pub open spec fn scans_back(s: Seq<char>, k: int, us: Seq<TokenV>) -> bool
    decreases us.len(),
{
    if us.len() == 0 {
        true
    } else {
        let e = k + us[0].lexeme.len();
        &&& excused(us) || (scan_token(s, k) matches Ok(p) && p.0.lexeme == us[0].lexeme && p.1 == e)
        &&& scans_back(s, e + 1, us.drop_first())
    }
}

proof fn lemma_scan_lexeme_ok(s: Seq<char>, k: int, u: TokenV)
    requires
        out_ok(u),
        0 <= k,
        k + u.lexeme.len() <= s.len(),
        s.subrange(k, k + u.lexeme.len()) == u.lexeme,
        k + u.lexeme.len() == s.len() || s[k + u.lexeme.len()] == ' ',
        u.lexeme.len() >= 1,
        !(u.kind is Operator && k + u.lexeme.len() == s.len()),
        !(u.lexeme == seq!['0'] && k + u.lexeme.len() < s.len()),
    ensures
        scan_token(s, k) is Ok,
{
    let l = u.lexeme;
    let e = k + l.len();
    assert forall|m: int| 0 <= m < l.len() implies s[k + m] == #[trigger] l[m] by {
        assert(s.subrange(k, e)[m] == s[k + m]);
    }
    if u.kind is NumericLiteral {
        if is_decimal_literal(l) {
            assert forall|m: int| k <= m < e implies real_digit_char(#[trigger] s[m]) by {
                assert(s[m] == l[m - k]);
            }
            assert forall|m1: int, m2: int| k <= m1 < m2 < e && #[trigger] s[m1] == '.' implies #[trigger] s[m2] != '.' by {
                assert(s[m1] == l[m1 - k]);
                assert(s[m2] == l[m2 - k]);
                assert(l[m1 - k] == '.');
            }
            assert(digit_char(s[k]));
            if s[k] == '0' {
                if k + 1 >= s.len() {
                } else if l.len() == 1 {
                    assert(l =~= seq!['0']);
                } else {
                    assert(real_digit_char(l[1]));
                    lemma_decimal_span(s, k + 1, e, false);
                }
            } else {
                lemma_decimal_span(s, k + 1, e, false);
                assert(decimal_end(s, k, false) == decimal_end(s, k + 1, false));
            }
        } else {
            let hex = l[1] == 'x';
            assert forall|m: int| k + 2 <= m < e implies radix_digit_char(#[trigger] s[m], hex) by {
                assert(s[m] == l[m - k]);
            }
            lemma_radix_span(s, k + 2, e, hex);
        }
    } else {
        lemma_spelling_reads_back((u.kind->Operator_0)@);
        assert(operator_char(l[0]));
        assert(!digit_char(s[k]));
        lemma_operator_span(s, k, l);
        assert(lookup_kind(s.subrange(k, e)) is Some);
    }
}

proof fn lemma_scans_back(s: Seq<char>, k: int, us: Seq<TokenV>)
    requires
        0 <= k <= s.len(),
        us.len() >= 1,
        all_out_ok(us),
        forall|m: int| 0 <= m < us.len() ==> (#[trigger] us[m]).lexeme.len() >= 1,
        s.subrange(k, s.len() as int) == join_lexemes(us),
    ensures
        scans_back(s, k, us),
    decreases us.len(),
{
    let u = us[0];
    let l = u.lexeme;
    let e = k + l.len();
    assert(out_ok(us[0]));
    if us.len() == 1 {
        assert(join_lexemes(us) == l);
    } else {
        lemma_join_front(us);
    }
    let tail = s.subrange(k, s.len() as int);
    assert(tail.len() >= l.len());
    assert(e <= s.len());
    assert(s.subrange(k, e) =~= tail.subrange(0, l.len() as int));
    assert(tail.subrange(0, l.len() as int) =~= l) by {
        if us.len() > 1 {
            assert((l + seq![' '] + join_lexemes(us.drop_first())).subrange(0, l.len() as int) =~= l);
        }
    }
    if us.len() == 1 {
        assert(e == s.len());
    } else {
        assert(s[e] == tail[l.len() as int]);
        assert(s[e] == ' ');
    }
    if !excused(us) {
        lemma_scan_lexeme_ok(s, k, u);
        lemma_scan_lexeme(s, k, u);
    }
    let rs = us.drop_first();
    if us.len() > 1 {
        let j = join_lexemes(rs);
        assert(tail =~= l + seq![' '] + j);
        assert forall|m: int| 0 <= m < j.len() implies #[trigger] s.subrange(e + 1, s.len() as int)[m] == j[m] by {
            assert(s.subrange(e + 1, s.len() as int)[m] == s[e + 1 + m]);
            assert(tail[l.len() + 1 + m] == s[k + l.len() + 1 + m]);
            assert((l + seq![' '] + j)[l.len() + 1 + m] == j[m]);
        }
        assert(s.subrange(e + 1, s.len() as int) =~= j);
        assert forall|m: int| 0 <= m < rs.len() implies out_ok(#[trigger] rs[m]) by {
            assert(rs[m] == us[m + 1]);
        }
        assert forall|m: int| 0 <= m < rs.len() implies (#[trigger] rs[m]).lexeme.len() >= 1 by {
            assert(rs[m] == us[m + 1]);
        }
        lemma_scans_back(s, e + 1, rs);
    } else {
        assert(rs.len() == 0);
        assert(scans_back(s, e + 1, rs));
    }
}

/// Reading the postfix text of a compiled expression token by token gives
/// back each postfix token's spelling, in order and in place, except for an
/// operator that ends the text and a lone `0` before a space, which the
/// lexer refuses wherever they stand.
pub proof fn lemma_postfix_reads_back(e: Seq<char>)
    requires
        tokenize_spec(e) is Ok,
        compile_spec(tokenize_spec(e)->Ok_0) is Ok,
        compile_spec(tokenize_spec(e)->Ok_0)->Ok_0.len() > 0,
    ensures
        ({
            let rpn = compile_spec(tokenize_spec(e)->Ok_0)->Ok_0;
            scans_back(join_lexemes(rpn), 0, rpn)
        }),
{
    let ts = tokenize_spec(e)->Ok_0;
    lemma_tokenize_sound(e);
    let init = CompileState { stack: Seq::empty(), out: Seq::empty(), prev: None };
    lemma_compile_from_ok(ts, 0, init);
    let rpn = compile_spec(ts)->Ok_0;
    let p = join_lexemes(rpn);
    assert forall|m: int| 0 <= m < rpn.len() implies (#[trigger] rpn[m]).lexeme.len() >= 1 by {
        assert(out_ok(rpn[m]));
        if rpn[m].kind is Operator {
            lemma_spelling_reads_back((rpn[m].kind->Operator_0)@);
        }
    }
    assert(p.subrange(0, p.len() as int) =~= p);
    lemma_scans_back(p, 0, rpn);
}

} // verus!
