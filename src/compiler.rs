use vstd::prelude::*;

use crate::error::CompileError;
use crate::lexer::views;
use crate::operators::{corrected_kind, op_of, precedence_of, unary_after};
use crate::solver::Expression;
use crate::token::{Token, TokenKind, TokenV};

verus! {

/// Where the conversion to postfix order stands: the operator stack (top
/// last), the output so far, and the kind of the token last handled.
pub ghost struct CompileState {
    pub stack: Seq<TokenV>,
    pub out: Seq<TokenV>,
    pub prev: Option<TokenKind>,
}

/// An operator of at least precedence `p` on the stack gives way to an
/// incoming one; equal precedence gives way too, so operators associate left.
pub open spec fn gives_way(k: TokenKind, p: u8) -> bool {
    match k {
        TokenKind::Operator(o) => precedence_of(o@) >= p,
        _ => false,
    }
}

/// Moves operators from the stack top to the output while they give way.
pub open spec fn pop_higher(stack: Seq<TokenV>, out: Seq<TokenV>, p: u8) -> (Seq<TokenV>, Seq<TokenV>)
    decreases stack.len(),
{
    if stack.len() > 0 && gives_way(stack.last().kind, p) {
        pop_higher(stack.drop_last(), out.push(stack.last()), p)
    } else {
        (stack, out)
    }
}

/// Moves operators to the output down to the nearest opening parenthesis,
/// which is dropped; there must be one.
pub open spec fn pop_to_open(stack: Seq<TokenV>, out: Seq<TokenV>) -> Result<(Seq<TokenV>, Seq<TokenV>), CompileError>
    decreases stack.len(),
{
    if stack.len() == 0 {
        Err(CompileError::UnmatchedParenthesis)
    } else if stack.last().kind is Operator {
        pop_to_open(stack.drop_last(), out.push(stack.last()))
    } else if stack.last().kind is OpeningParenthesis {
        Ok((stack.drop_last(), out))
    } else {
        Err(CompileError::UnmatchedParenthesis)
    }
}

/// Moves the rest of the stack to the output, top first; an opening
/// parenthesis left there was never closed.
pub open spec fn drain(stack: Seq<TokenV>, out: Seq<TokenV>) -> Result<Seq<TokenV>, CompileError>
    decreases stack.len(),
{
    if stack.len() == 0 {
        Ok(out)
    } else if stack.last().kind is Operator {
        drain(stack.drop_last(), out.push(stack.last()))
    } else {
        Err(CompileError::UnmatchedParenthesis)
    }
}

/// Handles one token.
pub open spec fn compile_step(st: CompileState, t: TokenV) -> Result<CompileState, CompileError> {
    match t.kind {
        TokenKind::NumericLiteral => Ok(
            CompileState { stack: st.stack, out: st.out.push(t), prev: Some(t.kind) },
        ),
        TokenKind::Operator(o) => {
            let k = corrected_kind(o@, unary_after(st.prev));
            let t1 = TokenV { kind: TokenKind::Operator(op_of(k)), ..t };
            let popped = pop_higher(st.stack, st.out, precedence_of(k));
            Ok(CompileState { stack: popped.0.push(t1), out: popped.1, prev: Some(t1.kind) })
        },
        TokenKind::OpeningParenthesis => Ok(
            CompileState { stack: st.stack.push(t), out: st.out, prev: Some(t.kind) },
        ),
        TokenKind::ClosingParenthesis => match pop_to_open(st.stack, st.out) {
            Ok(p) => Ok(CompileState { stack: p.0, out: p.1, prev: Some(t.kind) }),
            Err(e) => Err(e),
        },
        _ => Err(CompileError::UnsupportedToken),
    }
}

pub open spec fn compile_from(ts: Seq<TokenV>, i: int, st: CompileState) -> Result<Seq<TokenV>, CompileError>
    decreases ts.len() - i,
{
    if i < 0 || i >= ts.len() {
        drain(st.stack, st.out)
    } else {
        match compile_step(st, ts[i]) {
            Ok(next) => compile_from(ts, i + 1, next),
            Err(e) => Err(e),
        }
    }
}

/// The postfix order of an infix token sequence.
pub open spec fn compile_spec(ts: Seq<TokenV>) -> Result<Seq<TokenV>, CompileError> {
    compile_from(ts, 0, CompileState { stack: Seq::empty(), out: Seq::empty(), prev: None })
}

pub open spec fn lift_expression(r: Result<Expression, CompileError>) -> Result<Seq<TokenV>, CompileError> {
    match r {
        Ok(e) => Ok(e@),
        Err(e) => Err(e),
    }
}

/// Converts infix tokens to postfix order with an operator stack.
pub struct Compiler {
    operator_stack: Vec<Token>,
    previous_token: Option<Token>,
}

impl View for Compiler {
    type V = CompileState;

    closed spec fn view(&self) -> CompileState {
        CompileState {
            stack: views(self.operator_stack@),
            out: Seq::empty(),
            prev: Token::kind_of(self.previous_token),
        }
    }
}

impl Compiler {
    pub fn new() -> (r: Compiler)
        ensures
            r@ == (CompileState { stack: Seq::empty(), out: Seq::empty(), prev: None }),
    {
        let r = Compiler { operator_stack: Vec::new(), previous_token: None };
        proof {
            assert(views(r.operator_stack@) =~= Seq::<TokenV>::empty());
        }
        r
    }

    /// The postfix expression of an infix token sequence.
    pub fn to_expression(self, input: &Vec<Token>) -> (r: Result<Expression, CompileError>)
        ensures
            lift_expression(r) == compile_from(views(input@), 0, self@),
    {
        let ghost ts = views(input@);
        let ghost start = self@;
        let mut state = self;
        let mut rpn: Vec<Token> = Vec::new();
        proof {
            assert(views(rpn@) =~= Seq::<TokenV>::empty());
        }
        let mut i: usize = 0;
        while i < input.len()
            invariant
                i <= input.len(),
                ts == views(input@),
                start == self@,
                compile_from(ts, 0, start) == compile_from(
                    ts,
                    i as int,
                    CompileState {
                        stack: views(state.operator_stack@),
                        out: views(rpn@),
                        prev: Token::kind_of(state.previous_token),
                    },
                ),
            decreases input.len() - i,
        {
            let token = &input[i];
            let ghost cur = CompileState {
                stack: views(state.operator_stack@),
                out: views(rpn@),
                prev: Token::kind_of(state.previous_token),
            };
            proof {
                assert(ts[i as int] == token@);
                assert(compile_from(ts, i as int, cur) == match compile_step(cur, token@) {
                    Ok(next) => compile_from(ts, i + 1, next),
                    Err(e) => Err(e),
                });
            }
            match token.kind() {
                TokenKind::NumericLiteral => {
                    let ghost out0 = views(rpn@);
                    state.previous_token = Some(token.clone());
                    rpn.push(token.clone());
                    proof {
                        assert(views(rpn@) =~= out0.push(token@));
                    }
                },
                TokenKind::Operator(o) => {
                    let o1 = o.correct_arity(&state.previous_token);
                    let p = o1.precedence();
                    state.pop_higher(&mut rpn, p);
                    let mut updated = token.clone();
                    updated.update_kind(TokenKind::Operator(o1));
                    let ghost stack0 = views(state.operator_stack@);
                    state.previous_token = Some(updated.clone());
                    let ghost uv = updated@;
                    state.operator_stack.push(updated);
                    proof {
                        assert(views(state.operator_stack@) =~= stack0.push(uv));
                    }
                },
                TokenKind::OpeningParenthesis => {
                    let ghost stack0 = views(state.operator_stack@);
                    state.operator_stack.push(token.clone());
                    state.previous_token = Some(token.clone());
                    proof {
                        assert(views(state.operator_stack@) =~= stack0.push(token@));
                    }
                },
                TokenKind::ClosingParenthesis => {
                    match state.pop_to_open(&mut rpn) {
                        Ok(()) => {},
                        Err(e) => {
                            return Err(e);
                        },
                    }
                    state.previous_token = Some(token.clone());
                },
                _ => {
                    return Err(CompileError::UnsupportedToken);
                },
            }
            i = i + 1;
        }
        while state.operator_stack.len() > 0
            invariant
                ts == views(input@),
                start == self@,
                compile_from(ts, 0, start) == drain(views(state.operator_stack@), views(rpn@)),
            decreases state.operator_stack.len(),
        {
            let ghost stack0 = views(state.operator_stack@);
            let ghost out0 = views(rpn@);
            let top = state.operator_stack.pop().unwrap();
            proof {
                assert(views(state.operator_stack@) =~= stack0.drop_last());
                assert(stack0.last() == top@);
            }
            match top.kind() {
                TokenKind::Operator(_) => {
                    let ghost tv = top@;
                    rpn.push(top);
                    proof {
                        assert(views(rpn@) =~= out0.push(tv));
                    }
                },
                _ => {
                    return Err(CompileError::UnmatchedParenthesis);
                },
            }
        }
        Ok(Expression::new(rpn))
    }

    /// Moves operators that give way to precedence `p` from the stack to `rpn`.
    fn pop_higher(&mut self, rpn: &mut Vec<Token>, p: u8)
        ensures
            (views(final(self).operator_stack@), views(final(rpn)@)) == pop_higher(
                views(old(self).operator_stack@),
                views(old(rpn)@),
                p,
            ),
            final(self).previous_token == old(self).previous_token,
    {
        loop
            invariant
                pop_higher(views(old(self).operator_stack@), views(old(rpn)@), p) == pop_higher(
                    views(self.operator_stack@),
                    views(rpn@),
                    p,
                ),
                self.previous_token == old(self).previous_token,
            decreases self.operator_stack.len(),
        {
            let n = self.operator_stack.len();
            if n == 0 {
                return;
            }
            let gives = match self.operator_stack[n - 1].kind() {
                TokenKind::Operator(o) => o.precedence() >= p,
                _ => false,
            };
            if !gives {
                return;
            }
            let ghost stack0 = views(self.operator_stack@);
            let ghost out0 = views(rpn@);
            let top = self.operator_stack.pop().unwrap();
            let ghost tv = top@;
            rpn.push(top);
            proof {
                assert(views(self.operator_stack@) =~= stack0.drop_last());
                assert(views(rpn@) =~= out0.push(tv));
            }
        }
    }

    /// Moves operators to `rpn` down to the nearest opening parenthesis and
    /// drops that parenthesis.
    fn pop_to_open(&mut self, rpn: &mut Vec<Token>) -> (r: Result<(), CompileError>)
        ensures
            match pop_to_open(views(old(self).operator_stack@), views(old(rpn)@)) {
                Ok(p) => r is Ok && views(final(self).operator_stack@) == p.0 && views(final(rpn)@) == p.1,
                Err(e) => r == Err::<(), CompileError>(e),
            },
            final(self).previous_token == old(self).previous_token,
    {
        loop
            invariant
                pop_to_open(views(old(self).operator_stack@), views(old(rpn)@)) == pop_to_open(
                    views(self.operator_stack@),
                    views(rpn@),
                ),
                self.previous_token == old(self).previous_token,
            decreases self.operator_stack.len(),
        {
            let ghost stack0 = views(self.operator_stack@);
            let ghost out0 = views(rpn@);
            let top = match self.operator_stack.pop() {
                Some(t) => t,
                None => {
                    return Err(CompileError::UnmatchedParenthesis);
                },
            };
            proof {
                assert(views(self.operator_stack@) =~= stack0.drop_last());
                assert(stack0.last() == top@);
            }
            match top.kind() {
                TokenKind::Operator(_) => {
                    let ghost tv = top@;
                    rpn.push(top);
                    proof {
                        assert(views(rpn@) =~= out0.push(tv));
                    }
                },
                TokenKind::OpeningParenthesis => {
                    return Ok(());
                },
                _ => {
                    return Err(CompileError::UnmatchedParenthesis);
                },
            }
        }
    }
}

/// The postfix expression of an infix token sequence.
pub fn compile(tokens: &Vec<Token>) -> (r: Result<Expression, CompileError>)
    ensures
        lift_expression(r) == compile_spec(views(tokens@)),
{
    Compiler::new().to_expression(tokens)
}

} // verus!
