use vstd::prelude::*;

use crate::compiler::{compile, compile_spec};
use crate::error::{CompileError, EvalError, LexError};
use crate::lexer::{tokenize, tokenize_spec};
use crate::solver::{eval_spec, infix_spec, join_lexemes, lift_text, lift_value, Expression, Value, ValueV};

verus! {

/// A failure of any stage, carrying the stage's own error.
#[derive(Debug, Clone, Copy, PartialEq, Eq, Structural)]
pub enum Error {
    Lex(LexError),
    Compile(CompileError),
    Eval(EvalError),
}

/// How an expression is written back as text.
#[derive(Debug, Clone, Copy, PartialEq, Eq, Structural)]
pub enum RenderMode {
    Postfix,
    Infix,
}

/// The value of a text: tokenized, put in postfix order, then evaluated.
pub open spec fn calculate_spec(s: Seq<char>) -> Result<ValueV, Error> {
    match tokenize_spec(s) {
        Err(e) => Err(Error::Lex(e)),
        Ok(ts) => match compile_spec(ts) {
            Err(e) => Err(Error::Compile(e)),
            Ok(rpn) => match eval_spec(rpn) {
                Ok(v) => Ok(v),
                Err(e) => Err(Error::Eval(e)),
            },
        },
    }
}

pub open spec fn render_spec(ts: Seq<crate::token::TokenV>, mode: RenderMode) -> Result<Seq<char>, EvalError> {
    match mode {
        RenderMode::Postfix => Ok(join_lexemes(ts)),
        RenderMode::Infix => infix_spec(ts),
    }
}

/// The value of a postfix expression.
pub fn evaluate(expr: &Expression) -> (r: Result<Value, EvalError>)
    ensures
        lift_value(r) == eval_spec(expr@),
{
    expr.solve()
}

/// A postfix expression written as postfix or as infix text.
pub fn render(expr: &Expression, mode: RenderMode) -> (r: Result<String, EvalError>)
    ensures
        lift_text(r) == render_spec(expr@, mode),
{
    match mode {
        RenderMode::Postfix => Ok(expr.render_postfix()),
        RenderMode::Infix => expr.render_infix(),
    }
}

/// The value of a text, or the first stage's failure.
pub fn calculate(text: &str) -> (r: Result<Value, Error>)
    ensures
        match r {
            Ok(v) => calculate_spec(text@) == Ok::<ValueV, Error>(v@),
            Err(e) => calculate_spec(text@) == Err::<ValueV, Error>(e),
        },
{
    let tokens = match tokenize(text) {
        Ok(ts) => ts,
        Err(e) => return Err(Error::Lex(e)),
    };
    let expr = match compile(&tokens) {
        Ok(x) => x,
        Err(e) => return Err(Error::Compile(e)),
    };
    match expr.solve() {
        Ok(v) => Ok(v),
        Err(e) => Err(Error::Eval(e)),
    }
}

} // verus!
