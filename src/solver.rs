use vstd::prelude::*;

use crate::error::EvalError;
use crate::lexer::views;
use crate::number::{Number, Rational};
use crate::operators::{arith_1, arith_2, arity_of, compare_numbers, is_comparison, is_logical_kind, logic_1, logic_2, Operator, OperatorKind};
use crate::token::{Token, TokenKind, TokenV};

verus! {

/// The result of an evaluation: a number or a truth value.
#[derive(Debug)]
pub enum Value {
    Number(Number),
    Boolean(bool),
}

pub ghost enum ValueV {
    Num(Rational),
    Bool(bool),
}

impl View for Value {
    type V = ValueV;

    open spec fn view(&self) -> ValueV {
        match self {
            Value::Number(n) => ValueV::Num(n@),
            Value::Boolean(b) => ValueV::Bool(*b),
        }
    }
}

pub open spec fn lift_value(r: Result<Value, EvalError>) -> Result<ValueV, EvalError> {
    match r {
        Ok(v) => Ok(v@),
        Err(e) => Err(e),
    }
}

pub open spec fn lift_text(r: Result<String, EvalError>) -> Result<Seq<char>, EvalError> {
    match r {
        Ok(s) => Ok(s@),
        Err(e) => Err(e),
    }
}

/// A binary operator on two values. Logical operators take truth values,
/// and comparisons numbers too; arithmetic takes numbers only.
pub open spec fn apply_2(k: OperatorKind, left: ValueV, right: ValueV) -> Result<ValueV, EvalError> {
    if is_logical_kind(k) {
        match (left, right) {
            (ValueV::Bool(a), ValueV::Bool(b)) => Ok(ValueV::Bool(logic_2(k, a, b))),
            (ValueV::Num(a), ValueV::Num(b)) => if is_comparison(k) {
                Ok(ValueV::Bool(compare_numbers(k, a, b)))
            } else {
                Err(EvalError::TypeMismatch)
            },
            _ => Err(EvalError::TypeMismatch),
        }
    } else {
        match (left, right) {
            (ValueV::Num(a), ValueV::Num(b)) => match arith_2(k, a, b) {
                Ok(n) => Ok(ValueV::Num(n)),
                Err(e) => Err(e),
            },
            _ => Err(EvalError::TypeMismatch),
        }
    }
}

/// A unary operator on one value.
pub open spec fn apply_1(k: OperatorKind, operand: ValueV) -> Result<ValueV, EvalError> {
    if is_logical_kind(k) {
        match operand {
            ValueV::Bool(b) => Ok(ValueV::Bool(logic_1(k, b))),
            _ => Err(EvalError::TypeMismatch),
        }
    } else {
        match operand {
            ValueV::Num(a) => match arith_1(k, a) {
                Ok(n) => Ok(ValueV::Num(n)),
                Err(e) => Err(e),
            },
            _ => Err(EvalError::TypeMismatch),
        }
    }
}

/// Evaluates postfix tokens from position `i` on a value stack (top last).
/// Tokens other than literals and operators are passed over; the stack must
/// end with exactly one value.
pub open spec fn eval_from(ts: Seq<TokenV>, i: int, stack: Seq<ValueV>) -> Result<ValueV, EvalError>
    decreases ts.len() - i,
{
    if i < 0 || i >= ts.len() {
        if stack.len() == 1 {
            Ok(stack[0])
        } else {
            Err(EvalError::MalformedExpression)
        }
    } else {
        match ts[i].kind {
            TokenKind::NumericLiteral => match ts[i].value {
                Some(v) => eval_from(ts, i + 1, stack.push(ValueV::Num(v))),
                None => Err(EvalError::MalformedExpression),
            },
            TokenKind::Operator(o) => if arity_of(o@) == 2 {
                if stack.len() < 2 {
                    Err(EvalError::MalformedExpression)
                } else {
                    match apply_2(o@, stack[stack.len() - 2], stack.last()) {
                        Ok(v) => eval_from(ts, i + 1, stack.drop_last().drop_last().push(v)),
                        Err(e) => Err(e),
                    }
                }
            } else {
                if stack.len() < 1 {
                    Err(EvalError::MalformedExpression)
                } else {
                    match apply_1(o@, stack.last()) {
                        Ok(v) => eval_from(ts, i + 1, stack.drop_last().push(v)),
                        Err(e) => Err(e),
                    }
                }
            },
            _ => eval_from(ts, i + 1, stack),
        }
    }
}

pub open spec fn eval_spec(ts: Seq<TokenV>) -> Result<ValueV, EvalError> {
    eval_from(ts, 0, Seq::empty())
}

/// The spellings of the tokens, separated by single spaces.
pub open spec fn join_lexemes(ts: Seq<TokenV>) -> Seq<char>
    decreases ts.len(),
{
    if ts.len() == 0 {
        Seq::empty()
    } else if ts.len() == 1 {
        ts[0].lexeme
    } else {
        join_lexemes(ts.drop_last()) + seq![' '] + ts.last().lexeme
    }
}

/// `left op right`, in parentheses unless it is the outermost operation.
pub open spec fn combine(left: Seq<char>, op: Seq<char>, right: Seq<char>, outermost: bool) -> Seq<char> {
    let inner = left + seq![' '] + op + seq![' '] + right;
    if outermost {
        inner
    } else {
        seq!['('] + inner + seq![')']
    }
}

/// Replays evaluation on texts: the infix form of postfix tokens.
pub open spec fn infix_from(ts: Seq<TokenV>, i: int, stack: Seq<Seq<char>>) -> Result<Seq<char>, EvalError>
    decreases ts.len() - i,
{
    if i < 0 || i >= ts.len() {
        if stack.len() == 1 {
            Ok(stack[0])
        } else {
            Err(EvalError::MalformedExpression)
        }
    } else {
        match ts[i].kind {
            TokenKind::NumericLiteral => infix_from(ts, i + 1, stack.push(ts[i].lexeme)),
            TokenKind::Operator(o) => if arity_of(o@) == 2 {
                if stack.len() < 2 {
                    Err(EvalError::MalformedExpression)
                } else {
                    let text = combine(
                        stack[stack.len() - 2],
                        ts[i].lexeme,
                        stack.last(),
                        i == ts.len() - 1,
                    );
                    infix_from(ts, i + 1, stack.drop_last().drop_last().push(text))
                }
            } else {
                if stack.len() < 1 {
                    Err(EvalError::MalformedExpression)
                } else {
                    infix_from(ts, i + 1, stack.drop_last().push(ts[i].lexeme + stack.last()))
                }
            },
            _ => infix_from(ts, i + 1, stack),
        }
    }
}

pub open spec fn infix_spec(ts: Seq<TokenV>) -> Result<Seq<char>, EvalError> {
    infix_from(ts, 0, Seq::empty())
}

pub open spec fn value_views(vs: Seq<Value>) -> Seq<ValueV> {
    vs.map_values(|v: Value| v@)
}

pub open spec fn text_views(vs: Seq<String>) -> Seq<Seq<char>> {
    vs.map_values(|v: String| v@)
}

/// A postfix token sequence, ready to be evaluated or rendered.
#[derive(Debug)]
pub struct Expression {
    rpn: Vec<Token>,
}

impl View for Expression {
    type V = Seq<TokenV>;

    closed spec fn view(&self) -> Seq<TokenV> {
        views(self.rpn@)
    }
}

fn apply_binary(op: &Operator, left: Value, right: Value) -> (r: Result<Value, EvalError>)
    ensures
        lift_value(r) == apply_2(op@, left@, right@),
{
    if op.is_logical() {
        match (left, right) {
            (Value::Boolean(a), Value::Boolean(b)) => Ok(Value::Boolean(op.logical_compute_2(a, b))),
            (Value::Number(a), Value::Number(b)) => {
                if op.is_comparison() {
                    Ok(Value::Boolean(op.compare_2(&a, &b)))
                } else {
                    Err(EvalError::TypeMismatch)
                }
            },
            _ => Err(EvalError::TypeMismatch),
        }
    } else {
        match (left, right) {
            (Value::Number(a), Value::Number(b)) => match op.compute_2(&a, &b) {
                Ok(n) => Ok(Value::Number(n)),
                Err(e) => Err(e),
            },
            _ => Err(EvalError::TypeMismatch),
        }
    }
}

fn apply_unary(op: &Operator, operand: Value) -> (r: Result<Value, EvalError>)
    ensures
        lift_value(r) == apply_1(op@, operand@),
{
    if op.is_logical() {
        match operand {
            Value::Boolean(b) => Ok(Value::Boolean(op.logical_compute_1(b))),
            _ => Err(EvalError::TypeMismatch),
        }
    } else {
        match operand {
            Value::Number(a) => match op.compute_1(&a) {
                Ok(n) => Ok(Value::Number(n)),
                Err(e) => Err(e),
            },
            _ => Err(EvalError::TypeMismatch),
        }
    }
}

/// `a`, a space, then `b`.
fn spaced(a: &String, b: &String) -> (r: String)
    ensures
        r@ == a@ + seq![' '] + b@,
{
    let mut r = a.clone();
    proof {
        reveal_strlit(" ");
    }
    r.append(" ");
    r.append(b.as_str());
    proof {
        assert(r@ =~= a@ + seq![' '] + b@);
    }
    r
}

impl Expression {
    pub fn new(rpn: Vec<Token>) -> (r: Expression)
        ensures
            r@ == views(rpn@),
    {
        Expression { rpn }
    }

    /// The postfix tokens, in order.
    pub fn tokens(&self) -> (r: &Vec<Token>)
        ensures
            views(r@) == self@,
    {
        &self.rpn
    }

    /// Evaluates the postfix sequence with a value stack.
    pub fn solve(&self) -> (r: Result<Value, EvalError>)
        ensures
            lift_value(r) == eval_spec(self@),
    {
        let ghost ts = self@;
        let mut stack: Vec<Value> = Vec::new();
        proof {
            assert(value_views(stack@) =~= Seq::<ValueV>::empty());
        }
        let mut i: usize = 0;
        while i < self.rpn.len()
            invariant
                i <= self.rpn.len(),
                ts == views(self.rpn@),
                eval_spec(ts) == eval_from(ts, i as int, value_views(stack@)),
            decreases self.rpn.len() - i,
        {
            let token = &self.rpn[i];
            let ghost before = value_views(stack@);
            match token.kind() {
                TokenKind::NumericLiteral => {
                    match token.value() {
                        Some(v) => {
                            stack.push(Value::Number(v));
                            proof {
                                assert(value_views(stack@) =~= before.push(ValueV::Num(v@)));
                            }
                        },
                        None => {
                            return Err(EvalError::MalformedExpression);
                        },
                    }
                },
                TokenKind::Operator(o) => {
                    if o.arity() == 2 {
                        if stack.len() < 2 {
                            return Err(EvalError::MalformedExpression);
                        }
                        let right = stack.pop().unwrap();
                        let left = stack.pop().unwrap();
                        match apply_binary(&o, left, right) {
                            Ok(v) => {
                                stack.push(v);
                                proof {
                                    assert(value_views(stack@) =~= before.drop_last().drop_last().push(v@));
                                }
                            },
                            Err(e) => {
                                return Err(e);
                            },
                        }
                    } else {
                        if stack.len() < 1 {
                            return Err(EvalError::MalformedExpression);
                        }
                        let operand = stack.pop().unwrap();
                        match apply_unary(&o, operand) {
                            Ok(v) => {
                                stack.push(v);
                                proof {
                                    assert(value_views(stack@) =~= before.drop_last().push(v@));
                                }
                            },
                            Err(e) => {
                                return Err(e);
                            },
                        }
                    }
                },
                _ => {},
            }
            i = i + 1;
        }
        if stack.len() == 1 {
            let v = stack.pop().unwrap();
            Ok(v)
        } else {
            Err(EvalError::MalformedExpression)
        }
    }

    /// The spellings of the postfix tokens, separated by single spaces.
    pub fn render_postfix(&self) -> (r: String)
        ensures
            r@ == join_lexemes(self@),
    {
        let ghost ts = self@;
        let mut r = String::new();
        let mut i: usize = 0;
        while i < self.rpn.len()
            invariant
                i <= self.rpn.len(),
                ts == views(self.rpn@),
                r@ == join_lexemes(ts.take(i as int)),
            decreases self.rpn.len() - i,
        {
            let word = self.rpn[i].as_string();
            proof {
                assert(ts.take(i as int + 1).drop_last() =~= ts.take(i as int));
            }
            if i == 0 {
                r = word;
                proof {
                    assert(r@ == join_lexemes(ts.take(1)));
                }
            } else {
                r = spaced(&r, &word);
            }
            i = i + 1;
        }
        proof {
            assert(ts.take(i as int) =~= ts);
        }
        r
    }

    /// The infix form of the postfix sequence, with every operation but the
    /// outermost in parentheses.
    pub fn render_infix(&self) -> (r: Result<String, EvalError>)
        ensures
            lift_text(r) == infix_spec(self@),
    {
        let ghost ts = self@;
        let n = self.rpn.len();
        let mut stack: Vec<String> = Vec::new();
        proof {
            assert(text_views(stack@) =~= Seq::<Seq<char>>::empty());
        }
        let mut i: usize = 0;
        while i < n
            invariant
                i <= n,
                n == self.rpn.len(),
                ts == views(self.rpn@),
                infix_spec(ts) == infix_from(ts, i as int, text_views(stack@)),
            decreases n - i,
        {
            let token = &self.rpn[i];
            let ghost before = text_views(stack@);
            match token.kind() {
                TokenKind::NumericLiteral => {
                    let word = token.as_string();
                    let ghost w = word@;
                    stack.push(word);
                    proof {
                        assert(text_views(stack@) =~= before.push(w));
                    }
                },
                TokenKind::Operator(o) => {
                    if o.arity() == 2 {
                        if stack.len() < 2 {
                            return Err(EvalError::MalformedExpression);
                        }
                        let right = stack.pop().unwrap();
                        let left = stack.pop().unwrap();
                        let op = token.as_string();
                        let inner = spaced(&spaced(&left, &op), &right);
                        let text = if i == n - 1 {
                            inner
                        } else {
                            let mut t = String::new();
                            proof {
                                reveal_strlit("(");
                                reveal_strlit(")");
                            }
                            t.append("(");
                            t.append(inner.as_str());
                            t.append(")");
                            t
                        };
                        proof {
                            assert(text@ =~= combine(left@, op@, right@, i == n - 1));
                        }
                        let ghost tv = text@;
                        stack.push(text);
                        proof {
                            assert(text_views(stack@) =~= before.drop_last().drop_last().push(tv));
                        }
                    } else {
                        if stack.len() < 1 {
                            return Err(EvalError::MalformedExpression);
                        }
                        let operand = stack.pop().unwrap();
                        let mut text = token.as_string();
                        text.append(operand.as_str());
                        let ghost tv = text@;
                        stack.push(text);
                        proof {
                            assert(text_views(stack@) =~= before.drop_last().push(tv));
                        }
                    }
                },
                _ => {},
            }
            i = i + 1;
        }
        if stack.len() == 1 {
            let r = stack.pop().unwrap();
            Ok(r)
        } else {
            Err(EvalError::MalformedExpression)
        }
    }
}

} // verus!
