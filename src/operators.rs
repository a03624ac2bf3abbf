use vstd::prelude::*;

use crate::error::{EvalError, LexError};
use crate::number::{
    lift, rat, rat_add, rat_cross, rat_div, rat_mul, rat_neg, rat_pow, rat_sub, Number, Rational,
};
use crate::lexer::chars_of;
use crate::token::{Token, TokenKind};

verus! {

/// What an operator does.
#[derive(Debug, Clone, Copy, PartialEq, Eq, Structural)]
pub enum OperatorKind {
    Exp,
    Product,
    Quotient,
    Difference,
    Sum,
    Negate,
    Positive,
    LogicalOr,
    LogicalAnd,
    LogicalNot,
    Equals,
    Different,
    GreaterThan,
    GreaterThanEqual,
    LessThan,
    LessThanEqual,
}

/// Binding strength: a higher value binds tighter. Unary plus and minus bind
/// tighter than every binary operator; comparisons bind loosest.
pub open spec fn precedence_of(k: OperatorKind) -> u8 {
    match k {
        OperatorKind::Negate | OperatorKind::Positive => 5,
        OperatorKind::Exp | OperatorKind::LogicalNot => 4,
        OperatorKind::Product | OperatorKind::Quotient => 3,
        OperatorKind::LogicalOr | OperatorKind::LogicalAnd => 3,
        OperatorKind::Difference | OperatorKind::Sum => 2,
        _ => 1,
    }
}

pub open spec fn arity_of(k: OperatorKind) -> u8 {
    match k {
        OperatorKind::Negate | OperatorKind::Positive | OperatorKind::LogicalNot => 1,
        _ => 2,
    }
}

pub open spec fn is_comparison(k: OperatorKind) -> bool {
    match k {
        OperatorKind::Equals | OperatorKind::Different | OperatorKind::GreaterThan
        | OperatorKind::GreaterThanEqual | OperatorKind::LessThan
        | OperatorKind::LessThanEqual => true,
        _ => false,
    }
}

pub open spec fn is_logical_kind(k: OperatorKind) -> bool {
    match k {
        OperatorKind::LogicalOr | OperatorKind::LogicalAnd | OperatorKind::LogicalNot => true,
        _ => is_comparison(k),
    }
}

/// The canonical spelling, used when tokens are rendered.
pub open spec fn spelling_of(k: OperatorKind) -> Seq<char> {
    match k {
        OperatorKind::Exp => seq!['^'],
        OperatorKind::Product => seq!['*'],
        OperatorKind::Quotient => seq!['/'],
        OperatorKind::Difference | OperatorKind::Negate => seq!['-'],
        OperatorKind::Sum | OperatorKind::Positive => seq!['+'],
        OperatorKind::LogicalOr => seq!['|', '|'],
        OperatorKind::LogicalAnd => seq!['&', '&'],
        OperatorKind::LogicalNot => seq!['!'],
        OperatorKind::Equals => seq!['=', '='],
        OperatorKind::Different => seq!['!', '='],
        OperatorKind::GreaterThan => seq!['>'],
        OperatorKind::GreaterThanEqual => seq!['>', '='],
        OperatorKind::LessThan => seq!['<'],
        OperatorKind::LessThanEqual => seq!['<', '='],
    }
}

pub open spec fn one_char_kind(c: char) -> Option<OperatorKind> {
    if c == '+' {
        Some(OperatorKind::Sum)
    } else if c == '-' {
        Some(OperatorKind::Difference)
    } else if c == '*' {
        Some(OperatorKind::Product)
    } else if c == '/' {
        Some(OperatorKind::Quotient)
    } else if c == '^' {
        Some(OperatorKind::Exp)
    } else if c == '!' {
        Some(OperatorKind::LogicalNot)
    } else if c == '>' {
        Some(OperatorKind::GreaterThan)
    } else if c == '<' {
        Some(OperatorKind::LessThan)
    } else {
        None
    }
}

pub open spec fn two_char_kind(a: char, b: char) -> Option<OperatorKind> {
    if a == '*' && b == '*' {
        Some(OperatorKind::Exp)
    } else if a == '&' && b == '&' {
        Some(OperatorKind::LogicalAnd)
    } else if a == '|' && b == '|' {
        Some(OperatorKind::LogicalOr)
    } else if a == '=' && b == '=' {
        Some(OperatorKind::Equals)
    } else if a == '!' && b == '=' {
        Some(OperatorKind::Different)
    } else if a == '>' && b == '=' {
        Some(OperatorKind::GreaterThanEqual)
    } else if a == '<' && b == '=' {
        Some(OperatorKind::LessThanEqual)
    } else {
        None
    }
}

/// The operator that a spelling names, matched exactly: `+ - * / ^ ** ! && || == != > >= < <=`.
/// `+` and `-` name the binary forms.
pub open spec fn lookup_kind(s: Seq<char>) -> Option<OperatorKind> {
    if s.len() == 1 {
        one_char_kind(s[0])
    } else if s.len() == 2 {
        two_char_kind(s[0], s[1])
    } else {
        None
    }
}

/// An operator is read as unary unless a numeric literal or a closing
/// parenthesis comes right before it.
pub open spec fn unary_after(previous: Option<TokenKind>) -> bool {
    match previous {
        Some(k) => !(k is NumericLiteral) && !(k is ClosingParenthesis),
        None => true,
    }
}

/// Plus and minus switch between their unary and binary forms; every other
/// operator keeps its arity.
pub open spec fn corrected_kind(k: OperatorKind, unary: bool) -> OperatorKind {
    match k {
        OperatorKind::Difference => if unary { OperatorKind::Negate } else { k },
        OperatorKind::Sum => if unary { OperatorKind::Positive } else { k },
        OperatorKind::Negate => if unary { k } else { OperatorKind::Difference },
        OperatorKind::Positive => if unary { k } else { OperatorKind::Sum },
        _ => k,
    }
}

pub open spec fn arith_2(k: OperatorKind, left: Rational, right: Rational) -> Result<Rational, EvalError> {
    match k {
        OperatorKind::Exp => rat_pow(left, right),
        OperatorKind::Product => Ok(rat_mul(left, right)),
        OperatorKind::Quotient => rat_div(left, right),
        OperatorKind::Difference => Ok(rat_sub(left, right)),
        OperatorKind::Sum => Ok(rat_add(left, right)),
        _ => Ok(rat(0, 1)),
    }
}

pub open spec fn arith_1(k: OperatorKind, operand: Rational) -> Result<Rational, EvalError> {
    match k {
        OperatorKind::Negate => Ok(rat_neg(operand)),
        OperatorKind::Positive => Ok(operand),
        _ => Ok(rat(0, 1)),
    }
}

/// Logical operators on truth values; `false` orders before `true`.
pub open spec fn logic_2(k: OperatorKind, left: bool, right: bool) -> bool {
    match k {
        OperatorKind::LogicalOr => left || right,
        OperatorKind::LogicalAnd => left && right,
        OperatorKind::Equals => left == right,
        OperatorKind::Different => left != right,
        OperatorKind::GreaterThan => left && !right,
        OperatorKind::GreaterThanEqual => left || !right,
        OperatorKind::LessThan => !left && right,
        OperatorKind::LessThanEqual => !left || right,
        _ => true,
    }
}

pub open spec fn logic_1(k: OperatorKind, operand: bool) -> bool {
    match k {
        OperatorKind::LogicalNot => !operand,
        _ => true,
    }
}

pub open spec fn compare_ints(k: OperatorKind, x: int, y: int) -> bool {
    match k {
        OperatorKind::Equals => x == y,
        OperatorKind::Different => x != y,
        OperatorKind::GreaterThan => x > y,
        OperatorKind::GreaterThanEqual => x >= y,
        OperatorKind::LessThan => x < y,
        OperatorKind::LessThanEqual => x <= y,
        _ => true,
    }
}

/// Comparisons of two numbers, by their cross products.
pub open spec fn compare_numbers(k: OperatorKind, left: Rational, right: Rational) -> bool {
    if is_comparison(k) {
        compare_ints(k, rat_cross(left, right).0, rat_cross(left, right).1)
    } else {
        true
    }
}

/// An operator: its kind, with the precedence and arity that the kind fixes.
#[derive(Debug, Clone, Copy, PartialEq, Eq, Structural)]
pub struct Operator {
    kind: OperatorKind,
    precedence: u8,
    arity: u8,
}

impl View for Operator {
    type V = OperatorKind;

    closed spec fn view(&self) -> OperatorKind {
        self.kind
    }
}

/// The operator of a kind, with the precedence and arity that it fixes.
pub closed spec fn op_of(k: OperatorKind) -> Operator {
    Operator { kind: k, precedence: precedence_of(k), arity: arity_of(k) }
}

pub broadcast proof fn lemma_op_of_kind(k: OperatorKind)
    ensures
        #[trigger] op_of(k)@ == k,
{
}

/// Plus and minus read as unary exactly where `unary_after` says so, and
/// switching between the forms keeps the spelling; every other operator
/// keeps its kind.
pub proof fn lemma_arity_resolution(k: OperatorKind, previous: Option<TokenKind>)
    ensures
        ({
            let r = corrected_kind(k, unary_after(previous));
            &&& spelling_of(r) == spelling_of(k)
            &&& (k is Sum || k is Difference || k is Positive || k is Negate) ==> (arity_of(r) == 1
                <==> unary_after(previous))
            &&& !(k is Sum || k is Difference || k is Positive || k is Negate) ==> r == k
        }),
{
}

impl Operator {
    #[verifier::type_invariant]
    spec fn inv(&self) -> bool {
        self.precedence == precedence_of(self.kind) && self.arity == arity_of(self.kind)
    }

    /// The operator of the given kind.
    pub fn of_kind(kind: OperatorKind) -> (r: Operator)
        ensures
            r == op_of(kind),
            r@ == kind,
    {
        let (precedence, arity): (u8, u8) = match kind {
            OperatorKind::Negate | OperatorKind::Positive => (5, 1),
            OperatorKind::LogicalNot => (4, 1),
            OperatorKind::Exp => (4, 2),
            OperatorKind::Product | OperatorKind::Quotient => (3, 2),
            OperatorKind::LogicalOr | OperatorKind::LogicalAnd => (3, 2),
            OperatorKind::Difference | OperatorKind::Sum => (2, 2),
            _ => (1, 2),
        };
        Operator { kind, precedence, arity }
    }

    pub fn kind(&self) -> (r: OperatorKind)
        ensures
            r == self@,
    {
        self.kind
    }

    pub fn arity(&self) -> (r: u8)
        ensures
            r == arity_of(self@),
    {
        proof {
            use_type_invariant(self);
        }
        self.arity
    }

    pub fn precedence(&self) -> (r: u8)
        ensures
            r == precedence_of(self@),
    {
        proof {
            use_type_invariant(self);
        }
        self.precedence
    }

    /// The operator that a spelling of characters names, if any.
    pub fn lookup(s: &Vec<char>) -> (r: Option<Operator>)
        ensures
            r is Some <==> lookup_kind(s@) is Some,
            r matches Some(o) ==> lookup_kind(s@) == Some(o@) && o == op_of(o@),
    {
        let kind = if s.len() == 1 {
            let c = s[0];
            if c == '+' {
                Some(OperatorKind::Sum)
            } else if c == '-' {
                Some(OperatorKind::Difference)
            } else if c == '*' {
                Some(OperatorKind::Product)
            } else if c == '/' {
                Some(OperatorKind::Quotient)
            } else if c == '^' {
                Some(OperatorKind::Exp)
            } else if c == '!' {
                Some(OperatorKind::LogicalNot)
            } else if c == '>' {
                Some(OperatorKind::GreaterThan)
            } else if c == '<' {
                Some(OperatorKind::LessThan)
            } else {
                None
            }
        } else if s.len() == 2 {
            let a = s[0];
            let b = s[1];
            if a == '*' && b == '*' {
                Some(OperatorKind::Exp)
            } else if a == '&' && b == '&' {
                Some(OperatorKind::LogicalAnd)
            } else if a == '|' && b == '|' {
                Some(OperatorKind::LogicalOr)
            } else if a == '=' && b == '=' {
                Some(OperatorKind::Equals)
            } else if a == '!' && b == '=' {
                Some(OperatorKind::Different)
            } else if a == '>' && b == '=' {
                Some(OperatorKind::GreaterThanEqual)
            } else if a == '<' && b == '=' {
                Some(OperatorKind::LessThanEqual)
            } else {
                None
            }
        } else {
            None
        };
        match kind {
            Some(k) => Some(Operator::of_kind(k)),
            None => None,
        }
    }

    /// The operator that a spelling names; any other spelling is an
    /// unknown operator.
    pub fn from(str: &String) -> (r: Result<Operator, LexError>)
        ensures
            r is Ok <==> lookup_kind(str@) is Some,
            r matches Ok(o) ==> lookup_kind(str@) == Some(o@) && o == op_of(o@),
            r is Err ==> r == Err::<Operator, LexError>(LexError::UnknownOperator),
    {
        let chars = chars_of(str.as_str());
        match Operator::lookup(&chars) {
            Some(o) => Ok(o),
            None => Err(LexError::UnknownOperator),
        }
    }

    /// Re-reads plus and minus as unary or binary from the token before them.
    pub fn correct_arity(self, previous: &Option<Token>) -> (r: Operator)
        ensures
            r == op_of(corrected_kind(self@, unary_after(Token::kind_of(*previous)))),
            r@ == corrected_kind(self@, unary_after(Token::kind_of(*previous))),
    {
        let unary = match previous {
            Some(p) => {
                let k = p.kind();
                !(matches!(k, TokenKind::NumericLiteral)) && !(matches!(k, TokenKind::ClosingParenthesis))
            },
            None => true,
        };
        let kind = match self.kind {
            OperatorKind::Difference => if unary { OperatorKind::Negate } else { self.kind },
            OperatorKind::Sum => if unary { OperatorKind::Positive } else { self.kind },
            OperatorKind::Negate => if unary { self.kind } else { OperatorKind::Difference },
            OperatorKind::Positive => if unary { self.kind } else { OperatorKind::Sum },
            _ => self.kind,
        };
        Operator::of_kind(kind)
    }

    pub fn is_logical(&self) -> (r: bool)
        ensures
            r == is_logical_kind(self@),
    {
        match self.kind {
            OperatorKind::LogicalOr | OperatorKind::LogicalAnd | OperatorKind::LogicalNot
            | OperatorKind::Equals | OperatorKind::Different | OperatorKind::GreaterThan
            | OperatorKind::GreaterThanEqual | OperatorKind::LessThan
            | OperatorKind::LessThanEqual => true,
            _ => false,
        }
    }

    pub fn is_comparison(&self) -> (r: bool)
        ensures
            r == is_comparison(self@),
    {
        match self.kind {
            OperatorKind::Equals | OperatorKind::Different | OperatorKind::GreaterThan
            | OperatorKind::GreaterThanEqual | OperatorKind::LessThan
            | OperatorKind::LessThanEqual => true,
            _ => false,
        }
    }

    /// Binary arithmetic; a kind that is not arithmetic gives zero.
    pub fn compute_2(&self, left: &Number, right: &Number) -> (r: Result<Number, EvalError>)
        ensures
            lift(r) == arith_2(self@, left@, right@),
    {
        match self.kind {
            OperatorKind::Exp => left.pow(right),
            OperatorKind::Product => Ok(left.mul(right)),
            OperatorKind::Quotient => left.div(right),
            OperatorKind::Difference => Ok(left.sub(right)),
            OperatorKind::Sum => Ok(left.add(right)),
            _ => Ok(Number::integer(0)),
        }
    }

    /// Binary logic on truth values; a kind that is not logical gives `true`.
    pub fn logical_compute_2(&self, left: bool, right: bool) -> (r: bool)
        ensures
            r == logic_2(self@, left, right),
    {
        match self.kind {
            OperatorKind::LogicalOr => left || right,
            OperatorKind::LogicalAnd => left && right,
            OperatorKind::Equals => left == right,
            OperatorKind::Different => left != right,
            OperatorKind::GreaterThan => left && !right,
            OperatorKind::GreaterThanEqual => left || !right,
            OperatorKind::LessThan => !left && right,
            OperatorKind::LessThanEqual => !left || right,
            _ => true,
        }
    }

    /// Unary arithmetic; a kind that is not arithmetic gives zero.
    pub fn compute_1(&self, operand: &Number) -> (r: Result<Number, EvalError>)
        ensures
            lift(r) == arith_1(self@, operand@),
    {
        match self.kind {
            OperatorKind::Negate => Ok(operand.neg()),
            OperatorKind::Positive => Ok(operand.clone()),
            _ => Ok(Number::integer(0)),
        }
    }

    /// Unary logic; a kind other than logical not gives `true`.
    pub fn logical_compute_1(&self, operand: bool) -> (r: bool)
        ensures
            r == logic_1(self@, operand),
    {
        match self.kind {
            OperatorKind::LogicalNot => !operand,
            _ => true,
        }
    }

    /// A comparison of two numbers; a kind that is no comparison gives `true`.
    pub fn compare_2(&self, left: &Number, right: &Number) -> (r: bool)
        ensures
            r == compare_numbers(self@, left@, right@),
    {
        if !self.is_comparison() {
            return true;
        }
        let (x, y) = left.cross(right);
        match self.kind {
            OperatorKind::Equals => x.equal(&y),
            OperatorKind::Different => !x.equal(&y),
            OperatorKind::GreaterThan => y.less(&x),
            OperatorKind::GreaterThanEqual => !x.less(&y),
            OperatorKind::LessThan => x.less(&y),
            _ => !y.less(&x),
        }
    }

    /// The canonical spelling of this operator.
    pub fn spelling(&self) -> (r: &'static str)
        ensures
            r@ == spelling_of(self@),
    {
        match self.kind {
            OperatorKind::Exp => {
                proof { reveal_strlit("^"); }
                "^"
            },
            OperatorKind::Product => {
                proof { reveal_strlit("*"); }
                "*"
            },
            OperatorKind::Quotient => {
                proof { reveal_strlit("/"); }
                "/"
            },
            OperatorKind::Difference | OperatorKind::Negate => {
                proof { reveal_strlit("-"); }
                "-"
            },
            OperatorKind::Sum | OperatorKind::Positive => {
                proof { reveal_strlit("+"); }
                "+"
            },
            OperatorKind::LogicalOr => {
                proof { reveal_strlit("||"); }
                "||"
            },
            OperatorKind::LogicalAnd => {
                proof { reveal_strlit("&&"); }
                "&&"
            },
            OperatorKind::LogicalNot => {
                proof { reveal_strlit("!"); }
                "!"
            },
            OperatorKind::Equals => {
                proof { reveal_strlit("=="); }
                "=="
            },
            OperatorKind::Different => {
                proof { reveal_strlit("!="); }
                "!="
            },
            OperatorKind::GreaterThan => {
                proof { reveal_strlit(">"); }
                ">"
            },
            OperatorKind::GreaterThanEqual => {
                proof { reveal_strlit(">="); }
                ">="
            },
            OperatorKind::LessThan => {
                proof { reveal_strlit("<"); }
                "<"
            },
            OperatorKind::LessThanEqual => {
                proof { reveal_strlit("<="); }
                "<="
            },
        }
    }
}

} // verus!
