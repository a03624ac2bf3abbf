use vstd::prelude::*;

use crate::keywords::Keyword;
use crate::number::{Number, Rational};
use crate::operators::Operator;

verus! {

/// The class of a token; exactly one applies at a time.
#[derive(Debug, Clone, Copy, PartialEq, Eq, Structural)]
pub enum TokenKind {
    NumericLiteral,
    StringLiteral,
    Symbol,
    Operator(Operator),
    Separator,
    OpeningParenthesis,
    ClosingParenthesis,
    OpeningScope,
    ClosingScope,
    EndOfStatement,
    Keyword(Keyword),
    Unknown,
}

/// What a token holds: its kind, its exact numeric value (numeric literals
/// only) and its spelling.
pub ghost struct TokenV {
    pub kind: TokenKind,
    pub value: Option<Rational>,
    pub lexeme: Seq<char>,
}

/// A value is present exactly on numeric literals.
pub open spec fn wf_token(t: TokenV) -> bool {
    (t.kind is NumericLiteral) == (t.value is Some)
}

pub open spec fn number_view(v: Option<Number>) -> Option<Rational> {
    match v {
        Some(n) => Some(n@),
        None => None,
    }
}

/// The smallest classified unit of the input text.
#[derive(Debug)]
pub struct Token {
    kind: TokenKind,
    value: Option<Number>,
    id: String,
}

impl View for Token {
    type V = TokenV;

    closed spec fn view(&self) -> TokenV {
        TokenV { kind: self.kind, value: number_view(self.value), lexeme: self.id@ }
    }
}

impl Clone for Token {
    fn clone(&self) -> (r: Token)
        ensures
            r@ == self@,
    {
        proof {
            use_type_invariant(self);
        }
        let value = match &self.value {
            Some(n) => Some(n.clone()),
            None => None,
        };
        Token { kind: self.kind, value, id: self.id.clone() }
    }
}

impl Token {
    #[verifier::type_invariant]
    spec fn inv(&self) -> bool {
        (self.kind is NumericLiteral) == (self.value is Some)
    }

    /// The kind of the token in an optional slot.
    pub open spec fn kind_of(t: Option<Token>) -> Option<TokenKind> {
        match t {
            Some(t) => Some(t@.kind),
            None => None,
        }
    }

    pub fn kind(&self) -> (r: TokenKind)
        ensures
            r == self@.kind,
    {
        self.kind
    }

    /// Re-tags the token; whether it is a numeric literal cannot change.
    pub fn update_kind(&mut self, new_kind: TokenKind)
        requires
            (new_kind is NumericLiteral) == (old(self)@.kind is NumericLiteral),
        ensures
            final(self)@ == (TokenV { kind: new_kind, ..old(self)@ }),
    {
        proof {
            use_type_invariant(&*self);
        }
        self.kind = new_kind;
    }

    pub fn value(&self) -> (r: Option<Number>)
        ensures
            number_view(r) == self@.value,
            wf_token(self@),
    {
        proof {
            use_type_invariant(self);
        }
        match &self.value {
            Some(n) => Some(n.clone()),
            None => None,
        }
    }

    pub fn as_string(&self) -> (r: String)
        ensures
            r@ == self@.lexeme,
    {
        self.id.clone()
    }

    /// A numeric literal with its spelling and exact value.
    pub fn numeric(id: String, value: Number) -> (r: Token)
        ensures
            r@ == (TokenV { kind: TokenKind::NumericLiteral, value: Some(value@), lexeme: id@ }),
    {
        Token { kind: TokenKind::NumericLiteral, value: Some(value), id }
    }

    /// A token of any kind but a numeric literal.
    pub fn plain(kind: TokenKind, id: String) -> (r: Token)
        requires
            !(kind is NumericLiteral),
        ensures
            r@ == (TokenV { kind, value: None, lexeme: id@ }),
    {
        Token { kind, value: None, id }
    }

    /// An operator token, spelled canonically.
    pub fn from_operator(op: Operator) -> (r: Token)
        ensures
            r@ == (TokenV {
                kind: TokenKind::Operator(op),
                value: None,
                lexeme: crate::operators::spelling_of(op@),
            }),
    {
        let id = op.spelling().to_owned();
        Token { kind: TokenKind::Operator(op), value: None, id }
    }
}

} // verus!
