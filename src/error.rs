use vstd::prelude::*;

verus! {

/// Why a text could not be turned into tokens.
#[derive(Debug, Clone, Copy, PartialEq, Eq, Structural)]
pub enum LexError {
    /// There was no text at all.
    EmptyInput,
    /// A second decimal point, a digit run running into an identifier
    /// character, or a `0` followed by something that cannot continue a number.
    MalformedNumber,
    /// A string literal without its closing quote.
    UnterminatedString,
    /// An operator that no other token follows.
    DanglingOperator,
    /// A run of operator characters that spells no known operator.
    UnknownOperator,
    /// More opening than closing parentheses, or the reverse.
    UnbalancedParentheses,
    /// More opening than closing scope braces, or the reverse.
    UnbalancedScope,
}

/// Why a token sequence could not be put into postfix order.
#[derive(Debug, Clone, Copy, PartialEq, Eq, Structural)]
pub enum CompileError {
    /// A token kind that has no meaning in an arithmetic expression.
    UnsupportedToken,
    /// A closing parenthesis without an opener, or an opener left unclosed.
    UnmatchedParenthesis,
}

/// Why a postfix sequence could not be evaluated or rendered.
#[derive(Debug, Clone, Copy, PartialEq, Eq, Structural)]
pub enum EvalError {
    /// An operator found too few operands, or operands were left over.
    MalformedExpression,
    /// An operator was applied to values of the wrong domain.
    TypeMismatch,
    /// A quotient, or a negative power, of zero.
    DivisionByZero,
    /// An exponent that is not a whole number.
    NonIntegerExponent,
}

} // verus!
