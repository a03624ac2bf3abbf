use vstd::prelude::*;

verus! {

pub open spec fn space_char(c: char) -> bool {
    c == ' ' || c == '\t' || c == '\n' || c == '\r' || c == '\x0C'
}

pub open spec fn digit_char(c: char) -> bool {
    '0' as u32 <= c as u32 <= '9' as u32
}

/// A decimal digit or the decimal point.
pub open spec fn real_digit_char(c: char) -> bool {
    c == '.' || digit_char(c)
}

pub open spec fn hex_digit_char(c: char) -> bool {
    digit_char(c) || ('a' as u32 <= c as u32 <= 'f' as u32) || ('A' as u32 <= c as u32
        <= 'F' as u32)
}

pub open spec fn binary_digit_char(c: char) -> bool {
    c == '0' || c == '1'
}

pub open spec fn operator_char(c: char) -> bool {
    c == '!' || c == '$' || c == '%' || c == '^' || c == '&' || c == '*' || c == '+' || c == '-'
        || c == '=' || c == '#' || c == '@' || c == '?' || c == '|' || c == '`' || c == '/'
        || c == '\\' || c == '<' || c == '>' || c == '~'
}

/// A character that may continue an identifier: a letter, a digit or `_`.
pub open spec fn symbol_char(c: char) -> bool {
    ('a' as u32 <= c as u32 <= 'z' as u32) || ('A' as u32 <= c as u32 <= 'Z' as u32) || c == '_'
        || digit_char(c)
}

/// The value of a digit in base sixteen (and so in bases two and ten).
pub open spec fn digit_value(c: char) -> int {
    if digit_char(c) {
        c as u32 - '0' as u32
    } else if 'a' as u32 <= c as u32 <= 'f' as u32 {
        c as u32 - 'a' as u32 + 10
    } else {
        c as u32 - 'A' as u32 + 10
    }
}

pub fn is_whitespace(c: char) -> (r: bool)
    ensures
        r == space_char(c),
{
    c == ' ' || c == '\t' || c == '\n' || c == '\r' || c == '\x0C'
}

pub fn is_digit(c: char) -> (r: bool)
    ensures
        r == digit_char(c),
{
    let u = c as u32;
    '0' as u32 <= u && u <= '9' as u32
}

pub fn is_real_digit(c: char) -> (r: bool)
    ensures
        r == real_digit_char(c),
{
    c == '.' || is_digit(c)
}

pub fn is_hex_digit(c: char) -> (r: bool)
    ensures
        r == hex_digit_char(c),
{
    let u = c as u32;
    is_digit(c) || ('a' as u32 <= u && u <= 'f' as u32) || ('A' as u32 <= u && u <= 'F' as u32)
}

pub fn is_binary_digit(c: char) -> (r: bool)
    ensures
        r == binary_digit_char(c),
{
    c == '0' || c == '1'
}

pub fn is_operator_char(c: char) -> (r: bool)
    ensures
        r == operator_char(c),
{
    c == '!' || c == '$' || c == '%' || c == '^' || c == '&' || c == '*' || c == '+' || c == '-'
        || c == '=' || c == '#' || c == '@' || c == '?' || c == '|' || c == '`' || c == '/'
        || c == '\\' || c == '<' || c == '>' || c == '~'
}

pub fn is_symbol_char(c: char) -> (r: bool)
    ensures
        r == symbol_char(c),
{
    let u = c as u32;
    ('a' as u32 <= u && u <= 'z' as u32) || ('A' as u32 <= u && u <= 'Z' as u32) || c == '_'
        || is_digit(c)
}

pub fn value_of_digit(c: char) -> (r: u32)
    requires
        hex_digit_char(c),
    ensures
        r as int == digit_value(c),
        r < 16,
{
    let u = c as u32;
    if is_digit(c) {
        u - '0' as u32
    } else if 'a' as u32 <= u && u <= 'f' as u32 {
        u - 'a' as u32 + 10
    } else {
        u - 'A' as u32 + 10
    }
}

} // verus!
