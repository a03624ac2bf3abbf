use exprcalc::error::LexError;
use exprcalc::keywords::Keyword;
use exprcalc::lexer::{tokenize, Lexer};
use exprcalc::operators::OperatorKind;
use exprcalc::bignat::BigNat;
use exprcalc::number::{BigInt, Number};
use exprcalc::token::{Token, TokenKind};

fn single(text: &str) -> Token {
    let mut tokens = tokenize(text).unwrap();
    assert_eq!(tokens.len(), 1);
    tokens.pop().unwrap()
}


fn nat_text(n: &BigNat) -> String {
    let text: String = n.digits().iter().rev().map(|d| char::from(b'0' + d)).collect();
    let trimmed = text.trim_start_matches('0');
    if trimmed.is_empty() {
        "0".to_string()
    } else {
        trimmed.to_string()
    }
}

fn int_text(n: &BigInt) -> String {
    let magnitude = nat_text(&n.magnitude());
    if n.is_negative() {
        format!("-{magnitude}")
    } else {
        magnitude
    }
}

fn parts(n: &Number) -> (i128, i128) {
    (int_text(&n.numerator()).parse().unwrap(), nat_text(&n.denominator()).parse().unwrap())
}

#[allow(dead_code)]
fn to_integer(n: &Number) -> Option<i128> {
    let (a, b) = parts(n);
    if a % b == 0 {
        Some(a / b)
    } else {
        None
    }
}

fn value_parts(t: &Token) -> (i128, i128) {
    parts(&t.value().unwrap())
}

fn lexemes(text: &str) -> Vec<String> {
    tokenize(text).unwrap().iter().map(|t| t.as_string()).collect()
}

#[test]
fn empty_input_is_rejected() {
    assert_eq!(tokenize("").unwrap_err(), LexError::EmptyInput);
    assert_eq!(Lexer::new(String::new()).parse().unwrap_err(), LexError::EmptyInput);
}

#[test]
fn whitespace_only_gives_no_tokens() {
    assert_eq!(tokenize(" \t\n").unwrap().len(), 0);
}

#[test]
fn decimal_literal_keeps_exact_value_and_text() {
    let t = single("12.34");
    assert_eq!(t.kind(), TokenKind::NumericLiteral);
    assert_eq!(value_parts(&t), (1234, 100));
    assert_eq!(t.as_string(), "12.34");
}

#[test]
fn decimal_literal_values() {
    assert_eq!(value_parts(&single("123")), (123, 1));
    assert_eq!(value_parts(&single("0.5")), (5, 10));
    assert_eq!(value_parts(&single("0")), (0, 1));
    assert_eq!(value_parts(&single("7.")), (7, 1));
    assert_eq!(value_parts(&single("1.250")), (1250, 1000));
}

#[test]
fn hex_and_binary_literals() {
    assert_eq!(value_parts(&single("0xFF")), (255, 1));
    assert_eq!(value_parts(&single("0x1a")), (26, 1));
    assert_eq!(value_parts(&single("0b101")), (5, 1));
    assert_eq!(value_parts(&single("0b11")), (3, 1));
    assert_eq!(single("0xFF").as_string(), "0xFF");
}

#[test]
fn prefix_without_digits_reads_as_zero() {
    assert_eq!(value_parts(&single("0x")), (0, 1));
    assert_eq!(value_parts(&single("0b")), (0, 1));
}

#[test]
fn hex_overflowing_u64_reads_as_zero() {
    assert_eq!(value_parts(&single("0xFFFFFFFFFFFFFFFF")), (18446744073709551615, 1));
    assert_eq!(value_parts(&single("0x10000000000000000")), (0, 1));
}

#[test]
fn malformed_numbers() {
    assert_eq!(tokenize("1.2.3").unwrap_err(), LexError::MalformedNumber);
    assert_eq!(tokenize("1a").unwrap_err(), LexError::MalformedNumber);
    assert_eq!(tokenize("0x1G").unwrap_err(), LexError::MalformedNumber);
    assert_eq!(tokenize("0b12").unwrap_err(), LexError::MalformedNumber);
    assert_eq!(tokenize("0x1.5").unwrap_err(), LexError::MalformedNumber);
}

#[test]
fn zero_must_continue_as_a_number() {
    assert_eq!(tokenize("0 + 1").unwrap_err(), LexError::MalformedNumber);
    assert_eq!(tokenize("0z").unwrap_err(), LexError::MalformedNumber);
    assert_eq!(tokenize("05").unwrap().len(), 1);
}

#[test]
fn long_decimal_literals_are_exact() {
    let text = "1234567890123456789012345678901234567890.5";
    let t = single(text);
    let n = t.value().unwrap();
    assert_eq!(int_text(&n.numerator()), "12345678901234567890123456789012345678905");
    assert_eq!(nat_text(&n.denominator()), "10");
    let ten_to_39 = format!("1{}", "0".repeat(39));
    let n = single(&ten_to_39).value().unwrap();
    assert_eq!(int_text(&n.numerator()), ten_to_39);
}

#[test]
fn balanced_parentheses_lex() {
    let tokens = tokenize("(1+2)").unwrap();
    let kinds: Vec<TokenKind> = tokens.iter().map(|t| t.kind()).collect();
    assert_eq!(kinds.len(), 5);
    assert_eq!(kinds[0], TokenKind::OpeningParenthesis);
    assert_eq!(kinds[4], TokenKind::ClosingParenthesis);
}

#[test]
fn unbalanced_brackets_fail() {
    assert_eq!(tokenize("(1+2").unwrap_err(), LexError::UnbalancedParentheses);
    assert_eq!(tokenize("1+2)").unwrap_err(), LexError::UnbalancedParentheses);
    assert_eq!(tokenize("{1").unwrap_err(), LexError::UnbalancedScope);
}

#[test]
fn reversed_brackets_balance_to_zero() {
    assert_eq!(tokenize(")(").unwrap().len(), 2);
}

#[test]
fn strings() {
    let t = single("\"a b\"");
    assert_eq!(t.kind(), TokenKind::StringLiteral);
    assert_eq!(t.as_string(), "a b");
    assert_eq!(tokenize("\"abc").unwrap_err(), LexError::UnterminatedString);
}

#[test]
fn operator_at_the_end_dangles() {
    assert_eq!(tokenize("3 +").unwrap_err(), LexError::DanglingOperator);
    assert_eq!(tokenize("3 + ").unwrap_err(), LexError::DanglingOperator);
}

#[test]
fn unknown_operator() {
    assert_eq!(tokenize("3 $ 4").unwrap_err(), LexError::UnknownOperator);
    assert_eq!(tokenize("3 = 4").unwrap_err(), LexError::UnknownOperator);
}

#[test]
fn operators_are_matched_greedily() {
    assert_eq!(lexemes("2**3"), vec!["2", "^", "3"]);
    assert_eq!(lexemes("1<=2"), vec!["1", "<=", "2"]);
    assert_eq!(lexemes("1!=2"), vec!["1", "!=", "2"]);
    assert_eq!(lexemes("3--5"), vec!["3", "-", "-", "5"]);
    assert_eq!(lexemes("!(1==2)"), vec!["!", "(", "1", "==", "2", ")"]);
    let tokens = tokenize("2 ** 3").unwrap();
    match tokens[1].kind() {
        TokenKind::Operator(o) => assert_eq!(o.kind(), OperatorKind::Exp),
        _ => panic!("expected an operator"),
    }
}

#[test]
fn symbols_keywords_and_punctuation() {
    let tokens = tokenize("foo_1, true; {x}").unwrap();
    let kinds: Vec<TokenKind> = tokens.iter().map(|t| t.kind()).collect();
    assert_eq!(kinds[0], TokenKind::Symbol);
    assert_eq!(tokens[0].as_string(), "foo_1");
    assert_eq!(kinds[1], TokenKind::Separator);
    assert_eq!(kinds[2], TokenKind::Keyword(Keyword::True));
    assert_eq!(kinds[3], TokenKind::EndOfStatement);
    assert_eq!(kinds[4], TokenKind::OpeningScope);
    assert_eq!(kinds[5], TokenKind::Symbol);
    assert_eq!(kinds[6], TokenKind::ClosingScope);
}

#[test]
fn unclassified_character_is_a_one_character_symbol() {
    let tokens = tokenize("é").unwrap();
    assert_eq!(tokens.len(), 1);
    assert_eq!(tokens[0].kind(), TokenKind::Symbol);
    assert_eq!(tokens[0].as_string(), "é");
}

#[test]
fn keyword_lookup() {
    assert_eq!(Keyword::new(&"fn".to_string()), Some(Keyword::Function));
    assert_eq!(Keyword::new(&"while".to_string()), Some(Keyword::While));
    assert_eq!(Keyword::new(&"whilst".to_string()), None);
}
