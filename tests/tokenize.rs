use mini_compiler::token::Token;
use mini_compiler::tokenize::{
    parse_identifier_or_keyword, parse_minus, parse_number, parse_plus, tokenize, LexError,
};

fn chars(s: &str) -> Vec<char> {
    s.chars().collect()
}

#[test]
fn parses_decrement() {
    let result = parse_minus(&chars("--"), 0).unwrap();
    assert_eq!(result.0, Token::Decrement);
    assert_eq!(result.1, 2);
}

#[test]
fn parses_negative_number() {
    let result = parse_minus(&chars("-123"), 0).unwrap();
    assert_eq!(result.0, Token::Number(-123));
    assert_eq!(result.1, 4);
}

#[test]
fn tokenize_fails_on_invalid_token() {
    assert!(parse_minus(&chars("-+"), 0).is_err());
    assert!(parse_plus(&chars("+-"), 0).is_err());
}

#[test]
fn parses_increment() {
    let result = parse_plus(&chars("++"), 0).unwrap();
    assert_eq!(result.0, Token::Increment);
}

#[test]
fn parses_let_keyword() {
    let result = parse_identifier_or_keyword(&chars("let"), 0);
    assert_eq!(result.0, Token::Let);
    assert_eq!(result.1, 3);
}

#[test]
fn parses_identifier() {
    let result = parse_identifier_or_keyword(&chars("foo"), 0);
    assert_eq!(result.0, Token::Identifier("foo".to_string()));
}

#[test]
fn parses_any_number_in_range() {
    for n in [0i64, 7, 42, 999] {
        let input = chars(&n.to_string());
        let result = parse_number(&input, 0).unwrap();
        assert_eq!(result.0, Token::Number(n));
        assert_eq!(result.1, input.len());
    }
}

#[test]
fn tokenizes_numbers() {
    assert_eq!(tokenize("123"), Ok(vec![Token::Number(123)]));
}

#[test]
fn tokenizes_increment() {
    assert_eq!(tokenize("++"), Ok(vec![Token::Increment]));
}

#[test]
fn tokenizes_decrement() {
    assert_eq!(tokenize("--"), Ok(vec![Token::Decrement]));
}

#[test]
fn tokenizes_parentheses() {
    assert_eq!(tokenize("()"), Ok(vec![Token::LParen, Token::RParen]));
}

#[test]
fn tokenizes_assignment() {
    assert_eq!(tokenize("="), Ok(vec![Token::Assign]));
}

#[test]
fn tokenizes_line_end() {
    assert_eq!(tokenize(";"), Ok(vec![Token::LineEnd]));
}

#[test]
fn ignores_whitespace() {
    assert_eq!(tokenize("  123  "), Ok(vec![Token::Number(123)]));
}

#[test]
fn tokenizes_identifiers() {
    assert_eq!(tokenize("foo"), Ok(vec![Token::Identifier("foo".to_string())]));
}

#[test]
fn tokenizes_let_keyword() {
    assert_eq!(tokenize("let"), Ok(vec![Token::Let]));
}

#[test]
fn fails_on_invalid_character() {
    assert!(tokenize("!").is_err());
    assert_eq!(tokenize("!"), Err(LexError::InvalidCharacter('!')));
}

#[test]
fn fails_on_invalid_increment() {
    assert!(tokenize("+").is_err());
    assert_eq!(tokenize("+"), Err(LexError::ExpectedIncrement));
}

#[test]
fn fails_on_invalid_decrement() {
    assert!(tokenize("-").is_err());
    assert_eq!(tokenize("-"), Err(LexError::ExpectedDecrementOrNumber));
}

#[test]
fn fails_on_invalid_number() {
    assert!(tokenize("123a").is_err());
    let error = tokenize("123a").unwrap_err();
    assert_eq!(error, LexError::NumberFollowedByLetter("123".to_string(), 'a'));
    assert_eq!(
        error.message(),
        "Invalid sequence: Number '123' followed by identifier starting with 'a'"
    );
}

#[test]
fn negative_number_followed_by_letter_fails() {
    let error = tokenize("-12x").unwrap_err();
    assert_eq!(error, LexError::NumberFollowedByLetter("-12".to_string(), 'x'));
    assert_eq!(
        error.message(),
        "Invalid sequence: Number '-12' followed by identifier starting with 'x'"
    );
}

#[test]
fn number_out_of_range_fails() {
    assert_eq!(tokenize("9223372036854775807"), Ok(vec![Token::Number(i64::MAX)]));
    assert_eq!(tokenize("-9223372036854775808"), Ok(vec![Token::Number(i64::MIN)]));
    assert_eq!(tokenize("9223372036854775808"), Err(LexError::NumberOutOfRange));
    assert_eq!(tokenize("-9223372036854775809"), Err(LexError::NumberOutOfRange));
}

#[test]
fn tokenizes_a_let_program() {
    assert_eq!(
        tokenize("let x_1 = (-5)--;\tx_1++"),
        Ok(vec![
            Token::Let,
            Token::Identifier("x_1".to_string()),
            Token::Assign,
            Token::LParen,
            Token::Number(-5),
            Token::RParen,
            Token::Decrement,
            Token::LineEnd,
            Token::Identifier("x_1".to_string()),
            Token::Increment,
        ])
    );
}

#[test]
fn letters_and_keywords_are_told_apart() {
    assert_eq!(tokenize("lets"), Ok(vec![Token::Identifier("lets".to_string())]));
    assert_eq!(tokenize("le"), Ok(vec![Token::Identifier("le".to_string())]));
    assert_eq!(tokenize("héllo"), Ok(vec![Token::Identifier("héllo".to_string())]));
    assert_eq!(tokenize("_x"), Err(LexError::InvalidCharacter('_')));
}

#[test]
fn tokenizes_empty_input() {
    assert_eq!(tokenize(""), Ok(vec![]));
    assert_eq!(tokenize(" \n\t "), Ok(vec![]));
}

#[test]
fn tokenize_is_deterministic() {
    let source = "let y = 3; y--++";
    assert_eq!(tokenize(source), tokenize(source));
    assert_eq!(tokenize("5 +"), tokenize("5 +"));
}

#[test]
fn lex_error_messages() {
    assert_eq!(LexError::InvalidCharacter('!').message(), "Invalid character: !");
    assert_eq!(LexError::ExpectedIncrement.message(), "Invalid token: Expected '++'");
    assert_eq!(
        LexError::ExpectedDecrementOrNumber.message(),
        "Invalid token: Expected '--' or a number"
    );
    assert_eq!(
        LexError::NumberFollowedByLetter("7".to_string(), 'b').message(),
        "Invalid sequence: Number '7' followed by identifier starting with 'b'"
    );
    assert_eq!(LexError::NumberOutOfRange.message(), "Invalid number: out of range");
}
