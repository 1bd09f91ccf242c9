use calculator::tokenizer::NumberLiteral;
use calculator::tokenizer::Token;
use calculator::tokenizer::Tokenizer;
use calculator::tokenizer::TokenizingError;
use calculator::tokenizer::tokenize;

fn number(text: &str) -> Token {
    Token::Number(NumberLiteral { text: text.to_string() })
}

#[test]
fn tokenize_operator() {
    for (expr, expected) in [
        ("+", Token::Plus),
        ("-", Token::Minus),
        ("/", Token::Slash),
        ("*", Token::Star),
    ] {
        let mut tokenizer = Tokenizer::new(expr);
        let result = tokenizer.next_token();
        assert_eq!(result, Some(Ok(expected)));
        assert_eq!(tokenizer.next_token(), None);
    }
}

#[test]
fn tokenizer_parens() {
    assert_eq!(tokenize("("), Ok(vec![Token::LeftParen]));
    assert_eq!(tokenize(")"), Ok(vec![Token::RightParen]));
}

#[test]
fn tokenizer_numbers() {
    assert_eq!(tokenize("3"), Ok(vec![number("3")]));
    assert_eq!(tokenize("3.14"), Ok(vec![number("3.14")]));
    assert_eq!(tokenize("93.14"), Ok(vec![number("93.14")]));
}

#[test]
fn tokenizer_invalid_characters() {
    assert_eq!(tokenize("1a"), Err(TokenizingError::InvalidCharacter('a')));
    assert_eq!(tokenize("2#"), Err(TokenizingError::InvalidCharacter('#')));
}

#[test]
fn tokenizer_invalid_number() {
    for expr in ["1.324.3", "1....", "1 + 3.33.3.3"] {
        let result = tokenize(expr).unwrap_err();
        assert_eq!(result, TokenizingError::InvalidNumber);
        assert_eq!(result.message(), "Invalid number format");
    }
}

#[test]
fn tokenizer_expressions() {
    let expected = vec![number("1"), Token::Plus, number("2")];
    assert_eq!(tokenize("1+2"), Ok(expected.clone()));
    assert_eq!(tokenize("1 + 2"), Ok(expected));
}

#[test]
fn tokenizer_skips_only_spaces() {
    assert_eq!(tokenize("\t"), Err(TokenizingError::InvalidCharacter('\t')));
    assert_eq!(tokenize("   "), Ok(vec![]));
}

#[test]
fn tokenizer_trailing_dot_number_is_valid() {
    assert_eq!(tokenize("1."), Ok(vec![number("1.")]));
}
