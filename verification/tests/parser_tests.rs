use calculator::parser::Expression;
use calculator::parser::Parser;
use calculator::parser::ParserError;
use calculator::tokenizer::NumberLiteral;
use calculator::tokenizer::TokenizingError;

fn number(text: &str) -> Expression {
    Expression::Number(NumberLiteral { text: text.to_string() })
}

fn parse(expression: &str) -> Result<Expression, ParserError> {
    let mut parser = Parser::new(expression)?;
    parser.parse()
}

#[test]
fn parse_to_ast() {
    let expr = "1";
    let mut parser = Parser::new(expr).unwrap();

    let ast = parser.parse().unwrap();
    assert_eq!(ast, number("1"))
}

#[test]
fn parse_multiplication() {
    assert_eq!(
        parse("1 * 2").unwrap(),
        Expression::Multiply(Box::new(number("1")), Box::new(number("2")))
    );
    assert_eq!(
        parse("1 * 2 * 3").unwrap(),
        Expression::Multiply(
            Box::new(Expression::Multiply(Box::new(number("1")), Box::new(number("2")))),
            Box::new(number("3"))
        )
    );
}

#[test]
fn parse_division() {
    assert_eq!(
        parse("1 / 2").unwrap(),
        Expression::Divide(Box::new(number("1")), Box::new(number("2")))
    );
}

#[test]
fn parse_addition() {
    assert_eq!(
        parse("1 + 2").unwrap(),
        Expression::Add(Box::new(number("1")), Box::new(number("2")))
    );
}

#[test]
fn parse_subtraction() {
    assert_eq!(
        parse("1 - 2").unwrap(),
        Expression::Subtract(Box::new(number("1")), Box::new(number("2")))
    );
}

#[test]
fn parse_complex_expression() {
    assert_eq!(
        parse("1 + 2 - 3").unwrap(),
        Expression::Subtract(
            Box::new(Expression::Add(Box::new(number("1")), Box::new(number("2")))),
            Box::new(number("3"))
        )
    );
    assert_eq!(
        parse("2 * 4 + 6 / 2").unwrap(),
        Expression::Add(
            Box::new(Expression::Multiply(Box::new(number("2")), Box::new(number("4")))),
            Box::new(Expression::Divide(Box::new(number("6")), Box::new(number("2"))))
        )
    );
}

#[test]
fn parse_negate_expression() {
    assert_eq!(parse("-1").unwrap(), Expression::Negate(Box::new(number("1"))));
    assert_eq!(
        parse("-1 + 2").unwrap(),
        Expression::Add(
            Box::new(Expression::Negate(Box::new(number("1")))),
            Box::new(number("2"))
        )
    );
}

#[test]
fn parse_double_negation() {
    assert_eq!(
        parse("--1").unwrap(),
        Expression::Negate(Box::new(Expression::Negate(Box::new(number("1")))))
    );
}

#[test]
fn parse_expression_with_brackets() {
    assert_eq!(parse("(1)").unwrap(), Expression::Grouping(Box::new(number("1"))));
    assert_eq!(
        parse("(1 + 2) * (3 - 4)").unwrap(),
        Expression::Multiply(
            Box::new(Expression::Grouping(Box::new(Expression::Add(
                Box::new(number("1")),
                Box::new(number("2"))
            )))),
            Box::new(Expression::Grouping(Box::new(Expression::Subtract(
                Box::new(number("3")),
                Box::new(number("4"))
            )))),
        )
    );
}

#[test]
fn parse_unclosed_bracket() {
    for expression in ["(1", "(((1)2)"] {
        let parser_error = parse(expression).unwrap_err();
        assert_eq!(
            parser_error,
            ParserError::SyntaxError("Expect ')' after expression.".to_string())
        );
    }
}

#[test]
fn parse_too_many_closing_brackets() {
    for expression in ["(1))", "(1))+2"] {
        let parser_error = parse(expression).unwrap_err();
        assert_eq!(parser_error, ParserError::SyntaxError("Too many ')'.".to_string()));
    }
}

#[test]
fn parse_invalid_expression() {
    for expression in ["++", "1-", ")1"] {
        let parser_error = parse(expression).unwrap_err();
        assert_eq!(parser_error, ParserError::SyntaxError("Expected number or '('.".to_string()));
    }
}

#[test]
fn parse_unexpected_open_bracket() {
    let parser_error = parse("1(2)").unwrap_err();
    assert_eq!(parser_error, ParserError::SyntaxError("Unexpected '('.".to_string()));
}

#[test]
fn parsing_error_unexpected_tokens() {
    let expr = "2#";
    let parser_error = Parser::new(expr).unwrap_err();
    assert_eq!(
        parser_error,
        ParserError::UnexpectedToken(TokenizingError::InvalidCharacter('#'))
    );
    assert_eq!(parser_error.message(), "Syntax error: Unexpected token '#'");
}

#[test]
fn parse_ignores_trailing_tokens() {
    assert_eq!(parse("1 2").unwrap(), number("1"));
}
