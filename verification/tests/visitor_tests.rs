use calculator::parser::Expression;
use calculator::parser::Parser;
use calculator::tokenizer::NumberLiteral;
use calculator::value::Value;
use calculator::value::render_value;
use calculator::value::value_add;
use calculator::visitors::Evaluator;
use calculator::visitors::PrettyPrinterVisitor;

fn number(text: &str) -> Expression {
    Expression::Number(NumberLiteral { text: text.to_string() })
}

fn parse(expression: &str) -> Expression {
    Parser::new(expression).unwrap().parse().unwrap()
}

fn eval(e: &Expression) -> Result<Value, String> {
    let mut evaluator = Evaluator;
    evaluator.visit_expression(e).map_err(|err| err.message)
}

fn eval_text(expression: &str) -> String {
    render_value(&eval(&parse(expression)).unwrap())
}

fn fixture() -> Expression {
    Expression::Multiply(
        Box::new(Expression::Grouping(Box::new(Expression::Add(
            Box::new(number("1")),
            Box::new(number("2")),
        )))),
        Box::new(Expression::Grouping(Box::new(Expression::Subtract(
            Box::new(number("3")),
            Box::new(number("4")),
        )))),
    )
}

#[test]
fn evaluate_expression_with_visitor() {
    let result = eval(&fixture()).unwrap();
    assert_eq!(result, Value { num: -3, den: 1 });
    assert_eq!(render_value(&result), "-3");
}

#[test]
fn evaluate_expression_with_visitor_div_by_zero() {
    let expression = Expression::Divide(Box::new(number("1.0")), Box::new(number("0.0")));
    let result = eval(&expression);
    assert_eq!(result.unwrap_err(), "Division by zero");
}

#[test]
fn evaluate_division_by_half() {
    let expression = Expression::Divide(Box::new(number("1.0")), Box::new(number("0.5")));
    let value = eval(&expression).unwrap();
    assert_eq!(render_value(&value), "2");
}

#[test]
fn pretty_print_expression_with_visitor() {
    let mut printer = PrettyPrinterVisitor {};
    let result = printer.visit_expression(&fixture());
    assert_eq!(result.unwrap(), "(1 + 2) * (3 - 4)");
}

#[test]
fn pretty_print_round_trips_parenthesized_input() {
    let mut printer = PrettyPrinterVisitor {};
    for text in ["(1 + 2) * (3 - 4)", "((1.5))", "-(2 / 3)", "1 + 2", "-1", "--1"] {
        let ast = parse(text);
        assert_eq!(printer.visit_expression(&ast).unwrap(), text);
    }
}

#[test]
fn evaluate_respects_precedence() {
    assert_eq!(eval_text("2 * 4 + 6 / 2"), "11");
}

#[test]
fn evaluate_is_left_associative() {
    assert_eq!(eval_text("1 - 2 - 3"), "-4");
    assert_ne!(eval_text("1 - 2 - 3"), "2");
}

#[test]
fn evaluate_double_negation() {
    assert_eq!(eval_text("--1"), "1");
}

#[test]
fn evaluate_left_leaning_product() {
    assert_eq!(eval_text("1 * 2 * 3"), "6");
}

#[test]
fn evaluate_fractions_exactly() {
    assert_eq!(eval_text("3 / 2"), "1.5");
    assert_eq!(eval_text("-1 / 2"), "-0.5");
    assert_eq!(eval_text("0.1 + 0.2"), "0.3");
}

#[test]
fn evaluate_nonterminating_fraction_is_cut_off() {
    let expected = format!("0.{}", "3".repeat(32));
    assert_eq!(eval_text("1 / 3"), expected);
}

#[test]
fn evaluate_huge_literal_is_out_of_range() {
    let expression = number("99999999999999999999");
    assert_eq!(eval(&expression).unwrap_err(), "Result out of range");
}

#[test]
fn value_add_is_exact() {
    let a = Value { num: 1, den: 2 };
    let b = Value { num: 1, den: 3 };
    assert_eq!(value_add(&a, &b), Some(Value { num: 5, den: 6 }));
}
