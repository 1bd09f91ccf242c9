use std::cell::RefCell;

use calculator::calc::Calculator;
use calculator::calc::Console;
use calculator::calc::calculate_line;

/// A console driven by a script: hands out the prepared input lines and
/// records everything printed.
struct ScriptedConsole {
    inputs: RefCell<Vec<String>>,
    log: RefCell<Vec<String>>,
}

impl ScriptedConsole {
    fn new(inputs: &[&str]) -> ScriptedConsole {
        ScriptedConsole {
            inputs: RefCell::new(inputs.iter().map(|s| s.to_string()).collect()),
            log: RefCell::new(Vec::new()),
        }
    }

    fn recorded(&self) -> Vec<String> {
        self.log.borrow().clone()
    }

    fn inputs_left(&self) -> usize {
        self.inputs.borrow().len()
    }
}

impl Console for ScriptedConsole {
    fn readline(&self) -> String {
        self.inputs.borrow_mut().remove(0)
    }

    fn println(&self, text: &str) {
        self.log.borrow_mut().push(format!("println:{}", text));
    }

    fn print(&self, text: &str) {
        self.log.borrow_mut().push(format!("print:{}", text));
    }
}

#[test]
fn calculator_run_loop_evaluates_expressions() {
    let console = ScriptedConsole::new(&["1 + 2", "(1 + 2) * (10 / 5)", "Exit"]);
    let mut calculator = Calculator::new(&console);

    calculator.run();

    assert_eq!(
        console.recorded(),
        vec![
            "println:### Calculator ver. 1.0 ###".to_string(),
            "print:>>> ".to_string(),
            "println:3".to_string(),
            "print:>>> ".to_string(),
            "println:6".to_string(),
            "print:>>> ".to_string(),
        ]
    );
    assert_eq!(console.inputs_left(), 0);
}

#[test]
fn calculator_run_loop_handles_parser_errors() {
    let console = ScriptedConsole::new(&["2#", "Exit"]);
    let mut calculator = Calculator::new(&console);

    calculator.run();

    assert_eq!(
        console.recorded(),
        vec![
            "println:### Calculator ver. 1.0 ###".to_string(),
            "print:>>> ".to_string(),
            "println:Syntax error: Unexpected token '#'".to_string(),
            "print:>>> ".to_string(),
        ]
    );
    assert_eq!(console.inputs_left(), 0);
}

#[test]
fn calculate_line_end_to_end() {
    assert_eq!(calculate_line("(1 + 2) * (10 / 5)"), "6");
}

#[test]
fn calculate_line_reports_each_error() {
    assert_eq!(calculate_line("(1"), "Syntax error: Expect ')' after expression.");
    assert_eq!(calculate_line("(1))"), "Syntax error: Too many ')'.");
    assert_eq!(calculate_line("(1))+2"), "Syntax error: Too many ')'.");
    assert_eq!(calculate_line("1(2)"), "Syntax error: Unexpected '('.");
    assert_eq!(calculate_line("1-"), "Syntax error: Expected number or '('.");
    assert_eq!(calculate_line("2#"), "Syntax error: Unexpected token '#'");
    assert_eq!(calculate_line("1.324.3"), "Syntax error: Invalid number format");
    assert_eq!(calculate_line("1 / 0"), "Division by zero");
    assert_eq!(calculate_line("99999999999999999999"), "Result out of range");
}

#[test]
fn calculate_line_negative_results() {
    assert_eq!(calculate_line("1 - 2 - 3"), "-4");
    assert_eq!(calculate_line("--1"), "1");
    assert_eq!(calculate_line("2 / -0.5"), "-4");
}
