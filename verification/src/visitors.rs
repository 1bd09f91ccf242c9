//! The two operations over expression trees: numeric evaluation and
//! text rendering.  Each visitor carries one method per tree variant and a
//! dispatching `visit_expression`, so a new operation over the tree is a new
//! visitor, not a change to the tree.

use vstd::prelude::*;
use vstd::string::*;

use crate::parser::ExprView;
use crate::parser::Expression;
use crate::parser::wf_expr;
use crate::tokenizer::NumberLiteral;
use crate::tokenizer::string_push;
use crate::value::Rat;
use crate::value::Value;
use crate::value::in_bounds;
use crate::value::literal_value;
use crate::value::rat_add;
use crate::value::rat_div;
use crate::value::rat_mul;
use crate::value::rat_neg;
use crate::value::rat_sub;
use crate::value::spec_literal;
use crate::value::value_add;
use crate::value::value_div;
use crate::value::value_mul;
use crate::value::value_neg;
use crate::value::value_sub;
use crate::value::wf_value;

verus! {

/// What evaluating a tree yields: an exact value, a division by zero, or a
/// result that does not fit the value's fixed-width fields.
pub enum EvalOutcome {
    Value(Rat),
    DivideByZero,
    OutOfRange,
}

/// Keeps an exact result when it fits, and reports it out of range
/// otherwise.
pub open spec fn bounded(q: Rat) -> EvalOutcome {
    if in_bounds(q) {
        EvalOutcome::Value(q)
    } else {
        EvalOutcome::OutOfRange
    }
}

/// Combines two operand outcomes with addition; the left operand's failure
/// wins.
pub open spec fn spec_eval_add(l: EvalOutcome, r: EvalOutcome) -> EvalOutcome {
    match l {
        EvalOutcome::Value(a) => match r {
            EvalOutcome::Value(b) => bounded(rat_add(a, b)),
            o => o,
        },
        o => o,
    }
}

pub open spec fn spec_eval_sub(l: EvalOutcome, r: EvalOutcome) -> EvalOutcome {
    match l {
        EvalOutcome::Value(a) => match r {
            EvalOutcome::Value(b) => bounded(rat_sub(a, b)),
            o => o,
        },
        o => o,
    }
}

pub open spec fn spec_eval_mul(l: EvalOutcome, r: EvalOutcome) -> EvalOutcome {
    match l {
        EvalOutcome::Value(a) => match r {
            EvalOutcome::Value(b) => bounded(rat_mul(a, b)),
            o => o,
        },
        o => o,
    }
}

/// Division inspects the right operand first: its failure wins, a zero
/// divisor fails before the left operand is consulted, and only then does the
/// left operand's outcome count.
pub open spec fn spec_eval_div(l: EvalOutcome, r: EvalOutcome) -> EvalOutcome {
    match r {
        EvalOutcome::Value(b) => if b.num == 0 {
            EvalOutcome::DivideByZero
        } else {
            match l {
                EvalOutcome::Value(a) => bounded(rat_div(a, b)),
                o => o,
            }
        },
        o => o,
    }
}

/// What evaluating a tree yields.  Grouping is transparent; negation and the
/// four operators are exact rational arithmetic; the only failure a correct
/// input can produce is division by a value equal to zero.
pub open spec fn spec_eval(e: ExprView) -> EvalOutcome
    decreases e,
{
    match e {
        ExprView::Number(t) => match spec_literal(t) {
            Some(q) => EvalOutcome::Value(q),
            None => EvalOutcome::OutOfRange,
        },
        ExprView::Add(l, r) => spec_eval_add(spec_eval(*l), spec_eval(*r)),
        ExprView::Subtract(l, r) => spec_eval_sub(spec_eval(*l), spec_eval(*r)),
        ExprView::Multiply(l, r) => spec_eval_mul(spec_eval(*l), spec_eval(*r)),
        ExprView::Divide(l, r) => spec_eval_div(spec_eval(*l), spec_eval(*r)),
        ExprView::Negate(x) => match spec_eval(*x) {
            EvalOutcome::Value(a) => bounded(rat_neg(a)),
            o => o,
        },
        ExprView::Grouping(x) => spec_eval(*x),
    }
}

/// The message an evaluation failure carries.
pub open spec fn spec_eval_message(o: EvalOutcome) -> Seq<char> {
    match o {
        EvalOutcome::DivideByZero => "Division by zero"@,
        EvalOutcome::OutOfRange => "Result out of range"@,
        EvalOutcome::Value(_) => Seq::<char>::empty(),
    }
}

/// A runtime evaluation failure, carrying its description.
#[derive(Debug, PartialEq, Eq)]
pub struct EvaluatorError {
    pub message: String,
}

/// The number of nodes in a tree; the measure the mutually recursive
/// visitors shrink.
pub open spec fn expr_size(e: ExprView) -> nat
    decreases e,
{
    match e {
        ExprView::Number(_) => 1,
        ExprView::Add(l, r) => 1 + expr_size(*l) + expr_size(*r),
        ExprView::Subtract(l, r) => 1 + expr_size(*l) + expr_size(*r),
        ExprView::Multiply(l, r) => 1 + expr_size(*l) + expr_size(*r),
        ExprView::Divide(l, r) => 1 + expr_size(*l) + expr_size(*r),
        ExprView::Negate(x) => 1 + expr_size(*x),
        ExprView::Grouping(x) => 1 + expr_size(*x),
    }
}

/// The contract every evaluator method meets: the result is exactly the
/// outcome of [`spec_eval`], with the outcome's message on failure.
pub open spec fn eval_result_ok(r: Result<Value, EvaluatorError>, o: EvalOutcome) -> bool {
    match o {
        EvalOutcome::Value(q) => r matches Ok(v) && v@ == q && wf_value(v),
        _ => r matches Err(err) && err.message@ == spec_eval_message(o),
    }
}

fn out_of_range_error() -> (r: EvaluatorError)
    ensures
        r.message@ == spec_eval_message(EvalOutcome::OutOfRange),
{
    EvaluatorError { message: String::from_str("Result out of range") }
}

/// The numeric visitor: evaluates a tree to an exact rational value.
pub struct Evaluator;

impl Evaluator {
    pub fn visit_number(&mut self, lit: &NumberLiteral) -> (r: Result<Value, EvaluatorError>)
        requires
            wf_expr(ExprView::Number(lit@)),
        ensures
            eval_result_ok(r, spec_eval(ExprView::Number(lit@))),
    {
        match literal_value(lit) {
            Some(v) => Ok(v),
            None => Err(out_of_range_error()),
        }
    }

    pub fn visit_add(&mut self, left: &Expression, right: &Expression) -> (r: Result<
        Value,
        EvaluatorError,
    >)
        requires
            wf_expr(left@),
            wf_expr(right@),
        ensures
            eval_result_ok(r, spec_eval_add(spec_eval(left@), spec_eval(right@))),
        decreases expr_size(left@) + expr_size(right@) + 1, 0int,
    {
        let lv = match self.visit_expression(left) {
            Ok(v) => v,
            Err(e) => {
                return Err(e);
            },
        };
        let rv = match self.visit_expression(right) {
            Ok(v) => v,
            Err(e) => {
                return Err(e);
            },
        };
        match value_add(&lv, &rv) {
            Some(v) => Ok(v),
            None => Err(out_of_range_error()),
        }
    }

    pub fn visit_subtract(&mut self, left: &Expression, right: &Expression) -> (r: Result<
        Value,
        EvaluatorError,
    >)
        requires
            wf_expr(left@),
            wf_expr(right@),
        ensures
            eval_result_ok(r, spec_eval_sub(spec_eval(left@), spec_eval(right@))),
        decreases expr_size(left@) + expr_size(right@) + 1, 0int,
    {
        let lv = match self.visit_expression(left) {
            Ok(v) => v,
            Err(e) => {
                return Err(e);
            },
        };
        let rv = match self.visit_expression(right) {
            Ok(v) => v,
            Err(e) => {
                return Err(e);
            },
        };
        match value_sub(&lv, &rv) {
            Some(v) => Ok(v),
            None => Err(out_of_range_error()),
        }
    }

    pub fn visit_multiply(&mut self, left: &Expression, right: &Expression) -> (r: Result<
        Value,
        EvaluatorError,
    >)
        requires
            wf_expr(left@),
            wf_expr(right@),
        ensures
            eval_result_ok(r, spec_eval_mul(spec_eval(left@), spec_eval(right@))),
        decreases expr_size(left@) + expr_size(right@) + 1, 0int,
    {
        let lv = match self.visit_expression(left) {
            Ok(v) => v,
            Err(e) => {
                return Err(e);
            },
        };
        let rv = match self.visit_expression(right) {
            Ok(v) => v,
            Err(e) => {
                return Err(e);
            },
        };
        match value_mul(&lv, &rv) {
            Some(v) => Ok(v),
            None => Err(out_of_range_error()),
        }
    }

    /// Evaluates the right operand first and fails with "Division by zero"
    /// when its value is exactly zero, before the left operand is evaluated
    /// at all.
    pub fn visit_divide(&mut self, left: &Expression, right: &Expression) -> (r: Result<
        Value,
        EvaluatorError,
    >)
        requires
            wf_expr(left@),
            wf_expr(right@),
        ensures
            eval_result_ok(r, spec_eval_div(spec_eval(left@), spec_eval(right@))),
        decreases expr_size(left@) + expr_size(right@) + 1, 0int,
    {
        let rv = match self.visit_expression(right) {
            Ok(v) => v,
            Err(e) => {
                return Err(e);
            },
        };
        if rv.num == 0 {
            return Err(EvaluatorError { message: String::from_str("Division by zero") });
        }
        let lv = match self.visit_expression(left) {
            Ok(v) => v,
            Err(e) => {
                return Err(e);
            },
        };
        match value_div(&lv, &rv) {
            Some(v) => Ok(v),
            None => Err(out_of_range_error()),
        }
    }

    pub fn visit_negate(&mut self, expr: &Expression) -> (r: Result<Value, EvaluatorError>)
        requires
            wf_expr(expr@),
        ensures
            eval_result_ok(
                r,
                match spec_eval(expr@) {
                    EvalOutcome::Value(a) => bounded(rat_neg(a)),
                    o => o,
                },
            ),
        decreases expr_size(expr@) + 1, 0int,
    {
        let v = match self.visit_expression(expr) {
            Ok(v) => v,
            Err(e) => {
                return Err(e);
            },
        };
        match value_neg(&v) {
            Some(n) => Ok(n),
            None => Err(out_of_range_error()),
        }
    }

    /// Parentheses are transparent for evaluation.
    pub fn visit_grouping(&mut self, expr: &Expression) -> (r: Result<Value, EvaluatorError>)
        requires
            wf_expr(expr@),
        ensures
            eval_result_ok(r, spec_eval(expr@)),
        decreases expr_size(expr@) + 1, 0int,
    {
        self.visit_expression(expr)
    }

    /// Dispatches on the tree's variant; the result is exactly
    /// [`spec_eval`] of the tree.
    pub fn visit_expression(&mut self, expr: &Expression) -> (r: Result<Value, EvaluatorError>)
        requires
            wf_expr(expr@),
        ensures
            eval_result_ok(r, spec_eval(expr@)),
        decreases expr_size(expr@), 1int,
    {
        proof {
            assert(expr_size(expr@) >= 1);
        }
        match expr {
            Expression::Number(lit) => self.visit_number(lit),
            Expression::Add(a, b) => self.visit_add(a, b),
            Expression::Subtract(a, b) => self.visit_subtract(a, b),
            Expression::Multiply(a, b) => self.visit_multiply(a, b),
            Expression::Divide(a, b) => self.visit_divide(a, b),
            Expression::Negate(e) => self.visit_negate(e),
            Expression::Grouping(e) => self.visit_grouping(e),
        }
    }
}

/// The infix text of a tree: a literal's own text, binary nodes with one
/// space around the operator, negation with no space, and a grouping in
/// parentheses.
pub open spec fn spec_pretty(e: ExprView) -> Seq<char>
    decreases e,
{
    match e {
        ExprView::Number(t) => t,
        ExprView::Add(l, r) => spec_pretty(*l) + " + "@ + spec_pretty(*r),
        ExprView::Subtract(l, r) => spec_pretty(*l) + " - "@ + spec_pretty(*r),
        ExprView::Multiply(l, r) => spec_pretty(*l) + " * "@ + spec_pretty(*r),
        ExprView::Divide(l, r) => spec_pretty(*l) + " / "@ + spec_pretty(*r),
        ExprView::Negate(x) => "-"@ + spec_pretty(*x),
        ExprView::Grouping(x) => "("@ + spec_pretty(*x) + ")"@,
    }
}

/// The text visitor: renders a tree back to infix text.  It cannot fail;
/// its error type is empty only to fit the visitor shape.
pub struct PrettyPrinterVisitor {}

impl PrettyPrinterVisitor {
    pub fn visit_number(&mut self, lit: &NumberLiteral) -> (r: Result<String, ()>)
        ensures
            r matches Ok(s) && s@ == spec_pretty(ExprView::Number(lit@)),
    {
        Ok(lit.text.clone())
    }

    pub fn visit_add(&mut self, left: &Expression, right: &Expression) -> (r: Result<String, ()>)
        ensures
            r matches Ok(s) && s@ == spec_pretty(left@) + " + "@ + spec_pretty(right@),
        decreases expr_size(left@) + expr_size(right@) + 1, 0int,
    {
        self.binary(left, " + ", right)
    }

    pub fn visit_subtract(&mut self, left: &Expression, right: &Expression) -> (r: Result<
        String,
        (),
    >)
        ensures
            r matches Ok(s) && s@ == spec_pretty(left@) + " - "@ + spec_pretty(right@),
        decreases expr_size(left@) + expr_size(right@) + 1, 0int,
    {
        self.binary(left, " - ", right)
    }

    pub fn visit_multiply(&mut self, left: &Expression, right: &Expression) -> (r: Result<
        String,
        (),
    >)
        ensures
            r matches Ok(s) && s@ == spec_pretty(left@) + " * "@ + spec_pretty(right@),
        decreases expr_size(left@) + expr_size(right@) + 1, 0int,
    {
        self.binary(left, " * ", right)
    }

    pub fn visit_divide(&mut self, left: &Expression, right: &Expression) -> (r: Result<
        String,
        (),
    >)
        ensures
            r matches Ok(s) && s@ == spec_pretty(left@) + " / "@ + spec_pretty(right@),
        decreases expr_size(left@) + expr_size(right@) + 1, 0int,
    {
        self.binary(left, " / ", right)
    }

    /// Renders `left`, the operator with its spaces, then `right`.
    fn binary(&mut self, left: &Expression, op: &str, right: &Expression) -> (r: Result<
        String,
        (),
    >)
        ensures
            r matches Ok(s) && s@ == spec_pretty(left@) + op@ + spec_pretty(right@),
        decreases expr_size(left@) + expr_size(right@), 1int,
    {
        proof {
            assert(expr_size(left@) >= 1);
            assert(expr_size(right@) >= 1);
        }
        let mut out = match self.visit_expression(left) {
            Ok(s) => s,
            Err(e) => {
                return Err(e);
            },
        };
        out.append(op);
        let rs = match self.visit_expression(right) {
            Ok(s) => s,
            Err(e) => {
                return Err(e);
            },
        };
        out.append(rs.as_str());
        Ok(out)
    }

    pub fn visit_negate(&mut self, expr: &Expression) -> (r: Result<String, ()>)
        ensures
            r matches Ok(s) && s@ == "-"@ + spec_pretty(expr@),
        decreases expr_size(expr@) + 1, 0int,
    {
        let mut out = String::from_str("-");
        let inner = match self.visit_expression(expr) {
            Ok(s) => s,
            Err(e) => {
                return Err(e);
            },
        };
        out.append(inner.as_str());
        Ok(out)
    }

    pub fn visit_grouping(&mut self, expr: &Expression) -> (r: Result<String, ()>)
        ensures
            r matches Ok(s) && s@ == "("@ + spec_pretty(expr@) + ")"@,
        decreases expr_size(expr@) + 1, 0int,
    {
        let mut out = String::from_str("(");
        let inner = match self.visit_expression(expr) {
            Ok(s) => s,
            Err(e) => {
                return Err(e);
            },
        };
        out.append(inner.as_str());
        out.append(")");
        Ok(out)
    }

    /// Dispatches on the tree's variant; the result is exactly
    /// [`spec_pretty`] of the tree.
    pub fn visit_expression(&mut self, expr: &Expression) -> (r: Result<String, ()>)
        ensures
            r matches Ok(s) && s@ == spec_pretty(expr@),
        decreases expr_size(expr@), 2int,
    {
        proof {
            assert(expr_size(expr@) >= 1);
        }
        match expr {
            Expression::Number(lit) => self.visit_number(lit),
            Expression::Add(a, b) => self.visit_add(a, b),
            Expression::Subtract(a, b) => self.visit_subtract(a, b),
            Expression::Multiply(a, b) => self.visit_multiply(a, b),
            Expression::Divide(a, b) => self.visit_divide(a, b),
            Expression::Negate(e) => self.visit_negate(e),
            Expression::Grouping(e) => self.visit_grouping(e),
        }
    }
}

} // verus!
