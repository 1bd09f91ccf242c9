//! Recursive-descent parsing of the expression grammar:
//!
//! ```text
//! expression = term
//! term       = factor ( ("+" | "-") factor )*
//! factor     = unary  ( ("*" | "/") unary  )*
//! unary      = "-" unary | primary
//! primary    = NUMBER | "(" expression ")"
//! ```
//!
//! Binary operators are left-associative.  A nesting counter tracks how many
//! parentheses are open; a stray `)` or an operator-position `(` is reported
//! only at nesting depth zero, with the exact messages the console shows.

use vstd::prelude::*;
use vstd::string::*;

use crate::tokenizer::NumberLiteral;
use crate::tokenizer::Token;
use crate::tokenizer::TokenView;
use crate::tokenizer::TokenizingError;
use crate::tokenizer::spec_tokenize_from;
use crate::tokenizer::spec_tokenizing_message;
use crate::tokenizer::tokenize;
use crate::tokenizer::tokens_view;
use crate::tokenizer::wf_literal;
use crate::tokenizer::wf_number_token;

verus! {

/// The abstract syntax tree of one expression.  Every node except `Number`
/// owns its children; a `Grouping` node records a parenthesized
/// sub-expression so that the input's bracketing can be reproduced.
#[derive(Debug, PartialEq)]
pub enum Expression {
    Number(NumberLiteral),
    Add(Box<Expression>, Box<Expression>),
    Subtract(Box<Expression>, Box<Expression>),
    Multiply(Box<Expression>, Box<Expression>),
    Divide(Box<Expression>, Box<Expression>),
    Negate(Box<Expression>),
    Grouping(Box<Expression>),
}

/// The mathematical value of an expression tree: the same shape, with each
/// numeric literal as its sequence of characters.
pub enum ExprView {
    Number(Seq<char>),
    Add(Box<ExprView>, Box<ExprView>),
    Subtract(Box<ExprView>, Box<ExprView>),
    Multiply(Box<ExprView>, Box<ExprView>),
    Divide(Box<ExprView>, Box<ExprView>),
    Negate(Box<ExprView>),
    Grouping(Box<ExprView>),
}

impl View for Expression {
    type V = ExprView;

    open spec fn view(&self) -> ExprView
        decreases self,
    {
        match self {
            Expression::Number(lit) => ExprView::Number(lit@),
            Expression::Add(l, r) => ExprView::Add(Box::new((**l).view()), Box::new((**r).view())),
            Expression::Subtract(l, r) => ExprView::Subtract(
                Box::new((**l).view()),
                Box::new((**r).view()),
            ),
            Expression::Multiply(l, r) => ExprView::Multiply(
                Box::new((**l).view()),
                Box::new((**r).view()),
            ),
            Expression::Divide(l, r) => ExprView::Divide(
                Box::new((**l).view()),
                Box::new((**r).view()),
            ),
            Expression::Negate(x) => ExprView::Negate(Box::new((**x).view())),
            Expression::Grouping(x) => ExprView::Grouping(Box::new((**x).view())),
        }
    }
}

/// Every numeric literal in the tree is well formed.
pub open spec fn wf_expr(e: ExprView) -> bool
    decreases e,
{
    match e {
        ExprView::Number(t) => wf_literal(t),
        ExprView::Add(l, r) => wf_expr(*l) && wf_expr(*r),
        ExprView::Subtract(l, r) => wf_expr(*l) && wf_expr(*r),
        ExprView::Multiply(l, r) => wf_expr(*l) && wf_expr(*r),
        ExprView::Divide(l, r) => wf_expr(*l) && wf_expr(*r),
        ExprView::Negate(x) => wf_expr(*x),
        ExprView::Grouping(x) => wf_expr(*x),
    }
}

/// The grammar violations the parser can report.
#[derive(Debug, PartialEq, Eq, Clone, Copy)]
pub enum SyntaxKind {
    /// A `)` at nesting depth zero.
    TooManyClose,
    /// A `(` where a binary operator was expected, at nesting depth zero.
    UnexpectedOpen,
    /// An opened `(` whose matching `)` never came.
    ExpectClose,
    /// A position that needs a number or `(` but holds something else.
    ExpectNumber,
}

/// The exact message each grammar violation carries.
pub open spec fn spec_syntax_message(k: SyntaxKind) -> Seq<char> {
    match k {
        SyntaxKind::TooManyClose => "Too many ')'."@,
        SyntaxKind::UnexpectedOpen => "Unexpected '('."@,
        SyntaxKind::ExpectClose => "Expect ')' after expression."@,
        SyntaxKind::ExpectNumber => "Expected number or '('."@,
    }
}

/// A failure of parsing: either the input could not be tokenized, or the
/// token sequence violates the grammar.
#[derive(Debug, PartialEq)]
pub enum ParserError {
    UnexpectedToken(TokenizingError),
    SyntaxError(String),
}

/// The textual rendering of a parser error.  Lexical and grammatical
/// failures share the same prefix, so callers can tell them apart only by
/// variant.
pub open spec fn spec_parser_error_message(e: ParserError) -> Seq<char> {
    match e {
        ParserError::UnexpectedToken(t) => "Syntax error: "@ + spec_tokenizing_message(t),
        ParserError::SyntaxError(m) => "Syntax error: "@ + m@,
    }
}

impl ParserError {
    /// The error's message, as the console shows it.
    pub fn message(&self) -> (r: String)
        ensures
            r@ == spec_parser_error_message(*self),
    {
        match self {
            ParserError::UnexpectedToken(t) => {
                let mut s = String::from_str("Syntax error: ");
                let inner = t.message();
                s.append(inner.as_str());
                s
            },
            ParserError::SyntaxError(m) => {
                let mut s = String::from_str("Syntax error: ");
                s.append(m.as_str());
                s
            },
        }
    }
}

/// What parsing a `primary` from position `i` at nesting depth `depth`
/// yields: the tree and the next position, or the grammar violation.
pub open spec fn spec_primary(toks: Seq<TokenView>, i: int, depth: int) -> Result<
    (ExprView, int),
    SyntaxKind,
>
    decreases toks.len() - i, 0int,
    when 0 <= i <= toks.len()
{
    if i < toks.len() && toks[i] is Number {
        Ok((ExprView::Number(toks[i]->Number_0), i + 1))
    } else if i < toks.len() && toks[i] is LeftParen {
        match spec_expression(toks, i + 1, depth + 1) {
            Ok((e, j)) => if 0 <= j < toks.len() && toks[j] is RightParen {
                Ok((ExprView::Grouping(Box::new(e)), j + 1))
            } else {
                Err(SyntaxKind::ExpectClose)
            },
            Err(k) => Err(k),
        }
    } else {
        Err(SyntaxKind::ExpectNumber)
    }
}

/// What parsing a `unary` from position `i` yields.
pub open spec fn spec_unary(toks: Seq<TokenView>, i: int, depth: int) -> Result<
    (ExprView, int),
    SyntaxKind,
>
    decreases toks.len() - i, 1int,
    when 0 <= i <= toks.len()
{
    if i < toks.len() && toks[i] is Minus {
        match spec_unary(toks, i + 1, depth) {
            Ok((e, j)) => Ok((ExprView::Negate(Box::new(e)), j)),
            Err(k) => Err(k),
        }
    } else {
        spec_primary(toks, i, depth)
    }
}

/// The continuation of a `factor` after a left operand `e`: folds further
/// `*` and `/` operands onto it, left-associatively.
pub open spec fn spec_factor_rest(e: ExprView, toks: Seq<TokenView>, j: int, depth: int) -> Result<
    (ExprView, int),
    SyntaxKind,
>
    decreases toks.len() - j, 2int,
    when 0 <= j <= toks.len()
{
    if j < toks.len() && (toks[j] is Star || toks[j] is Slash) {
        let star = toks[j] is Star;
        match spec_unary(toks, j + 1, depth) {
            Ok((r, j2)) => {
                let combined = if star {
                    ExprView::Multiply(Box::new(e), Box::new(r))
                } else {
                    ExprView::Divide(Box::new(e), Box::new(r))
                };
                if j + 1 < j2 <= toks.len() {
                    spec_factor_rest(combined, toks, j2, depth)
                } else {
                    Ok((combined, j2))
                }
            },
            Err(k) => Err(k),
        }
    } else if j < toks.len() && toks[j] is RightParen && depth == 0 {
        Err(SyntaxKind::TooManyClose)
    } else {
        Ok((e, j))
    }
}

/// What parsing a `factor` from position `i` yields.
pub open spec fn spec_factor(toks: Seq<TokenView>, i: int, depth: int) -> Result<
    (ExprView, int),
    SyntaxKind,
>
    decreases toks.len() - i, 3int,
    when 0 <= i <= toks.len()
{
    match spec_unary(toks, i, depth) {
        Ok((e, j)) => if i < j <= toks.len() {
            spec_factor_rest(e, toks, j, depth)
        } else {
            Ok((e, j))
        },
        Err(k) => Err(k),
    }
}

/// The continuation of a `term` after a left operand `e`: folds further
/// `+` and `-` operands onto it, left-associatively, and reports the two
/// depth-zero bracket violations.
pub open spec fn spec_term_rest(e: ExprView, toks: Seq<TokenView>, j: int, depth: int) -> Result<
    (ExprView, int),
    SyntaxKind,
>
    decreases toks.len() - j, 4int,
    when 0 <= j <= toks.len()
{
    if j < toks.len() && (toks[j] is Plus || toks[j] is Minus) {
        let plus = toks[j] is Plus;
        match spec_factor(toks, j + 1, depth) {
            Ok((r, j2)) => {
                let combined = if plus {
                    ExprView::Add(Box::new(e), Box::new(r))
                } else {
                    ExprView::Subtract(Box::new(e), Box::new(r))
                };
                if j + 1 < j2 <= toks.len() {
                    spec_term_rest(combined, toks, j2, depth)
                } else {
                    Ok((combined, j2))
                }
            },
            Err(k) => Err(k),
        }
    } else if j < toks.len() && toks[j] is RightParen && depth == 0 {
        Err(SyntaxKind::TooManyClose)
    } else if j < toks.len() && toks[j] is LeftParen && depth == 0 {
        Err(SyntaxKind::UnexpectedOpen)
    } else {
        Ok((e, j))
    }
}

/// What parsing a `term` from position `i` yields.
pub open spec fn spec_term(toks: Seq<TokenView>, i: int, depth: int) -> Result<
    (ExprView, int),
    SyntaxKind,
>
    decreases toks.len() - i, 5int,
    when 0 <= i <= toks.len()
{
    match spec_factor(toks, i, depth) {
        Ok((e, j)) => if i < j <= toks.len() {
            spec_term_rest(e, toks, j, depth)
        } else {
            Ok((e, j))
        },
        Err(k) => Err(k),
    }
}

/// What parsing an `expression` from position `i` yields: a `term`.
pub open spec fn spec_expression(toks: Seq<TokenView>, i: int, depth: int) -> Result<
    (ExprView, int),
    SyntaxKind,
>
    decreases toks.len() - i, 6int,
    when 0 <= i <= toks.len()
{
    spec_term(toks, i, depth)
}

/// What parsing a whole token sequence yields.  Tokens after a complete
/// expression are silently ignored.
pub open spec fn spec_parse_tokens(toks: Seq<TokenView>) -> Result<ExprView, SyntaxKind> {
    match spec_expression(toks, 0, 0) {
        Ok((e, _)) => Ok(e),
        Err(k) => Err(k),
    }
}

/// A recursive-descent parser over a pre-tokenized input.  Construction
/// tokenizes the whole input eagerly and fails on any lexical error; a
/// successful construction exposes one `parse` call.
#[derive(Debug)]
pub struct Parser {
    pub tokens: Vec<Token>,
    pub current_token_index: usize,
    pub bracket_count: usize,
}

/// The contract every parsing step meets: the parser stays well formed over
/// the same tokens, and the call's outcome is exactly what the corresponding
/// grammar function says.  On success the cursor lands after the parsed
/// tree and the nesting count is restored; on a violation the exact message
/// is carried.
pub open spec fn parse_step_ok(
    pre: Parser,
    post: Parser,
    r: Result<Expression, ParserError>,
    res: Result<(ExprView, int), SyntaxKind>,
) -> bool {
    &&& post.wf()
    &&& post.toks() == pre.toks()
    &&& match res {
        Ok((e, j)) => r matches Ok(x) && x@ == e && wf_expr(e) && post.current_token_index == j
            && post.bracket_count == pre.bracket_count && pre.current_token_index < j,
        Err(k) => r matches Err(pe) && (pe matches ParserError::SyntaxError(m) && m@
            == spec_syntax_message(k)),
    }
}

impl Parser {
    /// The token sequence under view.
    pub open spec fn toks(self) -> Seq<TokenView> {
        tokens_view(self.tokens@)
    }

    /// The cursor is inside the token vector, the nesting count never
    /// exceeds it, and every number token carries a well-formed literal.
    pub open spec fn wf(self) -> bool {
        &&& self.current_token_index <= self.tokens@.len()
        &&& self.bracket_count <= self.current_token_index
        &&& forall|k: int| 0 <= k < self.tokens@.len() ==> wf_number_token(self.tokens@[k])
    }

    /// Tokenizes the whole input.  Fails with the wrapped lexical error if
    /// any token is invalid; otherwise the parser starts at the first token
    /// with no open parenthesis.
    pub fn new(expression: &str) -> (r: Result<Parser, ParserError>)
        ensures
            match spec_tokenize_from(expression@, 0) {
                Ok(ts) => r matches Ok(p) && p.wf() && p.toks() == ts && p.current_token_index == 0
                    && p.bracket_count == 0,
                Err(e) => r == Err::<Parser, ParserError>(ParserError::UnexpectedToken(e)),
            },
    {
        match tokenize(expression) {
            Ok(tokens) => Ok(Parser { tokens, current_token_index: 0, bracket_count: 0 }),
            Err(e) => Err(ParserError::UnexpectedToken(e)),
        }
    }

    /// Parses one expression from the current cursor.  The result is exactly
    /// what the grammar says of the token sequence; trailing tokens are
    /// ignored.
    pub fn parse(&mut self) -> (r: Result<Expression, ParserError>)
        requires
            old(self).wf(),
        ensures
            final(self).wf(),
            match spec_expression(
                old(self).toks(),
                old(self).current_token_index as int,
                old(self).bracket_count as int,
            ) {
                Ok((e, _)) => r matches Ok(x) && x@ == e && wf_expr(e),
                Err(k) => r matches Err(pe) && (pe matches ParserError::SyntaxError(m) && m@
                    == spec_syntax_message(k)),
            },
    {
        let expression = self.expression();
        expression
    }

    fn expression(&mut self) -> (r: Result<Expression, ParserError>)
        requires
            old(self).wf(),
        ensures
            parse_step_ok(
                *old(self),
                *final(self),
                r,
                spec_expression(
                    old(self).toks(),
                    old(self).current_token_index as int,
                    old(self).bracket_count as int,
                ),
            ),
        decreases self.tokens@.len() - self.current_token_index, 6int,
    {
        let expression = self.term();
        expression
    }

    #[verifier::loop_isolation(false)]
    fn term(&mut self) -> (r: Result<Expression, ParserError>)
        requires
            old(self).wf(),
        ensures
            parse_step_ok(
                *old(self),
                *final(self),
                r,
                spec_term(
                    old(self).toks(),
                    old(self).current_token_index as int,
                    old(self).bracket_count as int,
                ),
            ),
        decreases self.tokens@.len() - self.current_token_index, 5int,
    {
        let ghost t = old(self).toks();
        let ghost i0 = old(self).current_token_index as int;
        let ghost d = old(self).bracket_count as int;
        let first = self.factor();
        let mut expression = match first {
            Ok(e) => e,
            Err(pe) => {
                return Err(pe);
            },
        };
        loop
            invariant
                self.wf(),
                self.toks() == t,
                self.bracket_count == old(self).bracket_count,
                i0 < self.current_token_index <= self.tokens@.len(),
                wf_expr(expression@),
                spec_term(t, i0, d) == spec_term_rest(
                    expression@,
                    t,
                    self.current_token_index as int,
                    d,
                ),
            decreases self.tokens@.len() - self.current_token_index,
        {
            let pk = self.peek();
            match pk {
                Some(Token::Plus) => {
                    self.consume();
                    let rr = self.factor();
                    match rr {
                        Ok(right) => {
                            expression = Expression::Add(Box::new(expression), Box::new(right));
                        },
                        Err(pe) => {
                            return Err(pe);
                        },
                    }
                },
                Some(Token::Minus) => {
                    self.consume();
                    let rr = self.factor();
                    match rr {
                        Ok(right) => {
                            expression = Expression::Subtract(
                                Box::new(expression),
                                Box::new(right),
                            );
                        },
                        Err(pe) => {
                            return Err(pe);
                        },
                    }
                },
                Some(Token::RightParen) => {
                    if self.bracket_count == 0 {
                        return Err(ParserError::SyntaxError(String::from_str("Too many ')'.")));
                    } else {
                        break;
                    }
                },
                Some(Token::LeftParen) => {
                    if self.bracket_count == 0 {
                        return Err(ParserError::SyntaxError(String::from_str("Unexpected '('.")));
                    } else {
                        break;
                    }
                },
                _ => {
                    break;
                },
            }
        }
        Ok(expression)
    }

    #[verifier::loop_isolation(false)]
    fn factor(&mut self) -> (r: Result<Expression, ParserError>)
        requires
            old(self).wf(),
        ensures
            parse_step_ok(
                *old(self),
                *final(self),
                r,
                spec_factor(
                    old(self).toks(),
                    old(self).current_token_index as int,
                    old(self).bracket_count as int,
                ),
            ),
        decreases self.tokens@.len() - self.current_token_index, 3int,
    {
        let ghost t = old(self).toks();
        let ghost i0 = old(self).current_token_index as int;
        let ghost d = old(self).bracket_count as int;
        let first = self.unary();
        let mut expression = match first {
            Ok(e) => e,
            Err(pe) => {
                return Err(pe);
            },
        };
        loop
            invariant
                self.wf(),
                self.toks() == t,
                self.bracket_count == old(self).bracket_count,
                i0 < self.current_token_index <= self.tokens@.len(),
                wf_expr(expression@),
                spec_factor(t, i0, d) == spec_factor_rest(
                    expression@,
                    t,
                    self.current_token_index as int,
                    d,
                ),
            decreases self.tokens@.len() - self.current_token_index,
        {
            let pk = self.peek();
            match pk {
                Some(Token::Star) => {
                    self.consume();
                    let rr = self.unary();
                    match rr {
                        Ok(right) => {
                            expression = Expression::Multiply(
                                Box::new(expression),
                                Box::new(right),
                            );
                        },
                        Err(pe) => {
                            return Err(pe);
                        },
                    }
                },
                Some(Token::Slash) => {
                    self.consume();
                    let rr = self.unary();
                    match rr {
                        Ok(right) => {
                            expression = Expression::Divide(Box::new(expression), Box::new(right));
                        },
                        Err(pe) => {
                            return Err(pe);
                        },
                    }
                },
                Some(Token::RightParen) => {
                    if self.bracket_count == 0 {
                        return Err(ParserError::SyntaxError(String::from_str("Too many ')'.")));
                    } else {
                        break;
                    }
                },
                _ => {
                    break;
                },
            }
        }
        Ok(expression)
    }

    fn unary(&mut self) -> (r: Result<Expression, ParserError>)
        requires
            old(self).wf(),
        ensures
            parse_step_ok(
                *old(self),
                *final(self),
                r,
                spec_unary(
                    old(self).toks(),
                    old(self).current_token_index as int,
                    old(self).bracket_count as int,
                ),
            ),
        decreases self.tokens@.len() - self.current_token_index, 1int,
    {
        let pk = self.peek();
        match pk {
            Some(Token::Minus) => {
                self.consume();
                let rr = self.unary();
                match rr {
                    Ok(right) => Ok(Expression::Negate(Box::new(right))),
                    Err(pe) => Err(pe),
                }
            },
            _ => self.primary(),
        }
    }

    fn primary(&mut self) -> (r: Result<Expression, ParserError>)
        requires
            old(self).wf(),
        ensures
            parse_step_ok(
                *old(self),
                *final(self),
                r,
                spec_primary(
                    old(self).toks(),
                    old(self).current_token_index as int,
                    old(self).bracket_count as int,
                ),
            ),
        decreases self.tokens@.len() - self.current_token_index, 0int,
    {
        let nx = self.next();
        match nx {
            Some(Token::Number(lit)) => Ok(Expression::Number(lit)),
            Some(Token::LeftParen) => {
                self.bracket_count = self.bracket_count + 1;
                let er = self.expression();
                match er {
                    Ok(e) => match self.consume_right_paren() {
                        Ok(()) => Ok(Expression::Grouping(Box::new(e))),
                        Err(pe) => Err(pe),
                    },
                    Err(pe) => Err(pe),
                }
            },
            _ => Err(ParserError::SyntaxError(String::from_str("Expected number or '('."))),
        }
    }

    /// Advances the cursor over the current token when one is left.
    fn consume(&mut self)
        requires
            old(self).wf(),
        ensures
            final(self).wf(),
            final(self).tokens == old(self).tokens,
            final(self).bracket_count == old(self).bracket_count,
            final(self).current_token_index == if old(self).current_token_index < old(self).tokens@.len() {
                old(self).current_token_index + 1
            } else {
                old(self).current_token_index as int
            },
    {
        if !self.is_at_end() {
            self.current_token_index = self.current_token_index + 1;
        }
    }

    /// Consumes the `)` that must close the parenthesis opened most
    /// recently; anything else is the missing-parenthesis violation.
    fn consume_right_paren(&mut self) -> (r: Result<(), ParserError>)
        requires
            old(self).wf(),
            old(self).bracket_count >= 1,
        ensures
            final(self).wf(),
            final(self).tokens == old(self).tokens,
            if old(self).current_token_index < old(self).tokens@.len() && old(self).tokens@[old(self).current_token_index as int]@ is RightParen {
                &&& r is Ok
                &&& final(self).current_token_index == old(self).current_token_index + 1
                &&& final(self).bracket_count == old(self).bracket_count - 1
            } else {
                r matches Err(pe) && (pe matches ParserError::SyntaxError(m) && m@
                    == spec_syntax_message(SyntaxKind::ExpectClose))
            },
    {
        let nx = self.next();
        match nx {
            Some(Token::RightParen) => {
                self.bracket_count = self.bracket_count - 1;
                Ok(())
            },
            _ => Err(ParserError::SyntaxError(String::from_str("Expect ')' after expression."))),
        }
    }

    /// Whether the cursor is past the last token.
    fn is_at_end(&self) -> (b: bool)
        ensures
            b == (self.current_token_index >= self.tokens@.len()),
            self.tokens@.len() <= usize::MAX,
    {
        self.current_token_index >= self.tokens.len()
    }

    /// The current token without advancing, or nothing at the end.
    fn peek(&self) -> (r: Option<Token>)
        ensures
            self.current_token_index < self.tokens@.len() ==> (r matches Some(tk) && tk
                == self.tokens@[self.current_token_index as int]),
            self.current_token_index >= self.tokens@.len() ==> r is None,
    {
        if self.is_at_end() {
            return None;
        }
        Some(self.tokens[self.current_token_index].clone())
    }

    /// The current token, advancing past it; nothing at the end.
    fn next(&mut self) -> (r: Option<Token>)
        requires
            old(self).wf(),
        ensures
            final(self).wf(),
            final(self).tokens == old(self).tokens,
            final(self).bracket_count == old(self).bracket_count,
            old(self).current_token_index < old(self).tokens@.len() ==> (r matches Some(tk) && tk
                == old(self).tokens@[old(self).current_token_index as int] && final(self).current_token_index == old(self).current_token_index + 1),
            old(self).current_token_index >= old(self).tokens@.len() ==> r is None && final(self).current_token_index == old(self).current_token_index,
    {
        let token = self.peek();
        if self.current_token_index < self.tokens.len() {
            self.current_token_index = self.current_token_index + 1;
        }
        token
    }
}

} // verus!
