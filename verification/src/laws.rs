//! The round trip of bracket placement.
//!
//! A *fully parenthesized* tree is one whose every operand of a binary or
//! unary operator is a literal, a negation, or an explicit grouping — the
//! shape in which rendered text carries all structure in its brackets.  For
//! such trees this module proves that parsing inverts rendering: the token
//! sequence of the rendered text parses back to exactly the same tree.

use vstd::prelude::*;

use crate::parser::ExprView;
use crate::parser::SyntaxKind;
use crate::parser::spec_expression;
use crate::parser::spec_factor;
use crate::parser::spec_factor_rest;
use crate::parser::spec_parse_tokens;
use crate::parser::spec_primary;
use crate::parser::spec_term;
use crate::parser::spec_term_rest;
use crate::parser::spec_unary;
use crate::parser::wf_expr;
use crate::tokenizer::TokenView;
use crate::tokenizer::TokenizingError;
use crate::tokenizer::is_digit_char;
use crate::tokenizer::spec_next_token;
use crate::tokenizer::spec_scan_number_end;
use crate::tokenizer::spec_skip_spaces;
use crate::tokenizer::spec_tokenize_from;
use crate::tokenizer::wf_literal;
use crate::visitors::spec_pretty;

verus! {

/// The tokens of a tree's rendered text, in order: rendering and then
/// tokenizing produces exactly this sequence, since the renderer separates
/// every pair of tokens.
pub open spec fn print_tokens(e: ExprView) -> Seq<TokenView>
    decreases e,
{
    match e {
        ExprView::Number(t) => seq![TokenView::Number(t)],
        ExprView::Add(l, r) => print_tokens(*l) + seq![TokenView::Plus] + print_tokens(*r),
        ExprView::Subtract(l, r) => print_tokens(*l) + seq![TokenView::Minus] + print_tokens(*r),
        ExprView::Multiply(l, r) => print_tokens(*l) + seq![TokenView::Star] + print_tokens(*r),
        ExprView::Divide(l, r) => print_tokens(*l) + seq![TokenView::Slash] + print_tokens(*r),
        ExprView::Negate(x) => seq![TokenView::Minus] + print_tokens(*x),
        ExprView::Grouping(x) => seq![TokenView::LeftParen] + print_tokens(*x) + seq![
            TokenView::RightParen,
        ],
    }
}

/// A tree that can stand as an operand without extra brackets: a literal, a
/// grouping, or a negation.
pub open spec fn operand_shape(e: ExprView) -> bool {
    e is Number || e is Grouping || e is Negate
}

/// Fully parenthesized: every operand of a binary operator or a negation is
/// itself an operand shape, and every literal is well formed.
pub open spec fn fully_parenthesized(e: ExprView) -> bool
    decreases e,
{
    match e {
        ExprView::Number(t) => wf_literal(t),
        ExprView::Add(l, r) => operand_shape(*l) && operand_shape(*r) && fully_parenthesized(*l)
            && fully_parenthesized(*r),
        ExprView::Subtract(l, r) => operand_shape(*l) && operand_shape(*r) && fully_parenthesized(
            *l,
        ) && fully_parenthesized(*r),
        ExprView::Multiply(l, r) => operand_shape(*l) && operand_shape(*r) && fully_parenthesized(
            *l,
        ) && fully_parenthesized(*r),
        ExprView::Divide(l, r) => operand_shape(*l) && operand_shape(*r) && fully_parenthesized(*l)
            && fully_parenthesized(*r),
        ExprView::Negate(x) => operand_shape(*x) && fully_parenthesized(*x),
        ExprView::Grouping(x) => fully_parenthesized(*x),
    }
}

/// The tokens of `e` sit in `toks` starting at `i`.
pub open spec fn tokens_at(toks: Seq<TokenView>, i: int, e: ExprView) -> bool {
    &&& 0 <= i
    &&& i + print_tokens(e).len() <= toks.len()
    &&& toks.subrange(i, i + print_tokens(e).len() as int) == print_tokens(e)
}

/// A `factor` stops folding at position `j`: no further `*` or `/`, and no
/// depth-zero `)`.
pub open spec fn stops_factor(toks: Seq<TokenView>, j: int, d: int) -> bool {
    j == toks.len() || (!(toks[j] is Star || toks[j] is Slash) && !(toks[j] is RightParen && d
        == 0))
}

/// A `term` stops folding at position `j`: no further operator, and no
/// depth-zero bracket violation.
pub open spec fn stops_term(toks: Seq<TokenView>, j: int, d: int) -> bool {
    j == toks.len() || (!(toks[j] is Plus || toks[j] is Minus || toks[j] is Star
        || toks[j] is Slash) && !((toks[j] is RightParen || toks[j] is LeftParen) && d == 0))
}

proof fn lemma_print_tokens_len(e: ExprView)
    ensures
        print_tokens(e).len() >= 1,
{
    match e {
        ExprView::Number(_) => {},
        ExprView::Add(l, r) => {},
        ExprView::Subtract(l, r) => {},
        ExprView::Multiply(l, r) => {},
        ExprView::Divide(l, r) => {},
        ExprView::Negate(x) => {},
        ExprView::Grouping(x) => {},
    }
}

/// Parsing a `primary` over the tokens of a literal or a grouping yields the
/// tree itself and lands just past it.
proof fn lemma_rt_primary(e: ExprView, toks: Seq<TokenView>, i: int, d: int)
    requires
        fully_parenthesized(e),
        e is Number || e is Grouping,
        tokens_at(toks, i, e),
        0 <= d,
    ensures
        spec_primary(toks, i, d) == Ok::<(ExprView, int), SyntaxKind>(
            (e, i + print_tokens(e).len()),
        ),
    decreases e, 0int,
{
    match e {
        ExprView::Number(t) => {
            assert(toks[i] == print_tokens(e)[0]);
            assert(toks[i] == TokenView::Number(t));
        },
        ExprView::Grouping(x) => {
            let m = print_tokens(*x).len() as int;
            assert(toks[i] == print_tokens(e)[0]);
            assert(toks[i + 1 + m] == print_tokens(e)[1 + m]);
            assert(toks[i] is LeftParen);
            assert(toks[i + 1 + m] is RightParen);
            assert(toks.subrange(i + 1, i + 1 + m) =~= print_tokens(*x)) by {
                assert(forall|k: int|
                    0 <= k < m ==> #[trigger] toks.subrange(i + 1, i + 1 + m)[k] == print_tokens(e)[1 + k]);
            }
            lemma_rt_expression(*x, toks, i + 1, d + 1);
        },
        _ => {},
    }
}

/// Parsing a `unary` over the tokens of an operand shape yields the tree
/// itself.
proof fn lemma_rt_unary(e: ExprView, toks: Seq<TokenView>, i: int, d: int)
    requires
        fully_parenthesized(e),
        operand_shape(e),
        tokens_at(toks, i, e),
        0 <= d,
    ensures
        spec_unary(toks, i, d) == Ok::<(ExprView, int), SyntaxKind>(
            (e, i + print_tokens(e).len()),
        ),
    decreases e, 1int,
{
    match e {
        ExprView::Negate(x) => {
            let m = print_tokens(*x).len() as int;
            assert(toks[i] == print_tokens(e)[0]);
            assert(toks[i] is Minus);
            assert(toks.subrange(i + 1, i + 1 + m) =~= print_tokens(*x)) by {
                assert(forall|k: int|
                    0 <= k < m ==> #[trigger] toks.subrange(i + 1, i + 1 + m)[k] == print_tokens(e)[1 + k]);
            }
            lemma_rt_unary(*x, toks, i + 1, d);
        },
        _ => {
            assert(toks[i] == print_tokens(e)[0]);
            assert(!(toks[i] is Minus));
            lemma_rt_primary(e, toks, i, d);
        },
    }
}

/// Parsing a `factor` over the tokens of an operand shape or one `*`/`/`
/// node yields the tree itself, provided no further factor operator follows.
proof fn lemma_rt_factor(e: ExprView, toks: Seq<TokenView>, i: int, d: int)
    requires
        fully_parenthesized(e),
        operand_shape(e) || e is Multiply || e is Divide,
        tokens_at(toks, i, e),
        0 <= d,
        stops_factor(toks, i + print_tokens(e).len(), d),
    ensures
        spec_factor(toks, i, d) == Ok::<(ExprView, int), SyntaxKind>(
            (e, i + print_tokens(e).len()),
        ),
    decreases e, 2int,
{
    let n = print_tokens(e).len() as int;
    if operand_shape(e) {
        lemma_print_tokens_len(e);
        lemma_rt_unary(e, toks, i, d);
    } else {
        let (l, r) = match e {
            ExprView::Multiply(l, r) => (*l, *r),
            ExprView::Divide(l, r) => (*l, *r),
            _ => (e, e),
        };
        let ml = print_tokens(l).len() as int;
        let mr = print_tokens(r).len() as int;
        lemma_print_tokens_len(l);
        lemma_print_tokens_len(r);
        assert(forall|k: int| 0 <= k < n ==> #[trigger] toks[i + k] == print_tokens(e)[k]);
        assert(toks.subrange(i, i + ml) =~= print_tokens(l)) by {
            assert(forall|k: int|
                0 <= k < ml ==> #[trigger] toks.subrange(i, i + ml)[k] == print_tokens(e)[k]);
        }
        assert(toks[i + ml] == print_tokens(e)[ml]);
        assert(toks.subrange(i + ml + 1, i + n) =~= print_tokens(r)) by {
            assert(forall|k: int|
                0 <= k < mr ==> #[trigger] toks.subrange(i + ml + 1, i + n)[k] == print_tokens(
                    e,
                )[ml + 1 + k]);
        }
        lemma_rt_unary(l, toks, i, d);
        lemma_rt_unary(r, toks, i + ml + 1, d);
        assert(spec_factor_rest(e, toks, i + n, d) == Ok::<(ExprView, int), SyntaxKind>(
            (e, i + n),
        ));
    }
}

/// Parsing a `term` (and so an `expression`) over the tokens of any fully
/// parenthesized tree yields the tree itself, provided no further operator
/// or depth-zero bracket violation follows.
proof fn lemma_rt_expression(e: ExprView, toks: Seq<TokenView>, i: int, d: int)
    requires
        fully_parenthesized(e),
        tokens_at(toks, i, e),
        0 <= d,
        stops_term(toks, i + print_tokens(e).len(), d),
    ensures
        spec_term(toks, i, d) == Ok::<(ExprView, int), SyntaxKind>((e, i + print_tokens(e).len())),
        spec_expression(toks, i, d) == Ok::<(ExprView, int), SyntaxKind>(
            (e, i + print_tokens(e).len()),
        ),
    decreases e, 3int,
{
    let n = print_tokens(e).len() as int;
    if operand_shape(e) || e is Multiply || e is Divide {
        lemma_print_tokens_len(e);
        lemma_rt_factor(e, toks, i, d);
        assert(spec_term_rest(e, toks, i + n, d) == Ok::<(ExprView, int), SyntaxKind>((e, i + n)));
    } else {
        let (l, r) = match e {
            ExprView::Add(l, r) => (*l, *r),
            ExprView::Subtract(l, r) => (*l, *r),
            _ => (e, e),
        };
        let ml = print_tokens(l).len() as int;
        let mr = print_tokens(r).len() as int;
        lemma_print_tokens_len(l);
        lemma_print_tokens_len(r);
        assert(forall|k: int| 0 <= k < n ==> #[trigger] toks[i + k] == print_tokens(e)[k]);
        assert(toks.subrange(i, i + ml) =~= print_tokens(l)) by {
            assert(forall|k: int|
                0 <= k < ml ==> #[trigger] toks.subrange(i, i + ml)[k] == print_tokens(e)[k]);
        }
        assert(toks[i + ml] == print_tokens(e)[ml]);
        assert(toks.subrange(i + ml + 1, i + n) =~= print_tokens(r)) by {
            assert(forall|k: int|
                0 <= k < mr ==> #[trigger] toks.subrange(i + ml + 1, i + n)[k] == print_tokens(
                    e,
                )[ml + 1 + k]);
        }
        lemma_rt_factor(l, toks, i, d);
        lemma_rt_factor(r, toks, i + ml + 1, d);
        assert(spec_term_rest(e, toks, i + n, d) == Ok::<(ExprView, int), SyntaxKind>((e, i + n)));
    }
}

/// Prepends already-produced tokens onto the outcome of tokenizing the rest.
pub open spec fn tok_combine(pre: Seq<TokenView>, r: Result<Seq<TokenView>, TokenizingError>) -> Result<
    Seq<TokenView>,
    TokenizingError,
> {
    match r {
        Ok(rest) => Ok(pre + rest),
        Err(er) => Err(er),
    }
}

proof fn lemma_tok_combine_assoc(
    p1: Seq<TokenView>,
    p2: Seq<TokenView>,
    r: Result<Seq<TokenView>, TokenizingError>,
)
    ensures
        tok_combine(p1, tok_combine(p2, r)) == tok_combine(p1 + p2, r),
{
    match r {
        Ok(rest) => {
            assert(p1 + (p2 + rest) =~= (p1 + p2) + rest);
        },
        Err(_) => {},
    }
}

/// A number scan that starts inside a run of digits and dots ends exactly
/// where the run does.
proof fn lemma_scan_exact(s: Seq<char>, k: int, end: int)
    requires
        0 <= k <= end <= s.len(),
        forall|j: int| k <= j < end ==> is_digit_char(s[j]) || s[j] == '.',
        end == s.len() || !(is_digit_char(s[end]) || s[end] == '.'),
    ensures
        spec_scan_number_end(s, k) == end,
    decreases end - k,
{
    if k < end {
        lemma_scan_exact(s, k + 1, end);
    }
}

/// Tokenizing from a space is tokenizing from the next position.
proof fn lemma_tokenize_space(s: Seq<char>, k: int)
    requires
        0 <= k < s.len(),
        s[k] == ' ',
    ensures
        spec_tokenize_from(s, k) == spec_tokenize_from(s, k + 1),
{
    assert(spec_skip_spaces(s, k) == spec_skip_spaces(s, k + 1));
    assert(spec_next_token(s, k) == spec_next_token(s, k + 1));
}

/// Position `j` cannot extend a numeric literal that ends just before it.
pub open spec fn number_boundary(s: Seq<char>, j: int) -> bool {
    j == s.len() || !(is_digit_char(s[j]) || s[j] == '.')
}

/// The rendered text of `e` sits in `s` starting at `i`, with nothing after
/// it that could fuse with its last token.
pub open spec fn pretty_at(s: Seq<char>, i: int, e: ExprView) -> bool {
    &&& 0 <= i
    &&& i + spec_pretty(e).len() <= s.len()
    &&& s.subrange(i, i + spec_pretty(e).len() as int) == spec_pretty(e)
    &&& number_boundary(s, i + spec_pretty(e).len())
}

/// Tokenizing across the rendered text of `e` produces exactly its tokens,
/// then goes on where the text ends.
proof fn lemma_tokenize_pretty_at(e: ExprView, s: Seq<char>, i: int)
    requires
        wf_expr(e),
        pretty_at(s, i, e),
    ensures
        spec_tokenize_from(s, i) == tok_combine(
            print_tokens(e),
            spec_tokenize_from(s, i + spec_pretty(e).len()),
        ),
    decreases e,
{
    let n = spec_pretty(e).len() as int;
    match e {
        ExprView::Number(t) => {
            assert(spec_pretty(e) == t);
            assert forall|j: int| i <= j < i + n implies is_digit_char(s[j]) || s[j] == '.' by {
                assert(s.subrange(i, i + n)[j - i] == s[j]);
                assert(s[j] == t[j - i]);
            }
            assert(s.subrange(i, i + n)[0] == s[i]);
            assert(s[i] == t[0]);
            assert(is_digit_char(s[i]));
            assert(spec_skip_spaces(s, i) == i);
            lemma_scan_exact(s, i + 1, i + n);
            assert(s.subrange(i, i + n) == t);
            assert(spec_next_token(s, i) == (
                Some(Ok::<TokenView, TokenizingError>(TokenView::Number(t))),
                i + n,
            ));
            assert(print_tokens(e) =~= seq![TokenView::Number(t)]);
        },
        ExprView::Add(l, r) => {
            lemma_tokenize_pretty_binary(e, *l, *r, s, i);
        },
        ExprView::Subtract(l, r) => {
            lemma_tokenize_pretty_binary(e, *l, *r, s, i);
        },
        ExprView::Multiply(l, r) => {
            lemma_tokenize_pretty_binary(e, *l, *r, s, i);
        },
        ExprView::Divide(l, r) => {
            lemma_tokenize_pretty_binary(e, *l, *r, s, i);
        },
        ExprView::Negate(x) => {
            let m = spec_pretty(*x).len() as int;
            reveal_strlit("-");
            assert(s.subrange(i, i + n)[0] == s[i]);
            assert(s[i] == spec_pretty(e)[0]);
            assert(s[i] == '-');
            assert(spec_skip_spaces(s, i) == i);
            assert(spec_next_token(s, i) == (
                Some(Ok::<TokenView, TokenizingError>(TokenView::Minus)),
                i + 1,
            ));
            assert(s.subrange(i + 1, i + 1 + m) =~= spec_pretty(*x)) by {
                assert(forall|k: int|
                    0 <= k < m ==> #[trigger] s.subrange(i + 1, i + 1 + m)[k] == spec_pretty(e)[1
                        + k]);
            }
            lemma_tokenize_pretty_at(*x, s, i + 1);
            lemma_tok_combine_assoc(
                seq![TokenView::Minus],
                print_tokens(*x),
                spec_tokenize_from(s, i + n),
            );
            assert(seq![TokenView::Minus] + print_tokens(*x) =~= print_tokens(e));
        },
        ExprView::Grouping(x) => {
            let m = spec_pretty(*x).len() as int;
            reveal_strlit("(");
            reveal_strlit(")");
            assert(s.subrange(i, i + n)[0] == s[i]);
            assert(s[i] == spec_pretty(e)[0]);
            assert(s[i] == '(');
            assert(s.subrange(i, i + n)[1 + m] == s[i + 1 + m]);
            assert(s[i + 1 + m] == spec_pretty(e)[1 + m]);
            assert(s[i + 1 + m] == ')');
            assert(spec_skip_spaces(s, i) == i);
            assert(spec_next_token(s, i) == (
                Some(Ok::<TokenView, TokenizingError>(TokenView::LeftParen)),
                i + 1,
            ));
            assert(s.subrange(i + 1, i + 1 + m) =~= spec_pretty(*x)) by {
                assert(forall|k: int|
                    0 <= k < m ==> #[trigger] s.subrange(i + 1, i + 1 + m)[k] == spec_pretty(e)[1
                        + k]);
            }
            lemma_tokenize_pretty_at(*x, s, i + 1);
            assert(spec_skip_spaces(s, i + 1 + m) == i + 1 + m);
            assert(spec_next_token(s, i + 1 + m) == (
                Some(Ok::<TokenView, TokenizingError>(TokenView::RightParen)),
                i + n,
            ));
            assert(spec_tokenize_from(s, i + 1 + m) == tok_combine(
                seq![TokenView::RightParen],
                spec_tokenize_from(s, i + n),
            ));
            lemma_tok_combine_assoc(
                print_tokens(*x),
                seq![TokenView::RightParen],
                spec_tokenize_from(s, i + n),
            );
            lemma_tok_combine_assoc(
                seq![TokenView::LeftParen],
                print_tokens(*x) + seq![TokenView::RightParen],
                spec_tokenize_from(s, i + n),
            );
            assert(seq![TokenView::LeftParen] + (print_tokens(*x) + seq![TokenView::RightParen])
                =~= print_tokens(e));
        },
    }
}

/// The binary cases of [`lemma_tokenize_pretty_at`]: the left operand's
/// text, a space, the operator, a space, the right operand's text.
proof fn lemma_tokenize_pretty_binary(e: ExprView, l: ExprView, r: ExprView, s: Seq<char>, i: int)
    requires
        wf_expr(e),
        pretty_at(s, i, e),
        (e matches ExprView::Add(bl, br) && *bl == l && *br == r) || (e
            matches ExprView::Subtract(bl, br) && *bl == l && *br == r) || (e
            matches ExprView::Multiply(bl, br) && *bl == l && *br == r) || (e
            matches ExprView::Divide(bl, br) && *bl == l && *br == r),
    ensures
        spec_tokenize_from(s, i) == tok_combine(
            print_tokens(e),
            spec_tokenize_from(s, i + spec_pretty(e).len()),
        ),
    decreases e, l, r,
{
    let n = spec_pretty(e).len() as int;
    let ml = spec_pretty(l).len() as int;
    let mr = spec_pretty(r).len() as int;
    let (opc, opt) = match e {
        ExprView::Add(_, _) => ('+', TokenView::Plus),
        ExprView::Subtract(_, _) => ('-', TokenView::Minus),
        ExprView::Multiply(_, _) => ('*', TokenView::Star),
        ExprView::Divide(_, _) => ('/', TokenView::Slash),
        _ => (' ', TokenView::Plus),
    };
    reveal_strlit(" + ");
    reveal_strlit(" - ");
    reveal_strlit(" * ");
    reveal_strlit(" / ");
    assert(spec_pretty(e).len() == ml + 3 + mr);
    assert(s.subrange(i, i + n)[ml] == s[i + ml]);
    assert(s[i + ml] == spec_pretty(e)[ml]);
    assert(s[i + ml] == ' ');
    assert(s.subrange(i, i + n)[ml + 1] == s[i + ml + 1]);
    assert(s[i + ml + 1] == spec_pretty(e)[ml + 1]);
    assert(s[i + ml + 1] == opc);
    assert(s.subrange(i, i + n)[ml + 2] == s[i + ml + 2]);
    assert(s[i + ml + 2] == spec_pretty(e)[ml + 2]);
    assert(s[i + ml + 2] == ' ');
    assert(s.subrange(i, i + ml) =~= spec_pretty(l)) by {
        assert(forall|k: int|
            0 <= k < ml ==> #[trigger] s.subrange(i, i + ml)[k] == spec_pretty(e)[k]);
    }
    assert(s.subrange(i + ml + 3, i + n) =~= spec_pretty(r)) by {
        assert(forall|k: int|
            0 <= k < mr ==> #[trigger] s.subrange(i + ml + 3, i + n)[k] == spec_pretty(e)[ml + 3
                + k]);
    }
    lemma_tokenize_pretty_at(l, s, i);
    lemma_tokenize_space(s, i + ml);
    assert(spec_skip_spaces(s, i + ml + 1) == i + ml + 1);
    assert(spec_next_token(s, i + ml + 1) == (Some(Ok::<TokenView, TokenizingError>(opt)), i + ml
        + 2));
    assert(spec_tokenize_from(s, i + ml + 1) == tok_combine(
        seq![opt],
        spec_tokenize_from(s, i + ml + 2),
    ));
    lemma_tokenize_space(s, i + ml + 2);
    lemma_tokenize_pretty_at(r, s, i + ml + 3);
    lemma_tok_combine_assoc(seq![opt], print_tokens(r), spec_tokenize_from(s, i + n));
    lemma_tok_combine_assoc(
        print_tokens(l),
        seq![opt] + print_tokens(r),
        spec_tokenize_from(s, i + n),
    );
    assert(print_tokens(l) + (seq![opt] + print_tokens(r)) =~= print_tokens(e));
}

/// A fully parenthesized tree has well-formed literals throughout.
proof fn lemma_fully_parenthesized_wf(e: ExprView)
    requires
        fully_parenthesized(e),
    ensures
        wf_expr(e),
    decreases e,
{
    match e {
        ExprView::Number(_) => {},
        ExprView::Add(l, r) => {
            lemma_fully_parenthesized_wf(*l);
            lemma_fully_parenthesized_wf(*r);
        },
        ExprView::Subtract(l, r) => {
            lemma_fully_parenthesized_wf(*l);
            lemma_fully_parenthesized_wf(*r);
        },
        ExprView::Multiply(l, r) => {
            lemma_fully_parenthesized_wf(*l);
            lemma_fully_parenthesized_wf(*r);
        },
        ExprView::Divide(l, r) => {
            lemma_fully_parenthesized_wf(*l);
            lemma_fully_parenthesized_wf(*r);
        },
        ExprView::Negate(x) => {
            lemma_fully_parenthesized_wf(*x);
        },
        ExprView::Grouping(x) => {
            lemma_fully_parenthesized_wf(*x);
        },
    }
}

/// Tokenizing a tree's rendered text yields exactly its tokens.
pub proof fn lemma_tokenize_inverts_pretty(e: ExprView)
    requires
        wf_expr(e),
    ensures
        spec_tokenize_from(spec_pretty(e), 0) == Ok::<Seq<TokenView>, TokenizingError>(
            print_tokens(e),
        ),
{
    let s = spec_pretty(e);
    assert(s.subrange(0, s.len() as int) =~= s);
    lemma_tokenize_pretty_at(e, s, 0);
    assert(spec_skip_spaces(s, s.len() as int) == s.len());
    assert(spec_tokenize_from(s, s.len() as int) == Ok::<Seq<TokenView>, TokenizingError>(
        Seq::empty(),
    ));
    assert(print_tokens(e) + Seq::<TokenView>::empty() =~= print_tokens(e));
}

/// Round trip of bracket placement: the rendered text of a fully
/// parenthesized tree tokenizes to exactly the tree's tokens, and parsing
/// those tokens yields exactly the tree back.  Rendering normalizes nothing
/// but whitespace, so a fully parenthesized input that is already in the
/// renderer's spacing comes back unchanged.
pub proof fn lemma_pretty_print_round_trip(e: ExprView)
    requires
        fully_parenthesized(e),
    ensures
        spec_tokenize_from(spec_pretty(e), 0) == Ok::<Seq<TokenView>, TokenizingError>(
            print_tokens(e),
        ),
        spec_parse_tokens(print_tokens(e)) == Ok::<ExprView, SyntaxKind>(e),
{
    lemma_fully_parenthesized_wf(e);
    lemma_tokenize_inverts_pretty(e);
    lemma_parse_inverts_print(e);
}

/// Round trip of bracket placement, token level: for every fully
/// parenthesized tree, parsing the token sequence of its rendered text
/// yields exactly the tree back.
pub proof fn lemma_parse_inverts_print(e: ExprView)
    requires
        fully_parenthesized(e),
    ensures
        spec_parse_tokens(print_tokens(e)) == Ok::<ExprView, SyntaxKind>(e),
{
    let toks = print_tokens(e);
    assert(toks.subrange(0, toks.len() as int) =~= toks);
    lemma_rt_expression(e, toks, 0, 0);
}

} // verus!
