//! Lexical analysis: turns an input string into a sequence of tokens.
//!
//! Only the space character is skipped between tokens.  A digit starts a
//! numeric literal, which greedily takes the following digits and dots; the
//! literal is valid exactly when it contains at most one dot.  Any other
//! character is an error carrying that character.

use vstd::prelude::*;
use vstd::string::*;

verus! {

/// The text of a numeric literal, exactly as it was scanned from the input.
///
/// A literal produced by the tokenizer is well formed (see [`wf_literal`]):
/// it starts with a digit, consists of digits and at most one dot, and is
/// never empty.
#[derive(Debug, PartialEq, Eq)]
pub struct NumberLiteral {
    pub text: String,
}

impl View for NumberLiteral {
    type V = Seq<char>;

    open spec fn view(&self) -> Seq<char> {
        self.text@
    }
}

impl Clone for NumberLiteral {
    fn clone(&self) -> (r: Self)
        ensures
            r == *self,
    {
        NumberLiteral { text: self.text.clone() }
    }
}

/// One lexical token of the expression language.
#[derive(Debug, PartialEq, Eq)]
pub enum Token {
    Plus,
    Minus,
    Star,
    Slash,
    LeftParen,
    RightParen,
    Number(NumberLiteral),
}

/// The mathematical value of a token: as [`Token`], with the literal's text
/// as a sequence of characters.
pub enum TokenView {
    Plus,
    Minus,
    Star,
    Slash,
    LeftParen,
    RightParen,
    Number(Seq<char>),
}

impl View for Token {
    type V = TokenView;

    open spec fn view(&self) -> TokenView {
        match self {
            Token::Plus => TokenView::Plus,
            Token::Minus => TokenView::Minus,
            Token::Star => TokenView::Star,
            Token::Slash => TokenView::Slash,
            Token::LeftParen => TokenView::LeftParen,
            Token::RightParen => TokenView::RightParen,
            Token::Number(lit) => TokenView::Number(lit@),
        }
    }
}

impl Clone for Token {
    fn clone(&self) -> (r: Self)
        ensures
            r == *self,
    {
        match self {
            Token::Plus => Token::Plus,
            Token::Minus => Token::Minus,
            Token::Star => Token::Star,
            Token::Slash => Token::Slash,
            Token::LeftParen => Token::LeftParen,
            Token::RightParen => Token::RightParen,
            Token::Number(lit) => Token::Number(lit.clone()),
        }
    }
}

/// The view of a token vector: each token's view, in order.
pub open spec fn tokens_view(ts: Seq<Token>) -> Seq<TokenView> {
    ts.map_values(|t: Token| t@)
}

/// A failure of lexical analysis.
#[derive(Debug, PartialEq, Eq, Clone, Copy)]
pub enum TokenizingError {
    /// A character that no token can start with, carrying that character.
    InvalidCharacter(char),
    /// A numeric literal with more than one dot.
    InvalidNumber,
}

/// The textual rendering of a tokenizing error.
pub open spec fn spec_tokenizing_message(e: TokenizingError) -> Seq<char> {
    match e {
        TokenizingError::InvalidCharacter(c) => "Unexpected token '"@ + seq![c] + "'"@,
        TokenizingError::InvalidNumber => "Invalid number format"@,
    }
}

impl TokenizingError {
    /// The error's message, as the console shows it.
    pub fn message(&self) -> (r: String)
        ensures
            r@ == spec_tokenizing_message(*self),
    {
        match self {
            TokenizingError::InvalidCharacter(c) => {
                let mut s = String::from_str("Unexpected token '");
                string_push(&mut s, *c);
                s.append("'");
                proof {
                    assert(s@ =~= spec_tokenizing_message(*self));
                }
                s
            },
            TokenizingError::InvalidNumber => String::from_str("Invalid number format"),
        }
    }
}

/// Relies on std's `String::push`: appends the given character to the end of
/// the string.
pub assume_specification[ String::push ](s: &mut String, c: char)
    ensures
        final(s)@ == old(s)@.push(c),
;

/// Appends one character to a string.  Named so call sites read uniformly.
pub(crate) fn string_push(s: &mut String, c: char)
    ensures
        final(s)@ == old(s)@.push(c),
{
    s.push(c);
}

/// A number token's literal is well formed; any other token trivially is.
pub open spec fn wf_number_token(t: Token) -> bool {
    t matches Token::Number(lit) ==> wf_literal(lit@)
}

pub open spec fn is_digit_char(c: char) -> bool {
    '0' <= c && c <= '9'
}

/// The number of dots in a sequence of characters.
pub open spec fn count_dots(s: Seq<char>) -> nat
    decreases s.len(),
{
    if s.len() == 0 {
        0
    } else {
        count_dots(s.drop_last()) + if s.last() == '.' {
            1nat
        } else {
            0nat
        }
    }
}

/// A well-formed numeric literal: nonempty, starting with a digit, made of
/// digits and at most one dot.
pub open spec fn wf_literal(s: Seq<char>) -> bool {
    &&& s.len() >= 1
    &&& is_digit_char(s[0])
    &&& forall|i: int| 0 <= i < s.len() ==> is_digit_char(s[i]) || s[i] == '.'
    &&& count_dots(s) <= 1
}

/// The first position at or after `i` whose character is not a space
/// (or the end of the input).
pub open spec fn spec_skip_spaces(s: Seq<char>, i: int) -> int
    decreases s.len() - i,
{
    if i < 0 || i >= s.len() {
        i
    } else if s[i] == ' ' {
        spec_skip_spaces(s, i + 1)
    } else {
        i
    }
}

/// The first position at or after `i` whose character is neither a digit nor
/// a dot (or the end of the input).
pub open spec fn spec_scan_number_end(s: Seq<char>, i: int) -> int
    decreases s.len() - i,
{
    if i < 0 || i >= s.len() {
        i
    } else if is_digit_char(s[i]) || s[i] == '.' {
        spec_scan_number_end(s, i + 1)
    } else {
        i
    }
}

pub proof fn lemma_skip_spaces_bounds(s: Seq<char>, i: int)
    requires
        0 <= i <= s.len(),
    ensures
        i <= spec_skip_spaces(s, i) <= s.len(),
    decreases s.len() - i,
{
    if i < s.len() && s[i] == ' ' {
        lemma_skip_spaces_bounds(s, i + 1);
    }
}

pub proof fn lemma_scan_number_end_bounds(s: Seq<char>, i: int)
    requires
        0 <= i <= s.len(),
    ensures
        i <= spec_scan_number_end(s, i) <= s.len(),
    decreases s.len() - i,
{
    if i < s.len() && (is_digit_char(s[i]) || s[i] == '.') {
        lemma_scan_number_end_bounds(s, i + 1);
    }
}

/// What one step of the tokenizer yields from position `i`: the token or
/// error, if any, and the position of the first character after it.
pub open spec fn spec_next_token(s: Seq<char>, i: int) -> (Option<
    Result<TokenView, TokenizingError>,
>, int) {
    let p = spec_skip_spaces(s, i);
    if p >= s.len() {
        (None, p)
    } else {
        let c = s[p];
        if c == '+' {
            (Some(Ok(TokenView::Plus)), p + 1)
        } else if c == '-' {
            (Some(Ok(TokenView::Minus)), p + 1)
        } else if c == '*' {
            (Some(Ok(TokenView::Star)), p + 1)
        } else if c == '/' {
            (Some(Ok(TokenView::Slash)), p + 1)
        } else if c == '(' {
            (Some(Ok(TokenView::LeftParen)), p + 1)
        } else if c == ')' {
            (Some(Ok(TokenView::RightParen)), p + 1)
        } else if is_digit_char(c) {
            let e = spec_scan_number_end(s, p + 1);
            let text = s.subrange(p, e);
            if count_dots(text) <= 1 {
                (Some(Ok(TokenView::Number(text))), e)
            } else {
                (Some(Err(TokenizingError::InvalidNumber)), e)
            }
        } else {
            (Some(Err(TokenizingError::InvalidCharacter(c))), p + 1)
        }
    }
}

/// The whole token sequence from position `i`, or the first error.
pub open spec fn spec_tokenize_from(s: Seq<char>, i: int) -> Result<
    Seq<TokenView>,
    TokenizingError,
>
    decreases s.len() - i,
    when 0 <= i <= s.len()
    via spec_tokenize_from_decreases
{
    match spec_next_token(s, i) {
        (None, _) => Ok(Seq::empty()),
        (Some(Err(e)), _) => Err(e),
        (Some(Ok(t)), j) => match spec_tokenize_from(s, j) {
            Ok(rest) => Ok(seq![t] + rest),
            Err(e) => Err(e),
        },
    }
}

#[via_fn]
proof fn spec_tokenize_from_decreases(s: Seq<char>, i: int) {
    if 0 <= i <= s.len() {
        lemma_next_token_advances(s, i);
    }
}

/// When a token or error is produced, the cursor strictly advances and stays
/// within the input.
pub proof fn lemma_next_token_advances(s: Seq<char>, i: int)
    requires
        0 <= i <= s.len(),
    ensures
        spec_next_token(s, i).0 is Some ==> i < spec_next_token(s, i).1 <= s.len(),
        spec_next_token(s, i).0 is None ==> spec_next_token(s, i).1 == spec_skip_spaces(s, i),
{
    lemma_skip_spaces_bounds(s, i);
    let p = spec_skip_spaces(s, i);
    if p < s.len() {
        let c = s[p];
        if is_digit_char(c) && !(c == '+' || c == '-' || c == '*' || c == '/' || c == '(' || c
            == ')') {
            lemma_scan_number_end_bounds(s, p + 1);
        }
    }
}

/// Checks whether a character is an ASCII digit.
fn is_digit(c: char) -> (b: bool)
    ensures
        b == is_digit_char(c),
{
    c >= '0' && c <= '9'
}

/// A cursor over the characters of one input string, handing out one token
/// at a time.
pub struct Tokenizer {
    pub chars: Vec<char>,
    pub pos: usize,
}

impl Tokenizer {
    pub open spec fn wf(self) -> bool {
        self.pos <= self.chars@.len()
    }

    pub fn new(expr: &str) -> (t: Tokenizer)
        ensures
            t.wf(),
            t.chars@ == expr@,
            t.pos == 0,
    {
        Tokenizer { chars: str_chars(expr), pos: 0 }
    }

    /// Advances the cursor past any spaces.  Only the space character is
    /// skipped; all other whitespace is significant.
    fn skip_whitespace(&mut self)
        requires
            old(self).wf(),
        ensures
            final(self).wf(),
            final(self).chars@ == old(self).chars@,
            final(self).pos == spec_skip_spaces(old(self).chars@, old(self).pos as int),
    {
        let ghost s = self.chars@;
        let ghost p0 = self.pos as int;
        while self.pos < self.chars.len() && self.chars[self.pos] == ' '
            invariant
                self.wf(),
                self.chars@ == s,
                p0 <= self.pos,
                spec_skip_spaces(s, self.pos as int) == spec_skip_spaces(s, p0),
            decreases s.len() - self.pos,
        {
            self.pos = self.pos + 1;
        }
    }

    /// Scans the rest of a numeric literal whose first character `c` was just
    /// consumed: takes every following digit or dot, then accepts the text
    /// exactly when it has at most one dot.
    fn tokenize_number(&mut self, c: char) -> (r: Result<Token, TokenizingError>)
        requires
            old(self).wf(),
            old(self).pos >= 1,
            old(self).chars@[old(self).pos - 1] == c,
            is_digit_char(c),
        ensures
            final(self).wf(),
            final(self).chars@ == old(self).chars@,
            final(self).pos == spec_scan_number_end(
                old(self).chars@,
                old(self).pos as int,
            ),
            ({
                let text = old(self).chars@.subrange(
                    old(self).pos - 1,
                    spec_scan_number_end(old(self).chars@, old(self).pos as int),
                );
                if count_dots(text) <= 1 {
                    &&& r matches Ok(t)
                    &&& t@ == TokenView::Number(text)
                    &&& (t matches Token::Number(lit) && wf_literal(lit@))
                } else {
                    r == Err::<Token, TokenizingError>(TokenizingError::InvalidNumber)
                }
            }),
    {
        let ghost s = self.chars@;
        let ghost start = self.pos - 1;
        let ghost p0 = self.pos as int;
        let mut text = String::new();
        string_push(&mut text, c);
        let mut dots: usize = 0;
        proof {
            assert(text@ =~= s.subrange(start, p0));
            assert(count_dots(Seq::<char>::empty()) == 0);
            assert(text@.drop_last() =~= Seq::<char>::empty());
            assert(count_dots(text@) == 0);
        }
        while self.pos < self.chars.len() && (is_digit(self.chars[self.pos]) || self.chars[self.pos]
            == '.')
            invariant
                self.wf(),
                self.chars@ == s,
                0 <= start,
                p0 == start + 1,
                start + 1 <= self.pos,
                s[start] == c,
                is_digit_char(c),
                text@ == s.subrange(start, self.pos as int),
                dots == count_dots(text@),
                dots <= self.pos - start - 1,
                spec_scan_number_end(s, self.pos as int) == spec_scan_number_end(s, p0),
                forall|j: int| start < j < self.pos ==> is_digit_char(s[j]) || s[j] == '.',
            decreases s.len() - self.pos,
        {
            let ch = self.chars[self.pos];
            let ghost t0 = text@;
            string_push(&mut text, ch);
            if ch == '.' {
                dots = dots + 1;
            }
            self.pos = self.pos + 1;
            proof {
                assert(text@.drop_last() =~= t0);
                assert(text@ =~= s.subrange(start, self.pos as int));
            }
        }
        let ghost end = spec_scan_number_end(s, p0);
        proof {
            assert(end == self.pos as int);
        }
        if dots <= 1 {
            proof {
                assert(text@[0] == c);
                assert(forall|i: int| 0 <= i < text@.len() ==> text@[i] == s[start + i]);
                assert(wf_literal(text@));
            }
            Ok(Token::Number(NumberLiteral { text }))
        } else {
            Err(TokenizingError::InvalidNumber)
        }
    }

    /// Produces the next token, an error, or nothing at the end of the input,
    /// exactly as [`spec_next_token`] describes.
    pub fn next_token(&mut self) -> (r: Option<Result<Token, TokenizingError>>)
        requires
            old(self).wf(),
        ensures
            final(self).wf(),
            final(self).chars@ == old(self).chars@,
            final(self).pos == spec_next_token(old(self).chars@, old(self).pos as int).1,
            ({
                let step = spec_next_token(old(self).chars@, old(self).pos as int).0;
                match step {
                    None => r is None,
                    Some(Ok(tv)) => r matches Some(Ok(t)) && t@ == tv && wf_number_token(t),
                    Some(Err(e)) => r == Some(Err::<Token, TokenizingError>(e)),
                }
            }),
    {
        let ghost s = self.chars@;
        let ghost p0 = self.pos as int;
        self.skip_whitespace();
        if self.pos >= self.chars.len() {
            return None;
        }
        let c = self.chars[self.pos];
        self.pos = self.pos + 1;
        if c == '+' {
            Some(Ok(Token::Plus))
        } else if c == '-' {
            Some(Ok(Token::Minus))
        } else if c == '*' {
            Some(Ok(Token::Star))
        } else if c == '/' {
            Some(Ok(Token::Slash))
        } else if c == '(' {
            Some(Ok(Token::LeftParen))
        } else if c == ')' {
            Some(Ok(Token::RightParen))
        } else if is_digit(c) {
            Some(self.tokenize_number(c))
        } else {
            Some(Err(TokenizingError::InvalidCharacter(c)))
        }
    }
}

/// The characters of a string slice, in order.
fn str_chars(s: &str) -> (r: Vec<char>)
    ensures
        r@ == s@,
{
    let n = s.unicode_len();
    let mut v: Vec<char> = Vec::new();
    let mut i: usize = 0;
    while i < n
        invariant
            i <= n,
            n == s@.len(),
            v@ == s@.subrange(0, i as int),
        decreases n - i,
    {
        let c = s.get_char(i);
        v.push(c);
        i = i + 1;
        proof {
            assert(v@ =~= s@.subrange(0, i as int));
        }
    }
    proof {
        assert(v@ =~= s@);
    }
    v
}

/// Tokenizes a whole input string: the full token sequence, or the first
/// lexical error.
pub fn tokenize(expr: &str) -> (r: Result<Vec<Token>, TokenizingError>)
    ensures
        spec_tokenize_from(expr@, 0) is Ok ==> (r matches Ok(v) && tokens_view(v@)
            == spec_tokenize_from(expr@, 0)->Ok_0 && (forall|k: int|
            0 <= k < v@.len() ==> wf_number_token(v@[k]))),
        spec_tokenize_from(expr@, 0) is Err ==> (r matches Err(e) && e == spec_tokenize_from(
            expr@,
            0,
        )->Err_0),
{
    let mut tok = Tokenizer::new(expr);
    let ghost s = expr@;
    let mut acc: Vec<Token> = Vec::new();
    proof {
        assert(tokens_view(acc@) =~= Seq::<TokenView>::empty());
        if spec_tokenize_from(s, 0) is Ok {
            let all = spec_tokenize_from(s, 0)->Ok_0;
            assert(tokens_view(acc@) + all =~= all);
        }
    }
    loop
        invariant
            s == expr@,
            tok.wf(),
            tok.chars@ == s,
            forall|k: int| 0 <= k < acc@.len() ==> wf_number_token(acc@[k]),
            match spec_tokenize_from(s, tok.pos as int) {
                Ok(rest) => spec_tokenize_from(s, 0) == Ok::<Seq<TokenView>, TokenizingError>(
                    tokens_view(acc@) + rest,
                ),
                Err(e) => spec_tokenize_from(s, 0) == Err::<Seq<TokenView>, TokenizingError>(e),
            },
        decreases s.len() - tok.pos,
    {
        let ghost p = tok.pos as int;
        proof {
            lemma_next_token_advances(s, p);
        }
        let r = tok.next_token();
        match r {
            None => {
                proof {
                    assert(spec_next_token(s, p).0 is None);
                    assert(spec_tokenize_from(s, p) == Ok::<Seq<TokenView>, TokenizingError>(
                        Seq::empty(),
                    ));
                    assert(tokens_view(acc@) + Seq::<TokenView>::empty() =~= tokens_view(acc@));
                    assert(spec_tokenize_from(s, 0) == Ok::<Seq<TokenView>, TokenizingError>(
                        tokens_view(acc@),
                    ));
                }
                return Ok(acc);
            },
            Some(Ok(t)) => {
                let ghost tv = t@;
                let ghost a0 = acc@;
                acc.push(t);
                proof {
                    assert(spec_next_token(s, p).0 == Some(Ok::<TokenView, TokenizingError>(tv)));
                    assert(spec_tokenize_from(s, p) == (match spec_tokenize_from(
                        s,
                        tok.pos as int,
                    ) {
                        Ok(rest) => Ok::<Seq<TokenView>, TokenizingError>(seq![tv] + rest),
                        Err(e) => Err(e),
                    }));
                    assert(tokens_view(acc@) =~= tokens_view(a0) + seq![tv]);
                    if spec_tokenize_from(s, tok.pos as int) is Ok {
                        let rest = spec_tokenize_from(s, tok.pos as int)->Ok_0;
                        assert((tokens_view(a0) + seq![tv]) + rest =~= tokens_view(a0) + (seq![tv]
                            + rest));
                    }
                }
            },
            Some(Err(e)) => {
                proof {
                    assert(spec_tokenize_from(s, p) == Err::<Seq<TokenView>, TokenizingError>(e));
                    assert(spec_tokenize_from(s, 0) == Err::<Seq<TokenView>, TokenizingError>(e));
                }
                return Err(e);
            },
        }
    }
}

} // verus!
