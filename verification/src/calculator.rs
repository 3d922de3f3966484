//! Arithmetic expression evaluator: a preprocessor that makes implied
//! multiplication explicit, a tokenizer, and a recursive-descent parser over
//! three precedence levels (expression, term, factor) that computes the
//! `i32` value as it parses, without building a tree. Malformed input,
//! division by zero and values out of the `i32` range are reported as errors;
//! no malformed input produces a value.

use vstd::prelude::*;

use crate::text::push_char;

verus! {

/// One lexical unit of an expression. End of input is represented by the
/// token cursor reaching the end of the token sequence.
#[derive(Clone, Copy, Debug, PartialEq, Eq, Structural)]
pub enum Token {
    Number(i32),
    Plus,
    Minus,
    Multiply,
    Divide,
    LeftParen,
    RightParen,
}

/// Why an evaluation failed. Every failure is final: no recovery or partial
/// result is attempted.
#[derive(Clone, Copy, Debug, PartialEq, Eq, Structural)]
pub enum CalcError {
    /// A character of the input does not belong to the token set.
    InvalidCharacter,
    /// The current token is not what the grammar expects at this point,
    /// e.g. a missing closing parenthesis or an operator in factor position.
    UnexpectedToken,
    /// A division by zero.
    DivisionByZero,
    /// A literal or an intermediate value does not fit in `i32`.
    Overflow,
}

/// An ASCII digit.
pub open spec fn spec_is_digit(c: char) -> bool {
    '0' <= c && c <= '9'
}

/// Multiplication is implied between `prev` and `c` when a digit or a closing
/// parenthesis is directly followed by an opening parenthesis, or a closing
/// parenthesis is directly followed by a digit.
pub open spec fn implies_multiplication(prev: char, c: char) -> bool {
    ((spec_is_digit(prev) || prev == ')') && c == '(') || (prev == ')' && spec_is_digit(c))
}

/// The preprocessed form of the characters of `s` when the character just
/// before `s` is `prev`: each character is kept, with a `*` inserted before
/// it wherever multiplication is implied by adjacency.
pub open spec fn spec_preprocess_from(prev: char, s: Seq<char>) -> Seq<char>
    decreases s.len(),
{
    if s.len() == 0 {
        Seq::empty()
    } else {
        let here = if implies_multiplication(prev, s[0]) {
            seq!['*', s[0]]
        } else {
            seq![s[0]]
        };
        here + spec_preprocess_from(s[0], s.skip(1))
    }
}

/// The preprocessed form of a whole input: nothing is ever inserted before
/// the first character.
pub open spec fn spec_preprocess(s: Seq<char>) -> Seq<char> {
    if s.len() == 0 {
        Seq::empty()
    } else {
        seq![s[0]] + spec_preprocess_from(s[0], s.skip(1))
    }
}

/// The numeric value of an ASCII digit.
pub open spec fn spec_digit_value(c: char) -> int {
    c as int - '0' as int
}

/// The first index at or after `i` that does not hold a digit, i.e. the index
/// just past the maximal digit run starting at `i`.
pub open spec fn digit_run_end(s: Seq<char>, i: int) -> int
    decreases s.len() - i,
{
    if 0 <= i < s.len() && spec_is_digit(s[i]) {
        digit_run_end(s, i + 1)
    } else {
        i
    }
}

/// The base-10 value of the digit run `s[i..k]`.
pub open spec fn spec_digits_value(s: Seq<char>, i: int, k: int) -> int
    decreases k - i,
{
    if i >= k {
        0
    } else {
        spec_digits_value(s, i, k - 1) * 10 + spec_digit_value(s[k - 1])
    }
}

/// `digit_run_end` lands between `i` and the end of `s`, sees only digits on
/// the way, and stops at the first non-digit.
proof fn lemma_digit_run_end(s: Seq<char>, i: int)
    requires
        0 <= i <= s.len(),
    ensures
        i <= digit_run_end(s, i) <= s.len(),
        forall|m: int| i <= m < digit_run_end(s, i) ==> spec_is_digit(s[m]),
        digit_run_end(s, i) == s.len() || !spec_is_digit(s[digit_run_end(s, i)]),
    decreases s.len() - i,
{
    if i < s.len() && spec_is_digit(s[i]) {
        lemma_digit_run_end(s, i + 1);
    }
}

/// A digit run that is known to reach `j` pins `digit_run_end` exactly when
/// `j` is the first non-digit position.
proof fn lemma_digit_run_end_exact(s: Seq<char>, i: int, j: int)
    requires
        0 <= i <= j <= s.len(),
        forall|m: int| i <= m < j ==> spec_is_digit(s[m]),
        j == s.len() || !spec_is_digit(s[j]),
    ensures
        digit_run_end(s, i) == j,
    decreases j - i,
{
    if i < j {
        lemma_digit_run_end_exact(s, i + 1, j);
    }
}

/// The value of a digit run is non-negative and grows (weakly) as the run
/// extends to the right.
proof fn lemma_digits_value_monotone(s: Seq<char>, i: int, j: int, k: int)
    requires
        i <= j <= k,
        forall|m: int| i <= m < k ==> spec_is_digit(s[m]),
    ensures
        0 <= spec_digits_value(s, i, j) <= spec_digits_value(s, i, k),
    decreases k - i, k - j,
{
    if j < k {
        lemma_digits_value_monotone(s, i, j, k - 1);
    } else if i < j {
        lemma_digits_value_monotone(s, i, j - 1, j - 1);
    }
}

/// The token sequence of the characters of `s` from index `i` on, or the
/// error that tokenization stops with: a maximal digit run becomes a
/// `Number` token (an error when its value does not fit in `i32`), the six
/// operator and parenthesis characters become their tokens, and any other
/// character is invalid.
pub open spec fn spec_tokenize_at(s: Seq<char>, i: int) -> Result<Seq<Token>, CalcError>
    decreases s.len() - i,
    when 0 <= i <= s.len()
    via spec_tokenize_at_decreases
{
    if i >= s.len() {
        Ok(Seq::empty())
    } else if spec_is_digit(s[i]) {
        let k = digit_run_end(s, i);
        let v = spec_digits_value(s, i, k);
        if v > i32::MAX as int {
            Err(CalcError::Overflow)
        } else {
            match spec_tokenize_at(s, k) {
                Ok(rest) => Ok(seq![Token::Number(v as i32)] + rest),
                Err(e) => Err(e),
            }
        }
    } else {
        let tok = if s[i] == '+' {
            Some(Token::Plus)
        } else if s[i] == '-' {
            Some(Token::Minus)
        } else if s[i] == '*' {
            Some(Token::Multiply)
        } else if s[i] == '/' {
            Some(Token::Divide)
        } else if s[i] == '(' {
            Some(Token::LeftParen)
        } else if s[i] == ')' {
            Some(Token::RightParen)
        } else {
            None
        };
        match tok {
            Some(t) => match spec_tokenize_at(s, i + 1) {
                Ok(rest) => Ok(seq![t] + rest),
                Err(e) => Err(e),
            },
            None => Err(CalcError::InvalidCharacter),
        }
    }
}

#[via_fn]
proof fn spec_tokenize_at_decreases(s: Seq<char>, i: int) {
    if 0 <= i < s.len() && spec_is_digit(s[i]) {
        lemma_digit_run_end(s, i + 1);
    }
}

/// The whole token sequence of `s`, or the error tokenization stops with.
pub open spec fn spec_tokenize(s: Seq<char>) -> Result<Seq<Token>, CalcError> {
    spec_tokenize_at(s, 0)
}

/// Convert the input into tokens, reading each maximal digit run as one
/// base-10 `Number` and each of `+ - * / ( )` as its token. Returns
/// `Overflow` when a literal exceeds `i32::MAX` and `InvalidCharacter` at the
/// first character outside the token set.
pub fn tokenize(input: &str) -> (r: Result<Vec<Token>, CalcError>)
    ensures
        ({
            match spec_tokenize(input@) {
                Ok(ts) => r matches Ok(v) && v@ == ts,
                Err(e) => r matches Err(a) && a == e,
            }
        }),
{
    let n = input.unicode_len();
    let mut out: Vec<Token> = Vec::new();
    let mut i: usize = 0;
    while i < n
        invariant
            n == input@.len(),
            i <= n,
            spec_tokenize(input@) == (match spec_tokenize_at(input@, i as int) {
                Ok(rest) => Ok::<Seq<Token>, CalcError>(out@ + rest),
                Err(e) => Err::<Seq<Token>, CalcError>(e),
            }),
        decreases n - i,
    {
        let c = input.get_char(i);
        if c >= '0' && c <= '9' {
            let mut j: usize = i;
            let mut acc: u64 = 0;
            let mut run_over = false;
            while !run_over && j < n
                invariant
                    n == input@.len(),
                    i <= j <= n,
                    i < n,
                    spec_is_digit(input@[i as int]),
                    forall|m: int| i <= m < j ==> spec_is_digit(input@[m]),
                    acc as int == spec_digits_value(input@, i as int, j as int),
                    acc <= 2147483647,
                    run_over ==> j < n && !spec_is_digit(input@[j as int]),
                    spec_tokenize(input@) == (match spec_tokenize_at(input@, i as int) {
                        Ok(rest) => Ok::<Seq<Token>, CalcError>(out@ + rest),
                        Err(e) => Err::<Seq<Token>, CalcError>(e),
                    }),
                decreases n - j + (if run_over {
                    0int
                } else {
                    1int
                }),
            {
                let cj = input.get_char(j);
                if cj >= '0' && cj <= '9' {
                    let d = (cj as u8) - 48;
                    acc = acc * 10 + (d as u64);
                    j = j + 1;
                    if acc > 2147483647 {
                        proof {
                            lemma_digit_run_end(input@, i as int);
                            let k = digit_run_end(input@, i as int);
                            assert(j <= k);
                            lemma_digits_value_monotone(input@, i as int, j as int, k);
                            assert(spec_tokenize_at(input@, i as int) == Err::<
                                Seq<Token>,
                                CalcError,
                            >(CalcError::Overflow));
                        }
                        return Err(CalcError::Overflow);
                    }
                } else {
                    run_over = true;
                }
            }
            let ghost out0 = out@;
            out.push(Token::Number(acc as i32));
            proof {
                lemma_digit_run_end_exact(input@, i as int, j as int);
                let restj = spec_tokenize_at(input@, j as int);
                if restj is Ok {
                    assert(out0 + (seq![Token::Number(acc as i32)] + restj->Ok_0) =~= out@
                        + restj->Ok_0);
                }
            }
            i = j;
        } else {
            let tok = if c == '+' {
                Some(Token::Plus)
            } else if c == '-' {
                Some(Token::Minus)
            } else if c == '*' {
                Some(Token::Multiply)
            } else if c == '/' {
                Some(Token::Divide)
            } else if c == '(' {
                Some(Token::LeftParen)
            } else if c == ')' {
                Some(Token::RightParen)
            } else {
                None
            };
            match tok {
                Some(t) => {
                    let ghost out0 = out@;
                    out.push(t);
                    proof {
                        let restn = spec_tokenize_at(input@, i + 1);
                        if restn is Ok {
                            assert(out0 + (seq![t] + restn->Ok_0) =~= out@ + restn->Ok_0);
                        }
                    }
                    i = i + 1;
                },
                None => {
                    return Err(CalcError::InvalidCharacter);
                },
            }
        }
    }
    proof {
        if spec_tokenize_at(input@, n as int) is Ok {
            assert(out@ + spec_tokenize_at(input@, n as int)->Ok_0 =~= out@);
        }
    }
    Ok(out)
}

/// The value and next cursor of the `factor` rule at cursor `i`, or the error
/// it stops with:
/// ```text
/// factor := Number | '(' expr ')' | '+' factor | '-' factor
/// ```
/// A leading `-` negates the following factor (so chained signs negate
/// repeatedly); a leading `+` leaves it unchanged. The guards `i < j` on the
/// cursor returned by an inner rule cannot fail — a rule that succeeds always
/// consumes at least one token — but make termination evident.
pub open spec fn spec_factor(ts: Seq<Token>, i: int) -> Result<(i32, int), CalcError>
    decreases ts.len() - i, 0int,
{
    if i < 0 || i >= ts.len() {
        Err(CalcError::UnexpectedToken)
    } else {
        match ts[i] {
            Token::Number(v) => Ok((v, i + 1)),
            Token::Plus => spec_factor(ts, i + 1),
            Token::Minus => match spec_factor(ts, i + 1) {
                Ok((v, j)) => if v == i32::MIN {
                    Err(CalcError::Overflow)
                } else {
                    Ok(((0 - v) as i32, j))
                },
                Err(e) => Err(e),
            },
            Token::LeftParen => match spec_expr(ts, i + 1) {
                Ok((v, j)) => if 0 <= j < ts.len() && ts[j] is RightParen {
                    Ok((v, j + 1))
                } else {
                    Err(CalcError::UnexpectedToken)
                },
                Err(e) => Err(e),
            },
            _ => Err(CalcError::UnexpectedToken),
        }
    }
}

/// Folds `('*' | '/') factor` steps into the value `acc` accumulated so far,
/// left to right, starting at cursor `i`. Division is truncating `i32`
/// division; a zero divisor and any value outside the `i32` range stop the
/// evaluation with an error.
pub open spec fn spec_term_rest(ts: Seq<Token>, i: int, acc: i32) -> Result<(i32, int), CalcError>
    decreases ts.len() - i, 3int,
{
    if i < 0 || i >= ts.len() || !(ts[i] is Multiply || ts[i] is Divide) {
        Ok((acc, i))
    } else {
        match spec_factor(ts, i + 1) {
            Ok((v, j)) => if i < j <= ts.len() {
                if ts[i] is Multiply {
                    match acc.checked_mul(v) {
                        Some(w) => spec_term_rest(ts, j, w),
                        None => Err(CalcError::Overflow),
                    }
                } else if v == 0 {
                    Err(CalcError::DivisionByZero)
                } else {
                    match acc.checked_div(v) {
                        Some(w) => spec_term_rest(ts, j, w),
                        None => Err(CalcError::Overflow),
                    }
                }
            } else {
                Err(CalcError::UnexpectedToken)
            },
            Err(e) => Err(e),
        }
    }
}

/// The value and next cursor of the `term` rule at cursor `i`:
/// ```text
/// term := factor ( ('*' | '/') factor )*
/// ```
pub open spec fn spec_term(ts: Seq<Token>, i: int) -> Result<(i32, int), CalcError>
    decreases ts.len() - i, 1int,
{
    match spec_factor(ts, i) {
        Ok((v, j)) => if i < j <= ts.len() {
            spec_term_rest(ts, j, v)
        } else {
            Err(CalcError::UnexpectedToken)
        },
        Err(e) => Err(e),
    }
}

/// Folds `('+' | '-') term` steps into the value `acc` accumulated so far,
/// left to right, starting at cursor `i`.
pub open spec fn spec_expr_rest(ts: Seq<Token>, i: int, acc: i32) -> Result<(i32, int), CalcError>
    decreases ts.len() - i, 3int,
{
    if i < 0 || i >= ts.len() || !(ts[i] is Plus || ts[i] is Minus) {
        Ok((acc, i))
    } else {
        match spec_term(ts, i + 1) {
            Ok((v, j)) => if i < j <= ts.len() {
                if ts[i] is Plus {
                    match acc.checked_add(v) {
                        Some(w) => spec_expr_rest(ts, j, w),
                        None => Err(CalcError::Overflow),
                    }
                } else {
                    match acc.checked_sub(v) {
                        Some(w) => spec_expr_rest(ts, j, w),
                        None => Err(CalcError::Overflow),
                    }
                }
            } else {
                Err(CalcError::UnexpectedToken)
            },
            Err(e) => Err(e),
        }
    }
}

/// The value and next cursor of the `expr` rule at cursor `i`:
/// ```text
/// expr := term ( ('+' | '-') term )*
/// ```
/// This is the start rule of the grammar.
pub open spec fn spec_expr(ts: Seq<Token>, i: int) -> Result<(i32, int), CalcError>
    decreases ts.len() - i, 2int,
{
    match spec_term(ts, i) {
        Ok((v, j)) => if i < j <= ts.len() {
            spec_expr_rest(ts, j, v)
        } else {
            Err(CalcError::UnexpectedToken)
        },
        Err(e) => Err(e),
    }
}

/// The value of a whole token sequence: the `expr` start rule evaluated at
/// the start of the sequence. Tokens left over after the expression are
/// deliberately ignored; any well-formed input fully reduces.
pub open spec fn spec_eval_tokens(ts: Seq<Token>) -> Result<i32, CalcError> {
    match spec_expr(ts, 0) {
        Ok((v, _)) => Ok(v),
        Err(e) => Err(e),
    }
}

/// The value of an input text: preprocess, tokenize, evaluate.
pub open spec fn spec_calculator(s: Seq<char>) -> Result<i32, CalcError> {
    match spec_tokenize(spec_preprocess(s)) {
        Ok(ts) => spec_eval_tokens(ts),
        Err(e) => Err(e),
    }
}

/// A leading `-` negates the following factor: on a `Minus` token the factor
/// rule yields exactly the negation of the factor after it (when that
/// negation is representable in `i32`), so chained signs negate repeatedly.
pub proof fn lemma_unary_minus_negates(ts: Seq<Token>, i: int)
    requires
        0 <= i < ts.len(),
        ts[i] is Minus,
    ensures
        spec_factor(ts, i) == (match spec_factor(ts, i + 1) {
            Ok((v, j)) => if v == i32::MIN {
                Err::<(i32, int), CalcError>(CalcError::Overflow)
            } else {
                Ok::<(i32, int), CalcError>(((0 - v) as i32, j))
            },
            Err(e) => Err::<(i32, int), CalcError>(e),
        }),
{
}

/// Recursive-descent parser over a token sequence: holds the tokens and a
/// cursor, and computes the value while descending through the grammar rules.
pub struct Parser {
    pub tokens: Vec<Token>,
    pub pos: usize,
}

impl Parser {
    /// The cursor never passes the end of the token sequence.
    pub open spec fn wf(&self) -> bool {
        self.pos <= self.tokens@.len()
    }

    /// A parser over `tokens` with the cursor at the start.
    pub fn new(tokens: Vec<Token>) -> (p: Parser)
        ensures
            p.wf(),
            p.tokens@ == tokens@,
            p.pos == 0,
    {
        Parser { tokens, pos: 0 }
    }

    /// The `factor` rule: a number, a parenthesized expression, or a unary
    /// sign applied to a factor.
    pub fn factor(&mut self) -> (r: Result<i32, CalcError>)
        requires
            old(self).wf(),
        ensures
            final(self).wf(),
            final(self).tokens@ == old(self).tokens@,
            r is Ok ==> old(self).pos < final(self).pos,
            ({
                match spec_factor(old(self).tokens@, old(self).pos as int) {
                    Ok((v, j)) => r == Ok::<i32, CalcError>(v) && final(self).pos as int == j,
                    Err(e) => r == Err::<i32, CalcError>(e),
                }
            }),
        decreases old(self).tokens@.len() - old(self).pos, 0int,
    {
        if self.pos >= self.tokens.len() {
            return Err(CalcError::UnexpectedToken);
        }
        let t = self.tokens[self.pos];
        match t {
            Token::Number(v) => {
                self.pos = self.pos + 1;
                Ok(v)
            },
            Token::Plus => {
                self.pos = self.pos + 1;
                self.factor()
            },
            Token::Minus => {
                self.pos = self.pos + 1;
                match self.factor() {
                    Ok(v) => if v == i32::MIN {
                        Err(CalcError::Overflow)
                    } else {
                        Ok(-v)
                    },
                    Err(e) => Err(e),
                }
            },
            Token::LeftParen => {
                self.pos = self.pos + 1;
                match self.expr() {
                    Ok(v) => {
                        if self.pos < self.tokens.len() {
                            match self.tokens[self.pos] {
                                Token::RightParen => {
                                    self.pos = self.pos + 1;
                                    Ok(v)
                                },
                                _ => Err(CalcError::UnexpectedToken),
                            }
                        } else {
                            Err(CalcError::UnexpectedToken)
                        }
                    },
                    Err(e) => Err(e),
                }
            },
            _ => Err(CalcError::UnexpectedToken),
        }
    }

    /// The `term` rule: a factor, then any number of `* factor` or
    /// `/ factor` steps folded in from the left.
    pub fn term(&mut self) -> (r: Result<i32, CalcError>)
        requires
            old(self).wf(),
        ensures
            final(self).wf(),
            final(self).tokens@ == old(self).tokens@,
            r is Ok ==> old(self).pos < final(self).pos,
            ({
                match spec_term(old(self).tokens@, old(self).pos as int) {
                    Ok((v, j)) => r == Ok::<i32, CalcError>(v) && final(self).pos as int == j,
                    Err(e) => r == Err::<i32, CalcError>(e),
                }
            }),
        decreases old(self).tokens@.len() - old(self).pos, 1int,
    {
        let ghost toks = self.tokens@;
        let ghost p0 = self.pos as int;
        let mut acc = match self.factor() {
            Ok(v) => v,
            Err(e) => return Err(e),
        };
        loop
            invariant
                toks == old(self).tokens@,
                p0 == old(self).pos as int,
                self.wf(),
                self.tokens@ == toks,
                p0 < self.pos as int,
                spec_term(toks, p0) == spec_term_rest(toks, self.pos as int, acc),
            ensures
                toks == old(self).tokens@,
                p0 == old(self).pos as int,
                self.wf(),
                self.tokens@ == toks,
                p0 < self.pos as int,
                spec_term(toks, p0) == Ok::<(i32, int), CalcError>((acc, self.pos as int)),
            decreases self.tokens@.len() - self.pos,
        {
            if self.pos >= self.tokens.len() {
                break;
            }
            let t = self.tokens[self.pos];
            match t {
                Token::Multiply => {
                    self.pos = self.pos + 1;
                    let v = match self.factor() {
                        Ok(v) => v,
                        Err(e) => return Err(e),
                    };
                    acc = match acc.checked_mul(v) {
                        Some(w) => w,
                        None => return Err(CalcError::Overflow),
                    };
                },
                Token::Divide => {
                    self.pos = self.pos + 1;
                    let v = match self.factor() {
                        Ok(v) => v,
                        Err(e) => return Err(e),
                    };
                    if v == 0 {
                        return Err(CalcError::DivisionByZero);
                    }
                    acc = match acc.checked_div(v) {
                        Some(w) => w,
                        None => return Err(CalcError::Overflow),
                    };
                },
                _ => {
                    break;
                },
            }
        }
        Ok(acc)
    }

    /// The `expr` start rule: a term, then any number of `+ term` or
    /// `- term` steps folded in from the left.
    pub fn expr(&mut self) -> (r: Result<i32, CalcError>)
        requires
            old(self).wf(),
        ensures
            final(self).wf(),
            final(self).tokens@ == old(self).tokens@,
            r is Ok ==> old(self).pos < final(self).pos,
            ({
                match spec_expr(old(self).tokens@, old(self).pos as int) {
                    Ok((v, j)) => r == Ok::<i32, CalcError>(v) && final(self).pos as int == j,
                    Err(e) => r == Err::<i32, CalcError>(e),
                }
            }),
        decreases old(self).tokens@.len() - old(self).pos, 2int,
    {
        let ghost toks = self.tokens@;
        let ghost p0 = self.pos as int;
        let mut acc = match self.term() {
            Ok(v) => v,
            Err(e) => return Err(e),
        };
        loop
            invariant
                toks == old(self).tokens@,
                p0 == old(self).pos as int,
                self.wf(),
                self.tokens@ == toks,
                p0 < self.pos as int,
                spec_expr(toks, p0) == spec_expr_rest(toks, self.pos as int, acc),
            ensures
                toks == old(self).tokens@,
                p0 == old(self).pos as int,
                self.wf(),
                self.tokens@ == toks,
                p0 < self.pos as int,
                spec_expr(toks, p0) == Ok::<(i32, int), CalcError>((acc, self.pos as int)),
            decreases self.tokens@.len() - self.pos,
        {
            if self.pos >= self.tokens.len() {
                break;
            }
            let t = self.tokens[self.pos];
            match t {
                Token::Plus => {
                    self.pos = self.pos + 1;
                    let v = match self.term() {
                        Ok(v) => v,
                        Err(e) => return Err(e),
                    };
                    acc = match acc.checked_add(v) {
                        Some(w) => w,
                        None => return Err(CalcError::Overflow),
                    };
                },
                Token::Minus => {
                    self.pos = self.pos + 1;
                    let v = match self.term() {
                        Ok(v) => v,
                        Err(e) => return Err(e),
                    };
                    acc = match acc.checked_sub(v) {
                        Some(w) => w,
                        None => return Err(CalcError::Overflow),
                    };
                },
                _ => {
                    break;
                },
            }
        }
        Ok(acc)
    }
}

/// Evaluates an arithmetic expression given as a string and returns its
/// value, or the error that evaluation stops with. For every input of
/// digits, `+ - * /` and balanced parentheses the result is the
/// left-associative evaluation under standard precedence (`*` and `/` bind
/// tighter than `+` and `-`), with `i32` division truncating toward zero;
/// malformed input, division by zero and values outside the `i32` range
/// yield the matching error, never a value.
pub fn calculator(input: &str) -> (r: Result<i32, CalcError>)
    ensures
        r == spec_calculator(input@),
{
    let preprocessed = preprocess_input(input);
    let tokens = match tokenize(preprocessed.as_str()) {
        Ok(ts) => ts,
        Err(e) => return Err(e),
    };
    let mut parser = Parser::new(tokens);
    match parser.expr() {
        Ok(v) => Ok(v),
        Err(e) => Err(e),
    }
}

/// Extending the input by one character extends the preprocessed form by that
/// character, preceded by `*` when the pair of the old last character and the
/// new character implies multiplication.
proof fn lemma_preprocess_from_push(prev: char, s: Seq<char>, c: char)
    ensures
        spec_preprocess_from(prev, s.push(c)) == spec_preprocess_from(prev, s) + (if implies_multiplication(
            if s.len() == 0 {
                prev
            } else {
                s.last()
            },
            c,
        ) {
            seq!['*', c]
        } else {
            seq![c]
        }),
    decreases s.len(),
{
    let tail = if implies_multiplication(
        if s.len() == 0 {
            prev
        } else {
            s.last()
        },
        c,
    ) {
        seq!['*', c]
    } else {
        seq![c]
    };
    if s.len() == 0 {
        reveal_with_fuel(spec_preprocess_from, 2);
        assert(s.push(c) =~= seq![c]);
        assert(s.push(c).skip(1) =~= Seq::<char>::empty());
        assert(spec_preprocess_from(prev, s.push(c)) =~= tail);
    } else {
        assert(s.push(c)[0] == s[0]);
        assert(s.push(c).skip(1) =~= s.skip(1).push(c));
        lemma_preprocess_from_push(s[0], s.skip(1), c);
        if s.len() == 1 {
            assert(s.skip(1).len() == 0);
            assert(s[0] == s.last());
        } else {
            assert(s.skip(1).last() == s.last());
        }
        assert(spec_preprocess_from(prev, s.push(c)) =~= spec_preprocess_from(prev, s) + tail);
    }
}

/// Helper for the idempotence law: a second pass over an already
/// preprocessed tail inserts nothing, because an inserted `*` never forms an
/// implied-multiplication pair with either of its neighbours.
proof fn lemma_preprocess_from_idempotent(prev: char, s: Seq<char>)
    ensures
        spec_preprocess_from(prev, spec_preprocess_from(prev, s)) == spec_preprocess_from(prev, s),
    decreases s.len(),
{
    reveal_with_fuel(spec_preprocess_from, 3);
    if s.len() > 0 {
        let c = s[0];
        let rest = spec_preprocess_from(c, s.skip(1));
        lemma_preprocess_from_idempotent(c, s.skip(1));
        if implies_multiplication(prev, c) {
            let once = seq!['*', c] + rest;
            assert(once.skip(1) =~= seq![c] + rest);
            assert((seq![c] + rest).skip(1) =~= rest);
            assert(spec_preprocess_from(prev, once) =~= spec_preprocess_from(prev, s));
        } else {
            let once = seq![c] + rest;
            assert(once.skip(1) =~= rest);
            assert(spec_preprocess_from(prev, once) =~= spec_preprocess_from(prev, s));
        }
    }
}

/// Preprocessing is idempotent: preprocessing an already preprocessed input
/// returns it unchanged, since every implied multiplication has been made
/// explicit by the first pass.
pub proof fn lemma_preprocess_idempotent(s: Seq<char>)
    ensures
        spec_preprocess(spec_preprocess(s)) == spec_preprocess(s),
{
    if s.len() > 0 {
        let p = spec_preprocess(s);
        assert(p[0] == s[0]);
        assert(p.skip(1) =~= spec_preprocess_from(s[0], s.skip(1)));
        lemma_preprocess_from_idempotent(s[0], s.skip(1));
        assert(spec_preprocess(p) =~= p);
    }
}

/// No adjacent pair of `s` implies a multiplication.
pub open spec fn no_implied_multiplication(s: Seq<char>) -> bool
    decreases s.len(),
{
    s.len() <= 1 || (!implies_multiplication(s[0], s[1]) && no_implied_multiplication(s.skip(1)))
}

/// Helper for the pass-through law, with the character just before `s` made
/// explicit.
proof fn lemma_preprocess_from_no_insertion(prev: char, s: Seq<char>)
    requires
        s.len() > 0 ==> !implies_multiplication(prev, s[0]),
        no_implied_multiplication(s),
    ensures
        spec_preprocess_from(prev, s) == s,
    decreases s.len(),
{
    if s.len() > 0 {
        if s.len() > 1 {
            assert(s.skip(1)[0] == s[1]);
        }
        lemma_preprocess_from_no_insertion(s[0], s.skip(1));
        assert(seq![s[0]] + s.skip(1) =~= s);
    }
}

/// An input with no implied multiplication is returned unchanged by the
/// preprocessor: it only ever inserts, and only at an adjacent pair that
/// implies multiplication.
pub proof fn lemma_preprocess_no_insertion(s: Seq<char>)
    requires
        no_implied_multiplication(s),
    ensures
        spec_preprocess(s) == s,
{
    if s.len() > 0 {
        lemma_preprocess_from_no_insertion(s[0], s.skip(1));
        assert(seq![s[0]] + s.skip(1) =~= s);
    }
}

/// Add a `*` character wherever multiplication is implied by adjacency; all
/// original characters are kept in order, and nothing else changes.
pub fn preprocess_input(input: &str) -> (r: String)
    ensures
        r@ == spec_preprocess(input@),
{
    let n = input.unicode_len();
    let mut out = String::new();
    if n == 0 {
        return out;
    }
    let first = input.get_char(0);
    push_char(&mut out, first);
    let mut prev = first;
    let mut i: usize = 1;
    while i < n
        invariant
            n == input@.len(),
            1 <= i <= n,
            prev == input@[i - 1],
            out@ == spec_preprocess(input@.take(i as int)),
        decreases n - i,
    {
        let c = input.get_char(i);
        if (prev >= '0' && prev <= '9' || prev == ')') && c == '(' {
            push_char(&mut out, '*');
        } else if prev == ')' && (c >= '0' && c <= '9') {
            push_char(&mut out, '*');
        }
        push_char(&mut out, c);
        proof {
            let pre = input@.take(i as int);
            assert(input@.take(i + 1) =~= pre.push(input@[i as int]));
            assert(pre.skip(1).push(input@[i as int]) =~= input@.take(i + 1).skip(1));
            lemma_preprocess_from_push(pre[0], pre.skip(1), input@[i as int]);
            if i == 1 {
                assert(pre.skip(1).len() == 0);
            } else {
                assert(pre.skip(1).last() == input@[i - 1]);
            }
            assert(out@ =~= spec_preprocess(input@.take(i + 1)));
        }
        prev = c;
        i = i + 1;
    }
    proof {
        assert(input@.take(n as int) =~= input@);
    }
    out
}

} // verus!
