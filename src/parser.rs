//! The syntactic pass: a recursive-descent parser over a token sequence,
//! failing at the first defect.
//!
//! Grammar, from the loosest binding level to the tightest:
//!
//! ```text
//! equality       → comparison ( ( "!=" | "==" ) comparison )*
//! comparison     → addition ( ( ">" | ">=" | "<" | "<=" ) addition )*
//! addition       → multiplication ( ( "-" | "+" ) multiplication )*
//! multiplication → unary ( ( "/" | "*" ) unary )*
//! unary          → ( "!" | "-" ) unary | primary
//! primary        → "true" | "false" | "nil" | NUMBER | STRING | "(" comparison ")"
//! ```
//!
//! A parenthesised group holds a `comparison`, as the grammar states: an
//! equality operator inside parentheses is reported as a missing `)`.
use vstd::prelude::*;
use crate::expression::{is_number_text, number_text, trim_leading_zeros, Expression};
use crate::lox_err::{ErrView, LoxErr};
use crate::scanner::{digit_run, run_until};
use crate::text::{chars_of, joined};
use crate::token::{kind_name, Token, TokenKind};

verus! {

/// What parsing from a position yields: the expression and how many tokens
/// it took, or the one diagnostic that stopped the parse.
pub type Parsed = Result<(Expression, nat), ErrView>;

/// The operators of each binary level: 4 equality, 3 comparison, 2 addition,
/// 1 multiplication.
pub open spec fn level_ops(level: nat) -> Seq<TokenKind> {
    if level == 4 {
        seq![TokenKind::BangEqual, TokenKind::EqualEqual]
    } else if level == 3 {
        seq![TokenKind::Greater, TokenKind::GreaterEqual, TokenKind::Less, TokenKind::LessEqual]
    } else if level == 2 {
        seq![TokenKind::Minus, TokenKind::Plus]
    } else if level == 1 {
        seq![TokenKind::Slash, TokenKind::Star]
    } else {
        Seq::empty()
    }
}

/// Tokens left from `pos` on.
pub open spec fn remaining(toks: Seq<Token>, pos: int) -> int {
    if pos <= toks.len() {
        toks.len() - pos
    } else {
        0
    }
}

/// Whether the token at `pos` has one of `kinds`; never at the end-of-input marker.
pub open spec fn matches_any(toks: Seq<Token>, pos: int, kinds: Seq<TokenKind>) -> bool {
    &&& 0 <= pos < toks.len()
    &&& toks[pos].kind != TokenKind::Eof
    &&& kinds.contains(toks[pos].kind)
}

/// Whether the token at `pos` has `kind`; never at the end-of-input marker.
pub open spec fn checks(toks: Seq<Token>, pos: int, kind: TokenKind) -> bool {
    &&& 0 <= pos < toks.len()
    &&& toks[pos].kind != TokenKind::Eof
    &&& toks[pos].kind == kind
}

/// The consumed count of `r`, moved on by `k`.
pub open spec fn shifted(r: Parsed, k: nat) -> Parsed {
    match r {
        Ok((e, n)) => Ok((e, n + k)),
        Err(v) => Err(v),
    }
}

pub open spec fn binary(left: Expression, operator: Token, right: Expression) -> Expression {
    Expression::Binary { left: Box::new(left), operator, right: Box::new(right) }
}

/// The message of an unmet expectation.
pub open spec fn expected_message(expected: TokenKind, got: TokenKind) -> Seq<char> {
    "Unexpected token. expected: "@ + kind_name(expected) + ", got: "@ + kind_name(got)
}

/// A binary level from `pos`: its first operand, then its operator chain.
pub open spec fn binary_at(toks: Seq<Token>, pos: int, level: nat) -> Parsed
    decreases remaining(toks, pos), 2 * level + 2,
{
    let first = if level <= 1 {
        unary_at(toks, pos)
    } else {
        binary_at(toks, pos, (level - 1) as nat)
    };
    match first {
        Ok((left, n)) => shifted(chain_at(toks, left, pos + n, level), n),
        Err(v) => Err(v),
    }
}

/// The operator chain of a level after `left`, folded to the left.
pub open spec fn chain_at(toks: Seq<Token>, left: Expression, pos: int, level: nat) -> Parsed
    decreases remaining(toks, pos), 2 * level + 1,
{
    if matches_any(toks, pos, level_ops(level)) {
        let right = if level <= 1 {
            unary_at(toks, pos + 1)
        } else {
            binary_at(toks, pos + 1, (level - 1) as nat)
        };
        match right {
            Ok((r, n)) => shifted(
                chain_at(toks, binary(left, toks[pos], r), pos + 1 + n, level),
                n + 1,
            ),
            Err(v) => Err(v),
        }
    } else {
        Ok((left, 0))
    }
}

pub open spec fn unary_at(toks: Seq<Token>, pos: int) -> Parsed
    decreases remaining(toks, pos), 1int,
{
    if matches_any(toks, pos, seq![TokenKind::Bang, TokenKind::Minus]) {
        match unary_at(toks, pos + 1) {
            Ok((r, n)) => Ok((Expression::Unary { operator: toks[pos], right: Box::new(r) }, n + 1)),
            Err(v) => Err(v),
        }
    } else {
        primary_at(toks, pos)
    }
}

pub open spec fn primary_at(toks: Seq<Token>, pos: int) -> Parsed
    decreases remaining(toks, pos), 0int,
{
    let t = toks[pos];
    if checks(toks, pos, TokenKind::True) {
        Ok((Expression::BoolLiteral(true), 1))
    } else if checks(toks, pos, TokenKind::False) {
        Ok((Expression::BoolLiteral(false), 1))
    } else if checks(toks, pos, TokenKind::Nil) {
        Ok((Expression::NilLiteral, 1))
    } else if checks(toks, pos, TokenKind::Number) {
        if is_number_text(t.lexeme@) {
            Ok((Expression::NumberLiteral(t.lexeme), 1))
        } else {
            Err(ErrView { line: t.line as nat, message: "Could not parse number: "@ + t.lexeme@ })
        }
    } else if checks(toks, pos, TokenKind::Str) {
        Ok((Expression::StringLiteral(t.lexeme), 1))
    } else if checks(toks, pos, TokenKind::LeftParen) {
        match binary_at(toks, pos + 1, 3) {
            Ok((e, n)) => {
                let q = pos + 1 + n;
                if checks(toks, q, TokenKind::RightParen) {
                    Ok((Expression::Grouping(Box::new(e)), n + 2))
                } else {
                    Err(
                        ErrView {
                            line: toks[q].line as nat,
                            message: expected_message(TokenKind::RightParen, toks[q].kind),
                        },
                    )
                }
            },
            Err(v) => Err(v),
        }
    } else {
        Err(ErrView { line: t.line as nat, message: "Unknown primary: "@ + t.lexeme@ })
    }
}

/// An executable outcome `r` that took the parser from `start` to `end`
/// agrees with the spec outcome `p`.
pub open spec fn agrees(p: Parsed, start: int, r: Result<Expression, LoxErr>, end: int) -> bool {
    match p {
        Ok((e, n)) => r == Ok::<Expression, LoxErr>(e) && end == start + n,
        Err(v) => r is Err && r->Err_0@ == v,
    }
}

/// Whether the number literal text `s` is well formed.
fn valid_number(s: &String) -> (r: bool)
    ensures
        r == is_number_text(s@),
{
    let v = chars_of(s.as_str());
    let ghost c = v@;
    let mut k: usize = 0;
    while k < v.len() && '0' <= v[k] && v[k] <= '9'
        invariant
            k <= v@.len(),
            v@ == c,
            k + digit_run(c, k as int) == digit_run(c, 0),
        decreases v@.len() - k,
    {
        k += 1;
    }
    if k == 0 {
        return false;
    }
    if k == v.len() {
        return true;
    }
    if v[k] != '.' || k + 1 >= v.len() {
        return false;
    }
    let mut j: usize = k + 1;
    while j < v.len() && '0' <= v[j] && v[j] <= '9'
        invariant
            k + 1 <= j <= v@.len(),
            v@ == c,
            j + digit_run(c, j as int) == k + 1 + digit_run(c, k + 1),
        decreases v@.len() - j,
    {
        j += 1;
    }
    j == v.len()
}

/// The state of one parse: the tokens and the cursor into them.
pub struct Parser {
    pub tokens: Vec<Token>,
    pub current: usize,
}

impl Parser {
    /// The tokens end with the end-of-input marker and the cursor stands on a token.
    pub open spec fn wf(&self) -> bool {
        &&& self.tokens@.len() > 0
        &&& self.tokens@.last().kind == TokenKind::Eof
        &&& self.current < self.tokens@.len() <= usize::MAX
    }

    pub fn new(tokens: Vec<Token>) -> (r: Parser)
        requires
            tokens@.len() > 0,
            tokens@.last().kind == TokenKind::Eof,
        ensures
            r.wf(),
            r.tokens == tokens,
            r.current == 0,
    {
        let n = tokens.len();
        assert(n == tokens@.len());
        Parser { tokens, current: 0 }
    }

    /// Parses one expression from the cursor on.
    pub fn parse(&mut self) -> (r: Result<Expression, LoxErr>)
        requires
            old(self).wf(),
        ensures
            final(self).wf(),
            final(self).tokens == old(self).tokens,
            agrees(
                binary_at(old(self).tokens@, old(self).current as int, 4),
                old(self).current as int,
                r,
                final(self).current as int,
            ),
    {
        self.parse_equality()
    }

    fn parse_equality(&mut self) -> (r: Result<Expression, LoxErr>)
        requires
            old(self).wf(),
        ensures
            final(self).wf(),
            final(self).tokens == old(self).tokens,
            old(self).current <= final(self).current,
            agrees(
                binary_at(old(self).tokens@, old(self).current as int, 4),
                old(self).current as int,
                r,
                final(self).current as int,
            ),
        decreases old(self).tokens@.len() - old(self).current, 10int,
    {
        let ghost toks = self.tokens@;
        let ghost begin = self.current as int;
        let first = self.parse_comparison();
        let mut expr = match first {
            Ok(e) => e,
            Err(e) => return Err(e),
        };
        let ops = vec![TokenKind::BangEqual, TokenKind::EqualEqual];
        assert(ops@ == level_ops(4));
        loop
            invariant
                self.wf(),
                self.tokens@ == toks,
                self.tokens == old(self).tokens,
                ops@ == level_ops(4),
                begin == old(self).current,
                begin <= self.current,
                binary_at(toks, begin, 4) == shifted(
                    chain_at(toks, expr, self.current as int, 4),
                    (self.current - begin) as nat,
                ),
            decreases toks.len() - self.current,
        {
            if !self.match_tokens(&ops) {
                return Ok(expr);
            }
            let operator = self.previous();
            match self.parse_comparison() {
                Ok(right) => {
                    expr = Expression::Binary {
                        left: Box::new(expr),
                        operator: operator,
                        right: Box::new(right),
                    };
                },
                Err(e) => return Err(e),
            }
        }
    }

    fn parse_comparison(&mut self) -> (r: Result<Expression, LoxErr>)
        requires
            old(self).wf(),
        ensures
            final(self).wf(),
            final(self).tokens == old(self).tokens,
            old(self).current <= final(self).current,
            agrees(
                binary_at(old(self).tokens@, old(self).current as int, 3),
                old(self).current as int,
                r,
                final(self).current as int,
            ),
        decreases old(self).tokens@.len() - old(self).current, 8int,
    {
        let ghost toks = self.tokens@;
        let ghost begin = self.current as int;
        let first = self.parse_addition();
        let mut expr = match first {
            Ok(e) => e,
            Err(e) => return Err(e),
        };
        let ops = vec![
            TokenKind::Greater,
            TokenKind::GreaterEqual,
            TokenKind::Less,
            TokenKind::LessEqual,
        ];
        assert(ops@ == level_ops(3));
        loop
            invariant
                self.wf(),
                self.tokens@ == toks,
                self.tokens == old(self).tokens,
                ops@ == level_ops(3),
                begin == old(self).current,
                begin <= self.current,
                binary_at(toks, begin, 3) == shifted(
                    chain_at(toks, expr, self.current as int, 3),
                    (self.current - begin) as nat,
                ),
            decreases toks.len() - self.current,
        {
            if !self.match_tokens(&ops) {
                return Ok(expr);
            }
            let operator = self.previous();
            match self.parse_addition() {
                Ok(right) => {
                    expr = Expression::Binary {
                        left: Box::new(expr),
                        operator: operator,
                        right: Box::new(right),
                    };
                },
                Err(e) => return Err(e),
            }
        }
    }

    fn parse_addition(&mut self) -> (r: Result<Expression, LoxErr>)
        requires
            old(self).wf(),
        ensures
            final(self).wf(),
            final(self).tokens == old(self).tokens,
            old(self).current <= final(self).current,
            agrees(
                binary_at(old(self).tokens@, old(self).current as int, 2),
                old(self).current as int,
                r,
                final(self).current as int,
            ),
        decreases old(self).tokens@.len() - old(self).current, 6int,
    {
        let ghost toks = self.tokens@;
        let ghost begin = self.current as int;
        let first = self.parse_multiplication();
        let mut expr = match first {
            Ok(e) => e,
            Err(e) => return Err(e),
        };
        let ops = vec![TokenKind::Minus, TokenKind::Plus];
        assert(ops@ == level_ops(2));
        loop
            invariant
                self.wf(),
                self.tokens@ == toks,
                self.tokens == old(self).tokens,
                ops@ == level_ops(2),
                begin == old(self).current,
                begin <= self.current,
                binary_at(toks, begin, 2) == shifted(
                    chain_at(toks, expr, self.current as int, 2),
                    (self.current - begin) as nat,
                ),
            decreases toks.len() - self.current,
        {
            if !self.match_tokens(&ops) {
                return Ok(expr);
            }
            let operator = self.previous();
            match self.parse_multiplication() {
                Ok(right) => {
                    expr = Expression::Binary {
                        left: Box::new(expr),
                        operator: operator,
                        right: Box::new(right),
                    };
                },
                Err(e) => return Err(e),
            }
        }
    }

    fn parse_multiplication(&mut self) -> (r: Result<Expression, LoxErr>)
        requires
            old(self).wf(),
        ensures
            final(self).wf(),
            final(self).tokens == old(self).tokens,
            old(self).current <= final(self).current,
            agrees(
                binary_at(old(self).tokens@, old(self).current as int, 1),
                old(self).current as int,
                r,
                final(self).current as int,
            ),
        decreases old(self).tokens@.len() - old(self).current, 4int,
    {
        let ghost toks = self.tokens@;
        let ghost begin = self.current as int;
        let first = self.parse_unary();
        let mut expr = match first {
            Ok(e) => e,
            Err(e) => return Err(e),
        };
        let ops = vec![TokenKind::Slash, TokenKind::Star];
        assert(ops@ == level_ops(1));
        loop
            invariant
                self.wf(),
                self.tokens@ == toks,
                self.tokens == old(self).tokens,
                ops@ == level_ops(1),
                begin == old(self).current,
                begin <= self.current,
                binary_at(toks, begin, 1) == shifted(
                    chain_at(toks, expr, self.current as int, 1),
                    (self.current - begin) as nat,
                ),
            decreases toks.len() - self.current,
        {
            if !self.match_tokens(&ops) {
                return Ok(expr);
            }
            let operator = self.previous();
            match self.parse_unary() {
                Ok(right) => {
                    expr = Expression::Binary {
                        left: Box::new(expr),
                        operator: operator,
                        right: Box::new(right),
                    };
                },
                Err(e) => return Err(e),
            }
        }
    }

    fn parse_unary(&mut self) -> (r: Result<Expression, LoxErr>)
        requires
            old(self).wf(),
        ensures
            final(self).wf(),
            final(self).tokens == old(self).tokens,
            old(self).current <= final(self).current,
            agrees(
                unary_at(old(self).tokens@, old(self).current as int),
                old(self).current as int,
                r,
                final(self).current as int,
            ),
        decreases old(self).tokens@.len() - old(self).current, 2int,
    {
        let ops = vec![TokenKind::Bang, TokenKind::Minus];
        if self.match_tokens(&ops) {
            let operator = self.previous();
            match self.parse_unary() {
                Ok(right) => Ok(Expression::Unary { operator: operator, right: Box::new(right) }),
                Err(e) => Err(e),
            }
        } else {
            self.parse_primary()
        }
    }

    fn parse_primary(&mut self) -> (r: Result<Expression, LoxErr>)
        requires
            old(self).wf(),
        ensures
            final(self).wf(),
            final(self).tokens == old(self).tokens,
            old(self).current <= final(self).current,
            agrees(
                primary_at(old(self).tokens@, old(self).current as int),
                old(self).current as int,
                r,
                final(self).current as int,
            ),
        decreases old(self).tokens@.len() - old(self).current, 0int,
    {
        if self.match_tokens(&vec![TokenKind::True]) {
            Ok(Expression::BoolLiteral(true))
        } else if self.match_tokens(&vec![TokenKind::False]) {
            Ok(Expression::BoolLiteral(false))
        } else if self.match_tokens(&vec![TokenKind::Nil]) {
            Ok(Expression::NilLiteral)
        } else if self.match_tokens(&vec![TokenKind::Number]) {
            let number_token = self.previous();
            if valid_number(&number_token.lexeme) {
                Ok(Expression::NumberLiteral(number_token.lexeme))
            } else {
                let message = joined("Could not parse number: ", number_token.lexeme.as_str());
                Err(LoxErr::new(number_token.line, message))
            }
        } else if self.match_tokens(&vec![TokenKind::Str]) {
            Ok(Expression::StringLiteral(self.previous().lexeme))
        } else if self.match_tokens(&vec![TokenKind::LeftParen]) {
            let expr = match self.parse_comparison() {
                Ok(e) => e,
                Err(e) => return Err(e),
            };
            match self.consume(TokenKind::RightParen) {
                Ok(()) => Ok(Expression::Grouping(Box::new(expr))),
                Err(e) => Err(e),
            }
        } else {
            let token = self.peek();
            let message = joined("Unknown primary: ", token.lexeme.as_str());
            Err(LoxErr::new(token.line, message))
        }
    }

    /// Moves past the token at the cursor when it has one of `token_kinds`.
    fn match_tokens(&mut self, token_kinds: &Vec<TokenKind>) -> (r: bool)
        requires
            old(self).wf(),
        ensures
            final(self).wf(),
            final(self).tokens == old(self).tokens,
            r == matches_any(old(self).tokens@, old(self).current as int, token_kinds@),
            final(self).current == old(self).current + if r { 1int } else { 0int },
    {
        let mut i: usize = 0;
        while i < token_kinds.len()
            invariant
                self == old(self),
                self.wf(),
                i <= token_kinds@.len(),
                forall|j: int| 0 <= j < i ==> !checks(self.tokens@, self.current as int, token_kinds@[j]),
            decreases token_kinds@.len() - i,
        {
            if self.check(&token_kinds[i]) {
                self.advance();
                return true;
            }
            i += 1;
        }
        proof {
            if matches_any(self.tokens@, self.current as int, token_kinds@) {
                let k = self.tokens@[self.current as int].kind;
                let j = choose|j: int| 0 <= j < token_kinds@.len() && token_kinds@[j] == k;
                assert(checks(self.tokens@, self.current as int, token_kinds@[j]));
            }
        }
        false
    }

    fn check(&self, kind: &TokenKind) -> (r: bool)
        requires
            self.wf(),
        ensures
            r == checks(self.tokens@, self.current as int, *kind),
    {
        if self.is_at_end() {
            false
        } else {
            self.peek().kind == *kind
        }
    }

    fn is_at_end(&self) -> (r: bool)
        requires
            self.wf(),
        ensures
            r == (self.tokens@[self.current as int].kind == TokenKind::Eof),
    {
        self.peek().kind == TokenKind::Eof
    }

    fn peek(&self) -> (r: Token)
        requires
            self.wf(),
        ensures
            r == self.tokens@[self.current as int],
    {
        self.tokens[self.current].clone()
    }

    fn previous(&self) -> (r: Token)
        requires
            self.current > 0,
            self.current <= self.tokens@.len(),
        ensures
            r == self.tokens@[self.current - 1],
    {
        self.tokens[self.current - 1].clone()
    }

    /// Moves the cursor one token on, but never past the end-of-input marker,
    /// and returns the token it left.
    fn advance(&mut self) -> (r: Token)
        requires
            old(self).wf(),
            old(self).tokens@[old(self).current as int].kind != TokenKind::Eof,
        ensures
            final(self).wf(),
            final(self).tokens == old(self).tokens,
            final(self).current == old(self).current + 1,
            r == old(self).tokens@[old(self).current as int],
    {
        if !self.is_at_end() {
            self.current += 1;
        }
        self.previous()
    }

    /// Moves past a token of `kind`, or reports the token found instead.
    fn consume(&mut self, kind: TokenKind) -> (r: Result<(), LoxErr>)
        requires
            old(self).wf(),
        ensures
            final(self).wf(),
            final(self).tokens == old(self).tokens,
            ({
                let toks = old(self).tokens@;
                let c = old(self).current as int;
                if checks(toks, c, kind) {
                    r is Ok && final(self).current == c + 1
                } else {
                    &&& r is Err
                    &&& final(self).current == c
                    &&& r->Err_0@ == (ErrView {
                        line: toks[c].line as nat,
                        message: expected_message(kind, toks[c].kind),
                    })
                }
            }),
    {
        let expected = vec![kind];
        if !self.match_tokens(&expected) {
            let token = self.peek();
            let m = joined("Unexpected token. expected: ", kind.name());
            let m = joined(m.as_str(), ", got: ");
            let message = joined(m.as_str(), token.kind.name());
            Err(LoxErr::new(token.line, message))
        } else {
            Ok(())
        }
    }
}

/// A number token whose lexeme is all digits parses, as a primary, to the
/// number literal of exactly that text, whose value is written as the
/// digits without leading zeros.
pub proof fn lemma_integer_literal(toks: Seq<Token>, pos: int)
    requires
        0 <= pos < toks.len(),
        toks[pos].kind == TokenKind::Number,
        toks[pos].lexeme@.len() > 0,
        digit_run(toks[pos].lexeme@, 0) == toks[pos].lexeme@.len(),
    ensures
        primary_at(toks, pos) == Ok::<(Expression, nat), ErrView>(
            (Expression::NumberLiteral(toks[pos].lexeme), 1),
        ),
        number_text(toks[pos].lexeme@) == trim_leading_zeros(toks[pos].lexeme@),
{
    let s = toks[pos].lexeme@;
    lemma_digits_hold_no_dot(s, 0);
    assert(s.subrange(0, s.len() as int) =~= s);
}

/// A run of digits from `i` to the end holds no dot.
proof fn lemma_digits_hold_no_dot(s: Seq<char>, i: int)
    requires
        0 <= i <= s.len(),
        i + digit_run(s, i) == s.len(),
    ensures
        i + run_until(s, i, '.') == s.len(),
    decreases s.len() - i,
{
    if i < s.len() {
        lemma_digits_hold_no_dot(s, i + 1);
    }
}

/// Operators of one level fold to the left: `a - b - c` is `(a - b) - c`.
pub proof fn lemma_subtraction_folds_left(toks: Seq<Token>)
    requires
        toks.len() == 6,
        toks[0].kind == TokenKind::Number && is_number_text(toks[0].lexeme@),
        toks[1].kind == TokenKind::Minus,
        toks[2].kind == TokenKind::Number && is_number_text(toks[2].lexeme@),
        toks[3].kind == TokenKind::Minus,
        toks[4].kind == TokenKind::Number && is_number_text(toks[4].lexeme@),
        toks[5].kind == TokenKind::Eof,
    ensures
        binary_at(toks, 0, 2) == Ok::<(Expression, nat), ErrView>(
            (
                binary(
                    binary(
                        Expression::NumberLiteral(toks[0].lexeme),
                        toks[1],
                        Expression::NumberLiteral(toks[2].lexeme),
                    ),
                    toks[3],
                    Expression::NumberLiteral(toks[4].lexeme),
                ),
                5,
            ),
        ),
{
    let n0 = Expression::NumberLiteral(toks[0].lexeme);
    let n2 = Expression::NumberLiteral(toks[2].lexeme);
    let n4 = Expression::NumberLiteral(toks[4].lexeme);
    let ok = |e: Expression, n: nat| Ok::<(Expression, nat), ErrView>((e, n));
    assert(level_ops(2)[0] == TokenKind::Minus);
    assert(!level_ops(1).contains(TokenKind::Minus));
    assert(!level_ops(1).contains(TokenKind::Eof));
    assert(!level_ops(2).contains(TokenKind::Eof));
    assert(!seq![TokenKind::Bang, TokenKind::Minus].contains(TokenKind::Number));
    // each number is one operand of the multiplication level
    assert(primary_at(toks, 0) == ok(n0, 1));
    assert(unary_at(toks, 0) == ok(n0, 1));
    assert(primary_at(toks, 2) == ok(n2, 1));
    assert(unary_at(toks, 2) == ok(n2, 1));
    assert(primary_at(toks, 4) == ok(n4, 1));
    assert(unary_at(toks, 4) == ok(n4, 1));
    assert(chain_at(toks, n0, 1, 1) == ok(n0, 0));
    assert(chain_at(toks, n2, 3, 1) == ok(n2, 0));
    assert(chain_at(toks, n4, 5, 1) == ok(n4, 0));
    assert(binary_at(toks, 0, 1) == ok(n0, 1));
    assert(binary_at(toks, 2, 1) == ok(n2, 1));
    assert(binary_at(toks, 4, 1) == ok(n4, 1));
    // the chain of the addition level, from its end back to its start
    let b1 = binary(n0, toks[1], n2);
    let b2 = binary(b1, toks[3], n4);
    assert(chain_at(toks, b2, 5, 2) == ok(b2, 0));
    assert(chain_at(toks, b1, 3, 2) == ok(b2, 2));
    assert(chain_at(toks, n0, 1, 2) == ok(b2, 4));
}

} // verus!
