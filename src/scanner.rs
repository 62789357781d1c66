//! The lexical pass: source characters to tokens, collecting every defect.
use vstd::prelude::*;
use crate::lox_err::{ErrView, LoxErr};
use crate::text::{chars_of, joined, string_of};
use crate::token::{reserved_kind, Token, TokenKind, TokenView};

verus! {

pub open spec fn is_digit(c: char) -> bool {
    '0' <= c && c <= '9'
}

pub open spec fn is_alpha(c: char) -> bool {
    ('a' <= c && c <= 'z') || ('A' <= c && c <= 'Z') || c == '_'
}

pub open spec fn is_alpha_numeric(c: char) -> bool {
    is_alpha(c) || is_digit(c)
}

/// How many characters from index `i` on are digits.
pub open spec fn digit_run(src: Seq<char>, i: int) -> nat
    decreases src.len() - i,
{
    if 0 <= i < src.len() && is_digit(src[i]) {
        1 + digit_run(src, i + 1)
    } else {
        0
    }
}

/// How many characters from index `i` on are alphanumeric or `_`.
pub open spec fn word_run(src: Seq<char>, i: int) -> nat
    decreases src.len() - i,
{
    if 0 <= i < src.len() && is_alpha_numeric(src[i]) {
        1 + word_run(src, i + 1)
    } else {
        0
    }
}

/// How many characters from index `i` on come before the next `stop`.
pub open spec fn run_until(src: Seq<char>, i: int, stop: char) -> nat
    decreases src.len() - i,
{
    if 0 <= i < src.len() && src[i] != stop {
        1 + run_until(src, i + 1, stop)
    } else {
        0
    }
}

/// How many line breaks `s` holds.
pub open spec fn newlines(s: Seq<char>) -> nat
    decreases s.len(),
{
    if s.len() == 0 {
        0
    } else {
        newlines(s.drop_last()) + if s.last() == '\n' { 1nat } else { 0nat }
    }
}

/// What one token's worth of scanning does: where it stops, the line it
/// leaves, and the token or the diagnostic it produces (or neither).
pub struct Step {
    pub next: int,
    pub line: nat,
    pub token: Option<TokenView>,
    pub error: Option<ErrView>,
}

pub open spec fn emit(src: Seq<char>, kind: TokenKind, start: int, end: int, line: nat) -> Step {
    Step {
        next: end,
        line,
        token: Some(TokenView { kind, lexeme: src.subrange(start, end), line }),
        error: None,
    }
}

pub open spec fn skip(next: int, line: nat) -> Step {
    Step { next, line, token: None, error: None }
}

/// A one-character token, or its two-character form when `=` follows.
pub open spec fn with_equal(
    src: Seq<char>,
    start: int,
    line: nat,
    one: TokenKind,
    two: TokenKind,
) -> Step {
    if start + 1 < src.len() && src[start + 1] == '=' {
        emit(src, two, start, start + 2, line)
    } else {
        emit(src, one, start, start + 1, line)
    }
}

/// Where a number literal that starts at `start` ends: its digits, and a
/// fraction only where a digit follows the dot.
pub open spec fn number_end(src: Seq<char>, start: int) -> int {
    let q = start + 1 + digit_run(src, start + 1);
    if q + 1 < src.len() && src[q] == '.' && is_digit(src[q + 1]) {
        q + 1 + digit_run(src, q + 1)
    } else {
        q
    }
}

/// Scanning one token that starts at `start`, on line `line`.
///
/// Line breaks inside a string literal are counted, so later tokens carry
/// their true line; the string's token, or the diagnostic of an unterminated
/// one, carries the line on which the string starts.
pub open spec fn step(src: Seq<char>, start: int, line: nat) -> Step {
    let c = src[start];
    let p = start + 1;
    if c == '(' {
        emit(src, TokenKind::LeftParen, start, p, line)
    } else if c == ')' {
        emit(src, TokenKind::RightParen, start, p, line)
    } else if c == '{' {
        emit(src, TokenKind::LeftBrace, start, p, line)
    } else if c == '}' {
        emit(src, TokenKind::RightBrace, start, p, line)
    } else if c == ',' {
        emit(src, TokenKind::Comma, start, p, line)
    } else if c == '.' {
        emit(src, TokenKind::Dot, start, p, line)
    } else if c == '-' {
        emit(src, TokenKind::Minus, start, p, line)
    } else if c == '+' {
        emit(src, TokenKind::Plus, start, p, line)
    } else if c == ';' {
        emit(src, TokenKind::Semicolon, start, p, line)
    } else if c == '*' {
        emit(src, TokenKind::Star, start, p, line)
    } else if c == '!' {
        with_equal(src, start, line, TokenKind::Bang, TokenKind::BangEqual)
    } else if c == '=' {
        with_equal(src, start, line, TokenKind::Equal, TokenKind::EqualEqual)
    } else if c == '<' {
        with_equal(src, start, line, TokenKind::Less, TokenKind::LessEqual)
    } else if c == '>' {
        with_equal(src, start, line, TokenKind::Greater, TokenKind::GreaterEqual)
    } else if c == '/' {
        if p < src.len() && src[p] == '/' {
            skip(p + run_until(src, p, '\n'), line)
        } else {
            emit(src, TokenKind::Slash, start, p, line)
        }
    } else if c == '"' {
        let q = p + run_until(src, p, '"');
        let after = line + newlines(src.subrange(p, q));
        if q >= src.len() {
            Step {
                next: q,
                line: after,
                token: None,
                error: Some(
                    ErrView {
                        line,
                        message: "Unterminated string: '"@ + src.subrange(start, q) + "'"@,
                    },
                ),
            }
        } else {
            Step {
                next: q + 1,
                line: after,
                token: Some(TokenView { kind: TokenKind::Str, lexeme: src.subrange(p, q), line }),
                error: None,
            }
        }
    } else if c == ' ' || c == '\r' || c == '\t' {
        skip(p, line)
    } else if is_digit(c) {
        emit(src, TokenKind::Number, start, number_end(src, start), line)
    } else if is_alpha(c) {
        let q = p + word_run(src, p);
        match reserved_kind(src.subrange(start, q)) {
            Some(k) => emit(src, k, start, q, line),
            None => emit(src, TokenKind::Identifier, start, q, line),
        }
    } else if c == '\n' {
        skip(p, line + 1)
    } else {
        Step {
            next: p,
            line,
            token: None,
            error: Some(
                ErrView { line, message: "Unexpected token: '"@ + src.subrange(start, p) + "'"@ },
            ),
        }
    }
}

pub open spec fn opt_seq<T>(o: Option<T>) -> Seq<T> {
    match o {
        Some(x) => seq![x],
        None => Seq::empty(),
    }
}

/// Scanning from index `pos` on line `line` to the end of `src`: the tokens
/// (end-of-input marker not included), every diagnostic, and the last line.
pub open spec fn scan_from(src: Seq<char>, pos: int, line: nat) -> (Seq<TokenView>, Seq<ErrView>, nat)
    decreases src.len() - pos,
{
    if pos < 0 || pos >= src.len() {
        (Seq::empty(), Seq::empty(), line)
    } else {
        let st = step(src, pos, line);
        proof {
            lemma_step_bounds(src, pos, line);
        }
        let rest = scan_from(src, st.next, st.line);
        (opt_seq(st.token) + rest.0, opt_seq(st.error) + rest.1, rest.2)
    }
}

/// The end-of-input marker on line `line`.
pub open spec fn eof_view(line: nat) -> TokenView {
    TokenView { kind: TokenKind::Eof, lexeme: Seq::empty(), line }
}

/// Every token of `src` scanned from its start on line 1, end-of-input marker included.
pub open spec fn scanned_tokens(src: Seq<char>) -> Seq<TokenView> {
    let r = scan_from(src, 0, 1);
    r.0.push(eof_view(r.2))
}

/// Every diagnostic of `src` scanned from its start on line 1.
pub open spec fn scanned_errors(src: Seq<char>) -> Seq<ErrView> {
    scan_from(src, 0, 1).1
}

pub open spec fn token_views(ts: Seq<Token>) -> Seq<TokenView> {
    ts.map_values(|t: Token| t@)
}

pub open spec fn err_views(es: Seq<LoxErr>) -> Seq<ErrView> {
    es.map_values(|e: LoxErr| e@)
}

pub proof fn lemma_digit_run_bound(src: Seq<char>, i: int)
    requires
        0 <= i <= src.len(),
    ensures
        i + digit_run(src, i) <= src.len(),
    decreases src.len() - i,
{
    if i < src.len() {
        lemma_digit_run_bound(src, i + 1);
    }
}

pub proof fn lemma_word_run_bound(src: Seq<char>, i: int)
    requires
        0 <= i <= src.len(),
    ensures
        i + word_run(src, i) <= src.len(),
    decreases src.len() - i,
{
    if i < src.len() {
        lemma_word_run_bound(src, i + 1);
    }
}

pub proof fn lemma_run_until_bound(src: Seq<char>, i: int, stop: char)
    requires
        0 <= i <= src.len(),
    ensures
        i + run_until(src, i, stop) <= src.len(),
        i + run_until(src, i, stop) < src.len() ==> src[i + run_until(src, i, stop)] == stop,
    decreases src.len() - i,
{
    if i < src.len() {
        lemma_run_until_bound(src, i + 1, stop);
    }
}

/// A step moves forward and stays within the text.
pub proof fn lemma_step_bounds(src: Seq<char>, start: int, line: nat)
    requires
        0 <= start < src.len(),
    ensures
        start < step(src, start, line).next <= src.len(),
{
    lemma_digit_run_bound(src, start + 1);
    let q = start + 1 + digit_run(src, start + 1);
    if q + 1 < src.len() {
        lemma_digit_run_bound(src, q + 1);
    }
    lemma_word_run_bound(src, start + 1);
    lemma_run_until_bound(src, start + 1, '\n');
    lemma_run_until_bound(src, start + 1, '"');
}

/// A stretch that stops before the next line break holds none.
proof fn lemma_no_newlines_before_break(src: Seq<char>, i: int, j: int)
    requires
        0 <= i <= j <= i + run_until(src, i, '\n'),
        j <= src.len(),
    ensures
        newlines(src.subrange(i, j)) == 0,
    decreases j - i,
{
    if j > i {
        lemma_run_until_prefix(src, i, j - 1, '\n');
        lemma_no_newlines_before_break(src, i, j - 1);
        assert(src.subrange(i, j).drop_last() =~= src.subrange(i, j - 1));
    }
}

/// Each index inside the run before `stop` holds another character.
proof fn lemma_run_until_prefix(src: Seq<char>, i: int, k: int, stop: char)
    requires
        0 <= i <= k < i + run_until(src, i, stop),
    ensures
        src[k] != stop,
        0 <= k < src.len(),
    decreases k - i,
{
    if k > i {
        lemma_run_until_prefix(src, i + 1, k, stop);
    }
}

/// Whether `c` starts a token, a comment or a blank.
pub open spec fn is_known_char(c: char) -> bool {
    ||| c == '(' || c == ')' || c == '{' || c == '}' || c == ',' || c == '.'
    ||| c == '-' || c == '+' || c == ';' || c == '*' || c == '/'
    ||| c == '!' || c == '=' || c == '<' || c == '>' || c == '"'
    ||| c == ' ' || c == '\r' || c == '\t' || c == '\n'
    ||| is_digit(c) || is_alpha(c)
}

/// An unknown character is reported once, on its line, and scanning goes on
/// with the very next character: the tokens and the diagnostics of the rest
/// of the text all still come out.
pub proof fn lemma_unknown_character_collected(src: Seq<char>, pos: int, line: nat)
    requires
        0 <= pos < src.len(),
        !is_known_char(src[pos]),
    ensures
        ({
            let rest = scan_from(src, pos + 1, line);
            let report = ErrView {
                line,
                message: "Unexpected token: '"@ + seq![src[pos]] + "'"@,
            };
            scan_from(src, pos, line) == (rest.0, seq![report] + rest.1, rest.2)
        }),
{
    let rest = scan_from(src, pos + 1, line);
    assert(src.subrange(pos, pos + 1) =~= seq![src[pos]]);
    assert(opt_seq::<TokenView>(None) + rest.0 =~= rest.0);
}

/// Whether the lexemes of `toks` are stretches of `src`, in order, without
/// overlap, all at or after index `from`.
pub open spec fn lexemes_in_order(toks: Seq<TokenView>, src: Seq<char>, from: int) -> bool
    decreases toks.len(),
{
    toks.len() == 0 || exists|a: int, b: int|
        from <= a <= b <= src.len() && toks[0].lexeme == #[trigger] src.subrange(a, b)
            && lexemes_in_order(toks.drop_first(), src, b)
}

/// Starting later in the text is a stronger claim.
proof fn lemma_in_order_from_earlier(toks: Seq<TokenView>, src: Seq<char>, from: int, later: int)
    requires
        from <= later,
        lexemes_in_order(toks, src, later),
    ensures
        lexemes_in_order(toks, src, from),
{
    if toks.len() > 0 {
        let (a, b) = choose|a: int, b: int|
            later <= a <= b <= src.len() && toks[0].lexeme == #[trigger] src.subrange(a, b)
                && lexemes_in_order(toks.drop_first(), src, b);
        assert(from <= a <= b <= src.len() && toks[0].lexeme == src.subrange(a, b)
            && lexemes_in_order(toks.drop_first(), src, b));
    }
}

/// The lexeme of a token from one step lies between its start and where the step stops.
proof fn lemma_step_lexeme(src: Seq<char>, start: int, line: nat)
    requires
        0 <= start < src.len(),
    ensures
        step(src, start, line).token matches Some(t) ==> exists|a: int, b: int|
            start <= a <= b <= step(src, start, line).next && t.lexeme == #[trigger] src.subrange(
                a,
                b,
            ),
{
    lemma_step_bounds(src, start, line);
    let st = step(src, start, line);
    if st.token is Some {
        let t = st.token->Some_0;
        let p = start + 1;
        if src[start] == '"' {
            let q = p + run_until(src, p, '"');
            assert(t.lexeme == src.subrange(p, q));
        } else {
            assert(t.lexeme == src.subrange(start, st.next));
        }
    }
}

/// The lexemes scanned from `pos` on are stretches of the text, in order.
proof fn lemma_lexemes_from_source(src: Seq<char>, pos: int, line: nat)
    requires
        0 <= pos,
    ensures
        lexemes_in_order(scan_from(src, pos, line).0, src, pos),
    decreases src.len() - pos,
{
    if pos < src.len() {
        let st = step(src, pos, line);
        lemma_step_bounds(src, pos, line);
        lemma_step_lexeme(src, pos, line);
        lemma_lexemes_from_source(src, st.next, st.line);
        let rest = scan_from(src, st.next, st.line).0;
        let toks = scan_from(src, pos, line).0;
        assert(toks == opt_seq(st.token) + rest);
        if st.token is Some {
            let t = st.token->Some_0;
            let (a, b) = choose|a: int, b: int|
                pos <= a <= b <= st.next && t.lexeme == #[trigger] src.subrange(a, b);
            lemma_in_order_from_earlier(rest, src, b, st.next);
            assert(toks.drop_first() =~= rest);
            assert(toks[0] == t);
        } else {
            assert(toks =~= rest);
            lemma_in_order_from_earlier(rest, src, pos, st.next);
        }
    }
}

/// A text that scans without defects yields tokens that end with the
/// end-of-input marker, and whose lexemes before it are stretches of the
/// text, in order and without overlap.
pub proof fn lemma_clean_scan_shape(src: Seq<char>)
    requires
        scanned_errors(src).len() == 0,
    ensures
        scanned_tokens(src).len() > 0,
        scanned_tokens(src).last().kind == TokenKind::Eof,
        lexemes_in_order(scanned_tokens(src).drop_last(), src, 0),
{
    lemma_lexemes_from_source(src, 0, 1);
    let r = scan_from(src, 0, 1);
    assert(scanned_tokens(src).drop_last() =~= r.0);
}

/// The state of one lexical pass over a source text.
#[derive(Debug)]
pub struct Scanner {
    pub source: Vec<char>,
    pub tokens: Vec<Token>,
    pub start: usize,
    pub current: usize,
    pub line: usize,
}

impl Scanner {
    /// Cursors within the source, and room for the line counter to grow by
    /// one per remaining character.
    pub open spec fn wf(&self) -> bool {
        &&& self.start <= self.current <= self.source@.len() <= usize::MAX
        &&& self.line + (self.source@.len() - self.current) <= usize::MAX
    }

    pub fn new(source: String) -> (r: Scanner)
        requires
            source@.len() < usize::MAX,
        ensures
            r.wf(),
            r.source@ == source@,
            r.tokens@.len() == 0,
            r.start == 0,
            r.current == 0,
            r.line == 1,
    {
        Scanner { source: chars_of(source.as_str()), tokens: Vec::new(), start: 0, current: 0, line: 1 }
    }

    /// Consumes one character and returns it.
    pub fn advance(&mut self) -> (c: char)
        requires
            old(self).wf(),
            old(self).current < old(self).source@.len(),
        ensures
            final(self).wf(),
            c == old(self).source@[old(self).current as int],
            final(self).current == old(self).current + 1,
            final(self).source == old(self).source,
            final(self).tokens == old(self).tokens,
            final(self).start == old(self).start,
            final(self).line == old(self).line,
    {
        self.current += 1;
        self.source[self.current - 1]
    }

    /// Appends a token of `kind` on the current line; its lexeme is `lexeme`
    /// where one is given, else the characters from `start` to `current`.
    pub fn push_token(&mut self, kind: TokenKind, lexeme: Option<String>)
        requires
            old(self).wf(),
        ensures
            final(self).wf(),
            token_views(final(self).tokens@) == token_views(old(self).tokens@).push(
                TokenView {
                    kind,
                    lexeme: match lexeme {
                        Some(l) => l@,
                        None => old(self).source@.subrange(
                            old(self).start as int,
                            old(self).current as int,
                        ),
                    },
                    line: old(self).line as nat,
                },
            ),
            final(self).source == old(self).source,
            final(self).start == old(self).start,
            final(self).current == old(self).current,
            final(self).line == old(self).line,
    {
        let lexeme = match lexeme {
            Some(l) => l,
            None => self.token_literal(),
        };
        let t = Token::new(kind, lexeme, self.line);
        self.tokens.push(t);
        assert(token_views(self.tokens@) =~= token_views(old(self).tokens@).push(t@));
    }

    /// The characters from `start` to `current`.
    fn token_literal(&self) -> (r: String)
        requires
            self.wf(),
        ensures
            r@ == self.source@.subrange(self.start as int, self.current as int),
    {
        string_of(&self.source, self.start, self.current)
    }

    pub fn at_end(&self) -> (r: bool)
        ensures
            r == (self.current >= self.source@.len()),
    {
        self.current >= self.source.len()
    }

    /// The next character, or `'\0'` at the end.
    fn peek_token(&self) -> (c: char)
        ensures
            self.current < self.source@.len() ==> c == self.source@[self.current as int],
            self.current >= self.source@.len() ==> c == '\0',
    {
        if self.at_end() {
            '\0'
        } else {
            self.source[self.current]
        }
    }

    /// The character after the next one, or `'\0'` past the end.
    fn peek_next_token(&self) -> (c: char)
        requires
            self.wf(),
        ensures
            self.current + 1 < self.source@.len() ==> c == self.source@[self.current + 1],
            self.current + 1 >= self.source@.len() ==> c == '\0',
    {
        if self.source.len() - self.current <= 1 {
            '\0'
        } else {
            self.source[self.current + 1]
        }
    }

    fn is_digit(&self, c: &char) -> (r: bool)
        ensures
            r == is_digit(*c),
    {
        '0' <= *c && *c <= '9'
    }

    fn is_alpha_numeric(&self, c: &char) -> (r: bool)
        ensures
            r == is_alpha_numeric(*c),
    {
        ('a' <= *c && *c <= 'z') || ('A' <= *c && *c <= 'Z') || *c == '_' || self.is_digit(c)
    }

    /// Consumes characters up to, not including, the next `expected`,
    /// counting the line breaks it passes.
    fn peek_until(&mut self, expected: char)
        requires
            old(self).wf(),
        ensures
            final(self).wf(),
            final(self).current == old(self).current + run_until(
                old(self).source@,
                old(self).current as int,
                expected,
            ),
            final(self).line == old(self).line + newlines(
                old(self).source@.subrange(old(self).current as int, final(self).current as int),
            ),
            final(self).source == old(self).source,
            final(self).tokens == old(self).tokens,
            final(self).start == old(self).start,
    {
        let ghost src = self.source@;
        let ghost c0 = self.current as int;
        while !self.at_end() && self.peek_token() != expected
            invariant
                self.wf(),
                self.source == old(self).source,
                self.source@ == src,
                self.tokens == old(self).tokens,
                self.start == old(self).start,
                c0 <= self.current,
                c0 + run_until(src, c0, expected) == self.current + run_until(
                    src,
                    self.current as int,
                    expected,
                ),
                self.line == old(self).line + newlines(src.subrange(c0, self.current as int)),
            decreases src.len() - self.current,
        {
            let c = self.advance();
            if c == '\n' {
                self.line += 1;
            }
            assert(src.subrange(c0, self.current as int).drop_last() =~= src.subrange(
                c0,
                self.current - 1,
            ));
        }
    }

    /// Scans the token that starts at `current`.
    fn scan_token(&mut self) -> (r: Result<(), LoxErr>)
        requires
            old(self).wf(),
            old(self).start == old(self).current,
            old(self).current < old(self).source@.len(),
        ensures
            ({
                let st = step(old(self).source@, old(self).current as int, old(self).line as nat);
                &&& final(self).wf()
                &&& final(self).source == old(self).source
                &&& final(self).current == st.next
                &&& final(self).line == st.line
                &&& token_views(final(self).tokens@) == token_views(old(self).tokens@) + opt_seq(
                    st.token,
                )
                &&& match r {
                    Ok(()) => st.error is None,
                    Err(e) => st.error == Some(e@),
                }
            }),
    {
        let ghost src = self.source@;
        let ghost s = self.start as int;
        proof {
            lemma_step_bounds(src, s, self.line as nat);
        }
        let line = self.line;
        let c = self.advance();
        if c == '(' {
            self.push_token(TokenKind::LeftParen, None);
        } else if c == ')' {
            self.push_token(TokenKind::RightParen, None);
        } else if c == '{' {
            self.push_token(TokenKind::LeftBrace, None);
        } else if c == '}' {
            self.push_token(TokenKind::RightBrace, None);
        } else if c == ',' {
            self.push_token(TokenKind::Comma, None);
        } else if c == '.' {
            self.push_token(TokenKind::Dot, None);
        } else if c == '-' {
            self.push_token(TokenKind::Minus, None);
        } else if c == '+' {
            self.push_token(TokenKind::Plus, None);
        } else if c == ';' {
            self.push_token(TokenKind::Semicolon, None);
        } else if c == '*' {
            self.push_token(TokenKind::Star, None);
        } else if c == '!' {
            self.one_or_two(TokenKind::Bang, TokenKind::BangEqual);
        } else if c == '=' {
            self.one_or_two(TokenKind::Equal, TokenKind::EqualEqual);
        } else if c == '<' {
            self.one_or_two(TokenKind::Less, TokenKind::LessEqual);
        } else if c == '>' {
            self.one_or_two(TokenKind::Greater, TokenKind::GreaterEqual);
        } else if c == '/' {
            if self.peek_token() == '/' {
                self.peek_until('\n');
                proof {
                    lemma_no_newlines_before_break(src, s + 1, self.current as int);
                }
            } else {
                self.push_token(TokenKind::Slash, None);
            }
        } else if c == '"' {
            self.peek_until('"');
            if self.at_end() {
                let literal = self.token_literal();
                let m = joined("Unterminated string: '", literal.as_str());
                let message = joined(m.as_str(), "'");
                return Err(LoxErr::new(line, message));
            }
            self.advance();
            // the token belongs to the line on which the string starts
            let lexeme = string_of(&self.source, self.start + 1, self.current - 1);
            let ghost before = token_views(self.tokens@);
            let t = Token::new(TokenKind::Str, lexeme, line);
            self.tokens.push(t);
            assert(token_views(self.tokens@) =~= before.push(t@));
        } else if c == ' ' || c == '\r' || c == '\t' {
        } else if '0' <= c && c <= '9' {
            self.scan_number();
        } else if ('a' <= c && c <= 'z') || ('A' <= c && c <= 'Z') || c == '_' {
            self.scan_word();
        } else if c == '\n' {
            self.line += 1;
        } else {
            let literal = self.token_literal();
            let m = joined("Unexpected token: '", literal.as_str());
            let message = joined(m.as_str(), "'");
            return Err(LoxErr::new(line, message));
        }
        Ok(())
    }

    /// After the first character of an operator: its two-character form
    /// when `=` follows, else its one-character form.
    fn one_or_two(&mut self, one: TokenKind, two: TokenKind)
        requires
            old(self).wf(),
            old(self).current == old(self).start + 1,
        ensures
            ({
                let st = with_equal(
                    old(self).source@,
                    old(self).start as int,
                    old(self).line as nat,
                    one,
                    two,
                );
                &&& final(self).wf()
                &&& final(self).source == old(self).source
                &&& final(self).current == st.next
                &&& final(self).line == st.line
                &&& token_views(final(self).tokens@) == token_views(old(self).tokens@) + opt_seq(
                    st.token,
                )
            }),
    {
        if self.peek_token() == '=' {
            self.advance();
            self.push_token(two, None);
        } else {
            self.push_token(one, None);
        }
    }

    /// After the first digit: the rest of a number literal.
    fn scan_number(&mut self)
        requires
            old(self).wf(),
            old(self).current == old(self).start + 1,
        ensures
            ({
                let src = old(self).source@;
                let s = old(self).start as int;
                let st = emit(src, TokenKind::Number, s, number_end(src, s), old(self).line as nat);
                &&& final(self).wf()
                &&& final(self).source == old(self).source
                &&& final(self).current == st.next
                &&& final(self).line == st.line
                &&& token_views(final(self).tokens@) == token_views(old(self).tokens@) + opt_seq(
                    st.token,
                )
            }),
    {
        let ghost src = self.source@;
        let ghost p = self.current as int;
        while !self.at_end() && self.is_digit(&self.peek_token())
            invariant
                self.wf(),
                self.source == old(self).source,
                self.source@ == src,
                self.tokens == old(self).tokens,
                self.start == old(self).start,
                self.line == old(self).line,
                p <= self.current,
                p + digit_run(src, p) == self.current + digit_run(src, self.current as int),
            decreases src.len() - self.current,
        {
            self.advance();
        }
        let ghost q = self.current as int;
        if self.peek_token() == '.' && self.is_digit(&self.peek_next_token()) {
            self.advance();
            let ghost q1 = self.current as int;
            while self.is_digit(&self.peek_token())
                invariant
                    self.wf(),
                    self.source == old(self).source,
                self.source@ == src,
                    self.tokens == old(self).tokens,
                    self.start == old(self).start,
                    self.line == old(self).line,
                    q1 <= self.current,
                    q1 + digit_run(src, q1) == self.current + digit_run(src, self.current as int),
                decreases src.len() - self.current,
            {
                self.advance();
            }
        }
        self.push_token(TokenKind::Number, None);
    }

    /// After the first letter or `_`: the rest of an identifier or reserved word.
    fn scan_word(&mut self)
        requires
            old(self).wf(),
            old(self).current == old(self).start + 1,
        ensures
            ({
                let src = old(self).source@;
                let s = old(self).start as int;
                let q = s + 1 + word_run(src, s + 1);
                let kind = match reserved_kind(src.subrange(s, q)) {
                    Some(k) => k,
                    None => TokenKind::Identifier,
                };
                let st = emit(src, kind, s, q, old(self).line as nat);
                &&& final(self).wf()
                &&& final(self).source == old(self).source
                &&& final(self).current == st.next
                &&& final(self).line == st.line
                &&& token_views(final(self).tokens@) == token_views(old(self).tokens@) + opt_seq(
                    st.token,
                )
            }),
    {
        let ghost src = self.source@;
        let ghost p = self.current as int;
        while self.is_alpha_numeric(&self.peek_token())
            invariant
                self.wf(),
                self.source == old(self).source,
                self.source@ == src,
                self.tokens == old(self).tokens,
                self.start == old(self).start,
                self.line == old(self).line,
                p <= self.current,
                p + word_run(src, p) == self.current + word_run(src, self.current as int),
            decreases src.len() - self.current,
        {
            self.advance();
        }
        let literal = self.token_literal();
        match TokenKind::reserve_kind(literal.as_str()) {
            Some(kind) => self.push_token(kind, None),
            None => self.push_token(TokenKind::Identifier, None),
        }
    }

    /// Scans the rest of the source, then appends the end-of-input marker.
    /// Returns every token scanned so far when no diagnostic came up, else
    /// every diagnostic.
    pub fn scan(&mut self) -> (r: Result<&Vec<Token>, Vec<LoxErr>>)
        requires
            old(self).wf(),
        ensures
            ({
                let res = scan_from(old(self).source@, old(self).current as int, old(self).line as nat);
                &&& final(self).wf()
                &&& final(self).source == old(self).source
                &&& final(self).current == final(self).source@.len()
                &&& token_views(final(self).tokens@) == token_views(old(self).tokens@) + res.0.push(
                    eof_view(res.2),
                )
                &&& match r {
                    Ok(ts) => res.1.len() == 0 && ts == &final(self).tokens,
                    Err(es) => res.1.len() > 0 && err_views(es@) == res.1,
                }
            }),
    {
        let ghost src = self.source@;
        let ghost n0 = self.tokens@.len();
        let ghost res = scan_from(src, self.current as int, self.line as nat);
        let mut errors: Vec<LoxErr> = Vec::new();
        while !self.at_end()
            invariant
                self.wf(),
                self.source == old(self).source,
                self.source@ == src,
                n0 <= self.tokens@.len(),
                token_views(self.tokens@).subrange(0, n0 as int) == token_views(
                    old(self).tokens@,
                ),
                ({
                    let rest = scan_from(src, self.current as int, self.line as nat);
                    &&& token_views(self.tokens@).subrange(n0 as int, self.tokens@.len() as int)
                        + rest.0 == res.0
                    &&& err_views(errors@) + rest.1 == res.1
                    &&& rest.2 == res.2
                }),
            decreases src.len() - self.current,
        {
            self.start = self.current;
            let ghost before = token_views(self.tokens@);
            let ghost e0 = err_views(errors@);
            let ghost st = step(src, self.current as int, self.line as nat);
            let outcome = self.scan_token();
            match outcome {
                Err(e) => errors.push(e),
                Ok(()) => {},
            }
            proof {
                let tv = token_views(self.tokens@);
                assert(tv =~= before + opt_seq(st.token));
                assert(tv.subrange(0, n0 as int) =~= before.subrange(0, n0 as int));
                assert(tv.subrange(n0 as int, tv.len() as int) =~= before.subrange(
                    n0 as int,
                    before.len() as int,
                ) + opt_seq(st.token));
                assert(err_views(errors@) =~= e0 + opt_seq(st.error));
            }
        }
        proof {
            let tv = token_views(self.tokens@);
            assert(tv =~= tv.subrange(0, n0 as int) + tv.subrange(n0 as int, tv.len() as int));
            assert(res.0 =~= tv.subrange(n0 as int, tv.len() as int));
            assert(res.1 =~= err_views(errors@));
        }
        self.push_token(TokenKind::Eof, Some(String::new()));
        if errors.len() == 0 {
            Ok(&self.tokens)
        } else {
            Err(errors)
        }
    }
}

} // verus!
