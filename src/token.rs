//! Lexical categories, reserved words and the token record.
use vstd::prelude::*;
use vstd::string::StringExecFns;

verus! {

/// The closed set of lexical categories.
#[derive(Clone, Copy, Debug, PartialEq, Eq, Structural)]
pub enum TokenKind {
    // single-character tokens
    LeftParen,
    RightParen,
    LeftBrace,
    RightBrace,
    Comma,
    Dot,
    Minus,
    Plus,
    Semicolon,
    Slash,
    Star,
    // one- or two-character tokens
    Bang,
    BangEqual,
    Equal,
    EqualEqual,
    Greater,
    GreaterEqual,
    Less,
    LessEqual,
    // literals
    Identifier,
    Str,
    Number,
    // reserved words
    And,
    Class,
    Else,
    False,
    Fun,
    For,
    If,
    Nil,
    Or,
    Print,
    Return,
    Super,
    This,
    True,
    Var,
    While,
    // end of input
    Eof,
}

/// The reserved word spelled by `s`, if any (exact, case-sensitive match).
pub open spec fn reserved_kind(s: Seq<char>) -> Option<TokenKind> {
    if s == "and"@ {
        Some(TokenKind::And)
    } else if s == "class"@ {
        Some(TokenKind::Class)
    } else if s == "else"@ {
        Some(TokenKind::Else)
    } else if s == "false"@ {
        Some(TokenKind::False)
    } else if s == "for"@ {
        Some(TokenKind::For)
    } else if s == "fun"@ {
        Some(TokenKind::Fun)
    } else if s == "if"@ {
        Some(TokenKind::If)
    } else if s == "nil"@ {
        Some(TokenKind::Nil)
    } else if s == "or"@ {
        Some(TokenKind::Or)
    } else if s == "print"@ {
        Some(TokenKind::Print)
    } else if s == "return"@ {
        Some(TokenKind::Return)
    } else if s == "super"@ {
        Some(TokenKind::Super)
    } else if s == "this"@ {
        Some(TokenKind::This)
    } else if s == "true"@ {
        Some(TokenKind::True)
    } else if s == "var"@ {
        Some(TokenKind::Var)
    } else if s == "while"@ {
        Some(TokenKind::While)
    } else {
        None
    }
}

/// Whether the string `s` spells exactly `word`.
fn spells(s: &String, word: &str) -> (r: bool)
    ensures
        r == (s@ == word@),
{
    *s == String::from_str(word)
}

impl TokenKind {
    /// Looks `lexeme` up in the reserved-word table.
    pub fn reserve_kind(lexeme: &str) -> (r: Option<TokenKind>)
        ensures
            r == reserved_kind(lexeme@),
    {
        let s = String::from_str(lexeme);
        if spells(&s, "and") {
            Some(TokenKind::And)
        } else if spells(&s, "class") {
            Some(TokenKind::Class)
        } else if spells(&s, "else") {
            Some(TokenKind::Else)
        } else if spells(&s, "false") {
            Some(TokenKind::False)
        } else if spells(&s, "for") {
            Some(TokenKind::For)
        } else if spells(&s, "fun") {
            Some(TokenKind::Fun)
        } else if spells(&s, "if") {
            Some(TokenKind::If)
        } else if spells(&s, "nil") {
            Some(TokenKind::Nil)
        } else if spells(&s, "or") {
            Some(TokenKind::Or)
        } else if spells(&s, "print") {
            Some(TokenKind::Print)
        } else if spells(&s, "return") {
            Some(TokenKind::Return)
        } else if spells(&s, "super") {
            Some(TokenKind::Super)
        } else if spells(&s, "this") {
            Some(TokenKind::This)
        } else if spells(&s, "true") {
            Some(TokenKind::True)
        } else if spells(&s, "var") {
            Some(TokenKind::Var)
        } else if spells(&s, "while") {
            Some(TokenKind::While)
        } else {
            None
        }
    }

    /// The variant's name, as diagnostics print it.
    pub fn name(&self) -> (r: &'static str)
        ensures
            r@ == kind_name(*self),
    {
        match self {
            TokenKind::LeftParen => "LeftParen",
            TokenKind::RightParen => "RightParen",
            TokenKind::LeftBrace => "LeftBrace",
            TokenKind::RightBrace => "RightBrace",
            TokenKind::Comma => "Comma",
            TokenKind::Dot => "Dot",
            TokenKind::Minus => "Minus",
            TokenKind::Plus => "Plus",
            TokenKind::Semicolon => "Semicolon",
            TokenKind::Slash => "Slash",
            TokenKind::Star => "Star",
            TokenKind::Bang => "Bang",
            TokenKind::BangEqual => "BangEqual",
            TokenKind::Equal => "Equal",
            TokenKind::EqualEqual => "EqualEqual",
            TokenKind::Greater => "Greater",
            TokenKind::GreaterEqual => "GreaterEqual",
            TokenKind::Less => "Less",
            TokenKind::LessEqual => "LessEqual",
            TokenKind::Identifier => "Identifier",
            TokenKind::Str => "Str",
            TokenKind::Number => "Number",
            TokenKind::And => "And",
            TokenKind::Class => "Class",
            TokenKind::Else => "Else",
            TokenKind::False => "False",
            TokenKind::Fun => "Fun",
            TokenKind::For => "For",
            TokenKind::If => "If",
            TokenKind::Nil => "Nil",
            TokenKind::Or => "Or",
            TokenKind::Print => "Print",
            TokenKind::Return => "Return",
            TokenKind::Super => "Super",
            TokenKind::This => "This",
            TokenKind::True => "True",
            TokenKind::Var => "Var",
            TokenKind::While => "While",
            TokenKind::Eof => "Eof",
        }
    }
}

/// The name of each variant, as `TokenKind::name` returns it.
pub open spec fn kind_name(k: TokenKind) -> Seq<char> {
    match k {
        TokenKind::LeftParen => "LeftParen"@,
        TokenKind::RightParen => "RightParen"@,
        TokenKind::LeftBrace => "LeftBrace"@,
        TokenKind::RightBrace => "RightBrace"@,
        TokenKind::Comma => "Comma"@,
        TokenKind::Dot => "Dot"@,
        TokenKind::Minus => "Minus"@,
        TokenKind::Plus => "Plus"@,
        TokenKind::Semicolon => "Semicolon"@,
        TokenKind::Slash => "Slash"@,
        TokenKind::Star => "Star"@,
        TokenKind::Bang => "Bang"@,
        TokenKind::BangEqual => "BangEqual"@,
        TokenKind::Equal => "Equal"@,
        TokenKind::EqualEqual => "EqualEqual"@,
        TokenKind::Greater => "Greater"@,
        TokenKind::GreaterEqual => "GreaterEqual"@,
        TokenKind::Less => "Less"@,
        TokenKind::LessEqual => "LessEqual"@,
        TokenKind::Identifier => "Identifier"@,
        TokenKind::Str => "Str"@,
        TokenKind::Number => "Number"@,
        TokenKind::And => "And"@,
        TokenKind::Class => "Class"@,
        TokenKind::Else => "Else"@,
        TokenKind::False => "False"@,
        TokenKind::Fun => "Fun"@,
        TokenKind::For => "For"@,
        TokenKind::If => "If"@,
        TokenKind::Nil => "Nil"@,
        TokenKind::Or => "Or"@,
        TokenKind::Print => "Print"@,
        TokenKind::Return => "Return"@,
        TokenKind::Super => "Super"@,
        TokenKind::This => "This"@,
        TokenKind::True => "True"@,
        TokenKind::Var => "Var"@,
        TokenKind::While => "While"@,
        TokenKind::Eof => "Eof"@,
    }
}

/// A token as plain values: its kind, the characters of its lexeme, its line.
pub struct TokenView {
    pub kind: TokenKind,
    pub lexeme: Seq<char>,
    pub line: nat,
}

/// A classified, line-tagged unit of source text.
#[derive(Debug)]
pub struct Token {
    pub kind: TokenKind,
    pub lexeme: String,
    pub line: usize,
}

impl View for Token {
    type V = TokenView;

    open spec fn view(&self) -> TokenView {
        TokenView { kind: self.kind, lexeme: self.lexeme@, line: self.line as nat }
    }
}

impl Clone for Token {
    fn clone(&self) -> (r: Token)
        ensures
            r == *self,
    {
        Token { kind: self.kind, lexeme: self.lexeme.clone(), line: self.line }
    }
}

impl Token {
    pub fn new(kind: TokenKind, lexeme: String, line: usize) -> (r: Token)
        ensures
            r.kind == kind,
            r.lexeme == lexeme,
            r.line == line,
    {
        Token { kind, lexeme, line }
    }
}

} // verus!
