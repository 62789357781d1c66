use lox::token::{Token, TokenKind};

#[test]
fn token_new() {
    let token = Token::new(TokenKind::Eof, String::from("hehe"), 10);

    assert_eq!(TokenKind::Eof, token.kind);
    assert_eq!(String::from("hehe"), token.lexeme);
    assert_eq!(10, token.line);
}

#[test]
fn reserve_kind_finds_every_reserved_word() {
    let table = [
        ("and", TokenKind::And),
        ("class", TokenKind::Class),
        ("else", TokenKind::Else),
        ("false", TokenKind::False),
        ("for", TokenKind::For),
        ("fun", TokenKind::Fun),
        ("if", TokenKind::If),
        ("nil", TokenKind::Nil),
        ("or", TokenKind::Or),
        ("print", TokenKind::Print),
        ("return", TokenKind::Return),
        ("super", TokenKind::Super),
        ("this", TokenKind::This),
        ("true", TokenKind::True),
        ("var", TokenKind::Var),
        ("while", TokenKind::While),
    ];
    for (word, kind) in table {
        assert_eq!(TokenKind::reserve_kind(word), Some(kind));
    }
}

#[test]
fn reserve_kind_is_exact_and_case_sensitive() {
    assert_eq!(TokenKind::reserve_kind("And"), None);
    assert_eq!(TokenKind::reserve_kind("android"), None);
    assert_eq!(TokenKind::reserve_kind("an"), None);
    assert_eq!(TokenKind::reserve_kind(""), None);
    assert_eq!(TokenKind::reserve_kind("whilst"), None);
}

#[test]
fn kind_names() {
    assert_eq!(TokenKind::RightParen.name(), "RightParen");
    assert_eq!(TokenKind::Eof.name(), "Eof");
    assert_eq!(TokenKind::GreaterEqual.name(), "GreaterEqual");
}

#[test]
fn token_clone_keeps_every_field() {
    let token = Token::new(TokenKind::Str, String::from("abc"), 3);
    let copy = token.clone();
    assert_eq!(copy.kind, TokenKind::Str);
    assert_eq!(copy.lexeme, "abc");
    assert_eq!(copy.line, 3);
}
