use lox::scanner::Scanner;
use lox::token::{Token, TokenKind};

fn scan_ok(source: &str) -> Vec<Token> {
    let mut scanner = Scanner::new(String::from(source));
    scanner.scan().unwrap().clone()
}

fn summary(tokens: &[Token]) -> Vec<(TokenKind, String, usize)> {
    tokens.iter().map(|t| (t.kind, t.lexeme.clone(), t.line)).collect()
}

#[test]
fn scanner_new() {
    let scanner = Scanner::new(String::from("2 + 2"));

    assert!(scanner.tokens.is_empty());
    assert_eq!(vec!['2', ' ', '+', ' ', '2'], scanner.source);
    assert_eq!(0, scanner.start);
    assert_eq!(0, scanner.current);
    assert_eq!(1, scanner.line);
}

#[test]
fn advance() {
    let mut scanner = Scanner::new(String::from("2 + 2"));
    let c = scanner.advance();

    assert_eq!('2', c);
    assert_eq!(1, scanner.current);
}

#[test]
fn advance_increments_current() {
    let mut scanner = Scanner::new(String::from("2 + 2"));
    assert_eq!(0, scanner.current);
    scanner.advance();
    scanner.advance();
    scanner.advance();
    assert_eq!(3, scanner.current);
}

#[test]
fn push_token_infers_lexeme() {
    let mut scanner = Scanner::new(String::from("test = true"));
    scanner.advance();
    scanner.advance();
    scanner.advance();
    scanner.advance();
    scanner.push_token(TokenKind::Identifier, None);

    assert_eq!(4, scanner.current);
    assert_eq!(1, scanner.tokens.len());
    let token = scanner.tokens.first().unwrap();

    assert_eq!("test", token.lexeme);
}

#[test]
fn push_token_uses_lexeme_when_provided() {
    let mut scanner = Scanner::new(String::from("test = true"));
    scanner.advance();
    scanner.advance();
    scanner.advance();
    scanner.advance();
    scanner.push_token(TokenKind::Identifier, Some(String::from("My lexeme")));

    assert_eq!(4, scanner.current);
    assert_eq!(1, scanner.tokens.len());
    let token = scanner.tokens.first().unwrap();

    assert_eq!(String::from("My lexeme"), token.lexeme);
}

#[test]
fn at_end() {
    let mut scanner = Scanner::new(String::from("end"));

    assert_eq!(false, scanner.at_end());
    scanner.advance();
    scanner.advance();
    scanner.advance();
    assert_eq!(true, scanner.at_end());
}

#[test]
fn scan_number_plus_number() {
    let tokens = scan_ok("1 + 2");
    assert_eq!(
        summary(&tokens),
        vec![
            (TokenKind::Number, String::from("1"), 1),
            (TokenKind::Plus, String::from("+"), 1),
            (TokenKind::Number, String::from("2"), 1),
            (TokenKind::Eof, String::from(""), 1),
        ]
    );
}

#[test]
fn scan_unterminated_string() {
    let mut scanner = Scanner::new(String::from("\"abc"));
    let errors = scanner.scan().unwrap_err();
    assert_eq!(errors.len(), 1);
    assert_eq!(errors[0].line, 1);
    assert!(errors[0].message.contains("abc"));
    assert_eq!(errors[0].message, "Unterminated string: '\"abc'");
}

#[test]
fn scan_comment_then_number_on_next_line() {
    let tokens = scan_ok("// comment\n1");
    assert_eq!(
        summary(&tokens),
        vec![
            (TokenKind::Number, String::from("1"), 2),
            (TokenKind::Eof, String::from(""), 2),
        ]
    );
}

#[test]
fn scan_empty_source_gives_only_eof() {
    let tokens = scan_ok("");
    assert_eq!(summary(&tokens), vec![(TokenKind::Eof, String::from(""), 1)]);
}

#[test]
fn scan_one_and_two_character_operators() {
    let tokens = scan_ok("! != = == < <= > >= / ( ) { } , . - + ; *");
    let kinds: Vec<TokenKind> = tokens.iter().map(|t| t.kind).collect();
    assert_eq!(
        kinds,
        vec![
            TokenKind::Bang,
            TokenKind::BangEqual,
            TokenKind::Equal,
            TokenKind::EqualEqual,
            TokenKind::Less,
            TokenKind::LessEqual,
            TokenKind::Greater,
            TokenKind::GreaterEqual,
            TokenKind::Slash,
            TokenKind::LeftParen,
            TokenKind::RightParen,
            TokenKind::LeftBrace,
            TokenKind::RightBrace,
            TokenKind::Comma,
            TokenKind::Dot,
            TokenKind::Minus,
            TokenKind::Plus,
            TokenKind::Semicolon,
            TokenKind::Star,
            TokenKind::Eof,
        ]
    );
    assert_eq!(tokens[1].lexeme, "!=");
    assert_eq!(tokens[7].lexeme, ">=");
}

#[test]
fn scan_numbers_with_and_without_fraction() {
    let tokens = scan_ok("12.5 7. 3.x");
    assert_eq!(
        summary(&tokens),
        vec![
            (TokenKind::Number, String::from("12.5"), 1),
            (TokenKind::Number, String::from("7"), 1),
            (TokenKind::Dot, String::from("."), 1),
            (TokenKind::Number, String::from("3"), 1),
            (TokenKind::Dot, String::from("."), 1),
            (TokenKind::Identifier, String::from("x"), 1),
            (TokenKind::Eof, String::from(""), 1),
        ]
    );
}

#[test]
fn scan_identifiers_and_reserved_words() {
    let tokens = scan_ok("var _x1 = nil;\nwhile");
    assert_eq!(
        summary(&tokens),
        vec![
            (TokenKind::Var, String::from("var"), 1),
            (TokenKind::Identifier, String::from("_x1"), 1),
            (TokenKind::Equal, String::from("="), 1),
            (TokenKind::Nil, String::from("nil"), 1),
            (TokenKind::Semicolon, String::from(";"), 1),
            (TokenKind::While, String::from("while"), 2),
            (TokenKind::Eof, String::from(""), 2),
        ]
    );
}

#[test]
fn scan_string_strips_quotes() {
    let tokens = scan_ok("\"hi there\" 1");
    assert_eq!(
        summary(&tokens),
        vec![
            (TokenKind::Str, String::from("hi there"), 1),
            (TokenKind::Number, String::from("1"), 1),
            (TokenKind::Eof, String::from(""), 1),
        ]
    );
}

#[test]
fn scan_string_spanning_lines_counts_its_line_breaks() {
    let tokens = scan_ok("\"a\nb\" 1");
    assert_eq!(
        summary(&tokens),
        vec![
            (TokenKind::Str, String::from("a\nb"), 1),
            (TokenKind::Number, String::from("1"), 2),
            (TokenKind::Eof, String::from(""), 2),
        ]
    );
}

#[test]
fn scan_unknown_character_is_collected_and_scanning_goes_on() {
    let mut scanner = Scanner::new(String::from("1 +\n@ 2"));
    let errors = scanner.scan().unwrap_err();
    assert_eq!(errors.len(), 1);
    assert_eq!(errors[0].line, 2);
    assert_eq!(errors[0].message, "Unexpected token: '@'");
    assert_eq!(
        summary(&scanner.tokens),
        vec![
            (TokenKind::Number, String::from("1"), 1),
            (TokenKind::Plus, String::from("+"), 1),
            (TokenKind::Number, String::from("2"), 2),
            (TokenKind::Eof, String::from(""), 2),
        ]
    );
}

#[test]
fn scan_reports_every_defect() {
    let mut scanner = Scanner::new(String::from("#1\n$ \"open"));
    let errors = scanner.scan().unwrap_err();
    let found: Vec<(usize, String)> = errors.iter().map(|e| (e.line, e.message.clone())).collect();
    assert_eq!(
        found,
        vec![
            (1, String::from("Unexpected token: '#'")),
            (2, String::from("Unexpected token: '$'")),
            (2, String::from("Unterminated string: '\"open'")),
        ]
    );
    assert_eq!(scanner.tokens.last().unwrap().kind, TokenKind::Eof);
}

#[test]
fn scan_clean_text_ends_with_eof_and_lexemes_come_from_the_text() {
    let source = "(1 + 23) >= 4 // done";
    let tokens = scan_ok(source);
    assert_eq!(tokens.last().unwrap().kind, TokenKind::Eof);
    for token in &tokens[..tokens.len() - 1] {
        assert!(source.contains(token.lexeme.as_str()));
    }
    let joined: String = tokens.iter().map(|t| t.lexeme.clone()).collect();
    assert_eq!(joined, "(1+23)>=4");
}

#[test]
fn scan_non_ascii_text_in_strings() {
    let tokens = scan_ok("\"héllo\"");
    assert_eq!(tokens[0].lexeme, "héllo");
}
