use lox::expression::Expression;
use lox::lox_err::LoxErr;
use lox::parser::Parser;
use lox::scanner::Scanner;
use lox::token::{Token, TokenKind};

fn parse_text(source: &str) -> Result<Expression, LoxErr> {
    let mut scanner = Scanner::new(String::from(source));
    let tokens = scanner.scan().unwrap().to_vec();
    let mut parser = Parser::new(tokens);
    parser.parse()
}

fn rendered(source: &str) -> String {
    parse_text(source).unwrap().render()
}

fn error_of(source: &str) -> (usize, String) {
    let e = parse_text(source).unwrap_err();
    (e.line, e.message)
}

#[test]
fn parse_equality_of_numbers() {
    let e = parse_text("1 == 2").unwrap();
    match &e {
        Expression::Binary { left, operator, right } => {
            assert_eq!(operator.kind, TokenKind::EqualEqual);
            assert!(matches!(left.as_ref(), Expression::NumberLiteral(n) if n == "1"));
            assert!(matches!(right.as_ref(), Expression::NumberLiteral(n) if n == "2"));
        }
        _ => panic!("expected a binary node"),
    }
    assert_eq!(e.render(), "(== 1 2)");
}

#[test]
fn parse_missing_right_paren() {
    let (line, message) = error_of("(1 + 2");
    assert_eq!(line, 1);
    assert_eq!(message, "Unexpected token. expected: RightParen, got: Eof");
}

#[test]
fn parse_double_negation() {
    let e = parse_text("!!true").unwrap();
    match &e {
        Expression::Unary { operator, right } => {
            assert_eq!(operator.kind, TokenKind::Bang);
            match right.as_ref() {
                Expression::Unary { operator, right } => {
                    assert_eq!(operator.kind, TokenKind::Bang);
                    assert!(matches!(right.as_ref(), Expression::BoolLiteral(true)));
                }
                _ => panic!("expected a unary node"),
            }
        }
        _ => panic!("expected a unary node"),
    }
    assert_eq!(e.render(), "(! (! true))");
}

#[test]
fn parse_subtraction_is_left_associative() {
    let e = parse_text("1 - 2 - 3").unwrap();
    match &e {
        Expression::Binary { left, operator, right } => {
            assert_eq!(operator.lexeme, "-");
            assert!(matches!(right.as_ref(), Expression::NumberLiteral(n) if n == "3"));
            assert!(matches!(left.as_ref(), Expression::Binary { .. }));
        }
        _ => panic!("expected a binary node"),
    }
    assert_eq!(e.render(), "(- (- 1 2) 3)");
}

#[test]
fn parse_precedence_levels() {
    assert_eq!(rendered("1 + 2 * 3"), "(+ 1 (* 2 3))");
    assert_eq!(rendered("1 * 2 + 3"), "(+ (* 1 2) 3)");
    assert_eq!(rendered("1 < 2 == 3 >= 4"), "(== (< 1 2) (>= 3 4))");
    assert_eq!(rendered("-1 / 2"), "(/ (- 1) 2)");
    assert_eq!(rendered("1 != 2"), "(!= 1 2)");
}

#[test]
fn parse_literals() {
    assert_eq!(rendered("nil"), "nil");
    assert_eq!(rendered("false"), "false");
    assert_eq!(rendered("\"abc\""), "'abc'");
    assert_eq!(rendered("12.50"), "12.5");
}

#[test]
fn parse_grouping() {
    assert_eq!(rendered("(1 + 2) * 3"), "(* ((+ 1 2)) 3)");
    assert_eq!(rendered("((true))"), "((true))");
}

#[test]
fn parse_equality_inside_group_is_a_missing_paren() {
    let (line, message) = error_of("(1 == 2)");
    assert_eq!(line, 1);
    assert_eq!(message, "Unexpected token. expected: RightParen, got: EqualEqual");
}

#[test]
fn parse_unknown_primary() {
    let (line, message) = error_of("\n+ 1");
    assert_eq!(line, 2);
    assert_eq!(message, "Unknown primary: +");
}

#[test]
fn parse_unknown_primary_at_end() {
    let (line, message) = error_of("1 +");
    assert_eq!(line, 1);
    assert_eq!(message, "Unknown primary: ");
}

#[test]
fn parse_stops_at_first_defect() {
    let (_, message) = error_of("(1 + ) + )");
    assert_eq!(message, "Unknown primary: )");
}

#[test]
fn parse_malformed_number_token() {
    let tokens = vec![
        Token::new(TokenKind::Number, String::from("1.2.3"), 7),
        Token::new(TokenKind::Eof, String::new(), 7),
    ];
    let e = Parser::new(tokens).parse().unwrap_err();
    assert_eq!(e.line, 7);
    assert_eq!(e.message, "Could not parse number: 1.2.3");
    assert_eq!(e.display_message(), "[Line 7] Error: Could not parse number: 1.2.3");
}

#[test]
fn parse_integer_literal_keeps_its_digits() {
    for text in ["0", "7", "42", "1000000"] {
        let tokens = vec![
            Token::new(TokenKind::Number, String::from(text), 1),
            Token::new(TokenKind::Eof, String::new(), 1),
        ];
        let e = Parser::new(tokens).parse().unwrap();
        assert!(matches!(&e, Expression::NumberLiteral(n) if n == text));
        assert_eq!(e.render(), text);
    }
}

#[test]
fn parse_only_eof_is_an_unknown_primary() {
    let tokens = vec![Token::new(TokenKind::Eof, String::new(), 1)];
    let e = Parser::new(tokens).parse().unwrap_err();
    assert_eq!(e.message, "Unknown primary: ");
}
