use lox::expression::{number_string, Expression};
use lox::token::{Token, TokenKind};

#[test]
fn render_nested_tree() {
    let unary = Expression::Unary {
        operator: Token::new(TokenKind::Bang, String::from("!"), 20),
        right: Box::new(Expression::StringLiteral(String::from("Testing lol"))),
    };
    let tree = Expression::Binary {
        left: Box::new(unary),
        operator: Token::new(TokenKind::Plus, String::from("+"), 20),
        right: Box::new(Expression::Grouping(Box::new(Expression::NumberLiteral(String::from(
            "100.00",
        ))))),
    };
    assert_eq!(tree.render(), "(+ (! 'Testing lol') (100))");
}

#[test]
fn render_leaves() {
    assert_eq!(Expression::NilLiteral.render(), "nil");
    assert_eq!(Expression::BoolLiteral(true).render(), "true");
    assert_eq!(Expression::StringLiteral(String::new()).render(), "''");
}

#[test]
fn number_text_is_shortest_decimal() {
    assert_eq!(number_string(&String::from("007.50")), "7.5");
    assert_eq!(number_string(&String::from("1.0")), "1");
    assert_eq!(number_string(&String::from("0.25")), "0.25");
    assert_eq!(number_string(&String::from("000")), "0");
    assert_eq!(number_string(&String::from("120")), "120");
}
