use rulox::Token;
use rulox::TokenType;
use rulox::Value;
use rulox::ast::Binary;
use rulox::ast::Grouping;
use rulox::ast::Literal;
use rulox::ast::Unary;
use rulox::pp::PrettyPrinter;

#[test]
fn prints_hand_built_tree_in_prefix_notation() {
    let expr = Binary::new(
        Box::new(Unary::new(
            Token::new(TokenType::Minus, "-", Value::Null, 1),
            Box::new(Literal::new(Value::Number("123".to_string()))),
        )),
        Token::new(TokenType::Star, "*", Value::Null, 1),
        Box::new(Grouping::new(Box::new(Literal::new(Value::Number(
            "12.5".to_string(),
        ))))),
    );
    let pp = PrettyPrinter::new();
    assert_eq!(pp.print(expr), "(* (- 123) (group 12.5))");
}

#[test]
fn literal_values_render_in_their_textual_form() {
    assert_eq!(Value::Text("free as air".to_string()).to_string(), "free as air");
    assert_eq!(Value::Number("42".to_string()).to_string(), "42");
    assert_eq!(Value::Boolean(true).to_string(), "true");
    assert_eq!(Value::Boolean(false).to_string(), "false");
    assert_eq!(Value::Null.to_string(), "nil");
}

#[test]
fn nested_groupings_render_inside_out() {
    let expr = Grouping::new(Box::new(Grouping::new(Box::new(Literal::new(
        Value::Boolean(false),
    )))));
    assert_eq!(PrettyPrinter::new().print(expr), "(group (group false))");
}
