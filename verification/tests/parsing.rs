use rulox::Lox;
use rulox::Scanner;
use rulox::Token;
use rulox::TokenType;
use rulox::Value;
use rulox::ast::Binary;
use rulox::ast::Expr;
use rulox::ast::Literal;
use rulox::parser::ParseError;
use rulox::parser::Parser;
use rulox::pp::PrettyPrinter;

fn parse_source(src: &str) -> (Result<Expr, ParseError>, Lox) {
    let mut lox = Lox::new();
    let tokens = Scanner::new(src).scan_tokens(&mut lox);
    let mut parser = Parser::new(tokens);
    let r = parser.parse(&mut lox);
    (r, lox)
}

fn rendered(src: &str) -> String {
    let (r, lox) = parse_source(src);
    assert!(!lox.had_error());
    PrettyPrinter::new().print(r.unwrap())
}

#[test]
fn subtraction_is_left_associative() {
    let (r, lox) = parse_source("1 - 2 - 3");
    assert!(!lox.had_error());
    let minus = || Token::new(TokenType::Minus, "-", Value::Null, 1);
    let num = |s: &str| Box::new(Literal::new(Value::Number(s.to_string())));
    let expected = Binary::new(
        Box::new(Binary::new(num("1"), minus(), num("2"))),
        minus(),
        num("3"),
    );
    assert_eq!(r.unwrap(), expected);
}

#[test]
fn every_binary_level_is_left_associative() {
    assert_eq!(rendered("1 != 2 == 3"), "(== (!= 1 2) 3)");
    assert_eq!(rendered("1 < 2 <= 3"), "(<= (< 1 2) 3)");
    assert_eq!(rendered("1 > 2 >= 3"), "(>= (> 1 2) 3)");
    assert_eq!(rendered("1 - 2 + 3"), "(+ (- 1 2) 3)");
    assert_eq!(rendered("1 / 2 * 3"), "(* (/ 1 2) 3)");
}

#[test]
fn precedence_climbs_from_equality_to_unary() {
    assert_eq!(rendered("1 + 2 * 3"), "(+ 1 (* 2 3))");
    assert_eq!(rendered("1 + 2 < 3 * 4"), "(< (+ 1 2) (* 3 4))");
    assert_eq!(rendered("1 < 2 == true"), "(== (< 1 2) true)");
    assert_eq!(rendered("-1 * 2"), "(* (- 1) 2)");
    assert_eq!(rendered("!!true"), "(! (! true))");
}

#[test]
fn grouping_overrides_precedence() {
    assert_eq!(rendered("(1 + 2) * 3"), "(* (group (+ 1 2)) 3)");
}

#[test]
fn literals_parse_to_literal_nodes() {
    assert_eq!(rendered("true"), "true");
    assert_eq!(rendered("false"), "false");
    assert_eq!(rendered("nil"), "nil");
    assert_eq!(rendered("12.5"), "12.5");
    assert_eq!(rendered("\"hi\""), "hi");
}

#[test]
fn missing_close_paren_is_reported_exactly() {
    let (r, lox) = parse_source("(1");
    let e = r.unwrap_err();
    assert_eq!(e.message(), "Expected ')' after expression.");
    assert!(lox.had_error());
    let d = lox.diagnostics().last().unwrap();
    assert_eq!(d.message, "Expected ')' after expression.");
    assert_eq!(d.line, 1);
    assert_eq!(d.location, " at end");
}

#[test]
fn missing_close_paren_mid_stream_names_the_token() {
    let (r, lox) = parse_source("(1 2");
    let e = r.unwrap_err();
    assert_eq!(e.message(), "Expected ')' after expression.");
    let d = lox.diagnostics().last().unwrap();
    assert_eq!(d.location, " at '2'");
}

#[test]
fn token_starting_no_expression_is_reported() {
    let (r, lox) = parse_source(")");
    let e = r.unwrap_err();
    assert_eq!(e.message(), "Expected expression.");
    let d = lox.diagnostics().last().unwrap();
    assert_eq!(d.message, "Expected expression.");
    assert_eq!(d.location, " at ')'");
    assert_eq!(d.line, 1);
}

#[test]
fn empty_input_has_no_expression() {
    let (r, lox) = parse_source("");
    let e = r.unwrap_err();
    assert_eq!(e.message(), "Expected expression.");
    assert_eq!(lox.diagnostics().last().unwrap().location, " at end");
}

#[test]
fn error_line_is_the_offending_tokens_line() {
    let (r, lox) = parse_source("1 +\n)");
    assert!(r.is_err());
    let d = lox.diagnostics().last().unwrap();
    assert_eq!(d.line, 2);
    assert_eq!(d.location, " at ')'");
}

#[test]
fn reparsing_a_rendered_number_literal_reproduces_it() {
    let text = {
        let (r, _) = parse_source("12.50");
        PrettyPrinter::new().print(r.unwrap())
    };
    assert_eq!(text, "12.5");
    let (r2, lox) = parse_source(&text);
    assert!(!lox.had_error());
    assert_eq!(r2.unwrap(), Literal::new(Value::Number("12.5".to_string())));
}

#[test]
fn synchronize_skips_to_statement_keyword() {
    let mut lox = Lox::new();
    let tokens = Scanner::new("+ + var x").scan_tokens(&mut lox);
    let mut parser = Parser::new(tokens);
    assert!(parser.parse(&mut lox).is_err());
    parser.synchronize();
    // the cursor now rests on `var`: the next parse trips over exactly it
    assert!(parser.parse(&mut lox).is_err());
    assert_eq!(lox.diagnostics().last().unwrap().location, " at 'var'");
}

#[test]
fn synchronize_stops_at_end_of_input() {
    let mut lox = Lox::new();
    let tokens = Scanner::new("+ + +").scan_tokens(&mut lox);
    let mut parser = Parser::new(tokens);
    assert!(parser.parse(&mut lox).is_err());
    parser.synchronize();
    assert!(parser.parse(&mut lox).is_err());
    assert_eq!(lox.diagnostics().last().unwrap().location, " at end");
}
