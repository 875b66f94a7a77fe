use rulox::Lox;
use rulox::Scanner;
use rulox::Token;
use rulox::TokenType;
use rulox::Value;

fn scan(src: &str) -> (Vec<Token>, Lox) {
    let mut lox = Lox::new();
    let tokens = Scanner::new(src).scan_tokens(&mut lox);
    (tokens, lox)
}

fn types_of(tokens: &[Token]) -> Vec<TokenType> {
    tokens.iter().map(|t| t.type_of).collect()
}

#[test]
fn scans_grouped_arithmetic() {
    let (tokens, lox) = scan("(1+2)*3");
    assert_eq!(
        types_of(&tokens),
        vec![
            TokenType::LeftParen,
            TokenType::Number,
            TokenType::Plus,
            TokenType::Number,
            TokenType::RightParen,
            TokenType::Star,
            TokenType::Number,
            TokenType::Eof,
        ]
    );
    assert_eq!(tokens[1].literal, Value::Number("1".to_string()));
    assert_eq!(tokens[3].literal, Value::Number("2".to_string()));
    assert_eq!(tokens[6].literal, Value::Number("3".to_string()));
    assert!(!lox.had_error());
}

#[test]
fn scans_empty_input_to_lone_eof() {
    let (tokens, lox) = scan("");
    assert_eq!(tokens.len(), 1);
    assert_eq!(tokens[0].type_of, TokenType::Eof);
    assert_eq!(tokens[0].line, 1);
    assert!(!lox.had_error());
}

#[test]
fn unterminated_string_reports_and_still_terminates() {
    let (tokens, lox) = scan("\"abc");
    assert!(lox.had_error());
    assert_eq!(tokens.last().unwrap().type_of, TokenType::Eof);
    let ds = lox.diagnostics();
    assert_eq!(ds.len(), 1);
    assert_eq!(ds[0].message, "Unterminated string.");
}

#[test]
fn string_literal_keeps_text_between_quotes() {
    let (tokens, lox) = scan("\"hi there\"");
    assert_eq!(tokens[0].type_of, TokenType::String);
    assert_eq!(tokens[0].lexeme, "\"hi there\"");
    assert_eq!(tokens[0].literal, Value::Text("hi there".to_string()));
    assert!(!lox.had_error());
}

#[test]
fn multiline_string_counts_lines() {
    let (tokens, lox) = scan("\"a\nb\" x");
    assert_eq!(tokens[0].type_of, TokenType::String);
    assert_eq!(tokens[0].literal, Value::Text("a\nb".to_string()));
    assert_eq!(tokens[0].line, 2);
    assert_eq!(tokens[1].type_of, TokenType::Identifier);
    assert_eq!(tokens[1].line, 2);
    assert!(!lox.had_error());
}

#[test]
fn two_character_operators_take_lookahead() {
    let (tokens, _) = scan("! != = == < <= > >=");
    assert_eq!(
        types_of(&tokens),
        vec![
            TokenType::Bang,
            TokenType::BangEqual,
            TokenType::Equal,
            TokenType::EqualEqual,
            TokenType::Less,
            TokenType::LessEqual,
            TokenType::Greater,
            TokenType::GreaterEqual,
            TokenType::Eof,
        ]
    );
}

#[test]
fn line_comment_is_discarded_to_newline() {
    let (tokens, lox) = scan("1 // rest of the line\n2");
    assert_eq!(
        types_of(&tokens),
        vec![TokenType::Number, TokenType::Number, TokenType::Eof]
    );
    assert_eq!(tokens[0].line, 1);
    assert_eq!(tokens[1].line, 2);
    assert!(!lox.had_error());
}

#[test]
fn slash_alone_is_a_token() {
    let (tokens, _) = scan("8/2");
    assert_eq!(
        types_of(&tokens),
        vec![TokenType::Number, TokenType::Slash, TokenType::Number, TokenType::Eof]
    );
}

#[test]
fn keywords_and_identifiers() {
    let (tokens, _) = scan("var x = nil;");
    assert_eq!(
        types_of(&tokens),
        vec![
            TokenType::Var,
            TokenType::Identifier,
            TokenType::Equal,
            TokenType::Nil,
            TokenType::Semicolon,
            TokenType::Eof,
        ]
    );
    assert_eq!(tokens[1].lexeme, "x");
}

#[test]
fn every_keyword_is_recognised() {
    let (tokens, _) = scan("and class else false for fun if nil or print return super this true var while");
    assert_eq!(
        types_of(&tokens),
        vec![
            TokenType::And,
            TokenType::Class,
            TokenType::Else,
            TokenType::False,
            TokenType::For,
            TokenType::Fun,
            TokenType::If,
            TokenType::Nil,
            TokenType::Or,
            TokenType::Print,
            TokenType::Return,
            TokenType::Super,
            TokenType::This,
            TokenType::True,
            TokenType::Var,
            TokenType::While,
            TokenType::Eof,
        ]
    );
}

#[test]
fn unexpected_character_reported_and_skipped() {
    let (tokens, lox) = scan("1 @ 2");
    assert!(lox.had_error());
    assert_eq!(lox.diagnostics()[0].message, "Unexpected character.");
    assert_eq!(lox.diagnostics()[0].line, 1);
    assert_eq!(
        types_of(&tokens),
        vec![TokenType::Number, TokenType::Number, TokenType::Eof]
    );
}

#[test]
fn several_scan_errors_accumulate_in_one_pass() {
    let (tokens, lox) = scan("@ 1 #");
    assert!(lox.had_error());
    assert_eq!(lox.diagnostics().len(), 2);
    assert_eq!(lox.diagnostics()[0].message, "Unexpected character.");
    assert_eq!(lox.diagnostics()[1].message, "Unexpected character.");
    assert_eq!(types_of(&tokens), vec![TokenType::Number, TokenType::Eof]);
}

#[test]
fn fraction_needs_a_digit_after_the_point() {
    let (tokens, _) = scan("12.5 7. 0.25");
    assert_eq!(
        types_of(&tokens),
        vec![
            TokenType::Number,
            TokenType::Number,
            TokenType::Dot,
            TokenType::Number,
            TokenType::Eof,
        ]
    );
    assert_eq!(tokens[0].literal, Value::Number("12.5".to_string()));
    assert_eq!(tokens[1].lexeme, "7");
    assert_eq!(tokens[3].literal, Value::Number("0.25".to_string()));
}

#[test]
fn number_literals_are_canonical_decimal_text() {
    let (tokens, _) = scan("007 12.50 1.00 0.0 10");
    let literals: Vec<&Value> = tokens.iter().take(5).map(|t| &t.literal).collect();
    assert_eq!(
        literals,
        vec![
            &Value::Number("7".to_string()),
            &Value::Number("12.5".to_string()),
            &Value::Number("1".to_string()),
            &Value::Number("0".to_string()),
            &Value::Number("10".to_string()),
        ]
    );
}

#[test]
fn lexemes_are_exact_source_substrings() {
    let (tokens, _) = scan("007 <= bar");
    assert_eq!(tokens[0].lexeme, "007");
    assert_eq!(tokens[1].lexeme, "<=");
    assert_eq!(tokens[2].lexeme, "bar");
    assert_eq!(tokens[3].lexeme, "");
}

#[test]
fn newlines_advance_the_line_counter() {
    let (tokens, _) = scan("1\n2\n\n3");
    assert_eq!(tokens[0].line, 1);
    assert_eq!(tokens[1].line, 2);
    assert_eq!(tokens[2].line, 4);
    assert_eq!(tokens[3].line, 4);
}

#[test]
fn token_to_string_renders_kind_lexeme_literal() {
    let (tokens, _) = scan("grace");
    assert_eq!(tokens[0].to_string(), "Identifier grace nil");
    let (nums, _) = scan("12.50");
    assert_eq!(nums[0].to_string(), "Number 12.50 12.5");
}
