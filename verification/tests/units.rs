use rs_lisp::error::EvalError;
use rs_lisp::expr::{Binary, Expr, Grouping, Literal, Space};
use rs_lisp::interpreter::Interpreter;
use rs_lisp::numeric::{parse_u32_str, u32_to_string};
use rs_lisp::parser::Parser;
use rs_lisp::scanner::Scanner;
use rs_lisp::token::Token;
use rs_lisp::token_type::TokenType;

fn tok(kind: TokenType, literal: &str) -> Token {
    Token::new(kind, literal.to_string(), literal.to_string(), 1)
}

#[test]
fn scanner_tokenizes_each_class() {
    let mut scanner = Scanner::new("(+ 12)".to_string());
    let tokens = scanner.scan_tokens().unwrap();
    let kinds: Vec<TokenType> = tokens.iter().map(|t| t.kind).collect();
    assert_eq!(
        kinds,
        vec![
            TokenType::LeftParen,
            TokenType::Plus,
            TokenType::Space,
            TokenType::Number,
            TokenType::RightParen,
            TokenType::EOF,
        ]
    );
    assert_eq!(tokens[3].literal, "12");
    assert_eq!(tokens[5].literal, "");
}

#[test]
fn scanner_emits_one_space_token_per_space() {
    let mut scanner = Scanner::new("  ".to_string());
    let tokens = scanner.scan_tokens().unwrap();
    let kinds: Vec<TokenType> = tokens.iter().map(|t| t.kind).collect();
    assert_eq!(kinds, vec![TokenType::Space, TokenType::Space, TokenType::EOF]);
}

#[test]
fn scanner_scans_minus_and_digit_runs() {
    let mut scanner = Scanner::new("- 10 3".to_string());
    let tokens = scanner.scan_tokens().unwrap();
    assert_eq!(tokens[0].kind, TokenType::Minus);
    assert_eq!(tokens[2].literal, "10");
    assert_eq!(tokens[4].literal, "3");
}

#[test]
fn scanner_reports_first_unexpected_character() {
    let mut scanner = Scanner::new("1%2".to_string());
    assert_eq!(
        scanner.scan_tokens().unwrap_err(),
        EvalError::UnexpectedChar { at: 1, ch: '%' }
    );
}

#[test]
fn scanner_empty_source_yields_only_terminal_token() {
    let mut scanner = Scanner::new(String::new());
    let tokens = scanner.scan_tokens().unwrap();
    assert_eq!(tokens.len(), 1);
    assert_eq!(tokens[0].kind, TokenType::EOF);
}

#[test]
fn parser_cursor_primitives() {
    let mut parser = Parser::new(vec![tok(TokenType::Number, "5"), tok(TokenType::EOF, "")]);
    assert!(!parser.is_at_end());
    assert_eq!(parser.peek().kind, TokenType::Number);
    assert!(parser.check(TokenType::Number));
    assert!(!parser.check(TokenType::Space));
    assert!(parser.match_token(vec![TokenType::Space, TokenType::Number]));
    assert_eq!(parser.previous().kind, TokenType::Number);
    assert!(parser.is_at_end());
    // the cursor never passes the terminal token
    parser.advance();
    assert_eq!(parser.peek().kind, TokenType::EOF);
    assert!(!parser.check(TokenType::EOF));
}

#[test]
fn parser_consume_reports_the_given_error() {
    let mut parser = Parser::new(vec![tok(TokenType::Number, "5"), tok(TokenType::EOF, "")]);
    let err = EvalError::ExpectSpaceAfterOperator { at: 0 };
    assert_eq!(parser.consume(TokenType::Space, err).unwrap_err(), err);
    assert!(parser.consume(TokenType::Number, err).is_ok());
}

#[test]
fn star_operator_reaches_evaluator_as_unknown_operation() {
    let tokens = vec![
        tok(TokenType::Star, "*"),
        tok(TokenType::Space, " "),
        tok(TokenType::Number, "2"),
        tok(TokenType::Space, " "),
        tok(TokenType::Number, "3"),
        tok(TokenType::EOF, ""),
    ];
    let mut parser = Parser::new(tokens);
    let expression = parser.parse().unwrap();
    let interpreter = Interpreter::new();
    assert_eq!(
        interpreter.evaluate(&expression).unwrap_err(),
        EvalError::UnknownOperation
    );
}

#[test]
fn evaluator_visits_each_leaf_kind() {
    let interpreter = Interpreter::new();
    let lit = Literal::new(42);
    assert_eq!(interpreter.visit_literal_expr(&lit), "42");
    assert_eq!(lit.accept(Interpreter::new()), "42");
    let sep = Space::new(" ".to_string());
    assert_eq!(interpreter.visit_space_expr(&sep), " ");
    assert_eq!(sep.accept(Interpreter::new()), " ");
    assert_eq!(interpreter.stringify("5".to_string()), "5");
}

#[test]
fn evaluator_grouping_is_transparent() {
    let interpreter = Interpreter::new();
    let grouping = Grouping { expr: Box::new(Expr::Literal(Literal::new(9))) };
    assert_eq!(interpreter.visit_grouping_expr(&grouping).unwrap(), "9");
    assert_eq!(grouping.accept(Interpreter::new()).unwrap(), "9");
}

#[test]
fn evaluator_binary_concatenates_and_resplits() {
    let interpreter = Interpreter::new();
    let binary = Binary {
        token: tok(TokenType::Plus, "+"),
        values: vec![
            Expr::Literal(Literal::new(1)),
            Expr::Space(Space::new(" ".to_string())),
            Expr::Literal(Literal::new(2)),
        ],
    };
    assert_eq!(interpreter.visit_binary_expr(&binary).unwrap(), "3");
    assert_eq!(binary.accept(Interpreter::new()).unwrap(), "3");
    let tree = Expr::Binary(binary);
    assert_eq!(tree.accept(Interpreter::new()).unwrap(), "3");
    assert_eq!(interpreter.evaluate(&tree).unwrap(), "3");
}

#[test]
fn numeral_formatting_and_parsing() {
    assert_eq!(u32_to_string(0), "0");
    assert_eq!(u32_to_string(10), "10");
    assert_eq!(u32_to_string(4294967295), "4294967295");
    assert_eq!(parse_u32_str("0").unwrap(), 0);
    assert_eq!(parse_u32_str("007").unwrap(), 7);
    assert_eq!(parse_u32_str("4294967295").unwrap(), 4294967295);
    assert_eq!(parse_u32_str("").unwrap_err(), EvalError::InvalidNumber);
    assert_eq!(parse_u32_str("1a").unwrap_err(), EvalError::InvalidNumber);
    assert_eq!(parse_u32_str("4294967296").unwrap_err(), EvalError::NumberTooLarge);
}
