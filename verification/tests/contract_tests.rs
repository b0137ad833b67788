use carbide::ast::expr::BinaryOp;
use carbide::ast::expr::Expr;
use carbide::parse::error::ParseError;
use carbide::parse::parse_expr;
use carbide::parse::source_fits_check;
use carbide::parse::token_type::describe;
use carbide::parse::Token;
use carbide::parse::TokenData;
use carbide::parse::TokenType;

/// How many literal leaves an expression tree has.
fn leaves(e: &Expr) -> usize {
    match e {
        Expr::Literal(_) => 1,
        Expr::Unary { right, .. } => leaves(right),
        Expr::Binary { left, right, .. } => leaves(left) + leaves(right),
        Expr::Block(es) => es.iter().map(leaves).sum(),
        Expr::If {
            condition,
            then_expr,
            else_expr,
        } => {
            leaves(condition)
                + leaves(then_expr)
                + else_expr.as_ref().map_or(0, |e| leaves(e))
        }
    }
}

#[test]
fn test_right_associativity() {
    assert_eq!(
        parse_expr("1 - 2 - 3"),
        Ok(Expr::binary(
            Expr::integer(1),
            BinaryOp::Sub,
            Expr::binary(Expr::integer(2), BinaryOp::Sub, Expr::integer(3)),
        ))
    );
    assert_eq!(
        parse_expr("8 / 4 / 2"),
        Ok(Expr::binary(
            Expr::integer(8),
            BinaryOp::Div,
            Expr::binary(Expr::integer(4), BinaryOp::Div, Expr::integer(2)),
        ))
    );
}

#[test]
fn test_leaf_count_matches_literal_tokens() {
    let e = parse_expr("1 + (2 * 3)").unwrap();
    assert_eq!(leaves(&e), 3);
    let e = parse_expr("if true (false) else if true (true) else false").unwrap();
    assert_eq!(leaves(&e), 5);
    let e = parse_expr("not not false").unwrap();
    assert_eq!(leaves(&e), 1);
}

#[test]
fn test_eof_errors() {
    assert_eq!(parse_expr(""), Err(ParseError::Eof { line: 0, col: 0 }));
    assert_eq!(parse_expr("not"), Err(ParseError::Eof { line: 0, col: 3 }));
    assert_eq!(parse_expr("(true"), Err(ParseError::Eof { line: 0, col: 5 }));
    assert_eq!(parse_expr("1 +"), Err(ParseError::Eof { line: 0, col: 3 }));
}

#[test]
fn test_expect_errors() {
    assert_eq!(
        parse_expr("(true true"),
        Err(ParseError::UnexpectedToken {
            expected: "CloseParen".to_owned(),
            actual: TokenType::True,
            lexeme: "true".to_owned(),
            line: 0,
            col: 6,
        })
    );
    assert_eq!(
        parse_expr("if true true"),
        Err(ParseError::UnexpectedToken {
            expected: "OpenParen".to_owned(),
            actual: TokenType::True,
            lexeme: "true".to_owned(),
            line: 0,
            col: 8,
        })
    );
}

#[test]
fn test_reserved_words_are_not_primaries() {
    assert_eq!(
        parse_expr("bool"),
        Err(ParseError::UnexpectedToken {
            expected: "primary expression".to_owned(),
            actual: TokenType::Bool,
            lexeme: "bool".to_owned(),
            line: 0,
            col: 0,
        })
    );
    assert_eq!(
        parse_expr("_"),
        Err(ParseError::UnexpectedToken {
            expected: "primary expression".to_owned(),
            actual: TokenType::Underscore,
            lexeme: "_".to_owned(),
            line: 0,
            col: 0,
        })
    );
    assert_eq!(
        parse_expr("then"),
        Err(ParseError::UnexpectedToken {
            expected: "primary expression".to_owned(),
            actual: TokenType::Then,
            lexeme: "then".to_owned(),
            line: 0,
            col: 0,
        })
    );
}

#[test]
fn test_unknown_tokens() {
    assert_eq!(
        parse_expr("@"),
        Err(ParseError::UnknownToken {
            lexeme: "@".to_owned(),
            line: 0,
            col: 0,
        })
    );
    assert_eq!(
        parse_expr("="),
        Err(ParseError::UnknownToken {
            lexeme: "=".to_owned(),
            line: 0,
            col: 0,
        })
    );
    assert_eq!(
        parse_expr("!"),
        Err(ParseError::UnknownToken {
            lexeme: "!".to_owned(),
            line: 0,
            col: 0,
        })
    );
    assert_eq!(
        parse_expr("=="),
        Err(ParseError::UnexpectedToken {
            expected: "primary expression".to_owned(),
            actual: TokenType::EqualEqual,
            lexeme: "==".to_owned(),
            line: 0,
            col: 0,
        })
    );
}

#[test]
fn test_position_tracking_lines() {
    assert_eq!(
        parse_expr("\n\n  !"),
        Err(ParseError::UnknownToken {
            lexeme: "!".to_owned(),
            line: 2,
            col: 2,
        })
    );
    assert_eq!(
        parse_expr("not\n!"),
        Err(ParseError::UnknownToken {
            lexeme: "!".to_owned(),
            line: 1,
            col: 0,
        })
    );
}

#[test]
fn test_trailing_input_is_left_unread() {
    assert_eq!(parse_expr("true false"), Ok(Expr::bool(true)));
    assert_eq!(parse_expr("1 $ 2"), Ok(Expr::integer(1)));
    assert_eq!(
        parse_expr("1 == 2 == 3"),
        Ok(Expr::binary(
            Expr::integer(1),
            BinaryOp::Equal,
            Expr::integer(2),
        ))
    );
}

#[test]
fn test_block_holds_exactly_one_expression() {
    assert_eq!(
        parse_expr("(true false)"),
        Err(ParseError::UnexpectedToken {
            expected: "CloseParen".to_owned(),
            actual: TokenType::False,
            lexeme: "false".to_owned(),
            line: 0,
            col: 6,
        })
    );
}

#[test]
fn test_largest_int() {
    assert_eq!(
        parse_expr("9223372036854775807"),
        Ok(Expr::integer(i64::MAX))
    );
    assert_eq!(parse_expr("0007"), Ok(Expr::integer(7)));
}

#[test]
fn test_source_fits_check() {
    assert!(source_fits_check(""));
    assert!(source_fits_check("1 + 2 * (3 - 4)"));
    assert!(source_fits_check("9223372036854775807"));
    assert!(!source_fits_check("9223372036854775808"));
    assert!(!source_fits_check("true and 99999999999999999999"));
    assert!(source_fits_check("not true"));
}

#[test]
fn test_error_from_string() {
    assert_eq!(
        ParseError::from("something odd".to_owned()),
        ParseError::Unclassified("something odd".to_owned())
    );
}

#[test]
fn test_error_constructors() {
    let token = Token {
        token_type: TokenType::Identifier,
        data: TokenData {
            span: 2..5,
            lexeme: "abc".to_owned(),
            line: 1,
            col: 2,
        },
    };
    assert_eq!(
        ParseError::unexpected_token(token, "primary expression"),
        ParseError::UnexpectedToken {
            expected: "primary expression".to_owned(),
            actual: TokenType::Identifier,
            lexeme: "abc".to_owned(),
            line: 1,
            col: 2,
        }
    );
    let token = Token {
        token_type: TokenType::UnknownToken,
        data: TokenData {
            span: 0..1,
            lexeme: "#".to_owned(),
            line: 0,
            col: 0,
        },
    };
    assert_eq!(
        ParseError::unknown_token(token),
        ParseError::UnknownToken {
            lexeme: "#".to_owned(),
            line: 0,
            col: 0,
        }
    );
}

#[test]
fn test_describe() {
    assert_eq!(describe(TokenType::CloseParen), "CloseParen");
    assert_eq!(describe(TokenType::OpenParen), "OpenParen");
}
