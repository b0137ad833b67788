use carbide::parse::error::ParseError;
use carbide::parse::Token;
use carbide::parse::Tokenizer;
use carbide::parse::TokenType;
use carbide::parse::TokenType::And;
use carbide::parse::TokenType::Bool;
use carbide::parse::TokenType::False;
use carbide::parse::TokenType::Identifier;
use carbide::parse::TokenType::Int;
use carbide::parse::TokenType::Minus;
use carbide::parse::TokenType::Newline;
use carbide::parse::TokenType::Not;
use carbide::parse::TokenType::Or;
use carbide::parse::TokenType::Plus;
use carbide::parse::TokenType::True;
use carbide::parse::TokenType::Underscore;
use carbide::parse::TokenType::Whitespace;

fn assert_tokens(input: &str, tokens: Vec<TokenType>) {
    let mut tokenizer = Tokenizer::new(input);
    let mut output = Vec::new();
    while let Some(token) = tokenizer.next() {
        match token.token_type {
            Newline | Whitespace => continue,
            t => output.push(t),
        }
    }
    assert_eq!(output, tokens);
}

#[test]
fn token_type_test_bool_keywords() {
    assert_tokens(
        r"
        bool true or false
        and not

        ",
        vec![Bool, True, Or, False, And, Not],
    );
}

#[test]
fn test_underscores() {
    assert_tokens("_", vec![Underscore]);
    assert_tokens("_a", vec![Identifier]);
}

#[test]
fn test_ints() {
    assert_tokens("123", vec![Int]);
    assert_tokens("-123", vec![Minus, Int]);
    assert_tokens("--123", vec![Minus, Minus, Int]);
    assert_tokens("- -123", vec![Minus, Minus, Int]);
    assert_tokens("-+123", vec![Minus, Plus, Int]);
}

#[test]
fn test_peek() {
    let mut tokenizer = Tokenizer::new("bool true");
    assert_eq!(tokenizer.opt(False), None);
    let t = tokenizer.opt(Bool).unwrap();
    assert_eq!(t.token_type, Bool);
    assert_eq!(t.data.lexeme, "bool");
    assert_eq!(t.data.span, 0..4);
    assert_eq!(t.data.line, 0);
    assert_eq!(t.data.col, 0);
    let t = tokenizer.next().unwrap();
    assert_eq!(t.token_type, Whitespace);
    assert_eq!(t.data.lexeme, " ");
    assert_eq!(t.data.span, 4..5);
    assert_eq!(t.data.line, 0);
    assert_eq!(t.data.col, 4);
    let t = tokenizer.advance().unwrap();
    assert_eq!(t.token_type, True);
    assert_eq!(t.data.lexeme, "true");
    assert_eq!(t.data.span, 5..9);
    assert_eq!(t.data.line, 0);
    assert_eq!(t.data.col, 5);
    match tokenizer.force_advance() {
        Err(e) => assert_eq!(e, ParseError::Eof { line: 0, col: 9 }),
        x => panic!("Unexpected result: {x:?}"),
    }
}

#[test]
fn test_double_unary() {
    let mut tokenizer = Tokenizer::new("not not false");
    let mut t: Token;
    t = tokenizer.advance().unwrap();
    assert_eq!(t.token_type, Not);
    t = tokenizer.advance().unwrap();
    assert_eq!(t.token_type, Not);
    t = tokenizer.advance().unwrap();
    assert_eq!(t.token_type, False);
}

#[test]
fn test_double_unary_opt() {
    let mut tokenizer = Tokenizer::new("not not false");
    match tokenizer.opt(Not) {
        None => panic!("Expected first Not"),
        Some(t) => assert_eq!(t.token_type, Not),
    }
    match tokenizer.opt(Not) {
        None => panic!("Expected second Not"),
        Some(t) => assert_eq!(t.token_type, Not),
    }
    match tokenizer.opt(Not) {
        None => (),
        Some(t) => panic!("Unexpected token {t:?}"),
    }
    let t = tokenizer.advance().unwrap();
    assert_eq!(t.token_type, False);
}
