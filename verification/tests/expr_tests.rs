use rlox::expr::Expr;
use rlox::token::{LiteralValue, Token};
use rlox::token_type::TokenType;

fn number(n: f64) -> LiteralValue {
    LiteralValue::Number(format!("{:?}", n))
}

#[test]
fn test_pretty_print() {
    let expr = Expr::Binary {
        left: Box::new(Expr::Unary {
            operator: Token {
                token_type: TokenType::Minus,
                lexeme: "-".to_string(),
                literal: None,
                line: 1,
            },
            right: Box::new(Expr::Literal {
                value: number(123.0),
            }),
        }),
        operator: Token {
            token_type: TokenType::Star,
            lexeme: "*".to_string(),
            literal: None,
            line: 1,
        },
        right: Box::new(Expr::Grouping {
            expression: Box::new(Expr::Literal {
                value: number(45.67),
            }),
        }),
    };

    assert_eq!(expr.to_string(), "(* (- 123) (group 45.67))");
}

fn literal(value: LiteralValue) -> Expr {
    Expr::Literal { value }
}

#[test]
fn print_literals() {
    assert_eq!(literal(LiteralValue::Number("10".to_string())).to_string(), "10");
    assert_eq!(literal(LiteralValue::Number("2.500".to_string())).to_string(), "2.5");
    assert_eq!(literal(LiteralValue::Number("3.000".to_string())).to_string(), "3");
    assert_eq!(literal(LiteralValue::Number("100".to_string())).to_string(), "100");
    assert_eq!(literal(LiteralValue::Str("hi there".to_string())).to_string(), "hi there");
    assert_eq!(literal(LiteralValue::Bool(true)).to_string(), "true");
    assert_eq!(literal(LiteralValue::Bool(false)).to_string(), "false");
    assert_eq!(literal(LiteralValue::Nil).to_string(), "nil");
}

fn token(token_type: TokenType, lexeme: &str) -> Token {
    Token { token_type, lexeme: lexeme.to_string(), literal: None, line: 1 }
}

#[test]
fn print_variables_assignment_and_calls() {
    let assign = Expr::Assign {
        name: token(TokenType::Identifier, "x"),
        value: Box::new(Expr::Variable { name: token(TokenType::Identifier, "y"), id: 2 }),
        id: 0,
    };
    assert_eq!(assign.to_string(), "(x y)");
    let call = Expr::Call {
        callee: Box::new(Expr::Variable { name: token(TokenType::Identifier, "f"), id: 0 }),
        paren: token(TokenType::RightParen, ")"),
        arguments: vec![literal(LiteralValue::Nil), literal(LiteralValue::Bool(true))],
    };
    assert_eq!(call.to_string(), "(call f nil true)");
    let logical = Expr::Logical {
        left: Box::new(literal(LiteralValue::Bool(true))),
        operator: token(TokenType::Or, "or"),
        right: Box::new(literal(LiteralValue::Bool(false))),
    };
    assert_eq!(logical.to_string(), "(or true false)");
}

#[test]
fn print_numbers_as_their_values() {
    assert_eq!(literal(LiteralValue::Number("007".to_string())).to_string(), "7");
    assert_eq!(literal(LiteralValue::Number("000.500".to_string())).to_string(), "0.5");
    assert_eq!(literal(LiteralValue::Number("00.0".to_string())).to_string(), "0");
    assert_eq!(literal(LiteralValue::Number("0".to_string())).to_string(), "0");
    assert_eq!(literal(LiteralValue::Number("100.00".to_string())).to_string(), "100");
}

#[test]
fn token_text_form() {
    assert_eq!(token(TokenType::Identifier, "x").to_string(), "Identifier x null");
    let number = Token {
        token_type: TokenType::Number,
        lexeme: "007".to_string(),
        literal: Some(LiteralValue::Number("007".to_string())),
        line: 1,
    };
    assert_eq!(number.to_string(), "Number 007 Number(7.0)");
    let fraction = Token {
        token_type: TokenType::Number,
        lexeme: "45.670".to_string(),
        literal: Some(LiteralValue::Number("45.670".to_string())),
        line: 1,
    };
    assert_eq!(fraction.to_string(), "Number 45.670 Number(45.67)");
    let string = Token {
        token_type: TokenType::String,
        lexeme: "\"a\\\"b\"".to_string(),
        literal: Some(LiteralValue::Str("a\"b\n".to_string())),
        line: 2,
    };
    assert_eq!(string.to_string(), "String \"a\\\"b\" Str(\"a\\\"b\\n\")");
    assert_eq!(token(TokenType::Eof, "").to_string(), "Eof  null");
    let truth = Token {
        token_type: TokenType::True,
        lexeme: "true".to_string(),
        literal: Some(LiteralValue::Bool(true)),
        line: 1,
    };
    assert_eq!(truth.to_string(), "True true Bool(true)");
}
