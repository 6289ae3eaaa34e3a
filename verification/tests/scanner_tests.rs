use rlox::scanner::Scanner;
use rlox::token::{LiteralValue, Token};
use rlox::token_type::TokenType;

fn scan(source: &str) -> Result<Vec<Token>, String> {
    let mut scanner = Scanner::new(source);
    scanner.scan_tokens();
    match scanner.into_tokens() {
        Ok(tokens) => Ok(tokens),
        Err(errors) => Err(errors.to_string()),
    }
}

fn kinds(tokens: &[Token]) -> Vec<TokenType> {
    tokens.iter().map(|t| t.token_type).collect()
}

fn lexemes(tokens: &[Token]) -> Vec<String> {
    tokens.iter().map(|t| t.lexeme.clone()).collect()
}

#[test]
fn scan_variable_declaration() {
    let tokens = scan("var x = 1;").unwrap();
    assert_eq!(
        kinds(&tokens),
        vec![
            TokenType::Var,
            TokenType::Identifier,
            TokenType::Equal,
            TokenType::Number,
            TokenType::Semicolon,
            TokenType::Eof
        ]
    );
    assert_eq!(lexemes(&tokens), vec!["var", "x", "=", "1", ";", ""]);
    assert!(matches!(&tokens[3].literal, Some(LiteralValue::Number(n)) if n == "1"));
    assert!(tokens.iter().all(|t| t.line == 1));
    assert!(tokens[0].literal.is_none());
}

#[test]
fn scan_empty_source_gives_only_eof() {
    let tokens = scan("").unwrap();
    assert_eq!(kinds(&tokens), vec![TokenType::Eof]);
    assert_eq!(tokens[0].lexeme, "");
    assert_eq!(tokens[0].line, 1);
}

#[test]
fn scan_single_and_double_character_operators() {
    let tokens = scan("(){},.-+;*/ ! != = == < <= > >=").unwrap();
    assert_eq!(
        kinds(&tokens),
        vec![
            TokenType::LeftParen,
            TokenType::RightParen,
            TokenType::LeftBrace,
            TokenType::RightBrace,
            TokenType::Comma,
            TokenType::Dot,
            TokenType::Minus,
            TokenType::Plus,
            TokenType::Semicolon,
            TokenType::Star,
            TokenType::Slash,
            TokenType::Bang,
            TokenType::BangEqual,
            TokenType::Equal,
            TokenType::EqualEqual,
            TokenType::Less,
            TokenType::LessEqual,
            TokenType::Greater,
            TokenType::GreaterEqual,
            TokenType::Eof
        ]
    );
    assert_eq!(tokens[12].lexeme, "!=");
    assert_eq!(tokens[18].lexeme, ">=");
}

#[test]
fn scan_string_literal_without_quotes() {
    let tokens = scan("\"hello world\"").unwrap();
    assert_eq!(kinds(&tokens), vec![TokenType::String, TokenType::Eof]);
    assert_eq!(tokens[0].lexeme, "\"hello world\"");
    assert!(matches!(&tokens[0].literal, Some(LiteralValue::Str(s)) if s == "hello world"));
}

#[test]
fn scan_string_spanning_lines_is_on_its_last_line() {
    let tokens = scan("\"a\nb\" x").unwrap();
    assert_eq!(kinds(&tokens), vec![TokenType::String, TokenType::Identifier, TokenType::Eof]);
    assert!(matches!(&tokens[0].literal, Some(LiteralValue::Str(s)) if s == "a\nb"));
    assert_eq!(tokens[0].line, 2);
    assert_eq!(tokens[1].line, 2);
}

#[test]
fn scan_numbers_keep_their_numeral() {
    let tokens = scan("12.5 7 3.").unwrap();
    assert_eq!(
        kinds(&tokens),
        vec![TokenType::Number, TokenType::Number, TokenType::Number, TokenType::Dot, TokenType::Eof]
    );
    assert!(matches!(&tokens[0].literal, Some(LiteralValue::Number(n)) if n == "12.5"));
    assert!(matches!(&tokens[1].literal, Some(LiteralValue::Number(n)) if n == "7"));
    assert!(matches!(&tokens[2].literal, Some(LiteralValue::Number(n)) if n == "3"));
}

#[test]
fn scan_keywords_and_identifiers() {
    let tokens = scan("and class else false for fun if nil or print return super this true var while orchid _x1 Fun").unwrap();
    assert_eq!(
        kinds(&tokens),
        vec![
            TokenType::And,
            TokenType::Class,
            TokenType::Else,
            TokenType::False,
            TokenType::For,
            TokenType::Fun,
            TokenType::If,
            TokenType::Nil,
            TokenType::Or,
            TokenType::Print,
            TokenType::Return,
            TokenType::Super,
            TokenType::This,
            TokenType::True,
            TokenType::Var,
            TokenType::While,
            TokenType::Identifier,
            TokenType::Identifier,
            TokenType::Identifier,
            TokenType::Eof
        ]
    );
    assert_eq!(tokens[16].lexeme, "orchid");
    assert_eq!(tokens[17].lexeme, "_x1");
}

#[test]
fn scan_comments_and_whitespace_are_skipped() {
    let tokens = scan("// a note\n\tprint 1; // trailing\r\n").unwrap();
    assert_eq!(
        kinds(&tokens),
        vec![TokenType::Print, TokenType::Number, TokenType::Semicolon, TokenType::Eof]
    );
    assert_eq!(tokens[0].line, 2);
    assert_eq!(tokens[3].line, 3);
}

#[test]
fn scan_eof_line_counts_line_breaks() {
    let source = "a\n\nb\n\"x\ny\"\n";
    let tokens = scan(source).unwrap();
    let breaks = source.chars().filter(|c| *c == '\n').count();
    assert_eq!(tokens.last().unwrap().token_type, TokenType::Eof);
    assert_eq!(tokens.last().unwrap().line, 1 + breaks);
    assert_eq!(tokens.iter().filter(|t| t.token_type == TokenType::Eof).count(), 1);
}

#[test]
fn scan_unterminated_string_is_an_error() {
    assert_eq!(scan("\"abc").unwrap_err(), "[line 1] Error: Unterminated string");
    assert_eq!(scan("\"abc\n\n").unwrap_err(), "[line 3] Error: Unterminated string");
}

#[test]
fn scan_unexpected_characters_are_all_reported() {
    assert_eq!(scan("@").unwrap_err(), "[line 1] Error: Unexpected character: @");
    assert_eq!(
        scan("var a = 1 @\n# b").unwrap_err(),
        "[line 1] Error: Unexpected character: @\n[line 2] Error: Unexpected character: #"
    );
}

#[test]
fn scan_scanning_twice_adds_a_second_eof() {
    let mut scanner = Scanner::new("x");
    scanner.scan_tokens();
    scanner.scan_tokens();
    let tokens = scanner.into_tokens().unwrap();
    assert_eq!(kinds(&tokens), vec![TokenType::Identifier, TokenType::Eof, TokenType::Eof]);
}

#[test]
fn scan_token_lines_start_at_one_and_never_decrease() {
    let tokens = scan("var a = \"x\ny\";\n\n// c\nprint a;\n").unwrap();
    assert!(tokens.iter().all(|t| t.line >= 1));
    assert!(tokens.windows(2).all(|w| w[0].line <= w[1].line));
    assert_eq!(tokens.iter().map(|t| t.line).collect::<Vec<_>>(), vec![1, 1, 1, 2, 2, 5, 5, 5, 6]);
}
