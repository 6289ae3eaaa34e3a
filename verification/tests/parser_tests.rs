use rlox::expr::Expr;
use rlox::parser::Parser;
use rlox::scanner::Scanner;
use rlox::stmt::Stmt;
use rlox::token::Token;
use rlox::token_type::TokenType;

fn tokens(source: &str) -> Vec<Token> {
    let mut scanner = Scanner::new(source);
    scanner.scan_tokens();
    scanner.into_tokens().unwrap()
}

fn parse(source: &str) -> Result<Vec<Stmt>, Vec<String>> {
    match Parser::new(tokens(source)).parse() {
        Ok(stmts) => Ok(stmts),
        Err(errors) => Err(errors.iter().map(|e| e.to_string()).collect()),
    }
}

fn expression_text(stmt: &Stmt) -> String {
    match stmt {
        Stmt::Expression { expression } => expression.to_string(),
        Stmt::Print { expression } => expression.to_string(),
        _ => panic!("not an expression statement: {:?}", stmt),
    }
}

#[test]
fn parse_precedence_and_associativity() {
    let stmts = parse("print 1 + 2 * 3 - 4 / 2;").unwrap();
    assert_eq!(stmts.len(), 1);
    assert!(matches!(stmts[0], Stmt::Print { .. }));
    assert_eq!(expression_text(&stmts[0]), "(- (+ 1 (* 2 3)) (/ 4 2))");
}

#[test]
fn parse_comparison_equality_and_logic() {
    let stmts = parse("a < b == !c or d and -e >= 2.50;").unwrap();
    assert_eq!(expression_text(&stmts[0]), "(or (== (< a b) (! c)) (and d (>= (- e) 2.5)))");
}

#[test]
fn parse_grouping_and_literals() {
    let stmts = parse("(1.0 + \"s\") == (true != nil);").unwrap();
    assert_eq!(expression_text(&stmts[0]), "(== (group (+ 1 s)) (group (!= true nil)))");
}

#[test]
fn parse_assignment_is_right_associative() {
    let stmts = parse("a = b = 3;").unwrap();
    assert_eq!(expression_text(&stmts[0]), "(a (b 3))");
    match &stmts[0] {
        Stmt::Expression { expression: Expr::Assign { name, id, .. } } => {
            assert_eq!(name.lexeme, "a");
            assert_eq!(*id, 0);
        }
        other => panic!("unexpected {:?}", other),
    }
}

#[test]
fn parse_calls_properties_and_setters() {
    let stmts = parse("f(1, g())(2).x.y = z;").unwrap();
    assert_eq!(
        expression_text(&stmts[0]),
        "(= (. (call (call f 1 (call g)) 2) x) y z)"
    );
}

#[test]
fn parse_this_and_super() {
    let stmts = parse("this.a; super.m;").unwrap();
    assert_eq!(expression_text(&stmts[0]), "(. this a)");
    assert_eq!(expression_text(&stmts[1]), "super.m");
}

#[test]
fn parse_variable_declarations() {
    let stmts = parse("var a; var b = a;").unwrap();
    assert_eq!(stmts.len(), 2);
    match &stmts[0] {
        Stmt::Var { name, initializer } => {
            assert_eq!(name.lexeme, "a");
            assert_eq!(initializer.to_string(), "nil");
        }
        other => panic!("unexpected {:?}", other),
    }
    match &stmts[1] {
        Stmt::Var { name, initializer: Expr::Variable { name: v, id } } => {
            assert_eq!(name.lexeme, "b");
            assert_eq!(v.lexeme, "a");
            assert_eq!(*id, 6);
        }
        other => panic!("unexpected {:?}", other),
    }
}

#[test]
fn parse_blocks_if_and_while() {
    let stmts = parse("{ var a = 1; if (a) print a; else { print 2; } while (a) a = a - 1; }").unwrap();
    assert_eq!(stmts.len(), 1);
    match &stmts[0] {
        Stmt::Block { statements } => {
            assert_eq!(statements.len(), 3);
            assert!(matches!(statements[0], Stmt::Var { .. }));
            match &statements[1] {
                Stmt::If { condition, then_branch, else_branch: Some(e) } => {
                    assert_eq!(condition.to_string(), "a");
                    assert!(matches!(**then_branch, Stmt::Print { .. }));
                    assert!(matches!(**e, Stmt::Block { .. }));
                }
                other => panic!("unexpected {:?}", other),
            }
            match &statements[2] {
                Stmt::While { condition, body } => {
                    assert_eq!(condition.to_string(), "a");
                    assert_eq!(expression_text(body), "(a (- a 1))");
                }
                other => panic!("unexpected {:?}", other),
            }
        }
        other => panic!("unexpected {:?}", other),
    }
}

#[test]
fn parse_for_loop_desugars_to_while() {
    let stmts = parse("for (var i = 0; i < 3; i = i + 1) print i;").unwrap();
    assert_eq!(stmts.len(), 1);
    match &stmts[0] {
        Stmt::Block { statements } => {
            assert_eq!(statements.len(), 2);
            assert!(matches!(statements[0], Stmt::Var { .. }));
            match &statements[1] {
                Stmt::While { condition, body } => {
                    assert_eq!(condition.to_string(), "(< i 3)");
                    match &**body {
                        Stmt::Block { statements: inner } => {
                            assert_eq!(inner.len(), 2);
                            assert_eq!(expression_text(&inner[0]), "i");
                            assert_eq!(expression_text(&inner[1]), "(i (+ i 1))");
                        }
                        other => panic!("unexpected {:?}", other),
                    }
                }
                other => panic!("unexpected {:?}", other),
            }
        }
        other => panic!("unexpected {:?}", other),
    }
}

#[test]
fn parse_for_loop_without_clauses() {
    let stmts = parse("for (;;) print 1;").unwrap();
    match &stmts[0] {
        Stmt::While { condition, body } => {
            assert_eq!(condition.to_string(), "true");
            assert!(matches!(**body, Stmt::Print { .. }));
        }
        other => panic!("unexpected {:?}", other),
    }
}

#[test]
fn parse_functions_and_returns() {
    let stmts = parse("fun add(a, b) { return a + b; } fun nothing() { return; }").unwrap();
    assert_eq!(stmts.len(), 2);
    match &stmts[0] {
        Stmt::Function { name, params, body } => {
            assert_eq!(name.lexeme, "add");
            assert_eq!(params.iter().map(|p| p.lexeme.clone()).collect::<Vec<_>>(), vec!["a", "b"]);
            assert_eq!(body.len(), 1);
            match &body[0] {
                Stmt::Return { keyword, value: Some(v) } => {
                    assert_eq!(keyword.token_type, TokenType::Return);
                    assert_eq!(v.to_string(), "(+ a b)");
                }
                other => panic!("unexpected {:?}", other),
            }
        }
        other => panic!("unexpected {:?}", other),
    }
    match &stmts[1] {
        Stmt::Function { params, body, .. } => {
            assert!(params.is_empty());
            assert!(matches!(body[0], Stmt::Return { value: None, .. }));
        }
        other => panic!("unexpected {:?}", other),
    }
}

#[test]
fn parse_class_with_superclass_and_methods() {
    let stmts = parse("class B < A { init(x) { this.x = x; } get() { return this.x; } }").unwrap();
    match &stmts[0] {
        Stmt::Class { name, superclass: Some(Expr::Variable { name: s, .. }), methods } => {
            assert_eq!(name.lexeme, "B");
            assert_eq!(s.lexeme, "A");
            assert_eq!(methods.len(), 2);
            assert!(matches!(&methods[0], Stmt::Function { name, .. } if name.lexeme == "init"));
            assert!(matches!(&methods[1], Stmt::Function { name, .. } if name.lexeme == "get"));
        }
        other => panic!("unexpected {:?}", other),
    }
}

#[test]
fn parse_missing_semicolon_at_end() {
    assert_eq!(parse("print 1").unwrap_err(), vec!["[line 1] Error at end: Expect ';' after value."]);
}

#[test]
fn parse_missing_expression() {
    assert_eq!(parse("print ;").unwrap_err(), vec!["[line 1] Error at ;: Expect expression."]);
}

#[test]
fn parse_bad_variable_name() {
    assert_eq!(parse("var 1 = 2;").unwrap_err(), vec!["[line 1] Error at 1: Expect variable name."]);
}

#[test]
fn parse_invalid_assignment_target() {
    assert_eq!(parse("1 = 2;").unwrap_err(), vec!["[line 1] Error at =: Invalid assignment target."]);
}

#[test]
fn parse_recovers_and_reports_every_error() {
    assert_eq!(
        parse("print ;\nvar x = 1;\nprint );\nprint x;").unwrap_err(),
        vec!["[line 1] Error at ;: Expect expression.", "[line 3] Error at ): Expect expression."]
    );
}

#[test]
fn parse_unclosed_block() {
    assert_eq!(parse("{ print 1;").unwrap_err(), vec!["[line 1] Error at end: Expect '}' after block."]);
}

#[test]
fn parse_empty_program() {
    assert!(parse("").unwrap().is_empty());
}
