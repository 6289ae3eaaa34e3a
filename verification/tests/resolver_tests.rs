use rlox::parser::Parser;
use rlox::resolver::{located_error, Resolver};
use rlox::scanner::Scanner;
use rlox::stmt::Stmt;

fn parse(source: &str) -> Vec<Stmt> {
    let mut scanner = Scanner::new(source);
    scanner.scan_tokens();
    Parser::new(scanner.into_tokens().unwrap()).parse().unwrap()
}

fn resolve(source: &str) -> Result<Vec<(usize, usize)>, Vec<String>> {
    let stmts = parse(source);
    match Resolver::new().resolve(&stmts) {
        Ok(locals) => Ok(locals),
        Err(errors) => Err(errors.iter().map(|e| e.to_string()).collect()),
    }
}

#[test]
fn resolve_globals_are_not_recorded() {
    assert_eq!(resolve("var a = 1; print a; a = 2;").unwrap(), vec![]);
}

#[test]
fn resolve_local_in_same_block() {
    // tokens: var a = 1 ; { var b = a ; print b ; }
    //         0   1 2 3 4 5 6   7 8 9 10 11   12 13 14
    assert_eq!(resolve("var a = 1; { var b = a; print b; }").unwrap(), vec![(12, 0)]);
}

#[test]
fn resolve_local_in_enclosing_block() {
    // tokens: { var a = 1 ; { print a ; } }
    //         0 1   2 3 4 5 6 7     8 9 10 11
    assert_eq!(resolve("{ var a = 1; { print a; } }").unwrap(), vec![(8, 1)]);
}

#[test]
fn resolve_assignment_to_local() {
    // tokens: { var a ; a = 2 ; }
    //         0 1   2 3 4 5 6 7 8
    assert_eq!(resolve("{ var a; a = 2; }").unwrap(), vec![(4, 0)]);
}

#[test]
fn resolve_function_parameters() {
    // tokens: fun f ( x ) { return x ; }
    //         0   1 2 3 4 5 6      7 8 9
    assert_eq!(resolve("fun f(x) { return x; }").unwrap(), vec![(7, 0)]);
}

#[test]
fn resolve_this_inside_method() {
    // tokens: class A { m ( ) { return this ; } }
    //         0     1 2 3 4 5 6 7      8    9 10 11
    assert_eq!(resolve("class A { m() { return this; } }").unwrap(), vec![(8, 1)]);
}

#[test]
fn resolve_closure_sees_outer_function_variable() {
    // tokens: fun o ( ) { var x = 1 ; fun i ( ) { print x ; } }
    //         0   1 2 3 4 5   6 7 8 9 10  11 12 13 14 15  16 17 18 19
    assert_eq!(resolve("fun o() { var x = 1; fun i() { print x; } }").unwrap(), vec![(16, 1)]);
}

#[test]
fn resolve_return_at_top_level() {
    assert_eq!(
        resolve("return 1;").unwrap_err(),
        vec!["[line 1] Error at return: Can't return from top-level code."]
    );
}

#[test]
fn resolve_own_initializer() {
    assert_eq!(
        resolve("{ var a = a; }").unwrap_err(),
        vec!["[line 1] Error at a: Can't read local variable in its own initializer."]
    );
}

#[test]
fn resolve_redeclaration_in_scope() {
    assert_eq!(
        resolve("{ var a = 1;\n var a = 2; }").unwrap_err(),
        vec!["[line 2] Error at a: Already a variable with this name in this scope."]
    );
}

#[test]
fn resolve_redeclaration_of_global_is_allowed() {
    assert!(resolve("var a = 1; var a = 2;").is_ok());
}

#[test]
fn resolve_this_outside_class() {
    assert_eq!(
        resolve("print this;").unwrap_err(),
        vec!["[line 1] Error at this: Can't use 'this' outside a class."]
    );
}

#[test]
fn resolve_class_inheriting_from_itself() {
    assert_eq!(
        resolve("class A < A {}").unwrap_err(),
        vec!["[line 1] Error at A: A class can't inherit from itself."]
    );
}

#[test]
fn resolve_value_returned_from_initializer() {
    assert_eq!(
        resolve("class A { init() { return 1; } }").unwrap_err(),
        vec!["[line 1] Error at return: Can't return value from an initializer"]
    );
}

#[test]
fn resolve_reports_every_error_in_order() {
    assert_eq!(
        resolve("return;\nprint this;").unwrap_err(),
        vec![
            "[line 1] Error at return: Can't return from top-level code.",
            "[line 2] Error at this: Can't use 'this' outside a class."
        ]
    );
}

#[test]
fn resolve_nested_class_with_superclass() {
    // tokens: class A { } fun f ( ) { class B < A { } }
    //         0     1 2 3 4   5 6 7 8 9     10 11 12 13 14 15
    assert_eq!(resolve("class A {} fun f() { class B < A {} }").unwrap(), vec![]);
    // tokens: { class A { } class B < A { } }
    //         0 1     2 3 4 5     6 7 8 9 10 11
    assert_eq!(resolve("{ class A {} class B < A {} }").unwrap(), vec![(8, 0)]);
}

#[test]
fn located_error_text_with_and_without_place() {
    assert_eq!(
        located_error(Some(12), &Some("x".to_string()), &"Undefined variable: 'x'.".to_string()),
        "[line 12] Error at x: Undefined variable: 'x'."
    );
    assert_eq!(located_error(None, &None, &"oops".to_string()), "[line unknown] Error at unknown: oops");
}
