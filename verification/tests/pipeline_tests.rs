use rlox::pipeline::compile;
use rlox::stmt::Stmt;

#[test]
fn compile_reports_lexical_errors_first() {
    assert_eq!(
        compile("print 1 @ )").unwrap_err(),
        "[line 1] Error: Unexpected character: @"
    );
}

#[test]
fn compile_reports_syntax_errors_one_per_line() {
    assert_eq!(
        compile("print ;\nprint );").unwrap_err(),
        "[line 1] Error at ;: Expect expression.\n[line 2] Error at ): Expect expression."
    );
}

#[test]
fn compile_reports_static_errors_one_per_line() {
    assert_eq!(
        compile("return;\n{ var a = a; }").unwrap_err(),
        "[line 1] Error at return: Can't return from top-level code.\n[line 2] Error at a: Can't read local variable in its own initializer."
    );
}

#[test]
fn compile_gives_statements_and_scope_distances() {
    // tokens: { var a = 1 ; print a ; }
    //         0 1   2 3 4 5 6     7 8 9
    let (stmts, locals) = compile("{ var a = 1; print a; }").unwrap();
    assert_eq!(stmts.len(), 1);
    assert!(matches!(&stmts[0], Stmt::Block { statements } if statements.len() == 2));
    assert_eq!(locals, vec![(7, 0)]);
}

#[test]
fn compile_empty_source() {
    let (stmts, locals) = compile("").unwrap();
    assert!(stmts.is_empty());
    assert!(locals.is_empty());
}

#[test]
fn compile_accepts_declarations_in_nested_scopes() {
    // tokens: { var a = 1 ; if ( a ) { var b = a ; } print a ; }
    //         0 1   2 3 4 5 6  7 8 9 10 11  12 13 14 15 16 17 18 19 20
    let (_, locals) = compile("{ var a = 1; if (a) { var b = a; } print a; }").unwrap();
    assert_eq!(locals, vec![(8, 0), (14, 1), (18, 0)]);
}
