use rlox::runtime::{arity_error, Runtime};
use rlox::token::Token;
use rlox::token_type::TokenType;

fn identifier(s: &str) -> Token {
    Token { token_type: TokenType::Identifier, lexeme: s.to_string(), literal: None, line: 3 }
}

#[test]
fn runtime_globals_are_read_without_a_distance() {
    let mut rt: Runtime<i32> = Runtime::new();
    rt.define("a".to_string(), 1);
    assert_eq!(rt.look_up_variable(&identifier("a"), 0), Ok(&1));
    assert_eq!(rt.look_up_variable(&identifier("b"), 0), Err("Undefined variable: 'b'.".to_string()));
}

#[test]
fn runtime_locals_are_read_at_their_distance() {
    let mut rt: Runtime<i32> = Runtime::new();
    rt.define("a".to_string(), 1);
    let outer = rt.push_environment(rt.current_environment());
    let previous = rt.enter(outer);
    assert_eq!(previous, 0);
    rt.define("a".to_string(), 2);
    let inner = rt.push_environment(outer);
    rt.enter(inner);
    rt.resolve(7, 1);
    // occurrence 7 reads the binding one scope out; occurrence 8 is global
    assert_eq!(rt.look_up_variable(&identifier("a"), 7), Ok(&2));
    assert_eq!(rt.look_up_variable(&identifier("a"), 8), Ok(&1));
    rt.resolve(9, 0);
    assert_eq!(rt.look_up_variable(&identifier("a"), 9), Err("Undefined variable: 'a'.".to_string()));
    rt.resolve(10, 5);
    assert_eq!(
        rt.look_up_variable(&identifier("a"), 10),
        Err("Environment depth is too shallow.".to_string())
    );
}

#[test]
fn runtime_assignments_read_back() {
    let mut rt: Runtime<i32> = Runtime::new();
    rt.define("g".to_string(), 1);
    let block = rt.push_environment(0);
    rt.enter(block);
    rt.define("l".to_string(), 2);
    rt.resolve(4, 0);
    assert_eq!(rt.assign_variable(&identifier("l"), 4, 20), Ok(()));
    assert_eq!(rt.look_up_variable(&identifier("l"), 4), Ok(&20));
    assert_eq!(rt.assign_variable(&identifier("g"), 5, 10), Ok(()));
    assert_eq!(rt.look_up_variable(&identifier("g"), 5), Ok(&10));
    assert_eq!(rt.assign_variable(&identifier("x"), 6, 0), Err("Undefined variable: 'x'.".to_string()));
    rt.resolve(6, 0);
    assert_eq!(
        rt.assign_variable(&identifier("x"), 6, 0),
        Err("Undefined variable in the specified depth. Variable: 'x'".to_string())
    );
}

#[test]
fn runtime_call_binds_parameters() {
    let mut rt: Runtime<i32> = Runtime::new();
    let params = vec![identifier("a"), identifier("b"), identifier("a")];
    let env = rt.call_environment(0, &params, vec![1, 2, 3]).unwrap();
    assert_eq!(env, 1);
    rt.enter(env);
    rt.resolve(1, 0);
    assert_eq!(rt.look_up_variable(&identifier("a"), 1), Ok(&3));
    assert_eq!(rt.look_up_variable(&identifier("b"), 1), Ok(&2));
}

#[test]
fn runtime_call_with_wrong_arity() {
    let mut rt: Runtime<i32> = Runtime::new();
    let params = vec![identifier("a")];
    assert_eq!(
        rt.call_environment(0, &params, vec![1, 2]),
        Err("Expected 1 arguments, but got 2.".to_string())
    );
    assert_eq!(rt.len(), 1);
    assert_eq!(arity_error(0, 12), "Expected 0 arguments, but got 12.");
}

#[test]
fn runtime_bound_method_sees_this() {
    let mut rt: Runtime<i32> = Runtime::new();
    let env = rt.bind_this(0, 42);
    rt.enter(env);
    rt.resolve(2, 0);
    assert_eq!(rt.look_up_variable(&identifier("this"), 2), Ok(&42));
}
