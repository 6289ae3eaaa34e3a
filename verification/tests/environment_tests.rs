use rlox::bindings::Bindings;
use rlox::class::Class;
use rlox::environment::{Environment, Environments};
use rlox::instance::{Instance, Property};
use rlox::token::Token;
use rlox::token_type::TokenType;
use std::rc::Rc;

fn name(s: &str) -> String {
    s.to_string()
}

fn identifier(s: &str) -> Token {
    Token { token_type: TokenType::Identifier, lexeme: s.to_string(), literal: None, line: 1 }
}

/// globals <- outer <- inner
fn three_levels() -> (Environments<i32>, usize, usize, usize) {
    let mut envs = Environments::new();
    let globals = envs.push(Environment::new(None));
    let outer = envs.push(Environment::new(Some(globals)));
    let inner = envs.push(Environment::new(Some(outer)));
    (envs, globals, outer, inner)
}

#[test]
fn environment_get_after_define() {
    let (mut envs, globals, _outer, inner) = three_levels();
    envs.define(globals, name("a"), 1);
    assert_eq!(envs.get(inner, &name("a")), Ok(&1));
    assert_eq!(envs.get(globals, &name("a")), Ok(&1));
}

#[test]
fn environment_nearest_binding_shadows() {
    let (mut envs, globals, outer, inner) = three_levels();
    envs.define(globals, name("a"), 1);
    envs.define(outer, name("a"), 2);
    assert_eq!(envs.get(inner, &name("a")), Ok(&2));
    assert_eq!(envs.get(globals, &name("a")), Ok(&1));
}

#[test]
fn environment_redefine_replaces() {
    let (mut envs, globals, _outer, _inner) = three_levels();
    envs.define(globals, name("a"), 1);
    envs.define(globals, name("a"), 5);
    assert_eq!(envs.get(globals, &name("a")), Ok(&5));
}

#[test]
fn environment_undefined_variable() {
    let (envs, _globals, _outer, inner) = three_levels();
    assert_eq!(envs.get(inner, &name("nope")), Err(name("Undefined variable: 'nope'.")));
}

#[test]
fn environment_assign_updates_the_holder() {
    let (mut envs, globals, outer, inner) = three_levels();
    envs.define(globals, name("a"), 1);
    envs.define(outer, name("b"), 2);
    assert_eq!(envs.assign(inner, name("a"), 10), Ok(()));
    assert_eq!(envs.assign(inner, name("b"), 20), Ok(()));
    assert_eq!(envs.get(globals, &name("a")), Ok(&10));
    assert_eq!(envs.get(outer, &name("b")), Ok(&20));
    assert_eq!(envs.get_at(inner, 1, &name("b")), Ok(&20));
    assert_eq!(envs.get_at(inner, 0, &name("b")), Err(name("Undefined variable: 'b'.")));
}

#[test]
fn environment_assign_undefined_fails_and_changes_nothing() {
    let (mut envs, globals, _outer, inner) = three_levels();
    envs.define(globals, name("a"), 1);
    assert_eq!(envs.assign(inner, name("c"), 3), Err(name("Undefined variable: 'c'.")));
    assert_eq!(envs.get(inner, &name("c")), Err(name("Undefined variable: 'c'.")));
    assert_eq!(envs.get(inner, &name("a")), Ok(&1));
}

#[test]
fn environment_ancestor_distances() {
    let (envs, globals, outer, inner) = three_levels();
    assert_eq!(envs.ancestor(inner, 0), Ok(inner));
    assert_eq!(envs.ancestor(inner, 1), Ok(outer));
    assert_eq!(envs.ancestor(inner, 2), Ok(globals));
    assert_eq!(envs.ancestor(inner, 3), Err(name("Environment depth is too shallow.")));
}

#[test]
fn environment_get_at_reads_only_that_environment() {
    let (mut envs, globals, outer, inner) = three_levels();
    envs.define(globals, name("a"), 1);
    envs.define(outer, name("a"), 2);
    assert_eq!(envs.get_at(inner, 1, &name("a")), Ok(&2));
    assert_eq!(envs.get_at(inner, 2, &name("a")), Ok(&1));
    assert_eq!(envs.get_at(inner, 4, &name("a")), Err(name("Environment depth is too shallow.")));
}

#[test]
fn environment_assign_at_then_get_at() {
    let (mut envs, globals, outer, inner) = three_levels();
    envs.define(globals, name("a"), 1);
    envs.define(outer, name("a"), 2);
    assert_eq!(envs.assign_at(inner, 2, name("a"), 7), Ok(()));
    assert_eq!(envs.get_at(inner, 2, &name("a")), Ok(&7));
    assert_eq!(envs.get_at(inner, 1, &name("a")), Ok(&2));
}

#[test]
fn environment_assign_at_missing_name() {
    let (mut envs, _globals, _outer, inner) = three_levels();
    assert_eq!(
        envs.assign_at(inner, 1, name("z"), 1),
        Err(name("Undefined variable in the specified depth. Variable: 'z'"))
    );
    assert_eq!(
        envs.assign_at(inner, 9, name("z"), 1),
        Err(name("Environment depth is too shallow."))
    );
}

#[test]
fn bindings_insert_and_get() {
    let mut b: Bindings<i32> = Bindings::new();
    assert!(!b.contains_key(&name("x")));
    assert_eq!(b.get(&name("x")), None);
    b.insert(name("x"), 1);
    b.insert(name("y"), 2);
    b.insert(name("x"), 3);
    assert!(b.contains_key(&name("x")));
    assert_eq!(b.get(&name("x")), Some(&3));
    assert_eq!(b.get(&name("y")), Some(&2));
}

#[test]
fn class_finds_its_methods() {
    let mut methods: Bindings<i32> = Bindings::new();
    methods.insert(name("init"), 1);
    methods.insert(name("area"), 2);
    let class = Class::new("Shape", methods);
    assert_eq!(class.name, "Shape");
    assert_eq!(class.find_method(&name("area")), Some(&2));
    assert_eq!(class.find_method(&name("perimeter")), None);
}

#[test]
fn instance_field_after_set() {
    let mut methods: Bindings<i32> = Bindings::new();
    methods.insert(name("size"), 100);
    let class = Rc::new(Class::new("Box", methods));
    let mut instance = Instance::new(Rc::clone(&class));
    assert!(instance.get(&identifier("width")).is_none());
    instance.set(&identifier("width"), 3);
    assert!(matches!(instance.get(&identifier("width")), Some(Property::Field(&3))));
    instance.set(&identifier("width"), 4);
    assert!(matches!(instance.get(&identifier("width")), Some(Property::Field(&4))));
}

#[test]
fn instance_method_when_no_field() {
    let mut methods: Bindings<i32> = Bindings::new();
    methods.insert(name("size"), 100);
    let class = Rc::new(Class::new("Box", methods));
    let mut instance = Instance::new(class);
    assert!(matches!(instance.get(&identifier("size")), Some(Property::Method(&100))));
    instance.set(&identifier("size"), 5);
    assert!(matches!(instance.get(&identifier("size")), Some(Property::Field(&5))));
    assert_eq!(instance.class.name, "Box");
}
