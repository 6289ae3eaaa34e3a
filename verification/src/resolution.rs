//! What resolving a program does, stated over the abstract syntax: for each
//! variable occurrence, how many scopes out its binding lives (or nothing,
//! for a global), and which static errors the program has.

use vstd::prelude::*;

use crate::expr::SpecExpr;
use crate::stmt::SpecStmt;
use crate::token::Token;

verus! {

/// The kind of function whose body is being resolved.
#[derive(Debug, Clone, Copy, PartialEq, Eq, Structural)]
pub enum FunctionType {
    /// Not inside any function.
    Outside,
    Function,
    Initializer,
    Method,
}

/// Whether a class body is being resolved.
#[derive(Debug, Clone, Copy, PartialEq, Eq, Structural)]
pub enum ClassType {
    /// Not inside any class.
    Outside,
    Class,
}

/// A static error: the line and the lexeme it was found at, and what is wrong.
pub struct SpecResolveError {
    pub line: Option<nat>,
    pub place: Option<Seq<char>>,
    pub msg: Seq<char>,
}

/// The resolver's state: the stack of block scopes (innermost last), the
/// kinds of function and class being resolved, the errors found so far, and
/// the resolutions made so far (an expression's id and its scope distance).
pub struct RState {
    pub scopes: Seq<Map<Seq<char>, bool>>,
    pub function: FunctionType,
    pub class: ClassType,
    pub errors: Seq<SpecResolveError>,
    pub locals: Seq<(nat, nat)>,
}

/// The state a resolver starts from: global scope only, outside any
/// function or class.
pub open spec fn initial_state() -> RState {
    RState {
        scopes: Seq::empty(),
        function: FunctionType::Outside,
        class: ClassType::Outside,
        errors: Seq::empty(),
        locals: Seq::empty(),
    }
}

pub open spec fn error_at(token: Token, msg: Seq<char>) -> SpecResolveError {
    SpecResolveError { line: Some(token.line as nat), place: Some(token.lexeme@), msg }
}

pub open spec fn report(st: RState, e: SpecResolveError) -> RState {
    RState { errors: st.errors.push(e), ..st }
}

pub open spec fn begin_scope(st: RState) -> RState {
    RState { scopes: st.scopes.push(Map::empty()), ..st }
}

pub open spec fn end_scope(st: RState) -> RState {
    if st.scopes.len() == 0 {
        st
    } else {
        RState { scopes: st.scopes.drop_last(), ..st }
    }
}

/// Binds `name` in the innermost scope (if any) to `defined`.
pub open spec fn bind(st: RState, name: Seq<char>, defined: bool) -> RState {
    if st.scopes.len() == 0 {
        st
    } else {
        RState { scopes: st.scopes.update(st.scopes.len() - 1, st.scopes.last().insert(name, defined)), ..st }
    }
}

/// Declares `name` in the innermost scope, not yet defined; redeclaring a
/// name in the same local scope is an error.
pub open spec fn declare(st: RState, name: Token) -> RState {
    if st.scopes.len() == 0 {
        st
    } else {
        let st1 = if st.scopes.last().contains_key(name.lexeme@) {
            report(st, error_at(name, "Already a variable with this name in this scope."@))
        } else {
            st
        };
        bind(st1, name.lexeme@, false)
    }
}

pub open spec fn define(st: RState, name: Token) -> RState {
    bind(st, name.lexeme@, true)
}

/// How many scopes out from the innermost one the nearest binding of `name`
/// lives, if some scope binds it.
pub open spec fn scope_distance(scopes: Seq<Map<Seq<char>, bool>>, name: Seq<char>) -> Option<nat>
    decreases scopes.len(),
{
    if scopes.len() == 0 {
        None
    } else if scopes.last().contains_key(name) {
        Some(0)
    } else {
        match scope_distance(scopes.drop_last(), name) {
            Some(d) => Some(d + 1),
            None => None,
        }
    }
}

/// Records the distance to the binding of `name` for the expression `id`;
/// a name no scope binds is global, and nothing is recorded.
pub open spec fn resolve_local(st: RState, id: nat, name: Token) -> RState {
    match scope_distance(st.scopes, name.lexeme@) {
        Some(d) => RState { locals: st.locals.push((id, d)), ..st },
        None => st,
    }
}

/// Whether the innermost scope declares `name` without having defined it.
pub open spec fn declared_not_defined(st: RState, name: Seq<char>) -> bool {
    st.scopes.len() > 0 && st.scopes.last().contains_key(name) && !st.scopes.last()[name]
}

pub closed spec fn resolve_expr(st: RState, e: SpecExpr) -> RState
    decreases e, 0int,
{
    match e {
        SpecExpr::Assign { name, value, id } => resolve_local(resolve_expr(st, *value), id, name),
        SpecExpr::Binary { left, right, .. } => resolve_expr(resolve_expr(st, *left), *right),
        SpecExpr::Call { callee, arguments, .. } => resolve_exprs(resolve_expr(st, *callee), arguments),
        SpecExpr::Get { object, .. } => resolve_expr(st, *object),
        SpecExpr::Grouping { expression } => resolve_expr(st, *expression),
        SpecExpr::Literal { .. } => st,
        SpecExpr::Logical { left, right, .. } => resolve_expr(resolve_expr(st, *left), *right),
        SpecExpr::SetProperty { object, value, .. } => resolve_expr(resolve_expr(st, *object), *value),
        SpecExpr::Super { keyword, id, .. } => resolve_local(st, id, keyword),
        SpecExpr::This { keyword, id } => if st.class == ClassType::Outside {
            report(st, error_at(keyword, "Can't use 'this' outside a class."@))
        } else {
            resolve_local(st, id, keyword)
        },
        SpecExpr::Unary { right, .. } => resolve_expr(st, *right),
        SpecExpr::Variable { name, id } => {
            let st1 = if declared_not_defined(st, name.lexeme@) {
                report(st, error_at(name, "Can't read local variable in its own initializer."@))
            } else {
                st
            };
            resolve_local(st1, id, name)
        },
    }
}

/// Resolves the expressions `es` from first to last.
pub closed spec fn resolve_exprs(st: RState, es: Seq<SpecExpr>) -> RState
    decreases es, 1int,
{
    if es.len() == 0 {
        st
    } else {
        resolve_expr(resolve_exprs(st, es.subrange(0, es.len() - 1)), es[es.len() - 1])
    }
}

/// Declares and defines the parameters `ps`, from first to last.
pub closed spec fn declare_params(st: RState, ps: Seq<Token>) -> RState
    decreases ps.len(),
{
    if ps.len() == 0 {
        st
    } else {
        let st1 = declare_params(st, ps.drop_last());
        define(declare(st1, ps.last()), ps.last())
    }
}

pub closed spec fn resolve_stmt(st: RState, s: SpecStmt) -> RState
    decreases s, 0int,
{
    match s {
        SpecStmt::Block { statements } => end_scope(resolve_stmts(begin_scope(st), statements)),
        SpecStmt::Class { name, superclass, methods } => {
            let st1 = define(declare(RState { class: ClassType::Class, ..st }, name), name);
            let st2 = match superclass {
                Some(sc) => match sc {
                    SpecExpr::Variable { name: sc_name, .. } => {
                        let st3 = if name.lexeme@ == sc_name.lexeme@ {
                            report(st1, error_at(sc_name, "A class can't inherit from itself."@))
                        } else {
                            st1
                        };
                        resolve_expr(st3, sc)
                    },
                    _ => st1,
                },
                None => st1,
            };
            let st4 = resolve_methods(bind(begin_scope(st2), "this"@, true), methods, name);
            RState { class: st.class, ..end_scope(st4) }
        },
        SpecStmt::Expression { expression } => resolve_expr(st, expression),
        SpecStmt::Function { name, params, body } => resolve_function(
            define(declare(st, name), name),
            params,
            body,
            FunctionType::Function,
        ),
        SpecStmt::If { condition, then_branch, else_branch } => {
            let st1 = resolve_stmt(resolve_expr(st, condition), *then_branch);
            match else_branch {
                Some(b) => resolve_stmt(st1, *b),
                None => st1,
            }
        },
        SpecStmt::Print { expression } => resolve_expr(st, expression),
        SpecStmt::Return { keyword, value } => {
            let st1 = if st.function == FunctionType::Outside {
                report(st, error_at(keyword, "Can't return from top-level code."@))
            } else {
                st
            };
            match value {
                Some(v) => {
                    let st2 = if st1.function == FunctionType::Initializer {
                        report(st1, error_at(keyword, "Can't return value from an initializer"@))
                    } else {
                        st1
                    };
                    resolve_expr(st2, v)
                },
                None => st1,
            }
        },
        SpecStmt::Var { name, initializer } => define(resolve_expr(declare(st, name), initializer), name),
        SpecStmt::While { condition, body } => resolve_stmt(resolve_expr(st, condition), *body),
    }
}

/// Resolves the statements `ss` from first to last.
pub closed spec fn resolve_stmts(st: RState, ss: Seq<SpecStmt>) -> RState
    decreases ss, 1int,
{
    if ss.len() == 0 {
        st
    } else {
        resolve_stmt(resolve_stmts(st, ss.subrange(0, ss.len() - 1)), ss[ss.len() - 1])
    }
}

/// Resolves the methods `ms` of the class `class_name`, from first to last;
/// a method named `init` is an initializer.
pub closed spec fn resolve_methods(st: RState, ms: Seq<SpecStmt>, class_name: Token) -> RState
    decreases ms, 1int,
{
    if ms.len() == 0 {
        st
    } else {
        let st1 = resolve_methods(st, ms.subrange(0, ms.len() - 1), class_name);
        match ms[ms.len() - 1] {
            SpecStmt::Function { name, params, body } => resolve_function(
                st1,
                params,
                body,
                if name.lexeme@ == "init"@ {
                    FunctionType::Initializer
                } else {
                    FunctionType::Method
                },
            ),
            _ => report(st1, error_at(class_name, "Methods need to be function statement."@)),
        }
    }
}

/// Resolves a function body in a new scope that binds its parameters.
pub closed spec fn resolve_function(st: RState, params: Seq<Token>, body: Seq<SpecStmt>, kind: FunctionType) -> RState
    decreases body, 2int,
{
    let st1 = declare_params(begin_scope(RState { function: kind, ..st }), params);
    RState { function: st.function, ..end_scope(resolve_stmts(st1, body)) }
}

// ------------------------------------------------------------------- laws

/// `a` is a prefix of `b`: what was recorded stays recorded.
pub open spec fn grows<A>(a: Seq<A>, b: Seq<A>) -> bool {
    a.len() <= b.len() && forall|i: int| 0 <= i < a.len() ==> b[i] == a[i]
}

/// Going from `a` to `b` leaves the scope depth and the function and class
/// context as they were, and only adds errors and resolutions.
pub open spec fn balanced(a: RState, b: RState) -> bool {
    &&& b.scopes.len() == a.scopes.len()
    &&& b.function == a.function
    &&& b.class == a.class
    &&& grows(a.errors, b.errors)
    &&& grows(a.locals, b.locals)
}

/// Resolving an expression changes no scope and no context; it only adds
/// errors and resolutions.
pub proof fn law_resolve_expr_balanced(st: RState, e: SpecExpr)
    ensures
        resolve_expr(st, e).scopes == st.scopes,
        balanced(st, resolve_expr(st, e)),
    decreases e, 0int,
{
    match e {
        SpecExpr::Assign { value, .. } => law_resolve_expr_balanced(st, *value),
        SpecExpr::Binary { left, right, .. } => {
            law_resolve_expr_balanced(st, *left);
            law_resolve_expr_balanced(resolve_expr(st, *left), *right);
        },
        SpecExpr::Call { callee, arguments, .. } => {
            law_resolve_expr_balanced(st, *callee);
            law_resolve_exprs_balanced(resolve_expr(st, *callee), arguments);
        },
        SpecExpr::Get { object, .. } => law_resolve_expr_balanced(st, *object),
        SpecExpr::Grouping { expression } => law_resolve_expr_balanced(st, *expression),
        SpecExpr::Logical { left, right, .. } => {
            law_resolve_expr_balanced(st, *left);
            law_resolve_expr_balanced(resolve_expr(st, *left), *right);
        },
        SpecExpr::SetProperty { object, value, .. } => {
            law_resolve_expr_balanced(st, *object);
            law_resolve_expr_balanced(resolve_expr(st, *object), *value);
        },
        SpecExpr::Unary { right, .. } => law_resolve_expr_balanced(st, *right),
        _ => {},
    }
}

/// As `law_resolve_expr_balanced`, for a list of expressions.
pub proof fn law_resolve_exprs_balanced(st: RState, es: Seq<SpecExpr>)
    ensures
        resolve_exprs(st, es).scopes == st.scopes,
        balanced(st, resolve_exprs(st, es)),
    decreases es, 1int,
{
    if es.len() > 0 {
        law_resolve_exprs_balanced(st, es.subrange(0, es.len() - 1));
        law_resolve_expr_balanced(resolve_exprs(st, es.subrange(0, es.len() - 1)), es[es.len() - 1]);
    }
}

proof fn lemma_declare_params_balanced(st: RState, ps: Seq<Token>)
    ensures
        balanced(st, declare_params(st, ps)),
    decreases ps.len(),
{
    if ps.len() > 0 {
        lemma_declare_params_balanced(st, ps.drop_last());
    }
}

/// Resolving a statement ends with as many scopes as it began with, every
/// scope below the innermost one unchanged, in the same function and class
/// context; it only adds errors and resolutions. A statement in the shape
/// the parser gives changes the innermost scope only by binding, as
/// defined, the name it declares.
pub proof fn law_resolve_stmt_balanced(st: RState, s: SpecStmt)
    ensures
        balanced(st, resolve_stmt(st, s)),
        same_below_top(st.scopes, resolve_stmt(st, s).scopes),
        branches_undeclaring(s) ==> resolve_stmt(st, s).scopes == scopes_after(st.scopes, s),
    decreases s, 0int,
{
    law_resolve_stmt_scopes(st, s);
    match s {
        SpecStmt::Block { statements } => {
            law_resolve_stmts_balanced(begin_scope(st), statements);
        },
        SpecStmt::Class { name, superclass, methods } => {
            let st1 = define(declare(RState { class: ClassType::Class, ..st }, name), name);
            let st2 = match superclass {
                Some(sc) => match sc {
                    SpecExpr::Variable { name: sc_name, .. } => {
                        let st3 = if name.lexeme@ == sc_name.lexeme@ {
                            report(st1, error_at(sc_name, "A class can't inherit from itself."@))
                        } else {
                            st1
                        };
                        law_resolve_expr_balanced(st3, sc);
                        resolve_expr(st3, sc)
                    },
                    _ => st1,
                },
                None => st1,
            };
            law_resolve_methods_balanced(bind(begin_scope(st2), "this"@, true), methods, name);
        },
        SpecStmt::Expression { expression } => law_resolve_expr_balanced(st, expression),
        SpecStmt::Function { name, params, body } => {
            law_resolve_function_balanced(define(declare(st, name), name), params, body, FunctionType::Function);
        },
        SpecStmt::If { condition, then_branch, else_branch } => {
            law_resolve_expr_balanced(st, condition);
            law_resolve_stmt_balanced(resolve_expr(st, condition), *then_branch);
            if let Some(b) = else_branch {
                law_resolve_stmt_balanced(resolve_stmt(resolve_expr(st, condition), *then_branch), *b);
            }
        },
        SpecStmt::Print { expression } => law_resolve_expr_balanced(st, expression),
        SpecStmt::Return { keyword, value } => {
            let st1 = if st.function == FunctionType::Outside {
                report(st, error_at(keyword, "Can't return from top-level code."@))
            } else {
                st
            };
            if let Some(v) = value {
                let st2 = if st1.function == FunctionType::Initializer {
                    report(st1, error_at(keyword, "Can't return value from an initializer"@))
                } else {
                    st1
                };
                law_resolve_expr_balanced(st2, v);
            }
        },
        SpecStmt::Var { name, initializer } => {
            law_resolve_expr_balanced(declare(st, name), initializer);
        },
        SpecStmt::While { condition, body } => {
            law_resolve_expr_balanced(st, condition);
            law_resolve_stmt_balanced(resolve_expr(st, condition), *body);
        },
    }
}

/// As `law_resolve_stmt_balanced`, for a list of statements.
pub proof fn law_resolve_stmts_balanced(st: RState, ss: Seq<SpecStmt>)
    ensures
        balanced(st, resolve_stmts(st, ss)),
    decreases ss, 1int,
{
    if ss.len() > 0 {
        law_resolve_stmts_balanced(st, ss.subrange(0, ss.len() - 1));
        law_resolve_stmt_balanced(resolve_stmts(st, ss.subrange(0, ss.len() - 1)), ss[ss.len() - 1]);
    }
}

/// As `law_resolve_stmt_balanced`, for the methods of a class.
pub proof fn law_resolve_methods_balanced(st: RState, ms: Seq<SpecStmt>, class_name: Token)
    ensures
        balanced(st, resolve_methods(st, ms, class_name)),
    decreases ms, 1int,
{
    if ms.len() > 0 {
        let st1 = resolve_methods(st, ms.subrange(0, ms.len() - 1), class_name);
        law_resolve_methods_balanced(st, ms.subrange(0, ms.len() - 1), class_name);
        match ms[ms.len() - 1] {
            SpecStmt::Function { name, params, body } => {
                law_resolve_function_balanced(
                    st1,
                    params,
                    body,
                    if name.lexeme@ == "init"@ {
                        FunctionType::Initializer
                    } else {
                        FunctionType::Method
                    },
                );
            },
            _ => {},
        }
    }
}

/// Resolving a function leaves the scopes and the context as they were.
pub proof fn law_resolve_function_balanced(st: RState, params: Seq<Token>, body: Seq<SpecStmt>, kind: FunctionType)
    ensures
        balanced(st, resolve_function(st, params, body, kind)),
    decreases body, 2int,
{
    let st0 = begin_scope(RState { function: kind, ..st });
    lemma_declare_params_balanced(st0, params);
    law_resolve_stmts_balanced(declare_params(st0, params), body);
}

/// `b` has as many scopes as `a`, and every scope below the innermost one is
/// as in `a`.
pub open spec fn same_below_top(a: Seq<Map<Seq<char>, bool>>, b: Seq<Map<Seq<char>, bool>>) -> bool {
    &&& b.len() == a.len()
    &&& forall|i: int| 0 <= i < a.len() - 1 ==> #[trigger] b[i] == a[i]
}

/// The name a statement itself declares in the scope it stands in.
pub open spec fn declared_name(s: SpecStmt) -> Option<Seq<char>> {
    match s {
        SpecStmt::Var { name, .. } => Some(name.lexeme@),
        SpecStmt::Function { name, .. } => Some(name.lexeme@),
        SpecStmt::Class { name, .. } => Some(name.lexeme@),
        _ => None,
    }
}

/// The scopes after `s` has been resolved in `scopes`: the name `s`
/// declares, if any, bound as defined in the innermost scope (if any).
pub open spec fn scopes_after(scopes: Seq<Map<Seq<char>, bool>>, s: SpecStmt) -> Seq<Map<Seq<char>, bool>> {
    match declared_name(s) {
        Some(n) => if scopes.len() == 0 {
            scopes
        } else {
            scopes.update(scopes.len() - 1, scopes.last().insert(n, true))
        },
        None => scopes,
    }
}

/// A statement in the shape the parser gives: no branch of an `if` and no
/// body of a `while` is itself a declaration, at any depth of such nesting.
pub open spec fn branches_undeclaring(s: SpecStmt) -> bool
    decreases s,
{
    match s {
        SpecStmt::If { then_branch, else_branch, .. } => {
            &&& declared_name(*then_branch) is None
            &&& branches_undeclaring(*then_branch)
            &&& (else_branch matches Some(b) ==> declared_name(*b) is None && branches_undeclaring(*b))
        },
        SpecStmt::While { body, .. } => declared_name(*body) is None && branches_undeclaring(*body),
        _ => true,
    }
}

proof fn lemma_same_below_top_trans(
    a: Seq<Map<Seq<char>, bool>>,
    b: Seq<Map<Seq<char>, bool>>,
    c: Seq<Map<Seq<char>, bool>>,
)
    requires
        same_below_top(a, b),
        same_below_top(b, c),
    ensures
        same_below_top(a, c),
{
    assert forall|i: int| 0 <= i < a.len() - 1 implies #[trigger] c[i] == a[i] by {
        assert(c[i] == b[i]);
    }
}

proof fn lemma_bind_below_top(st: RState, name: Seq<char>, defined: bool)
    ensures
        same_below_top(st.scopes, bind(st, name, defined).scopes),
{
}

proof fn lemma_declare_params_below_top(st: RState, ps: Seq<Token>)
    ensures
        same_below_top(st.scopes, declare_params(st, ps).scopes),
    decreases ps.len(),
{
    if ps.len() > 0 {
        let st1 = declare_params(st, ps.drop_last());
        lemma_declare_params_below_top(st, ps.drop_last());
        let st2 = declare(st1, ps.last());
        assert(same_below_top(st1.scopes, st2.scopes));
        lemma_same_below_top_trans(st.scopes, st1.scopes, st2.scopes);
        lemma_bind_below_top(st2, ps.last().lexeme@, true);
        lemma_same_below_top_trans(st.scopes, st2.scopes, define(st2, ps.last()).scopes);
    }
}

/// Leaving a scope opened before resolving statements that keep the scopes
/// below their innermost one gives back the scopes from before.
proof fn lemma_close_scope(before: Seq<Map<Seq<char>, bool>>, opened: Seq<Map<Seq<char>, bool>>, st: RState)
    requires
        opened.len() == before.len() + 1,
        forall|i: int| 0 <= i < before.len() ==> #[trigger] opened[i] == before[i],
        same_below_top(opened, st.scopes),
    ensures
        end_scope(st).scopes == before,
{
    assert forall|i: int| 0 <= i < before.len() implies #[trigger] end_scope(st).scopes[i] == before[i] by {
        assert(st.scopes[i] == opened[i]);
    }
    assert(end_scope(st).scopes =~= before);
}

/// Resolving a statement keeps every scope below the innermost one, and the
/// number of scopes. A statement in the shape the parser gives changes the
/// innermost scope only by binding, as defined, the name it declares.
#[verifier::spinoff_prover]
#[verifier::rlimit(50)]
pub proof fn law_resolve_stmt_scopes(st: RState, s: SpecStmt)
    ensures
        same_below_top(st.scopes, resolve_stmt(st, s).scopes),
        branches_undeclaring(s) ==> resolve_stmt(st, s).scopes == scopes_after(st.scopes, s),
    decreases s, 0int,
{
    let r = resolve_stmt(st, s);
    match s {
        SpecStmt::Block { statements } => {
            let b = begin_scope(st);
            law_resolve_stmts_scopes(b, statements);
            lemma_close_scope(st.scopes, b.scopes, resolve_stmts(b, statements));
        },
        SpecStmt::Class { name, superclass, methods } => {
            let st1 = define(declare(RState { class: ClassType::Class, ..st }, name), name);
            let st2 = match superclass {
                Some(sc) => match sc {
                    SpecExpr::Variable { name: sc_name, .. } => {
                        let st3 = if name.lexeme@ == sc_name.lexeme@ {
                            report(st1, error_at(sc_name, "A class can't inherit from itself."@))
                        } else {
                            st1
                        };
                        law_resolve_expr_balanced(st3, sc);
                        resolve_expr(st3, sc)
                    },
                    _ => st1,
                },
                None => st1,
            };
            assert(st2.scopes == st1.scopes);
            let b = bind(begin_scope(st2), "this"@, true);
            law_resolve_methods_scopes(b, methods, name);
            lemma_close_scope(st2.scopes, b.scopes, resolve_methods(b, methods, name));
            if st.scopes.len() > 0 {
                let top = st.scopes.last();
                assert(top.insert(name.lexeme@, false).insert(name.lexeme@, true) =~= top.insert(
                    name.lexeme@,
                    true,
                ));
                assert(st1.scopes =~= scopes_after(st.scopes, s));
            }
        },
        SpecStmt::Expression { expression } => law_resolve_expr_balanced(st, expression),
        SpecStmt::Function { name, params, body } => {
            let st1 = define(declare(st, name), name);
            law_resolve_function_scopes(st1, params, body, FunctionType::Function);
            if st.scopes.len() > 0 {
                let top = st.scopes.last();
                assert(top.insert(name.lexeme@, false).insert(name.lexeme@, true) =~= top.insert(
                    name.lexeme@,
                    true,
                ));
                assert(st1.scopes =~= scopes_after(st.scopes, s));
            }
        },
        SpecStmt::If { condition, then_branch, else_branch } => {
            let st0 = resolve_expr(st, condition);
            law_resolve_expr_balanced(st, condition);
            law_resolve_stmt_scopes(st0, *then_branch);
            let st1 = resolve_stmt(st0, *then_branch);
            if let Some(b) = else_branch {
                law_resolve_stmt_scopes(st1, *b);
                lemma_same_below_top_trans(st.scopes, st1.scopes, resolve_stmt(st1, *b).scopes);
            }
        },
        SpecStmt::Print { expression } => law_resolve_expr_balanced(st, expression),
        SpecStmt::Return { keyword, value } => {
            let st1 = if st.function == FunctionType::Outside {
                report(st, error_at(keyword, "Can't return from top-level code."@))
            } else {
                st
            };
            if let Some(v) = value {
                let st2 = if st1.function == FunctionType::Initializer {
                    report(st1, error_at(keyword, "Can't return value from an initializer"@))
                } else {
                    st1
                };
                law_resolve_expr_balanced(st2, v);
            }
        },
        SpecStmt::Var { name, initializer } => {
            law_resolve_expr_balanced(declare(st, name), initializer);
            if st.scopes.len() > 0 {
                let top = st.scopes.last();
                assert(top.insert(name.lexeme@, false).insert(name.lexeme@, true) =~= top.insert(
                    name.lexeme@,
                    true,
                ));
                assert(r.scopes =~= scopes_after(st.scopes, s));
            }
        },
        SpecStmt::While { condition, body } => {
            law_resolve_expr_balanced(st, condition);
            law_resolve_stmt_scopes(resolve_expr(st, condition), *body);
        },
    }
}

/// As `law_resolve_stmt_scopes`, for a list of statements: every scope below
/// the innermost one is kept.
pub proof fn law_resolve_stmts_scopes(st: RState, ss: Seq<SpecStmt>)
    ensures
        same_below_top(st.scopes, resolve_stmts(st, ss).scopes),
    decreases ss, 1int,
{
    if ss.len() > 0 {
        let st1 = resolve_stmts(st, ss.subrange(0, ss.len() - 1));
        law_resolve_stmts_scopes(st, ss.subrange(0, ss.len() - 1));
        law_resolve_stmt_scopes(st1, ss[ss.len() - 1]);
        lemma_same_below_top_trans(st.scopes, st1.scopes, resolve_stmt(st1, ss[ss.len() - 1]).scopes);
    }
}

/// Resolving the methods of a class leaves the scopes exactly as they were.
pub proof fn law_resolve_methods_scopes(st: RState, ms: Seq<SpecStmt>, class_name: Token)
    ensures
        resolve_methods(st, ms, class_name).scopes == st.scopes,
    decreases ms, 1int,
{
    if ms.len() > 0 {
        let st1 = resolve_methods(st, ms.subrange(0, ms.len() - 1), class_name);
        law_resolve_methods_scopes(st, ms.subrange(0, ms.len() - 1), class_name);
        match ms[ms.len() - 1] {
            SpecStmt::Function { name, params, body } => {
                law_resolve_function_scopes(
                    st1,
                    params,
                    body,
                    if name.lexeme@ == "init"@ {
                        FunctionType::Initializer
                    } else {
                        FunctionType::Method
                    },
                );
            },
            _ => {},
        }
    }
}

/// Resolving a function leaves the scopes exactly as they were.
pub proof fn law_resolve_function_scopes(st: RState, params: Seq<Token>, body: Seq<SpecStmt>, kind: FunctionType)
    ensures
        resolve_function(st, params, body, kind).scopes == st.scopes,
    decreases body, 2int,
{
    let st0 = begin_scope(RState { function: kind, ..st });
    let st1 = declare_params(st0, params);
    lemma_declare_params_below_top(st0, params);
    law_resolve_stmts_scopes(st1, body);
    lemma_same_below_top_trans(st0.scopes, st1.scopes, resolve_stmts(st1, body).scopes);
    lemma_close_scope(st.scopes, st0.scopes, resolve_stmts(st1, body));
}

/// What the distance to a binding is: the scope that many out from the
/// innermost one binds the name, and no scope inside it does; when there is
/// no distance, no scope binds the name.
proof fn lemma_scope_distance_nearest(scopes: Seq<Map<Seq<char>, bool>>, name: Seq<char>)
    ensures
        match scope_distance(scopes, name) {
            Some(d) => {
                &&& d < scopes.len()
                &&& scopes[scopes.len() - 1 - d].contains_key(name)
                &&& forall|j: int| scopes.len() - 1 - d < j < scopes.len() ==> !#[trigger] scopes[j].contains_key(name)
            },
            None => forall|j: int| 0 <= j < scopes.len() ==> !#[trigger] scopes[j].contains_key(name),
        },
    decreases scopes.len(),
{
    if scopes.len() > 0 {
        let inner = scopes.drop_last();
        lemma_scope_distance_nearest(inner, name);
        if !scopes.last().contains_key(name) {
            match scope_distance(inner, name) {
                Some(d) => {
                    assert(scopes[inner.len() - 1 - d] == inner[inner.len() - 1 - d]);
                    assert forall|j: int| scopes.len() - 1 - (d + 1) < j < scopes.len() implies !#[trigger] scopes[
                        j
                    ].contains_key(name) by {
                        if j < inner.len() {
                            assert(scopes[j] == inner[j]);
                        }
                    }
                },
                None => {
                    assert forall|j: int| 0 <= j < scopes.len() implies !#[trigger] scopes[j].contains_key(name) by {
                        if j < inner.len() {
                            assert(scopes[j] == inner[j]);
                        }
                    }
                },
            }
        }
    }
}

/// Resolving a variable occurrence records, with its id, how many scopes out
/// from the innermost one the NEAREST scope binding its name is: that scope
/// binds the name and none inside it does. A name that no scope binds is
/// global: nothing is recorded. Nothing else changes.
pub proof fn law_resolve_local_nearest(st: RState, id: nat, name: Token)
    ensures
        ({
            let r = resolve_local(st, id, name);
            let n = st.scopes.len();
            let x = name.lexeme@;
            &&& (forall|i: int| 0 <= i < n ==> !#[trigger] st.scopes[i].contains_key(x)) ==> r == st
            &&& (exists|i: int| 0 <= i < n && #[trigger] st.scopes[i].contains_key(x)) ==> {
                let d = r.locals.last().1;
                &&& r == RState { locals: st.locals.push((id, d)), ..st }
                &&& d < n
                &&& st.scopes[n - 1 - d].contains_key(x)
                &&& forall|j: int| n - 1 - d < j < n ==> !#[trigger] st.scopes[j].contains_key(x)
            }
        }),
{
    lemma_scope_distance_nearest(st.scopes, name.lexeme@);
}

/// Declaring a name in a local scope is an error exactly when the innermost
/// scope already has that name; bindings in outer scopes never make it one.
/// The name is then bound, not yet defined, in the innermost scope, and the
/// outer scopes stay as they were. At the global level nothing happens.
pub proof fn law_declare_innermost_only(st: RState, name: Token)
    ensures
        ({
            let r = declare(st, name);
            let n = st.scopes.len();
            let x = name.lexeme@;
            &&& n == 0 ==> r == st
            &&& n > 0 ==> {
                &&& r.errors == if st.scopes[n - 1].contains_key(x) {
                    st.errors.push(SpecResolveError {
                        line: Some(name.line as nat),
                        place: Some(x),
                        msg: "Already a variable with this name in this scope."@,
                    })
                } else {
                    st.errors
                }
                &&& r.scopes.len() == n
                &&& forall|j: int| 0 <= j < n - 1 ==> #[trigger] r.scopes[j] == st.scopes[j]
                &&& r.scopes[n - 1] == st.scopes[n - 1].insert(x, false)
                &&& r.locals == st.locals
                &&& r.function == st.function
                &&& r.class == st.class
            }
        }),
{
}

/// The error found at `token`, with `msg`.
pub open spec fn static_error(token: Token, msg: Seq<char>) -> SpecResolveError {
    SpecResolveError { line: Some(token.line as nat), place: Some(token.lexeme@), msg }
}

/// `this` outside any class is an error and resolves nothing; inside a class
/// it adds no error and resolves like a variable named `this`.
pub proof fn law_this_needs_a_class(st: RState, keyword: Token, id: nat)
    ensures
        ({
            let r = resolve_expr(st, SpecExpr::This { keyword, id });
            &&& st.class == ClassType::Outside ==> r == RState {
                errors: st.errors.push(static_error(keyword, "Can't use 'this' outside a class."@)),
                ..st
            }
            &&& st.class != ClassType::Outside ==> r == resolve_local(st, id, keyword) && r.errors == st.errors
        }),
{
}

/// A `return` outside any function is an error; inside one it is not,
/// unless it returns a value from an initializer. Nothing else about the
/// scopes changes.
pub proof fn law_return_placement(st: RState, keyword: Token)
    ensures
        ({
            let r = resolve_stmt(st, SpecStmt::Return { keyword, value: None });
            &&& st.function == FunctionType::Outside ==> r == RState {
                errors: st.errors.push(static_error(keyword, "Can't return from top-level code."@)),
                ..st
            }
            &&& st.function != FunctionType::Outside ==> r == st
        }),
{
}

/// Reading a variable is an error exactly when the innermost scope has
/// declared it and not yet defined it (it is being read in its own
/// initializer); outer scopes never make it one.
pub proof fn law_read_in_own_initializer(st: RState, name: Token, id: nat)
    ensures
        ({
            let r = resolve_expr(st, SpecExpr::Variable { name, id });
            let n = st.scopes.len();
            let x = name.lexeme@;
            &&& (n > 0 && st.scopes[n - 1].contains_key(x) && !st.scopes[n - 1][x]) ==> r.errors == st.errors.push(
                static_error(name, "Can't read local variable in its own initializer."@),
            )
            &&& !(n > 0 && st.scopes[n - 1].contains_key(x) && !st.scopes[n - 1][x]) ==> r.errors == st.errors
            &&& r.scopes == st.scopes
        }),
{
}

proof fn lemma_resolve_two(st: RState, a: SpecStmt, b: SpecStmt)
    ensures
        resolve_stmts(st, seq![a, b]) == resolve_stmt(resolve_stmt(st, a), b),
        resolve_stmts(st, seq![a]) == resolve_stmt(st, a),
{
    assert(seq![a, b].subrange(0, 1) =~= seq![a]);
    assert(seq![a].subrange(0, 0) =~= Seq::<SpecStmt>::empty());
    reveal_with_fuel(resolve_stmts, 3);
}

/// `var a;` with the name of token `name`.
pub open spec fn declare_nil(name: Token) -> SpecStmt {
    SpecStmt::Var { name, initializer: SpecExpr::Literal { value: crate::token::LiteralValue::Nil } }
}

/// Reading `a` (the occurrence `id`).
pub open spec fn read_var(name: Token, id: nat) -> SpecStmt {
    SpecStmt::Expression { expression: SpecExpr::Variable { name, id } }
}

/// `var a;` in a local scope that does not have `a` yet binds it there as
/// defined, with no error and nothing resolved.
proof fn lemma_declare_nil_fresh(st: RState, name: Token)
    requires
        st.scopes.len() > 0,
        !st.scopes.last().contains_key(name.lexeme@),
    ensures
        resolve_stmt(st, declare_nil(name)) == (RState {
            scopes: st.scopes.update(st.scopes.len() - 1, st.scopes.last().insert(name.lexeme@, true)),
            ..st
        }),
{
    let x = name.lexeme@;
    let lit = SpecExpr::Literal { value: crate::token::LiteralValue::Nil };
    assert(resolve_expr(declare(st, name), lit) == declare(st, name));
    assert(st.scopes.last().insert(x, false).insert(x, true) =~= st.scopes.last().insert(x, true));
    assert(resolve_stmt(st, declare_nil(name)).scopes =~= st.scopes.update(
        st.scopes.len() - 1,
        st.scopes.last().insert(x, true),
    ));
}

/// Reading `a` where it is bound and defined `d` scopes out, and no scope
/// inside that one binds it, records distance `d` and reports nothing.
proof fn lemma_read_bound(st: RState, name: Token, id: nat, d: nat)
    requires
        d < st.scopes.len(),
        st.scopes[st.scopes.len() - 1 - d].contains_key(name.lexeme@),
        st.scopes[st.scopes.len() - 1 - d][name.lexeme@],
        forall|j: int| st.scopes.len() - 1 - d < j < st.scopes.len() ==> !#[trigger] st.scopes[j].contains_key(
            name.lexeme@,
        ),
    ensures
        resolve_stmt(st, read_var(name, id)) == (RState { locals: st.locals.push((id, d)), ..st }),
{
    let x = name.lexeme@;
    let k = st.scopes.len() - 1 - d;
    assert(!declared_not_defined(st, x)) by {
        if d > 0 {
            assert(!st.scopes[st.scopes.len() - 1].contains_key(x));
        }
    }
    lemma_scope_distance_nearest(st.scopes, x);
    match scope_distance(st.scopes, x) {
        Some(e) => {
            if e < d {
                assert(!st.scopes[st.scopes.len() - 1 - e].contains_key(x));
            }
            if e > d {
                assert(!st.scopes[k].contains_key(x));
            }
        },
        None => {
            assert(!st.scopes[k].contains_key(x));
        },
    }
    assert(resolve_stmt(st, read_var(name, id)) == resolve_expr(st, SpecExpr::Variable { name, id }));
}

/// In `{ var a; a; }` the read of `a` is bound 0 scopes out; nothing else
/// is recorded or reported, and the scopes come back as they were.
pub proof fn law_block_reads_own_variable(st: RState, name: Token, id: nat)
    ensures
        ({
            let r = resolve_stmt(st, SpecStmt::Block { statements: seq![declare_nil(name), read_var(name, id)] });
            &&& r.locals == st.locals.push((id, 0))
            &&& r.errors == st.errors
            &&& r.scopes == st.scopes
        }),
{
    let b = begin_scope(st);
    lemma_resolve_two(b, declare_nil(name), read_var(name, id));
    lemma_declare_nil_fresh(b, name);
    let s1 = resolve_stmt(b, declare_nil(name));
    lemma_read_bound(s1, name, id, 0);
    assert(end_scope(resolve_stmt(s1, read_var(name, id))).scopes =~= st.scopes);
}

/// In `{ var a; { a; } }` the read of `a` is bound 1 scope out; nothing else
/// is recorded or reported, and the scopes come back as they were.
pub proof fn law_nested_block_reads_outer_variable(st: RState, name: Token, id: nat)
    ensures
        ({
            let r = resolve_stmt(
                st,
                SpecStmt::Block {
                    statements: seq![declare_nil(name), SpecStmt::Block { statements: seq![read_var(name, id)] }],
                },
            );
            &&& r.locals == st.locals.push((id, 1))
            &&& r.errors == st.errors
            &&& r.scopes == st.scopes
        }),
{
    let inner = SpecStmt::Block { statements: seq![read_var(name, id)] };
    let b = begin_scope(st);
    lemma_resolve_two(b, declare_nil(name), inner);
    lemma_declare_nil_fresh(b, name);
    let s1 = resolve_stmt(b, declare_nil(name));
    let b2 = begin_scope(s1);
    lemma_resolve_two(b2, read_var(name, id), read_var(name, id));
    lemma_read_bound(b2, name, id, 1);
    assert(end_scope(resolve_stmt(b2, read_var(name, id))).scopes =~= s1.scopes);
    assert(end_scope(resolve_stmt(s1, inner)).scopes =~= st.scopes);
}

/// In `{ var a; { var a; a; } }` the inner declaration shadows the outer one
/// without error, and the read is bound 0 scopes out, to the inner one;
/// nothing else is recorded or reported, and the scopes come back.
pub proof fn law_inner_declaration_shadows(st: RState, name: Token, id: nat)
    ensures
        ({
            let r = resolve_stmt(
                st,
                SpecStmt::Block {
                    statements: seq![
                        declare_nil(name),
                        SpecStmt::Block { statements: seq![declare_nil(name), read_var(name, id)] },
                    ],
                },
            );
            &&& r.locals == st.locals.push((id, 0))
            &&& r.errors == st.errors
            &&& r.scopes == st.scopes
        }),
{
    let inner = SpecStmt::Block { statements: seq![declare_nil(name), read_var(name, id)] };
    let b = begin_scope(st);
    lemma_resolve_two(b, declare_nil(name), inner);
    lemma_declare_nil_fresh(b, name);
    let s1 = resolve_stmt(b, declare_nil(name));
    let b2 = begin_scope(s1);
    lemma_resolve_two(b2, declare_nil(name), read_var(name, id));
    lemma_declare_nil_fresh(b2, name);
    let s2 = resolve_stmt(b2, declare_nil(name));
    lemma_read_bound(s2, name, id, 0);
    assert(end_scope(resolve_stmt(s2, read_var(name, id))).scopes =~= s1.scopes);
    assert(end_scope(resolve_stmt(s1, inner)).scopes =~= st.scopes);
}

// ------------------------------------------------- the rules, unfolded one step

pub proof fn lemma_unfold_resolve_expr(st: RState, e: SpecExpr)
    ensures
        resolve_expr(st, e) == ({
            match e {
                SpecExpr::Assign { name, value, id } => resolve_local(resolve_expr(st, *value), id, name),
                SpecExpr::Binary { left, right, .. } => resolve_expr(resolve_expr(st, *left), *right),
                SpecExpr::Call { callee, arguments, .. } => resolve_exprs(resolve_expr(st, *callee), arguments),
                SpecExpr::Get { object, .. } => resolve_expr(st, *object),
                SpecExpr::Grouping { expression } => resolve_expr(st, *expression),
                SpecExpr::Literal { .. } => st,
                SpecExpr::Logical { left, right, .. } => resolve_expr(resolve_expr(st, *left), *right),
                SpecExpr::SetProperty { object, value, .. } => resolve_expr(resolve_expr(st, *object), *value),
                SpecExpr::Super { keyword, id, .. } => resolve_local(st, id, keyword),
                SpecExpr::This { keyword, id } => if st.class == ClassType::Outside {
                    report(st, error_at(keyword, "Can't use 'this' outside a class."@))
                } else {
                    resolve_local(st, id, keyword)
                },
                SpecExpr::Unary { right, .. } => resolve_expr(st, *right),
                SpecExpr::Variable { name, id } => {
                    let st1 = if declared_not_defined(st, name.lexeme@) {
                        report(st, error_at(name, "Can't read local variable in its own initializer."@))
                    } else {
                        st
                    };
                    resolve_local(st1, id, name)
                },
            }
        }),
{
}

pub proof fn lemma_unfold_resolve_exprs(st: RState, es: Seq<SpecExpr>)
    ensures
        resolve_exprs(st, es) == ({
            if es.len() == 0 {
                st
            } else {
                resolve_expr(resolve_exprs(st, es.subrange(0, es.len() - 1)), es[es.len() - 1])
            }
        }),
{
}

pub proof fn lemma_unfold_declare_params(st: RState, ps: Seq<Token>)
    ensures
        declare_params(st, ps) == ({
            if ps.len() == 0 {
                st
            } else {
                let st1 = declare_params(st, ps.drop_last());
                define(declare(st1, ps.last()), ps.last())
            }
        }),
{
}

pub proof fn lemma_unfold_resolve_stmt(st: RState, s: SpecStmt)
    ensures
        resolve_stmt(st, s) == ({
            match s {
                SpecStmt::Block { statements } => end_scope(resolve_stmts(begin_scope(st), statements)),
                SpecStmt::Class { name, superclass, methods } => {
                    let st1 = define(declare(RState { class: ClassType::Class, ..st }, name), name);
                    let st2 = match superclass {
                        Some(sc) => match sc {
                            SpecExpr::Variable { name: sc_name, .. } => {
                                let st3 = if name.lexeme@ == sc_name.lexeme@ {
                                    report(st1, error_at(sc_name, "A class can't inherit from itself."@))
                                } else {
                                    st1
                                };
                                resolve_expr(st3, sc)
                            },
                            _ => st1,
                        },
                        None => st1,
                    };
                    let st4 = resolve_methods(bind(begin_scope(st2), "this"@, true), methods, name);
                    RState { class: st.class, ..end_scope(st4) }
                },
                SpecStmt::Expression { expression } => resolve_expr(st, expression),
                SpecStmt::Function { name, params, body } => resolve_function(
                    define(declare(st, name), name),
                    params,
                    body,
                    FunctionType::Function,
                ),
                SpecStmt::If { condition, then_branch, else_branch } => {
                    let st1 = resolve_stmt(resolve_expr(st, condition), *then_branch);
                    match else_branch {
                        Some(b) => resolve_stmt(st1, *b),
                        None => st1,
                    }
                },
                SpecStmt::Print { expression } => resolve_expr(st, expression),
                SpecStmt::Return { keyword, value } => {
                    let st1 = if st.function == FunctionType::Outside {
                        report(st, error_at(keyword, "Can't return from top-level code."@))
                    } else {
                        st
                    };
                    match value {
                        Some(v) => {
                            let st2 = if st1.function == FunctionType::Initializer {
                                report(st1, error_at(keyword, "Can't return value from an initializer"@))
                            } else {
                                st1
                            };
                            resolve_expr(st2, v)
                        },
                        None => st1,
                    }
                },
                SpecStmt::Var { name, initializer } => define(resolve_expr(declare(st, name), initializer), name),
                SpecStmt::While { condition, body } => resolve_stmt(resolve_expr(st, condition), *body),
            }
        }),
{
}

pub proof fn lemma_unfold_resolve_stmts(st: RState, ss: Seq<SpecStmt>)
    ensures
        resolve_stmts(st, ss) == ({
            if ss.len() == 0 {
                st
            } else {
                resolve_stmt(resolve_stmts(st, ss.subrange(0, ss.len() - 1)), ss[ss.len() - 1])
            }
        }),
{
}

pub proof fn lemma_unfold_resolve_methods(st: RState, ms: Seq<SpecStmt>, class_name: Token)
    ensures
        resolve_methods(st, ms, class_name) == ({
            if ms.len() == 0 {
                st
            } else {
                let st1 = resolve_methods(st, ms.subrange(0, ms.len() - 1), class_name);
                match ms[ms.len() - 1] {
                    SpecStmt::Function { name, params, body } => resolve_function(
                        st1,
                        params,
                        body,
                        if name.lexeme@ == "init"@ {
                            FunctionType::Initializer
                        } else {
                            FunctionType::Method
                        },
                    ),
                    _ => report(st1, error_at(class_name, "Methods need to be function statement."@)),
                }
            }
        }),
{
}

pub proof fn lemma_unfold_resolve_function(st: RState, params: Seq<Token>, body: Seq<SpecStmt>, kind: FunctionType)
    ensures
        resolve_function(st, params, body, kind) == ({
            let st1 = declare_params(begin_scope(RState { function: kind, ..st }), params);
            RState { function: st.function, ..end_scope(resolve_stmts(st1, body)) }
        }),
{
}

} // verus!
