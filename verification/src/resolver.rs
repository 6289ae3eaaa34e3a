use vstd::prelude::*;

use crate::expr::{expr_views, Expr};
use crate::resolution::{self, ClassType, FunctionType, RState, SpecResolveError};
use crate::bindings::Bindings;
use crate::stmt::{stmt_views, Stmt};
use crate::text::push_decimal;
use crate::token::Token;
use vstd::string::StringExecFns;

verus! {

/// A static error found by the resolver.
#[derive(Debug)]
pub struct ResolveError {
    line: Option<usize>,
    place: Option<String>,
    msg: String,
}

impl View for ResolveError {
    type V = SpecResolveError;

    closed spec fn view(&self) -> SpecResolveError {
        SpecResolveError {
            line: match self.line {
                Some(l) => Some(l as nat),
                None => None,
            },
            place: match self.place {
                Some(p) => Some(p@),
                None => None,
            },
            msg: self.msg@,
        }
    }
}

/// How an error found at a place in the source is shown:
/// `[line N] Error at PLACE: message`, with `unknown` for a missing line or
/// place. Static errors and run-time errors are both shown so.
pub open spec fn located_error_text(line: Option<nat>, place: Option<Seq<char>>, msg: Seq<char>) -> Seq<char> {
    "[line "@ + match line {
        Some(l) => crate::text::decimal(l),
        None => "unknown"@,
    } + "] Error at "@ + match place {
        Some(p) => p,
        None => "unknown"@,
    } + ": "@ + msg
}

/// How a static error is shown.
pub open spec fn resolve_error_text(e: SpecResolveError) -> Seq<char> {
    located_error_text(e.line, e.place, e.msg)
}

/// The text `[line N] Error at PLACE: message` of an error found at a place
/// in the source, with `unknown` for a missing line or place.
pub fn located_error(line: Option<usize>, place: &Option<String>, msg: &String) -> (s: String)
    ensures
        s@ == located_error_text(
            match line {
                Some(l) => Some(l as nat),
                None => None,
            },
            match place {
                Some(p) => Some(p@),
                None => None,
            },
            msg@,
        ),
{
    let mut s = String::from_str("[line ");
    match line {
        Some(l) => push_decimal(&mut s, l),
        None => s.append("unknown"),
    }
    s.append("] Error at ");
    match place {
        Some(p) => s.append(p.as_str()),
        None => s.append("unknown"),
    }
    s.append(": ");
    s.append(msg.as_str());
    s
}

impl ResolveError {
    /// The error as `[line N] Error at PLACE: message`.
    pub fn to_string(&self) -> (s: String)
        ensures
            s@ == resolve_error_text(self@),
    {
        located_error(self.line, &self.place, &self.msg)
    }
}

pub open spec fn resolve_errors_view(es: Seq<ResolveError>) -> Seq<SpecResolveError> {
    es.map_values(|e: ResolveError| e@)
}

pub open spec fn locals_view(ls: Seq<(usize, usize)>) -> Seq<(nat, nat)> {
    ls.map_values(|l: (usize, usize)| (l.0 as nat, l.1 as nat))
}

/// Every class declaration in `s` names its superclass, if it has one, by a
/// plain variable (as the parser builds it).
pub open spec fn superclasses_named(s: crate::stmt::SpecStmt) -> bool
    decreases s,
{
    match s {
        crate::stmt::SpecStmt::Block { statements } => forall|i: int|
            0 <= i < statements.len() ==> superclasses_named(#[trigger] statements[i]),
        crate::stmt::SpecStmt::Class { superclass, methods, .. } => {
            &&& (superclass matches Some(sc) ==> sc is Variable)
            &&& forall|i: int| 0 <= i < methods.len() ==> superclasses_named(#[trigger] methods[i])
        },
        crate::stmt::SpecStmt::Function { body, .. } => forall|i: int|
            0 <= i < body.len() ==> superclasses_named(#[trigger] body[i]),
        crate::stmt::SpecStmt::If { then_branch, else_branch, .. } => {
            &&& superclasses_named(*then_branch)
            &&& (else_branch matches Some(b) ==> superclasses_named(*b))
        },
        crate::stmt::SpecStmt::While { body, .. } => superclasses_named(*body),
        _ => true,
    }
}

/// Works out, for each variable occurrence, how many scopes out its binding
/// lives, and reports the static errors of a program.
pub struct Resolver {
    scopes: Vec<Bindings<bool>>,
    current_function: FunctionType,
    current_class: ClassType,
    errors: Vec<ResolveError>,
    locals: Vec<(usize, usize)>,
}

impl View for Resolver {
    type V = RState;

    closed spec fn view(&self) -> RState {
        RState {
            scopes: self.scopes@.map_values(|s: Bindings<bool>| s@),
            function: self.current_function,
            class: self.current_class,
            errors: resolve_errors_view(self.errors@),
            locals: locals_view(self.locals@),
        }
    }
}

proof fn lemma_scope_distance_found(scopes: Seq<vstd::map::Map<Seq<char>, bool>>, name: Seq<char>, k: int)
    requires
        0 <= k < scopes.len(),
        scopes[k].contains_key(name),
        forall|j: int| k < j < scopes.len() ==> !scopes[j].contains_key(name),
    ensures
        resolution::scope_distance(scopes, name) == Some((scopes.len() - 1 - k) as nat),
    decreases scopes.len(),
{
    if k < scopes.len() - 1 {
        lemma_scope_distance_found(scopes.drop_last(), name, k);
    }
}

proof fn lemma_scope_distance_none(scopes: Seq<vstd::map::Map<Seq<char>, bool>>, name: Seq<char>)
    requires
        forall|j: int| 0 <= j < scopes.len() ==> !scopes[j].contains_key(name),
    ensures
        resolution::scope_distance(scopes, name) is None,
    decreases scopes.len(),
{
    if scopes.len() > 0 {
        lemma_scope_distance_none(scopes.drop_last(), name);
    }
}

impl Resolver {
    pub closed spec fn wf(&self) -> bool {
        forall|i: int| 0 <= i < self.scopes@.len() ==> (#[trigger] self.scopes@[i]).wf()
    }

    /// A resolver at the global scope, outside any function or class.
    pub fn new() -> (r: Resolver)
        ensures
            r.wf(),
            r@ == resolution::initial_state(),
    {
        let r = Resolver {
            scopes: Vec::new(),
            current_function: FunctionType::Outside,
            current_class: ClassType::Outside,
            errors: Vec::new(),
            locals: Vec::new(),
        };
        assert(r@.scopes =~= Seq::<vstd::map::Map<Seq<char>, bool>>::empty());
        assert(r@.errors =~= Seq::<SpecResolveError>::empty());
        assert(r@.locals =~= Seq::<(nat, nat)>::empty());
        r
    }

    fn report(&mut self, token: &Token, msg: String)
        requires
            old(self).wf(),
        ensures
            final(self).wf(),
            final(self)@ == resolution::report(old(self)@, resolution::error_at(*token, msg@)),
    {
        let ghost before = self.errors@;
        self.errors.push(ResolveError { line: Some(token.line), place: Some(token.lexeme.clone()), msg });
        assert(resolve_errors_view(self.errors@) =~= resolve_errors_view(before).push(
            resolution::error_at(*token, msg@),
        ));
        assert(self@ =~= resolution::report(old(self)@, resolution::error_at(*token, msg@)));
    }

    fn begin_scope(&mut self)
        requires
            old(self).wf(),
        ensures
            final(self).wf(),
            final(self)@ == resolution::begin_scope(old(self)@),
    {
        self.scopes.push(Bindings::new());
        assert(self@.scopes =~= old(self)@.scopes.push(vstd::map::Map::empty()));
    }

    fn end_scope(&mut self)
        requires
            old(self).wf(),
        ensures
            final(self).wf(),
            final(self)@ == resolution::end_scope(old(self)@),
    {
        let _ = self.scopes.pop();
        assert(self@.scopes =~= if old(self)@.scopes.len() == 0 {
            old(self)@.scopes
        } else {
            old(self)@.scopes.drop_last()
        });
    }

    fn bind(&mut self, name: &Token, defined: bool)
        requires
            old(self).wf(),
        ensures
            final(self).wf(),
            final(self)@ == resolution::bind(old(self)@, name.lexeme@, defined),
    {
        let n = self.scopes.len();
        if n > 0 {
            let mut scope = self.scopes.pop().unwrap();
            assert(scope.wf());
            scope.insert(name.lexeme.clone(), defined);
            self.scopes.push(scope);
            assert(self@.scopes =~= old(self)@.scopes.update(
                old(self)@.scopes.len() - 1,
                old(self)@.scopes.last().insert(name.lexeme@, defined),
            ));
        }
    }

    fn declare(&mut self, name: &Token)
        requires
            old(self).wf(),
        ensures
            final(self).wf(),
            final(self)@ == resolution::declare(old(self)@, *name),
    {
        let n = self.scopes.len();
        if n > 0 {
            if self.scopes[n - 1].contains_key(&name.lexeme) {
                self.report(name, String::from_str("Already a variable with this name in this scope."));
            }
            self.bind(name, false);
        }
    }

    fn define(&mut self, name: &Token)
        requires
            old(self).wf(),
        ensures
            final(self).wf(),
            final(self)@ == resolution::define(old(self)@, *name),
    {
        self.bind(name, true);
    }

    fn resolve_local(&mut self, id: usize, name: &Token)
        requires
            old(self).wf(),
        ensures
            final(self).wf(),
            final(self)@ == resolution::resolve_local(old(self)@, id as nat, *name),
    {
        let ghost sv = self@.scopes;
        let n = self.scopes.len();
        let mut i = n;
        while i > 0
            invariant
                i <= n,
                n == self.scopes@.len(),
                *self == *old(self),
                self.wf(),
                sv == self@.scopes,
                forall|j: int| i <= j < n ==> !sv[j].contains_key(name.lexeme@),
            decreases i,
        {
            i = i - 1;
            if self.scopes[i].contains_key(&name.lexeme) {
                proof {
                    lemma_scope_distance_found(sv, name.lexeme@, i as int);
                }
                let ghost before = self.locals@;
                self.locals.push((id, n - 1 - i));
                assert(locals_view(self.locals@) =~= locals_view(before).push((id as nat, (n - 1 - i) as nat)));
                assert(self@ =~= resolution::resolve_local(old(self)@, id as nat, *name));
                return;
            }
        }
        proof {
            lemma_scope_distance_none(sv, name.lexeme@);
        }
    }
}


impl Resolver {
    fn bind_this(&mut self)
        requires
            old(self).wf(),
        ensures
            final(self).wf(),
            final(self)@ == resolution::bind(old(self)@, "this"@, true),
    {
        let n = self.scopes.len();
        if n > 0 {
            let mut scope = self.scopes.pop().unwrap();
            assert(scope.wf());
            scope.insert(String::from_str("this"), true);
            self.scopes.push(scope);
            assert(self@.scopes =~= old(self)@.scopes.update(
                old(self)@.scopes.len() - 1,
                old(self)@.scopes.last().insert("this"@, true),
            ));
        }
    }

    fn resolve_expr(&mut self, expr: &Expr)
        requires
            old(self).wf(),
        ensures
            final(self).wf(),
            final(self)@ == resolution::resolve_expr(old(self)@, expr@),
        decreases expr, 0int,
    {
        proof {
            resolution::lemma_unfold_resolve_expr(self@, expr@);
        }
        match expr {
            Expr::Assign { name, value, id } => {
                self.resolve_expr(value);
                self.resolve_local(*id, name);
            },
            Expr::Binary { left, right, .. } => {
                self.resolve_expr(left);
                self.resolve_expr(right);
            },
            Expr::Call { callee, arguments, .. } => {
                self.resolve_expr(callee);
                let ghost st1 = self@;
                let ghost args = expr_views(arguments@);
                proof {
                    crate::expr::lemma_expr_views(arguments@);
                    resolution::lemma_unfold_resolve_exprs(st1, args.subrange(0, 0));
                    assert(args.subrange(0, 0) =~= Seq::<crate::expr::SpecExpr>::empty());
                }
                let mut i: usize = 0;
                #[verifier::loop_isolation(false)]
                while i < arguments.len()
                    invariant
                        self.wf(),
                        i <= arguments@.len(),
                        args == expr_views(arguments@),
                        args.len() == arguments@.len(),
                        forall|k: int| 0 <= k < arguments@.len() ==> #[trigger] args[k] == arguments@[k]@,
                        self@ == resolution::resolve_exprs(st1, args.subrange(0, i as int)),
                    decreases arguments.len() - i,
                {
                    proof {
                        resolution::lemma_unfold_resolve_exprs(st1, args.subrange(0, i + 1));
                        assert(args.subrange(0, i + 1).subrange(0, i as int) =~= args.subrange(0, i as int));
                    }
                    self.resolve_expr(&arguments[i]);
                    i = i + 1;
                }
                assert(args.subrange(0, i as int) =~= args);
            },
            Expr::Get { object, .. } => {
                self.resolve_expr(object);
            },
            Expr::Grouping { expression } => {
                self.resolve_expr(expression);
            },
            Expr::Literal { .. } => {},
            Expr::Logical { left, right, .. } => {
                self.resolve_expr(left);
                self.resolve_expr(right);
            },
            Expr::SetProperty { object, value, .. } => {
                self.resolve_expr(object);
                self.resolve_expr(value);
            },
            Expr::Super { keyword, id, .. } => {
                self.resolve_local(*id, keyword);
            },
            Expr::This { keyword, id } => {
                if self.current_class == ClassType::Outside {
                    self.report(keyword, String::from_str("Can't use 'this' outside a class."));
                } else {
                    self.resolve_local(*id, keyword);
                }
            },
            Expr::Unary { right, .. } => {
                self.resolve_expr(right);
            },
            Expr::Variable { name, id } => {
                let n = self.scopes.len();
                if n > 0 {
                    assert(self.scopes@[n - 1].wf());
                    if let Some(defined) = self.scopes[n - 1].get(&name.lexeme) {
                        if !*defined {
                            self.report(name, String::from_str("Can't read local variable in its own initializer."));
                        }
                    }
                }
                self.resolve_local(*id, name);
            },
        }
    }

    fn resolve_stmts(&mut self, stmts: &Vec<Stmt>)
        requires
            old(self).wf(),
        ensures
            final(self).wf(),
            final(self)@ == resolution::resolve_stmts(old(self)@, stmt_views(stmts@)),
        decreases stmts, 1int,
    {
        let ghost st0 = self@;
        let ghost ss = stmt_views(stmts@);
        proof {
            crate::stmt::lemma_stmt_views(stmts@);
            resolution::lemma_unfold_resolve_stmts(st0, ss.subrange(0, 0));
            assert(ss.subrange(0, 0) =~= Seq::<crate::stmt::SpecStmt>::empty());
        }
        let mut i: usize = 0;
        while i < stmts.len()
            invariant
                self.wf(),
                i <= stmts@.len(),
                st0 == old(self)@,
                ss == stmt_views(stmts@),
                ss.len() == stmts@.len(),
                forall|k: int| 0 <= k < stmts@.len() ==> #[trigger] ss[k] == stmts@[k]@,
                self@ == resolution::resolve_stmts(st0, ss.subrange(0, i as int)),
            decreases stmts.len() - i,
        {
            proof {
                resolution::lemma_unfold_resolve_stmts(st0, ss.subrange(0, i + 1));
                assert(ss.subrange(0, i + 1).subrange(0, i as int) =~= ss.subrange(0, i as int));
            }
            self.resolve_stmt(&stmts[i]);
            i = i + 1;
        }
        assert(ss.subrange(0, i as int) =~= ss);
    }

    fn resolve_function(&mut self, params: &Vec<Token>, body: &Vec<Stmt>, kind: FunctionType)
        requires
            old(self).wf(),
        ensures
            final(self).wf(),
            final(self)@ == resolution::resolve_function(old(self)@, params@, stmt_views(body@), kind),
        decreases body, 2int,
    {
        proof {
            resolution::lemma_unfold_resolve_function(self@, params@, stmt_views(body@), kind);
        }
        let enclosing = self.current_function;
        self.current_function = kind;
        self.begin_scope();
        let ghost st1 = self@;
        proof {
            resolution::lemma_unfold_declare_params(st1, params@.subrange(0, 0));
            assert(params@.subrange(0, 0) =~= Seq::<Token>::empty());
        }
        let mut i: usize = 0;
        while i < params.len()
            invariant
                self.wf(),
                i <= params@.len(),
                self@ == resolution::declare_params(st1, params@.subrange(0, i as int)),
            decreases params.len() - i,
        {
            proof {
                resolution::lemma_unfold_declare_params(st1, params@.subrange(0, i + 1));
                assert(params@.subrange(0, i + 1).drop_last() =~= params@.subrange(0, i as int));
            }
            self.declare(&params[i]);
            self.define(&params[i]);
            i = i + 1;
        }
        assert(params@.subrange(0, i as int) =~= params@);
        self.resolve_stmts(body);
        self.end_scope();
        self.current_function = enclosing;
    }

    fn resolve_methods(&mut self, methods: &Vec<Stmt>, class_name: &Token)
        requires
            old(self).wf(),
        ensures
            final(self).wf(),
            final(self)@ == resolution::resolve_methods(old(self)@, stmt_views(methods@), *class_name),
        decreases methods, 1int,
    {
        let ghost st0 = self@;
        let ghost ms = stmt_views(methods@);
        proof {
            crate::stmt::lemma_stmt_views(methods@);
            resolution::lemma_unfold_resolve_methods(st0, ms.subrange(0, 0), *class_name);
            assert(ms.subrange(0, 0) =~= Seq::<crate::stmt::SpecStmt>::empty());
        }
        let mut i: usize = 0;
        while i < methods.len()
            invariant
                self.wf(),
                i <= methods@.len(),
                st0 == old(self)@,
                ms == stmt_views(methods@),
                ms.len() == methods@.len(),
                forall|k: int| 0 <= k < methods@.len() ==> #[trigger] ms[k] == methods@[k]@,
                self@ == resolution::resolve_methods(st0, ms.subrange(0, i as int), *class_name),
            decreases methods.len() - i,
        {
            proof {
                resolution::lemma_unfold_resolve_methods(st0, ms.subrange(0, i + 1), *class_name);
                assert(ms.subrange(0, i + 1).subrange(0, i as int) =~= ms.subrange(0, i as int));
            }
            match &methods[i] {
                Stmt::Function { name, params, body } => {
                    let kind = if name.lexeme == String::from_str("init") {
                        FunctionType::Initializer
                    } else {
                        FunctionType::Method
                    };
                    self.resolve_function(params, body, kind);
                },
                _ => {
                    self.report(class_name, String::from_str("Methods need to be function statement."));
                },
            }
            i = i + 1;
        }
        assert(ms.subrange(0, i as int) =~= ms);
    }

    fn resolve_stmt(&mut self, stmt: &Stmt)
        requires
            old(self).wf(),
        ensures
            final(self).wf(),
            final(self)@ == resolution::resolve_stmt(old(self)@, stmt@),
        decreases stmt, 0int,
    {
        proof {
            resolution::lemma_unfold_resolve_stmt(self@, stmt@);
        }
        match stmt {
            Stmt::Block { statements } => {
                self.begin_scope();
                self.resolve_stmts(statements);
                self.end_scope();
            },
            Stmt::Class { name, superclass, methods } => {
                let enclosing_class = self.current_class;
                self.current_class = ClassType::Class;
                self.declare(name);
                self.define(name);
                match superclass {
                    Some(sc) => match sc {
                        Expr::Variable { name: sc_name, .. } => {
                            if name.lexeme == sc_name.lexeme {
                                self.report(sc_name, String::from_str("A class can't inherit from itself."));
                            }
                            self.resolve_expr(sc);
                        },
                        _ => {},
                    },
                    None => {},
                }
                self.begin_scope();
                self.bind_this();
                self.resolve_methods(methods, name);
                self.end_scope();
                self.current_class = enclosing_class;
            },
            Stmt::Expression { expression } => {
                self.resolve_expr(expression);
            },
            Stmt::Function { name, params, body } => {
                self.declare(name);
                self.define(name);
                self.resolve_function(params, body, FunctionType::Function);
            },
            Stmt::If { condition, then_branch, else_branch } => {
                self.resolve_expr(condition);
                self.resolve_stmt(then_branch);
                match else_branch {
                    Some(b) => self.resolve_stmt(b),
                    None => {},
                }
            },
            Stmt::Print { expression } => {
                self.resolve_expr(expression);
            },
            Stmt::Return { keyword, value } => {
                if self.current_function == FunctionType::Outside {
                    self.report(keyword, String::from_str("Can't return from top-level code."));
                }
                match value {
                    Some(v) => {
                        if self.current_function == FunctionType::Initializer {
                            self.report(keyword, String::from_str("Can't return value from an initializer"));
                        }
                        self.resolve_expr(v);
                    },
                    None => {},
                }
            },
            Stmt::Var { name, initializer } => {
                self.declare(name);
                self.resolve_expr(initializer);
                self.define(name);
            },
            Stmt::While { condition, body } => {
                self.resolve_expr(condition);
                self.resolve_stmt(body);
            },
        }
    }

    /// Resolves the program `stmts`: when it has no static error, the
    /// resolutions of its local variable occurrences, in the order they were
    /// made (an expression's id and how many scopes out its binding lives);
    /// else its static errors, in the order they were found.
    pub fn resolve(self, stmts: &[Stmt]) -> (r: Result<Vec<(usize, usize)>, Vec<ResolveError>>)
        requires
            self.wf(),
            forall|i: int| 0 <= i < stmts@.len() ==> superclasses_named(#[trigger] stmts@[i]@),
        ensures
            ({
                let st = resolution::resolve_stmts(self@, stmt_views(stmts@));
                &&& st.errors.len() == 0 ==> (r matches Ok(ls) && locals_view(ls@) == st.locals)
                &&& st.errors.len() != 0 ==> (r matches Err(es) && resolve_errors_view(es@) == st.errors)
            }),
    {
        let mut this = self;
        let ghost st0 = this@;
        let ghost ss = stmt_views(stmts@);
        proof {
            crate::stmt::lemma_stmt_views(stmts@);
            resolution::lemma_unfold_resolve_stmts(st0, ss.subrange(0, 0));
            assert(ss.subrange(0, 0) =~= Seq::<crate::stmt::SpecStmt>::empty());
        }
        let mut i: usize = 0;
        while i < stmts.len()
            invariant
                this.wf(),
                i <= stmts@.len(),
                ss == stmt_views(stmts@),
                ss.len() == stmts@.len(),
                forall|k: int| 0 <= k < stmts@.len() ==> #[trigger] ss[k] == stmts@[k]@,
                this@ == resolution::resolve_stmts(st0, ss.subrange(0, i as int)),
            decreases stmts.len() - i,
        {
            proof {
                resolution::lemma_unfold_resolve_stmts(st0, ss.subrange(0, i + 1));
                assert(ss.subrange(0, i + 1).subrange(0, i as int) =~= ss.subrange(0, i as int));
            }
            this.resolve_stmt(&stmts[i]);
            i = i + 1;
        }
        assert(ss.subrange(0, i as int) =~= ss);
        assert(this@.errors.len() == this.errors@.len());
        if this.errors.len() == 0 {
            Ok(this.locals)
        } else {
            Err(this.errors)
        }
    }
}
} // verus!
