use vstd::prelude::*;

use crate::expr::{Expr, SpecExpr};
use crate::token::Token;

verus! {

/// A statement of the Lox language.
#[allow(inconsistent_fields)]
#[derive(Debug)]
pub enum Stmt {
    Block { statements: Vec<Stmt> },
    Class { name: Token, superclass: Option<Expr>, methods: Vec<Stmt> },
    Expression { expression: Expr },
    Function { name: Token, params: Vec<Token>, body: Vec<Stmt> },
    If { condition: Expr, then_branch: Box<Stmt>, else_branch: Option<Box<Stmt>> },
    Print { expression: Expr },
    Return { keyword: Token, value: Option<Expr> },
    Var { name: Token, initializer: Expr },
    While { condition: Expr, body: Box<Stmt> },
}

/// The mathematical content of a statement.
#[allow(inconsistent_fields)]
pub enum SpecStmt {
    Block { statements: Seq<SpecStmt> },
    Class { name: Token, superclass: Option<SpecExpr>, methods: Seq<SpecStmt> },
    Expression { expression: SpecExpr },
    Function { name: Token, params: Seq<Token>, body: Seq<SpecStmt> },
    If { condition: SpecExpr, then_branch: Box<SpecStmt>, else_branch: Option<Box<SpecStmt>> },
    Print { expression: SpecExpr },
    Return { keyword: Token, value: Option<SpecExpr> },
    Var { name: Token, initializer: SpecExpr },
    While { condition: SpecExpr, body: Box<SpecStmt> },
}

pub open spec fn opt_expr_view(e: Option<Expr>) -> Option<SpecExpr> {
    match e {
        Some(x) => Some(x@),
        None => None,
    }
}

/// The views of a list of statements.
pub open spec fn stmt_views(ss: Seq<Stmt>) -> Seq<SpecStmt>
    decreases ss,
{
    if ss.len() == 0 {
        Seq::empty()
    } else {
        stmt_views(ss.subrange(0, ss.len() - 1)).push(ss[ss.len() - 1].view_stmt())
    }
}

impl Stmt {
    pub open spec fn view_stmt(&self) -> SpecStmt
        decreases self,
    {
        match self {
            Stmt::Block { statements } => SpecStmt::Block { statements: stmt_views(statements@) },
            Stmt::Class { name, superclass, methods } => SpecStmt::Class {
                name: *name,
                superclass: opt_expr_view(*superclass),
                methods: stmt_views(methods@),
            },
            Stmt::Expression { expression } => SpecStmt::Expression { expression: expression@ },
            Stmt::Function { name, params, body } => SpecStmt::Function {
                name: *name,
                params: params@,
                body: stmt_views(body@),
            },
            Stmt::If { condition, then_branch, else_branch } => SpecStmt::If {
                condition: condition@,
                then_branch: Box::new(then_branch.view_stmt()),
                else_branch: match else_branch {
                    Some(b) => Some(Box::new(b.view_stmt())),
                    None => None,
                },
            },
            Stmt::Print { expression } => SpecStmt::Print { expression: expression@ },
            Stmt::Return { keyword, value } => SpecStmt::Return { keyword: *keyword, value: opt_expr_view(*value) },
            Stmt::Var { name, initializer } => SpecStmt::Var { name: *name, initializer: initializer@ },
            Stmt::While { condition, body } => SpecStmt::While {
                condition: condition@,
                body: Box::new(body.view_stmt()),
            },
        }
    }
}

impl View for Stmt {
    type V = SpecStmt;

    open spec fn view(&self) -> SpecStmt {
        self.view_stmt()
    }
}

/// The views of a list have its length and its elements' views.
pub proof fn lemma_stmt_views(ss: Seq<Stmt>)
    ensures
        stmt_views(ss).len() == ss.len(),
        forall|i: int| 0 <= i < ss.len() ==> #[trigger] stmt_views(ss)[i] == ss[i]@,
    decreases ss.len(),
{
    if ss.len() > 0 {
        lemma_stmt_views(ss.subrange(0, ss.len() - 1));
    }
}

/// Viewing a list after a push pushes the view.
pub proof fn lemma_stmt_views_push(ss: Seq<Stmt>, s: Stmt)
    ensures
        stmt_views(ss.push(s)) == stmt_views(ss).push(s@),
{
    assert(ss.push(s).subrange(0, ss.len() as int) =~= ss);
}

} // verus!
