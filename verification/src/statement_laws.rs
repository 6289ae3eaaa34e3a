//! How the statement grammar parses the basic statement forms, stated over
//! token kinds.

use vstd::prelude::*;

use crate::expr::SpecExpr;
use crate::expression_laws::law_name_alone;
use crate::grammar::{
    declaration, lemma_unfold_block, lemma_unfold_block_statements, lemma_unfold_declaration,
    lemma_unfold_expression_statement, lemma_unfold_if_statement, lemma_unfold_print_statement,
    lemma_unfold_statement, lemma_unfold_var_declaration, lemma_unfold_while_statement, ok, statement,
    SpecParseError,
};
use crate::stmt::SpecStmt;
use crate::token::{LiteralValue, Token};
use crate::token_type::TokenType;

verus! {

/// The variable named by the token at `q`.
pub open spec fn name_at(ts: Seq<Token>, q: int) -> SpecExpr {
    SpecExpr::Variable { name: ts[q], id: q as nat }
}

/// `print a;` is a print statement of the variable `a`.
pub proof fn law_print_statement(ts: Seq<Token>, p: int, errs: Seq<SpecParseError>)
    requires
        0 <= p,
        p + 3 < ts.len(),
        ts[p].token_type == TokenType::Print,
        ts[p + 1].token_type == TokenType::Identifier,
        ts[p + 2].token_type == TokenType::Semicolon,
    ensures
        statement(ts, p, errs) == ok(p + 3, errs, SpecStmt::Print { expression: name_at(ts, p + 1) }),
        declaration(ts, p, errs) == ok(p + 3, errs, SpecStmt::Print { expression: name_at(ts, p + 1) }),
{
    law_name_alone(ts, p + 1, errs);
    lemma_unfold_print_statement(ts, p + 1, errs);
    lemma_unfold_statement(ts, p, errs);
    lemma_unfold_declaration(ts, p, errs);
}

/// `a;` is an expression statement of the variable `a`.
pub proof fn law_expression_statement(ts: Seq<Token>, p: int, errs: Seq<SpecParseError>)
    requires
        0 <= p,
        p + 2 < ts.len(),
        ts[p].token_type == TokenType::Identifier,
        ts[p + 1].token_type == TokenType::Semicolon,
    ensures
        declaration(ts, p, errs) == ok(p + 2, errs, SpecStmt::Expression { expression: name_at(ts, p) }),
{
    law_name_alone(ts, p, errs);
    lemma_unfold_expression_statement(ts, p, errs);
    lemma_unfold_statement(ts, p, errs);
    lemma_unfold_declaration(ts, p, errs);
}

/// `var a = b;` declares `a` with the value of the variable `b`, and
/// `var a;` declares `a` with `nil`.
pub proof fn law_var_declaration(ts: Seq<Token>, p: int, errs: Seq<SpecParseError>)
    requires
        0 <= p,
        p + 3 < ts.len(),
        ts[p].token_type == TokenType::Var,
        ts[p + 1].token_type == TokenType::Identifier,
    ensures
        ts[p + 2].token_type == TokenType::Semicolon ==> declaration(ts, p, errs) == ok(
            p + 3,
            errs,
            SpecStmt::Var { name: ts[p + 1], initializer: SpecExpr::Literal { value: LiteralValue::Nil } },
        ),
        p + 5 < ts.len() && ts[p + 2].token_type == TokenType::Equal && ts[p + 3].token_type
            == TokenType::Identifier && ts[p + 4].token_type == TokenType::Semicolon ==> declaration(ts, p, errs)
            == ok(p + 5, errs, SpecStmt::Var { name: ts[p + 1], initializer: name_at(ts, p + 3) }),
{
    if p + 5 < ts.len() && ts[p + 3].token_type == TokenType::Identifier && ts[p + 4].token_type
        == TokenType::Semicolon {
        law_name_alone(ts, p + 3, errs);
    }
    lemma_unfold_var_declaration(ts, p + 1, errs);
    lemma_unfold_declaration(ts, p, errs);
}

/// `{ print a; }` is a block holding that one print statement.
pub proof fn law_block_statement(ts: Seq<Token>, p: int, errs: Seq<SpecParseError>)
    requires
        0 <= p,
        p + 5 < ts.len(),
        ts[p].token_type == TokenType::LeftBrace,
        ts[p + 1].token_type == TokenType::Print,
        ts[p + 2].token_type == TokenType::Identifier,
        ts[p + 3].token_type == TokenType::Semicolon,
        ts[p + 4].token_type == TokenType::RightBrace,
    ensures
        declaration(ts, p, errs) == ok(
            p + 5,
            errs,
            SpecStmt::Block { statements: seq![SpecStmt::Print { expression: name_at(ts, p + 2) }] },
        ),
{
    let pr = SpecStmt::Print { expression: name_at(ts, p + 2) };
    law_print_statement(ts, p + 1, errs);
    lemma_unfold_block_statements(ts, p + 1, errs, Seq::empty());
    lemma_unfold_block_statements(ts, p + 4, errs, Seq::empty().push(pr));
    assert(Seq::<SpecStmt>::empty().push(pr) =~= seq![pr]);
    lemma_unfold_block(ts, p + 1, errs);
    lemma_unfold_statement(ts, p, errs);
    lemma_unfold_declaration(ts, p, errs);
}

/// `while (a) print b;` loops the print statement while `a` holds.
pub proof fn law_while_statement(ts: Seq<Token>, p: int, errs: Seq<SpecParseError>)
    requires
        0 <= p,
        p + 7 < ts.len(),
        ts[p].token_type == TokenType::While,
        ts[p + 1].token_type == TokenType::LeftParen,
        ts[p + 2].token_type == TokenType::Identifier,
        ts[p + 3].token_type == TokenType::RightParen,
        ts[p + 4].token_type == TokenType::Print,
        ts[p + 5].token_type == TokenType::Identifier,
        ts[p + 6].token_type == TokenType::Semicolon,
    ensures
        declaration(ts, p, errs) == ok(
            p + 7,
            errs,
            SpecStmt::While {
                condition: name_at(ts, p + 2),
                body: Box::new(SpecStmt::Print { expression: name_at(ts, p + 5) }),
            },
        ),
{
    law_name_alone(ts, p + 2, errs);
    law_print_statement(ts, p + 4, errs);
    lemma_unfold_while_statement(ts, p + 1, errs);
    lemma_unfold_statement(ts, p, errs);
    lemma_unfold_declaration(ts, p, errs);
}

/// `if (a) print b;` not followed by `else` runs the print statement when
/// `a` holds, and has no else branch.
pub proof fn law_if_statement(ts: Seq<Token>, p: int, errs: Seq<SpecParseError>)
    requires
        0 <= p,
        p + 7 < ts.len(),
        ts[p].token_type == TokenType::If,
        ts[p + 1].token_type == TokenType::LeftParen,
        ts[p + 2].token_type == TokenType::Identifier,
        ts[p + 3].token_type == TokenType::RightParen,
        ts[p + 4].token_type == TokenType::Print,
        ts[p + 5].token_type == TokenType::Identifier,
        ts[p + 6].token_type == TokenType::Semicolon,
        ts[p + 7].token_type != TokenType::Else,
    ensures
        declaration(ts, p, errs) == ok(
            p + 7,
            errs,
            SpecStmt::If {
                condition: name_at(ts, p + 2),
                then_branch: Box::new(SpecStmt::Print { expression: name_at(ts, p + 5) }),
                else_branch: None,
            },
        ),
{
    law_name_alone(ts, p + 2, errs);
    law_print_statement(ts, p + 4, errs);
    lemma_unfold_if_statement(ts, p + 1, errs);
    lemma_unfold_statement(ts, p, errs);
    lemma_unfold_declaration(ts, p, errs);
}

} // verus!
