//! How the expression grammar parses comparisons, stated over token kinds.

use vstd::prelude::*;

use crate::expr::SpecExpr;
use crate::grammar::{
    and_expr, comparison, equality, expression, factor, lemma_unfold_and_expr, lemma_unfold_and_rest,
    lemma_unfold_assignment, lemma_unfold_call, lemma_unfold_call_rest, lemma_unfold_comparison,
    lemma_unfold_comparison_rest, lemma_unfold_equality, lemma_unfold_equality_rest, lemma_unfold_expression,
    lemma_unfold_factor, lemma_unfold_factor_rest, lemma_unfold_or_expr, lemma_unfold_or_rest,
    lemma_unfold_primary, lemma_unfold_term, lemma_unfold_term_rest, lemma_unfold_unary, ok, or_expr, term,
    unary, SpecParseError,
};
use crate::token::Token;
use crate::token_type::TokenType;

verus! {

/// The four comparison operators: `>`, `>=`, `<`, `<=`.
pub open spec fn comparison_operator(tt: TokenType) -> bool {
    tt == TokenType::Greater || tt == TokenType::GreaterEqual || tt == TokenType::Less || tt
        == TokenType::LessEqual
}

/// A name followed by a token that neither calls it, reads a property of
/// it, nor multiplies, divides, adds or subtracts, is a term on its own.
proof fn lemma_name_is_term(ts: Seq<Token>, p: int, errs: Seq<SpecParseError>)
    requires
        0 <= p,
        p + 1 < ts.len(),
        ts[p].token_type == TokenType::Identifier,
        ts[p + 1].token_type != TokenType::LeftParen,
        ts[p + 1].token_type != TokenType::Dot,
        ts[p + 1].token_type != TokenType::Star,
        ts[p + 1].token_type != TokenType::Slash,
        ts[p + 1].token_type != TokenType::Plus,
        ts[p + 1].token_type != TokenType::Minus,
    ensures
        term(ts, p, errs) == ok(p + 1, errs, SpecExpr::Variable { name: ts[p], id: p as nat }),
{
    let v = SpecExpr::Variable { name: ts[p], id: p as nat };
    lemma_unfold_primary(ts, p, errs);
    lemma_unfold_call(ts, p, errs);
    lemma_unfold_call_rest(ts, p + 1, errs, v);
    lemma_unfold_unary(ts, p, errs);
    lemma_unfold_factor(ts, p, errs);
    lemma_unfold_factor_rest(ts, p + 1, errs, v);
    lemma_unfold_term(ts, p, errs);
    lemma_unfold_term_rest(ts, p + 1, errs, v);
}

/// `a OP b` for names `a` and `b` and a comparison operator `OP`, followed by
/// `;`, is one comparison: the binary expression of `a` and `b` with `OP`.
pub proof fn law_comparison_of_names(ts: Seq<Token>, p: int, errs: Seq<SpecParseError>)
    requires
        0 <= p,
        p + 3 < ts.len(),
        ts[p].token_type == TokenType::Identifier,
        comparison_operator(ts[p + 1].token_type),
        ts[p + 2].token_type == TokenType::Identifier,
        ts[p + 3].token_type == TokenType::Semicolon,
    ensures
        comparison(ts, p, errs) == ok(
            p + 3,
            errs,
            SpecExpr::Binary {
                left: Box::new(SpecExpr::Variable { name: ts[p], id: p as nat }),
                operator: ts[p + 1],
                right: Box::new(SpecExpr::Variable { name: ts[p + 2], id: (p + 2) as nat }),
            },
        ),
{
    let a = SpecExpr::Variable { name: ts[p], id: p as nat };
    let b = SpecExpr::Variable { name: ts[p + 2], id: (p + 2) as nat };
    let bin = SpecExpr::Binary { left: Box::new(a), operator: ts[p + 1], right: Box::new(b) };
    lemma_name_is_term(ts, p, errs);
    lemma_name_is_term(ts, p + 2, errs);
    lemma_unfold_comparison(ts, p, errs);
    lemma_unfold_comparison_rest(ts, p + 1, errs, a);
    lemma_unfold_comparison_rest(ts, p + 3, errs, bin);
}

/// The same comparison is what the whole expression `a OP b` (before `;`)
/// parses to: no other operator takes it apart.
pub proof fn law_expression_comparison_of_names(ts: Seq<Token>, p: int, errs: Seq<SpecParseError>)
    requires
        0 <= p,
        p + 3 < ts.len(),
        ts[p].token_type == TokenType::Identifier,
        comparison_operator(ts[p + 1].token_type),
        ts[p + 2].token_type == TokenType::Identifier,
        ts[p + 3].token_type == TokenType::Semicolon,
    ensures
        expression(ts, p, errs) == ok(
            p + 3,
            errs,
            SpecExpr::Binary {
                left: Box::new(SpecExpr::Variable { name: ts[p], id: p as nat }),
                operator: ts[p + 1],
                right: Box::new(SpecExpr::Variable { name: ts[p + 2], id: (p + 2) as nat }),
            },
        ),
{
    let bin = SpecExpr::Binary {
        left: Box::new(SpecExpr::Variable { name: ts[p], id: p as nat }),
        operator: ts[p + 1],
        right: Box::new(SpecExpr::Variable { name: ts[p + 2], id: (p + 2) as nat }),
    };
    law_comparison_of_names(ts, p, errs);
    lemma_unfold_equality(ts, p, errs);
    lemma_unfold_equality_rest(ts, p + 3, errs, bin);
    lemma_unfold_and_expr(ts, p, errs);
    lemma_unfold_and_rest(ts, p + 3, errs, bin);
    lemma_unfold_or_expr(ts, p, errs);
    lemma_unfold_or_rest(ts, p + 3, errs, bin);
    lemma_unfold_assignment(ts, p, errs);
    lemma_unfold_expression(ts, p, errs);
}


/// The binary operators of expressions: arithmetic, comparison, equality
/// and the logical `and` and `or`.
pub open spec fn binary_operator(tt: TokenType) -> bool {
    ||| tt == TokenType::Star
    ||| tt == TokenType::Slash
    ||| tt == TokenType::Plus
    ||| tt == TokenType::Minus
    ||| comparison_operator(tt)
    ||| tt == TokenType::EqualEqual
    ||| tt == TokenType::BangEqual
    ||| tt == TokenType::And
    ||| tt == TokenType::Or
}

/// A name is, at each level of the expression grammar, a whole expression
/// of that level when the token after it is no operator of that level or of
/// a tighter one.
proof fn lemma_name_levels(ts: Seq<Token>, q: int, errs: Seq<SpecParseError>)
    requires
        0 <= q,
        q + 1 < ts.len(),
        ts[q].token_type == TokenType::Identifier,
    ensures
        ({
            let v = SpecExpr::Variable { name: ts[q], id: q as nat };
            let t = ts[q + 1].token_type;
            let r = ok(q + 1, errs, v);
            &&& t != TokenType::LeftParen && t != TokenType::Dot ==> unary(ts, q, errs) == r
            &&& t != TokenType::LeftParen && t != TokenType::Dot && t != TokenType::Star && t != TokenType::Slash
                ==> factor(ts, q, errs) == r
            &&& t != TokenType::LeftParen && t != TokenType::Dot && t != TokenType::Star && t != TokenType::Slash
                && t != TokenType::Plus && t != TokenType::Minus ==> term(ts, q, errs) == r
            &&& t != TokenType::LeftParen && t != TokenType::Dot && t != TokenType::Star && t != TokenType::Slash
                && t != TokenType::Plus && t != TokenType::Minus && !comparison_operator(t) ==> comparison(ts, q, errs)
                == r
            &&& t != TokenType::LeftParen && t != TokenType::Dot && t != TokenType::Star && t != TokenType::Slash
                && t != TokenType::Plus && t != TokenType::Minus && !comparison_operator(t) && t
                != TokenType::EqualEqual && t != TokenType::BangEqual ==> equality(ts, q, errs) == r
            &&& t != TokenType::LeftParen && t != TokenType::Dot && t != TokenType::Star && t != TokenType::Slash
                && t != TokenType::Plus && t != TokenType::Minus && !comparison_operator(t) && t
                != TokenType::EqualEqual && t != TokenType::BangEqual && t != TokenType::And ==> and_expr(ts, q, errs)
                == r
            &&& t != TokenType::LeftParen && t != TokenType::Dot && !binary_operator(t) ==> or_expr(ts, q, errs) == r
        }),
{
    let v = SpecExpr::Variable { name: ts[q], id: q as nat };
    lemma_unfold_primary(ts, q, errs);
    lemma_unfold_call(ts, q, errs);
    lemma_unfold_call_rest(ts, q + 1, errs, v);
    lemma_unfold_unary(ts, q, errs);
    lemma_unfold_factor(ts, q, errs);
    lemma_unfold_factor_rest(ts, q + 1, errs, v);
    lemma_unfold_term(ts, q, errs);
    lemma_unfold_term_rest(ts, q + 1, errs, v);
    lemma_unfold_comparison(ts, q, errs);
    lemma_unfold_comparison_rest(ts, q + 1, errs, v);
    lemma_unfold_equality(ts, q, errs);
    lemma_unfold_equality_rest(ts, q + 1, errs, v);
    lemma_unfold_and_expr(ts, q, errs);
    lemma_unfold_and_rest(ts, q + 1, errs, v);
    lemma_unfold_or_expr(ts, q, errs);
    lemma_unfold_or_rest(ts, q + 1, errs, v);
}

/// The expression `a OP b` for names `a`, `b` and a binary operator `OP`,
/// followed by `;`, parses as that operator applied to `a` and `b`: a
/// logical expression for `and` and `or`, a binary one for the others.
#[verifier::spinoff_prover]
#[verifier::rlimit(50)]
pub proof fn law_binary_of_names(ts: Seq<Token>, p: int, errs: Seq<SpecParseError>)
    requires
        0 <= p,
        p + 3 < ts.len(),
        ts[p].token_type == TokenType::Identifier,
        binary_operator(ts[p + 1].token_type),
        ts[p + 2].token_type == TokenType::Identifier,
        ts[p + 3].token_type == TokenType::Semicolon,
    ensures
        ({
            let a = Box::new(SpecExpr::Variable { name: ts[p], id: p as nat });
            let b = Box::new(SpecExpr::Variable { name: ts[p + 2], id: (p + 2) as nat });
            let op = ts[p + 1];
            expression(ts, p, errs) == ok(
                p + 3,
                errs,
                if op.token_type == TokenType::And || op.token_type == TokenType::Or {
                    SpecExpr::Logical { left: a, operator: op, right: b }
                } else {
                    SpecExpr::Binary { left: a, operator: op, right: b }
                },
            )
        }),
{
    let a = SpecExpr::Variable { name: ts[p], id: p as nat };
    let op = ts[p + 1];
    let bx = Box::new(SpecExpr::Variable { name: ts[p + 2], id: (p + 2) as nat });
    let e = if op.token_type == TokenType::And || op.token_type == TokenType::Or {
        SpecExpr::Logical { left: Box::new(a), operator: op, right: bx }
    } else {
        SpecExpr::Binary { left: Box::new(a), operator: op, right: bx }
    };
    lemma_name_levels(ts, p, errs);
    lemma_name_levels(ts, p + 2, errs);
    lemma_unfold_factor(ts, p, errs);
    lemma_unfold_factor_rest(ts, p + 1, errs, a);
    lemma_unfold_factor_rest(ts, p + 3, errs, e);
    lemma_unfold_term(ts, p, errs);
    lemma_unfold_term_rest(ts, p + 1, errs, a);
    lemma_unfold_term_rest(ts, p + 3, errs, e);
    lemma_unfold_comparison(ts, p, errs);
    lemma_unfold_comparison_rest(ts, p + 1, errs, a);
    lemma_unfold_comparison_rest(ts, p + 3, errs, e);
    lemma_unfold_equality(ts, p, errs);
    lemma_unfold_equality_rest(ts, p + 1, errs, a);
    lemma_unfold_equality_rest(ts, p + 3, errs, e);
    lemma_unfold_and_expr(ts, p, errs);
    lemma_unfold_and_rest(ts, p + 1, errs, a);
    lemma_unfold_and_rest(ts, p + 3, errs, e);
    lemma_unfold_or_expr(ts, p, errs);
    lemma_unfold_or_rest(ts, p + 1, errs, a);
    lemma_unfold_or_rest(ts, p + 3, errs, e);
    lemma_unfold_assignment(ts, p, errs);
    lemma_unfold_expression(ts, p, errs);
}


/// `OP a` for a name `a` and a prefix operator `OP` (`!` or `-`), followed
/// by `;`, parses as that operator applied to `a`.
pub proof fn law_unary_of_name(ts: Seq<Token>, p: int, errs: Seq<SpecParseError>)
    requires
        0 <= p,
        p + 2 < ts.len(),
        ts[p].token_type == TokenType::Bang || ts[p].token_type == TokenType::Minus,
        ts[p + 1].token_type == TokenType::Identifier,
        ts[p + 2].token_type == TokenType::Semicolon,
    ensures
        expression(ts, p, errs) == ok(
            p + 2,
            errs,
            SpecExpr::Unary {
                operator: ts[p],
                right: Box::new(SpecExpr::Variable { name: ts[p + 1], id: (p + 1) as nat }),
            },
        ),
{
    let u = SpecExpr::Unary {
        operator: ts[p],
        right: Box::new(SpecExpr::Variable { name: ts[p + 1], id: (p + 1) as nat }),
    };
    lemma_name_levels(ts, p + 1, errs);
    lemma_unfold_unary(ts, p, errs);
    lemma_unfold_factor(ts, p, errs);
    lemma_unfold_factor_rest(ts, p + 2, errs, u);
    lemma_unfold_term(ts, p, errs);
    lemma_unfold_term_rest(ts, p + 2, errs, u);
    lemma_unfold_comparison(ts, p, errs);
    lemma_unfold_comparison_rest(ts, p + 2, errs, u);
    lemma_unfold_equality(ts, p, errs);
    lemma_unfold_equality_rest(ts, p + 2, errs, u);
    lemma_unfold_and_expr(ts, p, errs);
    lemma_unfold_and_rest(ts, p + 2, errs, u);
    lemma_unfold_or_expr(ts, p, errs);
    lemma_unfold_or_rest(ts, p + 2, errs, u);
    lemma_unfold_assignment(ts, p, errs);
    lemma_unfold_expression(ts, p, errs);
}

/// `a = b` for names `a` and `b`, followed by `;`, parses as the assignment
/// of `b` to `a`, which names the variable at `a`'s position.
pub proof fn law_assignment_of_names(ts: Seq<Token>, p: int, errs: Seq<SpecParseError>)
    requires
        0 <= p,
        p + 3 < ts.len(),
        ts[p].token_type == TokenType::Identifier,
        ts[p + 1].token_type == TokenType::Equal,
        ts[p + 2].token_type == TokenType::Identifier,
        ts[p + 3].token_type == TokenType::Semicolon,
    ensures
        expression(ts, p, errs) == ok(
            p + 3,
            errs,
            SpecExpr::Assign {
                name: ts[p],
                value: Box::new(SpecExpr::Variable { name: ts[p + 2], id: (p + 2) as nat }),
                id: p as nat,
            },
        ),
{
    lemma_name_levels(ts, p, errs);
    lemma_name_levels(ts, p + 2, errs);
    lemma_unfold_assignment(ts, p + 2, errs);
    lemma_unfold_assignment(ts, p, errs);
    lemma_unfold_expression(ts, p, errs);
}


/// A name followed by `;` or `)` is a whole expression on its own.
pub proof fn law_name_alone(ts: Seq<Token>, q: int, errs: Seq<SpecParseError>)
    requires
        0 <= q,
        q + 1 < ts.len(),
        ts[q].token_type == TokenType::Identifier,
        ts[q + 1].token_type == TokenType::Semicolon || ts[q + 1].token_type == TokenType::RightParen,
    ensures
        expression(ts, q, errs) == ok(q + 1, errs, SpecExpr::Variable { name: ts[q], id: q as nat }),
{
    lemma_name_levels(ts, q, errs);
    lemma_unfold_assignment(ts, q, errs);
    lemma_unfold_expression(ts, q, errs);
}

} // verus!
