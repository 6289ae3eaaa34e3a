//! What the parser yields is what the resolver accepts: in every parsed
//! program, the superclass of each class declaration is a plain variable.

use vstd::prelude::*;

use crate::expr::SpecExpr;
use crate::grammar::{
    at_end, block, block_statements, check, class_declaration, consume, declaration, desugar_for,
    expression, expression_statement, fail, for_initializer, for_statement, function, if_statement,
    lemma_unfold_block, lemma_unfold_block_statements, lemma_unfold_class_declaration,
    lemma_unfold_declaration, lemma_unfold_expression_statement, lemma_unfold_for_initializer,
    lemma_unfold_for_statement, lemma_unfold_function, lemma_unfold_if_statement,
    lemma_unfold_methods, lemma_unfold_print_statement, lemma_unfold_program,
    lemma_unfold_return_statement, lemma_unfold_statement, lemma_unfold_var_declaration,
    lemma_unfold_while_statement, methods, mono, ok, optional_expression, parameters, print_statement,
    program, return_statement, statement, synchronize, var_declaration, while_statement, Parsed,
    SpecParseError,
};
use crate::resolution::{branches_undeclaring, declared_name};
use crate::resolver::superclasses_named;
use crate::stmt::SpecStmt;
use crate::token::Token;
use crate::token_type::TokenType;

verus! {

/// A parse outcome that, when it succeeds, meets the resolver's demand.
pub open spec fn parsed_named(r: Parsed<SpecStmt>) -> bool {
    r.result matches Ok(s) ==> superclasses_named(s)
}

/// A parse outcome that, when it succeeds, is a statement that declares
/// nothing and is in the shape the parser gives.
pub open spec fn parsed_plain(r: Parsed<SpecStmt>) -> bool {
    r.result matches Ok(s) ==> declared_name(s) is None && branches_undeclaring(s)
}

/// Statements that all meet the resolver's demand.
pub open spec fn all_named(ss: Seq<SpecStmt>) -> bool {
    forall|i: int| 0 <= i < ss.len() ==> superclasses_named(#[trigger] ss[i])
}

/// Statements that are all in the shape the parser gives.
pub open spec fn all_shaped(ss: Seq<SpecStmt>) -> bool {
    forall|i: int| 0 <= i < ss.len() ==> branches_undeclaring(#[trigger] ss[i])
}

proof fn lemma_expression_statement_named(ts: Seq<Token>, p: int, errs: Seq<SpecParseError>)
    ensures
        parsed_named(expression_statement(ts, p, errs)),
        parsed_plain(expression_statement(ts, p, errs)),
{
    lemma_unfold_expression_statement(ts, p, errs);
}

proof fn lemma_print_statement_named(ts: Seq<Token>, p: int, errs: Seq<SpecParseError>)
    ensures
        parsed_named(print_statement(ts, p, errs)),
        parsed_plain(print_statement(ts, p, errs)),
{
    lemma_unfold_print_statement(ts, p, errs);
}

proof fn lemma_return_statement_named(ts: Seq<Token>, p: int, errs: Seq<SpecParseError>)
    ensures
        parsed_named(return_statement(ts, p, errs)),
        parsed_plain(return_statement(ts, p, errs)),
{
    lemma_unfold_return_statement(ts, p, errs);
}

proof fn lemma_var_declaration_named(ts: Seq<Token>, p: int, errs: Seq<SpecParseError>)
    ensures
        parsed_named(var_declaration(ts, p, errs)),
        var_declaration(ts, p, errs).result matches Ok(st) ==> branches_undeclaring(st),
{
    lemma_unfold_var_declaration(ts, p, errs);
}

proof fn lemma_for_initializer_named(ts: Seq<Token>, p: int, errs: Seq<SpecParseError>)
    ensures
        for_initializer(ts, p, errs).result matches Ok(Some(s)) ==> superclasses_named(s),
{
    lemma_unfold_for_initializer(ts, p, errs);
    lemma_var_declaration_named(ts, p + 1, errs);
    lemma_expression_statement_named(ts, p, errs);
}

proof fn lemma_for_statement_named(ts: Seq<Token>, p: int, errs: Seq<SpecParseError>)
    ensures
        parsed_named(for_statement(ts, p, errs)),
        parsed_plain(for_statement(ts, p, errs)),
    decreases ts.len() - p, 43int,
{
    lemma_unfold_for_statement(ts, p, errs);
    let c0 = consume(ts, p, errs, TokenType::LeftParen, "Expect '(' after 'for'."@);
    if c0.result is Ok {
        let i = mono(ts, p + 1, for_initializer(ts, p + 1, errs));
        lemma_for_initializer_named(ts, p + 1, errs);
        if let Ok(init) = i.result {
            let c = mono(ts, i.pos, optional_expression(ts, i.pos, i.errors, TokenType::Semicolon));
            if let Ok(cond) = c.result {
                let s1 = consume(ts, c.pos, c.errors, TokenType::Semicolon, "Expect ';' after loop condition."@);
                if s1.result is Ok {
                    let n = mono(ts, s1.pos, optional_expression(ts, s1.pos, s1.errors, TokenType::RightParen));
                    if let Ok(incr) = n.result {
                        let s2 = consume(ts, n.pos, n.errors, TokenType::RightParen, "Expect ')' after for clauses."@);
                        if s2.result is Ok {
                            lemma_statement_named(ts, s2.pos, s2.errors);
                            let b = statement(ts, s2.pos, s2.errors);
                            if let Ok(body) = b.result {
                                let d = desugar_for(init, cond, incr, body);
                                reveal_with_fuel(superclasses_named, 4);
                                if let Some(inc) = incr {
                                    assert(seq![body, SpecStmt::Expression { expression: inc }][0] == body);
                                }
                                assert(superclasses_named(d));
                                reveal_with_fuel(branches_undeclaring, 2);
                                assert(branches_undeclaring(d));
                            }
                        }
                    }
                }
            }
        }
    }
}

proof fn lemma_if_statement_named(ts: Seq<Token>, p: int, errs: Seq<SpecParseError>)
    ensures
        parsed_named(if_statement(ts, p, errs)),
        parsed_plain(if_statement(ts, p, errs)),
    decreases ts.len() - p, 43int,
{
    lemma_unfold_if_statement(ts, p, errs);
    let c0 = consume(ts, p, errs, TokenType::LeftParen, "Expect '(' after 'if'."@);
    if c0.result is Ok {
        let c = mono(ts, p + 1, expression(ts, p + 1, errs));
        if c.result is Ok {
            let c1 = consume(ts, c.pos, c.errors, TokenType::RightParen, "Expect ')' after if condition."@);
            if c1.result is Ok {
                lemma_statement_named(ts, c1.pos, c1.errors);
                let t = mono(ts, c1.pos, statement(ts, c1.pos, c1.errors));
                if t.result is Ok && check(ts, t.pos, TokenType::Else) {
                    lemma_statement_named(ts, t.pos + 1, t.errors);
                }
            }
        }
    }
}

proof fn lemma_while_statement_named(ts: Seq<Token>, p: int, errs: Seq<SpecParseError>)
    ensures
        parsed_named(while_statement(ts, p, errs)),
        parsed_plain(while_statement(ts, p, errs)),
    decreases ts.len() - p, 43int,
{
    lemma_unfold_while_statement(ts, p, errs);
    let c0 = consume(ts, p, errs, TokenType::LeftParen, "Expect '(' after 'while'."@);
    if c0.result is Ok {
        let c = mono(ts, p + 1, expression(ts, p + 1, errs));
        if c.result is Ok {
            let c1 = consume(ts, c.pos, c.errors, TokenType::RightParen, "Expect ')' after while condition."@);
            if c1.result is Ok {
                lemma_statement_named(ts, c1.pos, c1.errors);
            }
        }
    }
}

proof fn lemma_block_statements_named(ts: Seq<Token>, p: int, errs: Seq<SpecParseError>, acc: Seq<SpecStmt>)
    requires
        all_named(acc),
    ensures
        block_statements(ts, p, errs, acc).result matches Ok(ss) ==> all_named(ss),
    decreases ts.len() - p, 54int,
{
    lemma_unfold_block_statements(ts, p, errs, acc);
    if !check(ts, p, TokenType::RightBrace) && !at_end(ts, p) {
        lemma_declaration_named(ts, p, errs);
        let r = mono(ts, p, declaration(ts, p, errs));
        if let Ok(s) = r.result {
            if p < r.pos {
                assert(all_named(acc.push(s))) by {
                    assert forall|i: int| 0 <= i < acc.push(s).len() implies superclasses_named(
                        #[trigger] acc.push(s)[i],
                    ) by {
                        if i < acc.len() {
                            assert(acc.push(s)[i] == acc[i]);
                        }
                    }
                }
                lemma_block_statements_named(ts, r.pos, r.errors, acc.push(s));
            }
        }
    }
}

proof fn lemma_block_named(ts: Seq<Token>, p: int, errs: Seq<SpecParseError>)
    ensures
        parsed_named(block(ts, p, errs)),
        parsed_plain(block(ts, p, errs)),
    decreases ts.len() - p, 55int,
{
    lemma_unfold_block(ts, p, errs);
    lemma_block_statements_named(ts, p, errs, Seq::empty());
}

proof fn lemma_statement_named(ts: Seq<Token>, p: int, errs: Seq<SpecParseError>)
    ensures
        parsed_named(statement(ts, p, errs)),
        parsed_plain(statement(ts, p, errs)),
    decreases ts.len() - p, 50int,
{
    lemma_unfold_statement(ts, p, errs);
    if check(ts, p, TokenType::For) {
        lemma_for_statement_named(ts, p + 1, errs);
    } else if check(ts, p, TokenType::If) {
        lemma_if_statement_named(ts, p + 1, errs);
    } else if check(ts, p, TokenType::Print) {
        lemma_print_statement_named(ts, p + 1, errs);
    } else if check(ts, p, TokenType::Return) {
        lemma_return_statement_named(ts, p + 1, errs);
    } else if check(ts, p, TokenType::While) {
        lemma_while_statement_named(ts, p + 1, errs);
    } else if check(ts, p, TokenType::LeftBrace) {
        lemma_block_named(ts, p + 1, errs);
    } else {
        lemma_expression_statement_named(ts, p, errs);
    }
}

proof fn lemma_function_named(ts: Seq<Token>, p: int, errs: Seq<SpecParseError>, kind: Seq<char>)
    ensures
        parsed_named(function(ts, p, errs, kind)),
        function(ts, p, errs, kind).result matches Ok(st) ==> branches_undeclaring(st),
    decreases ts.len() - p, 44int,
{
    lemma_unfold_function(ts, p, errs, kind);
    let n = consume(ts, p, errs, TokenType::Identifier, "Expect "@ + kind + " name."@);
    if n.result is Ok {
        let c0 = consume(ts, p + 1, errs, TokenType::LeftParen, "Expect '(' after "@ + kind + " name."@);
        if c0.result is Ok {
            let ps = if !check(ts, p + 2, TokenType::RightParen) {
                mono(ts, p + 2, parameters(ts, p + 2, errs, Seq::empty()))
            } else {
                ok(p + 2, errs, Seq::empty())
            };
            if ps.result is Ok {
                let c1 = consume(ts, ps.pos, ps.errors, TokenType::RightParen, "Expect ')' after parameters."@);
                if c1.result is Ok {
                    let c2 = consume(ts, c1.pos, c1.errors, TokenType::LeftBrace, "Expect '{' before "@ + kind + " body."@);
                    if c2.result is Ok {
                        lemma_block_statements_named(ts, c2.pos, c2.errors, Seq::empty());
                    }
                }
            }
        }
    }
}

proof fn lemma_methods_named(ts: Seq<Token>, p: int, errs: Seq<SpecParseError>, acc: Seq<SpecStmt>)
    requires
        all_named(acc),
    ensures
        methods(ts, p, errs, acc).result matches Ok(ms) ==> all_named(ms),
    decreases ts.len() - p, 46int,
{
    lemma_unfold_methods(ts, p, errs, acc);
    if !check(ts, p, TokenType::RightBrace) && !at_end(ts, p) {
        lemma_function_named(ts, p, errs, "method"@);
        let r = mono(ts, p, function(ts, p, errs, "method"@));
        if let Ok(m) = r.result {
            if p < r.pos {
                assert(all_named(acc.push(m))) by {
                    assert forall|i: int| 0 <= i < acc.push(m).len() implies superclasses_named(
                        #[trigger] acc.push(m)[i],
                    ) by {
                        if i < acc.len() {
                            assert(acc.push(m)[i] == acc[i]);
                        }
                    }
                }
                lemma_methods_named(ts, r.pos, r.errors, acc.push(m));
            }
        }
    }
}

proof fn lemma_class_declaration_named(ts: Seq<Token>, p: int, errs: Seq<SpecParseError>)
    ensures
        parsed_named(class_declaration(ts, p, errs)),
        class_declaration(ts, p, errs).result matches Ok(st) ==> branches_undeclaring(st),
    decreases ts.len() - p, 47int,
{
    lemma_unfold_class_declaration(ts, p, errs);
    let n = consume(ts, p, errs, TokenType::Identifier, "Expect class name"@);
    if n.result is Ok {
        let sc = if check(ts, p + 1, TokenType::Less) {
            let s = consume(ts, p + 2, errs, TokenType::Identifier, "Expect superclass name"@);
            match s.result {
                Err(e) => fail(s.pos, s.errors, e),
                Ok(sname) => ok(p + 3, errs, Some(SpecExpr::Variable { name: sname, id: (p + 2) as nat })),
            }
        } else {
            ok(p + 1, errs, None)
        };
        if sc.result is Ok {
            let c0 = consume(ts, sc.pos, errs, TokenType::LeftBrace, "Expect '{' before class body."@);
            if c0.result is Ok {
                lemma_methods_named(ts, c0.pos, errs, Seq::empty());
            }
        }
    }
}

proof fn lemma_declaration_named(ts: Seq<Token>, p: int, errs: Seq<SpecParseError>)
    ensures
        parsed_named(declaration(ts, p, errs)),
        declaration(ts, p, errs).result matches Ok(st) ==> branches_undeclaring(st),
    decreases ts.len() - p, 51int,
{
    lemma_unfold_declaration(ts, p, errs);
    if check(ts, p, TokenType::Class) {
        lemma_class_declaration_named(ts, p + 1, errs);
    } else if check(ts, p, TokenType::Fun) {
        lemma_function_named(ts, p + 1, errs, "function"@);
    } else if check(ts, p, TokenType::Var) {
        lemma_var_declaration_named(ts, p + 1, errs);
    } else {
        lemma_statement_named(ts, p, errs);
    }
}

/// Every program the parser yields can be handed to the resolver: each
/// class declaration in it, however deeply nested, names its superclass by
/// a plain variable. And no branch of an `if` and no body of a `while` in
/// its statements is a declaration, so resolving each statement changes
/// the innermost scope only by the name it declares.
pub proof fn law_parsed_programs_resolve(ts: Seq<Token>, p: int)
    ensures
        all_named(program(ts, p).0),
        all_shaped(program(ts, p).0),
    decreases ts.len() - p,
{
    lemma_unfold_program(ts, p);
    if !(at_end(ts, p) || !(0 <= p < ts.len())) {
        let r = declaration(ts, p, Seq::empty());
        lemma_declaration_named(ts, p, Seq::empty());
        match r.result {
            Ok(s) => {
                if p < r.pos <= ts.len() {
                    law_parsed_programs_resolve(ts, r.pos);
                    let rest = program(ts, r.pos);
                    assert forall|i: int| 0 <= i < (seq![s] + rest.0).len() implies superclasses_named(
                        #[trigger] (seq![s] + rest.0)[i],
                    ) by {
                        if i > 0 {
                            assert((seq![s] + rest.0)[i] == rest.0[i - 1]);
                        }
                    }
                    assert forall|i: int| 0 <= i < (seq![s] + rest.0).len() implies branches_undeclaring(
                        #[trigger] (seq![s] + rest.0)[i],
                    ) by {
                        if i > 0 {
                            assert((seq![s] + rest.0)[i] == rest.0[i - 1]);
                        }
                    }
                } else {
                    assert(seq![s][0] == s);
                }
            },
            Err(e) => {
                let q = synchronize(ts, r.pos);
                if p < q <= ts.len() {
                    law_parsed_programs_resolve(ts, q);
                }
            },
        }
    }
}

} // verus!
