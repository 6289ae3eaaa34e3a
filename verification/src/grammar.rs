//! The syntactic grammar of Lox, stated as a recursive-descent parse over a
//! token sequence. Each rule takes the token sequence, the position to parse
//! from and the errors reported so far (those that do not stop the parse),
//! and says where parsing ends, which errors have been reported by then, and
//! what was parsed or the error that stopped the parse.

use vstd::prelude::*;

use crate::expr::SpecExpr;
use crate::stmt::SpecStmt;
use crate::token::{LiteralValue, Token};
use crate::token_type::TokenType;

verus! {

/// A syntax error: the token it was found at and what was expected.
pub struct SpecParseError {
    pub token: Token,
    pub msg: Seq<char>,
}

/// The outcome of parsing with one grammar rule.
pub struct Parsed<T> {
    pub pos: int,
    pub errors: Seq<SpecParseError>,
    pub result: Result<T, SpecParseError>,
}

/// A token sequence the parser can work on: it ends with the end-of-input
/// token, and every number and string token carries its literal value.
pub open spec fn tokens_wf(ts: Seq<Token>) -> bool {
    &&& ts.len() > 0
    &&& ts.last().token_type == TokenType::Eof
    &&& forall|i: int|
        0 <= i < ts.len() && (#[trigger] ts[i].token_type == TokenType::Number || ts[i].token_type
            == TokenType::String) ==> ts[i].literal is Some
}

/// The kind of the token at `p`; the end-of-input kind past the last token.
pub open spec fn peek_type(ts: Seq<Token>, p: int) -> TokenType {
    if 0 <= p < ts.len() - 1 {
        ts[p].token_type
    } else {
        TokenType::Eof
    }
}

pub open spec fn at_end(ts: Seq<Token>, p: int) -> bool {
    peek_type(ts, p) == TokenType::Eof
}

/// Whether the token at `p` is of kind `tt` (never true at the end of input).
pub open spec fn check(ts: Seq<Token>, p: int, tt: TokenType) -> bool {
    !at_end(ts, p) && peek_type(ts, p) == tt
}

pub open spec fn ok<T>(pos: int, errors: Seq<SpecParseError>, v: T) -> Parsed<T> {
    Parsed { pos, errors, result: Ok(v) }
}

pub open spec fn fail<T>(pos: int, errors: Seq<SpecParseError>, e: SpecParseError) -> Parsed<T> {
    Parsed { pos, errors, result: Err(e) }
}

pub open spec fn error_at(ts: Seq<Token>, p: int, msg: Seq<char>) -> SpecParseError {
    SpecParseError { token: ts[p], msg }
}

/// Takes a token of kind `tt`, or stops with `msg`.
pub open spec fn consume(
    ts: Seq<Token>,
    p: int,
    errs: Seq<SpecParseError>,
    tt: TokenType,
    msg: Seq<char>,
) -> Parsed<Token> {
    if check(ts, p, tt) {
        ok(p + 1, errs, ts[p])
    } else {
        fail(p, errs, error_at(ts, p, msg))
    }
}

/// A rule's outcome, known to end no earlier than `p` and inside the tokens.
/// (Every rule does; this form lets the rules' termination be seen.)
pub open spec fn mono<T>(ts: Seq<Token>, p: int, r: Parsed<T>) -> Parsed<T> {
    if p <= r.pos < ts.len() {
        r
    } else {
        fail(p, r.errors, error_at(ts, p, Seq::empty()))
    }
}

// ----------------------------------------------------------------- expressions

pub closed spec fn expression(ts: Seq<Token>, p: int, errs: Seq<SpecParseError>) -> Parsed<SpecExpr>
    decreases ts.len() - p, 32int,
{
    assignment(ts, p, errs)
}

pub closed spec fn assignment(ts: Seq<Token>, p: int, errs: Seq<SpecParseError>) -> Parsed<SpecExpr>
    decreases ts.len() - p, 31int,
{
    let r = mono(ts, p, or_expr(ts, p, errs));
    match r.result {
        Err(e) => fail(r.pos, r.errors, e),
        Ok(target) => if check(ts, r.pos, TokenType::Equal) {
            let equals = ts[r.pos];
            let v = assignment(ts, r.pos + 1, r.errors);
            match v.result {
                Err(e) => fail(v.pos, v.errors, e),
                Ok(value) => match target {
                    SpecExpr::Get { object, name } => ok(
                        v.pos,
                        v.errors,
                        SpecExpr::SetProperty { object, name, value: Box::new(value) },
                    ),
                    SpecExpr::Variable { name, id } => ok(
                        v.pos,
                        v.errors,
                        SpecExpr::Assign { name, value: Box::new(value), id },
                    ),
                    _ => ok(
                        v.pos,
                        v.errors.push(SpecParseError { token: equals, msg: "Invalid assignment target."@ }),
                        target,
                    ),
                },
            }
        } else {
            ok(r.pos, r.errors, target)
        },
    }
}

pub closed spec fn or_expr(ts: Seq<Token>, p: int, errs: Seq<SpecParseError>) -> Parsed<SpecExpr>
    decreases ts.len() - p, 30int,
{
    let r = mono(ts, p, and_expr(ts, p, errs));
    match r.result {
        Err(e) => fail(r.pos, r.errors, e),
        Ok(e) => or_rest(ts, r.pos, r.errors, e),
    }
}

pub closed spec fn or_rest(ts: Seq<Token>, p: int, errs: Seq<SpecParseError>, left: SpecExpr) -> Parsed<SpecExpr>
    decreases ts.len() - p, 29int,
{
    if check(ts, p, TokenType::Or) {
        let r = mono(ts, p + 1, and_expr(ts, p + 1, errs));
        match r.result {
            Err(e) => fail(r.pos, r.errors, e),
            Ok(right) => or_rest(
                ts,
                r.pos,
                r.errors,
                SpecExpr::Logical { left: Box::new(left), operator: ts[p], right: Box::new(right) },
            ),
        }
    } else {
        ok(p, errs, left)
    }
}

pub closed spec fn and_expr(ts: Seq<Token>, p: int, errs: Seq<SpecParseError>) -> Parsed<SpecExpr>
    decreases ts.len() - p, 28int,
{
    let r = mono(ts, p, equality(ts, p, errs));
    match r.result {
        Err(e) => fail(r.pos, r.errors, e),
        Ok(e) => and_rest(ts, r.pos, r.errors, e),
    }
}

pub closed spec fn and_rest(ts: Seq<Token>, p: int, errs: Seq<SpecParseError>, left: SpecExpr) -> Parsed<SpecExpr>
    decreases ts.len() - p, 27int,
{
    if check(ts, p, TokenType::And) {
        let r = mono(ts, p + 1, equality(ts, p + 1, errs));
        match r.result {
            Err(e) => fail(r.pos, r.errors, e),
            Ok(right) => and_rest(
                ts,
                r.pos,
                r.errors,
                SpecExpr::Logical { left: Box::new(left), operator: ts[p], right: Box::new(right) },
            ),
        }
    } else {
        ok(p, errs, left)
    }
}

pub closed spec fn equality(ts: Seq<Token>, p: int, errs: Seq<SpecParseError>) -> Parsed<SpecExpr>
    decreases ts.len() - p, 26int,
{
    let r = mono(ts, p, comparison(ts, p, errs));
    match r.result {
        Err(e) => fail(r.pos, r.errors, e),
        Ok(e) => equality_rest(ts, r.pos, r.errors, e),
    }
}

pub closed spec fn equality_rest(ts: Seq<Token>, p: int, errs: Seq<SpecParseError>, left: SpecExpr) -> Parsed<SpecExpr>
    decreases ts.len() - p, 25int,
{
    if check(ts, p, TokenType::BangEqual) || check(ts, p, TokenType::EqualEqual) {
        let r = mono(ts, p + 1, comparison(ts, p + 1, errs));
        match r.result {
            Err(e) => fail(r.pos, r.errors, e),
            Ok(right) => equality_rest(
                ts,
                r.pos,
                r.errors,
                SpecExpr::Binary { left: Box::new(left), operator: ts[p], right: Box::new(right) },
            ),
        }
    } else {
        ok(p, errs, left)
    }
}

pub closed spec fn comparison(ts: Seq<Token>, p: int, errs: Seq<SpecParseError>) -> Parsed<SpecExpr>
    decreases ts.len() - p, 24int,
{
    let r = mono(ts, p, term(ts, p, errs));
    match r.result {
        Err(e) => fail(r.pos, r.errors, e),
        Ok(e) => comparison_rest(ts, r.pos, r.errors, e),
    }
}

pub open spec fn is_comparison_op(ts: Seq<Token>, p: int) -> bool {
    check(ts, p, TokenType::Greater) || check(ts, p, TokenType::GreaterEqual) || check(ts, p, TokenType::Less)
        || check(ts, p, TokenType::LessEqual)
}

pub closed spec fn comparison_rest(ts: Seq<Token>, p: int, errs: Seq<SpecParseError>, left: SpecExpr) -> Parsed<SpecExpr>
    decreases ts.len() - p, 23int,
{
    if is_comparison_op(ts, p) {
        let r = mono(ts, p + 1, term(ts, p + 1, errs));
        match r.result {
            Err(e) => fail(r.pos, r.errors, e),
            Ok(right) => comparison_rest(
                ts,
                r.pos,
                r.errors,
                SpecExpr::Binary { left: Box::new(left), operator: ts[p], right: Box::new(right) },
            ),
        }
    } else {
        ok(p, errs, left)
    }
}

pub closed spec fn term(ts: Seq<Token>, p: int, errs: Seq<SpecParseError>) -> Parsed<SpecExpr>
    decreases ts.len() - p, 22int,
{
    let r = mono(ts, p, factor(ts, p, errs));
    match r.result {
        Err(e) => fail(r.pos, r.errors, e),
        Ok(e) => term_rest(ts, r.pos, r.errors, e),
    }
}

pub closed spec fn term_rest(ts: Seq<Token>, p: int, errs: Seq<SpecParseError>, left: SpecExpr) -> Parsed<SpecExpr>
    decreases ts.len() - p, 21int,
{
    if check(ts, p, TokenType::Plus) || check(ts, p, TokenType::Minus) {
        let r = mono(ts, p + 1, factor(ts, p + 1, errs));
        match r.result {
            Err(e) => fail(r.pos, r.errors, e),
            Ok(right) => term_rest(
                ts,
                r.pos,
                r.errors,
                SpecExpr::Binary { left: Box::new(left), operator: ts[p], right: Box::new(right) },
            ),
        }
    } else {
        ok(p, errs, left)
    }
}

pub closed spec fn factor(ts: Seq<Token>, p: int, errs: Seq<SpecParseError>) -> Parsed<SpecExpr>
    decreases ts.len() - p, 20int,
{
    let r = mono(ts, p, unary(ts, p, errs));
    match r.result {
        Err(e) => fail(r.pos, r.errors, e),
        Ok(e) => factor_rest(ts, r.pos, r.errors, e),
    }
}

pub closed spec fn factor_rest(ts: Seq<Token>, p: int, errs: Seq<SpecParseError>, left: SpecExpr) -> Parsed<SpecExpr>
    decreases ts.len() - p, 19int,
{
    if check(ts, p, TokenType::Star) || check(ts, p, TokenType::Slash) {
        let r = mono(ts, p + 1, unary(ts, p + 1, errs));
        match r.result {
            Err(e) => fail(r.pos, r.errors, e),
            Ok(right) => factor_rest(
                ts,
                r.pos,
                r.errors,
                SpecExpr::Binary { left: Box::new(left), operator: ts[p], right: Box::new(right) },
            ),
        }
    } else {
        ok(p, errs, left)
    }
}

pub closed spec fn unary(ts: Seq<Token>, p: int, errs: Seq<SpecParseError>) -> Parsed<SpecExpr>
    decreases ts.len() - p, 18int,
{
    if check(ts, p, TokenType::Bang) || check(ts, p, TokenType::Minus) {
        let r = unary(ts, p + 1, errs);
        match r.result {
            Err(e) => fail(r.pos, r.errors, e),
            Ok(right) => ok(r.pos, r.errors, SpecExpr::Unary { operator: ts[p], right: Box::new(right) }),
        }
    } else {
        call(ts, p, errs)
    }
}

pub closed spec fn call(ts: Seq<Token>, p: int, errs: Seq<SpecParseError>) -> Parsed<SpecExpr>
    decreases ts.len() - p, 17int,
{
    let r = mono(ts, p, primary(ts, p, errs));
    match r.result {
        Err(e) => fail(r.pos, r.errors, e),
        Ok(e) => call_rest(ts, r.pos, r.errors, e),
    }
}

pub closed spec fn call_rest(ts: Seq<Token>, p: int, errs: Seq<SpecParseError>, callee: SpecExpr) -> Parsed<SpecExpr>
    decreases ts.len() - p, 16int,
{
    if check(ts, p, TokenType::LeftParen) {
        let r = mono(ts, p + 1, finish_call(ts, p + 1, errs, callee));
        match r.result {
            Err(e) => fail(r.pos, r.errors, e),
            Ok(e) => call_rest(ts, r.pos, r.errors, e),
        }
    } else if check(ts, p, TokenType::Dot) {
        let c = consume(ts, p + 1, errs, TokenType::Identifier, "Expect property name after '.'."@);
        match c.result {
            Err(e) => fail(c.pos, c.errors, e),
            Ok(name) => call_rest(ts, p + 2, errs, SpecExpr::Get { object: Box::new(callee), name }),
        }
    } else {
        ok(p, errs, callee)
    }
}

pub closed spec fn finish_call(ts: Seq<Token>, p: int, errs: Seq<SpecParseError>, callee: SpecExpr) -> Parsed<SpecExpr>
    decreases ts.len() - p, 34int,
{
    let r = if !check(ts, p, TokenType::RightParen) {
        mono(ts, p, arguments(ts, p, errs, Seq::empty()))
    } else {
        ok(p, errs, Seq::empty())
    };
    match r.result {
        Err(e) => fail(r.pos, r.errors, e),
        Ok(args) => {
            let c = consume(ts, r.pos, r.errors, TokenType::RightParen, "Expect ')' after arguments."@);
            match c.result {
                Err(e) => fail(c.pos, c.errors, e),
                Ok(paren) => ok(c.pos, c.errors, SpecExpr::Call { callee: Box::new(callee), paren, arguments: args }),
            }
        },
    }
}

/// The comma-separated arguments of a call, after `args`.
pub closed spec fn arguments(ts: Seq<Token>, p: int, errs: Seq<SpecParseError>, args: Seq<SpecExpr>) -> Parsed<Seq<SpecExpr>>
    decreases ts.len() - p, 33int,
{
    let errs1 = if args.len() >= 255 {
        errs.push(error_at(ts, p, "Can't have more than 255 arguments."@))
    } else {
        errs
    };
    let r = mono(ts, p, expression(ts, p, errs1));
    match r.result {
        Err(e) => fail(r.pos, r.errors, e),
        Ok(e) => if check(ts, r.pos, TokenType::Comma) {
            arguments(ts, r.pos + 1, r.errors, args.push(e))
        } else {
            ok(r.pos, r.errors, args.push(e))
        },
    }
}

pub closed spec fn primary(ts: Seq<Token>, p: int, errs: Seq<SpecParseError>) -> Parsed<SpecExpr>
    decreases ts.len() - p, 15int,
{
    let tt = peek_type(ts, p);
    if tt == TokenType::False {
        ok(p + 1, errs, SpecExpr::Literal { value: LiteralValue::Bool(false) })
    } else if tt == TokenType::True {
        ok(p + 1, errs, SpecExpr::Literal { value: LiteralValue::Bool(true) })
    } else if tt == TokenType::Nil {
        ok(p + 1, errs, SpecExpr::Literal { value: LiteralValue::Nil })
    } else if tt == TokenType::Number || tt == TokenType::String {
        ok(p + 1, errs, SpecExpr::Literal { value: ts[p].literal->Some_0 })
    } else if tt == TokenType::Super {
        let c = consume(ts, p + 1, errs, TokenType::Dot, "Expect '.' after 'super'."@);
        match c.result {
            Err(e) => fail(c.pos, c.errors, e),
            Ok(_) => {
                let m = consume(ts, p + 2, errs, TokenType::Identifier, "Expect superclass method name."@);
                match m.result {
                    Err(e) => fail(m.pos, m.errors, e),
                    Ok(method) => ok(p + 3, errs, SpecExpr::Super { keyword: ts[p], method, id: p as nat }),
                }
            },
        }
    } else if tt == TokenType::This {
        ok(p + 1, errs, SpecExpr::This { keyword: ts[p], id: p as nat })
    } else if tt == TokenType::Identifier {
        ok(p + 1, errs, SpecExpr::Variable { name: ts[p], id: p as nat })
    } else if tt == TokenType::LeftParen {
        let r = mono(ts, p + 1, expression(ts, p + 1, errs));
        match r.result {
            Err(e) => fail(r.pos, r.errors, e),
            Ok(e) => {
                let c = consume(ts, r.pos, r.errors, TokenType::RightParen, "Expect ')' after expression"@);
                match c.result {
                    Err(err) => fail(c.pos, c.errors, err),
                    Ok(_) => ok(c.pos, c.errors, SpecExpr::Grouping { expression: Box::new(e) }),
                }
            },
        }
    } else {
        fail(p, errs, error_at(ts, p, "Expect expression."@))
    }
}


// ------------------------------------------------------------------ statements

pub closed spec fn expression_statement(ts: Seq<Token>, p: int, errs: Seq<SpecParseError>) -> Parsed<SpecStmt> {
    let r = expression(ts, p, errs);
    match r.result {
        Err(e) => fail(r.pos, r.errors, e),
        Ok(e) => {
            let c = consume(ts, r.pos, r.errors, TokenType::Semicolon, "Expect ';' after expression."@);
            match c.result {
                Err(err) => fail(c.pos, c.errors, err),
                Ok(_) => ok(c.pos, c.errors, SpecStmt::Expression { expression: e }),
            }
        },
    }
}

pub closed spec fn print_statement(ts: Seq<Token>, p: int, errs: Seq<SpecParseError>) -> Parsed<SpecStmt> {
    let r = expression(ts, p, errs);
    match r.result {
        Err(e) => fail(r.pos, r.errors, e),
        Ok(e) => {
            let c = consume(ts, r.pos, r.errors, TokenType::Semicolon, "Expect ';' after value."@);
            match c.result {
                Err(err) => fail(c.pos, c.errors, err),
                Ok(_) => ok(c.pos, c.errors, SpecStmt::Print { expression: e }),
            }
        },
    }
}

/// A `return` statement; `p` is just past the `return` keyword.
pub closed spec fn return_statement(ts: Seq<Token>, p: int, errs: Seq<SpecParseError>) -> Parsed<SpecStmt> {
    let keyword = ts[p - 1];
    let r = if check(ts, p, TokenType::Semicolon) {
        ok(p, errs, None)
    } else {
        let v = expression(ts, p, errs);
        match v.result {
            Err(e) => fail(v.pos, v.errors, e),
            Ok(e) => ok(v.pos, v.errors, Some(e)),
        }
    };
    match r.result {
        Err(e) => fail(r.pos, r.errors, e),
        Ok(value) => {
            let c = consume(ts, r.pos, r.errors, TokenType::Semicolon, "Expect ';' after return value."@);
            match c.result {
                Err(err) => fail(c.pos, c.errors, err),
                Ok(_) => ok(c.pos, c.errors, SpecStmt::Return { keyword, value }),
            }
        },
    }
}

pub closed spec fn var_declaration(ts: Seq<Token>, p: int, errs: Seq<SpecParseError>) -> Parsed<SpecStmt> {
    let n = consume(ts, p, errs, TokenType::Identifier, "Expect variable name."@);
    match n.result {
        Err(e) => fail(n.pos, n.errors, e),
        Ok(name) => {
            let r = if check(ts, p + 1, TokenType::Equal) {
                expression(ts, p + 2, errs)
            } else {
                ok(p + 1, errs, SpecExpr::Literal { value: LiteralValue::Nil })
            };
            match r.result {
                Err(e) => fail(r.pos, r.errors, e),
                Ok(initializer) => {
                    let c = consume(
                        ts,
                        r.pos,
                        r.errors,
                        TokenType::Semicolon,
                        "Expect ';' after variable declaration."@,
                    );
                    match c.result {
                        Err(err) => fail(c.pos, c.errors, err),
                        Ok(_) => ok(c.pos, c.errors, SpecStmt::Var { name, initializer }),
                    }
                },
            }
        },
    }
}

/// The initializer clause of a `for` loop, through its `;`.
pub closed spec fn for_initializer(ts: Seq<Token>, p: int, errs: Seq<SpecParseError>) -> Parsed<Option<SpecStmt>> {
    if check(ts, p, TokenType::Semicolon) {
        ok(p + 1, errs, None)
    } else {
        let r = if check(ts, p, TokenType::Var) {
            var_declaration(ts, p + 1, errs)
        } else {
            expression_statement(ts, p, errs)
        };
        match r.result {
            Err(e) => fail(r.pos, r.errors, e),
            Ok(s) => ok(r.pos, r.errors, Some(s)),
        }
    }
}

/// An optional expression, absent when the next token is of kind `stop`.
pub closed spec fn optional_expression(
    ts: Seq<Token>,
    p: int,
    errs: Seq<SpecParseError>,
    stop: TokenType,
) -> Parsed<Option<SpecExpr>> {
    if check(ts, p, stop) {
        ok(p, errs, None)
    } else {
        let r = expression(ts, p, errs);
        match r.result {
            Err(e) => fail(r.pos, r.errors, e),
            Ok(e) => ok(r.pos, r.errors, Some(e)),
        }
    }
}

/// The loop a `for` statement stands for: the initializer, then a `while`
/// over the condition (`true` when absent) whose body is the loop body
/// followed by the increment.
pub open spec fn desugar_for(
    initializer: Option<SpecStmt>,
    condition: Option<SpecExpr>,
    increment: Option<SpecExpr>,
    body: SpecStmt,
) -> SpecStmt {
    let body1 = match increment {
        Some(inc) => SpecStmt::Block { statements: seq![body, SpecStmt::Expression { expression: inc }] },
        None => body,
    };
    let cond = match condition {
        Some(c) => c,
        None => SpecExpr::Literal { value: LiteralValue::Bool(true) },
    };
    let looped = SpecStmt::While { condition: cond, body: Box::new(body1) };
    match initializer {
        Some(init) => SpecStmt::Block { statements: seq![init, looped] },
        None => looped,
    }
}

/// A `for` statement; `p` is just past the `for` keyword.
pub closed spec fn for_statement(ts: Seq<Token>, p: int, errs: Seq<SpecParseError>) -> Parsed<SpecStmt>
    decreases ts.len() - p, 43int,
{
    let c0 = consume(ts, p, errs, TokenType::LeftParen, "Expect '(' after 'for'."@);
    match c0.result {
        Err(e) => fail(c0.pos, c0.errors, e),
        Ok(_) => {
            let i = mono(ts, p + 1, for_initializer(ts, p + 1, errs));
            match i.result {
                Err(e) => fail(i.pos, i.errors, e),
                Ok(init) => {
                    let c = mono(ts, i.pos, optional_expression(ts, i.pos, i.errors, TokenType::Semicolon));
                    match c.result {
                        Err(e) => fail(c.pos, c.errors, e),
                        Ok(cond) => {
                            let s1 = consume(ts, c.pos, c.errors, TokenType::Semicolon, "Expect ';' after loop condition."@);
                            match s1.result {
                                Err(e) => fail(s1.pos, s1.errors, e),
                                Ok(_) => {
                                    let n = mono(ts, s1.pos, optional_expression(ts, s1.pos, s1.errors, TokenType::RightParen));
                                    match n.result {
                                        Err(e) => fail(n.pos, n.errors, e),
                                        Ok(incr) => {
                                            let s2 = consume(ts, n.pos, n.errors, TokenType::RightParen, "Expect ')' after for clauses."@);
                                            match s2.result {
                                                Err(e) => fail(s2.pos, s2.errors, e),
                                                Ok(_) => {
                                                    let b = statement(ts, s2.pos, s2.errors);
                                                    match b.result {
                                                        Err(e) => fail(b.pos, b.errors, e),
                                                        Ok(body) => ok(b.pos, b.errors, desugar_for(init, cond, incr, body)),
                                                    }
                                                },
                                            }
                                        },
                                    }
                                },
                            }
                        },
                    }
                },
            }
        },
    }
}

/// An `if` statement; `p` is just past the `if` keyword.
pub closed spec fn if_statement(ts: Seq<Token>, p: int, errs: Seq<SpecParseError>) -> Parsed<SpecStmt>
    decreases ts.len() - p, 43int,
{
    let c0 = consume(ts, p, errs, TokenType::LeftParen, "Expect '(' after 'if'."@);
    match c0.result {
        Err(e) => fail(c0.pos, c0.errors, e),
        Ok(_) => {
            let c = mono(ts, p + 1, expression(ts, p + 1, errs));
            match c.result {
                Err(e) => fail(c.pos, c.errors, e),
                Ok(condition) => {
                    let c1 = consume(ts, c.pos, c.errors, TokenType::RightParen, "Expect ')' after if condition."@);
                    match c1.result {
                        Err(e) => fail(c1.pos, c1.errors, e),
                        Ok(_) => {
                            let t = mono(ts, c1.pos, statement(ts, c1.pos, c1.errors));
                            match t.result {
                                Err(e) => fail(t.pos, t.errors, e),
                                Ok(then_branch) => if check(ts, t.pos, TokenType::Else) {
                                    let e = statement(ts, t.pos + 1, t.errors);
                                    match e.result {
                                        Err(err) => fail(e.pos, e.errors, err),
                                        Ok(else_branch) => ok(
                                            e.pos,
                                            e.errors,
                                            SpecStmt::If {
                                                condition,
                                                then_branch: Box::new(then_branch),
                                                else_branch: Some(Box::new(else_branch)),
                                            },
                                        ),
                                    }
                                } else {
                                    ok(
                                        t.pos,
                                        t.errors,
                                        SpecStmt::If { condition, then_branch: Box::new(then_branch), else_branch: None },
                                    )
                                },
                            }
                        },
                    }
                },
            }
        },
    }
}

/// A `while` statement; `p` is just past the `while` keyword.
pub closed spec fn while_statement(ts: Seq<Token>, p: int, errs: Seq<SpecParseError>) -> Parsed<SpecStmt>
    decreases ts.len() - p, 43int,
{
    let c0 = consume(ts, p, errs, TokenType::LeftParen, "Expect '(' after 'while'."@);
    match c0.result {
        Err(e) => fail(c0.pos, c0.errors, e),
        Ok(_) => {
            let c = mono(ts, p + 1, expression(ts, p + 1, errs));
            match c.result {
                Err(e) => fail(c.pos, c.errors, e),
                Ok(condition) => {
                    let c1 = consume(ts, c.pos, c.errors, TokenType::RightParen, "Expect ')' after while condition."@);
                    match c1.result {
                        Err(e) => fail(c1.pos, c1.errors, e),
                        Ok(_) => {
                            let b = statement(ts, c1.pos, c1.errors);
                            match b.result {
                                Err(e) => fail(b.pos, b.errors, e),
                                Ok(body) => ok(b.pos, b.errors, SpecStmt::While { condition, body: Box::new(body) }),
                            }
                        },
                    }
                },
            }
        },
    }
}

/// The declarations of a block, after `acc`, through its closing `}`.
pub closed spec fn block_statements(
    ts: Seq<Token>,
    p: int,
    errs: Seq<SpecParseError>,
    acc: Seq<SpecStmt>,
) -> Parsed<Seq<SpecStmt>>
    decreases ts.len() - p, 54int,
{
    if !check(ts, p, TokenType::RightBrace) && !at_end(ts, p) {
        let r = mono(ts, p, declaration(ts, p, errs));
        match r.result {
            Err(e) => fail(r.pos, r.errors, e),
            Ok(s) => if p < r.pos {
                block_statements(ts, r.pos, r.errors, acc.push(s))
            } else {
                fail(r.pos, r.errors, error_at(ts, p, Seq::empty()))
            },
        }
    } else {
        let c = consume(ts, p, errs, TokenType::RightBrace, "Expect '}' after block."@);
        match c.result {
            Err(e) => fail(c.pos, c.errors, e),
            Ok(_) => ok(c.pos, c.errors, acc),
        }
    }
}

/// A block; `p` is just past its `{`.
pub closed spec fn block(ts: Seq<Token>, p: int, errs: Seq<SpecParseError>) -> Parsed<SpecStmt>
    decreases ts.len() - p, 55int,
{
    let r = block_statements(ts, p, errs, Seq::empty());
    match r.result {
        Err(e) => fail(r.pos, r.errors, e),
        Ok(statements) => ok(r.pos, r.errors, SpecStmt::Block { statements }),
    }
}

pub closed spec fn statement(ts: Seq<Token>, p: int, errs: Seq<SpecParseError>) -> Parsed<SpecStmt>
    decreases ts.len() - p, 50int,
{
    if check(ts, p, TokenType::For) {
        for_statement(ts, p + 1, errs)
    } else if check(ts, p, TokenType::If) {
        if_statement(ts, p + 1, errs)
    } else if check(ts, p, TokenType::Print) {
        print_statement(ts, p + 1, errs)
    } else if check(ts, p, TokenType::Return) {
        return_statement(ts, p + 1, errs)
    } else if check(ts, p, TokenType::While) {
        while_statement(ts, p + 1, errs)
    } else if check(ts, p, TokenType::LeftBrace) {
        block(ts, p + 1, errs)
    } else {
        expression_statement(ts, p, errs)
    }
}

/// The comma-separated parameter names of a function, after `params`.
pub closed spec fn parameters(ts: Seq<Token>, p: int, errs: Seq<SpecParseError>, params: Seq<Token>) -> Parsed<Seq<Token>>
    decreases ts.len() - p,
{
    let errs1 = if params.len() >= 255 {
        errs.push(error_at(ts, p, "Can't have more than 255 parameters."@))
    } else {
        errs
    };
    let c = consume(ts, p, errs1, TokenType::Identifier, "Expect parameter name."@);
    match c.result {
        Err(e) => fail(c.pos, c.errors, e),
        Ok(name) => if check(ts, p + 1, TokenType::Comma) {
            parameters(ts, p + 2, errs1, params.push(name))
        } else {
            ok(p + 1, errs1, params.push(name))
        },
    }
}

/// A function or method declaration (`kind` names which), from its name on.
pub closed spec fn function(ts: Seq<Token>, p: int, errs: Seq<SpecParseError>, kind: Seq<char>) -> Parsed<SpecStmt>
    decreases ts.len() - p, 44int,
{
    let n = consume(ts, p, errs, TokenType::Identifier, "Expect "@ + kind + " name."@);
    match n.result {
        Err(e) => fail(n.pos, n.errors, e),
        Ok(name) => {
            let c0 = consume(ts, p + 1, errs, TokenType::LeftParen, "Expect '(' after "@ + kind + " name."@);
            match c0.result {
                Err(e) => fail(c0.pos, c0.errors, e),
                Ok(_) => {
                    let ps = if !check(ts, p + 2, TokenType::RightParen) {
                        mono(ts, p + 2, parameters(ts, p + 2, errs, Seq::empty()))
                    } else {
                        ok(p + 2, errs, Seq::empty())
                    };
                    match ps.result {
                        Err(e) => fail(ps.pos, ps.errors, e),
                        Ok(params) => {
                            let c1 = consume(ts, ps.pos, ps.errors, TokenType::RightParen, "Expect ')' after parameters."@);
                            match c1.result {
                                Err(e) => fail(c1.pos, c1.errors, e),
                                Ok(_) => {
                                    let c2 = consume(
                                        ts,
                                        c1.pos,
                                        c1.errors,
                                        TokenType::LeftBrace,
                                        "Expect '{' before "@ + kind + " body."@,
                                    );
                                    match c2.result {
                                        Err(e) => fail(c2.pos, c2.errors, e),
                                        Ok(_) => {
                                            let b = block_statements(ts, c2.pos, c2.errors, Seq::empty());
                                            match b.result {
                                                Err(e) => fail(b.pos, b.errors, e),
                                                Ok(body) => ok(b.pos, b.errors, SpecStmt::Function { name, params, body }),
                                            }
                                        },
                                    }
                                },
                            }
                        },
                    }
                },
            }
        },
    }
}

/// The methods of a class body, after `acc`.
pub closed spec fn methods(ts: Seq<Token>, p: int, errs: Seq<SpecParseError>, acc: Seq<SpecStmt>) -> Parsed<Seq<SpecStmt>>
    decreases ts.len() - p, 46int,
{
    if !check(ts, p, TokenType::RightBrace) && !at_end(ts, p) {
        let r = mono(ts, p, function(ts, p, errs, "method"@));
        match r.result {
            Err(e) => fail(r.pos, r.errors, e),
            Ok(m) => if p < r.pos {
                methods(ts, r.pos, r.errors, acc.push(m))
            } else {
                fail(r.pos, r.errors, error_at(ts, p, Seq::empty()))
            },
        }
    } else {
        ok(p, errs, acc)
    }
}

/// A class declaration; `p` is just past the `class` keyword.
pub closed spec fn class_declaration(ts: Seq<Token>, p: int, errs: Seq<SpecParseError>) -> Parsed<SpecStmt>
    decreases ts.len() - p, 47int,
{
    let n = consume(ts, p, errs, TokenType::Identifier, "Expect class name"@);
    match n.result {
        Err(e) => fail(n.pos, n.errors, e),
        Ok(name) => {
            let sc = if check(ts, p + 1, TokenType::Less) {
                let s = consume(ts, p + 2, errs, TokenType::Identifier, "Expect superclass name"@);
                match s.result {
                    Err(e) => fail(s.pos, s.errors, e),
                    Ok(sname) => ok(p + 3, errs, Some(SpecExpr::Variable { name: sname, id: (p + 2) as nat })),
                }
            } else {
                ok(p + 1, errs, None)
            };
            match sc.result {
                Err(e) => fail(sc.pos, sc.errors, e),
                Ok(superclass) => {
                    let c0 = consume(ts, sc.pos, errs, TokenType::LeftBrace, "Expect '{' before class body."@);
                    match c0.result {
                        Err(e) => fail(c0.pos, c0.errors, e),
                        Ok(_) => {
                            let m = mono(ts, c0.pos, methods(ts, c0.pos, errs, Seq::empty()));
                            match m.result {
                                Err(e) => fail(m.pos, m.errors, e),
                                Ok(ms) => {
                                    let c1 = consume(ts, m.pos, m.errors, TokenType::RightBrace, "Expect '}' after class body."@);
                                    match c1.result {
                                        Err(e) => fail(c1.pos, c1.errors, e),
                                        Ok(_) => ok(c1.pos, c1.errors, SpecStmt::Class { name, superclass, methods: ms }),
                                    }
                                },
                            }
                        },
                    }
                },
            }
        },
    }
}

pub closed spec fn declaration(ts: Seq<Token>, p: int, errs: Seq<SpecParseError>) -> Parsed<SpecStmt>
    decreases ts.len() - p, 51int,
{
    if check(ts, p, TokenType::Class) {
        class_declaration(ts, p + 1, errs)
    } else if check(ts, p, TokenType::Fun) {
        function(ts, p + 1, errs, "function"@)
    } else if check(ts, p, TokenType::Var) {
        var_declaration(ts, p + 1, errs)
    } else {
        statement(ts, p, errs)
    }
}

// ---------------------------------------------------------------- the program

pub open spec fn is_statement_start(tt: TokenType) -> bool {
    tt == TokenType::Class || tt == TokenType::Fun || tt == TokenType::Var || tt == TokenType::For || tt
        == TokenType::If || tt == TokenType::While || tt == TokenType::Print || tt == TokenType::Return
}

/// Where error recovery resumes, scanning from `p`: after a `;`, before a
/// token that starts a statement, or at the end of input.
pub closed spec fn synchronize_from(ts: Seq<Token>, p: int) -> int
    decreases ts.len() - p,
{
    if at_end(ts, p) || ts[p - 1].token_type == TokenType::Semicolon || is_statement_start(peek_type(ts, p)) {
        p
    } else {
        synchronize_from(ts, p + 1)
    }
}

/// Where error recovery resumes after a syntax error at `p`: it skips at
/// least the token at `p`.
pub open spec fn synchronize(ts: Seq<Token>, p: int) -> int {
    synchronize_from(ts, if at_end(ts, p) { p } else { p + 1 })
}

/// The declarations of the program from `p` on and the syntax errors found
/// there, in source order. After a syntax error the parse resumes where error
/// recovery says.
pub closed spec fn program(ts: Seq<Token>, p: int) -> (Seq<SpecStmt>, Seq<SpecParseError>)
    decreases ts.len() - p,
{
    if at_end(ts, p) || !(0 <= p < ts.len()) {
        (Seq::empty(), Seq::empty())
    } else {
        let r = declaration(ts, p, Seq::empty());
        match r.result {
            Ok(s) => if p < r.pos <= ts.len() {
                let rest = program(ts, r.pos);
                (seq![s] + rest.0, r.errors + rest.1)
            } else {
                (seq![s], r.errors)
            },
            Err(e) => {
                let q = synchronize(ts, r.pos);
                if p < q <= ts.len() {
                    let rest = program(ts, q);
                    (rest.0, r.errors.push(e) + rest.1)
                } else {
                    (Seq::empty(), r.errors.push(e))
                }
            },
        }
    }
}

// ------------------------------------------------- the rules, unfolded one step

pub proof fn lemma_unfold_expression(ts: Seq<Token>, p: int, errs: Seq<SpecParseError>)
    ensures
        expression(ts, p, errs) == ({
            assignment(ts, p, errs)
        }),
{
}

pub proof fn lemma_unfold_assignment(ts: Seq<Token>, p: int, errs: Seq<SpecParseError>)
    ensures
        assignment(ts, p, errs) == ({
            let r = mono(ts, p, or_expr(ts, p, errs));
            match r.result {
                Err(e) => fail(r.pos, r.errors, e),
                Ok(target) => if check(ts, r.pos, TokenType::Equal) {
                    let equals = ts[r.pos];
                    let v = assignment(ts, r.pos + 1, r.errors);
                    match v.result {
                        Err(e) => fail(v.pos, v.errors, e),
                        Ok(value) => match target {
                            SpecExpr::Get { object, name } => ok(
                                v.pos,
                                v.errors,
                                SpecExpr::SetProperty { object, name, value: Box::new(value) },
                            ),
                            SpecExpr::Variable { name, id } => ok(
                                v.pos,
                                v.errors,
                                SpecExpr::Assign { name, value: Box::new(value), id },
                            ),
                            _ => ok(
                                v.pos,
                                v.errors.push(SpecParseError { token: equals, msg: "Invalid assignment target."@ }),
                                target,
                            ),
                        },
                    }
                } else {
                    ok(r.pos, r.errors, target)
                },
            }
        }),
{
}

pub proof fn lemma_unfold_or_expr(ts: Seq<Token>, p: int, errs: Seq<SpecParseError>)
    ensures
        or_expr(ts, p, errs) == ({
            let r = mono(ts, p, and_expr(ts, p, errs));
            match r.result {
                Err(e) => fail(r.pos, r.errors, e),
                Ok(e) => or_rest(ts, r.pos, r.errors, e),
            }
        }),
{
}

pub proof fn lemma_unfold_or_rest(ts: Seq<Token>, p: int, errs: Seq<SpecParseError>, left: SpecExpr)
    ensures
        or_rest(ts, p, errs, left) == ({
            if check(ts, p, TokenType::Or) {
                let r = mono(ts, p + 1, and_expr(ts, p + 1, errs));
                match r.result {
                    Err(e) => fail(r.pos, r.errors, e),
                    Ok(right) => or_rest(
                        ts,
                        r.pos,
                        r.errors,
                        SpecExpr::Logical { left: Box::new(left), operator: ts[p], right: Box::new(right) },
                    ),
                }
            } else {
                ok(p, errs, left)
            }
        }),
{
}

pub proof fn lemma_unfold_and_expr(ts: Seq<Token>, p: int, errs: Seq<SpecParseError>)
    ensures
        and_expr(ts, p, errs) == ({
            let r = mono(ts, p, equality(ts, p, errs));
            match r.result {
                Err(e) => fail(r.pos, r.errors, e),
                Ok(e) => and_rest(ts, r.pos, r.errors, e),
            }
        }),
{
}

pub proof fn lemma_unfold_and_rest(ts: Seq<Token>, p: int, errs: Seq<SpecParseError>, left: SpecExpr)
    ensures
        and_rest(ts, p, errs, left) == ({
            if check(ts, p, TokenType::And) {
                let r = mono(ts, p + 1, equality(ts, p + 1, errs));
                match r.result {
                    Err(e) => fail(r.pos, r.errors, e),
                    Ok(right) => and_rest(
                        ts,
                        r.pos,
                        r.errors,
                        SpecExpr::Logical { left: Box::new(left), operator: ts[p], right: Box::new(right) },
                    ),
                }
            } else {
                ok(p, errs, left)
            }
        }),
{
}

pub proof fn lemma_unfold_equality(ts: Seq<Token>, p: int, errs: Seq<SpecParseError>)
    ensures
        equality(ts, p, errs) == ({
            let r = mono(ts, p, comparison(ts, p, errs));
            match r.result {
                Err(e) => fail(r.pos, r.errors, e),
                Ok(e) => equality_rest(ts, r.pos, r.errors, e),
            }
        }),
{
}

pub proof fn lemma_unfold_equality_rest(ts: Seq<Token>, p: int, errs: Seq<SpecParseError>, left: SpecExpr)
    ensures
        equality_rest(ts, p, errs, left) == ({
            if check(ts, p, TokenType::BangEqual) || check(ts, p, TokenType::EqualEqual) {
                let r = mono(ts, p + 1, comparison(ts, p + 1, errs));
                match r.result {
                    Err(e) => fail(r.pos, r.errors, e),
                    Ok(right) => equality_rest(
                        ts,
                        r.pos,
                        r.errors,
                        SpecExpr::Binary { left: Box::new(left), operator: ts[p], right: Box::new(right) },
                    ),
                }
            } else {
                ok(p, errs, left)
            }
        }),
{
}

pub proof fn lemma_unfold_comparison(ts: Seq<Token>, p: int, errs: Seq<SpecParseError>)
    ensures
        comparison(ts, p, errs) == ({
            let r = mono(ts, p, term(ts, p, errs));
            match r.result {
                Err(e) => fail(r.pos, r.errors, e),
                Ok(e) => comparison_rest(ts, r.pos, r.errors, e),
            }
        }),
{
}

pub proof fn lemma_unfold_comparison_rest(ts: Seq<Token>, p: int, errs: Seq<SpecParseError>, left: SpecExpr)
    ensures
        comparison_rest(ts, p, errs, left) == ({
            if is_comparison_op(ts, p) {
                let r = mono(ts, p + 1, term(ts, p + 1, errs));
                match r.result {
                    Err(e) => fail(r.pos, r.errors, e),
                    Ok(right) => comparison_rest(
                        ts,
                        r.pos,
                        r.errors,
                        SpecExpr::Binary { left: Box::new(left), operator: ts[p], right: Box::new(right) },
                    ),
                }
            } else {
                ok(p, errs, left)
            }
        }),
{
}

pub proof fn lemma_unfold_term(ts: Seq<Token>, p: int, errs: Seq<SpecParseError>)
    ensures
        term(ts, p, errs) == ({
            let r = mono(ts, p, factor(ts, p, errs));
            match r.result {
                Err(e) => fail(r.pos, r.errors, e),
                Ok(e) => term_rest(ts, r.pos, r.errors, e),
            }
        }),
{
}

pub proof fn lemma_unfold_term_rest(ts: Seq<Token>, p: int, errs: Seq<SpecParseError>, left: SpecExpr)
    ensures
        term_rest(ts, p, errs, left) == ({
            if check(ts, p, TokenType::Plus) || check(ts, p, TokenType::Minus) {
                let r = mono(ts, p + 1, factor(ts, p + 1, errs));
                match r.result {
                    Err(e) => fail(r.pos, r.errors, e),
                    Ok(right) => term_rest(
                        ts,
                        r.pos,
                        r.errors,
                        SpecExpr::Binary { left: Box::new(left), operator: ts[p], right: Box::new(right) },
                    ),
                }
            } else {
                ok(p, errs, left)
            }
        }),
{
}

pub proof fn lemma_unfold_factor(ts: Seq<Token>, p: int, errs: Seq<SpecParseError>)
    ensures
        factor(ts, p, errs) == ({
            let r = mono(ts, p, unary(ts, p, errs));
            match r.result {
                Err(e) => fail(r.pos, r.errors, e),
                Ok(e) => factor_rest(ts, r.pos, r.errors, e),
            }
        }),
{
}

pub proof fn lemma_unfold_factor_rest(ts: Seq<Token>, p: int, errs: Seq<SpecParseError>, left: SpecExpr)
    ensures
        factor_rest(ts, p, errs, left) == ({
            if check(ts, p, TokenType::Star) || check(ts, p, TokenType::Slash) {
                let r = mono(ts, p + 1, unary(ts, p + 1, errs));
                match r.result {
                    Err(e) => fail(r.pos, r.errors, e),
                    Ok(right) => factor_rest(
                        ts,
                        r.pos,
                        r.errors,
                        SpecExpr::Binary { left: Box::new(left), operator: ts[p], right: Box::new(right) },
                    ),
                }
            } else {
                ok(p, errs, left)
            }
        }),
{
}

pub proof fn lemma_unfold_unary(ts: Seq<Token>, p: int, errs: Seq<SpecParseError>)
    ensures
        unary(ts, p, errs) == ({
            if check(ts, p, TokenType::Bang) || check(ts, p, TokenType::Minus) {
                let r = unary(ts, p + 1, errs);
                match r.result {
                    Err(e) => fail(r.pos, r.errors, e),
                    Ok(right) => ok(r.pos, r.errors, SpecExpr::Unary { operator: ts[p], right: Box::new(right) }),
                }
            } else {
                call(ts, p, errs)
            }
        }),
{
}

pub proof fn lemma_unfold_call(ts: Seq<Token>, p: int, errs: Seq<SpecParseError>)
    ensures
        call(ts, p, errs) == ({
            let r = mono(ts, p, primary(ts, p, errs));
            match r.result {
                Err(e) => fail(r.pos, r.errors, e),
                Ok(e) => call_rest(ts, r.pos, r.errors, e),
            }
        }),
{
}

pub proof fn lemma_unfold_call_rest(ts: Seq<Token>, p: int, errs: Seq<SpecParseError>, callee: SpecExpr)
    ensures
        call_rest(ts, p, errs, callee) == ({
            if check(ts, p, TokenType::LeftParen) {
                let r = mono(ts, p + 1, finish_call(ts, p + 1, errs, callee));
                match r.result {
                    Err(e) => fail(r.pos, r.errors, e),
                    Ok(e) => call_rest(ts, r.pos, r.errors, e),
                }
            } else if check(ts, p, TokenType::Dot) {
                let c = consume(ts, p + 1, errs, TokenType::Identifier, "Expect property name after '.'."@);
                match c.result {
                    Err(e) => fail(c.pos, c.errors, e),
                    Ok(name) => call_rest(ts, p + 2, errs, SpecExpr::Get { object: Box::new(callee), name }),
                }
            } else {
                ok(p, errs, callee)
            }
        }),
{
}

pub proof fn lemma_unfold_finish_call(ts: Seq<Token>, p: int, errs: Seq<SpecParseError>, callee: SpecExpr)
    ensures
        finish_call(ts, p, errs, callee) == ({
            let r = if !check(ts, p, TokenType::RightParen) {
                mono(ts, p, arguments(ts, p, errs, Seq::empty()))
            } else {
                ok(p, errs, Seq::empty())
            };
            match r.result {
                Err(e) => fail(r.pos, r.errors, e),
                Ok(args) => {
                    let c = consume(ts, r.pos, r.errors, TokenType::RightParen, "Expect ')' after arguments."@);
                    match c.result {
                        Err(e) => fail(c.pos, c.errors, e),
                        Ok(paren) => ok(c.pos, c.errors, SpecExpr::Call { callee: Box::new(callee), paren, arguments: args }),
                    }
                },
            }
        }),
{
}

pub proof fn lemma_unfold_arguments(ts: Seq<Token>, p: int, errs: Seq<SpecParseError>, args: Seq<SpecExpr>)
    ensures
        arguments(ts, p, errs, args) == ({
            let errs1 = if args.len() >= 255 {
                errs.push(error_at(ts, p, "Can't have more than 255 arguments."@))
            } else {
                errs
            };
            let r = mono(ts, p, expression(ts, p, errs1));
            match r.result {
                Err(e) => fail(r.pos, r.errors, e),
                Ok(e) => if check(ts, r.pos, TokenType::Comma) {
                    arguments(ts, r.pos + 1, r.errors, args.push(e))
                } else {
                    ok(r.pos, r.errors, args.push(e))
                },
            }
        }),
{
}

pub proof fn lemma_unfold_primary(ts: Seq<Token>, p: int, errs: Seq<SpecParseError>)
    ensures
        primary(ts, p, errs) == ({
            let tt = peek_type(ts, p);
            if tt == TokenType::False {
                ok(p + 1, errs, SpecExpr::Literal { value: LiteralValue::Bool(false) })
            } else if tt == TokenType::True {
                ok(p + 1, errs, SpecExpr::Literal { value: LiteralValue::Bool(true) })
            } else if tt == TokenType::Nil {
                ok(p + 1, errs, SpecExpr::Literal { value: LiteralValue::Nil })
            } else if tt == TokenType::Number || tt == TokenType::String {
                ok(p + 1, errs, SpecExpr::Literal { value: ts[p].literal->Some_0 })
            } else if tt == TokenType::Super {
                let c = consume(ts, p + 1, errs, TokenType::Dot, "Expect '.' after 'super'."@);
                match c.result {
                    Err(e) => fail(c.pos, c.errors, e),
                    Ok(_) => {
                        let m = consume(ts, p + 2, errs, TokenType::Identifier, "Expect superclass method name."@);
                        match m.result {
                            Err(e) => fail(m.pos, m.errors, e),
                            Ok(method) => ok(p + 3, errs, SpecExpr::Super { keyword: ts[p], method, id: p as nat }),
                        }
                    },
                }
            } else if tt == TokenType::This {
                ok(p + 1, errs, SpecExpr::This { keyword: ts[p], id: p as nat })
            } else if tt == TokenType::Identifier {
                ok(p + 1, errs, SpecExpr::Variable { name: ts[p], id: p as nat })
            } else if tt == TokenType::LeftParen {
                let r = mono(ts, p + 1, expression(ts, p + 1, errs));
                match r.result {
                    Err(e) => fail(r.pos, r.errors, e),
                    Ok(e) => {
                        let c = consume(ts, r.pos, r.errors, TokenType::RightParen, "Expect ')' after expression"@);
                        match c.result {
                            Err(err) => fail(c.pos, c.errors, err),
                            Ok(_) => ok(c.pos, c.errors, SpecExpr::Grouping { expression: Box::new(e) }),
                        }
                    },
                }
            } else {
                fail(p, errs, error_at(ts, p, "Expect expression."@))
            }
        }),
{
}

pub proof fn lemma_unfold_expression_statement(ts: Seq<Token>, p: int, errs: Seq<SpecParseError>)
    ensures
        expression_statement(ts, p, errs) == ({
            let r = expression(ts, p, errs);
            match r.result {
                Err(e) => fail(r.pos, r.errors, e),
                Ok(e) => {
                    let c = consume(ts, r.pos, r.errors, TokenType::Semicolon, "Expect ';' after expression."@);
                    match c.result {
                        Err(err) => fail(c.pos, c.errors, err),
                        Ok(_) => ok(c.pos, c.errors, SpecStmt::Expression { expression: e }),
                    }
                },
            }
        }),
{
}

pub proof fn lemma_unfold_print_statement(ts: Seq<Token>, p: int, errs: Seq<SpecParseError>)
    ensures
        print_statement(ts, p, errs) == ({
            let r = expression(ts, p, errs);
            match r.result {
                Err(e) => fail(r.pos, r.errors, e),
                Ok(e) => {
                    let c = consume(ts, r.pos, r.errors, TokenType::Semicolon, "Expect ';' after value."@);
                    match c.result {
                        Err(err) => fail(c.pos, c.errors, err),
                        Ok(_) => ok(c.pos, c.errors, SpecStmt::Print { expression: e }),
                    }
                },
            }
        }),
{
}

pub proof fn lemma_unfold_return_statement(ts: Seq<Token>, p: int, errs: Seq<SpecParseError>)
    ensures
        return_statement(ts, p, errs) == ({
            let keyword = ts[p - 1];
            let r = if check(ts, p, TokenType::Semicolon) {
                ok(p, errs, None)
            } else {
                let v = expression(ts, p, errs);
                match v.result {
                    Err(e) => fail(v.pos, v.errors, e),
                    Ok(e) => ok(v.pos, v.errors, Some(e)),
                }
            };
            match r.result {
                Err(e) => fail(r.pos, r.errors, e),
                Ok(value) => {
                    let c = consume(ts, r.pos, r.errors, TokenType::Semicolon, "Expect ';' after return value."@);
                    match c.result {
                        Err(err) => fail(c.pos, c.errors, err),
                        Ok(_) => ok(c.pos, c.errors, SpecStmt::Return { keyword, value }),
                    }
                },
            }
        }),
{
}

pub proof fn lemma_unfold_var_declaration(ts: Seq<Token>, p: int, errs: Seq<SpecParseError>)
    ensures
        var_declaration(ts, p, errs) == ({
            let n = consume(ts, p, errs, TokenType::Identifier, "Expect variable name."@);
            match n.result {
                Err(e) => fail(n.pos, n.errors, e),
                Ok(name) => {
                    let r = if check(ts, p + 1, TokenType::Equal) {
                        expression(ts, p + 2, errs)
                    } else {
                        ok(p + 1, errs, SpecExpr::Literal { value: LiteralValue::Nil })
                    };
                    match r.result {
                        Err(e) => fail(r.pos, r.errors, e),
                        Ok(initializer) => {
                            let c = consume(
                                ts,
                                r.pos,
                                r.errors,
                                TokenType::Semicolon,
                                "Expect ';' after variable declaration."@,
                            );
                            match c.result {
                                Err(err) => fail(c.pos, c.errors, err),
                                Ok(_) => ok(c.pos, c.errors, SpecStmt::Var { name, initializer }),
                            }
                        },
                    }
                },
            }
        }),
{
}

pub proof fn lemma_unfold_for_initializer(ts: Seq<Token>, p: int, errs: Seq<SpecParseError>)
    ensures
        for_initializer(ts, p, errs) == ({
            if check(ts, p, TokenType::Semicolon) {
                ok(p + 1, errs, None)
            } else {
                let r = if check(ts, p, TokenType::Var) {
                    var_declaration(ts, p + 1, errs)
                } else {
                    expression_statement(ts, p, errs)
                };
                match r.result {
                    Err(e) => fail(r.pos, r.errors, e),
                    Ok(s) => ok(r.pos, r.errors, Some(s)),
                }
            }
        }),
{
}

pub proof fn lemma_unfold_optional_expression(ts: Seq<Token>, p: int, errs: Seq<SpecParseError>, stop: TokenType)
    ensures
        optional_expression(ts, p, errs, stop) == ({
            if check(ts, p, stop) {
                ok(p, errs, None)
            } else {
                let r = expression(ts, p, errs);
                match r.result {
                    Err(e) => fail(r.pos, r.errors, e),
                    Ok(e) => ok(r.pos, r.errors, Some(e)),
                }
            }
        }),
{
}

pub proof fn lemma_unfold_for_statement(ts: Seq<Token>, p: int, errs: Seq<SpecParseError>)
    ensures
        for_statement(ts, p, errs) == ({
            let c0 = consume(ts, p, errs, TokenType::LeftParen, "Expect '(' after 'for'."@);
            match c0.result {
                Err(e) => fail(c0.pos, c0.errors, e),
                Ok(_) => {
                    let i = mono(ts, p + 1, for_initializer(ts, p + 1, errs));
                    match i.result {
                        Err(e) => fail(i.pos, i.errors, e),
                        Ok(init) => {
                            let c = mono(ts, i.pos, optional_expression(ts, i.pos, i.errors, TokenType::Semicolon));
                            match c.result {
                                Err(e) => fail(c.pos, c.errors, e),
                                Ok(cond) => {
                                    let s1 = consume(ts, c.pos, c.errors, TokenType::Semicolon, "Expect ';' after loop condition."@);
                                    match s1.result {
                                        Err(e) => fail(s1.pos, s1.errors, e),
                                        Ok(_) => {
                                            let n = mono(ts, s1.pos, optional_expression(ts, s1.pos, s1.errors, TokenType::RightParen));
                                            match n.result {
                                                Err(e) => fail(n.pos, n.errors, e),
                                                Ok(incr) => {
                                                    let s2 = consume(ts, n.pos, n.errors, TokenType::RightParen, "Expect ')' after for clauses."@);
                                                    match s2.result {
                                                        Err(e) => fail(s2.pos, s2.errors, e),
                                                        Ok(_) => {
                                                            let b = statement(ts, s2.pos, s2.errors);
                                                            match b.result {
                                                                Err(e) => fail(b.pos, b.errors, e),
                                                                Ok(body) => ok(b.pos, b.errors, desugar_for(init, cond, incr, body)),
                                                            }
                                                        },
                                                    }
                                                },
                                            }
                                        },
                                    }
                                },
                            }
                        },
                    }
                },
            }
        }),
{
}

pub proof fn lemma_unfold_if_statement(ts: Seq<Token>, p: int, errs: Seq<SpecParseError>)
    ensures
        if_statement(ts, p, errs) == ({
            let c0 = consume(ts, p, errs, TokenType::LeftParen, "Expect '(' after 'if'."@);
            match c0.result {
                Err(e) => fail(c0.pos, c0.errors, e),
                Ok(_) => {
                    let c = mono(ts, p + 1, expression(ts, p + 1, errs));
                    match c.result {
                        Err(e) => fail(c.pos, c.errors, e),
                        Ok(condition) => {
                            let c1 = consume(ts, c.pos, c.errors, TokenType::RightParen, "Expect ')' after if condition."@);
                            match c1.result {
                                Err(e) => fail(c1.pos, c1.errors, e),
                                Ok(_) => {
                                    let t = mono(ts, c1.pos, statement(ts, c1.pos, c1.errors));
                                    match t.result {
                                        Err(e) => fail(t.pos, t.errors, e),
                                        Ok(then_branch) => if check(ts, t.pos, TokenType::Else) {
                                            let e = statement(ts, t.pos + 1, t.errors);
                                            match e.result {
                                                Err(err) => fail(e.pos, e.errors, err),
                                                Ok(else_branch) => ok(
                                                    e.pos,
                                                    e.errors,
                                                    SpecStmt::If {
                                                        condition,
                                                        then_branch: Box::new(then_branch),
                                                        else_branch: Some(Box::new(else_branch)),
                                                    },
                                                ),
                                            }
                                        } else {
                                            ok(
                                                t.pos,
                                                t.errors,
                                                SpecStmt::If { condition, then_branch: Box::new(then_branch), else_branch: None },
                                            )
                                        },
                                    }
                                },
                            }
                        },
                    }
                },
            }
        }),
{
}

pub proof fn lemma_unfold_while_statement(ts: Seq<Token>, p: int, errs: Seq<SpecParseError>)
    ensures
        while_statement(ts, p, errs) == ({
            let c0 = consume(ts, p, errs, TokenType::LeftParen, "Expect '(' after 'while'."@);
            match c0.result {
                Err(e) => fail(c0.pos, c0.errors, e),
                Ok(_) => {
                    let c = mono(ts, p + 1, expression(ts, p + 1, errs));
                    match c.result {
                        Err(e) => fail(c.pos, c.errors, e),
                        Ok(condition) => {
                            let c1 = consume(ts, c.pos, c.errors, TokenType::RightParen, "Expect ')' after while condition."@);
                            match c1.result {
                                Err(e) => fail(c1.pos, c1.errors, e),
                                Ok(_) => {
                                    let b = statement(ts, c1.pos, c1.errors);
                                    match b.result {
                                        Err(e) => fail(b.pos, b.errors, e),
                                        Ok(body) => ok(b.pos, b.errors, SpecStmt::While { condition, body: Box::new(body) }),
                                    }
                                },
                            }
                        },
                    }
                },
            }
        }),
{
}

pub proof fn lemma_unfold_block_statements(ts: Seq<Token>, p: int, errs: Seq<SpecParseError>, acc: Seq<SpecStmt>)
    ensures
        block_statements(ts, p, errs, acc) == ({
            if !check(ts, p, TokenType::RightBrace) && !at_end(ts, p) {
                let r = mono(ts, p, declaration(ts, p, errs));
                match r.result {
                    Err(e) => fail(r.pos, r.errors, e),
                    Ok(s) => if p < r.pos {
                        block_statements(ts, r.pos, r.errors, acc.push(s))
                    } else {
                        fail(r.pos, r.errors, error_at(ts, p, Seq::empty()))
                    },
                }
            } else {
                let c = consume(ts, p, errs, TokenType::RightBrace, "Expect '}' after block."@);
                match c.result {
                    Err(e) => fail(c.pos, c.errors, e),
                    Ok(_) => ok(c.pos, c.errors, acc),
                }
            }
        }),
{
}

pub proof fn lemma_unfold_block(ts: Seq<Token>, p: int, errs: Seq<SpecParseError>)
    ensures
        block(ts, p, errs) == ({
            let r = block_statements(ts, p, errs, Seq::empty());
            match r.result {
                Err(e) => fail(r.pos, r.errors, e),
                Ok(statements) => ok(r.pos, r.errors, SpecStmt::Block { statements }),
            }
        }),
{
}

pub proof fn lemma_unfold_statement(ts: Seq<Token>, p: int, errs: Seq<SpecParseError>)
    ensures
        statement(ts, p, errs) == ({
            if check(ts, p, TokenType::For) {
                for_statement(ts, p + 1, errs)
            } else if check(ts, p, TokenType::If) {
                if_statement(ts, p + 1, errs)
            } else if check(ts, p, TokenType::Print) {
                print_statement(ts, p + 1, errs)
            } else if check(ts, p, TokenType::Return) {
                return_statement(ts, p + 1, errs)
            } else if check(ts, p, TokenType::While) {
                while_statement(ts, p + 1, errs)
            } else if check(ts, p, TokenType::LeftBrace) {
                block(ts, p + 1, errs)
            } else {
                expression_statement(ts, p, errs)
            }
        }),
{
}

pub proof fn lemma_unfold_parameters(ts: Seq<Token>, p: int, errs: Seq<SpecParseError>, params: Seq<Token>)
    ensures
        parameters(ts, p, errs, params) == ({
            let errs1 = if params.len() >= 255 {
                errs.push(error_at(ts, p, "Can't have more than 255 parameters."@))
            } else {
                errs
            };
            let c = consume(ts, p, errs1, TokenType::Identifier, "Expect parameter name."@);
            match c.result {
                Err(e) => fail(c.pos, c.errors, e),
                Ok(name) => if check(ts, p + 1, TokenType::Comma) {
                    parameters(ts, p + 2, errs1, params.push(name))
                } else {
                    ok(p + 1, errs1, params.push(name))
                },
            }
        }),
{
}

pub proof fn lemma_unfold_function(ts: Seq<Token>, p: int, errs: Seq<SpecParseError>, kind: Seq<char>)
    ensures
        function(ts, p, errs, kind) == ({
            let n = consume(ts, p, errs, TokenType::Identifier, "Expect "@ + kind + " name."@);
            match n.result {
                Err(e) => fail(n.pos, n.errors, e),
                Ok(name) => {
                    let c0 = consume(ts, p + 1, errs, TokenType::LeftParen, "Expect '(' after "@ + kind + " name."@);
                    match c0.result {
                        Err(e) => fail(c0.pos, c0.errors, e),
                        Ok(_) => {
                            let ps = if !check(ts, p + 2, TokenType::RightParen) {
                                mono(ts, p + 2, parameters(ts, p + 2, errs, Seq::empty()))
                            } else {
                                ok(p + 2, errs, Seq::empty())
                            };
                            match ps.result {
                                Err(e) => fail(ps.pos, ps.errors, e),
                                Ok(params) => {
                                    let c1 = consume(ts, ps.pos, ps.errors, TokenType::RightParen, "Expect ')' after parameters."@);
                                    match c1.result {
                                        Err(e) => fail(c1.pos, c1.errors, e),
                                        Ok(_) => {
                                            let c2 = consume(
                                                ts,
                                                c1.pos,
                                                c1.errors,
                                                TokenType::LeftBrace,
                                                "Expect '{' before "@ + kind + " body."@,
                                            );
                                            match c2.result {
                                                Err(e) => fail(c2.pos, c2.errors, e),
                                                Ok(_) => {
                                                    let b = block_statements(ts, c2.pos, c2.errors, Seq::empty());
                                                    match b.result {
                                                        Err(e) => fail(b.pos, b.errors, e),
                                                        Ok(body) => ok(b.pos, b.errors, SpecStmt::Function { name, params, body }),
                                                    }
                                                },
                                            }
                                        },
                                    }
                                },
                            }
                        },
                    }
                },
            }
        }),
{
}

pub proof fn lemma_unfold_methods(ts: Seq<Token>, p: int, errs: Seq<SpecParseError>, acc: Seq<SpecStmt>)
    ensures
        methods(ts, p, errs, acc) == ({
            if !check(ts, p, TokenType::RightBrace) && !at_end(ts, p) {
                let r = mono(ts, p, function(ts, p, errs, "method"@));
                match r.result {
                    Err(e) => fail(r.pos, r.errors, e),
                    Ok(m) => if p < r.pos {
                        methods(ts, r.pos, r.errors, acc.push(m))
                    } else {
                        fail(r.pos, r.errors, error_at(ts, p, Seq::empty()))
                    },
                }
            } else {
                ok(p, errs, acc)
            }
        }),
{
}

pub proof fn lemma_unfold_class_declaration(ts: Seq<Token>, p: int, errs: Seq<SpecParseError>)
    ensures
        class_declaration(ts, p, errs) == ({
            let n = consume(ts, p, errs, TokenType::Identifier, "Expect class name"@);
            match n.result {
                Err(e) => fail(n.pos, n.errors, e),
                Ok(name) => {
                    let sc = if check(ts, p + 1, TokenType::Less) {
                        let s = consume(ts, p + 2, errs, TokenType::Identifier, "Expect superclass name"@);
                        match s.result {
                            Err(e) => fail(s.pos, s.errors, e),
                            Ok(sname) => ok(p + 3, errs, Some(SpecExpr::Variable { name: sname, id: (p + 2) as nat })),
                        }
                    } else {
                        ok(p + 1, errs, None)
                    };
                    match sc.result {
                        Err(e) => fail(sc.pos, sc.errors, e),
                        Ok(superclass) => {
                            let c0 = consume(ts, sc.pos, errs, TokenType::LeftBrace, "Expect '{' before class body."@);
                            match c0.result {
                                Err(e) => fail(c0.pos, c0.errors, e),
                                Ok(_) => {
                                    let m = mono(ts, c0.pos, methods(ts, c0.pos, errs, Seq::empty()));
                                    match m.result {
                                        Err(e) => fail(m.pos, m.errors, e),
                                        Ok(ms) => {
                                            let c1 = consume(ts, m.pos, m.errors, TokenType::RightBrace, "Expect '}' after class body."@);
                                            match c1.result {
                                                Err(e) => fail(c1.pos, c1.errors, e),
                                                Ok(_) => ok(c1.pos, c1.errors, SpecStmt::Class { name, superclass, methods: ms }),
                                            }
                                        },
                                    }
                                },
                            }
                        },
                    }
                },
            }
        }),
{
}

pub proof fn lemma_unfold_declaration(ts: Seq<Token>, p: int, errs: Seq<SpecParseError>)
    ensures
        declaration(ts, p, errs) == ({
            if check(ts, p, TokenType::Class) {
                class_declaration(ts, p + 1, errs)
            } else if check(ts, p, TokenType::Fun) {
                function(ts, p + 1, errs, "function"@)
            } else if check(ts, p, TokenType::Var) {
                var_declaration(ts, p + 1, errs)
            } else {
                statement(ts, p, errs)
            }
        }),
{
}

pub proof fn lemma_unfold_synchronize_from(ts: Seq<Token>, p: int)
    ensures
        synchronize_from(ts, p) == ({
            if at_end(ts, p) || ts[p - 1].token_type == TokenType::Semicolon || is_statement_start(peek_type(ts, p)) {
                p
            } else {
                synchronize_from(ts, p + 1)
            }
        }),
{
}

pub proof fn lemma_unfold_program(ts: Seq<Token>, p: int)
    ensures
        program(ts, p) == ({
            if at_end(ts, p) || !(0 <= p < ts.len()) {
                (Seq::empty(), Seq::empty())
            } else {
                let r = declaration(ts, p, Seq::empty());
                match r.result {
                    Ok(s) => if p < r.pos <= ts.len() {
                        let rest = program(ts, r.pos);
                        (seq![s] + rest.0, r.errors + rest.1)
                    } else {
                        (seq![s], r.errors)
                    },
                    Err(e) => {
                        let q = synchronize(ts, r.pos);
                        if p < q <= ts.len() {
                            let rest = program(ts, q);
                            (rest.0, r.errors.push(e) + rest.1)
                        } else {
                            (Seq::empty(), r.errors.push(e))
                        }
                    },
                }
            }
        }),
{
}

} // verus!
