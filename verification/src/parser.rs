use vstd::prelude::*;

use crate::expr::{expr_views, Expr, SpecExpr};
use crate::grammar::{self, Parsed, SpecParseError};
use crate::stmt::{stmt_views, SpecStmt, Stmt};
use crate::text::push_decimal;
use crate::token::{LiteralValue, Token};
use crate::token_type::TokenType;
use vstd::string::StringExecFns;

verus! {

/// A syntax error: the token it was found at and what was expected there.
#[derive(Debug)]
pub struct ParseError {
    token: Token,
    msg: String,
}

impl View for ParseError {
    type V = SpecParseError;

    closed spec fn view(&self) -> SpecParseError {
        SpecParseError { token: self.token, msg: self.msg@ }
    }
}

/// How a syntax error is shown.
pub open spec fn parse_error_text(e: SpecParseError) -> Seq<char> {
    if e.token.token_type == TokenType::Eof {
        "[line "@ + crate::text::decimal(e.token.line as nat) + "] Error at end: "@ + e.msg
    } else {
        "[line "@ + crate::text::decimal(e.token.line as nat) + "] Error at "@ + e.token.lexeme@ + ": "@ + e.msg
    }
}

impl ParseError {
    /// The error as `[line N] Error at LEXEME: message` (or `at end`).
    pub fn to_string(&self) -> (s: String)
        ensures
            s@ == parse_error_text(self@),
    {
        let mut s = String::from_str("[line ");
        push_decimal(&mut s, self.token.line);
        if self.token.token_type == TokenType::Eof {
            s.append("] Error at end: ");
        } else {
            s.append("] Error at ");
            s.append(self.token.lexeme.as_str());
            s.append(": ");
        }
        s.append(self.msg.as_str());
        s
    }
}

pub open spec fn errors_view(es: Seq<ParseError>) -> Seq<SpecParseError> {
    es.map_values(|e: ParseError| e@)
}

pub open spec fn expr_result(r: Result<Expr, ParseError>) -> Result<SpecExpr, SpecParseError> {
    match r {
        Ok(e) => Ok(e@),
        Err(e) => Err(e@),
    }
}

pub open spec fn stmt_result(r: Result<Stmt, ParseError>) -> Result<SpecStmt, SpecParseError> {
    match r {
        Ok(s) => Ok(s@),
        Err(e) => Err(e@),
    }
}

/// Turns a token list into statements by recursive descent, recovering from
/// syntax errors so that it can report all of them.
pub struct Parser {
    tokens: Vec<Token>,
    current: usize,
    errors: Vec<ParseError>,
}

impl Parser {
    /// The tokens being parsed.
    pub closed spec fn tokens(&self) -> Seq<Token> {
        self.tokens@
    }

    /// The position of the next token to parse.
    pub closed spec fn position(&self) -> int {
        self.current as int
    }

    /// The errors reported so far that did not stop the parse.
    pub closed spec fn errors(&self) -> Seq<SpecParseError> {
        errors_view(self.errors@)
    }

    pub closed spec fn wf(&self) -> bool {
        &&& grammar::tokens_wf(self.tokens@)
        &&& self.current < self.tokens@.len()
    }

    /// A parser at the start of `tokens`.
    pub fn new(tokens: Vec<Token>) -> (p: Parser)
        requires
            grammar::tokens_wf(tokens@),
        ensures
            p.wf(),
            p.tokens() == tokens@,
            p.position() == 0,
            p.errors() == Seq::<SpecParseError>::empty(),
    {
        let p = Parser { tokens, current: 0, errors: Vec::new() };
        assert(p.errors() =~= Seq::<SpecParseError>::empty());
        p
    }

    // ------------------------------------------------------------ token access

    fn peek(&self) -> (t: &Token)
        requires
            self.wf(),
        ensures
            *t == self.tokens@[self.current as int],
    {
        &self.tokens[self.current]
    }

    fn previous(&self) -> (t: &Token)
        requires
            self.wf(),
            self.current >= 1,
        ensures
            *t == self.tokens@[self.current - 1],
    {
        &self.tokens[self.current - 1]
    }

    fn is_at_end(&self) -> (r: bool)
        requires
            self.wf(),
        ensures
            r == grammar::at_end(self.tokens@, self.current as int),
    {
        self.peek().token_type == TokenType::Eof
    }

    fn check(&self, token_type: TokenType) -> (r: bool)
        requires
            self.wf(),
        ensures
            r == grammar::check(self.tokens@, self.current as int, token_type),
    {
        if self.is_at_end() {
            false
        } else {
            self.peek().token_type == token_type
        }
    }

    fn advance(&mut self)
        requires
            old(self).wf(),
        ensures
            final(self).wf(),
            final(self).tokens == old(self).tokens,
            final(self).errors == old(self).errors,
            final(self).current == if grammar::at_end(old(self).tokens@, old(self).current as int) {
                old(self).current as int
            } else {
                old(self).current + 1
            },
    {
        if !self.is_at_end() {
            assert(self.current + 1 < self.tokens.len());
            self.current = self.current + 1;
        }
    }

    /// Takes the next token if it is of kind `token_type`.
    fn match_one(&mut self, token_type: TokenType) -> (r: bool)
        requires
            old(self).wf(),
        ensures
            final(self).wf(),
            final(self).tokens == old(self).tokens,
            final(self).errors == old(self).errors,
            r == grammar::check(old(self).tokens@, old(self).current as int, token_type),
            final(self).current == if r { old(self).current + 1 } else { old(self).current as int },
    {
        if self.check(token_type) {
            self.advance();
            true
        } else {
            false
        }
    }

    fn error(token: &Token, msg: String) -> (e: ParseError)
        ensures
            e@ == (SpecParseError { token: *token, msg: msg@ }),
    {
        ParseError { token: token.clone(), msg }
    }

    fn consume(&mut self, token_type: TokenType, msg: String) -> (r: Result<Token, ParseError>)
        requires
            old(self).wf(),
        ensures
            final(self).wf(),
            final(self).tokens == old(self).tokens,
            final(self).errors == old(self).errors,
            ({
                let s = grammar::consume(old(self).tokens@, old(self).current as int, old(self).errors(), token_type, msg@);
                &&& final(self).current == s.pos
                &&& match r {
                    Ok(t) => s.result == Ok::<Token, SpecParseError>(t),
                    Err(e) => s.result == Err::<Token, SpecParseError>(e@),
                }
            }),
    {
        if self.check(token_type) {
            let t = self.peek().clone();
            self.advance();
            Ok(t)
        } else {
            Err(Self::error(self.peek(), msg))
        }
    }

    fn push_error(&mut self, e: ParseError)
        requires
            old(self).wf(),
        ensures
            final(self).wf(),
            final(self).tokens == old(self).tokens,
            final(self).current == old(self).current,
            final(self).errors() == old(self).errors().push(e@),
    {
        let ghost before = self.errors();
        self.errors.push(e);
        assert(self.errors() =~= before.push(e@));
    }
}


/// The parser after a rule ends as the rule's outcome `s` says, and `r` is
/// the parsed value or the error of `s`.
spec fn settled(pre: Parser, post: Parser, s_pos: int, s_errors: Seq<SpecParseError>) -> bool {
    &&& post.wf()
    &&& post.tokens@ == pre.tokens@
    &&& pre.current <= post.current
    &&& post.current == s_pos
    &&& post.errors() == s_errors
}

spec fn expr_outcome(pre: Parser, post: Parser, r: Result<Expr, ParseError>, s: Parsed<SpecExpr>) -> bool {
    &&& settled(pre, post, s.pos, s.errors)
    &&& expr_result(r) == s.result
    &&& (r is Ok ==> pre.current < post.current)
}

spec fn stmt_outcome(pre: Parser, post: Parser, r: Result<Stmt, ParseError>, s: Parsed<SpecStmt>) -> bool {
    &&& settled(pre, post, s.pos, s.errors)
    &&& stmt_result(r) == s.result
    &&& (r is Ok ==> pre.current < post.current)
}

impl Parser {
    fn expression(&mut self) -> (r: Result<Expr, ParseError>)
        requires
            old(self).wf(),
        ensures
            expr_outcome(*old(self), *final(self), r, grammar::expression(old(self).tokens@, old(self).current as int, old(self).errors())),
        decreases old(self).tokens@.len() - old(self).current, 32int,
    {
        proof {
            grammar::lemma_unfold_expression(old(self).tokens@, old(self).current as int, old(self).errors());
        }
        self.assignment()
    }

    fn assignment(&mut self) -> (r: Result<Expr, ParseError>)
        requires
            old(self).wf(),
        ensures
            expr_outcome(*old(self), *final(self), r, grammar::assignment(old(self).tokens@, old(self).current as int, old(self).errors())),
        decreases old(self).tokens@.len() - old(self).current, 31int,
    {
        proof {
            grammar::lemma_unfold_assignment(old(self).tokens@, old(self).current as int, old(self).errors());
        }
        let expr = self.or_expr()?;
        if self.check(TokenType::Equal) {
            let equals = self.peek().clone();
            self.advance();
            let value = self.assignment()?;
            match expr {
                Expr::Get { object, name } => Ok(Expr::SetProperty { object, name, value: Box::new(value) }),
                Expr::Variable { name, id } => Ok(Expr::Assign { name, value: Box::new(value), id }),
                _ => {
                    self.push_error(ParseError { token: equals, msg: String::from_str("Invalid assignment target.") });
                    Ok(expr)
                },
            }
        } else {
            Ok(expr)
        }
    }

    fn or_expr(&mut self) -> (r: Result<Expr, ParseError>)
        requires
            old(self).wf(),
        ensures
            expr_outcome(*old(self), *final(self), r, grammar::or_expr(old(self).tokens@, old(self).current as int, old(self).errors())),
        decreases old(self).tokens@.len() - old(self).current, 30int,
    {
        proof {
            grammar::lemma_unfold_or_expr(old(self).tokens@, old(self).current as int, old(self).errors());
        }
        let ghost ts = self.tokens@;
        let ghost p0 = self.current as int;
        let ghost e0 = self.errors();
        let mut expr = self.and_expr()?;
        while self.check(TokenType::Or)
            invariant
                self.wf(),
                self.tokens@ == ts,
                ts == old(self).tokens@,
                p0 == old(self).current,
                e0 == old(self).errors(),
                p0 < self.current,
                grammar::or_expr(ts, p0, e0) == grammar::or_rest(ts, self.current as int, self.errors(), expr@),
            decreases self.tokens@.len() - self.current,
        {
            proof {
                grammar::lemma_unfold_or_rest(ts, self.current as int, self.errors(), expr@);
            }
            let operator = self.peek().clone();
            self.advance();
            let right = self.and_expr()?;
            expr = Expr::Logical { left: Box::new(expr), operator, right: Box::new(right) };
        }
        proof {
            grammar::lemma_unfold_or_rest(ts, self.current as int, self.errors(), expr@);
        }
        Ok(expr)
    }

    fn and_expr(&mut self) -> (r: Result<Expr, ParseError>)
        requires
            old(self).wf(),
        ensures
            expr_outcome(*old(self), *final(self), r, grammar::and_expr(old(self).tokens@, old(self).current as int, old(self).errors())),
        decreases old(self).tokens@.len() - old(self).current, 28int,
    {
        proof {
            grammar::lemma_unfold_and_expr(old(self).tokens@, old(self).current as int, old(self).errors());
        }
        let ghost ts = self.tokens@;
        let ghost p0 = self.current as int;
        let ghost e0 = self.errors();
        let mut expr = self.equality()?;
        while self.check(TokenType::And)
            invariant
                self.wf(),
                self.tokens@ == ts,
                ts == old(self).tokens@,
                p0 == old(self).current,
                e0 == old(self).errors(),
                p0 < self.current,
                grammar::and_expr(ts, p0, e0) == grammar::and_rest(ts, self.current as int, self.errors(), expr@),
            decreases self.tokens@.len() - self.current,
        {
            proof {
                grammar::lemma_unfold_and_rest(ts, self.current as int, self.errors(), expr@);
            }
            let operator = self.peek().clone();
            self.advance();
            let right = self.equality()?;
            expr = Expr::Logical { left: Box::new(expr), operator, right: Box::new(right) };
        }
        proof {
            grammar::lemma_unfold_and_rest(ts, self.current as int, self.errors(), expr@);
        }
        Ok(expr)
    }

    fn equality(&mut self) -> (r: Result<Expr, ParseError>)
        requires
            old(self).wf(),
        ensures
            expr_outcome(*old(self), *final(self), r, grammar::equality(old(self).tokens@, old(self).current as int, old(self).errors())),
        decreases old(self).tokens@.len() - old(self).current, 26int,
    {
        proof {
            grammar::lemma_unfold_equality(old(self).tokens@, old(self).current as int, old(self).errors());
        }
        let ghost ts = self.tokens@;
        let ghost p0 = self.current as int;
        let ghost e0 = self.errors();
        let mut expr = self.comparison()?;
        while self.check(TokenType::BangEqual) || self.check(TokenType::EqualEqual)
            invariant
                self.wf(),
                self.tokens@ == ts,
                ts == old(self).tokens@,
                p0 == old(self).current,
                e0 == old(self).errors(),
                p0 < self.current,
                grammar::equality(ts, p0, e0) == grammar::equality_rest(ts, self.current as int, self.errors(), expr@),
            decreases self.tokens@.len() - self.current,
        {
            proof {
                grammar::lemma_unfold_equality_rest(ts, self.current as int, self.errors(), expr@);
            }
            let operator = self.peek().clone();
            self.advance();
            let right = self.comparison()?;
            expr = Expr::Binary { left: Box::new(expr), operator, right: Box::new(right) };
        }
        proof {
            grammar::lemma_unfold_equality_rest(ts, self.current as int, self.errors(), expr@);
        }
        Ok(expr)
    }

    fn comparison(&mut self) -> (r: Result<Expr, ParseError>)
        requires
            old(self).wf(),
        ensures
            expr_outcome(*old(self), *final(self), r, grammar::comparison(old(self).tokens@, old(self).current as int, old(self).errors())),
        decreases old(self).tokens@.len() - old(self).current, 24int,
    {
        proof {
            grammar::lemma_unfold_comparison(old(self).tokens@, old(self).current as int, old(self).errors());
        }
        let ghost ts = self.tokens@;
        let ghost p0 = self.current as int;
        let ghost e0 = self.errors();
        let mut expr = self.term()?;
        while self.check(TokenType::Greater) || self.check(TokenType::GreaterEqual) || self.check(TokenType::Less) || self.check(TokenType::LessEqual)
            invariant
                self.wf(),
                self.tokens@ == ts,
                ts == old(self).tokens@,
                p0 == old(self).current,
                e0 == old(self).errors(),
                p0 < self.current,
                grammar::comparison(ts, p0, e0) == grammar::comparison_rest(ts, self.current as int, self.errors(), expr@),
            decreases self.tokens@.len() - self.current,
        {
            proof {
                grammar::lemma_unfold_comparison_rest(ts, self.current as int, self.errors(), expr@);
            }
            let operator = self.peek().clone();
            self.advance();
            let right = self.term()?;
            expr = Expr::Binary { left: Box::new(expr), operator, right: Box::new(right) };
        }
        proof {
            grammar::lemma_unfold_comparison_rest(ts, self.current as int, self.errors(), expr@);
        }
        Ok(expr)
    }

    fn term(&mut self) -> (r: Result<Expr, ParseError>)
        requires
            old(self).wf(),
        ensures
            expr_outcome(*old(self), *final(self), r, grammar::term(old(self).tokens@, old(self).current as int, old(self).errors())),
        decreases old(self).tokens@.len() - old(self).current, 22int,
    {
        proof {
            grammar::lemma_unfold_term(old(self).tokens@, old(self).current as int, old(self).errors());
        }
        let ghost ts = self.tokens@;
        let ghost p0 = self.current as int;
        let ghost e0 = self.errors();
        let mut expr = self.factor()?;
        while self.check(TokenType::Plus) || self.check(TokenType::Minus)
            invariant
                self.wf(),
                self.tokens@ == ts,
                ts == old(self).tokens@,
                p0 == old(self).current,
                e0 == old(self).errors(),
                p0 < self.current,
                grammar::term(ts, p0, e0) == grammar::term_rest(ts, self.current as int, self.errors(), expr@),
            decreases self.tokens@.len() - self.current,
        {
            proof {
                grammar::lemma_unfold_term_rest(ts, self.current as int, self.errors(), expr@);
            }
            let operator = self.peek().clone();
            self.advance();
            let right = self.factor()?;
            expr = Expr::Binary { left: Box::new(expr), operator, right: Box::new(right) };
        }
        proof {
            grammar::lemma_unfold_term_rest(ts, self.current as int, self.errors(), expr@);
        }
        Ok(expr)
    }

    fn factor(&mut self) -> (r: Result<Expr, ParseError>)
        requires
            old(self).wf(),
        ensures
            expr_outcome(*old(self), *final(self), r, grammar::factor(old(self).tokens@, old(self).current as int, old(self).errors())),
        decreases old(self).tokens@.len() - old(self).current, 20int,
    {
        proof {
            grammar::lemma_unfold_factor(old(self).tokens@, old(self).current as int, old(self).errors());
        }
        let ghost ts = self.tokens@;
        let ghost p0 = self.current as int;
        let ghost e0 = self.errors();
        let mut expr = self.unary()?;
        while self.check(TokenType::Star) || self.check(TokenType::Slash)
            invariant
                self.wf(),
                self.tokens@ == ts,
                ts == old(self).tokens@,
                p0 == old(self).current,
                e0 == old(self).errors(),
                p0 < self.current,
                grammar::factor(ts, p0, e0) == grammar::factor_rest(ts, self.current as int, self.errors(), expr@),
            decreases self.tokens@.len() - self.current,
        {
            proof {
                grammar::lemma_unfold_factor_rest(ts, self.current as int, self.errors(), expr@);
            }
            let operator = self.peek().clone();
            self.advance();
            let right = self.unary()?;
            expr = Expr::Binary { left: Box::new(expr), operator, right: Box::new(right) };
        }
        proof {
            grammar::lemma_unfold_factor_rest(ts, self.current as int, self.errors(), expr@);
        }
        Ok(expr)
    }

    fn unary(&mut self) -> (r: Result<Expr, ParseError>)
        requires
            old(self).wf(),
        ensures
            expr_outcome(*old(self), *final(self), r, grammar::unary(old(self).tokens@, old(self).current as int, old(self).errors())),
        decreases old(self).tokens@.len() - old(self).current, 18int,
    {
        proof {
            grammar::lemma_unfold_unary(old(self).tokens@, old(self).current as int, old(self).errors());
        }
        if self.check(TokenType::Bang) || self.check(TokenType::Minus) {
            let operator = self.peek().clone();
            self.advance();
            let right = self.unary()?;
            Ok(Expr::Unary { operator, right: Box::new(right) })
        } else {
            self.call()
        }
    }

    fn call(&mut self) -> (r: Result<Expr, ParseError>)
        requires
            old(self).wf(),
        ensures
            expr_outcome(*old(self), *final(self), r, grammar::call(old(self).tokens@, old(self).current as int, old(self).errors())),
        decreases old(self).tokens@.len() - old(self).current, 17int,
    {
        proof {
            grammar::lemma_unfold_call(old(self).tokens@, old(self).current as int, old(self).errors());
        }
        let ghost ts = self.tokens@;
        let ghost p0 = self.current as int;
        let ghost e0 = self.errors();
        let mut expr = self.primary()?;
        loop
            invariant
                self.wf(),
                self.tokens@ == ts,
                ts == old(self).tokens@,
                p0 == old(self).current,
                e0 == old(self).errors(),
                p0 < self.current,
                grammar::call(ts, p0, e0) == grammar::call_rest(ts, self.current as int, self.errors(), expr@),
            ensures
                self.wf(),
                self.tokens@ == ts,
                ts == old(self).tokens@,
                p0 == old(self).current,
                e0 == old(self).errors(),
                p0 < self.current,
                grammar::call(ts, p0, e0) == grammar::ok(self.current as int, self.errors(), expr@),
            decreases self.tokens@.len() - self.current,
        {
            proof {
                grammar::lemma_unfold_call_rest(ts, self.current as int, self.errors(), expr@);
            }
            if self.check(TokenType::LeftParen) {
                self.advance();
                expr = self.finish_call(expr)?;
            } else if self.check(TokenType::Dot) {
                self.advance();
                let name = self.consume(TokenType::Identifier, String::from_str("Expect property name after '.'."))?;
                expr = Expr::Get { object: Box::new(expr), name };
            } else {
                break;
            }
        }
        proof {
            grammar::lemma_unfold_call_rest(ts, self.current as int, self.errors(), expr@);
        }
        Ok(expr)
    }

    fn finish_call(&mut self, callee: Expr) -> (r: Result<Expr, ParseError>)
        requires
            old(self).wf(),
        ensures
            expr_outcome(
                *old(self),
                *final(self),
                r,
                grammar::finish_call(old(self).tokens@, old(self).current as int, old(self).errors(), callee@),
            ),
        decreases old(self).tokens@.len() - old(self).current, 34int,
    {
        proof {
            grammar::lemma_unfold_finish_call(old(self).tokens@, old(self).current as int, old(self).errors(), callee@);
        }
        let ghost ts = self.tokens@;
        let ghost p0 = self.current as int;
        let ghost e0 = self.errors();
        let mut arguments: Vec<Expr> = Vec::new();
        if !self.check(TokenType::RightParen) {
            loop
                invariant_except_break
                    grammar::arguments(ts, p0, e0, Seq::empty()) == grammar::arguments(
                        ts,
                        self.current as int,
                        self.errors(),
                        expr_views(arguments@),
                    ),
                invariant
                    self.wf(),
                    self.tokens@ == ts,
                    ts == old(self).tokens@,
                    p0 == old(self).current,
                    e0 == old(self).errors(),
                    p0 <= self.current,
                    !grammar::check(ts, p0, TokenType::RightParen),
                ensures
                    self.wf(),
                    self.tokens@ == ts,
                    ts == old(self).tokens@,
                    p0 == old(self).current,
                    e0 == old(self).errors(),
                    p0 <= self.current,
                    grammar::arguments(ts, p0, e0, Seq::empty()) == grammar::ok(
                        self.current as int,
                        self.errors(),
                        expr_views(arguments@),
                    ),
                decreases self.tokens@.len() - self.current,
            {
                proof {
                    grammar::lemma_unfold_finish_call(ts, p0, e0, callee@);
                    grammar::lemma_unfold_arguments(ts, self.current as int, self.errors(), expr_views(arguments@));
                }
                proof {
                    crate::expr::lemma_expr_views(arguments@);
                }
                if arguments.len() >= 255 {
                    let e = Self::error(self.peek(), String::from_str("Can't have more than 255 arguments."));
                    self.push_error(e);
                }
                let ghost before = arguments@;
                let arg = self.expression()?;
                arguments.push(arg);
                proof {
                    crate::expr::lemma_expr_views_push(before, arg);
                }
                if !self.match_one(TokenType::Comma) {
                    break;
                }
            }
        }
        let paren = self.consume(TokenType::RightParen, String::from_str("Expect ')' after arguments."))?;
        Ok(Expr::Call { callee: Box::new(callee), paren, arguments })
    }

    fn primary(&mut self) -> (r: Result<Expr, ParseError>)
        requires
            old(self).wf(),
        ensures
            expr_outcome(*old(self), *final(self), r, grammar::primary(old(self).tokens@, old(self).current as int, old(self).errors())),
        decreases old(self).tokens@.len() - old(self).current, 15int,
    {
        proof {
            grammar::lemma_unfold_primary(old(self).tokens@, old(self).current as int, old(self).errors());
        }
        let ghost ts = self.tokens@;
        let id = self.current;
        let tt = self.peek().token_type;
        assert(tt == grammar::peek_type(ts, id as int));
        match tt {
            TokenType::False => {
                self.advance();
                Ok(Expr::Literal { value: LiteralValue::Bool(false) })
            },
            TokenType::True => {
                self.advance();
                Ok(Expr::Literal { value: LiteralValue::Bool(true) })
            },
            TokenType::Nil => {
                self.advance();
                Ok(Expr::Literal { value: LiteralValue::Nil })
            },
            TokenType::Number | TokenType::String => {
                let value = match &self.peek().literal {
                    Some(l) => l.clone(),
                    None => {
                        assert(false);
                        LiteralValue::Nil
                    },
                };
                self.advance();
                Ok(Expr::Literal { value })
            },
            TokenType::Super => {
                let keyword = self.peek().clone();
                self.advance();
                self.consume(TokenType::Dot, String::from_str("Expect '.' after 'super'."))?;
                let method = self.consume(TokenType::Identifier, String::from_str("Expect superclass method name."))?;
                Ok(Expr::Super { keyword, method, id })
            },
            TokenType::This => {
                let keyword = self.peek().clone();
                self.advance();
                Ok(Expr::This { keyword, id })
            },
            TokenType::Identifier => {
                let name = self.peek().clone();
                self.advance();
                Ok(Expr::Variable { name, id })
            },
            TokenType::LeftParen => {
                self.advance();
                let expr = self.expression()?;
                self.consume(TokenType::RightParen, String::from_str("Expect ')' after expression"))?;
                Ok(Expr::Grouping { expression: Box::new(expr) })
            },
            _ => Err(Self::error(self.peek(), String::from_str("Expect expression."))),
        }
    }
}

spec fn stmts_outcome(
    pre: Parser,
    post: Parser,
    r: Result<Vec<Stmt>, ParseError>,
    s: Parsed<Seq<SpecStmt>>,
) -> bool {
    &&& settled(pre, post, s.pos, s.errors)
    &&& match r {
        Ok(v) => s.result == Ok::<Seq<SpecStmt>, SpecParseError>(stmt_views(v@)),
        Err(e) => s.result == Err::<Seq<SpecStmt>, SpecParseError>(e@),
    }
}

spec fn opt_stmt_outcome(
    pre: Parser,
    post: Parser,
    r: Result<Option<Stmt>, ParseError>,
    s: Parsed<Option<SpecStmt>>,
) -> bool {
    &&& settled(pre, post, s.pos, s.errors)
    &&& match r {
        Ok(v) => s.result == Ok::<Option<SpecStmt>, SpecParseError>(opt_stmt_view(v)),
        Err(e) => s.result == Err::<Option<SpecStmt>, SpecParseError>(e@),
    }
}

spec fn opt_expr_outcome(
    pre: Parser,
    post: Parser,
    r: Result<Option<Expr>, ParseError>,
    s: Parsed<Option<SpecExpr>>,
) -> bool {
    &&& settled(pre, post, s.pos, s.errors)
    &&& match r {
        Ok(v) => s.result == Ok::<Option<SpecExpr>, SpecParseError>(crate::stmt::opt_expr_view(v)),
        Err(e) => s.result == Err::<Option<SpecExpr>, SpecParseError>(e@),
    }
}

spec fn tokens_outcome(
    pre: Parser,
    post: Parser,
    r: Result<Vec<Token>, ParseError>,
    s: Parsed<Seq<Token>>,
) -> bool {
    &&& settled(pre, post, s.pos, s.errors)
    &&& match r {
        Ok(v) => s.result == Ok::<Seq<Token>, SpecParseError>(v@),
        Err(e) => s.result == Err::<Seq<Token>, SpecParseError>(e@),
    }
}

pub open spec fn opt_stmt_view(s: Option<Stmt>) -> Option<SpecStmt> {
    match s {
        Some(x) => Some(x@),
        None => None,
    }
}

proof fn lemma_stmt_views_pair(a: Stmt, b: Stmt)
    ensures
        stmt_views(seq![a, b]) == seq![a@, b@],
{
    crate::stmt::lemma_stmt_views(seq![a, b]);
    assert(stmt_views(seq![a, b]) =~= seq![a@, b@]);
}

impl Parser {
    fn expression_statement(&mut self) -> (r: Result<Stmt, ParseError>)
        requires
            old(self).wf(),
        ensures
            stmt_outcome(*old(self), *final(self), r, grammar::expression_statement(old(self).tokens@, old(self).current as int, old(self).errors())),
    {
        proof {
            grammar::lemma_unfold_expression_statement(old(self).tokens@, old(self).current as int, old(self).errors());
        }
        let expression = self.expression()?;
        self.consume(TokenType::Semicolon, String::from_str("Expect ';' after expression."))?;
        Ok(Stmt::Expression { expression })
    }

    fn print_statement(&mut self) -> (r: Result<Stmt, ParseError>)
        requires
            old(self).wf(),
        ensures
            stmt_outcome(*old(self), *final(self), r, grammar::print_statement(old(self).tokens@, old(self).current as int, old(self).errors())),
    {
        proof {
            grammar::lemma_unfold_print_statement(old(self).tokens@, old(self).current as int, old(self).errors());
        }
        let value = self.expression()?;
        self.consume(TokenType::Semicolon, String::from_str("Expect ';' after value."))?;
        Ok(Stmt::Print { expression: value })
    }

    fn return_statement(&mut self) -> (r: Result<Stmt, ParseError>)
        requires
            old(self).wf(),
            old(self).current >= 1,
        ensures
            settled(*old(self), *final(self), grammar::return_statement(old(self).tokens@, old(self).current as int, old(self).errors()).pos,
                grammar::return_statement(old(self).tokens@, old(self).current as int, old(self).errors()).errors),
            stmt_result(r) == grammar::return_statement(old(self).tokens@, old(self).current as int, old(self).errors()).result,
            r is Ok ==> old(self).current < final(self).current,
    {
        proof {
            grammar::lemma_unfold_return_statement(old(self).tokens@, old(self).current as int, old(self).errors());
        }
        let keyword = self.previous().clone();
        let value = if self.check(TokenType::Semicolon) {
            None
        } else {
            Some(self.expression()?)
        };
        self.consume(TokenType::Semicolon, String::from_str("Expect ';' after return value."))?;
        Ok(Stmt::Return { keyword, value })
    }

    fn var_declaration(&mut self) -> (r: Result<Stmt, ParseError>)
        requires
            old(self).wf(),
        ensures
            stmt_outcome(*old(self), *final(self), r, grammar::var_declaration(old(self).tokens@, old(self).current as int, old(self).errors())),
    {
        proof {
            grammar::lemma_unfold_var_declaration(old(self).tokens@, old(self).current as int, old(self).errors());
        }
        let name = self.consume(TokenType::Identifier, String::from_str("Expect variable name."))?;
        let initializer = if self.match_one(TokenType::Equal) {
            self.expression()?
        } else {
            Expr::Literal { value: LiteralValue::Nil }
        };
        self.consume(TokenType::Semicolon, String::from_str("Expect ';' after variable declaration."))?;
        Ok(Stmt::Var { name, initializer })
    }

    fn while_statement(&mut self) -> (r: Result<Stmt, ParseError>)
        requires
            old(self).wf(),
        ensures
            stmt_outcome(*old(self), *final(self), r, grammar::while_statement(old(self).tokens@, old(self).current as int, old(self).errors())),
        decreases old(self).tokens@.len() - old(self).current, 43int,
    {
        proof {
            grammar::lemma_unfold_while_statement(old(self).tokens@, old(self).current as int, old(self).errors());
        }
        self.consume(TokenType::LeftParen, String::from_str("Expect '(' after 'while'."))?;
        let condition = self.expression()?;
        self.consume(TokenType::RightParen, String::from_str("Expect ')' after while condition."))?;
        let body = self.statement()?;
        Ok(Stmt::While { condition, body: Box::new(body) })
    }

    fn if_statement(&mut self) -> (r: Result<Stmt, ParseError>)
        requires
            old(self).wf(),
        ensures
            stmt_outcome(*old(self), *final(self), r, grammar::if_statement(old(self).tokens@, old(self).current as int, old(self).errors())),
        decreases old(self).tokens@.len() - old(self).current, 43int,
    {
        proof {
            grammar::lemma_unfold_if_statement(old(self).tokens@, old(self).current as int, old(self).errors());
        }
        self.consume(TokenType::LeftParen, String::from_str("Expect '(' after 'if'."))?;
        let condition = self.expression()?;
        self.consume(TokenType::RightParen, String::from_str("Expect ')' after if condition."))?;
        let then_branch = Box::new(self.statement()?);
        let else_branch = if self.match_one(TokenType::Else) {
            Some(Box::new(self.statement()?))
        } else {
            None
        };
        Ok(Stmt::If { condition, then_branch, else_branch })
    }

    fn for_statement(&mut self) -> (r: Result<Stmt, ParseError>)
        requires
            old(self).wf(),
        ensures
            stmt_outcome(*old(self), *final(self), r, grammar::for_statement(old(self).tokens@, old(self).current as int, old(self).errors())),
        decreases old(self).tokens@.len() - old(self).current, 43int,
    {
        let ghost ts = self.tokens@;
        let ghost p0 = self.current as int;
        let ghost e0 = self.errors();
        proof {
            grammar::lemma_unfold_for_statement(ts, p0, e0);
        }
        self.consume(TokenType::LeftParen, String::from_str("Expect '(' after 'for'."))?;
        let initializer = self.for_initializer()?;
        let condition = self.optional_expression(TokenType::Semicolon)?;
        self.consume(TokenType::Semicolon, String::from_str("Expect ';' after loop condition."))?;
        let increment = self.optional_expression(TokenType::RightParen)?;
        self.consume(TokenType::RightParen, String::from_str("Expect ')' after for clauses."))?;
        let ghost gi = opt_stmt_view(initializer);
        let ghost gc = crate::stmt::opt_expr_view(condition);
        let ghost gn = crate::stmt::opt_expr_view(increment);
        let mut body = self.statement()?;
        let ghost gb = body@;
        match increment {
            Some(increment) => {
                let ghost a = body;
                let step = Stmt::Expression { expression: increment };
                let ghost b = step;
                let mut statements: Vec<Stmt> = Vec::new();
                statements.push(body);
                statements.push(step);
                assert(statements@ =~= seq![a, b]);
                body = Stmt::Block { statements };
                proof {
                    lemma_stmt_views_pair(a, b);
                }
            },
            None => {},
        }
        assert(body@ == (match gn {
            Some(inc) => SpecStmt::Block { statements: seq![gb, SpecStmt::Expression { expression: inc }] },
            None => gb,
        }));
        let condition = match condition {
            Some(c) => c,
            None => Expr::Literal { value: LiteralValue::Bool(true) },
        };
        body = Stmt::While { condition, body: Box::new(body) };
        assert(body@ == grammar::desugar_for(None, gc, gn, gb));
        match initializer {
            Some(initializer) => {
                let ghost a = initializer;
                let ghost b = body;
                let mut statements: Vec<Stmt> = Vec::new();
                statements.push(initializer);
                statements.push(body);
                assert(statements@ =~= seq![a, b]);
                body = Stmt::Block { statements };
                proof {
                    lemma_stmt_views_pair(a, b);
                }
            },
            None => {},
        }
        Ok(body)
    }
}

impl Parser {
    fn statement(&mut self) -> (r: Result<Stmt, ParseError>)
        requires
            old(self).wf(),
        ensures
            stmt_outcome(*old(self), *final(self), r, grammar::statement(old(self).tokens@, old(self).current as int, old(self).errors())),
        decreases old(self).tokens@.len() - old(self).current, 50int,
    {
        proof {
            grammar::lemma_unfold_statement(old(self).tokens@, old(self).current as int, old(self).errors());
        }
        if self.match_one(TokenType::For) {
            self.for_statement()
        } else if self.match_one(TokenType::If) {
            self.if_statement()
        } else if self.match_one(TokenType::Print) {
            self.print_statement()
        } else if self.match_one(TokenType::Return) {
            self.return_statement()
        } else if self.match_one(TokenType::While) {
            self.while_statement()
        } else if self.match_one(TokenType::LeftBrace) {
            self.block()
        } else {
            self.expression_statement()
        }
    }

    fn declaration(&mut self) -> (r: Result<Stmt, ParseError>)
        requires
            old(self).wf(),
        ensures
            stmt_outcome(*old(self), *final(self), r, grammar::declaration(old(self).tokens@, old(self).current as int, old(self).errors())),
        decreases old(self).tokens@.len() - old(self).current, 51int,
    {
        proof {
            grammar::lemma_unfold_declaration(old(self).tokens@, old(self).current as int, old(self).errors());
        }
        if self.match_one(TokenType::Class) {
            self.class_declaration()
        } else if self.match_one(TokenType::Fun) {
            self.function("function")
        } else if self.match_one(TokenType::Var) {
            self.var_declaration()
        } else {
            self.statement()
        }
    }

    fn block_statements(&mut self) -> (r: Result<Vec<Stmt>, ParseError>)
        requires
            old(self).wf(),
        ensures
            stmts_outcome(
                *old(self),
                *final(self),
                r,
                grammar::block_statements(old(self).tokens@, old(self).current as int, old(self).errors(), Seq::empty()),
            ),
            r is Ok ==> old(self).current < final(self).current,
        decreases old(self).tokens@.len() - old(self).current, 54int,
    {
        let ghost ts = self.tokens@;
        let ghost p0 = self.current as int;
        let ghost e0 = self.errors();
        let mut statements: Vec<Stmt> = Vec::new();
        while !self.check(TokenType::RightBrace) && !self.is_at_end()
            invariant
                self.wf(),
                self.tokens@ == ts,
                ts == old(self).tokens@,
                p0 == old(self).current,
                e0 == old(self).errors(),
                p0 <= self.current,
                grammar::block_statements(ts, p0, e0, Seq::empty()) == grammar::block_statements(
                    ts,
                    self.current as int,
                    self.errors(),
                    stmt_views(statements@),
                ),
            decreases self.tokens@.len() - self.current,
        {
            proof {
                grammar::lemma_unfold_block_statements(ts, self.current as int, self.errors(), stmt_views(statements@));
            }
            let ghost before = statements@;
            let s = self.declaration()?;
            let ghost sg = s;
            statements.push(s);
            proof {
                crate::stmt::lemma_stmt_views_push(before, sg);
            }
        }
        proof {
            grammar::lemma_unfold_block_statements(ts, self.current as int, self.errors(), stmt_views(statements@));
        }
        self.consume(TokenType::RightBrace, String::from_str("Expect '}' after block."))?;
        Ok(statements)
    }

    fn block(&mut self) -> (r: Result<Stmt, ParseError>)
        requires
            old(self).wf(),
        ensures
            stmt_outcome(*old(self), *final(self), r, grammar::block(old(self).tokens@, old(self).current as int, old(self).errors())),
        decreases old(self).tokens@.len() - old(self).current, 55int,
    {
        proof {
            grammar::lemma_unfold_block(old(self).tokens@, old(self).current as int, old(self).errors());
        }
        let statements = self.block_statements()?;
        Ok(Stmt::Block { statements })
    }

    fn function(&mut self, kind: &str) -> (r: Result<Stmt, ParseError>)
        requires
            old(self).wf(),
        ensures
            stmt_outcome(*old(self), *final(self), r, grammar::function(old(self).tokens@, old(self).current as int, old(self).errors(), kind@)),
        decreases old(self).tokens@.len() - old(self).current, 44int,
    {
        let ghost ts = self.tokens@;
        let ghost p0 = self.current as int;
        let ghost e0 = self.errors();
        proof {
            grammar::lemma_unfold_function(ts, p0, e0, kind@);
        }
        let name = self.consume(TokenType::Identifier, String::from_str("Expect ").concat(kind).concat(" name."))?;
        self.consume(TokenType::LeftParen, String::from_str("Expect '(' after ").concat(kind).concat(" name."))?;
        let params = if !self.check(TokenType::RightParen) {
            self.parameters()?
        } else {
            Vec::new()
        };
        self.consume(TokenType::RightParen, String::from_str("Expect ')' after parameters."))?;
        self.consume(TokenType::LeftBrace, String::from_str("Expect '{' before ").concat(kind).concat(" body."))?;
        let body = self.block_statements()?;
        Ok(Stmt::Function { name, params, body })
    }

    fn class_declaration(&mut self) -> (r: Result<Stmt, ParseError>)
        requires
            old(self).wf(),
        ensures
            stmt_outcome(*old(self), *final(self), r, grammar::class_declaration(old(self).tokens@, old(self).current as int, old(self).errors())),
        decreases old(self).tokens@.len() - old(self).current, 47int,
    {
        let ghost ts = self.tokens@;
        let ghost p0 = self.current as int;
        let ghost e0 = self.errors();
        proof {
            grammar::lemma_unfold_class_declaration(ts, p0, e0);
        }
        let name = self.consume(TokenType::Identifier, String::from_str("Expect class name"))?;
        let superclass = if self.match_one(TokenType::Less) {
            let id = self.current;
            let sname = self.consume(TokenType::Identifier, String::from_str("Expect superclass name"))?;
            Some(Expr::Variable { name: sname, id })
        } else {
            None
        };
        self.consume(TokenType::LeftBrace, String::from_str("Expect '{' before class body."))?;
        let methods = self.methods()?;
        self.consume(TokenType::RightBrace, String::from_str("Expect '}' after class body."))?;
        Ok(Stmt::Class { name, superclass, methods })
    }

    /// Skips tokens after a syntax error, to where a new statement likely
    /// starts.
    fn synchronize(&mut self)
        requires
            old(self).wf(),
        ensures
            final(self).wf(),
            final(self).tokens == old(self).tokens,
            final(self).errors == old(self).errors,
            final(self).current == grammar::synchronize(old(self).tokens@, old(self).current as int),
            old(self).current <= final(self).current,
            !grammar::at_end(old(self).tokens@, old(self).current as int) ==> old(self).current < final(self).current,
    {
        let ghost ts = self.tokens@;
        self.advance();
        let ghost q0 = self.current as int;
        while !self.is_at_end()
            invariant
                self.wf(),
                self.tokens@ == ts,
                self.tokens == old(self).tokens,
                self.errors == old(self).errors,
                old(self).current <= q0 <= self.current,
                !grammar::at_end(ts, old(self).current as int) ==> old(self).current < q0,
                q0 == if grammar::at_end(ts, old(self).current as int) { old(self).current as int } else { old(self).current + 1 },
                !grammar::at_end(ts, self.current as int) ==> self.current >= 1,
                grammar::synchronize_from(ts, q0) == grammar::synchronize_from(ts, self.current as int),
            decreases self.tokens@.len() - self.current,
        {
            proof {
                grammar::lemma_unfold_synchronize_from(ts, self.current as int);
            }
            if self.previous().token_type == TokenType::Semicolon {
                return;
            }
            match self.peek().token_type {
                TokenType::Class | TokenType::Fun | TokenType::Var | TokenType::For | TokenType::If
                | TokenType::While | TokenType::Print | TokenType::Return => {
                    return;
                },
                _ => {},
            }
            self.advance();
        }
        proof {
            grammar::lemma_unfold_synchronize_from(ts, self.current as int);
        }
    }

    /// Parses the whole token list: every declaration, in order, when there
    /// is no syntax error; else every syntax error, in order (after an error
    /// the parse resumes at the next likely statement start).
    pub fn parse(self) -> (r: Result<Vec<Stmt>, Vec<ParseError>>)
        requires
            self.wf(),
            self.errors().len() == 0,
        ensures
            ({
                let (stmts, errs) = grammar::program(self.tokens(), self.position());
                &&& errs.len() == 0 ==> (r matches Ok(v) && stmt_views(v@) == stmts)
                &&& errs.len() != 0 ==> (r matches Err(es) && errors_view(es@) == errs)
            }),
    {
        let mut this = self;
        let ghost ts = this.tokens@;
        let ghost p0 = this.current as int;
        let mut statements: Vec<Stmt> = Vec::new();
        let mut errors: Vec<ParseError> = Vec::new();
        while !this.is_at_end()
            invariant
                this.wf(),
                this.tokens@ == ts,
                this.errors@.len() == 0,
                grammar::program(ts, p0) == (
                    stmt_views(statements@) + grammar::program(ts, this.current as int).0,
                    errors_view(errors@) + grammar::program(ts, this.current as int).1,
                ),
            decreases this.tokens@.len() - this.current,
        {
            let ghost p = this.current as int;
            proof {
                grammar::lemma_unfold_program(ts, p);
                assert(this.errors() =~= Seq::<SpecParseError>::empty());
            }
            let ghost st_before = statements@;
            let ghost er_before = errors@;
            match this.declaration() {
                Ok(stmt) => {
                    let ghost sg = stmt;
                    statements.push(stmt);
                    errors.append(&mut this.errors);
                    proof {
                        crate::stmt::lemma_stmt_views_push(st_before, sg);
                        let rest = grammar::program(ts, this.current as int);
                        assert(errors_view(errors@) =~= errors_view(er_before) + grammar::declaration(ts, p, Seq::empty()).errors);
                        assert(stmt_views(st_before) + (seq![sg@] + rest.0) =~= stmt_views(statements@) + rest.0);
                        assert(errors_view(er_before) + (grammar::declaration(ts, p, Seq::empty()).errors + rest.1)
                            =~= errors_view(errors@) + rest.1);
                    }
                },
                Err(e) => {
                    this.synchronize();
                    let ghost eg = e@;
                    let ghost mid = this.errors();
                    errors.append(&mut this.errors);
                    errors.push(e);
                    proof {
                        let rest = grammar::program(ts, this.current as int);
                        assert(errors_view(errors@) =~= errors_view(er_before) + mid.push(eg));
                        assert(errors_view(er_before) + (mid.push(eg) + rest.1) =~= errors_view(errors@) + rest.1);
                    }
                },
            }
        }
        proof {
            grammar::lemma_unfold_program(ts, this.current as int);
            assert(stmt_views(statements@) + Seq::<SpecStmt>::empty() =~= stmt_views(statements@));
            assert(errors_view(errors@) + Seq::<SpecParseError>::empty() =~= errors_view(errors@));
            assert(errors_view(errors@).len() == errors@.len());
        }
        if errors.len() == 0 {
            Ok(statements)
        } else {
            Err(errors)
        }
    }
}

impl Parser {
    fn for_initializer(&mut self) -> (r: Result<Option<Stmt>, ParseError>)
        requires
            old(self).wf(),
        ensures
            opt_stmt_outcome(*old(self), *final(self), r, grammar::for_initializer(old(self).tokens@, old(self).current as int, old(self).errors())),
    {
        proof {
            grammar::lemma_unfold_for_initializer(old(self).tokens@, old(self).current as int, old(self).errors());
        }
        if self.match_one(TokenType::Semicolon) {
            Ok(None)
        } else if self.match_one(TokenType::Var) {
            Ok(Some(self.var_declaration()?))
        } else {
            Ok(Some(self.expression_statement()?))
        }
    }

    fn optional_expression(&mut self, stop: TokenType) -> (r: Result<Option<Expr>, ParseError>)
        requires
            old(self).wf(),
        ensures
            opt_expr_outcome(
                *old(self),
                *final(self),
                r,
                grammar::optional_expression(old(self).tokens@, old(self).current as int, old(self).errors(), stop),
            ),
    {
        proof {
            grammar::lemma_unfold_optional_expression(old(self).tokens@, old(self).current as int, old(self).errors(), stop);
        }
        if self.check(stop) {
            Ok(None)
        } else {
            Ok(Some(self.expression()?))
        }
    }

    fn parameters(&mut self) -> (r: Result<Vec<Token>, ParseError>)
        requires
            old(self).wf(),
        ensures
            tokens_outcome(
                *old(self),
                *final(self),
                r,
                grammar::parameters(old(self).tokens@, old(self).current as int, old(self).errors(), Seq::empty()),
            ),
    {
        let ghost ts = self.tokens@;
        let ghost p0 = self.current as int;
        let ghost e0 = self.errors();
        let mut params: Vec<Token> = Vec::new();
        loop
            invariant_except_break
                grammar::parameters(ts, p0, e0, Seq::empty()) == grammar::parameters(
                    ts,
                    self.current as int,
                    self.errors(),
                    params@,
                ),
            invariant
                self.wf(),
                self.tokens@ == ts,
                ts == old(self).tokens@,
                p0 == old(self).current,
                e0 == old(self).errors(),
                p0 <= self.current,
            ensures
                self.wf(),
                self.tokens@ == ts,
                p0 <= self.current,
                grammar::parameters(ts, p0, e0, Seq::empty()) == grammar::ok(self.current as int, self.errors(), params@),
            decreases self.tokens@.len() - self.current,
        {
            proof {
                grammar::lemma_unfold_parameters(ts, self.current as int, self.errors(), params@);
            }
            if params.len() >= 255 {
                let e = Self::error(self.peek(), String::from_str("Can't have more than 255 parameters."));
                self.push_error(e);
            }
            let t = self.consume(TokenType::Identifier, String::from_str("Expect parameter name."))?;
            params.push(t);
            if !self.match_one(TokenType::Comma) {
                break;
            }
        }
        Ok(params)
    }

    fn methods(&mut self) -> (r: Result<Vec<Stmt>, ParseError>)
        requires
            old(self).wf(),
        ensures
            stmts_outcome(
                *old(self),
                *final(self),
                r,
                grammar::methods(old(self).tokens@, old(self).current as int, old(self).errors(), Seq::empty()),
            ),
        decreases old(self).tokens@.len() - old(self).current, 46int,
    {
        let ghost ts = self.tokens@;
        let ghost p0 = self.current as int;
        let ghost e0 = self.errors();
        let mut methods: Vec<Stmt> = Vec::new();
        while !self.check(TokenType::RightBrace) && !self.is_at_end()
            invariant
                self.wf(),
                self.tokens@ == ts,
                ts == old(self).tokens@,
                p0 == old(self).current,
                e0 == old(self).errors(),
                p0 <= self.current,
                grammar::methods(ts, p0, e0, Seq::empty()) == grammar::methods(
                    ts,
                    self.current as int,
                    self.errors(),
                    stmt_views(methods@),
                ),
            decreases self.tokens@.len() - self.current,
        {
            proof {
                grammar::lemma_unfold_methods(ts, self.current as int, self.errors(), stmt_views(methods@));
            }
            let ghost before = methods@;
            let m = self.function("method")?;
            let ghost mg = m;
            methods.push(m);
            proof {
                crate::stmt::lemma_stmt_views_push(before, mg);
            }
        }
        proof {
            grammar::lemma_unfold_methods(ts, self.current as int, self.errors(), stmt_views(methods@));
        }
        Ok(methods)
    }
}
} // verus!
