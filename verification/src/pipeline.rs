//! From source text to a program ready to run: scanning, parsing and
//! resolving, stopping at the first stage that finds errors.

use vstd::prelude::*;

use crate::expr::join;
use crate::grammar::{program, SpecParseError};
use crate::parser::{errors_view, parse_error_text, ParseError, Parser};
use crate::resolution::{initial_state, resolve_stmts, SpecResolveError};
use crate::resolver::{locals_view, resolve_error_text, resolve_errors_view, ResolveError, Resolver};
use crate::scanner::{scan_errors_of, scan_errors_text, scan_tokens_of, Scanner};
use crate::stmt::{stmt_views, Stmt};
use crate::token::{token_views, Token};
use vstd::string::{StrSliceExecFns, StringExecFns};

verus! {

/// The texts of syntax errors.
pub open spec fn parse_error_texts(es: Seq<SpecParseError>) -> Seq<Seq<char>> {
    es.map_values(|e: SpecParseError| parse_error_text(e))
}

/// The texts of static errors.
pub open spec fn resolve_error_texts(es: Seq<SpecResolveError>) -> Seq<Seq<char>> {
    es.map_values(|e: SpecResolveError| resolve_error_text(e))
}

/// What preparing a token list for running gives: the syntax errors, one per
/// line, if any; else the static errors, one per line, if any; else the
/// statements and, for each variable occurrence bound in a local scope, its
/// token position and how many scopes out its binding lives.
pub open spec fn prepared(ts: Seq<Token>, r: Result<(Seq<crate::stmt::SpecStmt>, Seq<(nat, nat)>), Seq<char>>) -> bool {
    let (stmts, perrs) = program(ts, 0);
    let st = resolve_stmts(initial_state(), stmts);
    if perrs.len() != 0 {
        r == Err::<(Seq<crate::stmt::SpecStmt>, Seq<(nat, nat)>), Seq<char>>(join(parse_error_texts(perrs), "\n"@))
    } else if st.errors.len() != 0 {
        r == Err::<(Seq<crate::stmt::SpecStmt>, Seq<(nat, nat)>), Seq<char>>(
            join(resolve_error_texts(st.errors), "\n"@),
        )
    } else {
        r == Ok::<(Seq<crate::stmt::SpecStmt>, Seq<(nat, nat)>), Seq<char>>((stmts, st.locals))
    }
}

/// The mathematical content of what `compile` returns.
pub open spec fn compiled_view(r: Result<(Vec<Stmt>, Vec<(usize, usize)>), String>) -> Result<
    (Seq<crate::stmt::SpecStmt>, Seq<(nat, nat)>),
    Seq<char>,
> {
    match r {
        Ok((stmts, locals)) => Ok((stmt_views(stmts@), locals_view(locals@))),
        Err(m) => Err(m@),
    }
}

/// `parts` joined with line breaks.
fn join_lines(parts: &Vec<String>) -> (s: String)
    ensures
        s@ == join(parts@.map_values(|p: String| p@), "\n"@),
{
    let ghost texts = parts@.map_values(|p: String| p@);
    let mut s = String::new();
    let mut i: usize = 0;
    proof {
        assert(texts.take(0) =~= Seq::<Seq<char>>::empty());
    }
    while i < parts.len()
        invariant
            i <= parts@.len(),
            texts == parts@.map_values(|p: String| p@),
            s@ == join(texts.take(i as int), "\n"@),
        decreases parts.len() - i,
    {
        if i > 0 {
            s.append("\n");
        }
        s.append(parts[i].as_str());
        proof {
            assert(texts.take(i + 1).drop_last() =~= texts.take(i as int));
            assert(texts.take(i + 1).last() == parts@[i as int]@);
            if i == 0 {
                assert(texts.take(1) =~= seq![parts@[0]@]);
            }
        }
        i = i + 1;
    }
    proof {
        assert(texts.take(parts@.len() as int) =~= texts);
    }
    s
}

/// The syntax errors, one per line.
fn parse_errors_text(es: &Vec<ParseError>) -> (s: String)
    ensures
        s@ == join(parse_error_texts(errors_view(es@)), "\n"@),
{
    let mut parts: Vec<String> = Vec::new();
    let mut i: usize = 0;
    while i < es.len()
        invariant
            i <= es@.len(),
            parts@.len() == i,
            forall|k: int| 0 <= k < i ==> #[trigger] parts@[k]@ == parse_error_text(es@[k]@),
        decreases es.len() - i,
    {
        parts.push(es[i].to_string());
        i = i + 1;
    }
    assert(parts@.map_values(|p: String| p@) =~= parse_error_texts(errors_view(es@)));
    join_lines(&parts)
}

/// The static errors, one per line.
fn resolve_errors_text(es: &Vec<ResolveError>) -> (s: String)
    ensures
        s@ == join(resolve_error_texts(resolve_errors_view(es@)), "\n"@),
{
    let mut parts: Vec<String> = Vec::new();
    let mut i: usize = 0;
    while i < es.len()
        invariant
            i <= es@.len(),
            parts@.len() == i,
            forall|k: int| 0 <= k < i ==> #[trigger] parts@[k]@ == resolve_error_text(es@[k]@),
        decreases es.len() - i,
    {
        parts.push(es[i].to_string());
        i = i + 1;
    }
    assert(parts@.map_values(|p: String| p@) =~= resolve_error_texts(resolve_errors_view(es@)));
    join_lines(&parts)
}

/// Scans, parses and resolves `code`: the lexical errors, one per line, when
/// the scanner finds any; else the syntax errors of the scanned tokens, one
/// per line, when there are any; else the static errors, one per line, when
/// there are any; else the statements and the scope distances of the local
/// variable occurrences.
pub fn compile(code: &str) -> (r: Result<(Vec<Stmt>, Vec<(usize, usize)>), String>)
    requires
        code@.len() < usize::MAX,
    ensures
        scan_errors_of(code@).len() != 0 ==> (r matches Err(m) && m@ == scan_errors_text(scan_errors_of(code@))),
        scan_errors_of(code@).len() == 0 ==> exists|ts: Seq<Token>|
            #[trigger] token_views(ts) == scan_tokens_of(code@) && prepared(ts, compiled_view(r)),
{
    let mut scanner = Scanner::new(code);
    let ghost fresh = scanner;
    scanner.scan_tokens();
    proof {
        crate::scanner::law_fresh_scan(fresh, scanner);
    }
    let tokens = match scanner.into_tokens() {
        Ok(tokens) => tokens,
        Err(errors) => {
            return Err(errors.to_string());
        },
    };
    let ghost ts = tokens@;
    proof {
        crate::scanner::law_scanned_tokens_parse(code@, ts);
        crate::program_laws::law_parsed_programs_resolve(ts, 0);
    }
    let parser = Parser::new(tokens);
    let r = match parser.parse() {
        Ok(stmts) => {
            proof {
                crate::stmt::lemma_stmt_views(stmts@);
                assert forall|i: int| 0 <= i < stmts@.len() implies crate::resolver::superclasses_named(
                    #[trigger] stmts@[i]@,
                ) by {
                    assert(stmt_views(stmts@)[i] == stmts@[i]@);
                }
            }
            match Resolver::new().resolve(stmts.as_slice()) {
                Ok(locals) => Ok((stmts, locals)),
                Err(errors) => Err(resolve_errors_text(&errors)),
            }
        },
        Err(errors) => Err(parse_errors_text(&errors)),
    };
    assert(prepared(ts, compiled_view(r)));
    assert(token_views(ts) == scan_tokens_of(code@));
    r
}

} // verus!
