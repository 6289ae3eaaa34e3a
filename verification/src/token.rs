use vstd::prelude::*;

use crate::expr::{numeral_text, numeral_to_string};
use crate::text::{str_debug, str_debug_text};
use crate::token_type::{token_type_name, TokenType};
use vstd::string::{StrSliceExecFns, StringExecFns};

verus! {

/// The value that a literal token denotes.
///
/// A number is kept as the decimal numeral that the source spells
/// (digits, optionally a `.` and more digits).
#[derive(Debug)]
pub enum LiteralValue {
    Number(String),
    Str(String),
    Bool(bool),
    Nil,
}

/// A lexical token: its kind, the source text it was read from, the literal
/// value it carries (numbers and strings) and the line it ends on.
#[derive(Debug)]
pub struct Token {
    pub token_type: TokenType,
    pub lexeme: String,
    pub literal: Option<LiteralValue>,
    pub line: usize,
}

/// The mathematical content of a literal value.
pub enum SpecLiteral {
    Number(Seq<char>),
    Str(Seq<char>),
    Bool(bool),
    Nil,
}

/// The mathematical content of a token.
pub struct SpecToken {
    pub token_type: TokenType,
    pub lexeme: Seq<char>,
    pub literal: Option<SpecLiteral>,
    pub line: nat,
}

impl View for LiteralValue {
    type V = SpecLiteral;

    open spec fn view(&self) -> SpecLiteral {
        match self {
            LiteralValue::Number(n) => SpecLiteral::Number(n@),
            LiteralValue::Str(s) => SpecLiteral::Str(s@),
            LiteralValue::Bool(b) => SpecLiteral::Bool(*b),
            LiteralValue::Nil => SpecLiteral::Nil,
        }
    }
}

pub open spec fn literal_view(l: Option<LiteralValue>) -> Option<SpecLiteral> {
    match l {
        Some(v) => Some(v@),
        None => None,
    }
}

impl View for Token {
    type V = SpecToken;

    open spec fn view(&self) -> SpecToken {
        SpecToken {
            token_type: self.token_type,
            lexeme: self.lexeme@,
            literal: literal_view(self.literal),
            line: self.line as nat,
        }
    }
}

/// The mathematical contents of a list of tokens.
pub open spec fn token_views(ts: Seq<Token>) -> Seq<SpecToken> {
    ts.map_values(|t: Token| t@)
}

impl Clone for LiteralValue {
    fn clone(&self) -> (res: Self)
        ensures
            res == *self,
    {
        match self {
            LiteralValue::Number(n) => LiteralValue::Number(n.clone()),
            LiteralValue::Str(s) => LiteralValue::Str(s.clone()),
            LiteralValue::Bool(b) => LiteralValue::Bool(*b),
            LiteralValue::Nil => LiteralValue::Nil,
        }
    }
}

impl Clone for Token {
    fn clone(&self) -> (res: Self)
        ensures
            res == *self,
    {
        let literal = match &self.literal {
            Some(l) => Some(l.clone()),
            None => None,
        };
        Token { token_type: self.token_type, lexeme: self.lexeme.clone(), literal, line: self.line }
    }
}


/// How the number a numeral denotes is shown in debug form: as it is shown
/// plainly, with `.0` added when it has no fractional part.
pub open spec fn numeral_debug_text(n: Seq<char>) -> Seq<char> {
    let t = numeral_text(n);
    if t.contains('.') {
        t
    } else {
        t + ".0"@
    }
}

/// How a literal value is shown in debug form.
pub open spec fn literal_debug_text(l: SpecLiteral) -> Seq<char> {
    match l {
        SpecLiteral::Number(n) => "Number("@ + numeral_debug_text(n) + ")"@,
        SpecLiteral::Str(s) => "Str("@ + str_debug_text(s) + ")"@,
        SpecLiteral::Bool(b) => if b { "Bool(true)"@ } else { "Bool(false)"@ },
        SpecLiteral::Nil => "Nil"@,
    }
}

/// How a token is shown: its kind, its lexeme, and its literal in debug form
/// (`null` when it has none), separated by spaces.
pub open spec fn token_text(t: SpecToken) -> Seq<char> {
    token_type_name(t.token_type) + " "@ + t.lexeme + " "@ + match t.literal {
        Some(l) => literal_debug_text(l),
        None => "null"@,
    }
}

impl Token {
    /// The token as `KIND lexeme literal`.
    pub fn to_string(&self) -> (s: String)
        ensures
            s@ == token_text(self@),
    {
        let mut s = String::from_str(self.token_type.name());
        s.append(" ");
        s.append(self.lexeme.as_str());
        s.append(" ");
        match &self.literal {
            Some(LiteralValue::Number(n)) => {
                s.append("Number(");
                let t = numeral_to_string(n);
                s.append(t.as_str());
                if !has_point(&t) {
                    s.append(".0");
                }
                s.append(")");
            },
            Some(LiteralValue::Str(v)) => {
                s.append("Str(");
                let d = str_debug(v.as_str());
                s.append(d.as_str());
                s.append(")");
            },
            Some(LiteralValue::Bool(b)) => {
                if *b {
                    s.append("Bool(true)");
                } else {
                    s.append("Bool(false)");
                }
            },
            Some(LiteralValue::Nil) => s.append("Nil"),
            None => s.append("null"),
        }
        s
    }
}

/// Whether `t` holds a `.`.
fn has_point(t: &String) -> (r: bool)
    ensures
        r == t@.contains('.'),
{
    let chars = t.as_str();
    let len = chars.unicode_len();
    let mut i: usize = 0;
    while i < len
        invariant
            len == t@.len(),
            chars@ == t@,
            i <= len,
            forall|k: int| 0 <= k < i ==> t@[k] != '.',
        decreases len - i,
    {
        if chars.get_char(i) == '.' {
            assert(t@[i as int] == '.');
            return true;
        }
        i = i + 1;
    }
    false
}

} // verus!
