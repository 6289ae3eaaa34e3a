use vstd::prelude::*;

use crate::text::{chars_to_string, decimal, push_decimal, range_eq, string_push};
use vstd::string::StringExecFns;
use crate::token::{LiteralValue, SpecLiteral, SpecToken, Token};
use crate::token_type::TokenType;

verus! {

// ---------------------------------------------------------------------------
// The lexical grammar, stated over the source text as a sequence of chars.
// ---------------------------------------------------------------------------

pub open spec fn is_digit(c: char) -> bool {
    '0' <= c && c <= '9'
}

pub open spec fn is_alpha(c: char) -> bool {
    ('a' <= c && c <= 'z') || ('A' <= c && c <= 'Z') || c == '_'
}

pub open spec fn is_alpha_numeric(c: char) -> bool {
    is_alpha(c) || is_digit(c)
}

/// The keyword that `text` spells, if any.
pub open spec fn keyword(text: Seq<char>) -> Option<TokenType> {
    if text == seq!['a', 'n', 'd'] {
        Some(TokenType::And)
    } else if text == seq!['c', 'l', 'a', 's', 's'] {
        Some(TokenType::Class)
    } else if text == seq!['e', 'l', 's', 'e'] {
        Some(TokenType::Else)
    } else if text == seq!['f', 'a', 'l', 's', 'e'] {
        Some(TokenType::False)
    } else if text == seq!['f', 'o', 'r'] {
        Some(TokenType::For)
    } else if text == seq!['f', 'u', 'n'] {
        Some(TokenType::Fun)
    } else if text == seq!['i', 'f'] {
        Some(TokenType::If)
    } else if text == seq!['n', 'i', 'l'] {
        Some(TokenType::Nil)
    } else if text == seq!['o', 'r'] {
        Some(TokenType::Or)
    } else if text == seq!['p', 'r', 'i', 'n', 't'] {
        Some(TokenType::Print)
    } else if text == seq!['r', 'e', 't', 'u', 'r', 'n'] {
        Some(TokenType::Return)
    } else if text == seq!['s', 'u', 'p', 'e', 'r'] {
        Some(TokenType::Super)
    } else if text == seq!['t', 'h', 'i', 's'] {
        Some(TokenType::This)
    } else if text == seq!['t', 'r', 'u', 'e'] {
        Some(TokenType::True)
    } else if text == seq!['v', 'a', 'r'] {
        Some(TokenType::Var)
    } else if text == seq!['w', 'h', 'i', 'l', 'e'] {
        Some(TokenType::While)
    } else {
        None
    }
}

/// The first position at or after `i` that does not hold a digit.
pub open spec fn digits_end(src: Seq<char>, i: int) -> int
    decreases src.len() - i,
{
    if 0 <= i < src.len() && is_digit(src[i]) {
        digits_end(src, i + 1)
    } else {
        i
    }
}

/// The first position at or after `i` that does not hold a letter, digit or `_`.
pub open spec fn word_end(src: Seq<char>, i: int) -> int
    decreases src.len() - i,
{
    if 0 <= i < src.len() && is_alpha_numeric(src[i]) {
        word_end(src, i + 1)
    } else {
        i
    }
}

/// The first position at or after `i` that holds `c`, or the length of `src`.
pub open spec fn find_char(src: Seq<char>, i: int, c: char) -> int
    decreases src.len() - i,
{
    if 0 <= i < src.len() && src[i] != c {
        find_char(src, i + 1, c)
    } else if i < src.len() {
        i
    } else {
        src.len() as int
    }
}

/// The number of line breaks in `src[i..j]`.
pub open spec fn count_newlines(src: Seq<char>, i: int, j: int) -> nat
    decreases j - i,
{
    if i < j {
        count_newlines(src, i, j - 1) + if src[j - 1] == '\n' { 1nat } else { 0nat }
    } else {
        0
    }
}

/// The end of a number literal starting at `start`: digits, then optionally
/// a `.` followed by at least one digit and more digits.
pub open spec fn number_end(src: Seq<char>, start: int) -> int {
    let i = digits_end(src, start + 1);
    if i + 1 < src.len() && src[i] == '.' && is_digit(src[i + 1]) {
        digits_end(src, i + 1)
    } else {
        i
    }
}

/// A lexical error: the line it was found on and what went wrong.
pub struct SpecScanError {
    pub line: nat,
    pub msg: Seq<char>,
}

/// What scanning one lexeme starting at some position does: where the next
/// lexeme starts, the line counter afterwards, and the token or error it adds.
pub struct ScanStep {
    pub next: int,
    pub line: nat,
    pub token: Option<SpecToken>,
    pub error: Option<SpecScanError>,
}

pub open spec fn token_step(
    src: Seq<char>,
    start: int,
    end: int,
    line: nat,
    tt: TokenType,
    literal: Option<SpecLiteral>,
) -> ScanStep {
    ScanStep {
        next: end,
        line: line,
        token: Some(
            SpecToken { token_type: tt, lexeme: src.subrange(start, end), literal: literal, line: line },
        ),
        error: None,
    }
}

pub open spec fn skip_step(next: int, line: nat) -> ScanStep {
    ScanStep { next: next, line: line, token: None, error: None }
}

/// One token of one or two characters: the two-character form when the next
/// character is `=`.
pub open spec fn pair_step(
    src: Seq<char>,
    start: int,
    line: nat,
    one: TokenType,
    two: TokenType,
) -> ScanStep {
    if start + 1 < src.len() && src[start + 1] == '=' {
        token_step(src, start, start + 2, line, two, None)
    } else {
        token_step(src, start, start + 1, line, one, None)
    }
}

pub open spec fn string_step(src: Seq<char>, start: int, line: nat) -> ScanStep {
    let end = find_char(src, start + 1, '"');
    let line2 = line + count_newlines(src, start + 1, end);
    if end >= src.len() {
        ScanStep {
            next: src.len() as int,
            line: line2,
            token: None,
            error: Some(SpecScanError { line: line2, msg: "Unterminated string"@ }),
        }
    } else {
        token_step(
            src,
            start,
            end + 1,
            line2,
            TokenType::String,
            Some(SpecLiteral::Str(src.subrange(start + 1, end))),
        )
    }
}

pub open spec fn word_step(src: Seq<char>, start: int, line: nat) -> ScanStep {
    let end = word_end(src, start + 1);
    let tt = match keyword(src.subrange(start, end)) {
        Some(k) => k,
        None => TokenType::Identifier,
    };
    token_step(src, start, end, line, tt, None)
}

/// Scanning the lexeme that starts at `start` (which is inside `src`).
pub open spec fn scan_step(src: Seq<char>, start: int, line: nat) -> ScanStep {
    let c = src[start];
    if c == '(' {
        token_step(src, start, start + 1, line, TokenType::LeftParen, None)
    } else if c == ')' {
        token_step(src, start, start + 1, line, TokenType::RightParen, None)
    } else if c == '{' {
        token_step(src, start, start + 1, line, TokenType::LeftBrace, None)
    } else if c == '}' {
        token_step(src, start, start + 1, line, TokenType::RightBrace, None)
    } else if c == ',' {
        token_step(src, start, start + 1, line, TokenType::Comma, None)
    } else if c == '.' {
        token_step(src, start, start + 1, line, TokenType::Dot, None)
    } else if c == '-' {
        token_step(src, start, start + 1, line, TokenType::Minus, None)
    } else if c == '+' {
        token_step(src, start, start + 1, line, TokenType::Plus, None)
    } else if c == ';' {
        token_step(src, start, start + 1, line, TokenType::Semicolon, None)
    } else if c == '*' {
        token_step(src, start, start + 1, line, TokenType::Star, None)
    } else if c == '!' {
        pair_step(src, start, line, TokenType::Bang, TokenType::BangEqual)
    } else if c == '=' {
        pair_step(src, start, line, TokenType::Equal, TokenType::EqualEqual)
    } else if c == '<' {
        pair_step(src, start, line, TokenType::Less, TokenType::LessEqual)
    } else if c == '>' {
        pair_step(src, start, line, TokenType::Greater, TokenType::GreaterEqual)
    } else if c == '/' {
        if start + 1 < src.len() && src[start + 1] == '/' {
            skip_step(find_char(src, start + 2, '\n'), line)
        } else {
            token_step(src, start, start + 1, line, TokenType::Slash, None)
        }
    } else if c == ' ' || c == '\r' || c == '\t' {
        skip_step(start + 1, line)
    } else if c == '\n' {
        skip_step(start + 1, line + 1)
    } else if c == '"' {
        string_step(src, start, line)
    } else if is_digit(c) {
        let end = number_end(src, start);
        token_step(
            src,
            start,
            end,
            line,
            TokenType::Number,
            Some(SpecLiteral::Number(src.subrange(start, end))),
        )
    } else if is_alpha(c) {
        word_step(src, start, line)
    } else {
        ScanStep {
            next: start + 1,
            line: line,
            token: None,
            error: Some(SpecScanError { line: line, msg: "Unexpected character: "@.push(c) }),
        }
    }
}

pub open spec fn opt_seq<A>(o: Option<A>) -> Seq<A> {
    match o {
        Some(a) => seq![a],
        None => Seq::empty(),
    }
}

/// The tokens and errors of `src[pos..]`, scanned with the line counter at
/// `line`, and the line counter at the end.
pub open spec fn scan_from(src: Seq<char>, pos: int, line: nat) -> (Seq<SpecToken>, Seq<SpecScanError>, nat)
    decreases src.len() - pos,
{
    if 0 <= pos < src.len() {
        let st = scan_step(src, pos, line);
        if pos < st.next <= src.len() {
            let rest = scan_from(src, st.next, st.line);
            (opt_seq(st.token) + rest.0, opt_seq(st.error) + rest.1, rest.2)
        } else {
            (Seq::empty(), Seq::empty(), line)
        }
    } else {
        (Seq::empty(), Seq::empty(), line)
    }
}

/// The end-of-input token, on line `line`.
pub open spec fn eof_token(line: nat) -> SpecToken {
    SpecToken { token_type: TokenType::Eof, lexeme: Seq::empty(), literal: None, line: line }
}

/// The tokens that scanning the whole of `src` yields: the tokens of its
/// lexemes, followed by the end-of-input token.
pub open spec fn scan_tokens_of(src: Seq<char>) -> Seq<SpecToken> {
    let r = scan_from(src, 0, 1);
    r.0.push(eof_token(r.2))
}

/// The lexical errors of `src`, in source order.
pub open spec fn scan_errors_of(src: Seq<char>) -> Seq<SpecScanError> {
    scan_from(src, 0, 1).1
}


// ---------------------------------------------------------------------------
// Facts about the lexical grammar.
// ---------------------------------------------------------------------------

proof fn lemma_digits_end_bounds(src: Seq<char>, i: int)
    requires
        0 <= i <= src.len(),
    ensures
        i <= digits_end(src, i) <= src.len(),
    decreases src.len() - i,
{
    if i < src.len() && is_digit(src[i]) {
        lemma_digits_end_bounds(src, i + 1);
    }
}

proof fn lemma_word_end_bounds(src: Seq<char>, i: int)
    requires
        0 <= i <= src.len(),
    ensures
        i <= word_end(src, i) <= src.len(),
    decreases src.len() - i,
{
    if i < src.len() && is_alpha_numeric(src[i]) {
        lemma_word_end_bounds(src, i + 1);
    }
}

proof fn lemma_find_char_bounds(src: Seq<char>, i: int, c: char)
    requires
        0 <= i,
    ensures
        i <= src.len() ==> i <= find_char(src, i, c),
        find_char(src, i, c) <= src.len(),
        find_char(src, i, c) < src.len() ==> src[find_char(src, i, c)] == c,
    decreases src.len() - i,
{
    if 0 <= i < src.len() && src[i] != c {
        lemma_find_char_bounds(src, i + 1, c);
    }
}

/// Every lexeme is at least one character long and ends within the source.
pub proof fn lemma_scan_step_progress(src: Seq<char>, start: int, line: nat)
    requires
        0 <= start < src.len(),
    ensures
        start < scan_step(src, start, line).next <= src.len(),
        scan_step(src, start, line).line >= line,
{
    lemma_digits_end_bounds(src, start + 1);
    let i = digits_end(src, start + 1);
    if 0 <= i + 1 < src.len() {
        lemma_digits_end_bounds(src, i + 1);
    }
    lemma_word_end_bounds(src, start + 1);
    if start + 2 <= src.len() {
        lemma_find_char_bounds(src, start + 2, '\n');
    }
    lemma_find_char_bounds(src, start + 1, '"');
}


// ---------------------------------------------------------------------------
// The scanner.
// ---------------------------------------------------------------------------

/// A lexical error found while scanning.
#[derive(Debug)]
struct ScanError {
    line: usize,
    msg: String,
}

impl View for ScanError {
    type V = SpecScanError;

    closed spec fn view(&self) -> SpecScanError {
        SpecScanError { line: self.line as nat, msg: self.msg@ }
    }
}

/// The lexical errors of a source text, in the order they were found.
#[derive(Debug)]
pub struct ScanErrors(Vec<ScanError>);

impl View for ScanErrors {
    type V = Seq<SpecScanError>;

    closed spec fn view(&self) -> Seq<SpecScanError> {
        self.0@.map_values(|e: ScanError| e@)
    }
}

/// How one error is shown: `[line N] Error: message`.
pub open spec fn scan_error_text(e: SpecScanError) -> Seq<char> {
    "[line "@ + decimal(e.line) + "] Error: "@ + e.msg
}

/// The errors shown one per line.
pub open spec fn scan_errors_text(es: Seq<SpecScanError>) -> Seq<char>
    decreases es.len(),
{
    if es.len() == 0 {
        Seq::empty()
    } else if es.len() == 1 {
        scan_error_text(es[0])
    } else {
        scan_errors_text(es.drop_last()) + "\n"@ + scan_error_text(es.last())
    }
}

impl ScanErrors {
    /// The errors as text, one `[line N] Error: message` per line.
    pub fn to_string(&self) -> (s: String)
        ensures
            s@ == scan_errors_text(self@),
    {
        let mut s = String::new();
        let mut i: usize = 0;
        let ghost es = self@;
        while i < self.0.len()
            invariant
                i <= self.0.len(),
                es == self@,
                es.len() == self.0.len(),
                forall|k: int| 0 <= k < es.len() ==> #[trigger] es[k] == self.0@[k]@,
                s@ == scan_errors_text(es.take(i as int)),
            decreases self.0.len() - i,
        {
            let e = &self.0[i];
            if i > 0 {
                s.append("\n");
            }
            s.append("[line ");
            push_decimal(&mut s, e.line);
            s.append("] Error: ");
            s.append(e.msg.as_str());
            assert(es.take(i + 1).drop_last() =~= es.take(i as int));
            i = i + 1;
        }
        assert(es.take(i as int) =~= es);
        s
    }
}

/// Turns source text into tokens, one lexeme at a time, collecting the
/// lexical errors it meets on the way.
pub struct Scanner {
    source: Vec<char>,
    tokens: Vec<Token>,
    start: usize,
    current: usize,
    line: usize,
    errors: Vec<ScanError>,
}

impl Scanner {
    /// The source text being scanned.
    pub closed spec fn source(&self) -> Seq<char> {
        self.source@
    }

    /// The tokens found so far.
    pub closed spec fn tokens(&self) -> Seq<SpecToken> {
        self.tokens@.map_values(|t: Token| t@)
    }

    /// The errors found so far.
    pub closed spec fn errors(&self) -> Seq<SpecScanError> {
        self.errors@.map_values(|e: ScanError| e@)
    }

    /// Where the next lexeme starts.
    pub closed spec fn position(&self) -> int {
        self.current as int
    }

    /// The current line number.
    pub closed spec fn line(&self) -> nat {
        self.line as nat
    }

    /// The scanner's state is consistent.
    pub closed spec fn wf(&self) -> bool {
        &&& self.start <= self.current <= self.source@.len()
        &&& self.source@.len() < usize::MAX
        &&& 1 <= self.line <= self.current + 1
    }

    /// A scanner at the start of `source`, on line 1, with nothing found yet.
    pub fn new(source: &str) -> (s: Scanner)
        requires
            source@.len() < usize::MAX,
        ensures
            s.wf(),
            s.source() == source@,
            s.tokens() == Seq::<SpecToken>::empty(),
            s.errors() == Seq::<SpecScanError>::empty(),
            s.position() == 0,
            s.line() == 1,
    {
        let mut chars: Vec<char> = Vec::new();
        for c in it: source.chars()
            invariant
                chars@ == it.seq().take(it.index() as int),
                it.seq() == source@,
        {
            chars.push(c);
        }
        let s = Scanner { source: chars, tokens: Vec::new(), start: 0, current: 0, line: 1, errors: Vec::new() };
        assert(s.tokens() =~= Seq::<SpecToken>::empty());
        assert(s.errors() =~= Seq::<SpecScanError>::empty());
        s
    }
}


impl Scanner {
    /// Scans the rest of the source: every lexeme from the current position
    /// on, then the end-of-input token.
    pub fn scan_tokens(&mut self)
        requires
            old(self).wf(),
        ensures
            final(self).wf(),
            final(self).source() == old(self).source(),
            final(self).position() == old(self).source().len(),
            ({
                let r = scan_from(old(self).source(), old(self).position(), old(self).line());
                &&& final(self).tokens() == old(self).tokens() + r.0.push(eof_token(r.2))
                &&& final(self).errors() == old(self).errors() + r.1
                &&& final(self).line() == r.2
            }),
    {
        let ghost src = self.source@;
        let ghost pos0 = self.current as int;
        let ghost line0 = self.line as nat;
        let ghost toks0 = self.tokens();
        let ghost errs0 = self.errors();
        while !self.is_at_end()
            invariant
                self.wf(),
                self.source@ == src,
                pos0 <= self.current,
                ({
                    let all = scan_from(src, pos0, line0);
                    let rest = scan_from(src, self.current as int, self.line as nat);
                    &&& all.2 == rest.2
                    &&& toks0 + all.0 == self.tokens() + rest.0
                    &&& errs0 + all.1 == self.errors() + rest.1
                }),
            decreases self.source@.len() - self.current,
        {
            self.start = self.current;
            let ghost before_toks = self.tokens();
            let ghost before_errs = self.errors();
            let ghost p = self.current as int;
            let ghost l = self.line as nat;
            proof {
                lemma_scan_step_progress(src, p, l);
            }
            self.scan_token();
            proof {
                let st = scan_step(src, p, l);
                let rest = scan_from(src, st.next, st.line);
                assert(scan_from(src, p, l) == (opt_seq(st.token) + rest.0, opt_seq(st.error) + rest.1, rest.2));
                assert(before_toks + (opt_seq(st.token) + rest.0) =~= (before_toks + opt_seq(st.token)) + rest.0);
                assert(before_errs + (opt_seq(st.error) + rest.1) =~= (before_errs + opt_seq(st.error)) + rest.1);
            }
        }
        let ghost before = self.tokens();
        let line = self.line;
        self.tokens.push(Token { token_type: TokenType::Eof, lexeme: String::new(), literal: None, line });
        proof {
            let all = scan_from(src, pos0, line0);
            assert(scan_from(src, self.current as int, self.line as nat).0 =~= Seq::<SpecToken>::empty());
            assert(scan_from(src, self.current as int, self.line as nat).1 =~= Seq::<SpecScanError>::empty());
            assert(self.tokens() =~= before.push(eof_token(self.line as nat)));
            assert(toks0 + all.0 =~= before);
            assert(errs0 + all.1 =~= self.errors());
            assert(self.tokens() =~= toks0 + all.0.push(eof_token(all.2)));
        }
    }

    /// The tokens, when no lexical error was found; else the errors.
    pub fn into_tokens(self) -> (r: Result<Vec<Token>, ScanErrors>)
        ensures
            self.errors().len() == 0 ==> (r matches Ok(ts) && ts@.map_values(|t: Token| t@) == self.tokens()),
            self.errors().len() != 0 ==> (r matches Err(es) && es@ == self.errors()),
    {
        if self.errors.len() == 0 {
            Ok(self.tokens)
        } else {
            Err(ScanErrors(self.errors))
        }
    }

    fn is_at_end(&self) -> (r: bool)
        ensures
            r == (self.current >= self.source@.len()),
    {
        self.current >= self.source.len()
    }

    /// Scans the lexeme that starts at the current position.
    fn scan_token(&mut self)
        requires
            old(self).wf(),
            old(self).start == old(self).current,
            old(self).current < old(self).source@.len(),
        ensures
            ({
                let st = scan_step(old(self).source@, old(self).current as int, old(self).line as nat);
                &&& final(self).wf()
                &&& final(self).source@ == old(self).source@
                &&& final(self).current == st.next
                &&& final(self).line == st.line
                &&& final(self).tokens() == old(self).tokens() + opt_seq(st.token)
                &&& final(self).errors() == old(self).errors() + opt_seq(st.error)
            }),
    {
        let ghost src = self.source@;
        let ghost old_toks = self.tokens();
        let ghost old_errs = self.errors();
        let c = self.advance();
        if c == '(' {
            self.add_token(TokenType::LeftParen);
        } else if c == ')' {
            self.add_token(TokenType::RightParen);
        } else if c == '{' {
            self.add_token(TokenType::LeftBrace);
        } else if c == '}' {
            self.add_token(TokenType::RightBrace);
        } else if c == ',' {
            self.add_token(TokenType::Comma);
        } else if c == '.' {
            self.add_token(TokenType::Dot);
        } else if c == '-' {
            self.add_token(TokenType::Minus);
        } else if c == '+' {
            self.add_token(TokenType::Plus);
        } else if c == ';' {
            self.add_token(TokenType::Semicolon);
        } else if c == '*' {
            self.add_token(TokenType::Star);
        } else if c == '!' {
            if self.match_char('=') {
                self.add_token(TokenType::BangEqual);
            } else {
                self.add_token(TokenType::Bang);
            }
        } else if c == '=' {
            if self.match_char('=') {
                self.add_token(TokenType::EqualEqual);
            } else {
                self.add_token(TokenType::Equal);
            }
        } else if c == '<' {
            if self.match_char('=') {
                self.add_token(TokenType::LessEqual);
            } else {
                self.add_token(TokenType::Less);
            }
        } else if c == '>' {
            if self.match_char('=') {
                self.add_token(TokenType::GreaterEqual);
            } else {
                self.add_token(TokenType::Greater);
            }
        } else if c == '/' {
            if self.match_char('/') {
                while self.peek() != '\n' && !self.is_at_end()
                    invariant
                        self.wf(),
                        self.source@ == src,
                        self.start == old(self).start,
                        self.start + 2 <= self.current,
                        find_char(src, self.start + 2, '\n') == find_char(src, self.current as int, '\n'),
                        self.tokens() == old_toks,
                        self.errors() == old_errs,
                        self.line == old(self).line,
                    decreases self.source@.len() - self.current,
                {
                    self.advance();
                }
            } else {
                self.add_token(TokenType::Slash);
            }
        } else if c == ' ' || c == '\r' || c == '\t' {
        } else if c == '\n' {
            self.line = self.line + 1;
        } else if c == '"' {
            self.string();
        } else if is_digit_char(c) {
            self.number();
        } else if is_alpha_char(c) {
            self.identifier();
        } else {
            let mut msg = String::from_str("Unexpected character: ");
            string_push(&mut msg, c);
            let line = self.line;
            self.error(line, msg);
        }
        proof {
            assert(opt_seq::<SpecToken>(None) =~= Seq::<SpecToken>::empty());
            assert(opt_seq::<SpecScanError>(None) =~= Seq::<SpecScanError>::empty());
        }
    }

    fn number(&mut self)
        requires
            old(self).wf(),
            old(self).current == old(self).start + 1,
            is_digit(old(self).source@[old(self).start as int]),
        ensures
            ({
                let st = scan_step(old(self).source@, old(self).start as int, old(self).line as nat);
                &&& final(self).wf()
                &&& final(self).source@ == old(self).source@
                &&& final(self).start == old(self).start
                &&& final(self).current == st.next
                &&& final(self).line == st.line
                &&& final(self).tokens() == old(self).tokens() + opt_seq(st.token)
                &&& final(self).errors() == old(self).errors()
            }),
    {
        let ghost src = self.source@;
        while is_digit_char(self.peek())
            invariant
                self.wf(),
                self.source@ == src,
                self.start == old(self).start,
                self.line == old(self).line,
                self.tokens == old(self).tokens,
                self.errors == old(self).errors,
                self.start < self.current,
                digits_end(src, self.start + 1) == digits_end(src, self.current as int),
            decreases self.source@.len() - self.current,
        {
            self.advance();
        }
        if self.peek() == '.' && is_digit_char(self.peek_next()) {
            self.advance();
            while is_digit_char(self.peek())
                invariant
                    self.wf(),
                    self.source@ == src,
                    self.start == old(self).start,
                    self.line == old(self).line,
                    self.tokens == old(self).tokens,
                    self.errors == old(self).errors,
                    self.start < self.current,
                    digits_end(src, digits_end(src, self.start + 1) + 1) == digits_end(src, self.current as int),
                decreases self.source@.len() - self.current,
            {
                self.advance();
            }
        }
        let text = chars_to_string(&self.source, self.start, self.current);
        self.add_token_with_literal(TokenType::Number, Some(LiteralValue::Number(text)));
    }

    fn identifier(&mut self)
        requires
            old(self).wf(),
            old(self).current == old(self).start + 1,
            is_alpha(old(self).source@[old(self).start as int]),
        ensures
            ({
                let st = scan_step(old(self).source@, old(self).start as int, old(self).line as nat);
                &&& final(self).wf()
                &&& final(self).source@ == old(self).source@
                &&& final(self).start == old(self).start
                &&& final(self).current == st.next
                &&& final(self).line == st.line
                &&& final(self).tokens() == old(self).tokens() + opt_seq(st.token)
                &&& final(self).errors() == old(self).errors()
            }),
    {
        let ghost src = self.source@;
        while is_alpha_numeric_char(self.peek())
            invariant
                self.wf(),
                self.source@ == src,
                self.start == old(self).start,
                self.line == old(self).line,
                self.tokens == old(self).tokens,
                self.errors == old(self).errors,
                self.start < self.current,
                word_end(src, self.start + 1) == word_end(src, self.current as int),
            decreases self.source@.len() - self.current,
        {
            self.advance();
        }
        let tt = match keyword_at(&self.source, self.start, self.current) {
            Some(k) => k,
            None => TokenType::Identifier,
        };
        self.add_token(tt);
    }

    fn string(&mut self)
        requires
            old(self).wf(),
            old(self).current == old(self).start + 1,
            old(self).source@[old(self).start as int] == '"',
        ensures
            ({
                let st = scan_step(old(self).source@, old(self).start as int, old(self).line as nat);
                &&& final(self).wf()
                &&& final(self).source@ == old(self).source@
                &&& final(self).start == old(self).start
                &&& final(self).current == st.next
                &&& final(self).line == st.line
                &&& final(self).tokens() == old(self).tokens() + opt_seq(st.token)
                &&& final(self).errors() == old(self).errors() + opt_seq(st.error)
            }),
    {
        let ghost src = self.source@;
        while self.peek() != '"' && !self.is_at_end()
            invariant
                self.wf(),
                self.source@ == src,
                self.start == old(self).start,
                self.tokens == old(self).tokens,
                self.errors == old(self).errors,
                self.start < self.current,
                find_char(src, self.start + 1, '"') == find_char(src, self.current as int, '"'),
                self.line == old(self).line + count_newlines(src, self.start + 1, self.current as int),
            decreases self.source@.len() - self.current,
        {
            let c = self.advance();
            if c == '\n' {
                self.line = self.line + 1;
            }
        }
        if self.is_at_end() {
            let line = self.line;
            self.error(line, String::from_str("Unterminated string"));
            return;
        }
        self.advance();
        let value = chars_to_string(&self.source, self.start + 1, self.current - 1);
        self.add_token_with_literal(TokenType::String, Some(LiteralValue::Str(value)));
    }

    fn match_char(&mut self, expected: char) -> (r: bool)
        requires
            old(self).wf(),
        ensures
            final(self).wf(),
            r == (old(self).current < old(self).source@.len() && old(self).source@[old(self).current as int] == expected),
            final(self).current == if r { old(self).current + 1 } else { old(self).current as int },
            final(self).source == old(self).source,
            final(self).start == old(self).start,
            final(self).line == old(self).line,
            final(self).tokens == old(self).tokens,
            final(self).errors == old(self).errors,
    {
        if self.is_at_end() {
            return false;
        }
        if expected == self.source[self.current] {
            self.current = self.current + 1;
            true
        } else {
            false
        }
    }

    fn peek(&self) -> (c: char)
        requires
            self.wf(),
        ensures
            c == if self.current < self.source@.len() { self.source@[self.current as int] } else { '\0' },
    {
        if self.is_at_end() {
            '\0'
        } else {
            self.source[self.current]
        }
    }

    fn peek_next(&self) -> (c: char)
        requires
            self.wf(),
        ensures
            c == if self.current + 1 < self.source@.len() { self.source@[self.current + 1] } else { '\0' },
    {
        if self.current + 1 >= self.source.len() {
            '\0'
        } else {
            self.source[self.current + 1]
        }
    }

    fn advance(&mut self) -> (c: char)
        requires
            old(self).wf(),
            old(self).current < old(self).source@.len(),
        ensures
            final(self).wf(),
            c == old(self).source@[old(self).current as int],
            final(self).current == old(self).current + 1,
            final(self).source == old(self).source,
            final(self).start == old(self).start,
            final(self).line == old(self).line,
            final(self).tokens == old(self).tokens,
            final(self).errors == old(self).errors,
    {
        let c = self.source[self.current];
        self.current = self.current + 1;
        c
    }

    fn add_token(&mut self, token_type: TokenType)
        requires
            old(self).wf(),
        ensures
            final(self).wf(),
            final(self).source == old(self).source,
            final(self).start == old(self).start,
            final(self).current == old(self).current,
            final(self).line == old(self).line,
            final(self).errors == old(self).errors,
            final(self).tokens() == old(self).tokens().push(SpecToken {
                token_type: token_type,
                lexeme: old(self).source@.subrange(old(self).start as int, old(self).current as int),
                literal: None,
                line: old(self).line as nat,
            }),
    {
        self.add_token_with_literal(token_type, None)
    }

    fn add_token_with_literal(&mut self, token_type: TokenType, literal: Option<LiteralValue>)
        requires
            old(self).wf(),
        ensures
            final(self).wf(),
            final(self).source == old(self).source,
            final(self).start == old(self).start,
            final(self).current == old(self).current,
            final(self).line == old(self).line,
            final(self).errors == old(self).errors,
            final(self).tokens() == old(self).tokens().push(SpecToken {
                token_type: token_type,
                lexeme: old(self).source@.subrange(old(self).start as int, old(self).current as int),
                literal: crate::token::literal_view(literal),
                line: old(self).line as nat,
            }),
    {
        let text = chars_to_string(&self.source, self.start, self.current);
        let ghost before = self.tokens();
        let line = self.line;
        self.tokens.push(Token { token_type, lexeme: text, literal, line });
        assert(self.tokens() =~= before.push(self.tokens@.last()@));
    }

    fn error(&mut self, line: usize, msg: String)
        requires
            old(self).wf(),
        ensures
            final(self).wf(),
            final(self).source == old(self).source,
            final(self).start == old(self).start,
            final(self).current == old(self).current,
            final(self).line == old(self).line,
            final(self).tokens == old(self).tokens,
            final(self).errors() == old(self).errors().push(SpecScanError { line: line as nat, msg: msg@ }),
    {
        let ghost before = self.errors();
        self.errors.push(ScanError { line, msg });
        assert(self.errors() =~= before.push(self.errors@.last()@));
    }
}

fn is_digit_char(c: char) -> (r: bool)
    ensures
        r == is_digit(c),
{
    '0' <= c && c <= '9'
}

fn is_alpha_char(c: char) -> (r: bool)
    ensures
        r == is_alpha(c),
{
    ('a' <= c && c <= 'z') || ('A' <= c && c <= 'Z') || c == '_'
}

fn is_alpha_numeric_char(c: char) -> (r: bool)
    ensures
        r == is_alpha_numeric(c),
{
    is_alpha_char(c) || is_digit_char(c)
}

/// The keyword that `src[from..to]` spells, if any.
fn keyword_at(src: &Vec<char>, from: usize, to: usize) -> (r: Option<TokenType>)
    requires
        from <= to <= src.len(),
    ensures
        r == keyword(src@.subrange(from as int, to as int)),
{
    let ghost text = src@.subrange(from as int, to as int);
    proof {
        assert(['a', 'n', 'd']@ =~= seq!['a', 'n', 'd']);
        assert(['c', 'l', 'a', 's', 's']@ =~= seq!['c', 'l', 'a', 's', 's']);
        assert(['e', 'l', 's', 'e']@ =~= seq!['e', 'l', 's', 'e']);
        assert(['f', 'a', 'l', 's', 'e']@ =~= seq!['f', 'a', 'l', 's', 'e']);
        assert(['f', 'o', 'r']@ =~= seq!['f', 'o', 'r']);
        assert(['f', 'u', 'n']@ =~= seq!['f', 'u', 'n']);
        assert(['i', 'f']@ =~= seq!['i', 'f']);
        assert(['n', 'i', 'l']@ =~= seq!['n', 'i', 'l']);
        assert(['o', 'r']@ =~= seq!['o', 'r']);
        assert(['p', 'r', 'i', 'n', 't']@ =~= seq!['p', 'r', 'i', 'n', 't']);
        assert(['r', 'e', 't', 'u', 'r', 'n']@ =~= seq!['r', 'e', 't', 'u', 'r', 'n']);
        assert(['s', 'u', 'p', 'e', 'r']@ =~= seq!['s', 'u', 'p', 'e', 'r']);
        assert(['t', 'h', 'i', 's']@ =~= seq!['t', 'h', 'i', 's']);
        assert(['t', 'r', 'u', 'e']@ =~= seq!['t', 'r', 'u', 'e']);
        assert(['v', 'a', 'r']@ =~= seq!['v', 'a', 'r']);
        assert(['w', 'h', 'i', 'l', 'e']@ =~= seq!['w', 'h', 'i', 'l', 'e']);
    }
    if range_eq(src, from, to, &['a', 'n', 'd']) {
        Some(TokenType::And)
    } else if range_eq(src, from, to, &['c', 'l', 'a', 's', 's']) {
        Some(TokenType::Class)
    } else if range_eq(src, from, to, &['e', 'l', 's', 'e']) {
        Some(TokenType::Else)
    } else if range_eq(src, from, to, &['f', 'a', 'l', 's', 'e']) {
        Some(TokenType::False)
    } else if range_eq(src, from, to, &['f', 'o', 'r']) {
        Some(TokenType::For)
    } else if range_eq(src, from, to, &['f', 'u', 'n']) {
        Some(TokenType::Fun)
    } else if range_eq(src, from, to, &['i', 'f']) {
        Some(TokenType::If)
    } else if range_eq(src, from, to, &['n', 'i', 'l']) {
        Some(TokenType::Nil)
    } else if range_eq(src, from, to, &['o', 'r']) {
        Some(TokenType::Or)
    } else if range_eq(src, from, to, &['p', 'r', 'i', 'n', 't']) {
        Some(TokenType::Print)
    } else if range_eq(src, from, to, &['r', 'e', 't', 'u', 'r', 'n']) {
        Some(TokenType::Return)
    } else if range_eq(src, from, to, &['s', 'u', 'p', 'e', 'r']) {
        Some(TokenType::Super)
    } else if range_eq(src, from, to, &['t', 'h', 'i', 's']) {
        Some(TokenType::This)
    } else if range_eq(src, from, to, &['t', 'r', 'u', 'e']) {
        Some(TokenType::True)
    } else if range_eq(src, from, to, &['v', 'a', 'r']) {
        Some(TokenType::Var)
    } else if range_eq(src, from, to, &['w', 'h', 'i', 'l', 'e']) {
        Some(TokenType::While)
    } else {
        None
    }
}


// ---------------------------------------------------------------------------
// Laws of the lexical grammar.
// ---------------------------------------------------------------------------

/// A token that the lexer itself makes: never the end-of-input token, and,
/// for a number or a string, carrying its literal value.
pub open spec fn lexeme_token(t: SpecToken) -> bool {
    &&& t.token_type != TokenType::Eof
    &&& (t.token_type == TokenType::Number || t.token_type == TokenType::String) ==> t.literal is Some
}

proof fn lemma_scan_step_token(src: Seq<char>, start: int, line: nat)
    requires
        0 <= start < src.len(),
    ensures
        scan_step(src, start, line).token matches Some(t) ==> lexeme_token(t),
{
}

proof fn lemma_scan_from_tokens(src: Seq<char>, pos: int, line: nat)
    ensures
        forall|i: int|
            0 <= i < scan_from(src, pos, line).0.len() ==> lexeme_token(#[trigger] scan_from(src, pos, line).0[i]),
    decreases src.len() - pos,
{
    if 0 <= pos < src.len() {
        let st = scan_step(src, pos, line);
        lemma_scan_step_token(src, pos, line);
        if pos < st.next <= src.len() {
            lemma_scan_from_tokens(src, st.next, st.line);
            let rest = scan_from(src, st.next, st.line);
            assert forall|i: int| 0 <= i < scan_from(src, pos, line).0.len() implies lexeme_token(
                #[trigger] scan_from(src, pos, line).0[i],
            ) by {
                if i >= opt_seq(st.token).len() {
                    assert(scan_from(src, pos, line).0[i] == rest.0[i - opt_seq(st.token).len()]);
                }
            }
        }
    }
}

/// The tokens of any source end with the end-of-input token, which occurs
/// nowhere else, and every number and string token carries its value.
pub proof fn law_scan_tokens_shape(src: Seq<char>)
    ensures
        scan_tokens_of(src).len() >= 1,
        scan_tokens_of(src).last().token_type == TokenType::Eof,
        forall|i: int|
            0 <= i < scan_tokens_of(src).len() - 1 ==> lexeme_token(#[trigger] scan_tokens_of(src)[i]),
{
    lemma_scan_from_tokens(src, 0, 1);
    let r = scan_from(src, 0, 1);
    assert forall|i: int| 0 <= i < scan_tokens_of(src).len() - 1 implies lexeme_token(
        #[trigger] scan_tokens_of(src)[i],
    ) by {
        assert(scan_tokens_of(src)[i] == r.0[i]);
    }
}

/// What the scanner yields is what the parser can start on: a token list
/// that ends with the end-of-input token and whose number and string tokens
/// carry their values.
pub proof fn law_scanned_tokens_parse(src: Seq<char>, ts: Seq<Token>)
    requires
        ts.map_values(|t: Token| t@) == scan_tokens_of(src),
    ensures
        crate::grammar::tokens_wf(ts),
{
    law_scan_tokens_shape(src);
    let st = scan_tokens_of(src);
    assert(ts.len() == st.len());
    assert(ts.last()@ == st.last());
    assert forall|i: int|
        0 <= i < ts.len() && (#[trigger] ts[i].token_type == TokenType::Number || ts[i].token_type
            == TokenType::String) implies ts[i].literal is Some by {
        assert(ts[i]@ == st[i]);
        if i < ts.len() - 1 {
            assert(lexeme_token(st[i]));
        }
    }
}

proof fn lemma_count_newlines_split(src: Seq<char>, i: int, j: int, k: int)
    requires
        i <= j <= k,
    ensures
        count_newlines(src, i, k) == count_newlines(src, i, j) + count_newlines(src, j, k),
    decreases k - j,
{
    if j < k {
        lemma_count_newlines_split(src, i, j, k - 1);
    }
}

proof fn lemma_no_newlines(src: Seq<char>, i: int, j: int)
    requires
        i <= j,
        forall|k: int| i <= k < j ==> src[k] != '\n',
    ensures
        count_newlines(src, i, j) == 0,
    decreases j - i,
{
    if i < j {
        lemma_no_newlines(src, i, j - 1);
    }
}

proof fn lemma_digits_end_digits(src: Seq<char>, i: int)
    requires
        0 <= i,
    ensures
        forall|k: int| i <= k < digits_end(src, i) ==> is_digit(src[k]),
    decreases src.len() - i,
{
    if 0 <= i < src.len() && is_digit(src[i]) {
        lemma_digits_end_digits(src, i + 1);
    }
}

proof fn lemma_word_end_alnum(src: Seq<char>, i: int)
    requires
        0 <= i,
    ensures
        forall|k: int| i <= k < word_end(src, i) ==> is_alpha_numeric(src[k]),
    decreases src.len() - i,
{
    if 0 <= i < src.len() && is_alpha_numeric(src[i]) {
        lemma_word_end_alnum(src, i + 1);
    }
}

proof fn lemma_find_char_skips(src: Seq<char>, i: int, c: char)
    requires
        0 <= i,
    ensures
        forall|k: int| i <= k < find_char(src, i, c) ==> src[k] != c,
    decreases src.len() - i,
{
    if 0 <= i < src.len() && src[i] != c {
        lemma_find_char_skips(src, i + 1, c);
    }
}

/// One lexeme moves the line counter on by the line breaks it spans.
proof fn lemma_scan_step_lines(src: Seq<char>, start: int, line: nat)
    requires
        0 <= start < src.len(),
    ensures
        scan_step(src, start, line).line == line + count_newlines(src, start, scan_step(src, start, line).next),
{
    lemma_scan_step_progress(src, start, line);
    let st = scan_step(src, start, line);
    let c = src[start];
    if c == '\n' {
        assert(count_newlines(src, start, start + 1) == 1) by {
            assert(count_newlines(src, start, start) == 0);
        }
    } else if c == '"' {
        let end = find_char(src, start + 1, '"');
        lemma_find_char_bounds(src, start + 1, '"');
        lemma_count_newlines_split(src, start, start + 1, end);
        assert(count_newlines(src, start, start + 1) == 0) by {
            lemma_no_newlines(src, start, start + 1);
        }
        if end < src.len() {
            lemma_count_newlines_split(src, start, end, end + 1);
            lemma_count_newlines_split(src, start + 1, end, end + 1);
            assert(count_newlines(src, end, end + 1) == 0) by {
                lemma_no_newlines(src, end, end + 1);
            }
        }
    } else if c == '/' && start + 1 < src.len() && src[start + 1] == '/' {
        lemma_find_char_skips(src, start + 2, '\n');
        lemma_no_newlines(src, start, st.next);
    } else if is_digit(c) {
        lemma_digits_end_digits(src, start + 1);
        let i = digits_end(src, start + 1);
        if i + 1 < src.len() && src[i] == '.' && is_digit(src[i + 1]) {
            lemma_digits_end_digits(src, i + 1);
        }
        lemma_no_newlines(src, start, st.next);
    } else if is_alpha(c) {
        lemma_word_end_alnum(src, start + 1);
        lemma_no_newlines(src, start, st.next);
    } else {
        lemma_no_newlines(src, start, st.next);
    }
}

proof fn lemma_scan_from_lines(src: Seq<char>, pos: int, line: nat)
    requires
        0 <= pos <= src.len(),
    ensures
        scan_from(src, pos, line).2 == line + count_newlines(src, pos, src.len() as int),
    decreases src.len() - pos,
{
    if pos < src.len() {
        let st = scan_step(src, pos, line);
        lemma_scan_step_progress(src, pos, line);
        lemma_scan_step_lines(src, pos, line);
        lemma_scan_from_lines(src, st.next, st.line);
        lemma_count_newlines_split(src, pos, st.next, src.len() as int);
    }
}

/// The line counter follows the line breaks: the end-of-input token is on
/// line 1 plus the number of line breaks in the source.
pub proof fn law_eof_line(src: Seq<char>)
    ensures
        scan_tokens_of(src).last() == eof_token(1 + count_newlines(src, 0, src.len() as int)),
{
    lemma_scan_from_lines(src, 0, 1);
}


/// Scanning a scanner fresh from `new` yields the tokens and the errors of
/// its whole source.
pub proof fn law_fresh_scan(fresh: Scanner, done: Scanner)
    requires
        fresh.tokens() == Seq::<SpecToken>::empty(),
        fresh.errors() == Seq::<SpecScanError>::empty(),
        fresh.position() == 0,
        fresh.line() == 1,
        ({
            let r = scan_from(fresh.source(), fresh.position(), fresh.line());
            &&& done.tokens() == fresh.tokens() + r.0.push(eof_token(r.2))
            &&& done.errors() == fresh.errors() + r.1
        }),
    ensures
        done.tokens() == scan_tokens_of(fresh.source()),
        done.errors() == scan_errors_of(fresh.source()),
{
    let r = scan_from(fresh.source(), 0, 1);
    assert(Seq::<SpecToken>::empty() + r.0.push(eof_token(r.2)) =~= r.0.push(eof_token(r.2)));
    assert(Seq::<SpecScanError>::empty() + r.1 =~= r.1);
}


proof fn lemma_scan_from_line_order(src: Seq<char>, pos: int, line: nat)
    ensures
        line <= scan_from(src, pos, line).2,
        forall|i: int|
            0 <= i < scan_from(src, pos, line).0.len() ==> line <= #[trigger] scan_from(src, pos, line).0[i].line
                <= scan_from(src, pos, line).2,
        forall|i: int, j: int|
            0 <= i <= j < scan_from(src, pos, line).0.len() ==> #[trigger] scan_from(src, pos, line).0[i].line
                <= #[trigger] scan_from(src, pos, line).0[j].line,
    decreases src.len() - pos,
{
    if 0 <= pos < src.len() {
        let st = scan_step(src, pos, line);
        lemma_scan_step_progress(src, pos, line);
        if pos < st.next <= src.len() {
            lemma_scan_from_line_order(src, st.next, st.line);
            let rest = scan_from(src, st.next, st.line);
            let all = scan_from(src, pos, line);
            let k = opt_seq(st.token).len();
            assert(all.0 == opt_seq(st.token) + rest.0);
            assert forall|i: int| 0 <= i < all.0.len() implies line <= #[trigger] all.0[i].line <= all.2 by {
                if i >= k {
                    assert(all.0[i] == rest.0[i - k]);
                } else {
                    assert(all.0[i] == st.token.unwrap());
                }
            }
            assert forall|i: int, j: int| 0 <= i <= j < all.0.len() implies #[trigger] all.0[i].line
                <= #[trigger] all.0[j].line by {
                if i >= k {
                    assert(all.0[i] == rest.0[i - k]);
                    assert(all.0[j] == rest.0[j - k]);
                } else if j >= k {
                    assert(all.0[i] == st.token.unwrap());
                    assert(all.0[j] == rest.0[j - k]);
                }
            }
        }
    }
}

/// Every token of any source is on line 1 or later, and the lines never go
/// down along the token list.
pub proof fn law_token_lines_ordered(src: Seq<char>)
    ensures
        forall|i: int| 0 <= i < scan_tokens_of(src).len() ==> #[trigger] scan_tokens_of(src)[i].line >= 1,
        forall|i: int, j: int|
            0 <= i <= j < scan_tokens_of(src).len() ==> #[trigger] scan_tokens_of(src)[i].line
                <= #[trigger] scan_tokens_of(src)[j].line,
{
    lemma_scan_from_line_order(src, 0, 1);
    let r = scan_from(src, 0, 1);
    let ts = scan_tokens_of(src);
    assert forall|i: int| 0 <= i < ts.len() implies #[trigger] ts[i].line >= 1 by {
        if i < r.0.len() {
            assert(ts[i] == r.0[i]);
        }
    }
    assert forall|i: int, j: int| 0 <= i <= j < ts.len() implies #[trigger] ts[i].line <= #[trigger] ts[j].line by {
        if j < r.0.len() {
            assert(ts[i] == r.0[i]);
            assert(ts[j] == r.0[j]);
        } else if i < r.0.len() {
            assert(ts[i] == r.0[i]);
        }
    }
}


/// A character `0` to `9`.
pub open spec fn ascii_digit(c: char) -> bool {
    '0' <= c <= '9'
}

/// A character that may start a name: `a` to `z`, `A` to `Z`, or `_`.
pub open spec fn name_start(c: char) -> bool {
    ('a' <= c <= 'z') || ('A' <= c <= 'Z') || c == '_'
}

proof fn lemma_digit_run(src: Seq<char>, i: int, j: int)
    requires
        0 <= i <= j <= src.len(),
        forall|k: int| i <= k < j ==> ascii_digit(#[trigger] src[k]),
        j == src.len() || !ascii_digit(src[j]),
    ensures
        digits_end(src, i) == j,
    decreases j - i,
{
    if i < j {
        assert(ascii_digit(src[i]));
        lemma_digit_run(src, i + 1, j);
    }
}

proof fn lemma_word_run(src: Seq<char>, i: int)
    requires
        0 <= i <= src.len(),
        forall|k: int| i <= k < src.len() ==> name_start(#[trigger] src[k]) || ascii_digit(src[k]),
    ensures
        word_end(src, i) == src.len(),
    decreases src.len() - i,
{
    if i < src.len() {
        assert(name_start(src[i]) || ascii_digit(src[i]));
        lemma_word_run(src, i + 1);
    }
}

/// A source that is one run of digits `0` to `9` scans to a single number
/// token, on line 1, whose lexeme and numeral are the whole source.
pub proof fn law_digits_scan_as_one_number(src: Seq<char>)
    requires
        src.len() > 0,
        forall|k: int| 0 <= k < src.len() ==> ascii_digit(#[trigger] src[k]),
    ensures
        scan_tokens_of(src) == seq![
            SpecToken {
                token_type: TokenType::Number,
                lexeme: src,
                literal: Some(SpecLiteral::Number(src)),
                line: 1,
            },
            eof_token(1),
        ],
{
    assert(ascii_digit(src[0]));
    lemma_digit_run(src, 1, src.len() as int);
    assert(src.subrange(0, src.len() as int) =~= src);
    let r = scan_from(src, 0, 1);
    assert(scan_from(src, src.len() as int, 1).0 =~= Seq::<SpecToken>::empty());
    assert(r.0 =~= seq![
        SpecToken { token_type: TokenType::Number, lexeme: src, literal: Some(SpecLiteral::Number(src)), line: 1 },
    ]);
    assert(scan_tokens_of(src) =~= r.0.push(eof_token(1)));
}

/// A source `DIGITS.DIGITS` (digits `0` to `9`, at least one on each side)
/// scans to a single number token, on line 1, whose lexeme and numeral are
/// the whole source.
pub proof fn law_decimal_scans_as_one_number(whole: Seq<char>, frac: Seq<char>)
    requires
        whole.len() > 0,
        frac.len() > 0,
        forall|k: int| 0 <= k < whole.len() ==> ascii_digit(#[trigger] whole[k]),
        forall|k: int| 0 <= k < frac.len() ==> ascii_digit(#[trigger] frac[k]),
    ensures
        ({
            let src = whole + seq!['.'] + frac;
            scan_tokens_of(src) == seq![
                SpecToken {
                    token_type: TokenType::Number,
                    lexeme: src,
                    literal: Some(SpecLiteral::Number(src)),
                    line: 1,
                },
                eof_token(1),
            ]
        }),
{
    let src = whole + seq!['.'] + frac;
    let w = whole.len() as int;
    assert forall|k: int| 0 <= k < w implies ascii_digit(#[trigger] src[k]) by {
        assert(src[k] == whole[k]);
    }
    assert forall|k: int| w + 1 <= k < src.len() implies ascii_digit(#[trigger] src[k]) by {
        assert(src[k] == frac[k - w - 1]);
    }
    assert(src[w] == '.');
    assert(!ascii_digit(src[w]));
    assert(ascii_digit(src[0]));
    assert(ascii_digit(src[w + 1]));
    lemma_digit_run(src, 1, w);
    lemma_digit_run(src, w + 1, src.len() as int);
    assert(src.subrange(0, src.len() as int) =~= src);
    let r = scan_from(src, 0, 1);
    assert(scan_from(src, src.len() as int, 1).0 =~= Seq::<SpecToken>::empty());
    assert(r.0 =~= seq![
        SpecToken { token_type: TokenType::Number, lexeme: src, literal: Some(SpecLiteral::Number(src)), line: 1 },
    ]);
    assert(scan_tokens_of(src) =~= r.0.push(eof_token(1)));
}

/// A source that is one name (a letter of either case or `_`, then letters,
/// digits and `_`) scans to a single token, on line 1, whose lexeme is the
/// whole source: the keyword it spells, else an identifier.
pub proof fn law_name_scans_as_one_word(src: Seq<char>)
    requires
        src.len() > 0,
        name_start(src[0]),
        forall|k: int| 1 <= k < src.len() ==> name_start(#[trigger] src[k]) || ascii_digit(src[k]),
    ensures
        scan_tokens_of(src) == seq![
            SpecToken {
                token_type: match keyword(src) {
                    Some(k) => k,
                    None => TokenType::Identifier,
                },
                lexeme: src,
                literal: None,
                line: 1,
            },
            eof_token(1),
        ],
{
    assert(!ascii_digit(src[0]));
    lemma_word_run(src, 1);
    assert(src.subrange(0, src.len() as int) =~= src);
    let r = scan_from(src, 0, 1);
    assert(scan_from(src, src.len() as int, 1).0 =~= Seq::<SpecToken>::empty());
    let t = SpecToken {
        token_type: match keyword(src) {
            Some(k) => k,
            None => TokenType::Identifier,
        },
        lexeme: src,
        literal: None,
        line: 1,
    };
    assert(r.0 =~= seq![t]);
    assert(scan_tokens_of(src) =~= r.0.push(eof_token(1)));
}


/// The reserved words and the token kinds they scan to; no other text is
/// one.
pub proof fn law_reserved_words(text: Seq<char>)
    ensures
        keyword(text) == ({
        if text == "and"@ {
            Some(TokenType::And)
        } else if text == "class"@ {
            Some(TokenType::Class)
        } else if text == "else"@ {
            Some(TokenType::Else)
        } else if text == "false"@ {
            Some(TokenType::False)
        } else if text == "for"@ {
            Some(TokenType::For)
        } else if text == "fun"@ {
            Some(TokenType::Fun)
        } else if text == "if"@ {
            Some(TokenType::If)
        } else if text == "nil"@ {
            Some(TokenType::Nil)
        } else if text == "or"@ {
            Some(TokenType::Or)
        } else if text == "print"@ {
            Some(TokenType::Print)
        } else if text == "return"@ {
            Some(TokenType::Return)
        } else if text == "super"@ {
            Some(TokenType::Super)
        } else if text == "this"@ {
            Some(TokenType::This)
        } else if text == "true"@ {
            Some(TokenType::True)
        } else if text == "var"@ {
            Some(TokenType::Var)
        } else if text == "while"@ {
            Some(TokenType::While)
        } else {
            None
        }
        }),
{
        reveal_strlit("and");
        assert("and"@ =~= seq!['a', 'n', 'd']);
        reveal_strlit("class");
        assert("class"@ =~= seq!['c', 'l', 'a', 's', 's']);
        reveal_strlit("else");
        assert("else"@ =~= seq!['e', 'l', 's', 'e']);
        reveal_strlit("false");
        assert("false"@ =~= seq!['f', 'a', 'l', 's', 'e']);
        reveal_strlit("for");
        assert("for"@ =~= seq!['f', 'o', 'r']);
        reveal_strlit("fun");
        assert("fun"@ =~= seq!['f', 'u', 'n']);
        reveal_strlit("if");
        assert("if"@ =~= seq!['i', 'f']);
        reveal_strlit("nil");
        assert("nil"@ =~= seq!['n', 'i', 'l']);
        reveal_strlit("or");
        assert("or"@ =~= seq!['o', 'r']);
        reveal_strlit("print");
        assert("print"@ =~= seq!['p', 'r', 'i', 'n', 't']);
        reveal_strlit("return");
        assert("return"@ =~= seq!['r', 'e', 't', 'u', 'r', 'n']);
        reveal_strlit("super");
        assert("super"@ =~= seq!['s', 'u', 'p', 'e', 'r']);
        reveal_strlit("this");
        assert("this"@ =~= seq!['t', 'h', 'i', 's']);
        reveal_strlit("true");
        assert("true"@ =~= seq!['t', 'r', 'u', 'e']);
        reveal_strlit("var");
        assert("var"@ =~= seq!['v', 'a', 'r']);
        reveal_strlit("while");
        assert("while"@ =~= seq!['w', 'h', 'i', 'l', 'e']);
}

/// The tokens of a source that is one lexeme: a token of kind `tt` on line 1
/// whose lexeme is the whole source, with no literal, and the end-of-input
/// token.
pub open spec fn one_token(tt: TokenType, src: Seq<char>) -> Seq<SpecToken> {
    seq![SpecToken { token_type: tt, lexeme: src, literal: None, line: 1 }, eof_token(1)]
}

/// Each punctuation and operator character, alone, scans to its own token.
pub proof fn law_single_character_tokens(c: char)
    ensures
        c == '(' ==> scan_tokens_of(seq![c]) == one_token(TokenType::LeftParen, seq![c]),
        c == ')' ==> scan_tokens_of(seq![c]) == one_token(TokenType::RightParen, seq![c]),
        c == '{' ==> scan_tokens_of(seq![c]) == one_token(TokenType::LeftBrace, seq![c]),
        c == '}' ==> scan_tokens_of(seq![c]) == one_token(TokenType::RightBrace, seq![c]),
        c == ',' ==> scan_tokens_of(seq![c]) == one_token(TokenType::Comma, seq![c]),
        c == '.' ==> scan_tokens_of(seq![c]) == one_token(TokenType::Dot, seq![c]),
        c == '-' ==> scan_tokens_of(seq![c]) == one_token(TokenType::Minus, seq![c]),
        c == '+' ==> scan_tokens_of(seq![c]) == one_token(TokenType::Plus, seq![c]),
        c == ';' ==> scan_tokens_of(seq![c]) == one_token(TokenType::Semicolon, seq![c]),
        c == '*' ==> scan_tokens_of(seq![c]) == one_token(TokenType::Star, seq![c]),
        c == '/' ==> scan_tokens_of(seq![c]) == one_token(TokenType::Slash, seq![c]),
        c == '!' ==> scan_tokens_of(seq![c]) == one_token(TokenType::Bang, seq![c]),
        c == '=' ==> scan_tokens_of(seq![c]) == one_token(TokenType::Equal, seq![c]),
        c == '<' ==> scan_tokens_of(seq![c]) == one_token(TokenType::Less, seq![c]),
        c == '>' ==> scan_tokens_of(seq![c]) == one_token(TokenType::Greater, seq![c]),
{
    let src = seq![c];
    assert(src.subrange(0, 1) =~= src);
    assert(scan_from(src, 1, 1).0 =~= Seq::<SpecToken>::empty());
    if c == '/' {
        assert(scan_from(src, 0, 1).0 =~= seq![SpecToken { token_type: TokenType::Slash, lexeme: src, literal: None, line: 1 }]);
    }
}

/// `!`, `=`, `<` and `>` followed by `=` scan to one two-character token.
pub proof fn law_two_character_tokens(c: char)
    ensures
        c == '!' ==> scan_tokens_of(seq![c, '=']) == one_token(TokenType::BangEqual, seq![c, '=']),
        c == '=' ==> scan_tokens_of(seq![c, '=']) == one_token(TokenType::EqualEqual, seq![c, '=']),
        c == '<' ==> scan_tokens_of(seq![c, '=']) == one_token(TokenType::LessEqual, seq![c, '=']),
        c == '>' ==> scan_tokens_of(seq![c, '=']) == one_token(TokenType::GreaterEqual, seq![c, '=']),
{
    let src = seq![c, '='];
    assert(src.subrange(0, 2) =~= src);
    assert(scan_from(src, 2, 1).0 =~= Seq::<SpecToken>::empty());
}

/// The number of line breaks in `s`.
pub open spec fn newlines_in(s: Seq<char>) -> nat
    decreases s.len(),
{
    if s.len() == 0 {
        0
    } else {
        (if s[0] == '\n' { 1nat } else { 0nat }) + newlines_in(s.drop_first())
    }
}

proof fn lemma_count_newlines_is_newlines_in(src: Seq<char>, i: int, j: int)
    requires
        0 <= i <= j <= src.len(),
    ensures
        count_newlines(src, i, j) == newlines_in(src.subrange(i, j)),
    decreases j - i,
{
    if i < j {
        lemma_count_newlines_split(src, i, i + 1, j);
        lemma_count_newlines_is_newlines_in(src, i + 1, j);
        assert(src.subrange(i, j).drop_first() =~= src.subrange(i + 1, j));
        assert(count_newlines(src, i, i) == 0);
    }
}

/// The end-of-input token is on line 1 plus the number of line breaks in the
/// source.
pub proof fn law_eof_line_counts_line_breaks(src: Seq<char>)
    ensures
        scan_tokens_of(src).last().line == 1 + newlines_in(src),
        scan_tokens_of(src).last().token_type == TokenType::Eof,
{
    law_eof_line(src);
    lemma_count_newlines_is_newlines_in(src, 0, src.len() as int);
    assert(src.subrange(0, src.len() as int) =~= src);
}

/// A string literal, a `"`, text without `"`, and a `"`, scans to one string
/// token whose lexeme is the whole source and whose value is the text
/// between the quotes; it is on the line it ends on.
pub proof fn law_string_literal_scans(body: Seq<char>)
    requires
        forall|k: int| 0 <= k < body.len() ==> #[trigger] body[k] != '"',
    ensures
        ({
            let src = seq!['"'] + body + seq!['"'];
            let line = 1 + newlines_in(body);
            scan_tokens_of(src) == seq![
                SpecToken {
                    token_type: TokenType::String,
                    lexeme: src,
                    literal: Some(SpecLiteral::Str(body)),
                    line: line,
                },
                eof_token(line),
            ]
        }),
{
    let src = seq!['"'] + body + seq!['"'];
    let n = src.len() as int;
    assert(src[0] == '"');
    assert(src[n - 1] == '"');
    assert forall|k: int| 1 <= k < n - 1 implies #[trigger] src[k] != '"' by {
        assert(src[k] == body[k - 1]);
    }
    lemma_find_char_exact(src, 1, n - 1, '"');
    lemma_count_newlines_is_newlines_in(src, 1, n - 1);
    assert(src.subrange(1, n - 1) =~= body);
    assert(src.subrange(0, n) =~= src);
    assert(scan_from(src, n, 1 + newlines_in(body)).0 =~= Seq::<SpecToken>::empty());
    let r = scan_from(src, 0, 1);
    assert(r.0 =~= seq![
        SpecToken {
            token_type: TokenType::String,
            lexeme: src,
            literal: Some(SpecLiteral::Str(body)),
            line: 1 + newlines_in(body),
        },
    ]);
    assert(scan_tokens_of(src) =~= r.0.push(eof_token(1 + newlines_in(body))));
}

proof fn lemma_find_char_exact(src: Seq<char>, i: int, j: int, c: char)
    requires
        0 <= i <= j < src.len(),
        src[j] == c,
        forall|k: int| i <= k < j ==> #[trigger] src[k] != c,
    ensures
        find_char(src, i, c) == j,
    decreases j - i,
{
    if i < j {
        lemma_find_char_exact(src, i + 1, j, c);
    }
}

/// A line comment, `//` and text without a line break, scans to no token.
pub proof fn law_comment_scans_to_nothing(body: Seq<char>)
    requires
        forall|k: int| 0 <= k < body.len() ==> #[trigger] body[k] != '\n',
    ensures
        scan_tokens_of(seq!['/', '/'] + body) == seq![eof_token(1)],
{
    let src = seq!['/', '/'] + body;
    assert forall|k: int| 2 <= k < src.len() implies #[trigger] src[k] != '\n' by {
        assert(src[k] == body[k - 2]);
    }
    lemma_find_char_none(src, 2, '\n');
    assert(scan_from(src, src.len() as int, 1).0 =~= Seq::<SpecToken>::empty());
    assert(scan_tokens_of(src) =~= seq![eof_token(1)]);
}

proof fn lemma_find_char_none(src: Seq<char>, i: int, c: char)
    requires
        0 <= i <= src.len(),
        forall|k: int| i <= k < src.len() ==> #[trigger] src[k] != c,
    ensures
        find_char(src, i, c) == src.len(),
    decreases src.len() - i,
{
    if i < src.len() {
        lemma_find_char_none(src, i + 1, c);
    }
}

} // verus!
