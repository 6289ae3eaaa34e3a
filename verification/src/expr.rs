use vstd::prelude::*;

use crate::token::{LiteralValue, Token};
use vstd::string::{StrSliceExecFns, StringExecFns};

verus! {

/// An expression of the Lox language.
///
/// The nodes that name a variable (`Assign`, `Super`, `This`, `Variable`)
/// carry an `id`: the position, in the token list the expression was parsed
/// from, of the token that names the variable. It tells the occurrences
/// apart when the resolver records how far away each binding lives.
#[derive(Debug)]
pub enum Expr {
    Assign { name: Token, value: Box<Expr>, id: usize },
    Binary { left: Box<Expr>, operator: Token, right: Box<Expr> },
    Call { callee: Box<Expr>, paren: Token, arguments: Vec<Expr> },
    Get { object: Box<Expr>, name: Token },
    Grouping { expression: Box<Expr> },
    Literal { value: LiteralValue },
    Logical { left: Box<Expr>, operator: Token, right: Box<Expr> },
    SetProperty { object: Box<Expr>, name: Token, value: Box<Expr> },
    Super { keyword: Token, method: Token, id: usize },
    This { keyword: Token, id: usize },
    Unary { operator: Token, right: Box<Expr> },
    Variable { name: Token, id: usize },
}

/// The mathematical content of an expression: the same tree, with the
/// argument lists as sequences.
pub enum SpecExpr {
    Assign { name: Token, value: Box<SpecExpr>, id: nat },
    Binary { left: Box<SpecExpr>, operator: Token, right: Box<SpecExpr> },
    Call { callee: Box<SpecExpr>, paren: Token, arguments: Seq<SpecExpr> },
    Get { object: Box<SpecExpr>, name: Token },
    Grouping { expression: Box<SpecExpr> },
    Literal { value: LiteralValue },
    Logical { left: Box<SpecExpr>, operator: Token, right: Box<SpecExpr> },
    SetProperty { object: Box<SpecExpr>, name: Token, value: Box<SpecExpr> },
    Super { keyword: Token, method: Token, id: nat },
    This { keyword: Token, id: nat },
    Unary { operator: Token, right: Box<SpecExpr> },
    Variable { name: Token, id: nat },
}

/// The views of a list of expressions.
pub open spec fn expr_views(es: Seq<Expr>) -> Seq<SpecExpr>
    decreases es,
{
    if es.len() == 0 {
        Seq::empty()
    } else {
        expr_views(es.subrange(0, es.len() - 1)).push(es[es.len() - 1].view_expr())
    }
}

impl Expr {
    pub open spec fn view_expr(&self) -> SpecExpr
        decreases self,
    {
        match self {
            Expr::Assign { name, value, id } => SpecExpr::Assign {
                name: *name,
                value: Box::new(value.view_expr()),
                id: *id as nat,
            },
            Expr::Binary { left, operator, right } => SpecExpr::Binary {
                left: Box::new(left.view_expr()),
                operator: *operator,
                right: Box::new(right.view_expr()),
            },
            Expr::Call { callee, paren, arguments } => SpecExpr::Call {
                callee: Box::new(callee.view_expr()),
                paren: *paren,
                arguments: expr_views(arguments@),
            },
            Expr::Get { object, name } => SpecExpr::Get { object: Box::new(object.view_expr()), name: *name },
            Expr::Grouping { expression } => SpecExpr::Grouping { expression: Box::new(expression.view_expr()) },
            Expr::Literal { value } => SpecExpr::Literal { value: *value },
            Expr::Logical { left, operator, right } => SpecExpr::Logical {
                left: Box::new(left.view_expr()),
                operator: *operator,
                right: Box::new(right.view_expr()),
            },
            Expr::SetProperty { object, name, value } => SpecExpr::SetProperty {
                object: Box::new(object.view_expr()),
                name: *name,
                value: Box::new(value.view_expr()),
            },
            Expr::Super { keyword, method, id } => SpecExpr::Super { keyword: *keyword, method: *method, id: *id as nat },
            Expr::This { keyword, id } => SpecExpr::This { keyword: *keyword, id: *id as nat },
            Expr::Unary { operator, right } => SpecExpr::Unary { operator: *operator, right: Box::new(right.view_expr()) },
            Expr::Variable { name, id } => SpecExpr::Variable { name: *name, id: *id as nat },
        }
    }
}

impl View for Expr {
    type V = SpecExpr;

    open spec fn view(&self) -> SpecExpr {
        self.view_expr()
    }
}

/// The views of a list have its length and its elements' views.
pub proof fn lemma_expr_views(es: Seq<Expr>)
    ensures
        expr_views(es).len() == es.len(),
        forall|i: int| 0 <= i < es.len() ==> #[trigger] expr_views(es)[i] == es[i]@,
    decreases es.len(),
{
    if es.len() > 0 {
        lemma_expr_views(es.subrange(0, es.len() - 1));
    }
}

/// Viewing a list after a push pushes the view.
pub proof fn lemma_expr_views_push(es: Seq<Expr>, e: Expr)
    ensures
        expr_views(es.push(e)) == expr_views(es).push(e@),
{
    assert(es.push(e).subrange(0, es.len() as int) =~= es);
}


// ------------------------------------------------------------- printing

/// `s` without its trailing zeros.
pub open spec fn trim_zeros(s: Seq<char>) -> Seq<char>
    decreases s.len(),
{
    if s.len() > 0 && s.last() == '0' {
        trim_zeros(s.drop_last())
    } else {
        s
    }
}

/// `s` without its trailing dots.
pub open spec fn trim_dots(s: Seq<char>) -> Seq<char>
    decreases s.len(),
{
    if s.len() > 0 && s.last() == '.' {
        trim_dots(s.drop_last())
    } else {
        s
    }
}

/// `s` without the leading zeros of its integer part: a zero goes while a
/// digit follows it.
pub open spec fn trim_leading_zeros(s: Seq<char>) -> Seq<char>
    decreases s.len(),
{
    if s.len() >= 2 && s[0] == '0' && '0' <= s[1] <= '9' {
        trim_leading_zeros(s.drop_first())
    } else {
        s
    }
}

/// How a number literal is shown, as the number it denotes is: the numeral
/// without the leading zeros of its integer part; with a fractional part,
/// also without its trailing zeros, and without its point when nothing is
/// left after it.
pub open spec fn numeral_text(s: Seq<char>) -> Seq<char> {
    let t = trim_leading_zeros(s);
    if t.contains('.') {
        trim_dots(trim_zeros(t))
    } else {
        t
    }
}

/// How a literal value is shown.
pub open spec fn literal_text(v: crate::token::SpecLiteral) -> Seq<char> {
    match v {
        crate::token::SpecLiteral::Number(n) => numeral_text(n),
        crate::token::SpecLiteral::Str(s) => s,
        crate::token::SpecLiteral::Bool(b) => if b { "true"@ } else { "false"@ },
        crate::token::SpecLiteral::Nil => "nil"@,
    }
}

/// The texts `parts` joined with `sep` between each two.
pub open spec fn join(parts: Seq<Seq<char>>, sep: Seq<char>) -> Seq<char>
    decreases parts.len(),
{
    if parts.len() == 0 {
        Seq::empty()
    } else if parts.len() == 1 {
        parts[0]
    } else {
        join(parts.drop_last(), sep) + sep + parts.last()
    }
}

/// `(name part part ...)`.
pub open spec fn parenthesize(name: Seq<char>, parts: Seq<Seq<char>>) -> Seq<char> {
    "("@ + name + " "@ + join(parts, " "@) + ")"@
}

/// The texts of the expressions `es`.
pub open spec fn exprs_text(es: Seq<SpecExpr>) -> Seq<Seq<char>>
    decreases es, 1int,
{
    if es.len() == 0 {
        Seq::empty()
    } else {
        exprs_text(es.subrange(0, es.len() - 1)).push(expr_text(es[es.len() - 1]))
    }
}

/// An expression in prefix form: each compound expression is parenthesized,
/// its operator first.
pub open spec fn expr_text(e: SpecExpr) -> Seq<char>
    decreases e, 0int,
{
    match e {
        SpecExpr::Assign { name, value, .. } => parenthesize(name.lexeme@, seq![expr_text(*value)]),
        SpecExpr::Binary { left, operator, right } => parenthesize(
            operator.lexeme@,
            seq![expr_text(*left), expr_text(*right)],
        ),
        SpecExpr::Call { callee, arguments, .. } => parenthesize(
            "call"@,
            seq![expr_text(*callee)] + exprs_text(arguments),
        ),
        SpecExpr::Get { object, name } => parenthesize("."@, seq![expr_text(*object), name.lexeme@]),
        SpecExpr::Grouping { expression } => parenthesize("group"@, seq![expr_text(*expression)]),
        SpecExpr::Literal { value } => literal_text(value@),
        SpecExpr::Logical { left, operator, right } => parenthesize(
            operator.lexeme@,
            seq![expr_text(*left), expr_text(*right)],
        ),
        SpecExpr::SetProperty { object, name, value } => parenthesize(
            "="@,
            seq![expr_text(*object), name.lexeme@, expr_text(*value)],
        ),
        SpecExpr::Super { keyword, method, .. } => keyword.lexeme@ + "."@ + method.lexeme@,
        SpecExpr::This { keyword, .. } => keyword.lexeme@,
        SpecExpr::Unary { operator, right } => parenthesize(operator.lexeme@, seq![expr_text(*right)]),
        SpecExpr::Variable { name, .. } => name.lexeme@,
    }
}

pub(crate) fn numeral_to_string(n: &String) -> (s: String)
    ensures
        s@ == numeral_text(n@),
{
    let chars = n.as_str();
    let len = chars.unicode_len();
    let mut start: usize = 0;
    assert(n@.subrange(0, len as int) =~= n@);
    while len > 0 && start < len - 1 && chars.get_char(start) == '0' && '0' <= chars.get_char(start + 1)
        && chars.get_char(start + 1) <= '9'
        invariant
            start <= len,
            len == n@.len(),
            chars@ == n@,
            trim_leading_zeros(n@) == trim_leading_zeros(n@.subrange(start as int, len as int)),
        decreases len - start,
    {
        assert(n@.subrange(start as int, len as int).drop_first() =~= n@.subrange(start + 1, len as int));
        start = start + 1;
    }
    let ghost t = n@.subrange(start as int, len as int);
    assert(trim_leading_zeros(t) == t);
    let mut has_dot = false;
    let mut i: usize = start;
    while i < len
        invariant
            start <= i <= len,
            len == n@.len(),
            chars@ == n@,
            t == n@.subrange(start as int, len as int),
            has_dot <==> (exists|k: int| start <= k < i && #[trigger] n@[k] == '.'),
        decreases len - i,
    {
        let c = chars.get_char(i);
        if c == '.' {
            has_dot = true;
            assert(n@[i as int] == '.');
        }
        i = i + 1;
    }
    assert(has_dot == t.contains('.')) by {
        if has_dot {
            let k = choose|k: int| start <= k < len && #[trigger] n@[k] == '.';
            assert(t[k - start] == '.');
        }
        if t.contains('.') {
            let k = choose|k: int| 0 <= k < t.len() && t[k] == '.';
            assert(n@[k + start] == '.');
        }
    }
    let mut end = len;
    if has_dot {
        assert(n@.subrange(start as int, end as int) =~= t);
        while end > start && chars.get_char(end - 1) == '0'
            invariant
                start <= end <= len,
                len == n@.len(),
                chars@ == n@,
                t == n@.subrange(start as int, len as int),
                trim_zeros(t) == trim_zeros(n@.subrange(start as int, end as int)),
            decreases end,
        {
            assert(n@.subrange(start as int, end as int).drop_last() =~= n@.subrange(start as int, end - 1));
            end = end - 1;
        }
        assert(trim_zeros(n@.subrange(start as int, end as int)) == n@.subrange(start as int, end as int));
        while end > start && chars.get_char(end - 1) == '.'
            invariant
                start <= end <= len,
                len == n@.len(),
                chars@ == n@,
                t == n@.subrange(start as int, len as int),
                trim_dots(trim_zeros(t)) == trim_dots(n@.subrange(start as int, end as int)),
            decreases end,
        {
            assert(n@.subrange(start as int, end as int).drop_last() =~= n@.subrange(start as int, end - 1));
            end = end - 1;
        }
        assert(trim_dots(n@.subrange(start as int, end as int)) == n@.subrange(start as int, end as int));
    }
    let mut s = String::new();
    let mut j: usize = start;
    while j < end
        invariant
            start <= j <= end <= len,
            len == n@.len(),
            chars@ == n@,
            s@ == n@.subrange(start as int, j as int),
        decreases end - j,
    {
        crate::text::string_push(&mut s, chars.get_char(j));
        j = j + 1;
        assert(s@ =~= n@.subrange(start as int, j as int));
    }
    s
}

fn literal_to_string(v: &LiteralValue) -> (s: String)
    ensures
        s@ == literal_text(v@),
{
    match v {
        LiteralValue::Number(n) => numeral_to_string(n),
        LiteralValue::Str(s) => s.clone(),
        LiteralValue::Bool(b) => if *b {
            String::from_str("true")
        } else {
            String::from_str("false")
        },
        LiteralValue::Nil => String::from_str("nil"),
    }
}

fn parenthesize_parts(name: &str, parts: &Vec<String>) -> (s: String)
    ensures
        s@ == parenthesize(name@, parts@.map_values(|p: String| p@)),
{
    let ghost ps = parts@.map_values(|p: String| p@);
    let mut s = String::from_str("(");
    s.append(name);
    s.append(" ");
    let ghost prefix = s@;
    let mut i: usize = 0;
    while i < parts.len()
        invariant
            i <= parts@.len(),
            ps == parts@.map_values(|p: String| p@),
            s@ == prefix + join(ps.subrange(0, i as int), " "@),
        decreases parts.len() - i,
    {
        assert(ps.subrange(0, i + 1).drop_last() =~= ps.subrange(0, i as int));
        if i > 0 {
            s.append(" ");
        }
        s.append(parts[i].as_str());
        i = i + 1;
        assert(s@ =~= prefix + join(ps.subrange(0, i as int), " "@));
    }
    assert(ps.subrange(0, i as int) =~= ps);
    s.append(")");
    s
}

impl Expr {
    /// The expression in prefix form, as `expr_text` says.
    pub fn to_string(&self) -> (s: String)
        ensures
            s@ == expr_text(self@),
        decreases self,
    {
        let mut parts: Vec<String> = Vec::new();
        match self {
            Expr::Assign { name, value, .. } => {
                parts.push(value.to_string());
                assert(parts@.map_values(|p: String| p@) =~= seq![expr_text(value@)]);
                parenthesize_parts(name.lexeme.as_str(), &parts)
            },
            Expr::Binary { left, operator, right } | Expr::Logical { left, operator, right } => {
                parts.push(left.to_string());
                parts.push(right.to_string());
                assert(parts@.map_values(|p: String| p@) =~= seq![expr_text(left@), expr_text(right@)]);
                parenthesize_parts(operator.lexeme.as_str(), &parts)
            },
            Expr::Call { callee, arguments, .. } => {
                parts.push(callee.to_string());
                let ghost args = expr_views(arguments@);
                proof {
                    lemma_expr_views(arguments@);
                }
                let mut i: usize = 0;
                #[verifier::loop_isolation(false)]
                while i < arguments.len()
                    invariant
                        i <= arguments@.len(),
                        args == expr_views(arguments@),
                        args.len() == arguments@.len(),
                        forall|k: int| 0 <= k < arguments@.len() ==> #[trigger] args[k] == arguments@[k]@,
                        parts@.map_values(|p: String| p@) == seq![expr_text(callee@)] + exprs_text(
                            args.subrange(0, i as int),
                        ),
                    decreases arguments.len() - i,
                {
                    let t = arguments[i].to_string();
                    let ghost before = parts@.map_values(|p: String| p@);
                    parts.push(t);
                    assert(args.subrange(0, i + 1).subrange(0, i as int) =~= args.subrange(0, i as int));
                    assert(parts@.map_values(|p: String| p@) =~= before.push(t@));
                    i = i + 1;
                }
                assert(args.subrange(0, i as int) =~= args);
                parenthesize_parts("call", &parts)
            },
            Expr::Get { object, name } => {
                parts.push(object.to_string());
                parts.push(name.lexeme.clone());
                assert(parts@.map_values(|p: String| p@) =~= seq![expr_text(object@), name.lexeme@]);
                parenthesize_parts(".", &parts)
            },
            Expr::Grouping { expression } => {
                parts.push(expression.to_string());
                assert(parts@.map_values(|p: String| p@) =~= seq![expr_text(expression@)]);
                parenthesize_parts("group", &parts)
            },
            Expr::Literal { value } => literal_to_string(value),
            Expr::SetProperty { object, name, value } => {
                parts.push(object.to_string());
                parts.push(name.lexeme.clone());
                parts.push(value.to_string());
                assert(parts@.map_values(|p: String| p@) =~= seq![expr_text(object@), name.lexeme@, expr_text(value@)]);
                parenthesize_parts("=", &parts)
            },
            Expr::Super { keyword, method, .. } => {
                let mut s = keyword.lexeme.clone();
                s.append(".");
                s.append(method.lexeme.as_str());
                s
            },
            Expr::This { keyword, .. } => keyword.lexeme.clone(),
            Expr::Unary { operator, right } => {
                parts.push(right.to_string());
                assert(parts@.map_values(|p: String| p@) =~= seq![expr_text(right@)]);
                parenthesize_parts(operator.lexeme.as_str(), &parts)
            },
            Expr::Variable { name, .. } => name.lexeme.clone(),
        }
    }
}


/// Digits `0` to `9`, at least one, and no leading zero unless it is the
/// only digit: a numeral for a whole number as it is shown.
pub open spec fn plain_digits(d: Seq<char>) -> bool {
    &&& d.len() > 0
    &&& forall|k: int| 0 <= k < d.len() ==> '0' <= #[trigger] d[k] <= '9'
    &&& (d.len() > 1 ==> d[0] != '0')
}

proof fn lemma_trim_zeros_run(s: Seq<char>, k: nat)
    requires
        k <= s.len(),
        forall|i: int| s.len() - k <= i < s.len() ==> #[trigger] s[i] == '0',
        k < s.len() ==> s[s.len() - k - 1] != '0',
    ensures
        trim_zeros(s) == s.subrange(0, s.len() - k),
    decreases k,
{
    if k > 0 {
        lemma_trim_zeros_run(s.drop_last(), (k - 1) as nat);
        assert(s.drop_last().subrange(0, s.len() - k) =~= s.subrange(0, s.len() - k));
    } else {
        assert(s.subrange(0, s.len() as int) =~= s);
    }
}

/// A whole-number numeral without leading zeros prints as it is.
pub proof fn law_whole_numeral_prints_as_is(d: Seq<char>)
    requires
        plain_digits(d),
    ensures
        numeral_text(d) == d,
{
    assert(!d.contains('.')) by {
        if d.contains('.') {
            let k = choose|k: int| 0 <= k < d.len() && d[k] == '.';
            assert('0' <= d[k] <= '9');
        }
    }
}

/// A numeral with a fractional part, no leading zeros and a last digit other
/// than `0` prints as it is; with only zeros after the point, it prints as
/// its whole part.
pub proof fn law_fraction_numeral_prints(whole: Seq<char>, frac: Seq<char>)
    requires
        plain_digits(whole),
        frac.len() > 0,
        forall|k: int| 0 <= k < frac.len() ==> '0' <= #[trigger] frac[k] <= '9',
    ensures
        frac.last() != '0' ==> numeral_text(whole + seq!['.'] + frac) == whole + seq!['.'] + frac,
        (forall|k: int| 0 <= k < frac.len() ==> #[trigger] frac[k] == '0') ==> numeral_text(
            whole + seq!['.'] + frac,
        ) == whole,
{
    let s = whole + seq!['.'] + frac;
    let w = whole.len() as int;
    assert(s[w] == '.');
    assert(s.contains('.'));
    if whole.len() > 1 {
        assert(s[0] == whole[0]);
    } else {
        assert(s[1] == '.');
    }
    assert(trim_leading_zeros(s) == s);
    if frac.last() != '0' {
        assert(s.last() == frac.last());
        lemma_trim_zeros_run(s, 0);
        assert(s.subrange(0, s.len() as int) =~= s);
    }
    if forall|k: int| 0 <= k < frac.len() ==> #[trigger] frac[k] == '0' {
        assert forall|i: int| s.len() - frac.len() <= i < s.len() implies #[trigger] s[i] == '0' by {
            assert(s[i] == frac[i - w - 1]);
        }
        lemma_trim_zeros_run(s, frac.len());
        let t = s.subrange(0, w + 1);
        assert(t.last() == '.');
        assert(t.drop_last() =~= whole);
        assert(whole.last() != '.') by {
            assert('0' <= whole[whole.len() - 1] <= '9');
        }
        assert(trim_dots(whole) == whole);
    }
}

} // verus!
