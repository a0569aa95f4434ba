use vstd::prelude::*;
use vstd::string::*;

use crate::scanner::{chars_of, lemma_span_end_at, span_end, Span};
use crate::token::{category_text, Token};

verus! {

/// The value of a literal expression. A number is kept exactly as it was
/// written, as decimal digits with at most one `.`.
#[derive(Debug)]
pub enum Literal {
    Bool(bool),
    Number(String),
    Stringy(String),
    Nil,
}

/// An expression tree. Each node owns its sub-expressions.
#[derive(Debug)]
pub enum Expr {
    Binary { left: Box<Expr>, operator: Token, right: Box<Expr> },
    Grouping { expression: Box<Expr> },
    Literal { value: Literal },
    Unary { operator: Token, right: Box<Expr> },
}

/// Where the leading zeros of the digits `s` end, keeping the last digit.
pub open spec fn zeros_end(s: Seq<char>, i: int) -> int
    decreases s.len() - i,
{
    if 0 <= i && i + 1 < s.len() && s[i] == '0' {
        zeros_end(s, i + 1)
    } else {
        i
    }
}

/// Where the trailing zeros of `s` before `j` start.
pub open spec fn zeros_start(s: Seq<char>, j: int) -> int
    decreases j,
{
    if 0 < j <= s.len() && s[j - 1] == '0' {
        zeros_start(s, j - 1)
    } else {
        j
    }
}

/// The shortest decimal form of a number written as `d`: no leading zeros
/// before the last digit of the whole part, no trailing zeros in the
/// fraction, and no `.` when the fraction is zero.
pub open spec fn number_text(d: Seq<char>) -> Seq<char> {
    let dot = span_end(d, 0, Span::Until('.'));
    let whole = d.subrange(0, dot);
    let fraction = if dot < d.len() {
        d.subrange(dot + 1, d.len() as int)
    } else {
        Seq::empty()
    };
    let kept = fraction.subrange(0, zeros_start(fraction, fraction.len() as int));
    whole.subrange(zeros_end(whole, 0), whole.len() as int) + if kept.len() == 0 {
        Seq::empty()
    } else {
        "."@ + kept
    }
}

/// How a literal prints: its value, a string without quotes.
pub open spec fn literal_text(l: Literal) -> Seq<char> {
    match l {
        Literal::Bool(b) => if b {
            "true"@
        } else {
            "false"@
        },
        Literal::Number(d) => number_text(d@),
        Literal::Stringy(s) => s@,
        Literal::Nil => "nil"@,
    }
}

/// Each part, preceded by a space.
pub open spec fn spaced(parts: Seq<Seq<char>>) -> Seq<char>
    decreases parts.len(),
{
    if parts.len() == 0 {
        Seq::empty()
    } else {
        spaced(parts.drop_last()) + " "@ + parts.last()
    }
}

pub open spec fn parenthesized(name: Seq<char>, parts: Seq<Seq<char>>) -> Seq<char> {
    "("@ + name + spaced(parts) + ")"@
}

/// The printed form of an expression: prefix notation with every operator,
/// and every grouping, in parentheses.
pub open spec fn printed(e: Expr) -> Seq<char>
    decreases e,
{
    match e {
        Expr::Binary { left, operator, right } => parenthesized(
            category_text(operator.token_type),
            seq![printed(*left), printed(*right)],
        ),
        Expr::Grouping { expression } => parenthesized("group"@, seq![printed(*expression)]),
        Expr::Literal { value } => literal_text(value),
        Expr::Unary { operator, right } => parenthesized(
            category_text(operator.token_type),
            seq![printed(*right)],
        ),
    }
}

/// Writes `(name part part ...)`.
fn parenthesize(name: &str, parts: &Vec<String>) -> (r: String)
    ensures
        r@ == parenthesized(name@, parts@.map_values(|p: String| p@)),
{
    let mut buf = "(".to_owned();
    buf.append(name);
    let mut i: usize = 0;
    while i < parts.len()
        invariant
            i <= parts@.len(),
            buf@ == "("@ + name@ + spaced(parts@.subrange(0, i as int).map_values(|p: String| p@)),
        decreases parts@.len() - i,
    {
        let ghost before = parts@.subrange(0, i as int).map_values(|p: String| p@);
        buf.append(" ");
        buf.append(parts[i].as_str());
        proof {
            let after = parts@.subrange(0, i + 1).map_values(|p: String| p@);
            assert(after.drop_last() =~= before);
        }
        i = i + 1;
    }
    assert(parts@.subrange(0, i as int) =~= parts@);
    buf.append(")");
    buf
}

/// The shortest decimal form of the digits `d` (see `number_text`).
fn format_number(d: &String) -> (r: String)
    ensures
        r@ == number_text(d@),
{
    let cs = chars_of(d.as_str());
    let n = cs.len();
    let mut dot: usize = 0;
    while dot < n && cs[dot] != '.'
        invariant
            cs@ == d@,
            n == cs@.len(),
            dot <= n,
            forall|k: int| 0 <= k < dot ==> #[trigger] cs@[k] != '.',
        decreases n - dot,
    {
        dot = dot + 1;
    }
    proof {
        lemma_span_end_at(d@, 0, dot as int, Span::Until('.'));
    }
    let ghost whole = d@.subrange(0, dot as int);
    let mut lead: usize = 0;
    while lead + 1 < dot && cs[lead] == '0'
        invariant
            cs@ == d@,
            dot <= n == cs@.len(),
            whole == d@.subrange(0, dot as int),
            lead < dot || lead == 0,
            zeros_end(whole, 0) == zeros_end(whole, lead as int),
        decreases dot - lead,
    {
        assert(whole[lead as int] == cs@[lead as int]);
        lead = lead + 1;
    }
    let mut r = d.as_str().substring_char(lead, dot).to_owned();
    if dot < n {
        let ghost fraction = d@.subrange(dot + 1, n as int);
        let mut end: usize = n;
        while end > dot + 1 && cs[end - 1] == '0'
            invariant
                cs@ == d@,
                dot < n == cs@.len(),
                dot + 1 <= end <= n,
                fraction == d@.subrange(dot + 1, n as int),
                zeros_start(fraction, fraction.len() as int) == zeros_start(fraction, end - dot - 1),
            decreases end,
        {
            assert(fraction[end - dot - 2] == cs@[end - 1]);
            end = end - 1;
        }
        if end > dot + 1 {
            r.append(".");
            r.append(d.as_str().substring_char(dot + 1, end));
        }
    }
    r
}

impl Expr {
    /// The printed form of the tree (see `printed`). The tree is only read.
    pub fn print(&self) -> (r: String)
        ensures
            r@ == printed(*self),
        decreases self,
    {
        match self {
            Expr::Binary { left, operator, right } => {
                let parts = vec![left.print(), right.print()];
                let name = operator.token_type.text();
                let r = parenthesize(name.as_str(), &parts);
                assert(parts@.map_values(|p: String| p@) =~= seq![printed(**left), printed(**right)]);
                r
            },
            Expr::Grouping { expression } => {
                let parts = vec![expression.print()];
                let r = parenthesize("group", &parts);
                assert(parts@.map_values(|p: String| p@) =~= seq![printed(**expression)]);
                r
            },
            Expr::Literal { value } => match value {
                Literal::Stringy(s) => s.clone(),
                Literal::Number(d) => format_number(d),
                Literal::Bool(b) => if *b {
                    "true".to_owned()
                } else {
                    "false".to_owned()
                },
                Literal::Nil => "nil".to_owned(),
            },
            Expr::Unary { operator, right } => {
                let parts = vec![right.print()];
                let name = operator.token_type.text();
                let r = parenthesize(name.as_str(), &parts);
                assert(parts@.map_values(|p: String| p@) =~= seq![printed(**right)]);
                r
            },
        }
    }
}

} // verus!
