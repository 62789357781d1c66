//! The expression tree and its prefix-notation rendering.
use vstd::prelude::*;
use vstd::string::StringExecFns;
use crate::scanner::{digit_run, run_until};
use crate::text::{chars_of, push_char, string_of};
use crate::token::Token;

verus! {

/// A node of the syntax tree. Each sub-tree is owned by its parent.
///
/// A number literal holds the decimal text of its value, digits with an
/// optional fraction, exactly as it was written.
#[derive(Debug)]
pub enum Expression {
    Binary { left: Box<Expression>, operator: Token, right: Box<Expression> },
    Unary { operator: Token, right: Box<Expression> },
    Grouping(Box<Expression>),
    NumberLiteral(String),
    StringLiteral(String),
    BoolLiteral(bool),
    NilLiteral,
}

/// Whether `s` is a decimal literal: digits, then optionally a dot and digits.
pub open spec fn is_number_text(s: Seq<char>) -> bool {
    let k = digit_run(s, 0) as int;
    &&& k > 0
    &&& (k == s.len() || (s[k] == '.' && k + 1 < s.len() && k + 1 + digit_run(s, k + 1) == s.len()))
}

/// `s` without leading zeros, keeping at least one character.
pub open spec fn trim_leading_zeros(s: Seq<char>) -> Seq<char>
    decreases s.len(),
{
    if s.len() > 1 && s[0] == '0' {
        trim_leading_zeros(s.drop_first())
    } else {
        s
    }
}

/// `s` without trailing zeros.
pub open spec fn trim_trailing_zeros(s: Seq<char>) -> Seq<char>
    decreases s.len(),
{
    if s.len() > 0 && s.last() == '0' {
        trim_trailing_zeros(s.drop_last())
    } else {
        s
    }
}

/// The shortest decimal text of the value that `s` denotes: no leading zeros
/// in the integer part, no trailing zeros in the fraction, and no dot when
/// the fraction is zero (so `007.50` reads `7.5` and `1.0` reads `1`).
pub open spec fn number_text(s: Seq<char>) -> Seq<char> {
    let k = run_until(s, 0, '.') as int;
    let whole = trim_leading_zeros(s.subrange(0, k as int));
    let fraction = if k < s.len() {
        trim_trailing_zeros(s.subrange(k + 1, s.len() as int))
    } else {
        Seq::empty()
    };
    if fraction.len() == 0 {
        whole
    } else {
        whole + seq!['.'] + fraction
    }
}

/// The prefix-notation rendering of `e`.
pub open spec fn expr_text(e: Expression) -> Seq<char>
    decreases e,
{
    match e {
        Expression::NumberLiteral(n) => number_text(n@),
        Expression::StringLiteral(s) => seq!['\''] + s@ + seq!['\''],
        Expression::BoolLiteral(b) => if b {
            "true"@
        } else {
            "false"@
        },
        Expression::NilLiteral => "nil"@,
        Expression::Grouping(inner) => seq!['('] + expr_text(*inner) + seq![')'],
        Expression::Unary { operator, right } => seq!['('] + operator.lexeme@ + seq![' ']
            + expr_text(*right) + seq![')'],
        Expression::Binary { left, operator, right } => seq!['('] + operator.lexeme@ + seq![' ']
            + expr_text(*left) + seq![' '] + expr_text(*right) + seq![')'],
    }
}

/// Appends the characters of `s` to `out`.
fn append_string(out: &mut String, s: &String)
    ensures
        final(out)@ == old(out)@ + s@,
{
    out.append(s.as_str());
}

/// The shortest decimal text of the number written `s`.
pub fn number_string(s: &String) -> (r: String)
    ensures
        r@ == number_text(s@),
{
    let v = chars_of(s.as_str());
    let ghost c = v@;
    let mut k: usize = 0;
    while k < v.len() && v[k] != '.'
        invariant
            k <= v@.len(),
            v@ == c,
            k + run_until(c, k as int, '.') == run_until(c, 0, '.'),
        decreases v@.len() - k,
    {
        k += 1;
    }
    let mut a: usize = 0;
    while k - a > 1 && v[a] == '0'
        invariant
            a <= k <= v@.len(),
            v@ == c,
            k == run_until(c, 0, '.'),
            trim_leading_zeros(c.subrange(0, k as int)) == trim_leading_zeros(
                c.subrange(a as int, k as int),
            ),
        decreases k - a,
    {
        assert(c.subrange(a as int, k as int).drop_first() =~= c.subrange(a + 1, k as int));
        a += 1;
    }
    let mut r = string_of(&v, a, k);
    if k < v.len() {
        let mut b: usize = v.len();
        while b > k + 1 && v[b - 1] == '0'
            invariant
                k + 1 <= b <= v@.len(),
                v@ == c,
                k == run_until(c, 0, '.'),
                trim_trailing_zeros(c.subrange(k + 1, c.len() as int)) == trim_trailing_zeros(
                    c.subrange(k + 1, b as int),
                ),
            decreases b,
        {
            assert(c.subrange(k + 1, b as int).drop_last() =~= c.subrange(k + 1, b - 1));
            b -= 1;
        }
        let ghost f = c.subrange(k + 1, b as int);
        assert(f.len() > 0 ==> f.last() != '0');
        assert(trim_trailing_zeros(f) == f);
        if b > k + 1 {
            push_char(&mut r, '.');
            let fraction = string_of(&v, k + 1, b);
            append_string(&mut r, &fraction);
        }
    }
    r
}

impl Expression {
    /// The prefix-notation rendering: `(op left right)` for a binary node,
    /// `(op right)` for a unary one, `(inner)` for a group.
    pub fn render(&self) -> (r: String)
        ensures
            r@ == expr_text(*self),
        decreases self,
    {
        match self {
            Expression::NumberLiteral(n) => number_string(n),
            Expression::StringLiteral(s) => {
                let mut r = String::new();
                push_char(&mut r, '\'');
                append_string(&mut r, s);
                push_char(&mut r, '\'');
                r
            },
            Expression::BoolLiteral(b) => {
                if *b {
                    String::from_str("true")
                } else {
                    String::from_str("false")
                }
            },
            Expression::NilLiteral => String::from_str("nil"),
            Expression::Grouping(inner) => {
                let mut r = String::new();
                push_char(&mut r, '(');
                let t = inner.render();
                append_string(&mut r, &t);
                push_char(&mut r, ')');
                r
            },
            Expression::Unary { operator, right } => {
                let mut r = String::new();
                push_char(&mut r, '(');
                append_string(&mut r, &operator.lexeme);
                push_char(&mut r, ' ');
                let t = right.render();
                append_string(&mut r, &t);
                push_char(&mut r, ')');
                r
            },
            Expression::Binary { left, operator, right } => {
                let mut r = String::new();
                push_char(&mut r, '(');
                append_string(&mut r, &operator.lexeme);
                push_char(&mut r, ' ');
                let l = left.render();
                append_string(&mut r, &l);
                push_char(&mut r, ' ');
                let t = right.render();
                append_string(&mut r, &t);
                push_char(&mut r, ')');
                r
            },
        }
    }
}

} // verus!
