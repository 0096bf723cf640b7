//! The abstract syntax tree of the query language, and its canonical printer.

use vstd::prelude::*;

use crate::chars::dec_digits;
use crate::chars::is_digit_char;
use crate::chars::is_name_char;
use crate::chars::name_char;
use crate::chars::digit_char;
use crate::chars::u64_to_chars;

verus! {

/// A query expression. The tree is immutable after parsing and owns its
/// children exclusively.
#[derive(Debug)]
pub enum Expr {
    /// Set union of the two operands.
    Union(Box<Expr>, Box<Expr>),
    /// Set intersection of the two operands.
    Intersection(Box<Expr>, Box<Expr>),
    /// Set difference: left minus right.
    Difference(Box<Expr>, Box<Expr>),
    /// A syntactically typed user reference, from a user-mention token.
    UserId(u64),
    /// A syntactically typed role reference, from a role-mention token.
    RoleId(u64),
    /// A bare numeric token whose kind is resolved at interpretation time.
    UnknownId(u64),
    /// An identifier name: a role name, a user tag, or a reserved name.
    Literal(Vec<char>),
}

/// The mathematical value of an [`Expr`].
pub enum ExprV {
    /// Set union of the two operands.
    Union(Box<ExprV>, Box<ExprV>),
    /// Set intersection of the two operands.
    Intersection(Box<ExprV>, Box<ExprV>),
    /// Set difference: left minus right.
    Difference(Box<ExprV>, Box<ExprV>),
    /// A syntactically typed user reference.
    UserId(u64),
    /// A syntactically typed role reference.
    RoleId(u64),
    /// A bare numeric token.
    UnknownId(u64),
    /// An identifier name.
    Literal(Seq<char>),
}

/// The value of an expression tree.
pub open spec fn expr_view(e: Expr) -> ExprV
    decreases e,
{
    match e {
        Expr::Union(a, b) => ExprV::Union(Box::new(expr_view(*a)), Box::new(expr_view(*b))),
        Expr::Intersection(a, b) => ExprV::Intersection(
            Box::new(expr_view(*a)),
            Box::new(expr_view(*b)),
        ),
        Expr::Difference(a, b) => ExprV::Difference(
            Box::new(expr_view(*a)),
            Box::new(expr_view(*b)),
        ),
        Expr::UserId(u) => ExprV::UserId(u),
        Expr::RoleId(r) => ExprV::RoleId(r),
        Expr::UnknownId(n) => ExprV::UnknownId(n),
        Expr::Literal(s) => ExprV::Literal(s@),
    }
}

impl View for Expr {
    type V = ExprV;

    open spec fn view(&self) -> ExprV {
        expr_view(*self)
    }
}

/// Whether `s` prints as a bare name: nonempty, made of name characters, and
/// not all digits (an all-digit bare token would read back as a number).
pub open spec fn bare_name(s: Seq<char>) -> bool {
    &&& s.len() > 0
    &&& forall|k: int| 0 <= k < s.len() ==> is_name_char(#[trigger] s[k])
    &&& !is_digit_char(s[0])
}

/// Whether every literal of the expression can be printed and read back:
/// a literal is either a bare name or free of quote characters.
pub open spec fn printable(e: ExprV) -> bool
    decreases e,
{
    match e {
        ExprV::Union(a, b) => printable(*a) && printable(*b),
        ExprV::Intersection(a, b) => printable(*a) && printable(*b),
        ExprV::Difference(a, b) => printable(*a) && printable(*b),
        ExprV::UserId(_) => true,
        ExprV::RoleId(_) => true,
        ExprV::UnknownId(_) => true,
        ExprV::Literal(s) => bare_name(s) || (forall|k: int|
            0 <= k < s.len() ==> #[trigger] s[k] != '"'),
    }
}

/// The canonical printed form of an expression: compound expressions are
/// fully parenthesized, and literals are printed bare when they can be, else
/// quoted.
pub open spec fn print_expr(e: ExprV) -> Seq<char>
    decreases e,
{
    match e {
        ExprV::Union(a, b) => seq!['('] + print_expr(*a) + seq![' ', '|', ' '] + print_expr(*b)
            + seq![')'],
        ExprV::Intersection(a, b) => seq!['('] + print_expr(*a) + seq![' ', '&', ' '] + print_expr(
            *b,
        ) + seq![')'],
        ExprV::Difference(a, b) => seq!['('] + print_expr(*a) + seq![' ', '-', ' '] + print_expr(*b)
            + seq![')'],
        ExprV::UserId(u) => seq!['<', '@'] + dec_digits(u as int) + seq!['>'],
        ExprV::RoleId(r) => seq!['<', '@', '&'] + dec_digits(r as int) + seq!['>'],
        ExprV::UnknownId(n) => dec_digits(n as int),
        ExprV::Literal(s) => if bare_name(s) {
            s
        } else {
            seq!['"'] + s + seq!['"']
        },
    }
}

/// Whether `s` prints as a bare name, executably.
pub fn is_bare_name(s: &[char]) -> (r: bool)
    ensures
        r == bare_name(s@),
{
    if s.len() == 0 {
        return false;
    }
    if digit_char(s[0]) {
        return false;
    }
    let mut i: usize = 0;
    while i < s.len()
        invariant
            0 <= i <= s@.len(),
            forall|k: int| 0 <= k < i ==> is_name_char(#[trigger] s@[k]),
        decreases s@.len() - i,
    {
        if !name_char(s[i]) {
            return false;
        }
        i += 1;
    }
    true
}

/// Print an expression in its canonical form.
pub fn print(e: &Expr) -> (r: Vec<char>)
    ensures
        r@ == print_expr(e@),
    decreases e,
{
    match e {
        Expr::Union(a, b) => {
            let pa = print(a);
            let pb = print(b);
            wrap_binary(pa, '|', pb)
        },
        Expr::Intersection(a, b) => {
            let pa = print(a);
            let pb = print(b);
            wrap_binary(pa, '&', pb)
        },
        Expr::Difference(a, b) => {
            let pa = print(a);
            let pb = print(b);
            wrap_binary(pa, '-', pb)
        },
        Expr::UserId(u) => {
            let mut v: Vec<char> = Vec::new();
            v.push('<');
            v.push('@');
            let mut d = u64_to_chars(*u);
            v.append(&mut d);
            v.push('>');
            proof {
                assert(v@ =~= print_expr(e@));
            }
            v
        },
        Expr::RoleId(rid) => {
            let mut v: Vec<char> = Vec::new();
            v.push('<');
            v.push('@');
            v.push('&');
            let mut d = u64_to_chars(*rid);
            v.append(&mut d);
            v.push('>');
            proof {
                assert(v@ =~= print_expr(e@));
            }
            v
        },
        Expr::UnknownId(n) => u64_to_chars(*n),
        Expr::Literal(s) => {
            if is_bare_name(s.as_slice()) {
                let mut v: Vec<char> = Vec::new();
                let mut i: usize = 0;
                while i < s.len()
                    invariant
                        0 <= i <= s@.len(),
                        v@ == s@.take(i as int),
                    decreases s@.len() - i,
                {
                    v.push(s[i]);
                    proof {
                        assert(v@ =~= s@.take(i as int + 1));
                    }
                    i += 1;
                }
                proof {
                    assert(v@ =~= print_expr(e@));
                }
                v
            } else {
                let mut v: Vec<char> = Vec::new();
                v.push('"');
                let mut i: usize = 0;
                while i < s.len()
                    invariant
                        0 <= i <= s@.len(),
                        v@ == seq!['"'] + s@.take(i as int),
                    decreases s@.len() - i,
                {
                    v.push(s[i]);
                    proof {
                        assert(v@ =~= seq!['"'] + s@.take(i as int + 1));
                    }
                    i += 1;
                }
                v.push('"');
                proof {
                    assert(s@.take(s@.len() as int) == s@);
                    assert(v@ =~= print_expr(e@));
                }
                v
            }
        },
    }
}

/// Wrap two printed operands around an operator, fully parenthesized.
fn wrap_binary(pa: Vec<char>, op: char, pb: Vec<char>) -> (r: Vec<char>)
    ensures
        r@ == seq!['('] + pa@ + seq![' ', op, ' '] + pb@ + seq![')'],
{
    let mut v: Vec<char> = Vec::new();
    let mut pa = pa;
    let mut pb = pb;
    let ghost pav = pa@;
    let ghost pbv = pb@;
    v.push('(');
    v.append(&mut pa);
    v.push(' ');
    v.push(op);
    v.push(' ');
    v.append(&mut pb);
    v.push(')');
    proof {
        assert(v@ =~= seq!['('] + pav + seq![' ', op, ' '] + pbv + seq![')']);
    }
    v
}

/// Structural equality of expression trees.
pub fn expr_eq(a: &Expr, b: &Expr) -> (r: bool)
    ensures
        r == (a@ == b@),
    decreases a,
{
    match (a, b) {
        (Expr::Union(al, ar), Expr::Union(bl, br)) => expr_eq(al, bl) && expr_eq(ar, br),
        (Expr::Intersection(al, ar), Expr::Intersection(bl, br)) => expr_eq(al, bl) && expr_eq(
            ar,
            br,
        ),
        (Expr::Difference(al, ar), Expr::Difference(bl, br)) => expr_eq(al, bl) && expr_eq(ar, br),
        (Expr::UserId(x), Expr::UserId(y)) => x == y,
        (Expr::RoleId(x), Expr::RoleId(y)) => x == y,
        (Expr::UnknownId(x), Expr::UnknownId(y)) => x == y,
        (Expr::Literal(x), Expr::Literal(y)) => crate::chars::seq_eq(x.as_slice(), y.as_slice()),
        _ => false,
    }
}

} // verus!
