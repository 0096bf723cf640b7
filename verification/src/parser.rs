//! The query parser: a recursive-descent reading of one chunk body into an
//! expression tree. Precedence, low to high: `|` union, `&` intersection,
//! `-` difference, then primaries (parenthesized expressions, mention tokens,
//! bare integers, names). Whitespace is insignificant.

use vstd::prelude::*;

use crate::ast::bare_name;
use crate::ast::print_expr;
use crate::ast::printable;
use crate::ast::Expr;
use crate::ast::ExprV;
use crate::chars::digits_value;
use crate::chars::is_digit_char;
use crate::chars::is_name_char;
use crate::chars::is_ws_char;

verus! {

/// Whether a value fits an unsigned 64-bit identifier.
pub open spec fn fits_u64(v: int) -> bool {
    0 <= v < 0x1_0000_0000_0000_0000
}

/// The first position at or after `i` holding a non-whitespace character.
pub open spec fn skip_ws_at(s: Seq<char>, i: int) -> int
    decreases s.len() - i,
{
    if 0 <= i < s.len() && is_ws_char(s[i]) {
        skip_ws_at(s, i + 1)
    } else {
        i
    }
}

/// The end of the run of decimal digits starting at `i`.
pub open spec fn digit_run_end(s: Seq<char>, i: int) -> int
    decreases s.len() - i,
{
    if 0 <= i < s.len() && is_digit_char(s[i]) {
        digit_run_end(s, i + 1)
    } else {
        i
    }
}

/// The end of the run of name characters starting at `i`.
pub open spec fn name_run_end(s: Seq<char>, i: int) -> int
    decreases s.len() - i,
{
    if 0 <= i < s.len() && is_name_char(s[i]) {
        name_run_end(s, i + 1)
    } else {
        i
    }
}

/// The position of the first `"` at or after `i`; the length if none.
pub open spec fn quote_end(s: Seq<char>, i: int) -> int
    decreases s.len() - i,
{
    if 0 <= i < s.len() {
        if s[i] == '"' {
            i
        } else {
            quote_end(s, i + 1)
        }
    } else {
        i
    }
}

/// Parse the digits of a mention token starting at `d` and the closing `>`.
/// `role` chooses between a role and a user reference.
pub open spec fn mention_digits_at(s: Seq<char>, d: int, role: bool) -> Option<(ExprV, int)> {
    let e = digit_run_end(s, d);
    if e > d && 0 <= e < s.len() && s[e] == '>' && fits_u64(digits_value(s.subrange(d, e))) {
        if role {
            Some((ExprV::RoleId(digits_value(s.subrange(d, e)) as u64), e + 1))
        } else {
            Some((ExprV::UserId(digits_value(s.subrange(d, e)) as u64), e + 1))
        }
    } else {
        None
    }
}

/// Parse a mention token `<@id>`, `<@!id>` or `<@&id>` whose `<` stands at `k`.
pub open spec fn parse_mention_at(s: Seq<char>, k: int) -> Option<(ExprV, int)> {
    if k + 1 < s.len() && s[k + 1] == '@' {
        if k + 2 < s.len() && s[k + 2] == '&' {
            mention_digits_at(s, k + 3, true)
        } else if k + 2 < s.len() && s[k + 2] == '!' {
            mention_digits_at(s, k + 3, false)
        } else {
            mention_digits_at(s, k + 2, false)
        }
    } else {
        None
    }
}

/// Parse a primary: a parenthesized expression, a mention token, a bare
/// integer, a quoted name, or a bare name.
pub open spec fn parse_primary_at(s: Seq<char>, i: int) -> Option<(ExprV, int)>
    decreases s.len() - i, 0int,
{
    let k = skip_ws_at(s, i);
    if !(i <= k < s.len()) {
        None
    } else {
        let c = s[k];
        if c == '(' {
            match parse_union_at(s, k + 1) {
                Some((e, j)) => {
                    let m = skip_ws_at(s, j);
                    if j <= m < s.len() && s[m] == ')' {
                        Some((e, m + 1))
                    } else {
                        None
                    }
                },
                None => None,
            }
        } else if c == '<' {
            parse_mention_at(s, k)
        } else if is_digit_char(c) {
            let e = digit_run_end(s, k);
            if fits_u64(digits_value(s.subrange(k, e))) {
                Some((ExprV::UnknownId(digits_value(s.subrange(k, e)) as u64), e))
            } else {
                None
            }
        } else if c == '"' {
            let q = quote_end(s, k + 1);
            if k + 1 <= q < s.len() {
                Some((ExprV::Literal(s.subrange(k + 1, q)), q + 1))
            } else {
                None
            }
        } else if is_name_char(c) {
            Some((ExprV::Literal(s.subrange(k, name_run_end(s, k))), name_run_end(s, k)))
        } else {
            None
        }
    }
}

/// Extend a parsed primary with `- primary` tails, left associated.
pub open spec fn diff_tail_at(acc: ExprV, s: Seq<char>, i: int) -> Option<(ExprV, int)>
    decreases s.len() - i, 1int,
{
    let k = skip_ws_at(s, i);
    if i <= k < s.len() && s[k] == '-' {
        match parse_primary_at(s, k + 1) {
            Some((e, j)) => {
                if j > k && j <= s.len() {
                    diff_tail_at(ExprV::Difference(Box::new(acc), Box::new(e)), s, j)
                } else {
                    None
                }
            },
            None => None,
        }
    } else {
        Some((acc, i))
    }
}

/// Parse a difference chain: `primary ('-' primary)*`.
pub open spec fn parse_diff_at(s: Seq<char>, i: int) -> Option<(ExprV, int)>
    decreases s.len() - i, 2int,
{
    match parse_primary_at(s, i) {
        Some((e, j)) => {
            if i <= j <= s.len() {
                diff_tail_at(e, s, j)
            } else {
                None
            }
        },
        None => None,
    }
}

/// Extend a parsed difference chain with `& difference` tails.
pub open spec fn inter_tail_at(acc: ExprV, s: Seq<char>, i: int) -> Option<(ExprV, int)>
    decreases s.len() - i, 3int,
{
    let k = skip_ws_at(s, i);
    if i <= k < s.len() && s[k] == '&' {
        match parse_diff_at(s, k + 1) {
            Some((e, j)) => {
                if j > k && j <= s.len() {
                    inter_tail_at(ExprV::Intersection(Box::new(acc), Box::new(e)), s, j)
                } else {
                    None
                }
            },
            None => None,
        }
    } else {
        Some((acc, i))
    }
}

/// Parse an intersection chain: `difference ('&' difference)*`.
pub open spec fn parse_inter_at(s: Seq<char>, i: int) -> Option<(ExprV, int)>
    decreases s.len() - i, 4int,
{
    match parse_diff_at(s, i) {
        Some((e, j)) => {
            if i <= j <= s.len() {
                inter_tail_at(e, s, j)
            } else {
                None
            }
        },
        None => None,
    }
}

/// Extend a parsed intersection chain with `| intersection` tails.
pub open spec fn union_tail_at(acc: ExprV, s: Seq<char>, i: int) -> Option<(ExprV, int)>
    decreases s.len() - i, 5int,
{
    let k = skip_ws_at(s, i);
    if i <= k < s.len() && s[k] == '|' {
        match parse_inter_at(s, k + 1) {
            Some((e, j)) => {
                if j > k && j <= s.len() {
                    union_tail_at(ExprV::Union(Box::new(acc), Box::new(e)), s, j)
                } else {
                    None
                }
            },
            None => None,
        }
    } else {
        Some((acc, i))
    }
}

/// Parse a union chain: `intersection ('|' intersection)*`.
pub open spec fn parse_union_at(s: Seq<char>, i: int) -> Option<(ExprV, int)>
    decreases s.len() - i, 6int,
{
    match parse_inter_at(s, i) {
        Some((e, j)) => {
            if i <= j <= s.len() {
                union_tail_at(e, s, j)
            } else {
                None
            }
        },
        None => None,
    }
}

/// Parse one whole chunk body: an expression followed only by whitespace.
pub open spec fn parse_chunk_spec(s: Seq<char>) -> Option<ExprV> {
    match parse_union_at(s, 0) {
        Some((e, j)) => {
            if skip_ws_at(s, j) == s.len() {
                Some(e)
            } else {
                None
            }
        },
        None => None,
    }
}

/// Bounds of [`skip_ws_at`]: it stays within the text, skips only whitespace,
/// and stops on a non-whitespace character.
pub proof fn lemma_skip_ws_bounds(s: Seq<char>, i: int)
    requires
        0 <= i <= s.len(),
    ensures
        i <= skip_ws_at(s, i) <= s.len(),
        skip_ws_at(s, i) < s.len() ==> !is_ws_char(s[skip_ws_at(s, i)]),
        forall|k: int| i <= k < skip_ws_at(s, i) ==> is_ws_char(#[trigger] s[k]),
    decreases s.len() - i,
{
    if 0 <= i < s.len() && is_ws_char(s[i]) {
        lemma_skip_ws_bounds(s, i + 1);
    }
}

/// A run of digits has a nonnegative value.
pub proof fn lemma_digits_value_nonneg(s: Seq<char>)
    requires
        forall|k: int| 0 <= k < s.len() ==> is_digit_char(#[trigger] s[k]),
    ensures
        digits_value(s) >= 0,
    decreases s.len(),
{
    if s.len() > 0 {
        lemma_digits_value_nonneg(s.drop_last());
        assert(is_digit_char(s.last()));
        assert(crate::chars::digit_value(s.last()) >= 0);
    }
}

/// Extending a run of digits cannot decrease its value.
pub proof fn lemma_digits_value_mono(s: Seq<char>, from: int, a: int, b: int)
    requires
        0 <= from <= a <= b <= s.len(),
        forall|k: int| from <= k < b ==> is_digit_char(#[trigger] s[k]),
    ensures
        digits_value(s.subrange(from, a)) <= digits_value(s.subrange(from, b)),
    decreases b - a,
{
    if a < b {
        lemma_digits_value_mono(s, from, a, b - 1);
        let whole = s.subrange(from, b);
        assert(whole.drop_last() =~= s.subrange(from, b - 1));
        assert(whole.last() == s[b - 1]);
        assert forall|k: int| 0 <= k < s.subrange(from, b - 1).len() implies is_digit_char(
            #[trigger] s.subrange(from, b - 1)[k],
        ) by {
            assert(s.subrange(from, b - 1)[k] == s[from + k]);
        }
        lemma_digits_value_nonneg(s.subrange(from, b - 1));
        assert(crate::chars::digit_value(s[b - 1]) >= 0);
    }
}

/// Executable [`skip_ws_at`].
fn e_skip_ws(s: &[char], i: usize) -> (r: usize)
    requires
        i <= s@.len(),
    ensures
        r as int == skip_ws_at(s@, i as int),
        i <= r <= s@.len(),
{
    let mut j = i;
    while j < s.len() && crate::chars::ws_char(s[j])
        invariant
            i <= j <= s@.len(),
            skip_ws_at(s@, i as int) == skip_ws_at(s@, j as int),
        decreases s@.len() - j,
    {
        j += 1;
    }
    j
}

/// Executable [`digit_run_end`].
fn e_digit_run(s: &[char], i: usize) -> (r: usize)
    requires
        i <= s@.len(),
    ensures
        r as int == digit_run_end(s@, i as int),
        i <= r <= s@.len(),
        forall|k: int| i <= k < r ==> is_digit_char(#[trigger] s@[k]),
{
    let mut j = i;
    while j < s.len() && crate::chars::digit_char(s[j])
        invariant
            i <= j <= s@.len(),
            digit_run_end(s@, i as int) == digit_run_end(s@, j as int),
            forall|k: int| i <= k < j ==> is_digit_char(#[trigger] s@[k]),
        decreases s@.len() - j,
    {
        j += 1;
    }
    j
}

/// Executable [`name_run_end`].
fn e_name_run(s: &[char], i: usize) -> (r: usize)
    requires
        i <= s@.len(),
    ensures
        r as int == name_run_end(s@, i as int),
        i <= r <= s@.len(),
{
    let mut j = i;
    while j < s.len() && crate::chars::name_char(s[j])
        invariant
            i <= j <= s@.len(),
            name_run_end(s@, i as int) == name_run_end(s@, j as int),
        decreases s@.len() - j,
    {
        j += 1;
    }
    j
}

/// Executable [`quote_end`].
fn e_quote_end(s: &[char], i: usize) -> (r: usize)
    requires
        i <= s@.len(),
    ensures
        r as int == quote_end(s@, i as int),
        i <= r <= s@.len(),
{
    let mut j = i;
    while j < s.len() && s[j] != '"'
        invariant
            i <= j <= s@.len(),
            quote_end(s@, i as int) == quote_end(s@, j as int),
        decreases s@.len() - j,
    {
        j += 1;
    }
    j
}

/// Copy a range of the text.
fn subvec(s: &[char], a: usize, b: usize) -> (r: Vec<char>)
    requires
        a <= b <= s@.len(),
    ensures
        r@ == s@.subrange(a as int, b as int),
{
    let mut r: Vec<char> = Vec::new();
    let mut j = a;
    while j < b
        invariant
            a <= j <= b <= s@.len(),
            r@ == s@.subrange(a as int, j as int),
        decreases b - j,
    {
        r.push(s[j]);
        proof {
            assert(r@ =~= s@.subrange(a as int, j as int + 1));
        }
        j += 1;
    }
    r
}

/// Read the digits in `[from, to)` as an identifier; `None` when the value
/// does not fit 64 bits.
fn e_digits_to_u64(s: &[char], from: usize, to: usize) -> (r: Option<u64>)
    requires
        from <= to <= s@.len(),
        forall|k: int| from <= k < to ==> is_digit_char(#[trigger] s@[k]),
    ensures
        match r {
            Some(v) => v as int == digits_value(s@.subrange(from as int, to as int)),
            None => !fits_u64(digits_value(s@.subrange(from as int, to as int))),
        },
{
    let mut acc: u64 = 0;
    let mut j = from;
    proof {
        assert(s@.subrange(from as int, from as int) =~= Seq::<char>::empty());
    }
    while j < to
        invariant
            from <= j <= to <= s@.len(),
            forall|k: int| from <= k < to ==> is_digit_char(#[trigger] s@[k]),
            acc as int == digits_value(s@.subrange(from as int, j as int)),
        decreases to - j,
    {
        let c = s[j];
        let d: u64 = (c as u32 - '0' as u32) as u64;
        proof {
            assert(is_digit_char(c));
            assert(d as int == crate::chars::digit_value(c));
            assert(d < 10);
            assert(s@.subrange(from as int, j as int + 1).drop_last() =~= s@.subrange(
                from as int,
                j as int,
            ));
            assert(s@.subrange(from as int, j as int + 1).last() == s@[j as int]);
        }
        let m = match acc.checked_mul(10) {
            Some(m) => m,
            None => {
                proof {
                    lemma_digits_value_nonneg(s@.subrange(from as int, j as int));
                    assert(digits_value(s@.subrange(from as int, j as int + 1)) == acc as int * 10
                        + d);
                    lemma_digits_value_mono(s@, from as int, j as int + 1, to as int);
                }
                return None;
            },
        };
        let a = match m.checked_add(d) {
            Some(a) => a,
            None => {
                proof {
                    assert(digits_value(s@.subrange(from as int, j as int + 1)) == acc as int * 10
                        + d);
                    lemma_digits_value_mono(s@, from as int, j as int + 1, to as int);
                }
                return None;
            },
        };
        acc = a;
        j += 1;
    }
    Some(acc)
}

/// Executable [`mention_digits_at`].
fn e_mention_digits(s: &[char], d: usize, role: bool) -> (r: Option<(Expr, usize)>)
    requires
        d <= s@.len(),
    ensures
        match r {
            Some((e, j)) => mention_digits_at(s@, d as int, role) == Some((e@, j as int)) && d < j
                <= s@.len(),
            None => mention_digits_at(s@, d as int, role) is None,
        },
{
    let e = e_digit_run(s, d);
    if e > d && e < s.len() && s[e] == '>' {
        match e_digits_to_u64(s, d, e) {
            Some(v) => {
                if role {
                    Some((Expr::RoleId(v), e + 1))
                } else {
                    Some((Expr::UserId(v), e + 1))
                }
            },
            None => None,
        }
    } else {
        None
    }
}

/// Executable [`parse_mention_at`].
fn e_parse_mention(s: &[char], k: usize) -> (r: Option<(Expr, usize)>)
    requires
        k < s@.len(),
    ensures
        match r {
            Some((e, j)) => parse_mention_at(s@, k as int) == Some((e@, j as int)) && k < j
                <= s@.len(),
            None => parse_mention_at(s@, k as int) is None,
        },
{
    let n = s.len();
    if k + 1 < n && s[k + 1] == '@' {
        if k + 2 < n && s[k + 2] == '&' {
            e_mention_digits(s, k + 3, true)
        } else if k + 2 < n && s[k + 2] == '!' {
            e_mention_digits(s, k + 3, false)
        } else {
            e_mention_digits(s, k + 2, false)
        }
    } else {
        None
    }
}

/// Executable [`parse_primary_at`].
fn p_primary(s: &[char], i: usize) -> (r: Option<(Expr, usize)>)
    requires
        i <= s@.len(),
    ensures
        match r {
            Some((e, j)) => parse_primary_at(s@, i as int) == Some((e@, j as int)) && i <= j
                <= s@.len(),
            None => parse_primary_at(s@, i as int) is None,
        },
    decreases s@.len() - i, 0int,
{
    let k = e_skip_ws(s, i);
    if !(k < s.len()) {
        return None;
    }
    let c = s[k];
    if c == '(' {
        match p_union(s, k + 1) {
            Some((e, j)) => {
                let m = e_skip_ws(s, j);
                if m < s.len() && s[m] == ')' {
                    Some((e, m + 1))
                } else {
                    None
                }
            },
            None => None,
        }
    } else if c == '<' {
        e_parse_mention(s, k)
    } else if crate::chars::digit_char(c) {
        let e = e_digit_run(s, k);
        match e_digits_to_u64(s, k, e) {
            Some(v) => Some((Expr::UnknownId(v), e)),
            None => None,
        }
    } else if c == '"' {
        let q = e_quote_end(s, k + 1);
        if q < s.len() {
            Some((Expr::Literal(subvec(s, k + 1, q)), q + 1))
        } else {
            None
        }
    } else if crate::chars::name_char(c) {
        let e = e_name_run(s, k);
        Some((Expr::Literal(subvec(s, k, e)), e))
    } else {
        None
    }
}

/// Executable [`diff_tail_at`].
fn p_diff_tail(acc: Expr, s: &[char], i: usize) -> (r: Option<(Expr, usize)>)
    requires
        i <= s@.len(),
    ensures
        match r {
            Some((e, j)) => diff_tail_at(acc@, s@, i as int) == Some((e@, j as int)) && i <= j
                <= s@.len(),
            None => diff_tail_at(acc@, s@, i as int) is None,
        },
    decreases s@.len() - i, 1int,
{
    let k = e_skip_ws(s, i);
    if k < s.len() && s[k] == '-' {
        match p_primary(s, k + 1) {
            Some((e, j)) => p_diff_tail(Expr::Difference(Box::new(acc), Box::new(e)), s, j),
            None => None,
        }
    } else {
        Some((acc, i))
    }
}

/// Executable [`parse_diff_at`].
fn p_diff(s: &[char], i: usize) -> (r: Option<(Expr, usize)>)
    requires
        i <= s@.len(),
    ensures
        match r {
            Some((e, j)) => parse_diff_at(s@, i as int) == Some((e@, j as int)) && i <= j
                <= s@.len(),
            None => parse_diff_at(s@, i as int) is None,
        },
    decreases s@.len() - i, 2int,
{
    match p_primary(s, i) {
        Some((e, j)) => p_diff_tail(e, s, j),
        None => None,
    }
}

/// Executable [`inter_tail_at`].
fn p_inter_tail(acc: Expr, s: &[char], i: usize) -> (r: Option<(Expr, usize)>)
    requires
        i <= s@.len(),
    ensures
        match r {
            Some((e, j)) => inter_tail_at(acc@, s@, i as int) == Some((e@, j as int)) && i <= j
                <= s@.len(),
            None => inter_tail_at(acc@, s@, i as int) is None,
        },
    decreases s@.len() - i, 3int,
{
    let k = e_skip_ws(s, i);
    if k < s.len() && s[k] == '&' {
        match p_diff(s, k + 1) {
            Some((e, j)) => p_inter_tail(Expr::Intersection(Box::new(acc), Box::new(e)), s, j),
            None => None,
        }
    } else {
        Some((acc, i))
    }
}

/// Executable [`parse_inter_at`].
fn p_inter(s: &[char], i: usize) -> (r: Option<(Expr, usize)>)
    requires
        i <= s@.len(),
    ensures
        match r {
            Some((e, j)) => parse_inter_at(s@, i as int) == Some((e@, j as int)) && i <= j
                <= s@.len(),
            None => parse_inter_at(s@, i as int) is None,
        },
    decreases s@.len() - i, 4int,
{
    match p_diff(s, i) {
        Some((e, j)) => p_inter_tail(e, s, j),
        None => None,
    }
}

/// Executable [`union_tail_at`].
fn p_union_tail(acc: Expr, s: &[char], i: usize) -> (r: Option<(Expr, usize)>)
    requires
        i <= s@.len(),
    ensures
        match r {
            Some((e, j)) => union_tail_at(acc@, s@, i as int) == Some((e@, j as int)) && i <= j
                <= s@.len(),
            None => union_tail_at(acc@, s@, i as int) is None,
        },
    decreases s@.len() - i, 5int,
{
    let k = e_skip_ws(s, i);
    if k < s.len() && s[k] == '|' {
        match p_inter(s, k + 1) {
            Some((e, j)) => p_union_tail(Expr::Union(Box::new(acc), Box::new(e)), s, j),
            None => None,
        }
    } else {
        Some((acc, i))
    }
}

/// Executable [`parse_union_at`].
fn p_union(s: &[char], i: usize) -> (r: Option<(Expr, usize)>)
    requires
        i <= s@.len(),
    ensures
        match r {
            Some((e, j)) => parse_union_at(s@, i as int) == Some((e@, j as int)) && i <= j
                <= s@.len(),
            None => parse_union_at(s@, i as int) is None,
        },
    decreases s@.len() - i, 6int,
{
    match p_inter(s, i) {
        Some((e, j)) => p_union_tail(e, s, j),
        None => None,
    }
}

/// The position a syntactic failure points at: where the offending expression
/// begins when none could be read, or the first character past a well-formed
/// expression when text trails it.
pub open spec fn parse_err_pos(s: Seq<char>) -> int {
    match parse_union_at(s, 0) {
        Some((e, j)) => skip_ws_at(s, j),
        None => skip_ws_at(s, 0),
    }
}

/// The short description of a syntactic failure.
pub open spec fn parse_err_detail(s: Seq<char>) -> Seq<char> {
    match parse_union_at(s, 0) {
        Some(_) => "unexpected trailing text"@,
        None => "expected an expression"@,
    }
}

/// A syntactic failure: a 0-based character position within the chunk body,
/// and a short description.
#[derive(Debug)]
pub struct ParseError {
    /// A position within the chunk, in characters.
    pub position: usize,
    /// What went wrong there.
    pub detail: Vec<char>,
}

/// Parse one chunk body into an expression tree.
pub fn parse_drql(chunk: &[char]) -> (r: Result<Expr, ParseError>)
    ensures
        match r {
            Ok(e) => parse_chunk_spec(chunk@) == Some(e@),
            Err(pe) => {
                &&& parse_chunk_spec(chunk@) is None
                &&& pe.position as int == parse_err_pos(chunk@)
                &&& pe.position <= chunk@.len()
                &&& pe.detail@ == parse_err_detail(chunk@)
            },
        },
{
    match p_union(chunk, 0) {
        Some((e, j)) => {
            let m = e_skip_ws(chunk, j);
            if m == chunk.len() {
                Ok(e)
            } else {
                let detail = crate::chars::chars_of("unexpected trailing text");
                Err(ParseError { position: m, detail })
            }
        },
        None => {
            let detail = crate::chars::chars_of("expected an expression");
            Err(ParseError { position: e_skip_ws(chunk, 0), detail })
        },
    }
}


/// A position where a printed expression may end: the end of the text, a
/// space, or a closing parenthesis.
pub open spec fn after_ok(s: Seq<char>, j: int) -> bool {
    j == s.len() || s[j] == ' ' || s[j] == ')'
}

/// A run of digits bounded by a non-digit ends exactly at the bound.
proof fn lemma_digit_run_exact(s: Seq<char>, x: int, y: int)
    requires
        0 <= x <= y <= s.len(),
        forall|k: int| x <= k < y ==> is_digit_char(#[trigger] s[k]),
        y == s.len() || !is_digit_char(s[y]),
    ensures
        digit_run_end(s, x) == y,
    decreases y - x,
{
    if x < y {
        lemma_digit_run_exact(s, x + 1, y);
    }
}

/// A run of name characters bounded by a non-name character ends exactly at
/// the bound.
proof fn lemma_name_run_exact(s: Seq<char>, x: int, y: int)
    requires
        0 <= x <= y <= s.len(),
        forall|k: int| x <= k < y ==> is_name_char(#[trigger] s[k]),
        y == s.len() || !is_name_char(s[y]),
    ensures
        name_run_end(s, x) == y,
    decreases y - x,
{
    if x < y {
        lemma_name_run_exact(s, x + 1, y);
    }
}

/// A stretch free of quotes bounded by a quote ends exactly at the quote.
proof fn lemma_quote_end_exact(s: Seq<char>, x: int, y: int)
    requires
        0 <= x <= y < s.len(),
        forall|k: int| x <= k < y ==> #[trigger] s[k] != '"',
        s[y] == '"',
    ensures
        quote_end(s, x) == y,
    decreases y - x,
{
    if x < y {
        lemma_quote_end_exact(s, x + 1, y);
    }
}

/// A printed expression is nonempty and starts with a non-whitespace
/// character.
proof fn lemma_print_first(e: ExprV)
    requires
        printable(e),
    ensures
        print_expr(e).len() >= 1,
        !is_ws_char(print_expr(e)[0]),
    decreases e,
{
    match e {
        ExprV::UserId(u) => {
            assert(print_expr(e)[0] == '<');
        },
        ExprV::RoleId(r) => {
            assert(print_expr(e)[0] == '<');
        },
        ExprV::UnknownId(n) => {
            crate::chars::lemma_dec_digits_are_digits(n as int);
            assert(is_digit_char(print_expr(e)[0]));
        },
        ExprV::Literal(s0) => {
            if bare_name(s0) {
                assert(is_name_char(print_expr(e)[0]));
            } else {
                assert(print_expr(e)[0] == '"');
            }
        },
        _ => {
            assert(print_expr(e)[0] == '(');
        },
    }
}

/// A parsed primary followed by no further `-` operand is a whole difference
/// chain.
proof fn lemma_promote_diff(e: ExprV, s: Seq<char>, i: int, j: int)
    requires
        0 <= i <= j <= s.len(),
        parse_primary_at(s, i) == Some((e, j)),
        ({
            let k = skip_ws_at(s, j);
            !(k < s.len() && s[k] == '-')
        }),
    ensures
        parse_diff_at(s, i) == Some((e, j)),
{
    lemma_skip_ws_bounds(s, j);
}

/// A parsed difference chain followed by no further `&` operand is a whole
/// intersection chain.
proof fn lemma_promote_inter(e: ExprV, s: Seq<char>, i: int, j: int)
    requires
        0 <= i <= j <= s.len(),
        parse_diff_at(s, i) == Some((e, j)),
        ({
            let k = skip_ws_at(s, j);
            !(k < s.len() && s[k] == '&')
        }),
    ensures
        parse_inter_at(s, i) == Some((e, j)),
{
    lemma_skip_ws_bounds(s, j);
}

/// A parsed intersection chain followed by no further `|` operand is a whole
/// union chain.
proof fn lemma_promote_union(e: ExprV, s: Seq<char>, i: int, j: int)
    requires
        0 <= i <= j <= s.len(),
        parse_inter_at(s, i) == Some((e, j)),
        ({
            let k = skip_ws_at(s, j);
            !(k < s.len() && s[k] == '|')
        }),
    ensures
        parse_union_at(s, i) == Some((e, j)),
{
    lemma_skip_ws_bounds(s, j);
}

/// Reading back a printed expression: when the canonical print of `e` stands
/// at `a`, preceded only by whitespace from `i` and followed by a space, a
/// closing parenthesis, or the end, the primary parser yields exactly `e`.
proof fn lemma_parse_print(e: ExprV, s: Seq<char>, i: int, a: int)
    requires
        printable(e),
        0 <= i <= a,
        skip_ws_at(s, i) == a,
        a + print_expr(e).len() <= s.len(),
        s.subrange(a, a + print_expr(e).len()) == print_expr(e),
        after_ok(s, a + print_expr(e).len()),
    ensures
        parse_primary_at(s, i) == Some((e, a + print_expr(e).len())),
    decreases e, 1int,
{
    lemma_skip_ws_bounds(s, i);
    let n = print_expr(e).len() as int;
    let pe = print_expr(e);
    assert(n >= 1) by { lemma_print_first(e); }
    assert forall|k: int| 0 <= k < n implies s[a + k] == #[trigger] pe[k] by {
        assert(pe[k] == s.subrange(a, a + n)[k]);
        assert(s.subrange(a, a + n)[k] == s[a + k]);
    }
    match e {
        ExprV::UserId(u) => {
            crate::chars::lemma_dec_digits_are_digits(u as int);
            crate::chars::lemma_digits_value_of_dec(u as int);
            let dec = crate::chars::dec_digits(u as int);
            let d = dec.len() as int;
            assert(pe == seq!['<', '@'] + dec + seq!['>']);
            assert(pe[0] == '<' && pe[1] == '@');
            assert(s[a] == '<' && s[a + 1] == '@');
            assert forall|k: int| a + 2 <= k < a + 2 + d implies is_digit_char(#[trigger] s[k])
                && s[k] == dec[k - a - 2] by {
                assert(s[k] == pe[k - a]);
                assert(pe[k - a] == dec[k - a - 2]);
            }
            assert(pe[2 + d] == '>');
            assert(s[a + 2 + d] == '>');
            assert(s[a + 2] == dec[0]);
            assert(is_digit_char(s[a + 2]) && s[a + 2] != '&' && s[a + 2] != '!');
            lemma_digit_run_exact(s, a + 2, a + 2 + d);
            assert(s.subrange(a + 2, a + 2 + d) =~= dec);
            assert(parse_mention_at(s, a) == mention_digits_at(s, a + 2, false));
            assert(mention_digits_at(s, a + 2, false) == Some((e, a + n)));
            assert(parse_primary_at(s, i) == Some((e, a + n)));
        },
        ExprV::RoleId(rid) => {
            crate::chars::lemma_dec_digits_are_digits(rid as int);
            crate::chars::lemma_digits_value_of_dec(rid as int);
            let dec = crate::chars::dec_digits(rid as int);
            let d = dec.len() as int;
            assert(pe == seq!['<', '@', '&'] + dec + seq!['>']);
            assert(pe[0] == '<' && pe[1] == '@' && pe[2] == '&');
            assert(s[a] == '<' && s[a + 1] == '@' && s[a + 2] == '&');
            assert forall|k: int| a + 3 <= k < a + 3 + d implies is_digit_char(#[trigger] s[k])
                && s[k] == dec[k - a - 3] by {
                assert(s[k] == pe[k - a]);
                assert(pe[k - a] == dec[k - a - 3]);
            }
            assert(pe[3 + d] == '>');
            assert(s[a + 3 + d] == '>');
            assert(s[a + 3] == dec[0]);
            assert(is_digit_char(s[a + 3]));
            lemma_digit_run_exact(s, a + 3, a + 3 + d);
            assert(s.subrange(a + 3, a + 3 + d) =~= dec);
            assert(parse_mention_at(s, a) == mention_digits_at(s, a + 3, true));
            assert(mention_digits_at(s, a + 3, true) == Some((e, a + n)));
            assert(parse_primary_at(s, i) == Some((e, a + n)));
        },
        ExprV::UnknownId(m) => {
            crate::chars::lemma_dec_digits_are_digits(m as int);
            crate::chars::lemma_digits_value_of_dec(m as int);
            let dec = crate::chars::dec_digits(m as int);
            let d = dec.len() as int;
            assert(pe == dec);
            assert forall|k: int| a <= k < a + d implies is_digit_char(#[trigger] s[k]) by {
                assert(s[k] == pe[k - a]);
                assert(pe[k - a] == dec[k - a]);
            }
            assert(is_digit_char(s[a]));
            assert(!is_ws_char(s[a]) && s[a] != '(' && s[a] != '<' && s[a] != '"');
            assert(a + d == s.len() || !is_digit_char(s[a + d]));
            lemma_digit_run_exact(s, a, a + d);
            assert(s.subrange(a, a + d) =~= dec);
            assert(parse_primary_at(s, i) == Some((e, a + n)));
        },
        ExprV::Literal(s0) => {
            if bare_name(s0) {
                assert(pe == s0);
                assert forall|k: int| a <= k < a + n implies is_name_char(#[trigger] s[k]) by {
                    assert(s[k] == pe[k - a]);
                    assert(is_name_char(s0[k - a]));
                }
                assert(is_name_char(s[a]) && !is_digit_char(s[a]));
                assert(!is_ws_char(s[a]) && s[a] != '(' && s[a] != '<' && s[a] != '"');
                assert(a + n == s.len() || !is_name_char(s[a + n]));
                lemma_name_run_exact(s, a, a + n);
                assert(s.subrange(a, a + n) =~= s0);
                assert(parse_primary_at(s, i) == Some((e, a + n)));
            } else {
                assert(pe == seq!['"'] + s0 + seq!['"']);
                assert(pe[0] == '"');
                assert(s[a] == '"');
                assert forall|k: int| a + 1 <= k < a + n - 1 implies (#[trigger] s[k]) != '"'
                    && s[k] == s0[k - a - 1] by {
                    assert(s[k] == pe[k - a]);
                    assert(pe[k - a] == s0[k - a - 1]);
                    assert(s0[k - a - 1] != '"');
                }
                assert(pe[n - 1] == '"');
                assert(s[a + n - 1] == '"');
                lemma_quote_end_exact(s, a + 1, a + n - 1);
                assert(s.subrange(a + 1, a + n - 1) =~= s0);
                assert(parse_primary_at(s, i) == Some((e, a + n)));
            }
        },
        ExprV::Union(x, y) => {
            lemma_parse_print_binary(e, *x, *y, '|', s, i, a);
        },
        ExprV::Intersection(x, y) => {
            lemma_parse_print_binary(e, *x, *y, '&', s, i, a);
        },
        ExprV::Difference(x, y) => {
            lemma_parse_print_binary(e, *x, *y, '-', s, i, a);
        },
    }
}

/// The binary cases of [`lemma_parse_print`]: `( A op B )`.
#[verifier::rlimit(100)]
proof fn lemma_parse_print_binary(
    e: ExprV,
    x: ExprV,
    y: ExprV,
    op: char,
    s: Seq<char>,
    i: int,
    a: int,
)
    requires
        printable(e),
        (e == ExprV::Union(Box::new(x), Box::new(y)) && op == '|') || (e == ExprV::Intersection(
            Box::new(x),
            Box::new(y),
        ) && op == '&') || (e == ExprV::Difference(Box::new(x), Box::new(y)) && op == '-'),
        0 <= i <= a,
        skip_ws_at(s, i) == a,
        a + print_expr(e).len() <= s.len(),
        s.subrange(a, a + print_expr(e).len()) == print_expr(e),
        after_ok(s, a + print_expr(e).len()),
    ensures
        parse_primary_at(s, i) == Some((e, a + print_expr(e).len())),
    decreases e, 0int,
{
    lemma_skip_ws_bounds(s, i);
    let pe = print_expr(e);
    let n = pe.len() as int;
    let pa = print_expr(x);
    let pb = print_expr(y);
    let la = pa.len() as int;
    let lb = pb.len() as int;
    assert(pe == seq!['('] + pa + seq![' ', op, ' '] + pb + seq![')']);
    assert(n == 1 + la + 3 + lb + 1);
    assert forall|k: int| 0 <= k < n implies s[a + k] == #[trigger] pe[k] by {
        assert(pe[k] == s.subrange(a, a + n)[k]);
        assert(s.subrange(a, a + n)[k] == s[a + k]);
    }
    assert(pe[0] == '(');
    assert(s[a] == '(');
    assert forall|k: int| 0 <= k < la implies s[a + 1 + k] == #[trigger] pa[k] by {
        assert(s[a + 1 + k] == pe[1 + k]);
        assert(pe[1 + k] == pa[k]);
    }
    let ja = a + 1 + la;
    assert(pe[1 + la] == ' ' && pe[2 + la] == op && pe[3 + la] == ' ');
    assert(s[ja] == ' ' && s[ja + 1] == op && s[ja + 2] == ' ');
    assert forall|k: int| 0 <= k < lb implies s[ja + 3 + k] == #[trigger] pb[k] by {
        assert(s[ja + 3 + k] == pe[4 + la + k]);
        assert(pe[4 + la + k] == pb[k]);
    }
    let jb = ja + 3 + lb;
    assert(pe[n - 1] == ')');
    assert(s[jb] == ')');
    // The left operand.
    lemma_print_first(x);
    assert(s[a + 1] == pa[0]);
    assert(skip_ws_at(s, a + 1) == a + 1);
    assert(s.subrange(a + 1, a + 1 + la) =~= pa);
    assert(after_ok(s, ja));
    lemma_parse_print(x, s, a + 1, a + 1);
    assert(parse_primary_at(s, a + 1) == Some((x, ja)));
    // Nothing but `op` follows the left operand.
    assert(skip_ws_at(s, ja) == ja + 1) by {
        assert(is_ws_char(s[ja]));
        assert(!is_ws_char(s[ja + 1]));
        assert(skip_ws_at(s, ja + 1) == ja + 1);
    }
    // The right operand.
    lemma_print_first(y);
    assert(s[ja + 3] == pb[0]);
    assert(skip_ws_at(s, ja + 2) == ja + 3) by {
        assert(is_ws_char(s[ja + 2]));
        assert(!is_ws_char(s[ja + 3]));
        assert(skip_ws_at(s, ja + 3) == ja + 3);
    }
    assert(s.subrange(ja + 3, ja + 3 + lb) =~= pb);
    assert(after_ok(s, jb));
    lemma_parse_print(y, s, ja + 2, ja + 3);
    assert(parse_primary_at(s, ja + 2) == Some((y, jb)));
    assert(skip_ws_at(s, jb) == jb);
    lemma_promote_diff(y, s, ja + 2, jb);
    lemma_promote_inter(y, s, ja + 2, jb);
    if op == '|' {
        lemma_promote_diff(x, s, a + 1, ja);
        lemma_promote_inter(x, s, a + 1, ja);
        assert(parse_inter_at(s, a + 1) == Some((x, ja)));
        assert(parse_inter_at(s, ja + 2) == Some((y, jb)));
        assert(union_tail_at(ExprV::Union(Box::new(x), Box::new(y)), s, jb) == Some((e, jb)));
        assert(union_tail_at(x, s, ja) == Some((e, jb)));
        assert(parse_union_at(s, a + 1) == Some((e, jb)));
    } else if op == '&' {
        lemma_promote_diff(x, s, a + 1, ja);
        assert(parse_diff_at(s, a + 1) == Some((x, ja)));
        assert(parse_diff_at(s, ja + 2) == Some((y, jb)));
        assert(inter_tail_at(ExprV::Intersection(Box::new(x), Box::new(y)), s, jb) == Some((
            e,
            jb,
        )));
        assert(inter_tail_at(x, s, ja) == Some((e, jb)));
        assert(parse_inter_at(s, a + 1) == Some((e, jb)));
        lemma_promote_union(e, s, a + 1, jb);
        assert(parse_union_at(s, a + 1) == Some((e, jb)));
    } else {
        assert(parse_primary_at(s, a + 1) == Some((x, ja)));
        assert(diff_tail_at(ExprV::Difference(Box::new(x), Box::new(y)), s, jb) == Some((e, jb)));
        assert(diff_tail_at(x, s, ja) == Some((e, jb)));
        assert(parse_diff_at(s, a + 1) == Some((e, jb)));
        lemma_promote_inter(e, s, a + 1, jb);
        lemma_promote_union(e, s, a + 1, jb);
        assert(parse_union_at(s, a + 1) == Some((e, jb)));
    }
    // Close the parenthesis.
    assert(skip_ws_at(s, jb) == jb);
    assert(parse_primary_at(s, i) == Some((e, jb + 1)));
}

/// Parser round trip: reading back the canonical print of any printable
/// expression yields that expression again.
pub proof fn lemma_parse_print_roundtrip(e: ExprV)
    requires
        printable(e),
    ensures
        parse_chunk_spec(print_expr(e)) == Some(e),
{
    let s = print_expr(e);
    lemma_print_first(e);
    assert(skip_ws_at(s, 0) == 0);
    assert(s.subrange(0, s.len() as int) == s);
    assert(after_ok(s, s.len() as int));
    lemma_parse_print(e, s, 0, 0);
    let n = s.len() as int;
    assert(skip_ws_at(s, n) == n);
    lemma_promote_diff(e, s, 0, n);
    lemma_promote_inter(e, s, 0, n);
    lemma_promote_union(e, s, 0, n);
    assert(parse_union_at(s, 0) == Some((e, n)));
}


} // verus!
