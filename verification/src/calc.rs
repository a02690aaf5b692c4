//! The drawer's arithmetic expressions (`2 + 3 * 4`): a recursive-descent
//! parser from text to an expression tree whose numbers are spans of the
//! text. Evaluating the tree is done in floating point by the caller.
//!
//! Grammar (whitespace is skipped before each token):
//!   expr    := term (('+' | '-') term)*          left-associative
//!   term    := unary (('*' | '/') unary)*        left-associative
//!   unary   := '-' primary | '+' primary | primary
//!   primary := '(' expr [')'] | number
//!   number  := digits and at most one '.', at least one character

use vstd::prelude::*;
use crate::text::{chars_of, is_whitespace, is_ws};

verus! {

/// An arithmetic expression; numbers are the characters `start..end` of
/// the parsed text.
#[derive(Debug)]
pub enum Expr {
    Num { start: usize, end: usize },
    Neg(Box<Expr>),
    Add(Box<Expr>, Box<Expr>),
    Sub(Box<Expr>, Box<Expr>),
    Mul(Box<Expr>, Box<Expr>),
    Div(Box<Expr>, Box<Expr>),
}

/// The first position at or after `p` that is not whitespace.
pub open spec fn skip_ws(s: Seq<char>, p: int) -> int
    decreases s.len() - p,
{
    if 0 <= p < s.len() && is_ws(s[p]) {
        skip_ws(s, p + 1)
    } else {
        p
    }
}

pub open spec fn is_digit(c: char) -> bool {
    '0' <= c <= '9'
}

/// The end of the number text starting at `p`: digits, and one `.` unless
/// `has_dot` says one was already seen.
pub open spec fn number_end(s: Seq<char>, p: int, has_dot: bool) -> int
    decreases s.len() - p,
{
    if 0 <= p < s.len() && is_digit(s[p]) {
        number_end(s, p + 1, has_dot)
    } else if 0 <= p < s.len() && s[p] == '.' && !has_dot {
        number_end(s, p + 1, true)
    } else {
        p
    }
}

/// Whether a result position `r` lies between `lo` and the end.
pub open spec fn within(s: Seq<char>, lo: int, r: int) -> bool {
    lo <= r <= s.len()
}

pub proof fn lemma_skip_ws(s: Seq<char>, p: int)
    requires
        0 <= p <= s.len(),
    ensures
        p <= skip_ws(s, p) <= s.len(),
        skip_ws(s, p) < s.len() ==> !is_ws(s[skip_ws(s, p)]),
    decreases s.len() - p,
{
    if p < s.len() && is_ws(s[p]) {
        lemma_skip_ws(s, p + 1);
    }
}

pub proof fn lemma_number_end(s: Seq<char>, p: int, has_dot: bool)
    requires
        0 <= p <= s.len(),
    ensures
        p <= number_end(s, p, has_dot) <= s.len(),
    decreases s.len() - p,
{
    if p < s.len() && is_digit(s[p]) {
        lemma_number_end(s, p + 1, has_dot);
    } else if p < s.len() && s[p] == '.' && !has_dot {
        lemma_number_end(s, p + 1, true);
    }
}

/// A number at `p` (after whitespace), and the position after it.
pub open spec fn number_at(s: Seq<char>, p: int) -> Option<(Expr, int)> {
    let q = skip_ws(s, p);
    let e = number_end(s, q, false);
    if e == q {
        None
    } else {
        Some((Expr::Num { start: q as usize, end: e as usize }, e))
    }
}

/// `expr` at `p`: the tree and the position after it.
pub open spec fn expr_at(s: Seq<char>, p: int) -> Option<(Expr, int)>
    decreases s.len() - p, 5int,
{
    if !(0 <= p <= s.len()) {
        None
    } else {
        match term_at(s, p) {
            None => None,
            Some((l, r)) => if within(s, p, r) {
                expr_rest(s, l, r)
            } else {
                None
            },
        }
    }
}

/// The `(('+' | '-') term)*` part after `l`, which ends at `p`.
pub open spec fn expr_rest(s: Seq<char>, l: Expr, p: int) -> Option<(Expr, int)>
    decreases s.len() - p, 4int,
{
    if !(0 <= p <= s.len()) {
        None
    } else {
        proof {
            lemma_skip_ws(s, p);
        }
        let q = skip_ws(s, p);
        if q < s.len() && (s[q] == '+' || s[q] == '-') {
            match term_at(s, q + 1) {
                None => None,
                Some((x, r)) => if within(s, q + 1, r) {
                    let t = if s[q] == '+' {
                        Expr::Add(Box::new(l), Box::new(x))
                    } else {
                        Expr::Sub(Box::new(l), Box::new(x))
                    };
                    expr_rest(s, t, r)
                } else {
                    None
                },
            }
        } else {
            Some((l, q))
        }
    }
}

/// `term` at `p`.
pub open spec fn term_at(s: Seq<char>, p: int) -> Option<(Expr, int)>
    decreases s.len() - p, 3int,
{
    if !(0 <= p <= s.len()) {
        None
    } else {
        match unary_at(s, p) {
            None => None,
            Some((l, r)) => if within(s, p, r) {
                term_rest(s, l, r)
            } else {
                None
            },
        }
    }
}

/// The `(('*' | '/') unary)*` part after `l`, which ends at `p`.
pub open spec fn term_rest(s: Seq<char>, l: Expr, p: int) -> Option<(Expr, int)>
    decreases s.len() - p, 2int,
{
    if !(0 <= p <= s.len()) {
        None
    } else {
        proof {
            lemma_skip_ws(s, p);
        }
        let q = skip_ws(s, p);
        if q < s.len() && (s[q] == '*' || s[q] == '/') {
            match unary_at(s, q + 1) {
                None => None,
                Some((x, r)) => if within(s, q + 1, r) {
                    let t = if s[q] == '*' {
                        Expr::Mul(Box::new(l), Box::new(x))
                    } else {
                        Expr::Div(Box::new(l), Box::new(x))
                    };
                    term_rest(s, t, r)
                } else {
                    None
                },
            }
        } else {
            Some((l, q))
        }
    }
}

/// `unary` at `p`.
pub open spec fn unary_at(s: Seq<char>, p: int) -> Option<(Expr, int)>
    decreases s.len() - p, 1int,
{
    if !(0 <= p <= s.len()) {
        None
    } else {
        proof {
            lemma_skip_ws(s, p);
        }
        let q = skip_ws(s, p);
        if q < s.len() && s[q] == '-' {
            match primary_at(s, q + 1) {
                None => None,
                Some((x, r)) => Some((Expr::Neg(Box::new(x)), r)),
            }
        } else if q < s.len() && s[q] == '+' {
            primary_at(s, q + 1)
        } else {
            primary_at(s, q)
        }
    }
}

/// `primary` at `p`: a parenthesized expression (the closing parenthesis
/// may be missing) or a number.
pub open spec fn primary_at(s: Seq<char>, p: int) -> Option<(Expr, int)>
    decreases s.len() - p, 0int,
{
    if !(0 <= p <= s.len()) {
        None
    } else {
        proof {
            lemma_skip_ws(s, p);
        }
        let q = skip_ws(s, p);
        if q < s.len() && s[q] == '(' {
            match expr_at(s, q + 1) {
                None => None,
                Some((e, r)) => {
                    let c = skip_ws(s, r);
                    if 0 <= c < s.len() && s[c] == ')' {
                        Some((e, c + 1))
                    } else {
                        Some((e, c))
                    }
                },
            }
        } else {
            number_at(s, q)
        }
    }
}

/// The expression a text spells: the whole text, but for whitespace,
/// must be one `expr`.
pub open spec fn expression_of(s: Seq<char>) -> Option<Expr> {
    match expr_at(s, 0) {
        Some((e, r)) => if skip_ws(s, r) >= s.len() {
            Some(e)
        } else {
            None
        },
        None => None,
    }
}

fn skip_ws_exec(s: &Vec<char>, p: usize) -> (q: usize)
    requires
        p <= s@.len(),
    ensures
        q as int == skip_ws(s@, p as int),
        p <= q <= s@.len(),
        q < s@.len() ==> !is_ws(s@[q as int]),
{
    let mut q = p;
    while q < s.len() && is_whitespace(s[q])
        invariant
            p <= q <= s@.len(),
            skip_ws(s@, p as int) == skip_ws(s@, q as int),
        decreases s@.len() - q,
    {
        q += 1;
    }
    q
}

fn number_end_exec(s: &Vec<char>, p: usize) -> (e: usize)
    requires
        p <= s@.len(),
    ensures
        e as int == number_end(s@, p as int, false),
        p <= e <= s@.len(),
{
    let mut e = p;
    let mut has_dot = false;
    while e < s.len() && (('0' <= s[e] && s[e] <= '9') || (s[e] == '.' && !has_dot))
        invariant
            p <= e <= s@.len(),
            number_end(s@, p as int, false) == number_end(s@, e as int, has_dot),
        decreases s@.len() - e,
    {
        if s[e] == '.' && !('0' <= s[e] && s[e] <= '9') {
            has_dot = true;
        }
        e += 1;
    }
    e
}

fn expr_exec(s: &Vec<char>, p: usize) -> (r: Option<(Expr, usize)>)
    requires
        p <= s@.len(),
    ensures
        r is None <==> expr_at(s@, p as int) is None,
        r matches Some((e, q)) ==> expr_at(s@, p as int) == Some((e, q as int)) && p <= q
            <= s@.len(),
    decreases s@.len() - p, 5int,
{
    match term_exec(s, p) {
        None => None,
        Some((l, r)) => {
            let mut cur = l;
            let mut pos = r;
            loop
                invariant
                    p <= pos <= s@.len(),
                    expr_at(s@, p as int) == expr_rest(s@, cur, pos as int),
                decreases s@.len() - pos,
            {
                let q = skip_ws_exec(s, pos);
                if q < s.len() && (s[q] == '+' || s[q] == '-') {
                    let plus = s[q] == '+';
                    match term_exec(s, q + 1) {
                        None => {
                            return None;
                        },
                        Some((x, r2)) => {
                            cur = if plus {
                                Expr::Add(Box::new(cur), Box::new(x))
                            } else {
                                Expr::Sub(Box::new(cur), Box::new(x))
                            };
                            pos = r2;
                        },
                    }
                } else {
                    return Some((cur, q));
                }
            }
        },
    }
}

fn term_exec(s: &Vec<char>, p: usize) -> (r: Option<(Expr, usize)>)
    requires
        p <= s@.len(),
    ensures
        r is None <==> term_at(s@, p as int) is None,
        r matches Some((e, q)) ==> term_at(s@, p as int) == Some((e, q as int)) && p <= q
            <= s@.len(),
    decreases s@.len() - p, 3int,
{
    match unary_exec(s, p) {
        None => None,
        Some((l, r)) => {
            let mut cur = l;
            let mut pos = r;
            loop
                invariant
                    p <= pos <= s@.len(),
                    term_at(s@, p as int) == term_rest(s@, cur, pos as int),
                decreases s@.len() - pos,
            {
                let q = skip_ws_exec(s, pos);
                if q < s.len() && (s[q] == '*' || s[q] == '/') {
                    let times = s[q] == '*';
                    match unary_exec(s, q + 1) {
                        None => {
                            return None;
                        },
                        Some((x, r2)) => {
                            cur = if times {
                                Expr::Mul(Box::new(cur), Box::new(x))
                            } else {
                                Expr::Div(Box::new(cur), Box::new(x))
                            };
                            pos = r2;
                        },
                    }
                } else {
                    return Some((cur, q));
                }
            }
        },
    }
}

fn unary_exec(s: &Vec<char>, p: usize) -> (r: Option<(Expr, usize)>)
    requires
        p <= s@.len(),
    ensures
        r is None <==> unary_at(s@, p as int) is None,
        r matches Some((e, q)) ==> unary_at(s@, p as int) == Some((e, q as int)) && p <= q
            <= s@.len(),
    decreases s@.len() - p, 1int,
{
    let q = skip_ws_exec(s, p);
    if q < s.len() && s[q] == '-' {
        match primary_exec(s, q + 1) {
            None => None,
            Some((x, r)) => Some((Expr::Neg(Box::new(x)), r)),
        }
    } else if q < s.len() && s[q] == '+' {
        primary_exec(s, q + 1)
    } else {
        primary_exec(s, q)
    }
}

fn primary_exec(s: &Vec<char>, p: usize) -> (r: Option<(Expr, usize)>)
    requires
        p <= s@.len(),
    ensures
        r is None <==> primary_at(s@, p as int) is None,
        r matches Some((e, q)) ==> primary_at(s@, p as int) == Some((e, q as int)) && p <= q
            <= s@.len(),
    decreases s@.len() - p, 0int,
{
    let q = skip_ws_exec(s, p);
    if q < s.len() && s[q] == '(' {
        match expr_exec(s, q + 1) {
            None => None,
            Some((e, r)) => {
                let c = skip_ws_exec(s, r);
                if c < s.len() && s[c] == ')' {
                    Some((e, c + 1))
                } else {
                    Some((e, c))
                }
            },
        }
    } else {
        let e = number_end_exec(s, q);
        if e == q {
            None
        } else {
            Some((Expr::Num { start: q, end: e }, e))
        }
    }
}

/// Parses an arithmetic expression; none when the text is not one.
pub fn parse_expression(text: &str) -> (r: Option<Expr>)
    ensures
        r == expression_of(text@),
{
    let s = chars_of(text);
    match expr_exec(&s, 0) {
        None => None,
        Some((e, q)) => {
            let t = skip_ws_exec(&s, q);
            if t >= s.len() {
                Some(e)
            } else {
                None
            }
        },
    }
}


/// The tree of `l c r` for an operator character `c` (`*` or `/`).
pub open spec fn mul_or_div(c: char, l: Expr, r: Expr) -> Expr {
    if c == '*' {
        Expr::Mul(Box::new(l), Box::new(r))
    } else {
        Expr::Div(Box::new(l), Box::new(r))
    }
}

/// Whether `s[i..j]` is a non-empty run of digits.
pub open spec fn digit_run(s: Seq<char>, i: int, j: int) -> bool {
    0 <= i < j <= s.len() && forall|k: int| i <= k < j ==> is_digit(#[trigger] s[k])
}

proof fn lemma_not_ws(c: char)
    requires
        is_digit(c) || c == '*' || c == '/' || c == '+' || c == '-',
    ensures
        !is_ws(c),
{
}

proof fn lemma_digit_run_end(s: Seq<char>, p: int, e: int)
    requires
        0 <= p <= e <= s.len(),
        forall|k: int| p <= k < e ==> is_digit(#[trigger] s[k]),
        e < s.len() ==> !is_digit(s[e]) && s[e] != '.',
    ensures
        number_end(s, p, false) == e,
    decreases e - p,
{
    if p < e {
        lemma_digit_run_end(s, p + 1, e);
    }
}

proof fn lemma_number_here(s: Seq<char>, p: int, e: int)
    requires
        digit_run(s, p, e),
        e < s.len() ==> !is_digit(s[e]) && s[e] != '.',
    ensures
        unary_at(s, p) == Some((Expr::Num { start: p as usize, end: e as usize }, e)),
{
    lemma_not_ws(s[p]);
    assert(skip_ws(s, p) == p);
    lemma_digit_run_end(s, p, e);
    assert(number_at(s, p) == Some((Expr::Num { start: p as usize, end: e as usize }, e)));
    assert(primary_at(s, p) == number_at(s, p));
}

/// `*` and `/` group to the left: a text made of three numbers joined by
/// `*` or `/` is the first two combined, then combined with the third
/// (`8/4/2` is `(8/4)/2`, `2/2*3` is `(2/2)*3`), never the first with the
/// combination of the last two.
pub proof fn mul_div_left_assoc_law(s: Seq<char>, i: int, j: int)
    requires
        0 < i,
        i + 1 < j,
        j + 1 < s.len(),
        s[i] == '*' || s[i] == '/',
        s[j] == '*' || s[j] == '/',
        digit_run(s, 0, i),
        digit_run(s, i + 1, j),
        digit_run(s, j + 1, s.len() as int),
    ensures
        expression_of(s) == Some(
            mul_or_div(
                s[j],
                mul_or_div(
                    s[i],
                    Expr::Num { start: 0usize, end: i as usize },
                    Expr::Num { start: (i + 1) as usize, end: j as usize },
                ),
                Expr::Num { start: (j + 1) as usize, end: s.len() as usize },
            ),
        ),
{
    let n = s.len() as int;
    let a = Expr::Num { start: 0usize, end: i as usize };
    let b = Expr::Num { start: (i + 1) as usize, end: j as usize };
    let c = Expr::Num { start: (j + 1) as usize, end: n as usize };
    lemma_number_here(s, 0, i);
    lemma_number_here(s, i + 1, j);
    lemma_number_here(s, j + 1, n);
    lemma_not_ws(s[i]);
    lemma_not_ws(s[j]);
    assert(skip_ws(s, i) == i);
    assert(skip_ws(s, j) == j);
    assert(skip_ws(s, n) == n);
    let ab = mul_or_div(s[i], a, b);
    let abc = mul_or_div(s[j], ab, c);
    assert(term_rest(s, abc, n) == Some((abc, n)));
    assert(term_rest(s, ab, j) == term_rest(s, abc, n));
    assert(term_rest(s, a, i) == term_rest(s, ab, j));
    assert(term_at(s, 0) == Some((abc, n)));
    assert(expr_rest(s, abc, n) == Some((abc, n)));
    assert(expr_at(s, 0) == Some((abc, n)));
}

/// The tree of `l c r` for an operator character `c` (`+` or `-`).
pub open spec fn add_or_sub(c: char, l: Expr, r: Expr) -> Expr {
    if c == '+' {
        Expr::Add(Box::new(l), Box::new(r))
    } else {
        Expr::Sub(Box::new(l), Box::new(r))
    }
}

/// Whether `c` is `*` or `/`.
pub open spec fn is_mul_op(c: char) -> bool {
    c == '*' || c == '/'
}

/// Whether `c` is `+` or `-`.
pub open spec fn is_add_op(c: char) -> bool {
    c == '+' || c == '-'
}

/// The tree of `l c r` for any of the four operator characters.
pub open spec fn binary_op(c: char, l: Expr, r: Expr) -> Expr {
    if is_mul_op(c) {
        mul_or_div(c, l, r)
    } else {
        add_or_sub(c, l, r)
    }
}

/// Operators of equal precedence group to the left, and `*` and `/` bind
/// tighter than `+` and `-`: for three numbers joined by two operators,
/// the second operator applies to the first combination unless it binds
/// tighter than the first, in which case it combines the last two
/// numbers (`8-4-2` is `(8-4)-2`, `1+2*3` is `1+(2*3)`, `2*3+1` is
/// `(2*3)+1`).
pub proof fn precedence_law(s: Seq<char>, i: int, j: int)
    requires
        0 < i,
        i + 1 < j,
        j + 1 < s.len(),
        is_mul_op(s[i]) || is_add_op(s[i]),
        is_mul_op(s[j]) || is_add_op(s[j]),
        digit_run(s, 0, i),
        digit_run(s, i + 1, j),
        digit_run(s, j + 1, s.len() as int),
    ensures
        ({
            let a = Expr::Num { start: 0usize, end: i as usize };
            let b = Expr::Num { start: (i + 1) as usize, end: j as usize };
            let c = Expr::Num { start: (j + 1) as usize, end: s.len() as usize };
            expression_of(s) == Some(
                if is_add_op(s[i]) && is_mul_op(s[j]) {
                    binary_op(s[i], a, binary_op(s[j], b, c))
                } else {
                    binary_op(s[j], binary_op(s[i], a, b), c)
                },
            )
        }),
{
    let n = s.len() as int;
    let a = Expr::Num { start: 0usize, end: i as usize };
    let b = Expr::Num { start: (i + 1) as usize, end: j as usize };
    let c = Expr::Num { start: (j + 1) as usize, end: n as usize };
    lemma_number_here(s, 0, i);
    lemma_number_here(s, i + 1, j);
    lemma_number_here(s, j + 1, n);
    lemma_not_ws(s[i]);
    lemma_not_ws(s[j]);
    assert(skip_ws(s, i) == i);
    assert(skip_ws(s, j) == j);
    assert(skip_ws(s, n) == n);
    if is_mul_op(s[i]) && is_mul_op(s[j]) {
        mul_div_left_assoc_law(s, i, j);
    } else if is_mul_op(s[i]) {
        let ab = mul_or_div(s[i], a, b);
        assert(term_rest(s, ab, j) == Some((ab, j)));
        assert(term_rest(s, a, i) == term_rest(s, ab, j));
        assert(term_at(s, 0) == Some((ab, j)));
        assert(term_rest(s, c, n) == Some((c, n)));
        assert(term_at(s, j + 1) == Some((c, n)));
        let abc = add_or_sub(s[j], ab, c);
        assert(expr_rest(s, abc, n) == Some((abc, n)));
        assert(expr_rest(s, ab, j) == expr_rest(s, abc, n));
        assert(expr_at(s, 0) == Some((abc, n)));
    } else if is_mul_op(s[j]) {
        assert(term_rest(s, a, i) == Some((a, i)));
        assert(term_at(s, 0) == Some((a, i)));
        let bc = mul_or_div(s[j], b, c);
        assert(term_rest(s, bc, n) == Some((bc, n)));
        assert(term_rest(s, b, j) == term_rest(s, bc, n));
        assert(term_at(s, i + 1) == Some((bc, n)));
        let abc = add_or_sub(s[i], a, bc);
        assert(expr_rest(s, abc, n) == Some((abc, n)));
        assert(expr_rest(s, a, i) == expr_rest(s, abc, n));
        assert(expr_at(s, 0) == Some((abc, n)));
    } else {
        assert(term_rest(s, a, i) == Some((a, i)));
        assert(term_at(s, 0) == Some((a, i)));
        assert(term_rest(s, b, j) == Some((b, j)));
        assert(term_at(s, i + 1) == Some((b, j)));
        assert(term_rest(s, c, n) == Some((c, n)));
        assert(term_at(s, j + 1) == Some((c, n)));
        let ab = add_or_sub(s[i], a, b);
        let abc = add_or_sub(s[j], ab, c);
        assert(expr_rest(s, abc, n) == Some((abc, n)));
        assert(expr_rest(s, ab, j) == expr_rest(s, abc, n));
        assert(expr_rest(s, a, i) == expr_rest(s, ab, j));
        assert(expr_at(s, 0) == Some((abc, n)));
    }
}

} // verus!
