//! The parser: raw source text to a syntax tree. Output tags `{{ expr }}`,
//! control tags `{% tag ... %}`, comment spans `{# ... #}` excluded from
//! output, literal text elsewhere. The expression grammar has, loosest to
//! tightest: filter chains, `or`, `and`, comparisons, `+`/`-`, `*`/`/`,
//! atoms (literals, variable paths, parenthesized expressions).

use vstd::prelude::*;

use crate::errors::Error;
use crate::nodes::Arg;
use crate::nodes::BinOp;
use crate::nodes::Expr;
use crate::nodes::IfBranch;
use crate::nodes::Node;
use crate::nodes::Param;
use crate::nodes::Pathseg;

verus! {

/// Character-sequence equality of two string slices.
pub fn str_eq(a: &str, b: &str) -> (r: bool)
    ensures
        r == (a@ == b@),
{
    let x = a.to_owned();
    let y = b.to_owned();
    x == y
}

/// Whether `pat` occurs in `s` starting at `pos`.
fn starts_at(s: &str, pos: usize, pat: &str) -> (b: bool)
    requires
        pos <= s@.len(),
    ensures
        b <==> (pos + pat@.len() <= s@.len() && s@.subrange(pos as int, pos + pat@.len())
            == pat@),
{
    let n = s.unicode_len();
    let m = pat.unicode_len();
    if pos > n || m > n - pos {
        return false;
    }
    let mut i: usize = 0;
    while i < m
        invariant
            i <= m,
            pos + m <= n,
            n == s@.len(),
            m == pat@.len(),
            forall|k: int| 0 <= k < i ==> s@[pos + k] == pat@[k],
        decreases m - i,
    {
        if s.get_char(pos + i) != pat.get_char(i) {
            proof {
                assert(s@.subrange(pos as int, pos + pat@.len())[i as int] != pat@[i as int]);
            }
            return false;
        }
        i = i + 1;
    }
    proof {
        assert(s@.subrange(pos as int, pos + pat@.len()) =~= pat@);
    }
    true
}

fn is_ws(c: char) -> bool {
    c == ' ' || c == '\t' || c == '\n' || c == '\r'
}

fn is_ident_start(c: char) -> bool {
    ('a' <= c && c <= 'z') || ('A' <= c && c <= 'Z') || c == '_'
}

fn is_ident_char(c: char) -> bool {
    is_ident_start(c) || ('0' <= c && c <= '9')
}

/// Advances past spaces, tabs and line breaks.
fn skip_ws(s: &str, pos: usize) -> (p: usize)
    requires
        pos <= s@.len(),
    ensures
        pos <= p <= s@.len(),
{
    let mut p = pos;
    let n = s.unicode_len();
    while p < n
        invariant
            pos <= p <= n,
            n == s@.len(),
        decreases n - p,
    {
        if is_ws(s.get_char(p)) {
            p = p + 1;
        } else {
            return p;
        }
    }
    p
}

/// Scans an identifier (possibly empty) at `pos`.
fn scan_ident(s: &str, pos: usize) -> (r: (String, usize))
    requires
        pos <= s@.len(),
    ensures
        pos <= r.1 <= s@.len(),
        r.1 > pos <==> r.0@.len() > 0,
{
    let n = s.unicode_len();
    let mut p = pos;
    if p < n && is_ident_start(s.get_char(p)) {
        p = p + 1;
        while p < n
            invariant
                pos < p <= n,
                n == s@.len(),
            decreases n - p,
        {
            if is_ident_char(s.get_char(p)) {
                p = p + 1;
            } else {
                break ;
            }
        }
        let t = s.substring_char(pos, p);
        let owned = t.to_owned();
        proof {
            assert(owned@.len() == p - pos);
        }
        (owned, p)
    } else {
        proof {
            reveal_strlit("");
        }
        let e = "";
        (e.to_owned(), p)
    }
}

/// Expects `pat` exactly at `pos` and steps over it.
fn expect_str(s: &str, pos: usize, pat: &str) -> (r: Result<usize, Error>)
    requires
        pos <= s@.len(),
    ensures
        r is Ok ==> pos <= r->Ok_0 <= s@.len() && r->Ok_0 == pos + pat@.len(),
        r is Err ==> r->Err_0 is SyntaxError,
{
    if starts_at(s, pos, pat) {
        let n = s.unicode_len();
        let m = pat.unicode_len();
        proof {
            assert(pos + m <= n);
        }
        Ok(pos + m)
    } else {
        Err(Error::SyntaxError { pos })
    }
}

/// Parses a double-quoted string literal without escape sequences.
fn parse_string_lit(s: &str, pos: usize) -> (r: Result<(String, usize), Error>)
    requires
        pos <= s@.len(),
    ensures
        r is Ok ==> pos < r->Ok_0.1 <= s@.len(),
        r is Err ==> r->Err_0 is SyntaxError,
{
    let n = s.unicode_len();
    if pos >= n || s.get_char(pos) != '"' {
        return Err(Error::SyntaxError { pos });
    }
    let mut p = pos + 1;
    while p < n
        invariant
            pos < p <= n,
            n == s@.len(),
        decreases n - p,
    {
        if s.get_char(p) == '"' {
            let t = s.substring_char(pos + 1, p);
            return Ok((t.to_owned(), p + 1));
        }
        p = p + 1;
    }
    Err(Error::SyntaxError { pos })
}

/// Parses a decimal integer literal.
fn parse_int_lit(s: &str, pos: usize) -> (r: Result<(i64, usize), Error>)
    requires
        pos <= s@.len(),
    ensures
        r is Ok ==> pos < r->Ok_0.1 <= s@.len(),
        r is Err ==> r->Err_0 is SyntaxError,
{
    let n = s.unicode_len();
    if pos >= n || !('0' <= s.get_char(pos) && s.get_char(pos) <= '9') {
        return Err(Error::SyntaxError { pos });
    }
    let mut v: i64 = (s.get_char(pos) as u32 as i64) - ('0' as u32 as i64);
    let mut p = pos + 1;
    while p < n
        invariant
            pos < p <= n,
            n == s@.len(),
            0 <= v,
        decreases n - p,
    {
        let c = s.get_char(p);
        if '0' <= c && c <= '9' {
            let d: i64 = (c as u32 as i64) - ('0' as u32 as i64);
            proof {
                assert(0 <= d <= 9);
            }
            if v > (i64::MAX - d) / 10 {
                return Err(Error::SyntaxError { pos: p });
            }
            proof {
                assert(v * 10 + d <= i64::MAX) by (nonlinear_arith)
                    requires
                        0 <= v,
                        0 <= d <= 9,
                        v <= (i64::MAX - d) / 10,
                {}
            }
            v = v * 10 + d;
            p = p + 1;
        } else {
            break ;
        }
    }
    Ok((v, p))
}

/// Parses one step of a variable path after the leading identifier:
/// `.field`, `[0]`, or `["key"]`.
fn parse_path(s: &str, pos: usize, first: String) -> (r: Result<(Expr, usize), Error>)
    requires
        pos <= s@.len(),
    ensures
        r is Ok ==> pos <= r->Ok_0.1 <= s@.len(),
        r is Err ==> r->Err_0 is SyntaxError,
{
    let n = s.unicode_len();
    let mut segs: Vec<Pathseg> = Vec::new();
    segs.push(Pathseg::Key(first));
    let mut p = pos;
    while p < n
        invariant
            pos <= p <= n,
            n == s@.len(),
        decreases n - p,
    {
        let c = s.get_char(p);
        if c == '.' {
            let (id, p2) = scan_ident(s, p + 1);
            if p2 == p + 1 {
                return Err(Error::SyntaxError { pos: p });
            }
            segs.push(Pathseg::Key(id));
            p = p2;
        } else if c == '[' {
            let p1 = skip_ws(s, p + 1);
            if p1 < n && s.get_char(p1) == '"' {
                let rs = parse_string_lit(s, p1);
                let (lit, p2) = match rs {
                    Result::Ok(v) => v,
                    Result::Err(e) => { return Err(e) },
                };
                let p3 = skip_ws(s, p2);
                let p4 = match expect_str(s, p3, "]") {
                    Result::Ok(v) => v,
                    Result::Err(e) => { return Err(e) },
                };
                segs.push(Pathseg::Key(lit));
                p = p4;
            } else {
                let ri = parse_int_lit(s, p1);
                let (iv, p2) = match ri {
                    Result::Ok(v) => v,
                    Result::Err(e) => { return Err(e) },
                };
                if iv < 0 {
                    return Err(Error::SyntaxError { pos: p1 });
                }
                let p3 = skip_ws(s, p2);
                let p4 = match expect_str(s, p3, "]") {
                    Result::Ok(v) => v,
                    Result::Err(e) => { return Err(e) },
                };
                segs.push(Pathseg::Index(iv as u64));
                p = p4;
            }
        } else {
            break ;
        }
    }
    Ok((Expr::Var(segs), p))
}

/// An atom: a literal, a parenthesized expression, `true`/`false`, or a
/// variable path.
fn parse_atom(s: &str, pos: usize) -> (r: Result<(Expr, usize), Error>)
    requires
        pos <= s@.len(),
    ensures
        r is Ok ==> pos < r->Ok_0.1 <= s@.len(),
        r is Err ==> r->Err_0 is SyntaxError,
    decreases s@.len() - pos, 0int,
{
    let n = s.unicode_len();
    if pos >= n {
        return Err(Error::SyntaxError { pos });
    }
    let c = s.get_char(pos);
    if c == '"' {
        let (lit, p) = match parse_string_lit(s, pos) {
            Result::Ok(v) => v,
            Result::Err(e) => { return Err(e) },
        };
        Ok((Expr::StrLit(lit), p))
    } else if '0' <= c && c <= '9' {
        let (v, p) = match parse_int_lit(s, pos) {
            Result::Ok(v) => v,
            Result::Err(e) => { return Err(e) },
        };
        Ok((Expr::IntLit(v), p))
    } else if c == '(' {
        let (e, p1) = match parse_or(s, pos + 1) {
            Result::Ok(v) => v,
            Result::Err(e) => { return Err(e) },
        };
        let p2 = skip_ws(s, p1);
        let p3 = match expect_str(s, p2, ")") {
            Result::Ok(v) => v,
            Result::Err(e) => { return Err(e) },
        };
        Ok((e, p3))
    } else if is_ident_start(c) {
        let (id, p1) = scan_ident(s, pos);
        if p1 == pos {
            return Err(Error::SyntaxError { pos });
        }
        if str_eq(id.as_str(), "true") {
            Ok((Expr::BoolLit(true), p1))
        } else if str_eq(id.as_str(), "false") {
            Ok((Expr::BoolLit(false), p1))
        } else {
            parse_path(s, p1, id)
        }
    } else {
        Err(Error::SyntaxError { pos })
    }
}

/// A filter chain: `atom (| name | name(args))*`, applied left to right.
#[verifier::loop_isolation(false)]
fn parse_postfix(s: &str, pos: usize) -> (r: Result<(Expr, usize), Error>)
    requires
        pos <= s@.len(),
    ensures
        r is Ok ==> pos < r->Ok_0.1 <= s@.len(),
        r is Err ==> r->Err_0 is SyntaxError,
    decreases s@.len() - pos, 1int,
{
    let n = s.unicode_len();
    let (a, p0) = match parse_atom(s, pos) {
        Result::Ok(v) => v,
        Result::Err(e) => { return Err(e) },
    };
    let mut cur = a;
    let mut p = p0;
    while p < n
        invariant
            pos < p <= n,
        decreases n - p,
    {
        let q = skip_ws(s, p);
        if q < n && s.get_char(q) == '|' {
            let q1 = skip_ws(s, q + 1);
            let (id, q2) = scan_ident(s, q1);
            if q2 == q1 {
                return Err(Error::SyntaxError { pos: q1 });
            }
            if q2 < n && s.get_char(q2) == '(' {
                let (args, q3) = match parse_args(s, q2 + 1) {
                    Result::Ok(v) => v,
                    Result::Err(e) => { return Err(e) },
                };
                cur = Expr::Filter { value: Box::new(cur), name: id, args };
                p = q3;
            } else {
                cur = Expr::Filter { value: Box::new(cur), name: id, args: Vec::new() };
                p = q2;
            }
        } else {
            break ;
        }
    }
    Ok((cur, p))
}

/// `*` and `/`, left associative.
#[verifier::loop_isolation(false)]
fn parse_mul(s: &str, pos: usize) -> (r: Result<(Expr, usize), Error>)
    requires
        pos <= s@.len(),
    ensures
        r is Ok ==> pos < r->Ok_0.1 <= s@.len(),
        r is Err ==> r->Err_0 is SyntaxError,
    decreases s@.len() - pos, 2int,
{
    let n = s.unicode_len();
    let (a, p0) = match parse_postfix(s, pos) {
        Result::Ok(v) => v,
        Result::Err(e) => { return Err(e) },
    };
    let mut cur = a;
    let mut p = p0;
    while p < n
        invariant
            pos < p <= n,
        decreases n - p,
    {
        let q = skip_ws(s, p);
        if q < n && (s.get_char(q) == '*' || s.get_char(q) == '/') {
            let op = if s.get_char(q) == '*' {
                BinOp::Mul
            } else {
                BinOp::Div
            };
            let q1 = skip_ws(s, q + 1);
            let (b, q2) = match parse_postfix(s, q1) {
                Result::Ok(v) => v,
                Result::Err(e) => { return Err(e) },
            };
            cur = Expr::Binary { op, left: Box::new(cur), right: Box::new(b) };
            p = q2;
        } else {
            break ;
        }
    }
    Ok((cur, p))
}

/// `+` and `-`, left associative.
#[verifier::loop_isolation(false)]
fn parse_add(s: &str, pos: usize) -> (r: Result<(Expr, usize), Error>)
    requires
        pos <= s@.len(),
    ensures
        r is Ok ==> pos < r->Ok_0.1 <= s@.len(),
        r is Err ==> r->Err_0 is SyntaxError,
    decreases s@.len() - pos, 3int,
{
    let n = s.unicode_len();
    let (a, p0) = match parse_mul(s, pos) {
        Result::Ok(v) => v,
        Result::Err(e) => { return Err(e) },
    };
    let mut cur = a;
    let mut p = p0;
    while p < n
        invariant
            pos < p <= n,
        decreases n - p,
    {
        let q = skip_ws(s, p);
        if q < n && (s.get_char(q) == '+' || s.get_char(q) == '-') {
            let op = if s.get_char(q) == '+' {
                BinOp::Add
            } else {
                BinOp::Sub
            };
            let q1 = skip_ws(s, q + 1);
            let (b, q2) = match parse_mul(s, q1) {
                Result::Ok(v) => v,
                Result::Err(e) => { return Err(e) },
            };
            cur = Expr::Binary { op, left: Box::new(cur), right: Box::new(b) };
            p = q2;
        } else {
            break ;
        }
    }
    Ok((cur, p))
}

/// One optional comparison between sums.
fn parse_cmp(s: &str, pos: usize) -> (r: Result<(Expr, usize), Error>)
    requires
        pos <= s@.len(),
    ensures
        r is Ok ==> pos < r->Ok_0.1 <= s@.len(),
        r is Err ==> r->Err_0 is SyntaxError,
    decreases s@.len() - pos, 4int,
{
    let n = s.unicode_len();
    let (a, p0) = match parse_add(s, pos) {
        Result::Ok(v) => v,
        Result::Err(e) => { return Err(e) },
    };
    let q = skip_ws(s, p0);
    proof {
        reveal_strlit("==");
        reveal_strlit("!=");
        reveal_strlit("<=");
        reveal_strlit(">=");
        reveal_strlit("<");
        reveal_strlit(">");
    }
    let (op, q1): (Option<BinOp>, usize) = if starts_at(s, q, "==") {
        (Option::Some(BinOp::Eq), q + 2)
    } else if starts_at(s, q, "!=") {
        (Option::Some(BinOp::Ne), q + 2)
    } else if starts_at(s, q, "<=") {
        (Option::Some(BinOp::Le), q + 2)
    } else if starts_at(s, q, ">=") {
        (Option::Some(BinOp::Ge), q + 2)
    } else if starts_at(s, q, "<") {
        (Option::Some(BinOp::Lt), q + 1)
    } else if starts_at(s, q, ">") {
        (Option::Some(BinOp::Gt), q + 1)
    } else {
        (Option::None, q)
    };
    match op {
        Option::None => Ok((a, p0)),
        Option::Some(op) => {
            let q2 = skip_ws(s, q1);
            let (b, q3) = match parse_add(s, q2) {
                Result::Ok(v) => v,
                Result::Err(e) => { return Err(e) },
            };
            Ok((Expr::Binary { op, left: Box::new(a), right: Box::new(b) }, q3))
        },
    }
}

/// `and`, left associative, short-circuit at evaluation time.
#[verifier::loop_isolation(false)]
fn parse_and(s: &str, pos: usize) -> (r: Result<(Expr, usize), Error>)
    requires
        pos <= s@.len(),
    ensures
        r is Ok ==> pos < r->Ok_0.1 <= s@.len(),
        r is Err ==> r->Err_0 is SyntaxError,
    decreases s@.len() - pos, 5int,
{
    let n = s.unicode_len();
    let (a, p0) = match parse_cmp(s, pos) {
        Result::Ok(v) => v,
        Result::Err(e) => { return Err(e) },
    };
    let mut cur = a;
    let mut p = p0;
    while p < n
        invariant
            pos < p <= n,
        decreases n - p,
    {
        let q = skip_ws(s, p);
        let (id, q1) = scan_ident(s, q);
        if q1 > q && str_eq(id.as_str(), "and") {
            let q2 = skip_ws(s, q1);
            let (b, q3) = match parse_cmp(s, q2) {
                Result::Ok(v) => v,
                Result::Err(e) => { return Err(e) },
            };
            cur = Expr::Binary { op: BinOp::And, left: Box::new(cur), right: Box::new(b) };
            p = q3;
        } else {
            break ;
        }
    }
    Ok((cur, p))
}

/// `or`, left associative, short-circuit at evaluation time; the loosest
/// operator apart from filter application at the chain's outside.
#[verifier::loop_isolation(false)]
fn parse_or(s: &str, pos: usize) -> (r: Result<(Expr, usize), Error>)
    requires
        pos <= s@.len(),
    ensures
        r is Ok ==> pos < r->Ok_0.1 <= s@.len(),
        r is Err ==> r->Err_0 is SyntaxError,
    decreases s@.len() - pos, 6int,
{
    let n = s.unicode_len();
    let (a, p0) = match parse_and(s, pos) {
        Result::Ok(v) => v,
        Result::Err(e) => { return Err(e) },
    };
    let mut cur = a;
    let mut p = p0;
    while p < n
        invariant
            pos < p <= n,
        decreases n - p,
    {
        let q = skip_ws(s, p);
        let (id, q1) = scan_ident(s, q);
        if q1 > q && str_eq(id.as_str(), "or") {
            let q2 = skip_ws(s, q1);
            let (b, q3) = match parse_and(s, q2) {
                Result::Ok(v) => v,
                Result::Err(e) => { return Err(e) },
            };
            cur = Expr::Binary { op: BinOp::Or, left: Box::new(cur), right: Box::new(b) };
            p = q3;
        } else {
            break ;
        }
    }
    Ok((cur, p))
}

/// A call argument list after its opening parenthesis: positional and
/// `name=value` arguments separated by commas, through the closing one.
#[verifier::loop_isolation(false)]
fn parse_args(s: &str, pos: usize) -> (r: Result<(Vec<Arg>, usize), Error>)
    requires
        pos <= s@.len(),
    ensures
        r is Ok ==> pos < r->Ok_0.1 <= s@.len(),
        r is Err ==> r->Err_0 is SyntaxError,
    decreases s@.len() - pos, 7int,
{
    let n = s.unicode_len();
    let mut args: Vec<Arg> = Vec::new();
    let mut p = skip_ws(s, pos);
    if p < n && s.get_char(p) == ')' {
        return Ok((args, p + 1));
    }
    while p < n
        invariant
            pos <= p <= n,
        decreases n - p,
    {
        let (id, q1) = scan_ident(s, p);
        let q2 = skip_ws(s, q1);
        let named = q1 > p && q2 < n && s.get_char(q2) == '=' && !starts_at(s, q2, "==");
        let (a, q3): (Arg, usize) = if named {
            let q3 = skip_ws(s, q2 + 1);
            let (e, q4) = match parse_or(s, q3) {
                Result::Ok(v) => v,
                Result::Err(e) => { return Err(e) },
            };
            (Arg { name: Option::Some(id), value: e }, q4)
        } else {
            let (e, q4) = match parse_or(s, p) {
                Result::Ok(v) => v,
                Result::Err(e) => { return Err(e) },
            };
            (Arg { name: Option::None, value: e }, q4)
        };
        args.push(a);
        let q5 = skip_ws(s, q3);
        if q5 < n && s.get_char(q5) == ',' {
            p = skip_ws(s, q5 + 1);
        } else if q5 < n && s.get_char(q5) == ')' {
            return Ok((args, q5 + 1));
        } else {
            return Err(Error::SyntaxError { pos: q5 });
        }
    }
    Err(Error::SyntaxError { pos: p })
}

/// A macro's declared parameter list after its opening parenthesis:
/// `name` or `name=default` separated by commas, through the closing one.
#[verifier::loop_isolation(false)]
fn parse_params(s: &str, pos: usize) -> (r: Result<(Vec<Param>, usize), Error>)
    requires
        pos <= s@.len(),
    ensures
        r is Ok ==> pos < r->Ok_0.1 <= s@.len(),
        r is Err ==> r->Err_0 is SyntaxError,
    decreases s@.len() - pos, 7int,
{
    let n = s.unicode_len();
    let mut params: Vec<Param> = Vec::new();
    let mut p = skip_ws(s, pos);
    if p < n && s.get_char(p) == ')' {
        return Ok((params, p + 1));
    }
    while p < n
        invariant
            pos <= p <= n,
        decreases n - p,
    {
        let (id, q1) = scan_ident(s, p);
        if q1 == p {
            return Err(Error::SyntaxError { pos: p });
        }
        let q2 = skip_ws(s, q1);
        let (param, q3): (Param, usize) = if q2 < n && s.get_char(q2) == '=' {
            let q3 = skip_ws(s, q2 + 1);
            let (e, q4) = match parse_or(s, q3) {
                Result::Ok(v) => v,
                Result::Err(e) => { return Err(e) },
            };
            (Param { name: id, default: Option::Some(e) }, q4)
        } else {
            (Param { name: id, default: Option::None }, q2)
        };
        params.push(param);
        let q5 = skip_ws(s, q3);
        if q5 < n && s.get_char(q5) == ',' {
            p = skip_ws(s, q5 + 1);
        } else if q5 < n && s.get_char(q5) == ')' {
            return Ok((params, q5 + 1));
        } else {
            return Err(Error::SyntaxError { pos: q5 });
        }
    }
    Err(Error::SyntaxError { pos: p })
}

/// Whether `pos` sits on a control tag that closes an enclosing construct
/// (`endblock`, `endmacro`, `endif`, `endfor`, `elif`, `else`), which a body
/// parse must stop in front of.
fn is_end_tag(s: &str, pos: usize) -> (b: bool)
    requires
        pos <= s@.len(),
{
    let n = s.unicode_len();
    if !starts_at(s, pos, "{%") {
        return false;
    }
    proof {
        reveal_strlit("{%");
        assert(pos + 2 <= n);
    }
    let p = skip_ws(s, pos + 2);
    let (id, q) = scan_ident(s, p);
    if q == p {
        return false;
    }
    str_eq(id.as_str(), "endblock") || str_eq(id.as_str(), "endmacro") || str_eq(
        id.as_str(),
        "endif",
    ) || str_eq(id.as_str(), "endfor") || str_eq(id.as_str(), "elif") || str_eq(
        id.as_str(),
        "else",
    )
}

/// Parses an output tag at `pos` (which sits on `{{`): `{{ super() }}`,
/// a namespaced macro call `{{ ns::name(args) }}`, or `{{ expression }}`.
fn parse_output(s: &str, pos: usize) -> (r: Result<(Node, usize), Error>)
    requires
        pos <= s@.len(),
        pos + 2 <= s@.len(),
    ensures
        r is Ok ==> pos < r->Ok_0.1 <= s@.len(),
        r is Err ==> r->Err_0 is SyntaxError,
    decreases s@.len() - pos, 8int,
{
    let n = s.unicode_len();
    let p0 = skip_ws(s, pos + 2);
    let (id, p1) = scan_ident(s, p0);
    if p1 > p0 && str_eq(id.as_str(), "super") {
        let p2 = skip_ws(s, p1);
        if p2 < n && s.get_char(p2) == '(' {
            let p3 = skip_ws(s, p2 + 1);
            let p4 = match expect_str(s, p3, ")") {
                Result::Ok(v) => v,
                Result::Err(e) => { return Err(e) },
            };
            let p5 = skip_ws(s, p4);
            let p6 = match expect_str(s, p5, "}}") {
                Result::Ok(v) => v,
                Result::Err(e) => { return Err(e) },
            };
            return Ok((Node::Super, p6));
        }
    }
    if p1 > p0 && starts_at(s, p1, "::") {
        proof {
            reveal_strlit("::");
        }
        let (mname, p2) = scan_ident(s, p1 + 2);
        if p2 == p1 + 2 {
            return Err(Error::SyntaxError { pos: p2 });
        }
        let p3 = match expect_str(s, p2, "(") {
            Result::Ok(v) => v,
            Result::Err(e) => { return Err(e) },
        };
        let (args, p4) = match parse_args(s, p3) {
            Result::Ok(v) => v,
            Result::Err(e) => { return Err(e) },
        };
        let p5 = skip_ws(s, p4);
        let p6 = match expect_str(s, p5, "}}") {
            Result::Ok(v) => v,
            Result::Err(e) => { return Err(e) },
        };
        return Ok((Node::MacroCall { namespace: id, name: mname, args }, p6));
    }
    let (e, p2) = match parse_or(s, p0) {
        Result::Ok(v) => v,
        Result::Err(e) => { return Err(e) },
    };
    let p3 = skip_ws(s, p2);
    let p4 = match expect_str(s, p3, "}}") {
        Result::Ok(v) => v,
        Result::Err(e) => { return Err(e) },
    };
    Ok((Node::Output(e), p4))
}

/// Parses the control tag at `pos` (which sits on `{%`), including, for
/// `block`, `macro`, `if` and `for`, the whole construct through its end
/// tag. A mismatched `endblock`/`endmacro` name is a syntax error.
#[verifier::loop_isolation(false)]
fn parse_tag(s: &str, pos: usize) -> (r: Result<(Node, usize), Error>)
    requires
        pos <= s@.len(),
        pos + 2 <= s@.len(),
    ensures
        r is Ok ==> pos < r->Ok_0.1 <= s@.len(),
        r is Err ==> r->Err_0 is SyntaxError,
    decreases s@.len() - pos, 8int,
{
    let n = s.unicode_len();
    let p0 = skip_ws(s, pos + 2);
    let (tag, p1) = scan_ident(s, p0);
    if p1 == p0 {
        return Err(Error::SyntaxError { pos: p0 });
    }
    if str_eq(tag.as_str(), "extends") {
        let p2 = skip_ws(s, p1);
        let (target, p3) = match parse_string_lit(s, p2) {
            Result::Ok(v) => v,
            Result::Err(e) => { return Err(e) },
        };
        let p4 = skip_ws(s, p3);
        let p5 = match expect_str(s, p4, "%}") {
            Result::Ok(v) => v,
            Result::Err(e) => { return Err(e) },
        };
        Ok((Node::Extends(target), p5))
    } else if str_eq(tag.as_str(), "import") {
        let p2 = skip_ws(s, p1);
        let (file, p3) = match parse_string_lit(s, p2) {
            Result::Ok(v) => v,
            Result::Err(e) => { return Err(e) },
        };
        let p4 = skip_ws(s, p3);
        let (kw, p5) = scan_ident(s, p4);
        if p5 == p4 || !str_eq(kw.as_str(), "as") {
            return Err(Error::SyntaxError { pos: p4 });
        }
        let p6 = skip_ws(s, p5);
        let (ns, p7) = scan_ident(s, p6);
        if p7 == p6 {
            return Err(Error::SyntaxError { pos: p6 });
        }
        let p8 = skip_ws(s, p7);
        let p9 = match expect_str(s, p8, "%}") {
            Result::Ok(v) => v,
            Result::Err(e) => { return Err(e) },
        };
        Ok((Node::ImportMacro { tpl_name: file, name: ns }, p9))
    } else if str_eq(tag.as_str(), "block") {
        let p2 = skip_ws(s, p1);
        let (bname, p3) = scan_ident(s, p2);
        if p3 == p2 {
            return Err(Error::SyntaxError { pos: p2 });
        }
        let p4 = skip_ws(s, p3);
        let p5 = match expect_str(s, p4, "%}") {
            Result::Ok(v) => v,
            Result::Err(e) => { return Err(e) },
        };
        let (body, p6) = match parse_nodes(s, p5) {
            Result::Ok(v) => v,
            Result::Err(e) => { return Err(e) },
        };
        let p7 = match close_tag(s, p6, "endblock", Option::Some(&bname)) {
            Result::Ok(v) => v,
            Result::Err(e) => { return Err(e) },
        };
        Ok((Node::Block { name: bname, body }, p7))
    } else if str_eq(tag.as_str(), "macro") {
        let p2 = skip_ws(s, p1);
        let (mname, p3) = scan_ident(s, p2);
        if p3 == p2 {
            return Err(Error::SyntaxError { pos: p2 });
        }
        let p4 = skip_ws(s, p3);
        let p5 = match expect_str(s, p4, "(") {
            Result::Ok(v) => v,
            Result::Err(e) => { return Err(e) },
        };
        let (params, p6) = match parse_params(s, p5) {
            Result::Ok(v) => v,
            Result::Err(e) => { return Err(e) },
        };
        let p7 = skip_ws(s, p6);
        let p8 = match expect_str(s, p7, "%}") {
            Result::Ok(v) => v,
            Result::Err(e) => { return Err(e) },
        };
        let (body, p9) = match parse_nodes(s, p8) {
            Result::Ok(v) => v,
            Result::Err(e) => { return Err(e) },
        };
        let p10 = match close_tag(s, p9, "endmacro", Option::Some(&mname)) {
            Result::Ok(v) => v,
            Result::Err(e) => { return Err(e) },
        };
        Ok((Node::Macro { name: mname, params, body }, p10))
    } else if str_eq(tag.as_str(), "for") {
        let p2 = skip_ws(s, p1);
        let (binding, p3) = scan_ident(s, p2);
        if p3 == p2 {
            return Err(Error::SyntaxError { pos: p2 });
        }
        let p4 = skip_ws(s, p3);
        let (kw, p5) = scan_ident(s, p4);
        if p5 == p4 || !str_eq(kw.as_str(), "in") {
            return Err(Error::SyntaxError { pos: p4 });
        }
        let p6 = skip_ws(s, p5);
        let (iterable, p7) = match parse_or(s, p6) {
            Result::Ok(v) => v,
            Result::Err(e) => { return Err(e) },
        };
        let p8 = skip_ws(s, p7);
        let p9 = match expect_str(s, p8, "%}") {
            Result::Ok(v) => v,
            Result::Err(e) => { return Err(e) },
        };
        let (body, p10) = match parse_nodes(s, p9) {
            Result::Ok(v) => v,
            Result::Err(e) => { return Err(e) },
        };
        let p11 = match close_tag(s, p10, "endfor", Option::None) {
            Result::Ok(v) => v,
            Result::Err(e) => { return Err(e) },
        };
        Ok((Node::For { binding, iterable, body }, p11))
    } else if str_eq(tag.as_str(), "if") {
        let p2 = skip_ws(s, p1);
        let (cond, p3) = match parse_or(s, p2) {
            Result::Ok(v) => v,
            Result::Err(e) => { return Err(e) },
        };
        let p4 = skip_ws(s, p3);
        let p5 = match expect_str(s, p4, "%}") {
            Result::Ok(v) => v,
            Result::Err(e) => { return Err(e) },
        };
        let (body, p6) = match parse_nodes(s, p5) {
            Result::Ok(v) => v,
            Result::Err(e) => { return Err(e) },
        };
        let mut branches: Vec<IfBranch> = Vec::new();
        branches.push(IfBranch { cond, body });
        let mut else_body: Vec<Node> = Vec::new();
        let mut p = p6;
        loop
            invariant
                pos < p <= n,
                n == s@.len(),
            decreases n - p,
        {
            let q0 = match expect_str(s, p, "{%") {
                Result::Ok(v) => v,
                Result::Err(e) => { return Err(e) },
            };
            let q1 = skip_ws(s, q0);
            let (kw, q2) = scan_ident(s, q1);
            if q2 == q1 {
                return Err(Error::SyntaxError { pos: q1 });
            }
            if str_eq(kw.as_str(), "elif") {
                let q3 = skip_ws(s, q2);
                let (c2, q4) = match parse_or(s, q3) {
                    Result::Ok(v) => v,
                    Result::Err(e) => { return Err(e) },
                };
                let q5 = skip_ws(s, q4);
                let q6 = match expect_str(s, q5, "%}") {
                    Result::Ok(v) => v,
                    Result::Err(e) => { return Err(e) },
                };
                let (b2, q7) = match parse_nodes(s, q6) {
                    Result::Ok(v) => v,
                    Result::Err(e) => { return Err(e) },
                };
                branches.push(IfBranch { cond: c2, body: b2 });
                if q7 <= p {
                    return Err(Error::SyntaxError { pos: q7 });
                }
                p = q7;
            } else if str_eq(kw.as_str(), "else") {
                let q3 = skip_ws(s, q2);
                let q4 = match expect_str(s, q3, "%}") {
                    Result::Ok(v) => v,
                    Result::Err(e) => { return Err(e) },
                };
                let (b2, q5) = match parse_nodes(s, q4) {
                    Result::Ok(v) => v,
                    Result::Err(e) => { return Err(e) },
                };
                else_body = b2;
                let q6 = match close_tag(s, q5, "endif", Option::None) {
                    Result::Ok(v) => v,
                    Result::Err(e) => { return Err(e) },
                };
                return Ok((Node::If { branches, else_body }, q6));
            } else if str_eq(kw.as_str(), "endif") {
                let q3 = skip_ws(s, q2);
                let q4 = match expect_str(s, q3, "%}") {
                    Result::Ok(v) => v,
                    Result::Err(e) => { return Err(e) },
                };
                return Ok((Node::If { branches, else_body }, q4));
            } else {
                return Err(Error::SyntaxError { pos: q1 });
            }
        }
    } else {
        Err(Error::SyntaxError { pos: p0 })
    }
}

/// Parses a closing tag `{% name %}` or `{% name ident %}`; when the
/// construct is named and the closing tag repeats a name, the two must
/// agree.
fn close_tag(s: &str, pos: usize, kw: &str, name: Option<&String>) -> (r: Result<usize, Error>)
    requires
        pos <= s@.len(),
    ensures
        r is Ok ==> pos < r->Ok_0 <= s@.len(),
        r is Err ==> r->Err_0 is SyntaxError,
{
    let p0 = match expect_str(s, pos, "{%") {
        Result::Ok(v) => v,
        Result::Err(e) => { return Err(e) },
    };
    proof {
        reveal_strlit("{%");
    }
    let p1 = skip_ws(s, p0);
    let (id, p2) = scan_ident(s, p1);
    if p2 == p1 || !str_eq(id.as_str(), kw) {
        return Err(Error::SyntaxError { pos: p1 });
    }
    let p3 = skip_ws(s, p2);
    let (rep, p4) = scan_ident(s, p3);
    let p5 = if p4 > p3 {
        match name {
            Option::Some(want) => {
                if !str_eq(rep.as_str(), want.as_str()) {
                    return Err(Error::SyntaxError { pos: p3 });
                }
            },
            Option::None => {
                return Err(Error::SyntaxError { pos: p3 });
            },
        }
        skip_ws(s, p4)
    } else {
        p3
    };
    let p6 = match expect_str(s, p5, "%}") {
        Result::Ok(v) => v,
        Result::Err(e) => { return Err(e) },
    };
    if p6 <= pos {
        return Err(Error::SyntaxError { pos });
    }
    Ok(p6)
}

/// Scans from `p` (which does not sit on a tag) to the next tag opener or
/// the end of input: the span of one literal text node.
fn scan_text(s: &str, p: usize) -> (q: usize)
    requires
        p < s@.len(),
    ensures
        p < q <= s@.len(),
        (forall|i: int| p <= i < s@.len() ==> s@[i] != '{') ==> q == s@.len(),
{
    proof {
        reveal_strlit("{{");
        reveal_strlit("{%");
        reveal_strlit("{#");
    }
    let n = s.unicode_len();
    let mut q = p + 1;
    while q < n
        invariant
            p < q <= n,
            n == s@.len(),
        decreases n - q,
    {
        let a1 = starts_at(s, q, "{{");
        let a2 = starts_at(s, q, "{%");
        let a3 = starts_at(s, q, "{#");
        if a1 || a2 || a3 {
            proof {
                reveal_strlit("{{");
                reveal_strlit("{%");
                reveal_strlit("{#");
                if a1 {
                    assert(s@.subrange(q as int, q + "{{"@.len())[0] == s@[q as int]);
                    assert("{{"@[0] == '{');
                } else if a2 {
                    assert(s@.subrange(q as int, q + "{%"@.len())[0] == s@[q as int]);
                    assert("{%"@[0] == '{');
                } else {
                    assert(s@.subrange(q as int, q + "{#"@.len())[0] == s@[q as int]);
                    assert("{#"@[0] == '{');
                }
                assert(s@[q as int] == '{');
            }
            return q;
        }
        q = q + 1;
    }
    q
}

/// Parses a run of nodes until the end of input or until a closing control
/// tag, which is left for the enclosing construct to read. An input span
/// without `{` is one literal text node.
#[verifier::loop_isolation(false)]
fn parse_nodes(s: &str, pos: usize) -> (r: Result<(Vec<Node>, usize), Error>)
    requires
        pos <= s@.len(),
    ensures
        r is Ok ==> pos <= r->Ok_0.1 <= s@.len(),
        r is Err ==> r->Err_0 is SyntaxError,
        (forall|i: int| pos <= i < s@.len() ==> s@[i] != '{') ==> (r is Ok && r->Ok_0.1
            == s@.len() && (pos == s@.len() ==> r->Ok_0.0@.len() == 0) && (pos < s@.len()
            ==> r->Ok_0.0@.len() == 1 && (r->Ok_0.0@[0] matches Node::Text(t) && t@
            == s@.subrange(pos as int, s@.len() as int)))),
    decreases s@.len() - pos, 9int,
{
    let n = s.unicode_len();
    let mut nodes: Vec<Node> = Vec::new();
    let mut p = pos;
    proof {
        reveal_strlit("{{");
        reveal_strlit("{%");
        reveal_strlit("{#");
        reveal_strlit("#}");
    }
    while p < n
        invariant
            pos <= p <= n,
            (forall|i: int| pos <= i < n ==> s@[i] != '{') ==> ((p == pos && nodes@.len() == 0)
                || (pos < n && p == n && nodes@.len() == 1 && (nodes@[0] matches Node::Text(t)
                && t@ == s@.subrange(pos as int, n as int)))),
        decreases n - p,
    {
        let b_out = starts_at(s, p, "{{");
        let b_com = if b_out {
            false
        } else {
            starts_at(s, p, "{#")
        };
        let b_tag = if b_out || b_com {
            false
        } else {
            starts_at(s, p, "{%")
        };
        proof {
            if forall|i: int| pos <= i < n ==> s@[i] != '{' {
                assert(s@[p as int] != '{');
                if b_out {
                    assert(s@.subrange(p as int, p + "{{"@.len())[0] == s@[p as int]);
                    assert("{{"@[0] == '{');
                }
                if b_com {
                    assert(s@.subrange(p as int, p + "{#"@.len())[0] == s@[p as int]);
                    assert("{#"@[0] == '{');
                }
                if b_tag {
                    assert(s@.subrange(p as int, p + "{%"@.len())[0] == s@[p as int]);
                    assert("{%"@[0] == '{');
                }
                assert(!b_out && !b_com && !b_tag);
            }
        }
        if b_out {
            let (node, p2) = match parse_output(s, p) {
                Result::Ok(v) => v,
                Result::Err(e) => { return Err(e) },
            };
            nodes.push(node);
            p = p2;
        } else if b_com {
            let mut q = p + 2;
            let mut closed = false;
            while q < n && !closed
                invariant
                    p + 2 <= q <= n,
                    closed ==> q >= p + 2,
                decreases n - q,
            {
                if starts_at(s, q, "#}") {
                    q = q + 2;
                    closed = true;
                } else {
                    q = q + 1;
                }
            }
            if !closed {
                return Err(Error::SyntaxError { pos: p });
            }
            p = q;
        } else if b_tag {
            if is_end_tag(s, p) {
                return Ok((nodes, p));
            }
            let (node, p2) = match parse_tag(s, p) {
                Result::Ok(v) => v,
                Result::Err(e) => { return Err(e) },
            };
            nodes.push(node);
            p = p2;
        } else {
            let q = scan_text(s, p);
            let t = s.substring_char(p, q);
            nodes.push(Node::Text(t.to_owned()));
            proof {
                if forall|i: int| pos <= i < n ==> s@[i] != '{' {
                    assert(p == pos);
                    assert(q == n);
                    assert(nodes@.len() == 1);
                    assert(nodes@[0] matches Node::Text(tt) && tt@ == s@.subrange(
                        pos as int,
                        n as int,
                    ));
                }
            }
            p = q;
        }
    }
    proof {
        if forall|i: int| pos <= i < n ==> s@[i] != '{' {
            if pos < n {
                assert(p == n);
                assert(nodes@.len() == 1);
                assert(nodes@[0] matches Node::Text(t) && t@ == s@.subrange(pos as int, n as int));
            } else {
                assert(p == pos);
                assert(nodes@.len() == 0);
            }
        }
    }
    Ok((nodes, p))
}

/// Parses one whole template source file into its root node. Fails with a
/// `SyntaxError` carrying a character position for unterminated tags,
/// unknown tag names, mismatched closing names and malformed expressions.
pub fn parse(input: &str) -> (r: Result<Node, Error>)
    ensures
        r is Ok ==> r->Ok_0 is Root,
        r is Err ==> r->Err_0 is SyntaxError,
        input@.len() == 0 ==> (r is Ok && (r->Ok_0 matches Node::Root { body } && body@.len()
            == 0)),
        (forall|i: int| 0 <= i < input@.len() ==> input@[i] != '{') && input@.len() > 0 ==> (
        r is Ok && (r->Ok_0 matches Node::Root { body } && body@.len() == 1 && (body@[0] matches
        Node::Text(t) && t@ == input@))),
{
    let (nodes, p) = match parse_nodes(input, 0) {
        Result::Ok(v) => v,
        Result::Err(e) => { return Err(e) },
    };
    if p < input.unicode_len() {
        return Err(Error::SyntaxError { pos: p });
    }
    proof {
        if forall|i: int| 0 <= i < input@.len() ==> input@[i] != '{' {
            if input@.len() > 0 {
                assert(input@.subrange(0, input@.len() as int) =~= input@);
            }
        }
    }
    Ok(Node::Root { body: nodes })
}

} // verus!
