//! The expression evaluator: paths, operators and filter chains against a
//! `Context` plus the current local scopes. Boolean operators short-circuit;
//! arithmetic is integer arithmetic whose overflow, and division by zero,
//! fail with `TypeMismatch`; an undefined variable follows the context's
//! strictness policy.

use vstd::prelude::*;

use crate::errors::Error;
use crate::escape::escape_html;
use crate::escape::escape_seq;
use crate::nodes::BinOp;
use crate::nodes::Expr;
use crate::nodes::Pathseg;
use crate::value::clone_value;
use crate::value::find_val;
use crate::value::truthy;
use crate::value::val_lookup;
use crate::value::value_equiv;
use crate::value::Context;
use crate::value::Value;

verus! {

/// The failure kinds evaluation can raise.
pub open spec fn eval_error(e: Error) -> bool {
    ||| e is UndefinedVariable
    ||| e is FilterNotFound
    ||| e is FilterArgumentError
    ||| e is TypeMismatch
}

/// What walking the path steps from `i` on into `v` yields: object fields
/// by first-match key, list elements by index; `None` is an absent path.
pub open spec fn walk_spec(v: Value, segs: Seq<Pathseg>, i: int) -> Option<Value>
    decreases segs.len() - i,
{
    if i < 0 || i >= segs.len() {
        Option::Some(v)
    } else {
        match segs[i] {
            Pathseg::Key(k) => match v {
                Value::Object(fields) => match val_lookup(fields@, k@) {
                    Option::Some(w) => walk_spec(w, segs, i + 1),
                    Option::None => Option::None,
                },
                _ => Option::None,
            },
            Pathseg::Index(ix) => match v {
                Value::List(items) => if (ix as int) < items@.len() {
                    walk_spec(items@[ix as int], segs, i + 1)
                } else {
                    Option::None
                },
                _ => Option::None,
            },
        }
    }
}

/// Walks the remaining path steps into a value, exactly as `walk_spec`
/// says.
pub fn walk_path<'a>(start: &'a Value, segs: &Vec<Pathseg>, from: usize) -> (r: Option<&'a Value>)
    requires
        from <= segs@.len(),
    ensures
        match r {
            Option::Some(rv) => walk_spec(*start, segs@, from as int) == Option::Some(*rv),
            Option::None => walk_spec(*start, segs@, from as int) is None,
        },
{
    let mut cur = start;
    let mut i = from;
    while i < segs.len()
        invariant
            from <= i <= segs@.len(),
            walk_spec(*start, segs@, from as int) == walk_spec(*cur, segs@, i as int),
        decreases segs@.len() - i,
    {
        match &segs[i] {
            Pathseg::Key(k) => {
                match cur {
                    Value::Object(fields) => {
                        match find_val(fields, k) {
                            Option::Some(v) => {
                                cur = v;
                            },
                            Option::None => {
                                return Option::None;
                            },
                        }
                    },
                    _ => {
                        return Option::None;
                    },
                }
            },
            Pathseg::Index(ix) => {
                match cur {
                    Value::List(items) => {
                        if *ix < items.len() as u64 {
                            cur = &items[*ix as usize];
                        } else {
                            return Option::None;
                        }
                    },
                    _ => {
                        return Option::None;
                    },
                }
            },
        }
        i = i + 1;
    }
    Option::Some(cur)
}

/// The innermost binding of `k`: local scopes newest first, then the root
/// data.
pub open spec fn stack_lookup(
    scopes: Seq<Vec<(String, Value)>>,
    data: Seq<(String, Value)>,
    k: Seq<char>,
) -> Option<Value>
    decreases scopes.len(),
{
    if scopes.len() == 0 {
        val_lookup(data, k)
    } else {
        match val_lookup(scopes.last()@, k) {
            Option::Some(v) => Option::Some(v),
            Option::None => stack_lookup(scopes.drop_last(), data, k),
        }
    }
}

/// `stack_lookup` finds a binding only if the root data or some scope
/// holds one; in particular, `None` means the root data has none.
pub proof fn lemma_stack_lookup_none(
    scopes: Seq<Vec<(String, Value)>>,
    data: Seq<(String, Value)>,
    k: Seq<char>,
)
    requires
        stack_lookup(scopes, data, k) is None,
    ensures
        val_lookup(data, k) is None,
    decreases scopes.len(),
{
    if scopes.len() > 0 {
        lemma_stack_lookup_none(scopes.drop_last(), data, k);
    }
}

/// Finds the innermost binding of `k`, exactly as `stack_lookup` says:
/// local scopes newest first, then the context's root data.
pub fn lookup_scopes<'a>(
    scopes: &'a Vec<Vec<(String, Value)>>,
    ctx: &'a Context,
    k: &String,
) -> (r: Option<&'a Value>)
    ensures
        match r {
            Option::Some(v) => stack_lookup(scopes@, ctx.data@, k@) == Option::Some(*v),
            Option::None => stack_lookup(scopes@, ctx.data@, k@) is None,
        },
        r is None ==> val_lookup(ctx.data@, k@) is None,
{
    proof {
        assert(scopes@.take(scopes@.len() as int) =~= scopes@);
    }
    let mut i = scopes.len();
    while i > 0
        invariant
            i <= scopes@.len(),
            stack_lookup(scopes@, ctx.data@, k@) == stack_lookup(
                scopes@.take(i as int),
                ctx.data@,
                k@,
            ),
        decreases i,
    {
        i = i - 1;
        proof {
            assert(scopes@.take(i + 1).last() == scopes@[i as int]);
            assert(scopes@.take(i + 1).drop_last() =~= scopes@.take(i as int));
        }
        match find_val(&scopes[i], k) {
            Option::Some(v) => {
                return Option::Some(v);
            },
            Option::None => {},
        }
    }
    proof {
        assert(scopes@.take(0) =~= Seq::<Vec<(String, Value)>>::empty());
        if stack_lookup(scopes@, ctx.data@, k@) is None {
            lemma_stack_lookup_none(scopes@, ctx.data@, k@);
        }
    }
    find_val(&ctx.data, k)
}

/// The filter names the engine knows.
pub open spec fn known_filter(name: Seq<char>) -> bool {
    name == "length"@ || name == "safe"@ || name == "escape"@
}

/// Applies one named built-in filter. The built-ins are `length` (text or
/// list length), `safe` (marks text as exempt from escaping) and `escape`
/// (escapes now and marks the result safe); none of them takes arguments.
/// An unknown name fails with `FilterNotFound`, a value a filter does not
/// accept with `FilterArgumentError`.
pub fn apply_filter(name: &String, v: &Value) -> (r: Result<Value, Error>)
    ensures
        r is Err ==> eval_error(r->Err_0) && !(r->Err_0 is UndefinedVariable),
        r is Err ==> (r->Err_0 is FilterNotFound <==> !known_filter(name@)),
        !known_filter(name@) ==> r is Err,
        name@ == "length"@ ==> (match *v {
            Value::Str(s) => if s@.len() <= i64::MAX {
                r is Ok && r->Ok_0 == Value::Int(s@.len() as i64)
            } else {
                r is Err
            },
            Value::Safe(s) => if s@.len() <= i64::MAX {
                r is Ok && r->Ok_0 == Value::Int(s@.len() as i64)
            } else {
                r is Err
            },
            Value::List(items) => if items@.len() <= i64::MAX {
                r is Ok && r->Ok_0 == Value::Int(items@.len() as i64)
            } else {
                r is Err
            },
            _ => r is Err && r->Err_0 is FilterArgumentError,
        }),
        name@ == "safe"@ ==> (match *v {
            Value::Str(s) => r is Ok && (match r->Ok_0 {
                Value::Safe(t) => t@ == s@,
                _ => false,
            }),
            Value::Safe(s) => r is Ok && (match r->Ok_0 {
                Value::Safe(t) => t@ == s@,
                _ => false,
            }),
            _ => r is Err && r->Err_0 is FilterArgumentError,
        }),
        name@ == "escape"@ ==> (match *v {
            Value::Str(s) => r is Ok && (match r->Ok_0 {
                Value::Safe(t) => t@ == escape_seq(s@),
                _ => false,
            }),
            Value::Safe(s) => r is Ok && (match r->Ok_0 {
                Value::Safe(t) => t@ == escape_seq(s@),
                _ => false,
            }),
            _ => r is Err && r->Err_0 is FilterArgumentError,
        }),
{
    proof {
        reveal_strlit("length");
        reveal_strlit("safe");
        reveal_strlit("escape");
        assert("length"@.len() == 6);
        assert("safe"@.len() == 4);
        assert("escape"@.len() == 6);
        assert("length"@[0] == 'l');
        assert("escape"@[0] == 'e');
    }
    if crate::parser::str_eq(name.as_str(), "length") {
        match v {
            Value::Str(s) => {
                let l = s.as_str().unicode_len();
                if l as u64 > i64::MAX as u64 {
                    Err(Error::FilterArgumentError { name: name.clone() })
                } else {
                    Ok(Value::Int(l as i64))
                }
            },
            Value::Safe(s) => {
                let l = s.as_str().unicode_len();
                if l as u64 > i64::MAX as u64 {
                    Err(Error::FilterArgumentError { name: name.clone() })
                } else {
                    Ok(Value::Int(l as i64))
                }
            },
            Value::List(items) => {
                let l = items.len();
                if l as u64 > i64::MAX as u64 {
                    Err(Error::FilterArgumentError { name: name.clone() })
                } else {
                    Ok(Value::Int(l as i64))
                }
            },
            _ => Err(Error::FilterArgumentError { name: name.clone() }),
        }
    } else if crate::parser::str_eq(name.as_str(), "safe") {
        match v {
            Value::Str(s) => Ok(Value::Safe(s.clone())),
            Value::Safe(s) => Ok(Value::Safe(s.clone())),
            _ => Err(Error::FilterArgumentError { name: name.clone() }),
        }
    } else if crate::parser::str_eq(name.as_str(), "escape") {
        match v {
            Value::Str(s) => Ok(Value::Safe(escape_html(s.as_str()))),
            Value::Safe(s) => Ok(Value::Safe(escape_html(s.as_str()))),
            _ => Err(Error::FilterArgumentError { name: name.clone() }),
        }
    } else {
        Err(Error::FilterNotFound { name: name.clone() })
    }
}

/// Whether two values are comparable with `==`, and, when they are, whether
/// they are equal: `Null`, booleans, integers, and text (marked safe or
/// not) by its characters; other shapes are incomparable.
pub open spec fn val_eq_spec(a: Value, b: Value) -> Option<bool> {
    match (a, b) {
        (Value::Null, Value::Null) => Option::Some(true),
        (Value::Bool(x), Value::Bool(y)) => Option::Some(x == y),
        (Value::Int(x), Value::Int(y)) => Option::Some(x == y),
        (Value::Str(x), Value::Str(y)) => Option::Some(x@ == y@),
        (Value::Str(x), Value::Safe(y)) => Option::Some(x@ == y@),
        (Value::Safe(x), Value::Str(y)) => Option::Some(x@ == y@),
        (Value::Safe(x), Value::Safe(y)) => Option::Some(x@ == y@),
        _ => Option::None,
    }
}

/// Whether two values are comparable with `==`, and then whether they are
/// equal, exactly as `val_eq_spec` says.
pub fn value_eq(a: &Value, b: &Value) -> (r: Option<bool>)
    ensures
        r == val_eq_spec(*a, *b),
{
    match (a, b) {
        (Value::Null, Value::Null) => Option::Some(true),
        (Value::Bool(x), Value::Bool(y)) => Option::Some(*x == *y),
        (Value::Int(x), Value::Int(y)) => Option::Some(*x == *y),
        (Value::Str(x), Value::Str(y)) => Option::Some(*x == *y),
        (Value::Str(x), Value::Safe(y)) => Option::Some(*x == *y),
        (Value::Safe(x), Value::Str(y)) => Option::Some(*x == *y),
        (Value::Safe(x), Value::Safe(y)) => Option::Some(*x == *y),
        _ => Option::None,
    }
}

/// Truncating integer division: the quotient of the magnitudes, negated
/// when exactly one operand is negative.
pub open spec fn trunc_div(x: int, y: int) -> int {
    let ax = if x < 0 {
        -x
    } else {
        x
    };
    let ay = if y < 0 {
        -y
    } else {
        y
    };
    if (x < 0) == (y < 0) {
        ax / ay
    } else {
        -(ax / ay)
    }
}

/// What a non-boolean binary operator yields: `None` is a `TypeMismatch`
/// (wrong operand shapes, overflow, or division by zero).
pub open spec fn binop_spec(op: BinOp, a: Value, b: Value) -> Option<Value> {
    match op {
        BinOp::Add | BinOp::Sub | BinOp::Mul | BinOp::Div => match (a, b) {
            (Value::Int(x), Value::Int(y)) => {
                if op is Div {
                    if y == 0 || (x == i64::MIN && y == -1) {
                        Option::None
                    } else {
                        let q = trunc_div(x as int, y as int);
                        if i64::MIN <= q <= i64::MAX {
                            Option::Some(Value::Int(q as i64))
                        } else {
                            Option::None
                        }
                    }
                } else {
                    let w: int = match op {
                        BinOp::Add => x + y,
                        BinOp::Sub => x - y,
                        _ => x * y,
                    };
                    if i64::MIN <= w <= i64::MAX {
                        Option::Some(Value::Int(w as i64))
                    } else {
                        Option::None
                    }
                }
            },
            _ => Option::None,
        },
        BinOp::Eq => match val_eq_spec(a, b) {
            Option::Some(e) => Option::Some(Value::Bool(e)),
            Option::None => Option::None,
        },
        BinOp::Ne => match val_eq_spec(a, b) {
            Option::Some(e) => Option::Some(Value::Bool(!e)),
            Option::None => Option::None,
        },
        BinOp::Lt | BinOp::Le | BinOp::Gt | BinOp::Ge => match (a, b) {
            (Value::Int(x), Value::Int(y)) => Option::Some(
                Value::Bool(
                    match op {
                        BinOp::Lt => x < y,
                        BinOp::Le => x <= y,
                        BinOp::Gt => x > y,
                        _ => x >= y,
                    },
                ),
            ),
            _ => Option::None,
        },
        _ => Option::None,
    }
}

/// Applies a non-boolean binary operator to two evaluated operands, exactly
/// as `binop_spec` says; a `None` of the spec is a `TypeMismatch`.
pub fn eval_binop(op: BinOp, a: &Value, b: &Value) -> (r: Result<Value, Error>)
    ensures
        r is Err ==> eval_error(r->Err_0) && !(r->Err_0 is UndefinedVariable),
        match binop_spec(op, *a, *b) {
            Option::Some(w) => r is Ok && r->Ok_0 == w,
            Option::None => r is Err && r->Err_0 is TypeMismatch,
        },
{
    match op {
        BinOp::Add | BinOp::Sub | BinOp::Mul | BinOp::Div => {
            match (a, b) {
                (Value::Int(x), Value::Int(y)) => {
                    let xv = *x;
                    let yv = *y;
                    match op {
                        BinOp::Add => {
                            match xv.checked_add(yv) {
                                Option::Some(p) => Ok(Value::Int(p)),
                                Option::None => Err(Error::TypeMismatch),
                            }
                        },
                        BinOp::Sub => {
                            match xv.checked_sub(yv) {
                                Option::Some(p) => Ok(Value::Int(p)),
                                Option::None => Err(Error::TypeMismatch),
                            }
                        },
                        BinOp::Mul => {
                            match xv.checked_mul(yv) {
                                Option::Some(p) => Ok(Value::Int(p)),
                                Option::None => Err(Error::TypeMismatch),
                            }
                        },
                        _ => {
                            if yv == 0 || (xv == i64::MIN && yv == -1) {
                                Err(Error::TypeMismatch)
                            } else {
                                // truncating division via magnitudes
                                let mx: u64 = if xv < 0 {
                                    ((-1 - xv) as u64) + 1
                                } else {
                                    xv as u64
                                };
                                let my: u64 = if yv < 0 {
                                    ((-1 - yv) as u64) + 1
                                } else {
                                    yv as u64
                                };
                                let q: u64 = mx / my;
                                let neg = (xv < 0) != (yv < 0);
                                if neg {
                                    if q <= i64::MAX as u64 {
                                        Ok(Value::Int(-(q as i64)))
                                    } else {
                                        proof {
                                            assert(q <= 0x8000_0000_0000_0000u64) by (nonlinear_arith)
                                                requires
                                                    my >= 1,
                                                    mx <= 0x8000_0000_0000_0000u64,
                                                    q == mx / my,
                                            {}
                                        }
                                        Ok(Value::Int(i64::MIN))
                                    }
                                } else {
                                    proof {
                                        assert(q <= mx) by (nonlinear_arith)
                                            requires
                                                my >= 1,
                                                q == mx / my,
                                        {}
                                        assert(!(xv == i64::MIN && yv == -1));
                                        if xv < 0 && yv < 0 {
                                            if mx == 0x8000_0000_0000_0000u64 {
                                                assert(my >= 2);
                                                assert(q <= mx / 2) by (nonlinear_arith)
                                                    requires
                                                        my >= 2,
                                                        q == mx / my,
                                                {}
                                            }
                                        }
                                    }
                                    Ok(Value::Int(q as i64))
                                }
                            }
                        },
                    }
                },
                _ => Err(Error::TypeMismatch),
            }
        },
        BinOp::Eq => {
            match value_eq(a, b) {
                Option::Some(e) => Ok(Value::Bool(e)),
                Option::None => Err(Error::TypeMismatch),
            }
        },
        BinOp::Ne => {
            match value_eq(a, b) {
                Option::Some(e) => Ok(Value::Bool(!e)),
                Option::None => Err(Error::TypeMismatch),
            }
        },
        BinOp::Lt | BinOp::Le | BinOp::Gt | BinOp::Ge => {
            match (a, b) {
                (Value::Int(x), Value::Int(y)) => {
                    let c = match op {
                        BinOp::Lt => *x < *y,
                        BinOp::Le => *x <= *y,
                        BinOp::Gt => *x > *y,
                        _ => *x >= *y,
                    };
                    Ok(Value::Bool(c))
                },
                _ => Err(Error::TypeMismatch),
            }
        },
        _ => Err(Error::TypeMismatch),
    }
}

/// Evaluates one expression against the context and the local scopes.
/// Boolean connectives evaluate their left operand first and skip the right
/// one when it cannot change the outcome.
pub fn eval_expr(
    e: &Expr,
    ctx: &Context,
    scopes: &Vec<Vec<(String, Value)>>,
) -> (r: Result<Value, Error>)
    ensures
        r is Err ==> eval_error(r->Err_0),
        r is Err && r->Err_0 is UndefinedVariable ==> ctx.strict,
        *e matches Expr::IntLit(v) ==> r == Result::<Value, Error>::Ok(Value::Int(v)),
        *e matches Expr::BoolLit(v) ==> r == Result::<Value, Error>::Ok(Value::Bool(v)),
        *e matches Expr::StrLit(s) ==> r is Ok && value_equiv(r->Ok_0, Value::Str(s)),
        (match *e {
            Expr::Binary { op, left, right } => match (*left, *right) {
                (Expr::IntLit(x), Expr::IntLit(y)) => !(op is And || op is Or) ==> (match
                    binop_spec(op, Value::Int(x), Value::Int(y)) {
                    Option::Some(w) => r is Ok && r->Ok_0 == w,
                    Option::None => r is Err && r->Err_0 is TypeMismatch,
                }),
                _ => true,
            },
            _ => true,
        }),
        (match *e {
            Expr::Var(segs) => if segs@.len() == 0 {
                r is Err && r->Err_0 is TypeMismatch
            } else {
                match segs@[0] {
                    Pathseg::Key(k) => match stack_lookup(scopes@, ctx.data@, k@) {
                        Option::Some(root) => match walk_spec(root, segs@, 1) {
                            Option::Some(v) => r is Ok && value_equiv(r->Ok_0, v),
                            Option::None => if ctx.strict {
                                r is Err && r->Err_0 is UndefinedVariable
                            } else {
                                r is Ok && r->Ok_0 is Null
                            },
                        },
                        Option::None => if ctx.strict {
                            r is Err && r->Err_0 is UndefinedVariable
                        } else {
                            r is Ok && r->Ok_0 is Null
                        },
                    },
                    Pathseg::Index(_) => if ctx.strict {
                        r is Err && r->Err_0 is UndefinedVariable
                    } else {
                        r is Ok && r->Ok_0 is Null
                    },
                }
            },
            _ => true,
        }),
    decreases e,
{
    match e {
        Expr::IntLit(v) => Ok(Value::Int(*v)),
        Expr::BoolLit(v) => Ok(Value::Bool(*v)),
        Expr::StrLit(s) => Ok(Value::Str(s.clone())),
        Expr::Var(segs) => {
            if segs.len() == 0 {
                return Err(Error::TypeMismatch);
            }
            let found: Option<&Value> = match &segs[0] {
                Pathseg::Key(k) => {
                    match lookup_scopes(scopes, ctx, k) {
                        Option::Some(root) => walk_path(root, segs, 1),
                        Option::None => Option::None,
                    }
                },
                Pathseg::Index(_) => Option::None,
            };
            match found {
                Option::Some(v) => Ok(clone_value(v)),
                Option::None => {
                    if ctx.strict {
                        let name = match &segs[0] {
                            Pathseg::Key(k) => k.clone(),
                            Pathseg::Index(_) => String::new(),
                        };
                        Err(Error::UndefinedVariable { name })
                    } else {
                        Ok(Value::Null)
                    }
                },
            }
        },
        Expr::Binary { op, left, right } => {
            match op {
                BinOp::And => {
                    let lv = match eval_expr(left, ctx, scopes) {
                        Result::Ok(v) => v,
                        Result::Err(err) => { return Err(err) },
                    };
                    if !truthy(&lv) {
                        return Ok(Value::Bool(false));
                    }
                    let rv = match eval_expr(right, ctx, scopes) {
                        Result::Ok(v) => v,
                        Result::Err(err) => { return Err(err) },
                    };
                    Ok(Value::Bool(truthy(&rv)))
                },
                BinOp::Or => {
                    let lv = match eval_expr(left, ctx, scopes) {
                        Result::Ok(v) => v,
                        Result::Err(err) => { return Err(err) },
                    };
                    if truthy(&lv) {
                        return Ok(Value::Bool(true));
                    }
                    let rv = match eval_expr(right, ctx, scopes) {
                        Result::Ok(v) => v,
                        Result::Err(err) => { return Err(err) },
                    };
                    Ok(Value::Bool(truthy(&rv)))
                },
                _ => {
                    let lv = match eval_expr(left, ctx, scopes) {
                        Result::Ok(v) => v,
                        Result::Err(err) => { return Err(err) },
                    };
                    let rv = match eval_expr(right, ctx, scopes) {
                        Result::Ok(v) => v,
                        Result::Err(err) => { return Err(err) },
                    };
                    eval_binop(*op, &lv, &rv)
                },
            }
        },
        Expr::Filter { value, name, args } => {
            let v = match eval_expr(value, ctx, scopes) {
                Result::Ok(v) => v,
                Result::Err(err) => { return Err(err) },
            };
            if args.len() > 0 {
                return Err(Error::FilterArgumentError { name: name.clone() });
            }
            apply_filter(name, &v)
        },
    }
}

} // verus!
