//! The renderer: walks a resolved template's tree against a context. With
//! ancestors, the walked tree is the root ancestor's (the root defines the
//! document skeleton); a `Block` renders the leaf-most override from the
//! leaf template's merged definitions, and `super()` steps one position
//! toward the root, a no-op past the root entry. Recursion is bounded by an
//! explicit depth that fails with `RecursionLimitExceeded`.

use vstd::prelude::*;

use crate::errors::Error;
use crate::escape::escape_html;
use crate::escape::escape_seq;
use crate::eval::eval_error;
use crate::eval::eval_expr;
use crate::nodes::Arg;
use crate::nodes::Expr;
use crate::nodes::Node;
use crate::nodes::Param;
use crate::nodes::root_body;
use crate::registry::assoc_lookup;
use crate::registry::find_block;
use crate::registry::parents_spec;
use crate::registry::str_views;
use crate::registry::ChainOut;
use crate::registry::find_tpl;
use crate::registry::tpl_lookup;
use crate::registry::Registry;
use crate::template::brace_free;
use crate::template::Template;
use crate::value::clone_value;
use crate::value::truthy;
use crate::value::Context;
use crate::value::Value;

verus! {

/// The nesting depth at which rendering gives up with
/// `RecursionLimitExceeded` instead of exhausting the call stack.
pub const MAX_RENDER_DEPTH: usize = 64;

/// The digit character of one decimal digit.
pub open spec fn digit_char(d: int) -> char {
    if d == 0 {
        '0'
    } else if d == 1 {
        '1'
    } else if d == 2 {
        '2'
    } else if d == 3 {
        '3'
    } else if d == 4 {
        '4'
    } else if d == 5 {
        '5'
    } else if d == 6 {
        '6'
    } else if d == 7 {
        '7'
    } else if d == 8 {
        '8'
    } else {
        '9'
    }
}

/// The decimal digits of a nonnegative number, highest first.
pub open spec fn dec_digits(n: nat) -> Seq<char>
    decreases n,
{
    if n < 10 {
        seq![digit_char(n as int)]
    } else {
        dec_digits(n / 10).push(digit_char((n % 10) as int))
    }
}

/// The decimal rendering of an integer, with `-` for negatives.
pub open spec fn int_chars(v: int) -> Seq<char> {
    if v < 0 {
        seq!['-'] + dec_digits((-v) as nat)
    } else {
        dec_digits(v as nat)
    }
}

pub open spec fn u8s_chars(ds: Seq<u8>) -> Seq<char> {
    ds.map_values(|d: u8| digit_char(d as int))
}

/// Appends one digit's character to the output text.
fn append_digit(out: &mut String, d: u8)
    requires
        d < 10,
    ensures
        final(out)@ == old(out)@ + seq![digit_char(d as int)],
{
    proof {
        reveal_strlit("0");
        reveal_strlit("1");
        reveal_strlit("2");
        reveal_strlit("3");
        reveal_strlit("4");
        reveal_strlit("5");
        reveal_strlit("6");
        reveal_strlit("7");
        reveal_strlit("8");
        reveal_strlit("9");
    }
    if d == 0 {
        out.append("0");
    } else if d == 1 {
        out.append("1");
    } else if d == 2 {
        out.append("2");
    } else if d == 3 {
        out.append("3");
    } else if d == 4 {
        out.append("4");
    } else if d == 5 {
        out.append("5");
    } else if d == 6 {
        out.append("6");
    } else if d == 7 {
        out.append("7");
    } else if d == 8 {
        out.append("8");
    } else {
        out.append("9");
    }
}

/// Appends the decimal rendering of `v` to the output text.
#[verifier::loop_isolation(false)]
pub fn append_int(out: &mut String, v: i64)
    ensures
        final(out)@ == old(out)@ + int_chars(v as int),
{
    let ghost start = out@;
    if v < 0 {
        proof {
            reveal_strlit("-");
        }
        out.append("-");
    }
    let mut m: u64 = if v < 0 {
        ((-1 - v) as u64) + 1
    } else {
        v as u64
    };
    let ghost m0 = m as nat;
    let mut ds: Vec<u8> = Vec::new();
    if m == 0 {
        ds.push(0);
        proof {
            assert(u8s_chars(ds@).reverse() =~= dec_digits(0));
        }
    } else {
        while m > 0
            invariant
                m >= 0,
                forall|k: int| 0 <= k < ds@.len() ==> ds@[k] < 10,
                if m > 0 {
                    dec_digits(m0) =~= dec_digits(m as nat) + u8s_chars(ds@).reverse()
                } else {
                    dec_digits(m0) =~= u8s_chars(ds@).reverse()
                },
            decreases m,
        {
            let d: u8 = (m % 10) as u8;
            let ghost ds0 = ds@;
            let ghost mprev = m as nat;
            ds.push(d);
            m = m / 10;
            proof {
                assert(u8s_chars(ds@).reverse() =~= seq![digit_char(d as int)] + u8s_chars(
                    ds0,
                ).reverse()) by {
                    assert forall|k: int|
                        0 <= k < ds@.len() implies u8s_chars(ds@).reverse()[k] == (seq![
                            digit_char(d as int),
                        ] + u8s_chars(ds0).reverse())[k] by {
                        if k == 0 {
                            assert(u8s_chars(ds@).reverse()[0] == u8s_chars(ds@)[ds@.len() - 1]);
                        } else {
                            assert(u8s_chars(ds@).reverse()[k] == u8s_chars(ds@)[ds@.len() - 1
                                - k]);
                            assert(u8s_chars(ds0).reverse()[k - 1] == u8s_chars(ds0)[ds0.len() - 1
                                - (k - 1)]);
                        }
                    }
                }
                if m > 0 {
                    assert(dec_digits(mprev) == dec_digits(mprev / 10).push(
                        digit_char((mprev % 10) as int),
                    ));
                    assert(dec_digits(mprev / 10).push(digit_char((mprev % 10) as int))
                        =~= dec_digits(mprev / 10) + seq![digit_char((mprev % 10) as int)]);
                    assert(dec_digits(m0) =~= dec_digits(m as nat) + u8s_chars(ds@).reverse());
                } else {
                    assert(mprev < 10);
                    assert(dec_digits(mprev) == seq![digit_char(mprev as int)]);
                    assert(dec_digits(m0) =~= u8s_chars(ds@).reverse());
                }
            }
        }
    }
    let n = ds.len();
    let mut j: usize = 0;
    proof {
        assert(u8s_chars(ds@).reverse().take(0) =~= Seq::<char>::empty());
        assert(out@ =~= out@ + u8s_chars(ds@).reverse().take(0));
    }
    while j < n
        invariant
            j <= n,
            n == ds@.len(),
            forall|k: int| 0 <= k < ds@.len() ==> ds@[k] < 10,
            dec_digits(m0) =~= u8s_chars(ds@).reverse(),
            out@ == (if v < 0 {
                start + seq!['-']
            } else {
                start
            }) + u8s_chars(ds@).reverse().take(j as int),
        decreases n - j,
    {
        let d = ds[n - 1 - j];
        append_digit(out, d);
        proof {
            let rv = u8s_chars(ds@).reverse();
            assert(rv[j as int] == u8s_chars(ds@)[ds@.len() - 1 - j]);
            assert(rv.take(j + 1) =~= rv.take(j as int).push(rv[j as int]));
            assert(out@ =~= (if v < 0 {
                start + seq!['-']
            } else {
                start
            }) + rv.take(j + 1));
        }
        j = j + 1;
    }
    proof {
        let rv = u8s_chars(ds@).reverse();
        assert(rv.take(n as int) =~= rv);
        if v < 0 {
            assert(m0 == (-(v as int)) as nat);
            assert(out@ =~= start + int_chars(v as int));
        } else {
            assert(m0 == v as nat);
            assert(out@ =~= start + int_chars(v as int));
        }
    }
}

/// Appends one evaluated value to the output: nothing for `Null`,
/// `true`/`false` for booleans, decimal for integers, text with the
/// escaping policy applied unless marked safe; lists and objects have no
/// text form and fail with `TypeMismatch`.
pub fn append_value(out: &mut String, v: &Value, autoescape: bool) -> (r: Result<(), Error>)
    ensures
        match r {
            Result::Ok(_) => match *v {
                Value::Null => final(out)@ == old(out)@,
                Value::Bool(b) => final(out)@ == old(out)@ + (if b {
                    "true"@
                } else {
                    "false"@
                }),
                Value::Int(i) => final(out)@ == old(out)@ + int_chars(i as int),
                Value::Str(s) => final(out)@ == old(out)@ + (if autoescape {
                    escape_seq(s@)
                } else {
                    s@
                }),
                Value::Safe(s) => final(out)@ == old(out)@ + s@,
                _ => false,
            },
            Result::Err(e) => {
                &&& e is TypeMismatch
                &&& final(out)@ == old(out)@
                &&& (*v is List || *v is Object)
            },
        },
{
    match v {
        Value::Null => Ok(()),
        Value::Bool(b) => {
            proof {
                reveal_strlit("true");
                reveal_strlit("false");
            }
            if *b {
                out.append("true");
            } else {
                out.append("false");
            }
            Ok(())
        },
        Value::Int(i) => {
            append_int(out, *i);
            Ok(())
        },
        Value::Str(s) => {
            if autoescape {
                let e = escape_html(s.as_str());
                out.append(e.as_str());
            } else {
                out.append(s.as_str());
            }
            Ok(())
        },
        Value::Safe(s) => {
            out.append(s.as_str());
            Ok(())
        },
        _ => Err(Error::TypeMismatch),
    }
}

/// A named binding list holds `k`.
pub open spec fn named_has(n: Seq<(String, Value)>, k: Seq<char>) -> bool {
    exists|j: int| 0 <= j < n.len() && n[j].0@ == k
}

/// A parameter list declares `k`.
pub open spec fn param_has(ps: Seq<Param>, k: Seq<char>) -> bool {
    exists|j: int| 0 <= j < ps.len() && ps[j].name@ == k
}

/// A macro call binds completely when every declared parameter past the
/// positional ones either has a default or is named, and every named
/// argument names a declared parameter.
pub open spec fn args_bind(ps: Seq<Param>, npos: int, named: Seq<(String, Value)>) -> bool {
    &&& (forall|i: int|
        npos <= i < ps.len() && ps[i].default is None ==> named_has(named, ps[i].name@))
    &&& (forall|j: int| 0 <= j < named.len() ==> param_has(ps, named[j].0@))
}

/// Checks a macro call's bindings, yielding the first offending name:
/// a required parameter left unbound or a named argument that the macro
/// does not declare.
pub fn check_macro_args(
    params: &Vec<Param>,
    npos: usize,
    named: &Vec<(String, Value)>,
) -> (r: Option<String>)
    ensures
        r is None <==> args_bind(params@, npos as int, named@),
{
    let mut i = npos;
    while i < params.len()
        invariant
            npos <= i || i == npos,
            forall|k: int|
                npos <= k < i && params@[k].default is None ==> named_has(
                    named@,
                    params@[k].name@,
                ),
        decreases params@.len() - i,
    {
        let p = &params[i];
        match &p.default {
            Option::None => {
                if !named_contains(named, &p.name) {
                    return Option::Some(p.name.clone());
                }
            },
            Option::Some(_) => {},
        }
        i = i + 1;
    }
    let mut j: usize = 0;
    while j < named.len()
        invariant
            j <= named@.len(),
            forall|k: int|
                npos <= k < params@.len() && params@[k].default is None ==> named_has(
                    named@,
                    params@[k].name@,
                ),
            forall|k: int| 0 <= k < j ==> param_has(params@, named@[k].0@),
        decreases named@.len() - j,
    {
        if !params_contain(params, &named[j].0) {
            return Option::Some(named[j].0.clone());
        }
        j = j + 1;
    }
    Option::None
}

/// Whether a named binding list holds `k`.
fn named_contains(n: &Vec<(String, Value)>, k: &String) -> (b: bool)
    ensures
        b == named_has(n@, k@),
{
    let mut i: usize = 0;
    while i < n.len()
        invariant
            i <= n@.len(),
            forall|t: int| 0 <= t < i ==> n@[t].0@ != k@,
        decreases n@.len() - i,
    {
        if n[i].0 == *k {
            return true;
        }
        i = i + 1;
    }
    false
}

/// Whether a parameter list declares `k`.
fn params_contain(ps: &Vec<Param>, k: &String) -> (b: bool)
    ensures
        b == param_has(ps@, k@),
{
    let mut i: usize = 0;
    while i < ps.len()
        invariant
            i <= ps@.len(),
            forall|t: int| 0 <= t < i ==> ps@[t].name@ != k@,
        decreases ps@.len() - i,
    {
        if ps[i].name == *k {
            return true;
        }
        i = i + 1;
    }
    false
}

/// Finds the definition sequence of one block name in a merged table.
fn find_defs<'a>(
    dd: &'a Vec<(String, Vec<(String, Node)>)>,
    k: &String,
) -> (r: Option<&'a Vec<(String, Node)>>) {
    let mut i: usize = 0;
    while i < dd.len()
        invariant
            i <= dd@.len(),
        decreases dd@.len() - i,
    {
        if dd[i].0 == *k {
            return Option::Some(&dd[i].1);
        }
        i = i + 1;
    }
    Option::None
}

/// The first file a namespace map binds `k` to.
pub open spec fn ns_first(m: Seq<(String, String)>, k: Seq<char>) -> Option<Seq<char>>
    decreases m.len(),
{
    if m.len() == 0 {
        Option::None
    } else if m[0].0@ == k {
        Option::Some(m[0].1@)
    } else {
        ns_first(m.drop_first(), k)
    }
}

proof fn lemma_ns_first_skip(m: Seq<(String, String)>, k: Seq<char>, i: int)
    requires
        0 <= i <= m.len(),
        forall|t: int| 0 <= t < i ==> m[t].0@ != k,
    ensures
        ns_first(m, k) == ns_first(m.skip(i), k),
    decreases i,
{
    if i > 0 {
        assert(m[0].0@ != k);
        assert forall|t: int| 0 <= t < i - 1 implies m.drop_first()[t].0@ != k by {
            assert(m.drop_first()[t] == m[t + 1]);
        }
        lemma_ns_first_skip(m.drop_first(), k, i - 1);
        assert(m.drop_first().skip(i - 1) =~= m.skip(i));
    } else {
        assert(m.skip(0) =~= m);
    }
}

/// Finds the file a namespace resolves to, first binding winning.
fn find_ns<'a>(m: &'a Vec<(String, String)>, k: &String) -> (r: Option<&'a String>)
    ensures
        match r {
            Option::Some(f) => ns_first(m@, k@) == Option::Some(f@),
            Option::None => ns_first(m@, k@) is None,
        },
{
    let mut i: usize = 0;
    while i < m.len()
        invariant
            i <= m@.len(),
            forall|t: int| 0 <= t < i ==> m@[t].0@ != k@,
        decreases m@.len() - i,
    {
        if m[i].0 == *k {
            proof {
                lemma_ns_first_skip(m@, k@, i as int);
                assert(m@.skip(i as int)[0] == m@[i as int]);
            }
            return Option::Some(&m[i].1);
        }
        i = i + 1;
    }
    proof {
        lemma_ns_first_skip(m@, k@, m@.len() as int);
        assert(m@.skip(m@.len() as int) =~= Seq::<(String, String)>::empty());
    }
    Option::None
}

/// How many of a call's arguments are positional.
pub open spec fn count_pos(args: Seq<Arg>) -> nat
    decreases args.len(),
{
    if args.len() == 0 {
        0
    } else {
        count_pos(args.drop_last()) + (if args.last().name is None {
            1nat
        } else {
            0nat
        })
    }
}

/// The names of a call's named arguments, in order.
pub open spec fn named_of(args: Seq<Arg>) -> Seq<Seq<char>>
    decreases args.len(),
{
    if args.len() == 0 {
        Seq::empty()
    } else {
        named_of(args.drop_last()) + (match args.last().name {
            Option::Some(n) => seq![n@],
            Option::None => Seq::empty(),
        })
    }
}

/// The binding condition of one macro call, over its syntactic argument
/// shape: every declared parameter beyond the positional ones either has a
/// default or is named, and every named argument names a declared
/// parameter.
pub open spec fn call_binds(ps: Seq<Param>, args: Seq<Arg>) -> bool {
    &&& (forall|i: int|
        count_pos(args) <= i < ps.len() && ps[i].default is None ==> named_of(args).contains(
            ps[i].name@,
        ))
    &&& (forall|j: int| 0 <= j < named_of(args).len() ==> param_has(ps, named_of(args)[j]))
}

/// The failure kinds a render call can raise.
pub open spec fn render_error(e: Error) -> bool {
    ||| eval_error(e)
    ||| e is MacroArgumentError
    ||| e is RecursionLimitExceeded
    ||| e is TemplateNotFound
}

/// The concatenated literal text of a run of nodes, counting only `Text`.
pub open spec fn texts_of(ns: Seq<Node>) -> Seq<char>
    decreases ns.len(),
{
    if ns.len() == 0 {
        Seq::empty()
    } else {
        texts_of(ns.drop_last()) + (match ns.last() {
            Node::Text(t) => t@,
            _ => Seq::empty(),
        })
    }
}

/// A run of nodes made of literal text alone.
pub open spec fn all_text(ns: Seq<Node>) -> bool {
    forall|i: int| 0 <= i < ns.len() ==> ns[i] is Text
}

/// Renders one node. `blockpos` carries the per-render cursor into the
/// current block's override sequence, the state `super()` steps through;
/// it lives in call arguments only, never in shared state, so concurrent
/// renders cannot observe each other. A `for` over `Null` deliberately
/// renders nothing (so a lenient-mode absent iterable is an empty loop,
/// not an error); any other non-list iterable is a `TypeMismatch`.
#[verifier::loop_isolation(false)]
pub fn render_node(
    reg: &Registry,
    leaf: &Template,
    node: &Node,
    ctx: &Context,
    scopes: &mut Vec<Vec<(String, Value)>>,
    blockpos: &Option<(String, usize)>,
    out: &mut String,
    depth: usize,
) -> (r: Result<(), Error>)
    ensures
        r is Err ==> render_error(r->Err_0),
        r is Err && r->Err_0 is UndefinedVariable ==> ctx.strict,
        *node matches Node::Text(t) ==> (r is Ok && final(out)@ == old(out)@ + t@),
        (match *node {
            Node::Output(e) => match e {
                Expr::IntLit(i) => r is Ok && final(out)@ == old(out)@ + int_chars(i as int),
                Expr::BoolLit(b) => r is Ok && final(out)@ == old(out)@ + (if b {
                    "true"@
                } else {
                    "false"@
                }),
                _ => true,
            },
            _ => true,
        }),
        (match *node {
            Node::MacroCall { namespace, name, args } => r is Ok ==> (match ns_first(
                leaf.macro_namespaces@,
                namespace@,
            ) {
                Option::Some(f) => match tpl_lookup(reg.templates@, f) {
                    Option::Some(u) => match assoc_lookup(u.macros@, name@) {
                        Option::Some(m) => match m {
                            Node::Macro { params, .. } => call_binds(params@, args@),
                            _ => false,
                        },
                        Option::None => false,
                    },
                    Option::None => false,
                },
                Option::None => false,
            }),
            _ => true,
        }),
    decreases depth, *node,
{
    match node {
        Node::Root { body } => render_nodes(reg, leaf, body, ctx, scopes, blockpos, out, depth),
        Node::Text(t) => {
            out.append(t.as_str());
            Ok(())
        },
        Node::Output(e) => {
            let v = match eval_expr(e, ctx, scopes) {
                Result::Ok(v) => v,
                Result::Err(err) => { return Err(err) },
            };
            append_value(out, &v, ctx.autoescape)
        },
        Node::If { branches, else_body } => {
            let mut i: usize = 0;
            while i < branches.len()
                invariant
                    i <= branches@.len(),
                decreases branches@.len() - i,
            {
                let b = &branches[i];
                let c = match eval_expr(&b.cond, ctx, scopes) {
                    Result::Ok(v) => v,
                    Result::Err(err) => { return Err(err) },
                };
                if truthy(&c) {
                    proof {
                        assert(decreases_to!(*branches => branches@[i as int]));
                        assert(decreases_to!(branches@[i as int] => branches@[i as int].body));
                    }
                    return render_nodes(reg, leaf, &b.body, ctx, scopes, blockpos, out, depth);
                }
                i = i + 1;
            }
            render_nodes(reg, leaf, else_body, ctx, scopes, blockpos, out, depth)
        },
        Node::For { binding, iterable, body } => {
            let it = match eval_expr(iterable, ctx, scopes) {
                Result::Ok(v) => v,
                Result::Err(err) => { return Err(err) },
            };
            match it {
                Value::Null => Ok(()),
                Value::List(items) => {
                    let mut i: usize = 0;
                    while i < items.len()
                        invariant
                            i <= items@.len(),
                        decreases items@.len() - i,
                    {
                        let mut scope: Vec<(String, Value)> = Vec::new();
                        scope.push((binding.clone(), clone_value(&items[i])));
                        scopes.push(scope);
                        let rr = render_nodes(
                            reg,
                            leaf,
                            body,
                            ctx,
                            scopes,
                            blockpos,
                            out,
                            depth,
                        );
                        scopes.pop();
                        match rr {
                            Result::Ok(_) => {},
                            Result::Err(err) => { return Err(err) },
                        }
                        i = i + 1;
                    }
                    Ok(())
                },
                _ => Err(Error::TypeMismatch),
            }
        },
        Node::Block { name, body } => {
            match find_defs(&leaf.blocks_definitions, name) {
                Option::Some(ds) => {
                    if ds.len() > 0 {
                        if depth == 0 {
                            return Err(Error::RecursionLimitExceeded);
                        }
                        let last = &ds[ds.len() - 1];
                        match &last.1 {
                            Node::Block { body: ob, .. } => {
                                let pos = Option::Some((name.clone(), ds.len() - 1));
                                render_nodes(reg, leaf, ob, ctx, scopes, &pos, out, depth - 1)
                            },
                            _ => Ok(()),
                        }
                    } else {
                        let pos = Option::Some((name.clone(), 0));
                        render_nodes(reg, leaf, body, ctx, scopes, &pos, out, depth)
                    }
                },
                Option::None => {
                    let pos = Option::Some((name.clone(), 0));
                    render_nodes(reg, leaf, body, ctx, scopes, &pos, out, depth)
                },
            }
        },
        Node::Super => {
            match blockpos {
                Option::None => Ok(()),
                Option::Some((bname, cur)) => {
                    if *cur == 0 {
                        // past the root-most definition: a no-op
                        return Ok(());
                    }
                    match find_defs(&leaf.blocks_definitions, bname) {
                        Option::None => Ok(()),
                        Option::Some(ds) => {
                            if *cur > ds.len() {
                                return Ok(());
                            }
                            if depth == 0 {
                                return Err(Error::RecursionLimitExceeded);
                            }
                            let entry = &ds[*cur - 1];
                            match &entry.1 {
                                Node::Block { body: ob, .. } => {
                                    let pos = Option::Some((bname.clone(), *cur - 1));
                                    render_nodes(
                                        reg,
                                        leaf,
                                        ob,
                                        ctx,
                                        scopes,
                                        &pos,
                                        out,
                                        depth - 1,
                                    )
                                },
                                _ => Ok(()),
                            }
                        },
                    }
                },
            }
        },
        Node::MacroCall { namespace, name, args } => {
            if depth == 0 {
                return Err(Error::RecursionLimitExceeded);
            }
            // evaluate the call arguments in the caller's scope
            let mut pos_args: Vec<Value> = Vec::new();
            let mut named_args: Vec<(String, Value)> = Vec::new();
            let mut i: usize = 0;
            proof {
                assert(args@.take(0) =~= Seq::<Arg>::empty());
            }
            while i < args.len()
                invariant
                    i <= args@.len(),
                    pos_args@.len() == count_pos(args@.take(i as int)),
                    named_args@.len() == named_of(args@.take(i as int)).len(),
                    forall|t: int|
                        0 <= t < named_args@.len() ==> named_args@[t].0@ == named_of(
                            args@.take(i as int),
                        )[t],
                decreases args@.len() - i,
            {
                let a = &args[i];
                let v = match eval_expr(&a.value, ctx, scopes) {
                    Result::Ok(v) => v,
                    Result::Err(err) => { return Err(err) },
                };
                proof {
                    assert(args@.take(i + 1).drop_last() =~= args@.take(i as int));
                    assert(args@.take(i + 1).last() == args@[i as int]);
                }
                let ghost named0 = named_args@;
                match &a.name {
                    Option::None => pos_args.push(v),
                    Option::Some(an) => named_args.push((an.clone(), v)),
                }
                proof {
                    assert forall|t: int|
                        0 <= t < named_args@.len() implies named_args@[t].0@ == named_of(
                        args@.take(i + 1),
                    )[t] by {
                        if t < named0.len() {
                            assert(named_args@[t] == named0[t]);
                            assert(named_of(args@.take(i + 1))[t] == named_of(
                                args@.take(i as int),
                            )[t]);
                        }
                    }
                }
                i = i + 1;
            }
            proof {
                assert(args@.take(args@.len() as int) =~= args@);
            }
            // resolve the namespace to a file and the file to its macro
            let file = match find_ns(&leaf.macro_namespaces, namespace) {
                Option::Some(f) => f,
                Option::None => {
                    return Err(Error::MacroArgumentError { name: namespace.clone() });
                },
            };
            let ti = match find_tpl(&reg.templates, file) {
                Option::Some(ti) => ti,
                Option::None => {
                    return Err(Error::TemplateNotFound { name: file.clone() });
                },
            };
            let mtpl = &reg.templates[ti];
            let mnode = match find_block(&mtpl.macros, name) {
                Option::Some(m) => m,
                Option::None => {
                    return Err(Error::MacroArgumentError { name: name.clone() });
                },
            };
            match mnode {
                Node::Macro { params, body, .. } => {
                    match check_macro_args(params, pos_args.len(), &named_args) {
                        Option::Some(bad) => {
                            return Err(Error::MacroArgumentError { name: bad });
                        },
                        Option::None => {},
                    }
                    proof {
                        assert(pos_args@.len() == count_pos(args@));
                        assert forall|ii: int|
                            count_pos(args@) <= ii < params@.len() && params@[ii].default
                                is None implies named_of(args@).contains(params@[ii].name@) by {
                            assert(named_has(named_args@, params@[ii].name@));
                            let j = choose|j: int|
                                0 <= j < named_args@.len() && named_args@[j].0@
                                    == params@[ii].name@;
                            assert(named_of(args@)[j] == params@[ii].name@);
                        }
                        assert forall|j: int|
                            0 <= j < named_of(args@).len() implies param_has(
                            params@,
                            named_of(args@)[j],
                        ) by {
                            assert(named_of(args@)[j] == named_args@[j].0@);
                        }
                        assert(call_binds(params@, args@));
                    }
                    // bind the parameters: positional, then named, then defaults
                    let mut scope: Vec<(String, Value)> = Vec::new();
                    let mut p: usize = 0;
                    while p < params.len()
                        invariant
                            p <= params@.len(),
                        decreases params@.len() - p,
                    {
                        let prm = &params[p];
                        let v: Value;
                        if p < pos_args.len() {
                            v = clone_value(&pos_args[p]);
                        } else {
                            match named_lookup(&named_args, &prm.name) {
                                Option::Some(nv) => {
                                    v = clone_value(nv);
                                },
                                Option::None => {
                                    match &prm.default {
                                        Option::Some(de) => {
                                            match eval_expr(de, ctx, scopes) {
                                                Result::Ok(dv) => {
                                                    v = dv;
                                                },
                                                Result::Err(err) => { return Err(err) },
                                            }
                                        },
                                        Option::None => {
                                            return Err(
                                                Error::MacroArgumentError { name: prm.name.clone() },
                                            );
                                        },
                                    }
                                },
                            }
                        }
                        scope.push((prm.name.clone(), v));
                        p = p + 1;
                    }
                    scopes.push(scope);
                    let rr = render_nodes(
                        reg,
                        leaf,
                        body,
                        ctx,
                        scopes,
                        &Option::None,
                        out,
                        depth - 1,
                    );
                    scopes.pop();
                    rr
                },
                _ => Err(Error::MacroArgumentError { name: name.clone() }),
            }
        },
        // declarations produce no output where they stand
        Node::Extends(_) => Ok(()),
        Node::ImportMacro { .. } => Ok(()),
        Node::Macro { .. } => Ok(()),
    }
}

/// Finds the first named argument called `k`.
fn named_lookup<'a>(n: &'a Vec<(String, Value)>, k: &String) -> (r: Option<&'a Value>) {
    let mut i: usize = 0;
    while i < n.len()
        invariant
            i <= n@.len(),
        decreases n@.len() - i,
    {
        if n[i].0 == *k {
            return Option::Some(&n[i].1);
        }
        i = i + 1;
    }
    Option::None
}

/// Renders a run of nodes in order. A run of literal text alone renders to
/// exactly its concatenation, whatever the context.
#[verifier::loop_isolation(false)]
pub fn render_nodes(
    reg: &Registry,
    leaf: &Template,
    nodes: &Vec<Node>,
    ctx: &Context,
    scopes: &mut Vec<Vec<(String, Value)>>,
    blockpos: &Option<(String, usize)>,
    out: &mut String,
    depth: usize,
) -> (r: Result<(), Error>)
    ensures
        r is Err ==> render_error(r->Err_0),
        r is Err && r->Err_0 is UndefinedVariable ==> ctx.strict,
        all_text(nodes@) ==> (r is Ok && final(out)@ == old(out)@ + texts_of(nodes@)),
    decreases depth, *nodes,
{
    let ghost out0 = out@;
    let mut i: usize = 0;
    proof {
        assert(texts_of(nodes@.take(0)) =~= Seq::<char>::empty());
        assert(out@ =~= out0 + texts_of(nodes@.take(0)));
    }
    while i < nodes.len()
        invariant
            i <= nodes@.len(),
            all_text(nodes@) ==> out@ == out0 + texts_of(nodes@.take(i as int)),
        decreases nodes@.len() - i,
    {
        match render_node(reg, leaf, &nodes[i], ctx, scopes, blockpos, out, depth) {
            Result::Ok(_) => {},
            Result::Err(e) => { return Err(e) },
        }
        proof {
            if all_text(nodes@) {
                assert(nodes@.take(i + 1).drop_last() =~= nodes@.take(i as int));
                assert(nodes@.take(i + 1).last() == nodes@[i as int]);
                assert(nodes@[i as int] is Text);
                assert(out@ =~= out0 + texts_of(nodes@.take(i + 1)));
            }
        }
        i = i + 1;
    }
    proof {
        assert(nodes@.take(nodes@.len() as int) =~= nodes@);
    }
    Ok(())
}

/// A template whose tree is literal text alone and which takes part in no
/// inheritance chain.
pub open spec fn text_only_tpl(t: crate::template::Template) -> bool {
    t.parents@.len() == 0 && match t.ast {
        Node::Root { body } => all_text(body@),
        _ => false,
    }
}

/// The text such a template renders to.
pub open spec fn tpl_text(t: crate::template::Template) -> Seq<char> {
    match t.ast {
        Node::Root { body } => texts_of(body@),
        _ => Seq::empty(),
    }
}

impl Registry {
    /// Renders one registered template against a context. Only valid once
    /// the registry is resolved; the walked tree is the root ancestor's
    /// when the template has one. The registry is shared read-only: each
    /// call works on its own context, scopes and output alone, so renders
    /// with different contexts cannot interfere.
    pub fn render(&self, name: &str, ctx: &Context) -> (r: Result<String, Error>)
        ensures
            !self.resolved ==> r == Result::<String, Error>::Err(Error::RegistryNotResolved),
            self.resolved && tpl_lookup(self.templates@, name@) is None ==> r is Err
                && r->Err_0 is TemplateNotFound,
            r is Err ==> render_error(r->Err_0) || r->Err_0 is RegistryNotResolved,
            self.resolved && r is Err ==> render_error(r->Err_0),
            r is Err && r->Err_0 is UndefinedVariable ==> ctx.strict,
            self.resolved ==> match tpl_lookup(self.templates@, name@) {
                Option::Some(t) => text_only_tpl(t) ==> (r is Ok && r->Ok_0@ == tpl_text(t)),
                Option::None => true,
            },
    {
        if !self.resolved {
            return Err(Error::RegistryNotResolved);
        }
        let owned = name.to_owned();
        let li = match find_tpl(&self.templates, &owned) {
            Option::Some(i) => i,
            Option::None => {
                return Err(Error::TemplateNotFound { name: owned });
            },
        };
        let leaf = &self.templates[li];
        let root: &Template = if leaf.parents.len() > 0 {
            let rname = &leaf.parents[leaf.parents.len() - 1];
            match find_tpl(&self.templates, rname) {
                Option::Some(ri) => &self.templates[ri],
                Option::None => {
                    return Err(Error::TemplateNotFound { name: rname.clone() });
                },
            }
        } else {
            leaf
        };
        let mut out = String::new();
        let mut scopes: Vec<Vec<(String, Value)>> = Vec::new();
        match &root.ast {
            Node::Root { body } => {
                match render_nodes(
                    self,
                    leaf,
                    body,
                    ctx,
                    &mut scopes,
                    &Option::None,
                    &mut out,
                    MAX_RENDER_DEPTH,
                ) {
                    Result::Ok(_) => Ok(out),
                    Result::Err(e) => Err(e),
                }
            },
            _ => Ok(out),
        }
    }
}

/// Renders a one-off template source against a context through a throwaway
/// single-entry registry. An empty source is owed the empty output; a
/// brace-free source is owed itself, whatever the context.
pub fn render_str(source: &str, ctx: &Context) -> (r: Result<String, Error>)
    ensures
        r is Err ==> {
            let e = r->Err_0;
            ||| e is SyntaxError
            ||| e is DuplicateBlock
            ||| e is DuplicateMacro
            ||| e is DuplicateExtends
            ||| e is CircularInheritance
            ||| e is MissingParent
            ||| e is MissingMacroFile
            ||| render_error(e)
        },
        r is Err && r->Err_0 is UndefinedVariable ==> ctx.strict,
        source@.len() == 0 ==> (r is Ok && r->Ok_0@.len() == 0),
        (brace_free(source@) && source@.len() > 0) ==> (r is Ok && r->Ok_0@ == source@),
{
    let ghost owed = source@.len() == 0 || brace_free(source@);
    let mut reg = Registry::new();
    proof {
        assert(tpl_lookup(reg.templates@, "one_off"@) is None);
    }
    match reg.register("one_off", source) {
        Result::Ok(_) => {},
        Result::Err(e) => {
            proof {
                if owed {
                    assert(false);
                }
            }
            return Err(e);
        },
    }
    let ghost ts1 = reg.templates@;
    let ghost t0 = ts1.last();
    proof {
        assert(ts1.len() == 1);
        assert(ts1[0] == t0);
        match t0.parent {
            Option::None => {
                assert(parents_spec(ts1, t0, ts1.len() as nat) == ChainOut::Done(
                    Seq::<Seq<char>>::empty(),
                ));
            },
            Option::Some(_) => {},
        }
        if t0.parent is None && t0.imported_macro_files@.len() == 0 {
            assert(crate::registry::all_resolvable(ts1)) by {
                assert(forall|i: int|
                    0 <= i < ts1.len() ==> parents_spec(ts1, ts1[i], ts1.len() as nat)
                        is Done);
            }
        }
        if owed {
            assert(t0.parent is None && t0.imported_macro_files@.len() == 0);
        }
    }
    match reg.resolve() {
        Result::Ok(_) => {},
        Result::Err(e) => {
            proof {
                if owed {
                    assert(false);
                }
            }
            return Err(e);
        },
    }
    proof {
        if owed {
            let t1 = reg.templates@[0];
            assert(crate::registry::resolved_tpl(ts1, ts1[0], t1));
            assert(str_views(t1.parents@).len() == 0);
            assert(t1.parents@.len() == 0);
            assert(t1.name@ == "one_off"@);
            assert(tpl_lookup(reg.templates@, "one_off"@) == Option::Some(t1));
            assert(t1.ast == t0.ast);
            assert(t0.analyzed());
            match t1.ast {
                Node::Root { body } => {
                    assert(all_text(body@)) by {
                        if body@.len() > 0 {
                            assert(root_body(t1.ast) == body@);
                            assert(body@[0] is Text);
                            assert(forall|i: int| 0 <= i < body@.len() ==> body@[i] is Text);
                        }
                    }
                    assert(text_only_tpl(t1));
                    if source@.len() == 0 {
                        assert(body@.len() == 0);
                        assert(texts_of(body@) =~= Seq::<char>::empty());
                    } else {
                        assert(body@.len() == 1);
                        assert(body@.drop_last() =~= Seq::<Node>::empty());
                        assert(texts_of(body@.drop_last()) =~= Seq::<char>::empty());
                        assert(body@.last() == body@[0]);
                        assert(texts_of(body@) =~= source@);
                    }
                    assert(tpl_text(t1) == texts_of(body@));
                },
                _ => {
                    assert(false);
                },
            }
        }
    }
    reg.render("one_off", ctx)
}

} // verus!
