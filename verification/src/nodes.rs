//! The syntax tree: one `Node` per construct, each owning its body as an
//! ordered sequence of children; expressions are their own recursive type.
//! Also here: structural equivalence (equality up to string views), deep
//! cloning proved against it, and the spec-level walks the analyzer and
//! resolver contracts are stated over.

use vstd::prelude::*;

verus! {

/// One step of a variable path: a field/key name or a numeric index.
#[derive(Debug)]
pub enum Pathseg {
    Key(String),
    Index(u64),
}

/// A binary operator of the expression grammar.
#[derive(Debug, Clone, Copy, PartialEq, Eq, Structural)]
pub enum BinOp {
    Add,
    Sub,
    Mul,
    Div,
    Eq,
    Ne,
    Lt,
    Le,
    Gt,
    Ge,
    And,
    Or,
}

/// One argument of a macro call or filter call: positional when `name` is
/// `None`, named otherwise.
#[derive(Debug)]
pub struct Arg {
    pub name: Option<String>,
    pub value: Expr,
}

/// An expression: literals, variable paths, binary operators, and a
/// left-to-right filter chain.
#[derive(Debug)]
pub enum Expr {
    IntLit(i64),
    StrLit(String),
    BoolLit(bool),
    Var(Vec<Pathseg>),
    Binary { op: BinOp, left: Box<Expr>, right: Box<Expr> },
    Filter { value: Box<Expr>, name: String, args: Vec<Arg> },
}

/// One branch of an `if`/`elif` chain.
#[derive(Debug)]
pub struct IfBranch {
    pub cond: Expr,
    pub body: Vec<Node>,
}

/// One declared macro parameter, with its optional default.
#[derive(Debug)]
pub struct Param {
    pub name: String,
    pub default: Option<Expr>,
}

/// One syntax construct. A node owns its children exclusively; the tree has
/// no shared or back references.
#[derive(Debug)]
pub enum Node {
    /// The root of a parsed file.
    Root { body: Vec<Node> },
    /// A literal text span.
    Text(String),
    /// An output tag `{{ expression }}`.
    Output(Expr),
    /// An `if`/`elif`/`else` chain; `else_body` is empty when no `else` tag
    /// is present.
    If { branches: Vec<IfBranch>, else_body: Vec<Node> },
    /// A `for binding in iterable` loop.
    For { binding: String, iterable: Expr, body: Vec<Node> },
    /// A named, overridable region.
    Block { name: String, body: Vec<Node> },
    /// Declares the file's single parent template.
    Extends(String),
    /// A named, parameterized reusable fragment.
    Macro { name: String, params: Vec<Param>, body: Vec<Node> },
    /// A namespaced call `ns::name(args)`.
    MacroCall { namespace: String, name: String, args: Vec<Arg> },
    /// Binds another file's macros to a local namespace.
    ImportMacro { tpl_name: String, name: String },
    /// Inside a block override: render the next-more-ancestral definition.
    Super,
}

// ------------------------------------------------------------------
// Structural equivalence: equality of shape and of all string views.
// ------------------------------------------------------------------

pub open spec fn seg_equiv(a: Pathseg, b: Pathseg) -> bool {
    match (a, b) {
        (Pathseg::Key(x), Pathseg::Key(y)) => x@ == y@,
        (Pathseg::Index(x), Pathseg::Index(y)) => x == y,
        _ => false,
    }
}

pub open spec fn opt_str_equiv(a: Option<String>, b: Option<String>) -> bool {
    match (a, b) {
        (Option::None, Option::None) => true,
        (Option::Some(x), Option::Some(y)) => x@ == y@,
        _ => false,
    }
}

pub open spec fn expr_equiv(a: Expr, b: Expr) -> bool
    decreases a,
{
    match (a, b) {
        (Expr::IntLit(x), Expr::IntLit(y)) => x == y,
        (Expr::StrLit(x), Expr::StrLit(y)) => x@ == y@,
        (Expr::BoolLit(x), Expr::BoolLit(y)) => x == y,
        (Expr::Var(xs), Expr::Var(ys)) => xs@.len() == ys@.len() && (forall|i: int|
            0 <= i < xs@.len() ==> seg_equiv(xs@[i], ys@[i])),
        (
            Expr::Binary { op: o1, left: l1, right: r1 },
            Expr::Binary { op: o2, left: l2, right: r2 },
        ) => o1 == o2 && expr_equiv(*l1, *l2) && expr_equiv(*r1, *r2),
        (
            Expr::Filter { value: v1, name: n1, args: a1 },
            Expr::Filter { value: v2, name: n2, args: a2 },
        ) => expr_equiv(*v1, *v2) && n1@ == n2@ && a1@.len() == a2@.len() && (forall|i: int|
            0 <= i < a1@.len() ==> arg_equiv(a1@[i], a2@[i])),
        _ => false,
    }
}

pub open spec fn arg_equiv(a: Arg, b: Arg) -> bool
    decreases a,
{
    opt_str_equiv(a.name, b.name) && expr_equiv(a.value, b.value)
}

pub open spec fn nodes_equiv(a: Seq<Node>, b: Seq<Node>) -> bool {
    a.len() == b.len() && (forall|i: int| 0 <= i < a.len() ==> node_equiv(a[i], b[i]))
}

pub open spec fn node_equiv(a: Node, b: Node) -> bool
    decreases a,
{
    match (a, b) {
        (Node::Root { body: x }, Node::Root { body: y }) => x@.len() == y@.len() && (forall|
            i: int,
        | 0 <= i < x@.len() ==> node_equiv(x@[i], y@[i])),
        (Node::Text(x), Node::Text(y)) => x@ == y@,
        (Node::Output(x), Node::Output(y)) => expr_equiv(x, y),
        (
            Node::If { branches: b1, else_body: e1 },
            Node::If { branches: b2, else_body: e2 },
        ) => b1@.len() == b2@.len() && (forall|i: int|
            0 <= i < b1@.len() ==> branch_equiv(b1@[i], b2@[i])) && e1@.len() == e2@.len() && (
        forall|i: int| 0 <= i < e1@.len() ==> node_equiv(e1@[i], e2@[i])),
        (
            Node::For { binding: v1, iterable: it1, body: x },
            Node::For { binding: v2, iterable: it2, body: y },
        ) => v1@ == v2@ && expr_equiv(it1, it2) && x@.len() == y@.len() && (forall|i: int|
            0 <= i < x@.len() ==> node_equiv(x@[i], y@[i])),
        (
            Node::Block { name: n1, body: x },
            Node::Block { name: n2, body: y },
        ) => n1@ == n2@ && x@.len() == y@.len() && (forall|i: int|
            0 <= i < x@.len() ==> node_equiv(x@[i], y@[i])),
        (Node::Extends(x), Node::Extends(y)) => x@ == y@,
        (
            Node::Macro { name: n1, params: p1, body: x },
            Node::Macro { name: n2, params: p2, body: y },
        ) => n1@ == n2@ && p1@.len() == p2@.len() && (forall|i: int|
            0 <= i < p1@.len() ==> param_equiv(p1@[i], p2@[i])) && x@.len() == y@.len() && (
        forall|i: int| 0 <= i < x@.len() ==> node_equiv(x@[i], y@[i])),
        (
            Node::MacroCall { namespace: s1, name: n1, args: a1 },
            Node::MacroCall { namespace: s2, name: n2, args: a2 },
        ) => s1@ == s2@ && n1@ == n2@ && a1@.len() == a2@.len() && (forall|i: int|
            0 <= i < a1@.len() ==> arg_equiv(a1@[i], a2@[i])),
        (
            Node::ImportMacro { tpl_name: t1, name: n1 },
            Node::ImportMacro { tpl_name: t2, name: n2 },
        ) => t1@ == t2@ && n1@ == n2@,
        (Node::Super, Node::Super) => true,
        _ => false,
    }
}

pub open spec fn branch_equiv(a: IfBranch, b: IfBranch) -> bool
    decreases a,
{
    expr_equiv(a.cond, b.cond) && a.body@.len() == b.body@.len() && (forall|i: int|
        0 <= i < a.body@.len() ==> node_equiv(a.body@[i], b.body@[i]))
}

pub open spec fn param_equiv(a: Param, b: Param) -> bool {
    a.name@ == b.name@ && match (a.default, b.default) {
        (Option::None, Option::None) => true,
        (Option::Some(x), Option::Some(y)) => expr_equiv(x, y),
        _ => false,
    }
}

// ------------------------------------------------------------------
// Deep cloning, proved structurally equivalent to the original.
// ------------------------------------------------------------------

pub fn clone_seg(s: &Pathseg) -> (r: Pathseg)
    ensures
        seg_equiv(r, *s),
{
    match s {
        Pathseg::Key(k) => Pathseg::Key(k.clone()),
        Pathseg::Index(i) => Pathseg::Index(*i),
    }
}

pub fn clone_opt_string(s: &Option<String>) -> (r: Option<String>)
    ensures
        opt_str_equiv(r, *s),
{
    match s {
        Option::None => Option::None,
        Option::Some(x) => Option::Some(x.clone()),
    }
}

pub fn clone_expr(e: &Expr) -> (r: Expr)
    ensures
        expr_equiv(r, *e),
    decreases e,
{
    match e {
        Expr::IntLit(x) => Expr::IntLit(*x),
        Expr::StrLit(x) => Expr::StrLit(x.clone()),
        Expr::BoolLit(x) => Expr::BoolLit(*x),
        Expr::Var(segs) => {
            let mut out: Vec<Pathseg> = Vec::new();
            let mut i: usize = 0;
            while i < segs.len()
                invariant
                    i <= segs.len(),
                    out@.len() == i,
                    forall|k: int| 0 <= k < i ==> seg_equiv(out@[k], segs@[k]),
                decreases segs.len() - i,
            {
                out.push(clone_seg(&segs[i]));
                i = i + 1;
            }
            Expr::Var(out)
        },
        Expr::Binary { op, left, right } => Expr::Binary {
            op: *op,
            left: Box::new(clone_expr(left)),
            right: Box::new(clone_expr(right)),
        },
        Expr::Filter { value, name, args } => Expr::Filter {
            value: Box::new(clone_expr(value)),
            name: name.clone(),
            args: clone_args(args),
        },
    }
}

pub fn clone_args(args: &Vec<Arg>) -> (r: Vec<Arg>)
    ensures
        r@.len() == args@.len(),
        forall|k: int| 0 <= k < args@.len() ==> arg_equiv(r@[k], args@[k]),
    decreases args,
{
    let mut out: Vec<Arg> = Vec::new();
    let mut i: usize = 0;
    while i < args.len()
        invariant
            i <= args.len(),
            out@.len() == i,
            forall|k: int| 0 <= k < i ==> arg_equiv(out@[k], args@[k]),
        decreases args.len() - i,
    {
        let a = &args[i];
        out.push(Arg { name: clone_opt_string(&a.name), value: clone_expr(&a.value) });
        i = i + 1;
    }
    out
}

pub fn clone_params(params: &Vec<Param>) -> (r: Vec<Param>)
    ensures
        r@.len() == params@.len(),
        forall|k: int| 0 <= k < params@.len() ==> param_equiv(r@[k], params@[k]),
{
    let mut out: Vec<Param> = Vec::new();
    let mut i: usize = 0;
    while i < params.len()
        invariant
            i <= params.len(),
            out@.len() == i,
            forall|k: int| 0 <= k < i ==> param_equiv(out@[k], params@[k]),
        decreases params.len() - i,
    {
        let p = &params[i];
        let d = match &p.default {
            Option::None => Option::None,
            Option::Some(e) => Option::Some(clone_expr(e)),
        };
        out.push(Param { name: p.name.clone(), default: d });
        i = i + 1;
    }
    out
}

pub fn clone_node(n: &Node) -> (r: Node)
    ensures
        node_equiv(r, *n),
    decreases n,
{
    match n {
        Node::Root { body } => Node::Root { body: clone_nodes(body) },
        Node::Text(t) => Node::Text(t.clone()),
        Node::Output(e) => Node::Output(clone_expr(e)),
        Node::If { branches, else_body } => Node::If {
            branches: clone_branches(branches),
            else_body: clone_nodes(else_body),
        },
        Node::For { binding, iterable, body } => Node::For {
            binding: binding.clone(),
            iterable: clone_expr(iterable),
            body: clone_nodes(body),
        },
        Node::Block { name, body } => Node::Block { name: name.clone(), body: clone_nodes(body) },
        Node::Extends(p) => Node::Extends(p.clone()),
        Node::Macro { name, params, body } => Node::Macro {
            name: name.clone(),
            params: clone_params(params),
            body: clone_nodes(body),
        },
        Node::MacroCall { namespace, name, args } => Node::MacroCall {
            namespace: namespace.clone(),
            name: name.clone(),
            args: clone_args(args),
        },
        Node::ImportMacro { tpl_name, name } => Node::ImportMacro {
            tpl_name: tpl_name.clone(),
            name: name.clone(),
        },
        Node::Super => Node::Super,
    }
}

pub fn clone_branches(v: &Vec<IfBranch>) -> (r: Vec<IfBranch>)
    ensures
        r@.len() == v@.len(),
        forall|k: int| 0 <= k < v@.len() ==> branch_equiv(r@[k], v@[k]),
    decreases v,
{
    let mut out: Vec<IfBranch> = Vec::new();
    let mut i: usize = 0;
    while i < v.len()
        invariant
            i <= v.len(),
            out@.len() == i,
            forall|k: int| 0 <= k < i ==> branch_equiv(out@[k], v@[k]),
        decreases v.len() - i,
    {
        let b = &v[i];
        out.push(IfBranch { cond: clone_expr(&b.cond), body: clone_nodes(&b.body) });
        i = i + 1;
    }
    out
}

pub fn clone_nodes(v: &Vec<Node>) -> (r: Vec<Node>)
    ensures
        nodes_equiv(r@, v@),
    decreases v,
{
    let mut out: Vec<Node> = Vec::new();
    let mut i: usize = 0;
    while i < v.len()
        invariant
            i <= v.len(),
            out@.len() == i,
            forall|k: int| 0 <= k < i ==> node_equiv(out@[k], v@[k]),
        decreases v.len() - i,
    {
        out.push(clone_node(&v[i]));
        i = i + 1;
    }
    out
}

// ------------------------------------------------------------------
// Spec-level walks the analyzer contracts are stated over.
// ------------------------------------------------------------------

/// Every `Block` node of the tree in depth-first pre-order, as
/// (name, whole block node) pairs.
pub open spec fn blocks_in(n: Node) -> Seq<(Seq<char>, Node)>
    decreases n,
{
    match n {
        Node::Root { body } => blocks_in_list(body@),
        Node::Block { name, body } => seq![(name@, n)] + blocks_in_list(body@),
        Node::If { branches, else_body } => blocks_in_branches(branches@) + blocks_in_list(
            else_body@,
        ),
        Node::For { body, .. } => blocks_in_list(body@),
        Node::Macro { body, .. } => blocks_in_list(body@),
        _ => Seq::empty(),
    }
}

pub open spec fn blocks_in_list(s: Seq<Node>) -> Seq<(Seq<char>, Node)>
    decreases s,
{
    if s.len() == 0 {
        Seq::empty()
    } else {
        blocks_in_list(s.drop_last()) + blocks_in(s.last())
    }
}

pub open spec fn blocks_in_branches(s: Seq<IfBranch>) -> Seq<(Seq<char>, Node)>
    decreases s,
{
    if s.len() == 0 {
        Seq::empty()
    } else {
        blocks_in_branches(s.drop_last()) + blocks_in_list(s.last().body@)
    }
}

/// No name occurs twice.
pub open spec fn distinct_names(s: Seq<Seq<char>>) -> bool {
    forall|i: int, j: int| 0 <= i < j < s.len() ==> s[i] != s[j]
}

/// The body of the root node; empty for any other node.
pub open spec fn root_body(n: Node) -> Seq<Node> {
    match n {
        Node::Root { body } => body@,
        _ => Seq::empty(),
    }
}

/// The parent names declared by top-level `extends` tags, in order.
pub open spec fn top_extends(body: Seq<Node>) -> Seq<Seq<char>>
    decreases body.len(),
{
    if body.len() == 0 {
        Seq::empty()
    } else {
        let rest = top_extends(body.drop_last());
        match body.last() {
            Node::Extends(p) => rest + seq![p@],
            _ => rest,
        }
    }
}

/// The top-level macros, as (name, whole macro node) pairs, in order.
pub open spec fn top_macros(body: Seq<Node>) -> Seq<(Seq<char>, Node)>
    decreases body.len(),
{
    if body.len() == 0 {
        Seq::empty()
    } else {
        let rest = top_macros(body.drop_last());
        match body.last() {
            Node::Macro { .. } => rest + seq![(macro_name(body.last()), body.last())],
            _ => rest,
        }
    }
}

pub open spec fn macro_name(n: Node) -> Seq<char> {
    match n {
        Node::Macro { name, .. } => name@,
        _ => Seq::empty(),
    }
}

/// The top-level `import` tags, as (file, namespace) pairs, in order.
pub open spec fn top_imports(body: Seq<Node>) -> Seq<(Seq<char>, Seq<char>)>
    decreases body.len(),
{
    if body.len() == 0 {
        Seq::empty()
    } else {
        let rest = top_imports(body.drop_last());
        match body.last() {
            Node::ImportMacro { tpl_name, name } => rest + seq![(tpl_name@, name@)],
            _ => rest,
        }
    }
}

// ------------------------------------------------------------------
// Prefix lemmas for the walks, used by the analyzer's proofs.
// ------------------------------------------------------------------

/// The names of a walk's pairs, in walk order.
pub open spec fn bl_names(b: Seq<(Seq<char>, Node)>) -> Seq<Seq<char>> {
    b.map_values(|p: (Seq<char>, Node)| p.0)
}

pub proof fn lemma_blocks_in_list_prefix(s: Seq<Node>, j: int)
    requires
        0 <= j <= s.len(),
    ensures
        blocks_in_list(s.take(j)).is_prefix_of(blocks_in_list(s)),
    decreases s.len() - j,
{
    if j == s.len() {
        assert(s.take(j) =~= s);
    } else {
        lemma_blocks_in_list_prefix(s, j + 1);
        assert(s.take(j + 1).drop_last() =~= s.take(j));
        assert(s.take(j + 1).last() == s[j]);
        assert(blocks_in_list(s.take(j + 1)) == blocks_in_list(s.take(j)) + blocks_in(s[j]));
        let a = blocks_in_list(s.take(j));
        let b = blocks_in_list(s.take(j + 1));
        let c = blocks_in_list(s);
        assert(a =~= b.subrange(0, a.len() as int));
        assert(a =~= c.subrange(0, a.len() as int));
    }
}

pub proof fn lemma_blocks_in_branches_prefix(s: Seq<IfBranch>, j: int)
    requires
        0 <= j <= s.len(),
    ensures
        blocks_in_branches(s.take(j)).is_prefix_of(blocks_in_branches(s)),
    decreases s.len() - j,
{
    if j == s.len() {
        assert(s.take(j) =~= s);
    } else {
        lemma_blocks_in_branches_prefix(s, j + 1);
        assert(s.take(j + 1).drop_last() =~= s.take(j));
        assert(s.take(j + 1).last() == s[j]);
        assert(blocks_in_branches(s.take(j + 1)) == blocks_in_branches(s.take(j))
            + blocks_in_list(s[j].body@));
        let a = blocks_in_branches(s.take(j));
        let b = blocks_in_branches(s.take(j + 1));
        let c = blocks_in_branches(s);
        assert(a =~= b.subrange(0, a.len() as int));
        assert(a =~= c.subrange(0, a.len() as int));
    }
}

pub proof fn lemma_top_extends_prefix(s: Seq<Node>, j: int)
    requires
        0 <= j <= s.len(),
    ensures
        top_extends(s.take(j)).is_prefix_of(top_extends(s)),
    decreases s.len() - j,
{
    if j == s.len() {
        assert(s.take(j) =~= s);
    } else {
        lemma_top_extends_prefix(s, j + 1);
        assert(s.take(j + 1).drop_last() =~= s.take(j));
        assert(s.take(j + 1).last() == s[j]);
        let a = top_extends(s.take(j));
        let b = top_extends(s.take(j + 1));
        let c = top_extends(s);
        assert(a =~= b.subrange(0, a.len() as int));
        assert(a =~= c.subrange(0, a.len() as int));
    }
}

pub proof fn lemma_top_macros_prefix(s: Seq<Node>, j: int)
    requires
        0 <= j <= s.len(),
    ensures
        top_macros(s.take(j)).is_prefix_of(top_macros(s)),
    decreases s.len() - j,
{
    if j == s.len() {
        assert(s.take(j) =~= s);
    } else {
        lemma_top_macros_prefix(s, j + 1);
        assert(s.take(j + 1).drop_last() =~= s.take(j));
        assert(s.take(j + 1).last() == s[j]);
        let a = top_macros(s.take(j));
        let b = top_macros(s.take(j + 1));
        let c = top_macros(s);
        assert(a =~= b.subrange(0, a.len() as int));
        assert(a =~= c.subrange(0, a.len() as int));
    }
}

/// A repeated name in a prefix is a repeated name in the whole.
pub proof fn lemma_dup_extends(pre: Seq<Seq<char>>, whole: Seq<Seq<char>>)
    requires
        pre.is_prefix_of(whole),
        !distinct_names(pre),
    ensures
        !distinct_names(whole),
{
    let (i, j) = choose|i: int, j: int| 0 <= i < j < pre.len() && pre[i] == pre[j];
    assert(pre[i] == whole[i]);
    assert(pre[j] == whole[j]);
    assert(!distinct_names(whole));
}

/// `bl_names` carries prefixes through.
pub proof fn lemma_bl_names_prefix(a: Seq<(Seq<char>, Node)>, b: Seq<(Seq<char>, Node)>)
    requires
        a.is_prefix_of(b),
    ensures
        bl_names(a).is_prefix_of(bl_names(b)),
{
    assert forall|i: int| 0 <= i < a.len() implies bl_names(a)[i] == bl_names(b)[i] by {
        assert(a[i] == b.subrange(0, a.len() as int)[i]);
    }
    assert(bl_names(a) =~= bl_names(b).subrange(0, a.len() as int));
}

} // verus!
