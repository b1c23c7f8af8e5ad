//! Per-file structural analysis: one parsed file becomes a `Template` record
//! holding its blocks (from every nesting depth), its top-level macros, its
//! macro imports, and its optional parent pointer. The two cross-file fields
//! (`parents`, `blocks_definitions`) stay empty here; the registry's resolve
//! pass fills them.

use vstd::prelude::*;

use crate::errors::Error;
use crate::nodes::Node;
use crate::nodes::bl_names;
use crate::nodes::blocks_in;
use crate::nodes::blocks_in_branches;
use crate::nodes::blocks_in_list;
use crate::nodes::clone_node;
use crate::nodes::distinct_names;
use crate::nodes::lemma_bl_names_prefix;
use crate::nodes::lemma_blocks_in_branches_prefix;
use crate::nodes::lemma_blocks_in_list_prefix;
use crate::nodes::lemma_dup_extends;
use crate::nodes::lemma_top_extends_prefix;
use crate::nodes::lemma_top_macros_prefix;
use crate::nodes::macro_name;
use crate::nodes::node_equiv;
use crate::nodes::root_body;
use crate::nodes::top_extends;
use crate::nodes::top_imports;
use crate::nodes::top_macros;
use crate::nodes::IfBranch;

verus! {

/// The names of an association list's entries, in order.
pub open spec fn pair_names(s: Seq<(String, Node)>) -> Seq<Seq<char>> {
    s.map_values(|p: (String, Node)| p.0@)
}

/// The association list carries the same names as the walk, in the same
/// order, and each entry's node is structurally equivalent to the walk's.
pub open spec fn pairs_match(a: Seq<(String, Node)>, b: Seq<(Seq<char>, Node)>) -> bool {
    a.len() == b.len() && (forall|i: int|
        0 <= i < a.len() ==> a[i].0@ == b[i].0 && node_equiv(a[i].1, b[i].1))
}

/// The (file, namespace) list carries the same views as the walk.
pub open spec fn imports_match(a: Seq<(String, String)>, b: Seq<(Seq<char>, Seq<char>)>) -> bool {
    a.len() == b.len() && (forall|i: int|
        0 <= i < a.len() ==> a[i].0@ == b[i].0 && a[i].1@ == b[i].1)
}

/// Whether the association list already holds an entry named `k`.
pub fn contains_name(v: &Vec<(String, Node)>, k: &String) -> (b: bool)
    ensures
        b == pair_names(v@).contains(k@),
{
    let mut i: usize = 0;
    while i < v.len()
        invariant
            i <= v.len(),
            forall|t: int| 0 <= t < i ==> pair_names(v@)[t] != k@,
        decreases v.len() - i,
    {
        let p = &v[i];
        if p.0 == *k {
            proof {
                assert(pair_names(v@)[i as int] == k@);
            }
            return true;
        }
        proof {
            assert(pair_names(v@)[i as int] == v@[i as int].0@);
        }
        i = i + 1;
    }
    proof {
        assert(forall|t: int| 0 <= t < v@.len() ==> pair_names(v@)[t] != k@);
    }
    false
}

/// Collects every `Block` node under `n` in depth-first pre-order into
/// `acc`, failing with `DuplicateBlock` exactly when a block name under `n`
/// collides with an earlier one (in `acc` or under `n` itself).
pub fn find_blocks(n: &Node, acc: &mut Vec<(String, Node)>) -> (r: Result<(), Error>)
    requires
        distinct_names(pair_names(old(acc)@)),
    ensures
        match r {
            Result::Ok(_) => {
                &&& final(acc)@.len() == old(acc)@.len() + blocks_in(*n).len()
                &&& final(acc)@.subrange(0, old(acc)@.len() as int) == old(acc)@
                &&& pairs_match(
                    final(acc)@.subrange(old(acc)@.len() as int, final(acc)@.len() as int),
                    blocks_in(*n),
                )
                &&& distinct_names(pair_names(final(acc)@))
                &&& distinct_names(pair_names(old(acc)@) + bl_names(blocks_in(*n)))
            },
            Result::Err(e) => {
                &&& e is DuplicateBlock
                &&& !distinct_names(pair_names(old(acc)@) + bl_names(blocks_in(*n)))
            },
        },
    decreases n,
{
    let ghost acc0 = acc@;
    match n {
        Node::Root { body } => {
            let r = find_blocks_list(body, acc);
            proof {
                assert(blocks_in(*n) == blocks_in_list(body@));
            }
            r
        },
        Node::Block { name, body } => {
            proof {
                assert(blocks_in(*n) == seq![(name@, *n)] + blocks_in_list(body@));
                assert(bl_names(blocks_in(*n))[0] == name@);
            }
            if contains_name(acc, name) {
                proof {
                    let whole = pair_names(acc0) + bl_names(blocks_in(*n));
                    let i = choose|i: int|
                        0 <= i < pair_names(acc0).len() && pair_names(acc0)[i] == name@;
                    assert(whole[i] == name@);
                    assert(whole[acc0.len() as int] == name@);
                    assert(!distinct_names(whole));
                }
                Err(Error::DuplicateBlock { name: name.clone() })
            } else {
                let cl = clone_node(n);
                acc.push((name.clone(), cl));
                proof {
                    assert(acc@.drop_last() == acc0);
                    assert forall|t: int| 0 <= t < acc0.len() implies pair_names(acc@)[t]
                        == pair_names(acc0)[t] by {
                        assert(acc@[t] == acc0[t]);
                    }
                    assert(pair_names(acc@)[acc0.len() as int] == name@);
                    assert(forall|t: int| 0 <= t < acc0.len() ==> pair_names(acc0)[t] != name@);
                    assert forall|i: int, j: int|
                        0 <= i < j < acc@.len() implies pair_names(acc@)[i] != pair_names(
                        acc@,
                    )[j] by {
                        if j < acc0.len() {
                            assert(pair_names(acc@)[i] == pair_names(acc0)[i]);
                            assert(pair_names(acc@)[j] == pair_names(acc0)[j]);
                        } else {
                            assert(j == acc0.len());
                            assert(pair_names(acc@)[i] == pair_names(acc0)[i]);
                        }
                    }
                    assert(distinct_names(pair_names(acc@)));
                }
                let ghost acc1 = acc@;
                let r = find_blocks_list(body, acc);
                proof {
                    let hd = seq![(name@, *n)];
                    let tl = blocks_in_list(body@);
                    match r {
                        Result::Ok(_) => {
                            assert(acc@.subrange(0, acc0.len() as int) =~= acc1.subrange(
                                0,
                                acc0.len() as int,
                            ));
                            assert(acc1.subrange(0, acc0.len() as int) =~= acc0);
                            let seg = acc@.subrange(acc0.len() as int, acc@.len() as int);
                            assert forall|i: int| 0 <= i < seg.len() implies seg[i].0@ == (hd
                                + tl)[i].0 && node_equiv(seg[i].1, (hd + tl)[i].1) by {
                                if i == 0 {
                                    assert(seg[0] == acc1[acc0.len() as int]);
                                } else {
                                    assert(seg[i] == acc@.subrange(
                                        acc1.len() as int,
                                        acc@.len() as int,
                                    )[i - 1]);
                                }
                            }
                            assert(pairs_match(seg, blocks_in(*n)));
                            // distinctness of the concatenated names
                            let w0 = pair_names(acc0) + bl_names(blocks_in(*n));
                            let w1 = pair_names(acc1) + bl_names(tl);
                            assert forall|i: int, j: int| 0 <= i < j < w0.len() implies w0[i]
                                != w0[j] by {
                                assert(w1.len() == w0.len());
                                assert forall|t: int| 0 <= t < w0.len() implies w0[t] == if t
                                    < acc0.len() {
                                    w1[t]
                                } else if t == acc0.len() {
                                    w1[acc0.len() as int]
                                } else {
                                    w1[t]
                                } by {
                                    assert(bl_names(blocks_in(*n))[t - acc0.len()] == (hd
                                        + tl).map_values(|p: (Seq<char>, Node)| p.0)[t
                                        - acc0.len()]);
                                }
                                assert(w0[i] == w1[i]);
                                assert(w0[j] == w1[j]);
                            }
                        },
                        Result::Err(_) => {
                            let w1 = pair_names(acc1) + bl_names(tl);
                            let w0 = pair_names(acc0) + bl_names(blocks_in(*n));
                            assert(!distinct_names(w1));
                            let (i, j) = choose|i: int, j: int|
                                0 <= i < j < w1.len() && w1[i] == w1[j];
                            assert forall|t: int| 0 <= t < w1.len() implies w1[t] == w0[t] by {
                                if t < acc0.len() {
                                    assert(pair_names(acc1)[t] == pair_names(acc0)[t]);
                                } else if t == acc0.len() {
                                    assert(pair_names(acc1)[t] == name@);
                                    assert(bl_names(blocks_in(*n))[0] == name@);
                                } else {
                                    assert(bl_names(tl)[t - acc1.len()] == bl_names(
                                        blocks_in(*n),
                                    )[t - acc0.len()]);
                                }
                            }
                            assert(w0[i] == w0[j]);
                            assert(!distinct_names(w0));
                        },
                    }
                }
                r
            }
        },
        Node::If { branches, else_body } => {
            proof {
                assert(blocks_in(*n) == blocks_in_branches(branches@) + blocks_in_list(
                    else_body@,
                ));
            }
            let r1 = find_blocks_branches(branches, acc);
            match r1 {
                Result::Err(e) => {
                    proof {
                        lemma_two_part_dup(
                            pair_names(acc0),
                            bl_names(blocks_in_branches(branches@)),
                            bl_names(blocks_in_list(else_body@)),
                            bl_names(blocks_in(*n)),
                        );
                    }
                    Err(e)
                },
                Result::Ok(_) => {
                    let ghost acc1 = acc@;
                    let r2 = find_blocks_list(else_body, acc);
                    proof {
                        let pa = blocks_in_branches(branches@);
                        let pb = blocks_in_list(else_body@);
                        match r2 {
                            Result::Ok(_) => {
                                lemma_compose_segments(acc0, acc1, acc@, pa, pb, blocks_in(*n));
                            },
                            Result::Err(_) => {
                                lemma_shift_dup(
                                    pair_names(acc0),
                                    pair_names(acc1),
                                    bl_names(pa),
                                    bl_names(pb),
                                    bl_names(blocks_in(*n)),
                                );
                            },
                        }
                    }
                    r2
                },
            }
        },
        Node::For { body, .. } => {
            let r = find_blocks_list(body, acc);
            proof {
                assert(blocks_in(*n) == blocks_in_list(body@));
            }
            r
        },
        Node::Macro { body, .. } => {
            let r = find_blocks_list(body, acc);
            proof {
                assert(blocks_in(*n) == blocks_in_list(body@));
            }
            r
        },
        _ => {
            proof {
                assert(blocks_in(*n) =~= Seq::<(Seq<char>, Node)>::empty());
                assert(acc@.subrange(0, acc0.len() as int) =~= acc0);
                assert(acc@.subrange(acc0.len() as int, acc@.len() as int) =~= Seq::<(
                    String,
                    Node,
                )>::empty());
                assert(pair_names(acc0) + bl_names(blocks_in(*n)) =~= pair_names(acc0));
            }
            Ok(())
        },
    }
}

/// When names of `x ++ names(a ++ b)` are in question and a repetition sits
/// already inside `x ++ names(a)`, it sits inside the whole.
proof fn lemma_two_part_dup(
    x: Seq<Seq<char>>,
    na: Seq<Seq<char>>,
    nb: Seq<Seq<char>>,
    nw: Seq<Seq<char>>,
)
    requires
        nw =~= na + nb,
        !distinct_names(x + na),
    ensures
        !distinct_names(x + nw),
{
    let pre = x + na;
    let whole = x + nw;
    assert forall|t: int| 0 <= t < pre.len() implies pre[t] == whole[t] by {}
    assert(pre.is_prefix_of(whole)) by {
        assert(pre =~= whole.subrange(0, pre.len() as int));
    }
    lemma_dup_extends(pre, whole);
}

/// A repetition inside `names(acc1) ++ nb`, where `acc1`'s names are
/// `x ++ na`, is a repetition inside `x ++ (na ++ nb)`.
proof fn lemma_shift_dup(
    x: Seq<Seq<char>>,
    n1: Seq<Seq<char>>,
    na: Seq<Seq<char>>,
    nb: Seq<Seq<char>>,
    nw: Seq<Seq<char>>,
)
    requires
        nw =~= na + nb,
        n1 =~= x + na,
        !distinct_names(n1 + nb),
    ensures
        !distinct_names(x + nw),
{
    assert(n1 + nb =~= x + nw);
}

/// Composes two consecutive accumulator extensions into one: if `acc1`
/// extends `acc0` by a match of `pa` and `acc2` extends `acc1` by a match of
/// `pb`, then `acc2` extends `acc0` by a match of `pa ++ pb`, and all the
/// distinctness clauses carry over.
proof fn lemma_compose_segments(
    acc0: Seq<(String, Node)>,
    acc1: Seq<(String, Node)>,
    acc2: Seq<(String, Node)>,
    pa: Seq<(Seq<char>, Node)>,
    pb: Seq<(Seq<char>, Node)>,
    pw: Seq<(Seq<char>, Node)>,
)
    requires
        pw =~= pa + pb,
        acc1.len() == acc0.len() + pa.len(),
        acc1.subrange(0, acc0.len() as int) == acc0,
        pairs_match(acc1.subrange(acc0.len() as int, acc1.len() as int), pa),
        acc2.len() == acc1.len() + pb.len(),
        acc2.subrange(0, acc1.len() as int) == acc1,
        pairs_match(acc2.subrange(acc1.len() as int, acc2.len() as int), pb),
        distinct_names(pair_names(acc2)),
        distinct_names(pair_names(acc0) + bl_names(pa)),
        distinct_names(pair_names(acc1) + bl_names(pb)),
    ensures
        acc2.len() == acc0.len() + pw.len(),
        acc2.subrange(0, acc0.len() as int) == acc0,
        pairs_match(acc2.subrange(acc0.len() as int, acc2.len() as int), pw),
        distinct_names(pair_names(acc0) + bl_names(pw)),
{
    assert(acc2.subrange(0, acc0.len() as int) =~= acc1.subrange(0, acc0.len() as int));
    let seg = acc2.subrange(acc0.len() as int, acc2.len() as int);
    assert forall|i: int| 0 <= i < seg.len() implies seg[i].0@ == pw[i].0 && node_equiv(
        seg[i].1,
        pw[i].1,
    ) by {
        if i < pa.len() {
            assert(seg[i] == acc2.subrange(0, acc1.len() as int)[acc0.len() + i]);
            assert(acc1[acc0.len() + i] == acc1.subrange(acc0.len() as int, acc1.len() as int)[i]);
        } else {
            assert(seg[i] == acc2.subrange(acc1.len() as int, acc2.len() as int)[i - pa.len()]);
        }
    }
    let w = pair_names(acc0) + bl_names(pw);
    let n2 = pair_names(acc2);
    assert forall|t: int| 0 <= t < w.len() implies w[t] == n2[t] by {
        if t < acc0.len() {
            assert(acc2[t] == acc2.subrange(0, acc0.len() as int)[t]);
            assert(acc2.subrange(0, acc0.len() as int) == acc0);
        } else {
            assert(bl_names(pw)[t - acc0.len()] == pw[t - acc0.len()].0);
            assert(seg[t - acc0.len()].0@ == pw[t - acc0.len()].0);
            assert(seg[t - acc0.len()] == acc2[t]);
        }
    }
    assert forall|i: int, j: int| 0 <= i < j < w.len() implies w[i] != w[j] by {
        assert(w[i] == n2[i]);
        assert(w[j] == n2[j]);
    }
}

/// `find_blocks` over each node of a list in order.
#[verifier::loop_isolation(false)]
pub fn find_blocks_list(body: &Vec<Node>, acc: &mut Vec<(String, Node)>) -> (r: Result<(), Error>)
    requires
        distinct_names(pair_names(old(acc)@)),
    ensures
        match r {
            Result::Ok(_) => {
                &&& final(acc)@.len() == old(acc)@.len() + blocks_in_list(body@).len()
                &&& final(acc)@.subrange(0, old(acc)@.len() as int) == old(acc)@
                &&& pairs_match(
                    final(acc)@.subrange(old(acc)@.len() as int, final(acc)@.len() as int),
                    blocks_in_list(body@),
                )
                &&& distinct_names(pair_names(final(acc)@))
                &&& distinct_names(pair_names(old(acc)@) + bl_names(blocks_in_list(body@)))
            },
            Result::Err(e) => {
                &&& e is DuplicateBlock
                &&& !distinct_names(pair_names(old(acc)@) + bl_names(blocks_in_list(body@)))
            },
        },
    decreases body,
{
    let ghost acc0 = acc@;
    let mut i: usize = 0;
    proof {
        assert(body@.take(0) =~= Seq::<Node>::empty());
        assert(blocks_in_list(body@.take(0)) == Seq::<(Seq<char>, Node)>::empty());
        assert(acc@.subrange(0, acc0.len() as int) =~= acc0);
        assert(acc@.subrange(acc0.len() as int, acc@.len() as int) =~= Seq::<(
            String,
            Node,
        )>::empty());
        assert(pair_names(acc0) + bl_names(blocks_in_list(body@.take(0))) =~= pair_names(acc0));
    }
    while i < body.len()
        invariant
            i <= body.len(),
            distinct_names(pair_names(acc@)),
            acc@.len() == acc0.len() + blocks_in_list(body@.take(i as int)).len(),
            acc@.subrange(0, acc0.len() as int) == acc0,
            pairs_match(
                acc@.subrange(acc0.len() as int, acc@.len() as int),
                blocks_in_list(body@.take(i as int)),
            ),
            distinct_names(pair_names(acc0) + bl_names(blocks_in_list(body@.take(i as int)))),
        decreases body.len() - i,
    {
        let ghost acc1 = acc@;
        let r = find_blocks(&body[i], acc);
        proof {
            assert(body@.take(i + 1).drop_last() =~= body@.take(i as int));
            assert(body@.take(i + 1).last() == body@[i as int]);
            assert(blocks_in_list(body@.take(i + 1)) == blocks_in_list(body@.take(i as int))
                + blocks_in(body@[i as int]));
        }
        match r {
            Result::Err(e) => {
                proof {
                    lemma_shift_dup(
                        pair_names(acc0),
                        pair_names(acc1),
                        bl_names(blocks_in_list(body@.take(i as int))),
                        bl_names(blocks_in(body@[i as int])),
                        bl_names(blocks_in_list(body@.take(i + 1))),
                    );
                    lemma_blocks_in_list_prefix(body@, i + 1);
                    lemma_bl_names_prefix(blocks_in_list(body@.take(i + 1)), blocks_in_list(body@));
                    let pre = pair_names(acc0) + bl_names(blocks_in_list(body@.take(i + 1)));
                    let whole = pair_names(acc0) + bl_names(blocks_in_list(body@));
                    assert(pre =~= whole.subrange(0, pre.len() as int)) by {
                        assert forall|t: int| 0 <= t < pre.len() implies pre[t] == whole[t] by {
                            if t >= acc0.len() {
                                assert(bl_names(blocks_in_list(body@.take(i + 1)))[t - acc0.len()]
                                    == bl_names(blocks_in_list(body@))[t - acc0.len()]);
                            }
                        }
                    }
                    lemma_dup_extends(pre, whole);
                }
                return Err(e);
            },
            Result::Ok(_) => {
                proof {
                    lemma_compose_segments(
                        acc0,
                        acc1,
                        acc@,
                        blocks_in_list(body@.take(i as int)),
                        blocks_in(body@[i as int]),
                        blocks_in_list(body@.take(i + 1)),
                    );
                }
            },
        }
        i = i + 1;
    }
    proof {
        assert(body@.take(body@.len() as int) =~= body@);
    }
    Ok(())
}

/// `find_blocks_list` over each `if`/`elif` branch body in order.
#[verifier::loop_isolation(false)]
pub fn find_blocks_branches(branches: &Vec<IfBranch>, acc: &mut Vec<(String, Node)>) -> (r: Result<
    (),
    Error,
>)
    requires
        distinct_names(pair_names(old(acc)@)),
    ensures
        match r {
            Result::Ok(_) => {
                &&& final(acc)@.len() == old(acc)@.len() + blocks_in_branches(branches@).len()
                &&& final(acc)@.subrange(0, old(acc)@.len() as int) == old(acc)@
                &&& pairs_match(
                    final(acc)@.subrange(old(acc)@.len() as int, final(acc)@.len() as int),
                    blocks_in_branches(branches@),
                )
                &&& distinct_names(pair_names(final(acc)@))
                &&& distinct_names(pair_names(old(acc)@) + bl_names(blocks_in_branches(branches@)))
            },
            Result::Err(e) => {
                &&& e is DuplicateBlock
                &&& !distinct_names(
                    pair_names(old(acc)@) + bl_names(blocks_in_branches(branches@)),
                )
            },
        },
    decreases branches,
{
    let ghost acc0 = acc@;
    let mut i: usize = 0;
    proof {
        assert(branches@.take(0) =~= Seq::<IfBranch>::empty());
        assert(acc@.subrange(0, acc0.len() as int) =~= acc0);
        assert(acc@.subrange(acc0.len() as int, acc@.len() as int) =~= Seq::<(
            String,
            Node,
        )>::empty());
        assert(pair_names(acc0) + bl_names(blocks_in_branches(branches@.take(0))) =~= pair_names(
            acc0,
        ));
    }
    while i < branches.len()
        invariant
            i <= branches.len(),
            distinct_names(pair_names(acc@)),
            acc@.len() == acc0.len() + blocks_in_branches(branches@.take(i as int)).len(),
            acc@.subrange(0, acc0.len() as int) == acc0,
            pairs_match(
                acc@.subrange(acc0.len() as int, acc@.len() as int),
                blocks_in_branches(branches@.take(i as int)),
            ),
            distinct_names(
                pair_names(acc0) + bl_names(blocks_in_branches(branches@.take(i as int))),
            ),
        decreases branches.len() - i,
    {
        let ghost acc1 = acc@;
        let b = &branches[i];
        let r = find_blocks_list(&b.body, acc);
        proof {
            assert(branches@.take(i + 1).drop_last() =~= branches@.take(i as int));
            assert(branches@.take(i + 1).last() == branches@[i as int]);
            assert(blocks_in_branches(branches@.take(i + 1)) == blocks_in_branches(
                branches@.take(i as int),
            ) + blocks_in_list(branches@[i as int].body@));
        }
        match r {
            Result::Err(e) => {
                proof {
                    lemma_shift_dup(
                        pair_names(acc0),
                        pair_names(acc1),
                        bl_names(blocks_in_branches(branches@.take(i as int))),
                        bl_names(blocks_in_list(branches@[i as int].body@)),
                        bl_names(blocks_in_branches(branches@.take(i + 1))),
                    );
                    lemma_blocks_in_branches_prefix(branches@, i + 1);
                    lemma_bl_names_prefix(
                        blocks_in_branches(branches@.take(i + 1)),
                        blocks_in_branches(branches@),
                    );
                    let pre = pair_names(acc0) + bl_names(blocks_in_branches(branches@.take(i + 1)));
                    let whole = pair_names(acc0) + bl_names(blocks_in_branches(branches@));
                    assert(pre =~= whole.subrange(0, pre.len() as int)) by {
                        assert forall|t: int| 0 <= t < pre.len() implies pre[t] == whole[t] by {
                            if t >= acc0.len() {
                                assert(bl_names(blocks_in_branches(branches@.take(i + 1)))[t
                                    - acc0.len()] == bl_names(blocks_in_branches(branches@))[t
                                    - acc0.len()]);
                            }
                        }
                    }
                    lemma_dup_extends(pre, whole);
                }
                return Err(e);
            },
            Result::Ok(_) => {
                proof {
                    lemma_compose_segments(
                        acc0,
                        acc1,
                        acc@,
                        blocks_in_branches(branches@.take(i as int)),
                        blocks_in_list(branches@[i as int].body@),
                        blocks_in_branches(branches@.take(i + 1)),
                    );
                }
            },
        }
        i = i + 1;
    }
    proof {
        assert(branches@.take(branches@.len() as int) =~= branches@);
    }
    Ok(())
}

/// The parsed form of one template file. Structurally immutable once built;
/// only `parents` and `blocks_definitions` are filled later, by the
/// registry's resolve pass.
#[derive(Debug)]
pub struct Template {
    /// Name of the template, the key it is registered under.
    pub name: String,
    /// Original path of the file, when it came from one.
    pub path: Option<String>,
    /// The parsed syntax tree.
    pub ast: Node,
    /// Top-level macros of the file, name to `Macro` node.
    pub macros: Vec<(String, Node)>,
    /// (file, namespace) for each macro import, in declaration order.
    pub imported_macro_files: Vec<(String, String)>,
    /// The single top-level `extends` target, when the file has one.
    pub parent: Option<String>,
    /// Every block of the file, at any nesting depth, name to `Block` node.
    pub blocks: Vec<(String, Node)>,
    /// Filled by resolve: all ancestor names, nearest first.
    pub parents: Vec<String>,
    /// Filled by resolve: block name to its definitions across the chain,
    /// each as (defining template, `Block` node), root-most ancestor first,
    /// this template last.
    pub blocks_definitions: Vec<(String, Vec<(String, Node)>)>,
    /// Filled by resolve: namespace to the file whose macros it binds, the
    /// last import of each namespace winning.
    pub macro_namespaces: Vec<(String, String)>,
}

impl Template {
    /// The single-file conditions under which analysis succeeds: block names
    /// unique at every nesting depth, top-level macro names unique, at most
    /// one top-level `extends`.
    pub open spec fn analyzable(ast: Node) -> bool {
        &&& distinct_names(bl_names(blocks_in(ast)))
        &&& distinct_names(bl_names(top_macros(root_body(ast))))
        &&& top_extends(root_body(ast)).len() <= 1
    }

    /// How the analyzer's outputs relate to the stored syntax tree.
    pub open spec fn analyzed(self) -> bool {
        &&& self.ast is Root
        &&& pairs_match(self.blocks@, blocks_in(self.ast))
        &&& distinct_names(pair_names(self.blocks@))
        &&& pairs_match(self.macros@, top_macros(root_body(self.ast)))
        &&& distinct_names(pair_names(self.macros@))
        &&& imports_match(self.imported_macro_files@, top_imports(root_body(self.ast)))
        &&& match self.parent {
            Option::None => top_extends(root_body(self.ast)).len() == 0,
            Option::Some(p) => top_extends(root_body(self.ast)) == seq![p@],
        }
    }

    /// Builds the `Template` record for one parsed file: collects every
    /// block at any depth, then walks only the root's direct children for
    /// the `extends` pointer, top-level macros and macro imports.
    pub fn analyze(tpl_name: &str, tpl_path: Option<String>, ast: Node) -> (r: Result<
        Template,
        Error,
    >)
        requires
            ast is Root,
        ensures
            r is Ok <==> Self::analyzable(ast),
            r is Ok ==> {
                let t = r->Ok_0;
                &&& t.analyzed()
                &&& t.name@ == tpl_name@
                &&& t.path == tpl_path
                &&& t.ast == ast
                &&& t.parents@.len() == 0
                &&& t.blocks_definitions@.len() == 0
                &&& t.macro_namespaces@.len() == 0
            },
            r is Err ==> {
                let e = r->Err_0;
                &&& (e is DuplicateBlock || e is DuplicateMacro || e is DuplicateExtends)
                &&& (e is DuplicateBlock ==> !distinct_names(bl_names(blocks_in(ast))))
                &&& (e is DuplicateMacro ==> !distinct_names(
                    bl_names(top_macros(root_body(ast))),
                ))
                &&& (e is DuplicateExtends ==> top_extends(root_body(ast)).len() >= 2)
            },
    {
        let mut blocks: Vec<(String, Node)> = Vec::new();
        let rb = find_blocks(&ast, &mut blocks);
        match rb {
            Result::Err(e) => {
                proof {
                    assert(pair_names(Seq::<(String, Node)>::empty()) =~= Seq::<Seq<char>>::empty());
                    assert(pair_names(Seq::<(String, Node)>::empty()) + bl_names(blocks_in(ast))
                        =~= bl_names(blocks_in(ast)));
                }
                return Err(e);
            },
            Result::Ok(_) => {
                proof {
                    assert(pair_names(Seq::<(String, Node)>::empty()) + bl_names(blocks_in(ast))
                        =~= bl_names(blocks_in(ast)));
                    assert(blocks@.subrange(0, blocks@.len() as int) =~= blocks@);
                }
            },
        }
        let body = match &ast {
            Node::Root { body } => body,
            _ => vstd::pervasive::unreached(),
        };
        let mut macros: Vec<(String, Node)> = Vec::new();
        let mut imports: Vec<(String, String)> = Vec::new();
        let mut parent: Option<String> = Option::None;
        let mut j: usize = 0;
        proof {
            assert(body@.take(0) =~= Seq::<Node>::empty());
            assert(pairs_match(macros@, top_macros(body@.take(0))));
            assert(imports_match(imports@, top_imports(body@.take(0))));
        }
        while j < body.len()
            invariant
                j <= body.len(),
                root_body(ast) == body@,
                pairs_match(macros@, top_macros(body@.take(j as int))),
                distinct_names(pair_names(macros@)),
                imports_match(imports@, top_imports(body@.take(j as int))),
                match parent {
                    Option::None => top_extends(body@.take(j as int)).len() == 0,
                    Option::Some(p) => top_extends(body@.take(j as int)) == seq![p@],
                },
            decreases body.len() - j,
        {
            proof {
                assert(body@.take(j + 1).drop_last() =~= body@.take(j as int));
                assert(body@.take(j + 1).last() == body@[j as int]);
            }
            let child = &body[j];
            match child {
                Node::Extends(p) => {
                    if parent.is_some() {
                        proof {
                            lemma_top_extends_prefix(body@, j + 1);
                            assert(top_extends(body@.take(j + 1)).len() >= 2);
                        }
                        return Err(Error::DuplicateExtends);
                    }
                    parent = Option::Some(p.clone());
                    proof {
                        assert(top_extends(body@.take(j + 1)) =~= seq![p@]);
                    }
                },
                Node::Macro { name, .. } => {
                    proof {
                        assert(macro_name(body@[j as int]) == name@);
                        assert(top_macros(body@.take(j + 1)) == top_macros(body@.take(j as int))
                            + seq![(name@, body@[j as int])]);
                    }
                    if contains_name(&macros, name) {
                        proof {
                            let tm1 = top_macros(body@.take(j + 1));
                            let i = choose|i: int|
                                0 <= i < pair_names(macros@).len() && pair_names(macros@)[i]
                                    == name@;
                            assert(bl_names(tm1)[i] == name@);
                            assert(bl_names(tm1)[tm1.len() - 1] == name@);
                            assert(!distinct_names(bl_names(tm1)));
                            lemma_top_macros_prefix(body@, j + 1);
                            lemma_bl_names_prefix(tm1, top_macros(body@));
                            lemma_dup_extends(bl_names(tm1), bl_names(top_macros(body@)));
                        }
                        return Err(Error::DuplicateMacro { name: name.clone() });
                    }
                    let ghost m0 = macros@;
                    let cl = clone_node(child);
                    macros.push((name.clone(), cl));
                    proof {
                        assert forall|t: int| 0 <= t < m0.len() implies pair_names(macros@)[t]
                            == pair_names(m0)[t] by {
                            assert(macros@[t] == m0[t]);
                        }
                        assert(pair_names(macros@)[m0.len() as int] == name@);
                        assert forall|a: int, b: int|
                            0 <= a < b < macros@.len() implies pair_names(macros@)[a]
                            != pair_names(macros@)[b] by {
                            if b < m0.len() {
                                assert(pair_names(macros@)[a] == pair_names(m0)[a]);
                                assert(pair_names(macros@)[b] == pair_names(m0)[b]);
                            } else {
                                assert(b == m0.len());
                                assert(pair_names(macros@)[a] == pair_names(m0)[a]);
                            }
                        }
                        assert(pairs_match(macros@, top_macros(body@.take(j + 1))));
                    }
                },
                Node::ImportMacro { tpl_name: file, name: ns } => {
                    imports.push((file.clone(), ns.clone()));
                    proof {
                        assert(top_imports(body@.take(j + 1)) == top_imports(body@.take(j as int))
                            + seq![(file@, ns@)]);
                        assert(imports_match(imports@, top_imports(body@.take(j + 1))));
                    }
                },
                _ => {
                    proof {
                        assert(top_macros(body@.take(j + 1)) == top_macros(body@.take(j as int)));
                        assert(top_imports(body@.take(j + 1)) == top_imports(body@.take(j as int)));
                        assert(top_extends(body@.take(j + 1)) == top_extends(body@.take(j as int)));
                    }
                },
            }
            j = j + 1;
        }
        proof {
            assert(body@.take(body@.len() as int) =~= body@);
            let tm = top_macros(body@);
            assert(pair_names(macros@) =~= bl_names(tm)) by {
                assert forall|t: int| 0 <= t < macros@.len() implies pair_names(macros@)[t]
                    == bl_names(tm)[t] by {
                    assert(macros@[t].0@ == tm[t].0);
                }
            }
            assert(distinct_names(bl_names(tm)));
        }
        Ok(
            Template {
                name: tpl_name.to_owned(),
                path: tpl_path,
                ast,
                macros,
                imported_macro_files: imports,
                parent,
                blocks,
                parents: Vec::new(),
                blocks_definitions: Vec::new(),
                macro_namespaces: Vec::new(),
            },
        )
    }
}

/// A source with no `{` anywhere: literal text, no tag can open.
pub open spec fn brace_free(s: Seq<char>) -> bool {
    forall|i: int| 0 <= i < s.len() ==> s[i] != '{'
}

impl Template {
    /// Parses the template source given and analyzes the result into a
    /// `Template` record. Success is owed for sources the parser's own
    /// contract pins: an empty source yields an empty template, and a
    /// brace-free source yields a template whose tree is that literal text
    /// alone — in both cases with no blocks, macros, imports or parent, so
    /// nothing from any other file can become visible through it.
    pub fn new(tpl_name: &str, tpl_path: Option<String>, input: &str) -> (r: Result<
        Template,
        Error,
    >)
    ensures
        r is Ok ==> {
            let t = r->Ok_0;
            &&& t.analyzed()
            &&& t.name@ == tpl_name@
            &&& t.path == tpl_path
            &&& t.parents@.len() == 0
            &&& t.blocks_definitions@.len() == 0
            &&& t.macro_namespaces@.len() == 0
        },
        r is Err ==> {
            let e = r->Err_0;
            e is SyntaxError || e is DuplicateBlock || e is DuplicateMacro
                || e is DuplicateExtends
        },
        input@.len() == 0 ==> (r is Ok && {
            let t = r->Ok_0;
            &&& root_body(t.ast).len() == 0
            &&& t.blocks@.len() == 0
            &&& t.macros@.len() == 0
            &&& t.imported_macro_files@.len() == 0
            &&& t.parent is None
        }),
        brace_free(input@) && input@.len() > 0 ==> (r is Ok && {
            let t = r->Ok_0;
            &&& root_body(t.ast).len() == 1
            &&& (root_body(t.ast)[0] matches Node::Text(x) && x@ == input@)
            &&& t.blocks@.len() == 0
            &&& t.macros@.len() == 0
            &&& t.imported_macro_files@.len() == 0
            &&& t.parent is None
        }),
    {
        let ast = match crate::parser::parse(input) {
            Result::Ok(v) => v,
            Result::Err(e) => { return Err(e) },
        };
        proof {
            if input@.len() == 0 || brace_free(input@) {
                let body = root_body(ast);
                if body.len() == 0 {
                    assert(blocks_in_list(body) =~= Seq::<(Seq<char>, Node)>::empty());
                } else {
                    assert(body.len() == 1);
                    assert(body[0] is Text);
                    assert(body.drop_last() =~= Seq::<Node>::empty());
                    assert(body.last() == body[0]);
                    assert(blocks_in(body[0]) =~= Seq::<(Seq<char>, Node)>::empty());
                    assert(blocks_in_list(body.drop_last()) =~= Seq::<(Seq<char>, Node)>::empty());
                    assert(blocks_in_list(body) =~= Seq::<(Seq<char>, Node)>::empty());
                    assert(top_macros(body.drop_last()) =~= Seq::<(Seq<char>, Node)>::empty());
                    assert(top_extends(body.drop_last()) =~= Seq::<Seq<char>>::empty());
                    assert(top_imports(body.drop_last()) =~= Seq::<(Seq<char>, Seq<char>)>::empty());
                }
                assert(top_macros(body) =~= Seq::<(Seq<char>, Node)>::empty());
                assert(top_extends(body) =~= Seq::<Seq<char>>::empty());
                assert(top_imports(body) =~= Seq::<(Seq<char>, Seq<char>)>::empty());
                assert(blocks_in(ast) == blocks_in_list(body));
                assert(bl_names(blocks_in(ast)) =~= Seq::<Seq<char>>::empty());
                assert(bl_names(top_macros(body)) =~= Seq::<Seq<char>>::empty());
                assert(Template::analyzable(ast));
            }
        }
        let r = Template::analyze(tpl_name, tpl_path, ast);
        proof {
            if input@.len() == 0 || brace_free(input@) {
                assert(r is Ok);
                let t = r->Ok_0;
                assert(t.ast == ast);
                assert(t.blocks@.len() == 0);
                assert(t.macros@.len() == 0);
                assert(t.imported_macro_files@.len() == 0);
                match t.parent {
                    Option::Some(p) => {
                        assert(top_extends(root_body(t.ast)).len() == 1);
                        assert(false);
                    },
                    Option::None => {},
                }
            }
        }
        r
    }
}

} // verus!
