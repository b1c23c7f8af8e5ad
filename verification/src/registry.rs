//! The template registry and its cross-file resolve pass: it owns every
//! `Template` by name, computes inheritance chains, merges block-override
//! sequences across each chain, and resolves macro-import namespaces.
//! Resolution is all-or-nothing: a failed `resolve` leaves the registry in
//! its pre-resolve state.

use vstd::prelude::*;

use crate::errors::Error;
use crate::nodes::Node;
use crate::nodes::clone_node;
use crate::nodes::distinct_names;
use crate::nodes::node_equiv;
use crate::nodes::root_body;
use crate::template::brace_free;
use crate::template::pairs_match;
use crate::template::Template;

verus! {

/// The character views of a run of strings.
pub open spec fn str_views(s: Seq<String>) -> Seq<Seq<char>> {
    s.map_values(|x: String| x@)
}

/// The registered template names, in registration order.
pub open spec fn reg_names(ts: Seq<Template>) -> Seq<Seq<char>> {
    ts.map_values(|t: Template| t.name@)
}

/// The first registered template of the given name.
pub open spec fn tpl_lookup(ts: Seq<Template>, n: Seq<char>) -> Option<Template>
    decreases ts.len(),
{
    if ts.len() == 0 {
        Option::None
    } else if ts[0].name@ == n {
        Option::Some(ts[0])
    } else {
        tpl_lookup(ts.drop_first(), n)
    }
}

/// The first entry of the given name in a name-to-node association list.
pub open spec fn assoc_lookup(m: Seq<(String, Node)>, k: Seq<char>) -> Option<Node>
    decreases m.len(),
{
    if m.len() == 0 {
        Option::None
    } else if m[0].0@ == k {
        Option::Some(m[0].1)
    } else {
        assoc_lookup(m.drop_first(), k)
    }
}

/// What following the `parent` pointers from one name yields.
pub enum ChainOut {
    /// The ancestor names, nearest first.
    Done(Seq<Seq<char>>),
    /// A parent name that is not registered.
    Missing(Seq<char>),
    /// A name recurred along the chain, or the walk's fuel ran out before
    /// the chain completed.
    Cycle,
}

/// Walks `parent` pointers from `cur`, with `seen` the names already on the
/// chain; a revisited name is a cycle.
pub open spec fn spec_chain(
    ts: Seq<Template>,
    cur: Seq<char>,
    seen: Seq<Seq<char>>,
    fuel: nat,
) -> ChainOut
    decreases fuel,
{
    if seen.contains(cur) {
        ChainOut::Cycle
    } else {
        match tpl_lookup(ts, cur) {
            Option::None => ChainOut::Missing(cur),
            Option::Some(t) => match t.parent {
                Option::None => ChainOut::Done(seq![cur]),
                Option::Some(p) => if fuel == 0 {
                    ChainOut::Cycle
                } else {
                    match spec_chain(ts, p@, seen.push(cur), (fuel - 1) as nat) {
                        ChainOut::Done(rest) => ChainOut::Done(seq![cur] + rest),
                        other => other,
                    }
                },
            },
        }
    }
}

/// The full ancestor chain of one template, nearest first.
pub open spec fn parents_spec(ts: Seq<Template>, t: Template, fuel: nat) -> ChainOut {
    match t.parent {
        Option::None => ChainOut::Done(Seq::empty()),
        Option::Some(p) => spec_chain(ts, p@, seq![t.name@], fuel),
    }
}

/// Every name on a completed chain is registered.
pub proof fn lemma_chain_all_present(ts: Seq<Template>, cur: Seq<char>, seen: Seq<Seq<char>>, fuel: nat)
    requires
        spec_chain(ts, cur, seen, fuel) is Done,
    ensures
        forall|k: int|
            0 <= k < spec_chain(ts, cur, seen, fuel)->Done_0.len() ==> tpl_lookup(
                ts,
                spec_chain(ts, cur, seen, fuel)->Done_0[k],
            ) is Some,
    decreases fuel,
{
    let c = spec_chain(ts, cur, seen, fuel)->Done_0;
    let t = tpl_lookup(ts, cur)->Some_0;
    match t.parent {
        Option::None => {
            assert(c == seq![cur]);
        },
        Option::Some(p) => {
            lemma_chain_all_present(ts, p@, seen.push(cur), (fuel - 1) as nat);
            let rest = spec_chain(ts, p@, seen.push(cur), (fuel - 1) as nat)->Done_0;
            assert(c == seq![cur] + rest);
            assert forall|k: int| 0 <= k < c.len() implies tpl_lookup(ts, c[k]) is Some by {
                if k == 0 {
                    assert(c[0] == cur);
                } else {
                    assert(c[k] == rest[k - 1]);
                }
            }
        },
    }
}

/// A prefix with no match leaves the first-match lookup unchanged.
pub proof fn lemma_tpl_lookup_skip(ts: Seq<Template>, n: Seq<char>, i: int)
    requires
        0 <= i <= ts.len(),
        forall|k: int| 0 <= k < i ==> ts[k].name@ != n,
    ensures
        tpl_lookup(ts, n) == tpl_lookup(ts.skip(i), n),
    decreases i,
{
    if i > 0 {
        assert(ts[0].name@ != n);
        assert forall|k: int| 0 <= k < i - 1 implies ts.drop_first()[k].name@ != n by {
            assert(ts.drop_first()[k] == ts[k + 1]);
        }
        lemma_tpl_lookup_skip(ts.drop_first(), n, i - 1);
        assert(ts.drop_first().skip(i - 1) =~= ts.skip(i));
    } else {
        assert(ts.skip(0) =~= ts);
    }
}

/// Likewise for block association lists.
pub proof fn lemma_assoc_skip(m: Seq<(String, Node)>, n: Seq<char>, i: int)
    requires
        0 <= i <= m.len(),
        forall|k: int| 0 <= k < i ==> m[k].0@ != n,
    ensures
        assoc_lookup(m, n) == assoc_lookup(m.skip(i), n),
    decreases i,
{
    if i > 0 {
        assert(m[0].0@ != n);
        assert forall|k: int| 0 <= k < i - 1 implies m.drop_first()[k].0@ != n by {
            assert(m.drop_first()[k] == m[k + 1]);
        }
        lemma_assoc_skip(m.drop_first(), n, i - 1);
        assert(m.drop_first().skip(i - 1) =~= m.skip(i));
    } else {
        assert(m.skip(0) =~= m);
    }
}

/// Finds the index of the first registered template of the given name.
pub fn find_tpl(ts: &Vec<Template>, name: &String) -> (r: Option<usize>)
    ensures
        match r {
            Option::Some(i) => i < ts@.len() && ts@[i as int].name@ == name@ && tpl_lookup(
                ts@,
                name@,
            ) == Option::Some(ts@[i as int]),
            Option::None => tpl_lookup(ts@, name@) is None,
        },
{
    let mut i: usize = 0;
    while i < ts.len()
        invariant
            i <= ts@.len(),
            forall|k: int| 0 <= k < i ==> ts@[k].name@ != name@,
        decreases ts@.len() - i,
    {
        if ts[i].name == *name {
            proof {
                lemma_tpl_lookup_skip(ts@, name@, i as int);
                assert(ts@.skip(i as int)[0] == ts@[i as int]);
            }
            return Option::Some(i);
        }
        i = i + 1;
    }
    proof {
        lemma_tpl_lookup_skip(ts@, name@, ts@.len() as int);
        assert(ts@.skip(ts@.len() as int) =~= Seq::<Template>::empty());
    }
    Option::None
}

/// Finds the first entry of the given name in a block association list.
pub fn find_block<'a>(m: &'a Vec<(String, Node)>, name: &String) -> (r: Option<&'a Node>)
    ensures
        match r {
            Option::Some(nd) => assoc_lookup(m@, name@) == Option::Some(*nd),
            Option::None => assoc_lookup(m@, name@) is None,
        },
{
    let mut i: usize = 0;
    while i < m.len()
        invariant
            i <= m@.len(),
            forall|k: int| 0 <= k < i ==> m@[k].0@ != name@,
        decreases m@.len() - i,
    {
        if m[i].0 == *name {
            proof {
                lemma_assoc_skip(m@, name@, i as int);
                assert(m@.skip(i as int)[0] == m@[i as int]);
            }
            return Option::Some(&m[i].1);
        }
        i = i + 1;
    }
    proof {
        lemma_assoc_skip(m@, name@, m@.len() as int);
        assert(m@.skip(m@.len() as int) =~= Seq::<(String, Node)>::empty());
    }
    Option::None
}

/// Whether a run of strings holds one with the given characters.
pub fn names_contains(v: &Vec<String>, x: &String) -> (b: bool)
    ensures
        b == str_views(v@).contains(x@),
{
    let mut i: usize = 0;
    while i < v.len()
        invariant
            i <= v@.len(),
            forall|k: int| 0 <= k < i ==> str_views(v@)[k] != x@,
        decreases v@.len() - i,
    {
        if v[i] == *x {
            proof {
                assert(str_views(v@)[i as int] == x@);
            }
            return true;
        }
        proof {
            assert(str_views(v@)[i as int] == v@[i as int]@);
        }
        i = i + 1;
    }
    false
}

/// Follows `parent` pointers from `t`, collecting ancestor names nearest
/// first; a revisited name fails with `CircularInheritance`, an unregistered
/// parent with `MissingParent`.
#[verifier::loop_isolation(false)]
pub fn compute_parents(ts: &Vec<Template>, t: &Template) -> (r: Result<Vec<String>, Error>)
    ensures
        match r {
            Result::Ok(ps) => parents_spec(ts@, *t, ts@.len() as nat) == ChainOut::Done(
                str_views(ps@),
            ),
            Result::Err(e) => {
                &&& (e is CircularInheritance || e is MissingParent)
                &&& (e is CircularInheritance <==> parents_spec(ts@, *t, ts@.len() as nat)
                    is Cycle)
                &&& (e is MissingParent <==> parents_spec(ts@, *t, ts@.len() as nat) is Missing)
            },
        },
{
    let ghost goal = parents_spec(ts@, *t, ts@.len() as nat);
    let mut chain: Vec<String> = Vec::new();
    let mut seen: Vec<String> = Vec::new();
    seen.push(t.name.clone());
    let mut cur: String;
    match &t.parent {
        Option::None => {
            proof {
                assert(goal == ChainOut::Done(Seq::<Seq<char>>::empty()));
                assert(str_views(chain@) =~= Seq::<Seq<char>>::empty());
            }
            return Ok(chain);
        },
        Option::Some(p) => {
            cur = p.clone();
        },
    }
    let mut fuel: usize = ts.len();
    proof {
        assert(str_views(seen@) =~= seq![t.name@]);
        assert(str_views(chain@) =~= Seq::<Seq<char>>::empty());
        assert(goal == spec_chain(ts@, cur@, str_views(seen@), fuel as nat));
    }
    loop
        invariant
            (match spec_chain(ts@, cur@, str_views(seen@), fuel as nat) {
                ChainOut::Done(rest) => goal == ChainOut::Done(str_views(chain@) + rest),
                ChainOut::Missing(m) => goal == ChainOut::Missing(m),
                ChainOut::Cycle => goal == ChainOut::Cycle,
            }),
        decreases fuel,
    {
        if names_contains(&seen, &cur) {
            proof {
                assert(spec_chain(ts@, cur@, str_views(seen@), fuel as nat) == ChainOut::Cycle);
            }
            return Err(Error::CircularInheritance { name: cur });
        }
        match find_tpl(ts, &cur) {
            Option::None => {
                proof {
                    assert(spec_chain(ts@, cur@, str_views(seen@), fuel as nat)
                        == ChainOut::Missing(cur@));
                }
                return Err(Error::MissingParent { parent: cur });
            },
            Option::Some(i) => {
                let ghost seen0 = seen@;
                let ghost chain0 = chain@;
                let u = &ts[i];
                chain.push(cur.clone());
                proof {
                    assert(str_views(chain@) =~= str_views(chain0).push(cur@));
                }
                match &u.parent {
                    Option::None => {
                        proof {
                            assert(spec_chain(ts@, cur@, str_views(seen0), fuel as nat)
                                == ChainOut::Done(seq![cur@]));
                            assert(str_views(chain0) + seq![cur@] =~= str_views(chain@));
                        }
                        return Ok(chain);
                    },
                    Option::Some(p) => {
                        if fuel == 0 {
                            proof {
                                assert(spec_chain(ts@, cur@, str_views(seen0), fuel as nat)
                                    == ChainOut::Cycle);
                            }
                            return Err(Error::CircularInheritance { name: cur });
                        }
                        seen.push(cur.clone());
                        proof {
                            assert(str_views(seen@) =~= str_views(seen0).push(cur@));
                        }
                        let ghost prev = spec_chain(ts@, cur@, str_views(seen0), fuel as nat);
                        cur = p.clone();
                        fuel = fuel - 1;
                        proof {
                            let next = spec_chain(ts@, cur@, str_views(seen@), fuel as nat);
                            match next {
                                ChainOut::Done(rest) => {
                                    assert(prev == ChainOut::Done(seq![chain@.last()@] + rest));
                                    assert(str_views(chain0) + (seq![chain@.last()@] + rest)
                                        =~= str_views(chain@) + rest);
                                },
                                ChainOut::Missing(_) => {},
                                ChainOut::Cycle => {},
                            }
                        }
                    },
                }
            },
        }
    }
}

/// What one chain member contributes to a block's override sequence.
pub open spec fn chain_contribution(ts: Seq<Template>, name: Seq<char>, b: Seq<char>) -> Seq<
    (Seq<char>, Node),
> {
    match tpl_lookup(ts, name) {
        Option::Some(u) => match assoc_lookup(u.blocks@, b) {
            Option::Some(nd) => seq![(name, nd)],
            Option::None => Seq::empty(),
        },
        Option::None => Seq::empty(),
    }
}

/// The override sequence of block `b` along the chain `rf` (root-most
/// ancestor first, leaf template last).
pub open spec fn defs_for(ts: Seq<Template>, rf: Seq<Seq<char>>, b: Seq<char>) -> Seq<
    (Seq<char>, Node),
>
    decreases rf.len(),
{
    if rf.len() == 0 {
        Seq::empty()
    } else {
        defs_for(ts, rf.drop_last(), b) + chain_contribution(ts, rf.last(), b)
    }
}

/// The keys of a block-definitions table, in order.
pub open spec fn dd_names(s: Seq<(String, Vec<(String, Node)>)>) -> Seq<Seq<char>> {
    s.map_values(|p: (String, Vec<(String, Node)>)| p.0@)
}

/// An association list holds a key exactly when lookup finds it.
pub proof fn lemma_assoc_contains(m: Seq<(String, Node)>, k: Seq<char>)
    ensures
        (assoc_lookup(m, k) is Some) <==> exists|j: int| 0 <= j < m.len() && m[j].0@ == k,
    decreases m.len(),
{
    if m.len() > 0 {
        if m[0].0@ == k {
        } else {
            lemma_assoc_contains(m.drop_first(), k);
            if exists|j: int| 0 <= j < m.len() && m[j].0@ == k {
                let j = choose|j: int| 0 <= j < m.len() && m[j].0@ == k;
                assert(m.drop_first()[j - 1] == m[j]);
            }
            if exists|j: int| 0 <= j < m.drop_first().len() && m.drop_first()[j].0@ == k {
                let j = choose|j: int|
                    0 <= j < m.drop_first().len() && m.drop_first()[j].0@ == k;
                assert(m[j + 1] == m.drop_first()[j]);
            }
        }
    }
}

/// Under distinct registered names, looking a template's own name up finds
/// that template.
pub proof fn lemma_tpl_lookup_self(ts: Seq<Template>, i: int)
    requires
        distinct_names(reg_names(ts)),
        0 <= i < ts.len(),
    ensures
        tpl_lookup(ts, ts[i].name@) == Option::Some(ts[i]),
{
    assert forall|k: int| 0 <= k < i implies ts[k].name@ != ts[i].name@ by {
        assert(reg_names(ts)[k] == ts[k].name@);
        assert(reg_names(ts)[i] == ts[i].name@);
    }
    lemma_tpl_lookup_skip(ts, ts[i].name@, i);
    assert(ts.skip(i)[0] == ts[i]);
}

/// Collects, root-most ancestor first, the block-override table of one
/// chain: each block name defined anywhere on the chain, with its ordered
/// definition sequence.
#[verifier::loop_isolation(false)]
pub fn build_defs(ts: &Vec<Template>, rootfirst: &Vec<String>) -> (defs: Vec<
    (String, Vec<(String, Node)>),
>)
    requires
        forall|k: int| 0 <= k < rootfirst@.len() ==> tpl_lookup(ts@, rootfirst@[k]@) is Some,
    ensures
        distinct_names(dd_names(defs@)),
        forall|x: int|
            0 <= x < defs@.len() ==> pairs_match(
                defs@[x].1@,
                defs_for(ts@, str_views(rootfirst@), defs@[x].0@),
            ),
        forall|k: Seq<char>|
            dd_names(defs@).contains(k) <==> defs_for(ts@, str_views(rootfirst@), k).len() > 0,
{
    let ghost rf = str_views(rootfirst@);
    let mut keys: Vec<String> = Vec::new();
    let mut r: usize = 0;
    proof {
        assert(rf.take(0) =~= Seq::<Seq<char>>::empty());
    }
    while r < rootfirst.len()
        invariant
            r <= rootfirst@.len(),
            distinct_names(str_views(keys@)),
            forall|k: Seq<char>|
                #[trigger] str_views(keys@).contains(k) <==> defs_for(
                    ts@,
                    rf.take(r as int),
                    k,
                ).len() > 0,
        decreases rootfirst@.len() - r,
    {
        let iu = match find_tpl(ts, &rootfirst[r]) {
            Option::Some(i) => i,
            Option::None => {
                proof {
                    assert(false);
                }
                vstd::pervasive::unreached()
            },
        };
        let u = &ts[iu];
        let ghost keys_r = keys@;
        let mut j: usize = 0;
        while j < u.blocks.len()
            invariant
                j <= u.blocks@.len(),
                iu < ts@.len(),
                u == &ts@[iu as int],
                tpl_lookup(ts@, rf[r as int]) == Option::Some(ts@[iu as int]),
                r < rootfirst@.len(),
                distinct_names(str_views(keys@)),
                forall|k: Seq<char>|
                    #[trigger] str_views(keys@).contains(k) <==> (defs_for(
                        ts@,
                        rf.take(r as int),
                        k,
                    ).len() > 0 || (exists|jj: int|
                        0 <= jj < j && u.blocks@[jj].0@ == k)),
            decreases u.blocks@.len() - j,
        {
            let bn = &u.blocks[j].0;
            let ghost keys0 = keys@;
            if !names_contains(&keys, bn) {
                keys.push(bn.clone());
                proof {
                    assert(str_views(keys@) =~= str_views(keys0).push(bn@));
                    assert forall|a: int, b: int|
                        0 <= a < b < str_views(keys@).len() implies str_views(keys@)[a]
                        != str_views(keys@)[b] by {
                        if b < keys0.len() {
                            assert(str_views(keys@)[a] == str_views(keys0)[a]);
                            assert(str_views(keys@)[b] == str_views(keys0)[b]);
                        } else {
                            assert(str_views(keys@)[b] == bn@);
                            assert(str_views(keys@)[a] == str_views(keys0)[a]);
                            if str_views(keys0)[a] == bn@ {
                                assert(str_views(keys0).contains(bn@));
                            }
                        }
                    }
                }
            }
            proof {
                assert(u.blocks@[j as int].0@ == bn@);
                assert forall|k: Seq<char>| #[trigger]
                    str_views(keys@).contains(k) implies (defs_for(ts@, rf.take(r as int), k).len()
                    > 0 || (exists|jj: int| 0 <= jj < j + 1 && u.blocks@[jj].0@ == k)) by {
                    if k == bn@ {
                        assert(u.blocks@[j as int].0@ == k);
                    } else {
                        assert(str_views(keys0).contains(k) || k == bn@);
                    }
                }
                assert forall|k: Seq<char>|
                    (defs_for(ts@, rf.take(r as int), k).len() > 0 || (exists|jj: int|
                        0 <= jj < j + 1 && u.blocks@[jj].0@ == k)) implies #[trigger] str_views(
                    keys@,
                ).contains(k) by {
                    if defs_for(ts@, rf.take(r as int), k).len() > 0 {
                        assert(str_views(keys0).contains(k));
                        let ii = choose|ii: int|
                            0 <= ii < str_views(keys0).len() && str_views(keys0)[ii] == k;
                        assert(str_views(keys@)[ii] == k);
                    } else {
                        let jj = choose|jj: int| 0 <= jj < j + 1 && u.blocks@[jj].0@ == k;
                        if jj < j {
                            assert(str_views(keys0).contains(k));
                            let ii = choose|ii: int|
                                0 <= ii < str_views(keys0).len() && str_views(keys0)[ii] == k;
                            assert(str_views(keys@)[ii] == k);
                        } else {
                            assert(k == bn@);
                            if str_views(keys0).contains(k) {
                                let ii = choose|ii: int|
                                    0 <= ii < str_views(keys0).len() && str_views(keys0)[ii] == k;
                                assert(str_views(keys@)[ii] == k);
                            } else {
                                assert(str_views(keys@).last() == bn@);
                            }
                        }
                    }
                }
            }
            j = j + 1;
        }
        proof {
            assert(rf.take(r + 1).drop_last() =~= rf.take(r as int));
            assert(rf.take(r + 1).last() == rf[r as int]);
            assert forall|k: Seq<char>| #[trigger] str_views(keys@).contains(k) <==> defs_for(
                ts@,
                rf.take(r + 1),
                k,
            ).len() > 0 by {
                lemma_assoc_contains(ts@[iu as int].blocks@, k);
                assert(defs_for(ts@, rf.take(r + 1), k) == defs_for(ts@, rf.take(r as int), k)
                    + chain_contribution(ts@, rf[r as int], k));
            }
        }
        r = r + 1;
    }
    proof {
        assert(rf.take(rootfirst@.len() as int) =~= rf);
    }
    let mut defs: Vec<(String, Vec<(String, Node)>)> = Vec::new();
    let mut x: usize = 0;
    while x < keys.len()
        invariant
            x <= keys@.len(),
            defs@.len() == x,
            forall|y: int| 0 <= y < x ==> defs@[y].0@ == str_views(keys@)[y],
            forall|y: int|
                0 <= y < x ==> pairs_match(defs@[y].1@, defs_for(ts@, rf, defs@[y].0@)),
        decreases keys@.len() - x,
    {
        let key = &keys[x];
        let mut ds: Vec<(String, Node)> = Vec::new();
        let mut r2: usize = 0;
        proof {
            assert(rf.take(0) =~= Seq::<Seq<char>>::empty());
        }
        while r2 < rootfirst.len()
            invariant
                r2 <= rootfirst@.len(),
                x < keys@.len(),
                key == &keys@[x as int],
                pairs_match(ds@, defs_for(ts@, rf.take(r2 as int), key@)),
            decreases rootfirst@.len() - r2,
        {
            let iu = match find_tpl(ts, &rootfirst[r2]) {
                Option::Some(i) => i,
                Option::None => {
                    proof {
                        assert(false);
                    }
                    vstd::pervasive::unreached()
                },
            };
            let u = &ts[iu];
            let ghost ds0 = ds@;
            match find_block(&u.blocks, key) {
                Option::Some(nd) => {
                    let cl = clone_node(nd);
                    ds.push((rootfirst[r2].clone(), cl));
                },
                Option::None => {},
            }
            proof {
                assert(rf.take(r2 + 1).drop_last() =~= rf.take(r2 as int));
                assert(rf.take(r2 + 1).last() == rf[r2 as int]);
                let tailpart = chain_contribution(ts@, rf[r2 as int], key@);
                let whole = defs_for(ts@, rf.take(r2 + 1), key@);
                assert(whole == defs_for(ts@, rf.take(r2 as int), key@) + tailpart);
                assert forall|i: int| 0 <= i < ds@.len() implies ds@[i].0@ == whole[i].0
                    && node_equiv(ds@[i].1, whole[i].1) by {
                    if i < ds0.len() {
                        assert(ds@[i] == ds0[i]);
                        assert(whole[i] == defs_for(ts@, rf.take(r2 as int), key@)[i]);
                    } else {
                        assert(whole[i] == tailpart[i - ds0.len()]);
                    }
                }
            }
            r2 = r2 + 1;
        }
        proof {
            assert(rf.take(rootfirst@.len() as int) =~= rf);
        }
        defs.push((key.clone(), ds));
        x = x + 1;
    }
    proof {
        assert(dd_names(defs@) =~= str_views(keys@)) by {
            assert forall|y: int| 0 <= y < defs@.len() implies dd_names(defs@)[y] == str_views(
                keys@,
            )[y] by {
                assert(dd_names(defs@)[y] == defs@[y].0@);
            }
        }
    }
    defs
}

/// The names of a `(name, source)` item list, in order.
pub open spec fn item_names(items: Seq<(String, String)>) -> Seq<Seq<char>> {
    items.map_values(|p: (String, String)| p.0@)
}

/// The keys of a namespace map, in order.
pub open spec fn ns_names(m: Seq<(String, String)>) -> Seq<Seq<char>> {
    m.map_values(|p: (String, String)| p.0@)
}

/// The namespace map binds `k` to `v`.
pub open spec fn ns_maps_to(m: Seq<(String, String)>, k: Seq<char>, v: Seq<char>) -> bool {
    exists|i: int| 0 <= i < m.len() && m[i].0@ == k && m[i].1@ == v
}

/// The file bound by the last import of namespace `ns`, when there is one.
pub open spec fn last_import(imps: Seq<(String, String)>, ns: Seq<char>) -> Option<Seq<char>>
    decreases imps.len(),
{
    if imps.len() == 0 {
        Option::None
    } else if imps.last().1@ == ns {
        Option::Some(imps.last().0@)
    } else {
        last_import(imps.drop_last(), ns)
    }
}

/// Resolves one template's macro imports: every imported file must be
/// registered, and for each namespace the last import wins.
#[verifier::loop_isolation(false)]
pub fn build_namespaces(ts: &Vec<Template>, imports: &Vec<(String, String)>) -> (r: Result<
    Vec<(String, String)>,
    Error,
>)
    ensures
        match r {
            Result::Ok(m) => {
                &&& distinct_names(ns_names(m@))
                &&& (forall|k: Seq<char>, v: Seq<char>|
                    ns_maps_to(m@, k, v) <==> last_import(imports@, k) == Option::Some(v))
                &&& (forall|j: int|
                    0 <= j < imports@.len() ==> tpl_lookup(ts@, imports@[j].0@) is Some)
            },
            Result::Err(e) => {
                &&& e is MissingMacroFile
                &&& exists|j: int|
                    0 <= j < imports@.len() && tpl_lookup(ts@, imports@[j].0@) is None
            },
        },
{
    let mut m: Vec<(String, String)> = Vec::new();
    let mut i: usize = 0;
    proof {
        assert(imports@.take(0) =~= Seq::<(String, String)>::empty());
    }
    while i < imports.len()
        invariant
            i <= imports@.len(),
            distinct_names(ns_names(m@)),
            forall|k: Seq<char>, v: Seq<char>|
                ns_maps_to(m@, k, v) <==> last_import(imports@.take(i as int), k) == Option::Some(
                    v,
                ),
            forall|j: int| 0 <= j < i ==> tpl_lookup(ts@, imports@[j].0@) is Some,
        decreases imports@.len() - i,
    {
        let file = &imports[i].0;
        let ns = &imports[i].1;
        match find_tpl(ts, file) {
            Option::None => {
                return Err(Error::MissingMacroFile { file: file.clone() });
            },
            Option::Some(_) => {},
        }
        let ghost m0 = m@;
        // remove any earlier binding of this namespace, then bind it anew
        let mut j: usize = 0;
        let mut found: bool = false;
        while j < m.len() && !found
            invariant
                j <= m@.len(),
                !found ==> forall|k: int| 0 <= k < j ==> m@[k].0@ != ns@,
                !found ==> m@ == m0,
                found ==> j < m0.len() && m0[j as int].0@ == ns@ && m@ =~= m0.remove(j as int),
            decreases m@.len() - j + (if found { 0int } else { 1int }),
        {
            if m[j].0 == *ns {
                m.remove(j);
                found = true;
            } else {
                j = j + 1;
            }
        }
        m.push((ns.clone(), file.clone()));
        proof {
            assert(imports@.take(i + 1).drop_last() =~= imports@.take(i as int));
            assert(imports@.take(i + 1).last() == imports@[i as int]);
            let mi = m@;
            // distinctness of the keys
            assert forall|a: int, b: int|
                0 <= a < b < ns_names(mi).len() implies ns_names(mi)[a] != ns_names(mi)[b] by {
                if found {
                    if b < mi.len() - 1 {
                        let a0: int = if a < j { a } else { a + 1 };
                        let b0: int = if b < j { b } else { b + 1 };
                        assert(mi[a] == m0[a0]);
                        assert(mi[b] == m0[b0]);
                        assert(ns_names(m0)[a0] != ns_names(m0)[b0]);
                    } else {
                        let a0: int = if a < j { a } else { a + 1 };
                        assert(mi[a] == m0[a0]);
                        assert(mi[b].0@ == ns@);
                        if m0[a0].0@ == ns@ {
                            assert(ns_names(m0)[a0] == ns@);
                            assert(ns_names(m0)[j as int] == ns@);
                            if a0 != j {
                                assert(false);
                            }
                        }
                    }
                } else {
                    if b < mi.len() - 1 {
                        assert(mi[a] == m0[a]);
                        assert(mi[b] == m0[b]);
                        assert(ns_names(m0)[a] != ns_names(m0)[b]);
                    } else {
                        assert(mi[a] == m0[a]);
                        assert(mi[b].0@ == ns@);
                        assert(ns_names(m0)[a] != ns@);
                    }
                }
            }
            // the binding relation
            assert forall|k: Seq<char>, v: Seq<char>| ns_maps_to(mi, k, v) implies last_import(
                imports@.take(i + 1),
                k,
            ) == Option::Some(v) by {
                let ii = choose|ii: int| 0 <= ii < mi.len() && mi[ii].0@ == k && mi[ii].1@ == v;
                if ii == mi.len() - 1 {
                    assert(k == ns@ && v == file@);
                } else {
                    let i0: int = if found && ii >= j { ii + 1 } else { ii };
                    assert(mi[ii] == m0[i0]);
                    assert(ns_maps_to(m0, k, v));
                    if found {
                        assert(ns_names(m0)[i0] == k);
                        assert(ns_names(m0)[j as int] == ns@);
                        assert(i0 != j);
                        assert(k != ns@);
                    } else {
                        assert(k != ns@);
                    }
                }
            }
            assert forall|k: Seq<char>, v: Seq<char>|
                last_import(imports@.take(i + 1), k) == Option::Some(v) implies ns_maps_to(
                mi,
                k,
                v,
            ) by {
                if k == ns@ {
                    assert(mi[mi.len() - 1].0@ == k && mi[mi.len() - 1].1@ == v);
                } else {
                    assert(last_import(imports@.take(i as int), k) == Option::Some(v));
                    assert(ns_maps_to(m0, k, v));
                    let ii = choose|ii: int|
                        0 <= ii < m0.len() && m0[ii].0@ == k && m0[ii].1@ == v;
                    if found {
                        assert(ii != j);
                        let i1: int = if ii < j { ii } else { ii - 1 };
                        assert(mi[i1] == m0[ii]);
                    } else {
                        assert(mi[ii] == m0[ii]);
                    }
                }
            }
        }
        i = i + 1;
    }
    proof {
        assert(imports@.take(imports@.len() as int) =~= imports@);
    }
    Ok(m)
}

/// Every template's chain completes and every imported file is registered.
pub open spec fn all_resolvable(ts: Seq<Template>) -> bool {
    &&& forall|i: int| 0 <= i < ts.len() ==> parents_spec(ts, ts[i], ts.len() as nat) is Done
    &&& forall|i: int, j: int|
        0 <= i < ts.len() && 0 <= j < ts[i].imported_macro_files@.len() ==> tpl_lookup(
            ts,
            ts[i].imported_macro_files@[j].0@,
        ) is Some
}

/// How one resolved template relates to its pre-resolve form `t0` within
/// the pre-resolve registry `ts0`.
pub open spec fn resolved_tpl(ts0: Seq<Template>, t0: Template, t1: Template) -> bool {
    &&& t1.name == t0.name
    &&& t1.path == t0.path
    &&& t1.ast == t0.ast
    &&& t1.macros == t0.macros
    &&& t1.imported_macro_files == t0.imported_macro_files
    &&& t1.parent == t0.parent
    &&& t1.blocks == t0.blocks
    &&& parents_spec(ts0, t0, ts0.len() as nat) == ChainOut::Done(str_views(t1.parents@))
    &&& {
        let rf = (seq![t0.name@] + str_views(t1.parents@)).reverse();
        &&& distinct_names(dd_names(t1.blocks_definitions@))
        &&& (forall|x: int|
            0 <= x < t1.blocks_definitions@.len() ==> pairs_match(
                t1.blocks_definitions@[x].1@,
                defs_for(ts0, rf, t1.blocks_definitions@[x].0@),
            ))
        &&& (forall|k: Seq<char>|
            dd_names(t1.blocks_definitions@).contains(k) <==> defs_for(ts0, rf, k).len() > 0)
    }
    &&& distinct_names(ns_names(t1.macro_namespaces@))
    &&& (forall|k: Seq<char>, v: Seq<char>|
        ns_maps_to(t1.macro_namespaces@, k, v) <==> last_import(t0.imported_macro_files@, k)
            == Option::Some(v))
}

/// Owns every `Template` by name. Registration and resolution run before
/// the registry is shared; once `resolved`, it is read-only and any number
/// of renders may walk it, each with its own context and output.
#[derive(Debug)]
pub struct Registry {
    /// The registered templates, names unique, in registration order.
    pub templates: Vec<Template>,
    /// Set by a successful `resolve`; rendering demands it.
    pub resolved: bool,
}

impl Registry {
    /// Registered names are unique and every template passed analysis.
    pub open spec fn wf(self) -> bool {
        &&& distinct_names(reg_names(self.templates@))
        &&& forall|i: int| 0 <= i < self.templates@.len() ==> self.templates@[i].analyzed()
    }

    /// An empty, unresolved registry.
    pub fn new() -> (r: Registry)
        ensures
            r.wf(),
            !r.resolved,
            r.templates@.len() == 0,
    {
        let r = Registry { templates: Vec::new(), resolved: false };
        proof {
            assert(reg_names(r.templates@) =~= Seq::<Seq<char>>::empty());
        }
        r
    }

    /// Parses and registers one `(name, source)` pair. A name already
    /// registered fails with `DuplicateTemplate`, and only such a name
    /// does; a fresh name with an empty or brace-free source is owed
    /// success, and the registered template is then the literal-text
    /// template `Template::new` promises.
    pub fn register(&mut self, name: &str, source: &str) -> (r: Result<(), Error>)
        requires
            old(self).wf(),
        ensures
            final(self).wf(),
            final(self).resolved == false,
            match r {
                Result::Ok(_) => {
                    &&& final(self).templates@.len() == old(self).templates@.len() + 1
                    &&& final(self).templates@.subrange(0, old(self).templates@.len() as int)
                        == old(self).templates@
                    &&& final(self).templates@.last().name@ == name@
                    &&& final(self).templates@.last().analyzed()
                    &&& final(self).templates@.last().parents@.len() == 0
                    &&& final(self).templates@.last().blocks_definitions@.len() == 0
                },
                Result::Err(e) => {
                    &&& final(self).templates@ == old(self).templates@
                    &&& (e is SyntaxError || e is DuplicateBlock || e is DuplicateMacro
                        || e is DuplicateExtends || e is DuplicateTemplate)
                },
            },
            r is Ok ==> tpl_lookup(old(self).templates@, name@) is None,
            r is Err ==> (r->Err_0 is DuplicateTemplate <==> tpl_lookup(
                old(self).templates@,
                name@,
            ) is Some),
            (tpl_lookup(old(self).templates@, name@) is None && (source@.len() == 0
                || brace_free(source@))) ==> (r is Ok && {
                let t = final(self).templates@.last();
                &&& t.parent is None
                &&& t.imported_macro_files@.len() == 0
                &&& (source@.len() == 0 ==> root_body(t.ast).len() == 0)
                &&& (source@.len() > 0 ==> root_body(t.ast).len() == 1 && (root_body(
                    t.ast,
                )[0] matches Node::Text(x) && x@ == source@))
            }),
    {
        self.resolved = false;
        let owned = name.to_owned();
        match find_tpl(&self.templates, &owned) {
            Option::Some(_) => {
                return Err(Error::DuplicateTemplate { name: owned });
            },
            Option::None => {},
        }
        let t = match Template::new(name, Option::None, source) {
            Result::Ok(t) => t,
            Result::Err(e) => { return Err(e) },
        };
        let ghost ts0 = self.templates@;
        proof {
            lemma_assoc_like_names(ts0, name@);
        }
        self.templates.push(t);
        proof {
            assert(self.templates@.subrange(0, ts0.len() as int) =~= ts0);
            assert forall|a: int, b: int|
                0 <= a < b < reg_names(self.templates@).len() implies reg_names(
                self.templates@,
            )[a] != reg_names(self.templates@)[b] by {
                if b < ts0.len() {
                    assert(reg_names(self.templates@)[a] == reg_names(ts0)[a]);
                    assert(reg_names(self.templates@)[b] == reg_names(ts0)[b]);
                } else {
                    assert(reg_names(self.templates@)[b] == name@);
                    assert(reg_names(self.templates@)[a] == reg_names(ts0)[a]);
                }
            }
        }
        Ok(())
    }

    /// Registers many `(name, source)` pairs in order. A failing file stops
    /// registration there; files before it stay registered. Success is owed
    /// when the given names, together with the names already registered,
    /// are all distinct and every source is empty or brace-free.
    #[verifier::loop_isolation(false)]
    pub fn register_many(&mut self, items: &Vec<(String, String)>) -> (r: Result<(), Error>)
        requires
            old(self).wf(),
        ensures
            final(self).wf(),
            final(self).resolved == false,
            r is Ok ==> {
                &&& final(self).templates@.len() == old(self).templates@.len() + items@.len()
                &&& final(self).templates@.subrange(0, old(self).templates@.len() as int) == old(
                    self,
                ).templates@
                &&& forall|i: int|
                    0 <= i < items@.len() ==> final(self).templates@[old(self).templates@.len()
                        + i].name@ == items@[i].0@
            },
            r is Err ==> {
                let e = r->Err_0;
                e is SyntaxError || e is DuplicateBlock || e is DuplicateMacro
                    || e is DuplicateExtends || e is DuplicateTemplate
            },
            (distinct_names(reg_names(old(self).templates@) + item_names(items@)) && (forall|
                i: int,
            |
                0 <= i < items@.len() ==> (items@[i].1@.len() == 0 || brace_free(
                    items@[i].1@,
                )))) ==> r is Ok,
    {
        let ghost ts0 = self.templates@;
        let ghost owed = distinct_names(reg_names(ts0) + item_names(items@)) && (forall|i: int|
            0 <= i < items@.len() ==> (items@[i].1@.len() == 0 || brace_free(items@[i].1@)));
        let mut i: usize = 0;
        while i < items.len()
            invariant
                i <= items@.len(),
                self.wf(),
                self.templates@.len() == ts0.len() + i,
                self.templates@.subrange(0, ts0.len() as int) == ts0,
                forall|k: int|
                    0 <= k < i ==> self.templates@[ts0.len() + k].name@ == items@[k].0@,
            decreases items@.len() - i,
        {
            let ghost before = self.templates@;
            proof {
                if owed {
                    let combined = reg_names(ts0) + item_names(items@);
                    assert forall|k: int|
                        0 <= k < self.templates@.len() implies self.templates@[k].name@
                        != items@[i as int].0@ by {
                        assert(combined[ts0.len() + i] == items@[i as int].0@);
                        if k < ts0.len() {
                            assert(self.templates@[k] == self.templates@.subrange(
                                0,
                                ts0.len() as int,
                            )[k]);
                            assert(self.templates@[k].name@ == combined[k]);
                        } else {
                            assert(self.templates@[k].name@ == items@[k - ts0.len()].0@);
                            assert(combined[k] == item_names(items@)[k - ts0.len()]);
                            assert(self.templates@[k].name@ == combined[k]);
                        }
                    }
                    lemma_tpl_lookup_skip(
                        self.templates@,
                        items@[i as int].0@,
                        self.templates@.len() as int,
                    );
                    assert(self.templates@.skip(self.templates@.len() as int)
                        =~= Seq::<Template>::empty());
                    assert(tpl_lookup(self.templates@, items@[i as int].0@) is None);
                }
            }
            let rr = self.register(items[i].0.as_str(), items[i].1.as_str());
            match rr {
                Result::Ok(_) => {
                    proof {
                        assert(self.templates@.subrange(0, ts0.len() as int) =~= before.subrange(
                            0,
                            ts0.len() as int,
                        ));
                        assert forall|k: int|
                            0 <= k < i + 1 implies self.templates@[ts0.len() + k].name@
                            == items@[k].0@ by {
                            if k < i {
                                assert(self.templates@[ts0.len() + k] == before.subrange(
                                    0,
                                    before.len() as int,
                                )[ts0.len() + k]);
                                assert(self.templates@[ts0.len() + k] == before[ts0.len() + k]);
                            }
                        }
                    }
                },
                Result::Err(e) => {
                    proof {
                        if owed {
                            assert(false);
                        }
                    }
                    return Err(e);
                },
            }
            i = i + 1;
        }
        self.resolved = false;
        Ok(())
    }

    /// Fetches a registered template by name.
    pub fn get(&self, name: &str) -> (r: Option<&Template>)
        ensures
            match r {
                Option::Some(t) => tpl_lookup(self.templates@, name@) == Option::Some(*t),
                Option::None => tpl_lookup(self.templates@, name@) is None,
            },
    {
        let owned = name.to_owned();
        match find_tpl(&self.templates, &owned) {
            Option::Some(i) => Option::Some(&self.templates[i]),
            Option::None => Option::None,
        }
    }

    /// The cross-file resolve pass, run once after registration: fills
    /// `parents`, `blocks_definitions` and `macro_namespaces` of every
    /// template. All-or-nothing: on failure the registry keeps its
    /// pre-resolve state unchanged.
    #[verifier::loop_isolation(false)]
    pub fn resolve(&mut self) -> (r: Result<(), Error>)
        requires
            old(self).wf(),
        ensures
            final(self).wf(),
            r is Ok <==> all_resolvable(old(self).templates@),
            r is Ok ==> {
                &&& final(self).resolved
                &&& final(self).templates@.len() == old(self).templates@.len()
                &&& forall|i: int|
                    0 <= i < old(self).templates@.len() ==> resolved_tpl(
                        old(self).templates@,
                        old(self).templates@[i],
                        final(self).templates@[i],
                    )
            },
            r is Err ==> {
                let e = r->Err_0;
                &&& *final(self) == *old(self)
                &&& (e is CircularInheritance || e is MissingParent || e is MissingMacroFile)
                &&& (e is CircularInheritance ==> exists|i: int|
                    0 <= i < old(self).templates@.len() && parents_spec(
                        old(self).templates@,
                        old(self).templates@[i],
                        old(self).templates@.len() as nat,
                    ) is Cycle)
                &&& (e is MissingParent ==> exists|i: int|
                    0 <= i < old(self).templates@.len() && parents_spec(
                        old(self).templates@,
                        old(self).templates@[i],
                        old(self).templates@.len() as nat,
                    ) is Missing)
                &&& (e is MissingMacroFile ==> exists|i: int, j: int|
                    0 <= i < old(self).templates@.len() && 0 <= j
                        < old(self).templates@[i].imported_macro_files@.len() && tpl_lookup(
                        old(self).templates@,
                        old(self).templates@[i].imported_macro_files@[j].0@,
                    ) is None)
            },
    {
        let ghost ts0 = self.templates@;
        let n = self.templates.len();
        let mut extras: Vec<(Vec<String>, Vec<(String, Vec<(String, Node)>)>, Vec<(String, String)>)>
            = Vec::new();
        let mut i: usize = 0;
        while i < n
            invariant
                i <= n,
                n == ts0.len(),
                self.templates@ == ts0,
                extras@.len() == i,
                forall|y: int|
                    0 <= y < i ==> parents_spec(ts0, ts0[y], ts0.len() as nat) == ChainOut::Done(
                        str_views(extras@[y].0@),
                    ),
                forall|y: int|
                    #![trigger extras@[y]]
                    0 <= y < i ==> {
                        let rf = (seq![ts0[y].name@] + str_views(extras@[y].0@)).reverse();
                        &&& distinct_names(dd_names(extras@[y].1@))
                        &&& (forall|x: int|
                            0 <= x < extras@[y].1@.len() ==> pairs_match(
                                extras@[y].1@[x].1@,
                                defs_for(ts0, rf, extras@[y].1@[x].0@),
                            ))
                        &&& (forall|k: Seq<char>|
                            dd_names(extras@[y].1@).contains(k) <==> defs_for(ts0, rf, k).len()
                                > 0)
                    },
                forall|y: int|
                    0 <= y < i ==> {
                        &&& distinct_names(ns_names(extras@[y].2@))
                        &&& (forall|k: Seq<char>, v: Seq<char>|
                            ns_maps_to(extras@[y].2@, k, v) <==> last_import(
                                ts0[y].imported_macro_files@,
                                k,
                            ) == Option::Some(v))
                        &&& (forall|j: int|
                            0 <= j < ts0[y].imported_macro_files@.len() ==> tpl_lookup(
                                ts0,
                                ts0[y].imported_macro_files@[j].0@,
                            ) is Some)
                    },
            decreases n - i,
        {
            let t = &self.templates[i];
            let parents = match compute_parents(&self.templates, t) {
                Result::Ok(ps) => ps,
                Result::Err(e) => {
                    return Err(e);
                },
            };
            // the whole chain, leaf first, then reversed to root first
            let mut full: Vec<String> = Vec::new();
            full.push(t.name.clone());
            let mut k: usize = 0;
            while k < parents.len()
                invariant
                    k <= parents@.len(),
                    full@.len() == 1 + k,
                    full@[0]@ == ts0[i as int].name@,
                    forall|y: int| 0 <= y < k ==> full@[1 + y]@ == parents@[y]@,
                decreases parents@.len() - k,
            {
                full.push(parents[k].clone());
                k = k + 1;
            }
            let mut rootfirst: Vec<String> = Vec::new();
            let mut k2: usize = full.len();
            while k2 > 0
                invariant
                    k2 <= full@.len(),
                    rootfirst@.len() == full@.len() - k2,
                    forall|y: int|
                        0 <= y < rootfirst@.len() ==> rootfirst@[y]@ == full@[full@.len() - 1
                            - y]@,
                decreases k2,
            {
                k2 = k2 - 1;
                rootfirst.push(full[k2].clone());
            }
            proof {
                let chain = str_views(parents@);
                assert(parents_spec(ts0, ts0[i as int], ts0.len() as nat) == ChainOut::Done(
                    chain,
                ));
                let rf = (seq![ts0[i as int].name@] + chain).reverse();
                assert(str_views(rootfirst@) =~= rf) by {
                    assert forall|y: int|
                        0 <= y < rootfirst@.len() implies str_views(rootfirst@)[y] == rf[y] by {
                        let fl = seq![ts0[i as int].name@] + chain;
                        assert(str_views(rootfirst@)[y] == rootfirst@[y]@);
                        assert(rf[y] == fl[fl.len() - 1 - y]);
                        if full@.len() - 1 - y == 0 {
                            assert(rootfirst@[y]@ == full@[0]@);
                        } else {
                            assert(full@[full@.len() - 1 - y]@ == parents@[full@.len() - 2
                                - y]@);
                        }
                    }
                }
                // every chain name is registered, so build_defs may look each up
                match ts0[i as int].parent {
                    Option::None => {
                        assert(chain.len() == 0);
                    },
                    Option::Some(p) => {
                        lemma_chain_all_present(
                            ts0,
                            p@,
                            seq![ts0[i as int].name@],
                            ts0.len() as nat,
                        );
                    },
                }
                lemma_tpl_lookup_self(ts0, i as int);
                assert forall|y: int|
                    0 <= y < rootfirst@.len() implies tpl_lookup(ts0, rootfirst@[y]@) is Some by {
                    assert(str_views(rootfirst@)[y] == rf[y]);
                    let fl = seq![ts0[i as int].name@] + chain;
                    assert(rf[y] == fl[fl.len() - 1 - y]);
                    if fl.len() - 1 - y == 0 {
                        assert(fl[0] == ts0[i as int].name@);
                    } else {
                        assert(fl[fl.len() - 1 - y] == chain[fl.len() - 2 - y]);
                    }
                }
            }
            let defs = build_defs(&self.templates, &rootfirst);
            let nsmap = match build_namespaces(&self.templates, &t.imported_macro_files) {
                Result::Ok(m) => m,
                Result::Err(e) => {
                    return Err(e);
                },
            };
            extras.push((parents, defs, nsmap));
            i = i + 1;
        }
        // commit: move each template out, fill the three resolved fields
        let ghost extras0 = extras@;
        let mut new_ts: Vec<Template> = Vec::new();
        let mut c: usize = 0;
        while c < n
            invariant
                c <= n,
                n == ts0.len(),
                extras0.len() == n,
                new_ts@.len() == c,
                self.templates@ =~= ts0.skip(c as int),
                extras@ =~= extras0.skip(c as int),
                forall|y: int|
                    0 <= y < c ==> resolved_tpl(ts0, ts0[y], new_ts@[y]) && new_ts@[y].analyzed()
                        && new_ts@[y].name@ == ts0[y].name@,
            decreases n - c,
        {
            let t = self.templates.remove(0);
            let (ps, ds, nsm) = extras.remove(0);
            proof {
                assert(t == ts0[c as int]);
            }
            let t1 = Template {
                name: t.name,
                path: t.path,
                ast: t.ast,
                macros: t.macros,
                imported_macro_files: t.imported_macro_files,
                parent: t.parent,
                blocks: t.blocks,
                parents: ps,
                blocks_definitions: ds,
                macro_namespaces: nsm,
            };
            new_ts.push(t1);
            proof {
                assert(self.templates@ =~= ts0.skip(c + 1));
                assert(extras@ =~= extras0.skip(c + 1));
            }
            c = c + 1;
        }
        self.templates = new_ts;
        self.resolved = true;
        proof {
            assert(reg_names(self.templates@) =~= reg_names(ts0)) by {
                assert forall|y: int|
                    0 <= y < self.templates@.len() implies reg_names(self.templates@)[y]
                    == reg_names(ts0)[y] by {
                    assert(reg_names(self.templates@)[y] == self.templates@[y].name@);
                }
            }
            assert forall|y: int|
                0 <= y < self.templates@.len() implies self.templates@[y].analyzed() by {
                assert(self.templates@[y] == new_ts@[y]);
                assert(resolved_tpl(ts0, ts0[y], new_ts@[y]) && new_ts@[y].analyzed());
            }
            assert(all_resolvable(ts0)) by {
                assert forall|y: int|
                    0 <= y < ts0.len() implies parents_spec(ts0, ts0[y], ts0.len() as nat)
                    is Done by {
                    assert(parents_spec(ts0, ts0[y], ts0.len() as nat) == ChainOut::Done(
                        str_views(extras0[y].0@),
                    ));
                }
            }
        }
        Ok(())
    }
}

/// A template with no `extends` resolves to itself alone: its ancestor
/// chain is empty, and every block's override sequence holds exactly the
/// template's own definition of that block — nothing of any other
/// registered template becomes visible through resolution.
pub proof fn lemma_no_extends_self_contained(
    ts: Seq<Template>,
    t: Template,
    fuel: nat,
    b: Seq<char>,
)
    requires
        t.parent is None,
        tpl_lookup(ts, t.name@) == Option::Some(t),
    ensures
        parents_spec(ts, t, fuel) == ChainOut::Done(Seq::<Seq<char>>::empty()),
        defs_for(ts, seq![t.name@], b) == match assoc_lookup(t.blocks@, b) {
            Option::Some(nd) => seq![(t.name@, nd)],
            Option::None => Seq::<(Seq<char>, Node)>::empty(),
        },
{
    let rf = seq![t.name@];
    assert(rf.drop_last() =~= Seq::<Seq<char>>::empty());
    assert(rf.last() == t.name@);
    assert(defs_for(ts, rf.drop_last(), b) == Seq::<(Seq<char>, Node)>::empty());
    match assoc_lookup(t.blocks@, b) {
        Option::Some(nd) => {
            assert(chain_contribution(ts, t.name@, b) == seq![(t.name@, nd)]);
            assert(Seq::<(Seq<char>, Node)>::empty() + seq![(t.name@, nd)] =~= seq![
                (t.name@, nd),
            ]);
        },
        Option::None => {
            assert(chain_contribution(ts, t.name@, b) == Seq::<(Seq<char>, Node)>::empty());
            assert(Seq::<(Seq<char>, Node)>::empty() + Seq::<(Seq<char>, Node)>::empty()
                =~= Seq::<(Seq<char>, Node)>::empty());
        },
    }
}

/// Two templates that each extend the other can never resolve: following
/// the chain from either one revisits a name, whatever the fuel, so the
/// walk reports a cycle — it cannot loop. With `resolve`'s contract this
/// pins the failure: in a registry whose chains only cycle, `resolve`
/// returns `CircularInheritance` and leaves the registry unresolved.
pub proof fn lemma_mutual_extends_cycle(ts: Seq<Template>, a: Template, b: Template, fuel: nat)
    requires
        tpl_lookup(ts, a.name@) == Option::Some(a),
        tpl_lookup(ts, b.name@) == Option::Some(b),
        a.parent is Some && a.parent->0@ == b.name@,
        b.parent is Some && b.parent->0@ == a.name@,
        a.name@ != b.name@,
    ensures
        parents_spec(ts, a, fuel) is Cycle,
        parents_spec(ts, b, fuel) is Cycle,
    decreases fuel,
{
    let s0 = seq![a.name@];
    assert(!s0.contains(b.name@)) by {
        assert forall|i: int| 0 <= i < s0.len() implies s0[i] != b.name@ by {
            assert(s0[0] == a.name@);
        }
    }
    if fuel > 0 {
        let s1 = s0.push(b.name@);
        assert(s1.contains(a.name@)) by {
            assert(s1[0] == a.name@);
        }
        assert(spec_chain(ts, a.name@, s1, (fuel - 1) as nat) == ChainOut::Cycle);
    }
    assert(spec_chain(ts, b.name@, s0, fuel) is Cycle);
    let r0 = seq![b.name@];
    assert(!r0.contains(a.name@)) by {
        assert forall|i: int| 0 <= i < r0.len() implies r0[i] != a.name@ by {
            assert(r0[0] == b.name@);
        }
    }
    if fuel > 0 {
        let r1 = r0.push(a.name@);
        assert(r1.contains(b.name@)) by {
            assert(r1[0] == b.name@);
        }
        assert(spec_chain(ts, b.name@, r1, (fuel - 1) as nat) == ChainOut::Cycle);
    }
    assert(spec_chain(ts, a.name@, r0, fuel) is Cycle);
}

/// Nothing in a run of registered names changes when one more, different
/// name is considered: a small helper for `register`'s distinctness proof.
proof fn lemma_assoc_like_names(ts: Seq<Template>, n: Seq<char>)
    requires
        tpl_lookup(ts, n) is None,
    ensures
        forall|k: int| 0 <= k < ts.len() ==> reg_names(ts)[k] != n,
    decreases ts.len(),
{
    if ts.len() > 0 {
        lemma_assoc_like_names(ts.drop_first(), n);
        assert forall|k: int| 0 <= k < ts.len() implies reg_names(ts)[k] != n by {
            if k > 0 {
                assert(reg_names(ts.drop_first())[k - 1] == ts.drop_first()[k - 1].name@);
                assert(ts.drop_first()[k - 1] == ts[k]);
            }
        }
    }
}

} // verus!
