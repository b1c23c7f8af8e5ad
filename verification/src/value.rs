//! The value model the renderer evaluates against, and the caller-supplied
//! `Context` that roots one render call's data. A host adapter converts its
//! own data into `Value`s before inserting them.

use vstd::prelude::*;

verus! {

/// The internal tagged data model.
#[derive(Debug)]
pub enum Value {
    /// The absent/empty value; an undefined lookup yields it in lenient
    /// mode, and it renders as nothing.
    Null,
    Bool(bool),
    Int(i64),
    /// Ordinary text, subject to the escaping policy on output.
    Str(String),
    /// Text explicitly marked safe: output without escaping.
    Safe(String),
    List(Vec<Value>),
    /// Ordered key-value pairs; lookup takes the first match.
    Object(Vec<(String, Value)>),
}

/// Structural equivalence of values: equal shape, equal string views.
pub open spec fn value_equiv(a: Value, b: Value) -> bool
    decreases a,
{
    match (a, b) {
        (Value::Null, Value::Null) => true,
        (Value::Bool(x), Value::Bool(y)) => x == y,
        (Value::Int(x), Value::Int(y)) => x == y,
        (Value::Str(x), Value::Str(y)) => x@ == y@,
        (Value::Safe(x), Value::Safe(y)) => x@ == y@,
        (Value::List(x), Value::List(y)) => x@.len() == y@.len() && (forall|i: int|
            0 <= i < x@.len() ==> value_equiv(x@[i], y@[i])),
        (Value::Object(x), Value::Object(y)) => x@.len() == y@.len() && (forall|i: int|
            0 <= i < x@.len() ==> x@[i].0@ == y@[i].0@ && value_equiv(x@[i].1, y@[i].1)),
        _ => false,
    }
}

/// A deep copy, structurally equivalent to the original.
#[verifier::loop_isolation(false)]
pub fn clone_value(v: &Value) -> (r: Value)
    ensures
        value_equiv(r, *v),
    decreases v,
{
    match v {
        Value::Null => Value::Null,
        Value::Bool(b) => Value::Bool(*b),
        Value::Int(i) => Value::Int(*i),
        Value::Str(s) => Value::Str(s.clone()),
        Value::Safe(s) => Value::Safe(s.clone()),
        Value::List(items) => {
            let mut out: Vec<Value> = Vec::new();
            let mut i: usize = 0;
            while i < items.len()
                invariant
                    i <= items@.len(),
                    out@.len() == i,
                    forall|k: int| 0 <= k < i ==> value_equiv(out@[k], items@[k]),
                decreases items@.len() - i,
            {
                out.push(clone_value(&items[i]));
                i = i + 1;
            }
            Value::List(out)
        },
        Value::Object(fields) => {
            let mut out: Vec<(String, Value)> = Vec::new();
            let mut i: usize = 0;
            while i < fields.len()
                invariant
                    i <= fields@.len(),
                    out@.len() == i,
                    forall|k: int|
                        0 <= k < i ==> out@[k].0@ == fields@[k].0@ && value_equiv(
                            out@[k].1,
                            fields@[k].1,
                        ),
                decreases fields@.len() - i,
            {
                let f = &fields[i];
                out.push((f.0.clone(), clone_value(&f.1)));
                i = i + 1;
            }
            Value::Object(out)
        },
    }
}

/// Whether a value counts as true in a condition: `Null` and `false` are
/// false; numbers are true unless zero; text and collections are true
/// unless empty.
pub open spec fn spec_truthy(v: Value) -> bool {
    match v {
        Value::Null => false,
        Value::Bool(b) => b,
        Value::Int(i) => i != 0,
        Value::Str(s) => s@.len() > 0,
        Value::Safe(s) => s@.len() > 0,
        Value::List(items) => items@.len() > 0,
        Value::Object(fields) => fields@.len() > 0,
    }
}

pub fn truthy(v: &Value) -> (r: bool)
    ensures
        r == spec_truthy(*v),
{
    match v {
        Value::Null => false,
        Value::Bool(b) => *b,
        Value::Int(i) => *i != 0,
        Value::Str(s) => s.unicode_len() > 0,
        Value::Safe(s) => s.unicode_len() > 0,
        Value::List(items) => items.len() > 0,
        Value::Object(fields) => fields.len() > 0,
    }
}

/// The first value bound to `k` in an ordered field list.
pub open spec fn val_lookup(m: Seq<(String, Value)>, k: Seq<char>) -> Option<Value>
    decreases m.len(),
{
    if m.len() == 0 {
        Option::None
    } else if m[0].0@ == k {
        Option::Some(m[0].1)
    } else {
        val_lookup(m.drop_first(), k)
    }
}

/// Finds the first binding of `k` in an ordered field list.
pub fn find_val<'a>(m: &'a Vec<(String, Value)>, k: &String) -> (r: Option<&'a Value>)
    ensures
        match r {
            Option::Some(v) => val_lookup(m@, k@) == Option::Some(*v),
            Option::None => val_lookup(m@, k@) is None,
        },
{
    let mut i: usize = 0;
    while i < m.len()
        invariant
            i <= m@.len(),
            forall|t: int| 0 <= t < i ==> m@[t].0@ != k@,
        decreases m@.len() - i,
    {
        if m[i].0 == *k {
            proof {
                lemma_val_lookup_skip(m@, k@, i as int);
                assert(m@.skip(i as int)[0] == m@[i as int]);
            }
            return Option::Some(&m[i].1);
        }
        i = i + 1;
    }
    proof {
        lemma_val_lookup_skip(m@, k@, m@.len() as int);
        assert(m@.skip(m@.len() as int) =~= Seq::<(String, Value)>::empty());
    }
    Option::None
}

pub proof fn lemma_val_lookup_skip(m: Seq<(String, Value)>, k: Seq<char>, i: int)
    requires
        0 <= i <= m.len(),
        forall|t: int| 0 <= t < i ==> m[t].0@ != k,
    ensures
        val_lookup(m, k) == val_lookup(m.skip(i), k),
    decreases i,
{
    if i > 0 {
        assert(m[0].0@ != k);
        assert forall|t: int| 0 <= t < i - 1 implies m.drop_first()[t].0@ != k by {
            assert(m.drop_first()[t] == m[t + 1]);
        }
        lemma_val_lookup_skip(m.drop_first(), k, i - 1);
        assert(m.drop_first().skip(i - 1) =~= m.skip(i));
    } else {
        assert(m.skip(0) =~= m);
    }
}

/// The caller-supplied root data scope for one render call, together with
/// the call's policies.
#[derive(Debug)]
pub struct Context {
    /// The root bindings, newest first.
    pub data: Vec<(String, Value)>,
    /// Strict mode fails an undefined variable lookup with
    /// `UndefinedVariable`; lenient mode (the default) evaluates it to
    /// `Null`.
    pub strict: bool,
    /// Whether `Str` output is HTML-escaped; on by default, and `Safe`
    /// values always bypass it.
    pub autoescape: bool,
}

impl Context {
    /// An empty context: lenient lookup, escaping on.
    pub fn new() -> (r: Context)
        ensures
            r.data@.len() == 0,
            !r.strict,
            r.autoescape,
    {
        Context { data: Vec::new(), strict: false, autoescape: true }
    }

    /// An empty context whose undefined lookups fail.
    pub fn new_strict() -> (r: Context)
        ensures
            r.data@.len() == 0,
            r.strict,
            r.autoescape,
    {
        Context { data: Vec::new(), strict: true, autoescape: true }
    }

    /// Binds `key` to `v`, shadowing any earlier binding of the same key.
    pub fn insert(&mut self, key: &str, v: Value)
        ensures
            final(self).strict == old(self).strict,
            final(self).autoescape == old(self).autoescape,
            val_lookup(final(self).data@, key@) == Option::Some(v),
            forall|k: Seq<char>|
                k != key@ ==> val_lookup(final(self).data@, k) == val_lookup(old(self).data@, k),
    {
        let ghost d0 = self.data@;
        self.data.insert(0, (key.to_owned(), v));
        proof {
            assert(self.data@[0].0@ == key@);
            assert(self.data@.drop_first() =~= d0);
        }
    }
}

} // verus!
