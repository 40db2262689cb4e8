//! Environments of the tree-walking evaluator: name bindings in scopes that
//! may enclose one another.
use vstd::prelude::*;
use crate::object::{Object, same_obj, same_opt, duplicate_opt};
use crate::text::str_eq;

verus! {

/// One scope: its bindings (a name may be bound to no value), no name
/// twice, and the scope that encloses it (by index in the environment store).
#[derive(Debug)]
pub struct Environment {
    pub store: Vec<(String, Option<Object>)>,
    pub outer: Option<usize>,
}

/// The position of the binding for `name` in a scope's bindings, if any.
pub open spec fn find_binding(bs: Seq<(String, Option<Object>)>, name: Seq<char>) -> Option<int>
    decreases bs.len(),
{
    if bs.len() == 0 {
        None
    } else if bs.last().0@ == name {
        Some(bs.len() - 1)
    } else {
        find_binding(bs.drop_last(), name)
    }
}

pub proof fn lemma_find_binding(bs: Seq<(String, Option<Object>)>, name: Seq<char>)
    ensures
        find_binding(bs, name) matches Some(i) ==> 0 <= i < bs.len() && bs[i].0@ == name,
        find_binding(bs, name) is None ==> forall|j: int| 0 <= j < bs.len() ==> #[trigger] bs[j].0@ != name,
    decreases bs.len(),
{
    if bs.len() > 0 && bs.last().0@ != name {
        lemma_find_binding(bs.drop_last(), name);
        assert forall|j: int| 0 <= j < bs.len() - 1 implies bs[j] == #[trigger] bs.drop_last()[j] by {}
        if find_binding(bs, name) is None {
            assert forall|j: int| 0 <= j < bs.len() implies #[trigger] bs[j].0@ != name by {
                if j < bs.len() - 1 {
                    assert(bs[j] == bs.drop_last()[j]);
                }
            }
        }
    }
}

/// A scope with no bindings and no enclosing scope.
pub fn new_environment() -> (e: Environment)
    ensures
        e.store@.len() == 0,
        e.outer is None,
{
    Environment { store: Vec::new(), outer: None }
}

/// A scope with no bindings, enclosed by `outer`.
pub fn new_enclosed_environment(outer: Option<usize>) -> (e: Environment)
    ensures
        e.store@.len() == 0,
        e.outer == outer,
{
    let mut env = new_environment();
    env.outer = outer;
    env
}

impl Environment {
    /// No name is bound twice.
    pub open spec fn wf(&self) -> bool {
        forall|i: int, j: int|
            0 <= i < j < self.store@.len() ==> #[trigger] self.store@[i].0@ != #[trigger] self.store@[j].0@
    }

    /// The position of the binding for `name` in this scope, if any.
    pub fn position(&self, name: &str) -> (r: Option<usize>)
        ensures
            r matches Some(i) ==> find_binding(self.store@, name@) == Some(i as int),
            r is None ==> find_binding(self.store@, name@) is None,
    {
        let mut i: usize = self.store.len();
        assert(self.store@.take(i as int) =~= self.store@);
        while i > 0
            invariant
                i <= self.store@.len(),
                find_binding(self.store@, name@) == find_binding(self.store@.take(i as int), name@),
            decreases i,
        {
            let ghost t = self.store@.take(i as int);
            assert(t.drop_last() =~= self.store@.take(i - 1));
            if str_eq(self.store[i - 1].0.as_str(), name) {
                return Some(i - 1);
            }
            i = i - 1;
        }
        assert(self.store@.take(0) =~= Seq::<(String, Option<Object>)>::empty());
        None
    }

    /// A copy of what `name` is bound to in this scope, if it is bound here.
    pub fn get(&self, name: &str) -> (r: Option<Option<Object>>)
        ensures
            match find_binding(self.store@, name@) {
                Some(i) => r matches Some(v) && same_opt(v, self.store@[i].1),
                None => r is None,
            },
    {
        proof {
            lemma_find_binding(self.store@, name@);
        }
        match self.position(name) {
            Some(i) => {
                let v = duplicate_opt(&self.store[i].1);
                assert(find_binding(self.store@, name@) == Some(i as int));
                Some(v)
            },
            None => None,
        }
    }

    /// Binds `name` to `val` in this scope, replacing an earlier binding of
    /// `name`; gives back a copy of the value.
    pub fn set(&mut self, name: String, val: Option<Object>) -> (r: Option<Object>)
        requires
            old(self).wf(),
        ensures
            final(self).wf(),
            final(self).outer == old(self).outer,
            same_opt(r, val),
            find_binding(final(self).store@, name@) matches Some(i) && final(self).store@[i].1
                == val && final(self).store@[i].0@ == name@,
            forall|n: Seq<char>|
                n != name@ ==> #[trigger] find_binding(final(self).store@, n) == find_binding(
                    old(self).store@,
                    n,
                ),
            forall|n: Seq<char>|
                n != name@ ==> (#[trigger] find_binding(old(self).store@, n) matches Some(i) ==> final(self).store@[i] == old(self).store@[i]),
    {
        proof {
            lemma_find_binding(old(self).store@, name@);
        }
        let copy = duplicate_opt(&val);
        match self.position(name.as_str()) {
            Some(i) => {
                self.store.set(i, (name, val));
                proof {
                    assert forall|n: Seq<char>| n != name@ implies #[trigger] find_binding(
                        self.store@,
                        n,
                    ) == find_binding(old(self).store@, n) by {
                        lemma_find_binding_update(old(self).store@, i as int, self.store@[i as int], n);
                    }
                    lemma_unique_find(self.store@, i as int, name@);
                    assert forall|n: Seq<char>| n != name@ implies (#[trigger] find_binding(
                        old(self).store@,
                        n,
                    ) matches Some(j) ==> self.store@[j] == old(self).store@[j]) by {
                        lemma_find_binding(old(self).store@, n);
                    }
                }
            },
            None => {
                self.store.push((name, val));
                proof {
                    assert(self.store@.drop_last() =~= old(self).store@);
                    assert forall|a: int, b: int| 0 <= a < b < self.store@.len() implies #[trigger] self.store@[a].0@
                        != #[trigger] self.store@[b].0@ by {
                        if b < self.store@.len() - 1 {
                            assert(self.store@[a] == old(self).store@[a]);
                            assert(self.store@[b] == old(self).store@[b]);
                        } else {
                            assert(self.store@[a] == old(self).store@[a]);
                        }
                    }
                    assert(find_binding(self.store@, name@) == Some(old(self).store@.len() as int));
                    assert forall|n: Seq<char>| n != name@ implies #[trigger] find_binding(
                        self.store@,
                        n,
                    ) == find_binding(old(self).store@, n) by {}
                    assert forall|n: Seq<char>| n != name@ implies (#[trigger] find_binding(
                        old(self).store@,
                        n,
                    ) matches Some(j) ==> self.store@[j] == old(self).store@[j]) by {
                        lemma_find_binding(old(self).store@, n);
                    }
                }
            },
        }
        copy
    }
}

/// Replacing a binding with one of the same name leaves the lookups of other
/// names unchanged.
pub proof fn lemma_find_binding_update(
    bs: Seq<(String, Option<Object>)>,
    i: int,
    b: (String, Option<Object>),
    n: Seq<char>,
)
    requires
        0 <= i < bs.len(),
        b.0@ == bs[i].0@,
        n != b.0@,
    ensures
        find_binding(bs.update(i, b), n) == find_binding(bs, n),
    decreases bs.len(),
{
    if bs.len() > 0 {
        if i < bs.len() - 1 {
            assert(bs.update(i, b).drop_last() =~= bs.drop_last().update(i, b));
            lemma_find_binding_update(bs.drop_last(), i, b, n);
        } else {
            assert(bs.update(i, b).drop_last() =~= bs.drop_last());
        }
    }
}

/// In a scope without repeated names, the binding at `i` is the one found for its name.
pub proof fn lemma_unique_find(bs: Seq<(String, Option<Object>)>, i: int, name: Seq<char>)
    requires
        0 <= i < bs.len(),
        bs[i].0@ == name,
        forall|a: int, b: int| 0 <= a < b < bs.len() ==> #[trigger] bs[a].0@ != #[trigger] bs[b].0@,
    ensures
        find_binding(bs, name) == Some(i),
    decreases bs.len(),
{
    if i < bs.len() - 1 {
        let t = bs.drop_last();
        assert forall|a: int, b: int| 0 <= a < b < t.len() implies #[trigger] t[a].0@ != #[trigger] t[b].0@ by {
            assert(t[a] == bs[a]);
            assert(t[b] == bs[b]);
        }
        assert(bs.last().0@ != name);
        lemma_unique_find(t, i, name);
    }
}

} // verus!

verus! {

/// All scopes created during an evaluation; a scope encloses only scopes
/// created before it.
#[derive(Debug)]
pub struct EnvStore {
    pub envs: Vec<Environment>,
}

/// The value bound to `name` in the innermost of scope `idx` and the scopes
/// that enclose it that binds `name`; none where that binding holds no
/// value or no scope binds `name`.
pub open spec fn chain_lookup(envs: Seq<Environment>, idx: int, name: Seq<char>) -> Option<Object>
    decreases idx,
{
    if idx < 0 || idx >= envs.len() {
        None
    } else {
        match find_binding(envs[idx].store@, name) {
            Some(j) => envs[idx].store@[j].1,
            None => match envs[idx].outer {
                Some(o) => if 0 <= o < idx {
                    chain_lookup(envs, o as int, name)
                } else {
                    None
                },
                None => None,
            },
        }
    }
}

/// `s1` is `s0` with `name` bound to `val` in scope `env`: looking `name` up
/// there finds `val`, other names find what they found, other scopes are
/// unchanged.
pub open spec fn set_rel(s0: Seq<Environment>, s1: Seq<Environment>, env: int, name: Seq<char>, val: Option<Object>) -> bool {
    &&& 0 <= env < s0.len()
    &&& s1.len() == s0.len()
    &&& chain_lookup(s1, env, name) == val
    &&& find_binding(s1[env].store@, name) matches Some(j) && s1[env].store@[j].1 == val
    &&& forall|i: int| 0 <= i < s0.len() && i != env ==> #[trigger] s1[i] == s0[i]
    &&& s1[env].outer == s0[env].outer
    &&& forall|n: Seq<char>| n != name ==> #[trigger] find_binding(s1[env].store@, n) == find_binding(s0[env].store@, n)
    &&& forall|n: Seq<char>|
        n != name ==> (#[trigger] find_binding(s0[env].store@, n) matches Some(i) ==> s1[env].store@[i] == s0[env].store@[i])
}

impl EnvStore {
    pub open spec fn wf(&self) -> bool {
        &&& self.envs@.len() > 0
        &&& forall|i: int| 0 <= i < self.envs@.len() ==> (#[trigger] self.envs@[i]).wf()
        &&& forall|i: int|
            0 <= i < self.envs@.len() ==> (#[trigger] self.envs@[i].outer matches Some(o) ==> o < i)
    }

    /// A store holding only the global scope, at index 0.
    pub fn new() -> (s: EnvStore)
        ensures
            s.wf(),
            s.envs@.len() == 1,
            s.envs@[0].store@.len() == 0,
            s.envs@[0].outer is None,
    {
        let mut envs: Vec<Environment> = Vec::new();
        envs.push(new_environment());
        EnvStore { envs }
    }

    /// A copy of the value `name` has in scope `env`, looking outwards to the
    /// innermost scope that binds it; none when that binding holds no value.
    pub fn get(&self, env: usize, name: &str) -> (r: Option<Object>)
        requires
            self.wf(),
        ensures
            match chain_lookup(self.envs@, env as int, name@) {
                Some(v) => r matches Some(x) && same_obj(x, v),
                None => r is None,
            },
        decreases env,
    {
        if env >= self.envs.len() {
            return None;
        }
        proof {
            lemma_find_binding(self.envs@[env as int].store@, name@);
        }
        match self.envs[env].get(name) {
            Some(v) => v,
            None => match self.envs[env].outer {
                Some(o) => {
                    if o < env {
                        self.get(o, name)
                    } else {
                        None
                    }
                },
                None => None,
            },
        }
    }

    /// Binds `name` to `val` in scope `env`; gives back a copy of the value.
    pub fn set(&mut self, env: usize, name: String, val: Option<Object>) -> (r: Option<Object>)
        requires
            old(self).wf(),
            env < old(self).envs@.len(),
        ensures
            final(self).wf(),
            final(self).envs@.len() == old(self).envs@.len(),
            same_opt(r, val),
            set_rel(old(self).envs@, final(self).envs@, env as int, name@, val),
    {
        let mut e = self.envs.remove(env);
        let r = e.set(name, val);
        self.envs.insert(env, e);
        proof {
            assert forall|i: int| 0 <= i < self.envs@.len() && i != env implies #[trigger] self.envs@[i] == old(self).envs@[i] by {}
            assert forall|i: int| 0 <= i < self.envs@.len() implies (#[trigger] self.envs@[i]).wf() by {}
            assert forall|i: int| 0 <= i < self.envs@.len() implies (#[trigger] self.envs@[i].outer matches Some(o) ==> o < i) by {}
        }
        r
    }

    /// Adds a scope; gives back its index.
    pub fn push(&mut self, e: Environment) -> (idx: usize)
        requires
            old(self).wf(),
            e.wf(),
            e.outer matches Some(o) ==> o < old(self).envs@.len(),
        ensures
            final(self).wf(),
            idx == old(self).envs@.len(),
            final(self).envs@ == old(self).envs@.push(e),
    {
        let idx = self.envs.len();
        self.envs.push(e);
        proof {
            assert forall|i: int| 0 <= i < self.envs@.len() implies (#[trigger] self.envs@[i]).wf() by {
                if i < idx { assert(self.envs@[i] == old(self).envs@[i]); }
            }
            assert forall|i: int| 0 <= i < self.envs@.len() implies (#[trigger] self.envs@[i].outer matches Some(o) ==> o < i) by {
                if i < idx { assert(self.envs@[i] == old(self).envs@[i]); }
            }
        }
        idx
    }
}

/// What a binding in a scope gives back: after binding `name` to `val` in a
/// scope, looking `name` up from that scope finds `val` (nothing, when `val`
/// is no value, whatever the enclosing scopes bind), and names other than
/// `name` are found as before.
pub proof fn law_set_then_get(
    before: Seq<Environment>,
    after: Seq<Environment>,
    env: int,
    name: Seq<char>,
    val: Option<Object>,
    other: Seq<char>,
)
    requires
        set_rel(before, after, env, name, val),
        forall|i: int| 0 <= i < before.len() ==> (#[trigger] before[i].outer matches Some(o) ==> o < i),
        other != name,
    ensures
        chain_lookup(after, env, name) == val,
        chain_lookup(after, env, other) == chain_lookup(before, env, other),
{
    assert(find_binding(after[env].store@, other) == find_binding(before[env].store@, other));
    lemma_find_binding(before[env].store@, other);
    match before[env].outer {
        Some(o) => {
            if 0 <= o < env {
                lemma_chain_lookup_frame(before, after, o as int, env, other);
            }
        },
        None => {},
    }
}

/// Writes into an enclosed scope stay there: after a new, empty scope
/// enclosed by scope `o` is added and a name is bound in it, scope `o`, and every other
/// scope there was, is as it was, and lookups from them find what they
/// found before.
pub proof fn law_enclosed_writes_stay_inner(
    before: Seq<Environment>,
    after: Seq<Environment>,
    fresh: Environment,
    o: int,
    name: Seq<char>,
    val: Option<Object>,
    other: Seq<char>,
)
    requires
        0 <= o < before.len(),
        fresh.store@.len() == 0,
        fresh.outer == Some(o as usize),
        set_rel(before.push(fresh), after, before.len() as int, name, val),
    ensures
        forall|i: int| 0 <= i < before.len() ==> #[trigger] after[i] == before[i],
        after[before.len() as int].outer == Some(o as usize),
        chain_lookup(after, o, other) == chain_lookup(before, o, other),
{
    let mid = before.push(fresh);
    assert forall|i: int| 0 <= i < before.len() implies #[trigger] after[i] == before[i] by {
        assert(mid[i] == before[i]);
    }
    lemma_chain_lookup_frame(mid, after, o, before.len() as int, other);
    lemma_chain_lookup_prefix(before, fresh, o, other);
}

/// Adding a scope does not change lookups from the scopes there were.
pub proof fn lemma_chain_lookup_prefix(s: Seq<Environment>, e: Environment, idx: int, name: Seq<char>)
    requires
        0 <= idx < s.len(),
    ensures
        chain_lookup(s.push(e), idx, name) == chain_lookup(s, idx, name),
    decreases idx,
{
    assert(s.push(e)[idx] == s[idx]);
    match s[idx].outer {
        Some(o) => {
            if 0 <= o < idx {
                lemma_chain_lookup_prefix(s, e, o as int, name);
            }
        },
        None => {},
    }
}

/// Looking up from a scope created before scope `changed` is not affected by
/// changes to `changed`.
pub proof fn lemma_chain_lookup_frame(
    before: Seq<Environment>,
    after: Seq<Environment>,
    idx: int,
    changed: int,
    name: Seq<char>,
)
    requires
        0 <= idx < changed < before.len(),
        after.len() == before.len(),
        forall|i: int| 0 <= i < before.len() && i != changed ==> #[trigger] after[i] == before[i],
    ensures
        chain_lookup(after, idx, name) == chain_lookup(before, idx, name),
    decreases idx,
{
    assert(after[idx] == before[idx]);
    match before[idx].outer {
        Some(o) => {
            if 0 <= o < idx {
                lemma_chain_lookup_frame(before, after, o as int, changed, name);
            }
        },
        None => {},
    }
}

} // verus!
