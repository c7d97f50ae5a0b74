pub mod types;

use types::{RuntimeError, SRuntimeError, SValue, Value};
use vstd::prelude::*;

verus! {

/// One name bound to a value in one scope.
#[derive(Debug)]
pub struct Binding {
    pub scope: usize,
    pub name: String,
    pub value: Value,
}

/// The model of an environment chain: the parent of each scope, and the value
/// bound to each (scope, name) pair.
pub struct SEnv {
    pub parents: Seq<Option<nat>>,
    pub vars: Map<(nat, Seq<char>), SValue>,
}

/// All scopes of a run, each identified by its index. Scope 0 is the global
/// scope. A scope refers to its parent by index; parents are created before
/// their children, so every chain ends.
#[derive(Debug)]
pub struct Environment {
    parents: Vec<Option<usize>>,
    bindings: Vec<Binding>,
}

pub open spec fn binding_key(b: Binding) -> (nat, Seq<char>) {
    (b.scope as nat, b.name@)
}

/// The map that a list of bindings describes.
pub open spec fn bindings_map(b: Seq<Binding>) -> Map<(nat, Seq<char>), SValue>
    decreases b.len(),
{
    if b.len() == 0 {
        Map::empty()
    } else {
        bindings_map(b.drop_last()).insert(binding_key(b.last()), b.last().value@)
    }
}

pub open spec fn keys_unique(b: Seq<Binding>) -> bool {
    forall|i: int, j: int|
        0 <= i < j < b.len() ==> binding_key(#[trigger] b[i]) != binding_key(#[trigger] b[j])
}

/// A value may be stored in an environment of `n` scopes: a function's
/// captured scope is one of them.
pub open spec fn value_fits(v: SValue, n: nat) -> bool {
    v is Function ==> v->closure < n
}

impl SEnv {
    pub open spec fn wf(self) -> bool {
        &&& self.parents.len() > 0
        &&& forall|s: int|
            0 <= s < self.parents.len() && #[trigger] self.parents[s] is Some ==> self.parents[s]->0 < s
        &&& forall|k: (nat, Seq<char>)|
            #[trigger] self.vars.contains_key(k) ==> k.0 < self.parents.len() && value_fits(
                self.vars[k],
                self.parents.len(),
            )
    }

    /// The nearest scope, from `scope` outward, that binds `name`.
    pub open spec fn find(self, scope: nat, name: Seq<char>) -> Option<nat>
        decreases scope,
    {
        if self.vars.contains_key((scope, name)) {
            Some(scope)
        } else if scope < self.parents.len() && self.parents[scope as int] is Some
            && self.parents[scope as int]->0 < scope {
            self.find(self.parents[scope as int]->0, name)
        } else {
            None
        }
    }

    /// The value that `name` has when looked up from `scope`.
    pub open spec fn get(self, scope: nat, name: Seq<char>) -> Option<SValue> {
        match self.find(scope, name) {
            Some(s) => Some(self.vars[(s, name)]),
            None => None,
        }
    }

    pub open spec fn define(self, scope: nat, name: Seq<char>, v: SValue) -> SEnv {
        SEnv { parents: self.parents, vars: self.vars.insert((scope, name), v) }
    }

    pub open spec fn push_scope(self, parent: nat) -> SEnv {
        SEnv { parents: self.parents.push(Some(parent)), vars: self.vars }
    }

    /// Where a lookup finds a name, that scope binds it.
    pub proof fn lemma_find(self, scope: nat, name: Seq<char>)
        ensures
            self.find(scope, name) is Some ==> self.vars.contains_key((self.find(scope, name)->0, name)),
        decreases scope,
    {
        if !self.vars.contains_key((scope, name)) && scope < self.parents.len()
            && self.parents[scope as int] is Some && self.parents[scope as int]->0 < scope {
            self.lemma_find(self.parents[scope as int]->0, name);
        }
    }

    pub open spec fn scope_count(self) -> nat {
        self.parents.len()
    }
}

/// Defining a name a second time in the same scope overwrites the first
/// binding: the result is as if only the second definition had been made, and
/// a lookup from that scope then finds the second value.
pub proof fn law_redefine_overwrites(env: SEnv, scope: nat, name: Seq<char>, v1: SValue, v2: SValue)
    ensures
        env.define(scope, name, v1).define(scope, name, v2) == env.define(scope, name, v2),
        env.define(scope, name, v2).get(scope, name) == Some(v2),
{
    assert(env.define(scope, name, v1).define(scope, name, v2).vars =~= env.define(scope, name, v2).vars);
}

/// A lookup that finds nothing means that no scope of the chain binds the
/// name; `assign` then fails with a name error and creates no binding.
pub proof fn law_unbound_not_found(env: SEnv, scope: nat, name: Seq<char>)
    requires
        env.get(scope, name) is None,
    ensures
        env.find(scope, name) is None,
{
}

pub open spec fn parents_view(p: Seq<Option<usize>>) -> Seq<Option<nat>> {
    p.map_values(|o: Option<usize>| match o {
        Some(x) => Some(x as nat),
        None => None,
    })
}

impl View for Environment {
    type V = SEnv;

    closed spec fn view(&self) -> SEnv {
        SEnv { parents: parents_view(self.parents@), vars: bindings_map(self.bindings@) }
    }
}

proof fn lemma_map_present(b: Seq<Binding>, i: int)
    requires
        keys_unique(b),
        0 <= i < b.len(),
    ensures
        bindings_map(b).contains_key(binding_key(b[i])),
        bindings_map(b)[binding_key(b[i])] == b[i].value@,
    decreases b.len(),
{
    if i < b.len() - 1 {
        assert(binding_key(b[i]) != binding_key(b[b.len() - 1]));
        lemma_map_present(b.drop_last(), i);
    }
}

proof fn lemma_map_absent(b: Seq<Binding>, k: (nat, Seq<char>))
    requires
        forall|i: int| 0 <= i < b.len() ==> binding_key(#[trigger] b[i]) != k,
    ensures
        !bindings_map(b).contains_key(k),
    decreases b.len(),
{
    if b.len() > 0 {
        lemma_map_absent(b.drop_last(), k);
    }
}

proof fn lemma_map_keys(b: Seq<Binding>, k: (nat, Seq<char>))
    requires
        bindings_map(b).contains_key(k),
    ensures
        exists|i: int| 0 <= i < b.len() && binding_key(#[trigger] b[i]) == k,
{
    if forall|i: int| 0 <= i < b.len() ==> binding_key(#[trigger] b[i]) != k {
        lemma_map_absent(b, k);
    }
}

proof fn lemma_map_update(b: Seq<Binding>, i: int, nb: Binding)
    requires
        keys_unique(b),
        0 <= i < b.len(),
        binding_key(nb) == binding_key(b[i]),
    ensures
        bindings_map(b.update(i, nb)) == bindings_map(b).insert(binding_key(nb), nb.value@),
        keys_unique(b.update(i, nb)),
    decreases b.len(),
{
    let u = b.update(i, nb);
    if i == b.len() - 1 {
        assert(u.drop_last() =~= b.drop_last());
        if bindings_map(b.drop_last()).contains_key(binding_key(nb)) {
            lemma_map_keys(b.drop_last(), binding_key(nb));
        }
        assert(bindings_map(u) =~= bindings_map(b).insert(binding_key(nb), nb.value@));
    } else {
        assert(u.drop_last() =~= b.drop_last().update(i, nb));
        lemma_map_update(b.drop_last(), i, nb);
        assert(binding_key(b[i]) != binding_key(b[b.len() - 1]));
        assert(bindings_map(u) =~= bindings_map(b).insert(binding_key(nb), nb.value@));
    }
}

proof fn lemma_map_push(b: Seq<Binding>, nb: Binding)
    requires
        keys_unique(b),
        !bindings_map(b).contains_key(binding_key(nb)),
    ensures
        bindings_map(b.push(nb)) == bindings_map(b).insert(binding_key(nb), nb.value@),
        keys_unique(b.push(nb)),
{
    assert(b.push(nb).drop_last() =~= b);
    assert forall|i: int| 0 <= i < b.len() implies binding_key(#[trigger] b[i]) != binding_key(nb) by {
        lemma_map_present(b, i);
    }
}

impl Environment {
    /// The environment is well formed: its model is, and no (scope, name)
    /// pair is bound twice.
    pub closed spec fn wf(&self) -> bool {
        &&& self@.wf()
        &&& keys_unique(self.bindings@)
        &&& forall|i: int| 0 <= i < self.parents@.len() ==> (#[trigger] self.parents@[i]) is Some ==> self.parents@[i]->0 < i
    }

    /// A well-formed environment has a well-formed model.
    pub proof fn lemma_wf(&self)
        requires
            self.wf(),
        ensures
            self@.wf(),
    {
    }

    proof fn lemma_parent(&self, s: int)
        requires
            self.wf(),
            0 <= s < self.parents@.len(),
        ensures
            self@.parents[s] is Some <==> self.parents@[s] is Some,
            self.parents@[s] is Some ==> self@.parents[s]->0 == self.parents@[s]->0,
    {
    }

    /// An environment holding only the global scope, 0, with nothing bound.
    pub fn new() -> (r: Environment)
        ensures
            r.wf(),
            r@.parents == seq![Option::<nat>::None],
            r@.vars == Map::<(nat, Seq<char>), SValue>::empty(),
    {
        let mut parents: Vec<Option<usize>> = Vec::new();
        parents.push(None);
        let r = Environment { parents, bindings: Vec::new() };
        assert(r@.parents =~= seq![Option::<nat>::None]);
        r
    }

    /// The number of scopes.
    pub fn scope_count(&self) -> (r: usize)
        ensures
            r == self@.scope_count(),
    {
        self.parents.len()
    }

    /// Creates a fresh, empty scope whose parent is `parent`, and returns it.
    pub fn with_enclosing(&mut self, parent: usize) -> (r: usize)
        requires
            old(self).wf(),
            parent < old(self)@.scope_count(),
        ensures
            final(self).wf(),
            r == old(self)@.scope_count(),
            final(self)@ == old(self)@.push_scope(parent as nat),
    {
        let r = self.parents.len();
        self.parents.push(Some(parent));
        assert(self@.parents =~= old(self)@.parents.push(Some(parent as nat)));
        assert forall|k: (nat, Seq<char>)| #[trigger] self@.vars.contains_key(k) implies k.0 < self@.parents.len()
            && value_fits(self@.vars[k], self@.parents.len()) by {
            assert(old(self)@.vars.contains_key(k));
        }
        r
    }

    /// Binds `name` to `value` in `scope` itself, replacing what `name` was
    /// bound to there.
    pub fn define(&mut self, scope: usize, name: &str, value: Value)
        requires
            old(self).wf(),
            scope < old(self)@.scope_count(),
            value_fits(value@, old(self)@.scope_count()),
        ensures
            final(self).wf(),
            final(self)@ == old(self)@.define(scope as nat, name@, value@),
    {
        let key = name.to_owned();
        let mut i: usize = 0;
        while i < self.bindings.len()
            invariant
                old(self).wf(),
                key@ == name@,
                scope < old(self)@.scope_count(),
                value_fits(value@, old(self)@.scope_count()),
                self.bindings@ == old(self).bindings@,
                self.parents@ == old(self).parents@,
                i <= self.bindings@.len(),
                forall|j: int| 0 <= j < i ==> binding_key(#[trigger] self.bindings@[j]) != (scope as nat, key@),
            decreases self.bindings@.len() - i,
        {
            if self.bindings[i].scope == scope && self.bindings[i].name == key {
                let nb = Binding { scope, name: key, value };
                proof {
                    lemma_map_update(self.bindings@, i as int, nb);
                }
                self.bindings.set(i, nb);
                proof {
                    self.lemma_wf_after_define(old(self), scope as nat, name@, value@);
                }
                return;
            }
            i = i + 1;
        }
        let nb = Binding { scope, name: key, value };
        proof {
            lemma_map_absent(self.bindings@, binding_key(nb));
            lemma_map_push(self.bindings@, nb);
        }
        self.bindings.push(nb);
        proof {
            self.lemma_wf_after_define(old(self), scope as nat, name@, value@);
        }
    }

    proof fn lemma_wf_after_define(&self, prev: &Environment, scope: nat, name: Seq<char>, v: SValue)
        requires
            prev.wf(),
            scope < prev@.scope_count(),
            value_fits(v, prev@.scope_count()),
            self.parents@ == prev.parents@,
            keys_unique(self.bindings@),
            bindings_map(self.bindings@) == bindings_map(prev.bindings@).insert((scope, name), v),
        ensures
            self.wf(),
            self@ == prev@.define(scope, name, v),
    {
        assert forall|k: (nat, Seq<char>)| #[trigger] self@.vars.contains_key(k) implies k.0 < self@.parents.len()
            && value_fits(self@.vars[k], self@.parents.len()) by {
            if k != (scope, name) {
                assert(prev@.vars.contains_key(k));
            }
        }
    }

    /// Finds where `(scope, name)` is bound, if anywhere.
    fn index_of(&self, scope: usize, key: &String) -> (r: Option<usize>)
        requires
            self.wf(),
        ensures
            match r {
                Some(i) => i < self.bindings@.len() && binding_key(self.bindings@[i as int]) == (scope as nat, key@)
                    && self@.vars.contains_key((scope as nat, key@))
                    && self@.vars[(scope as nat, key@)] == self.bindings@[i as int].value@,
                None => !self@.vars.contains_key((scope as nat, key@)),
            },
    {
        let mut i: usize = 0;
        while i < self.bindings.len()
            invariant
                self.wf(),
                i <= self.bindings@.len(),
                forall|j: int| 0 <= j < i ==> binding_key(#[trigger] self.bindings@[j]) != (scope as nat, key@),
            decreases self.bindings@.len() - i,
        {
            if self.bindings[i].scope == scope && self.bindings[i].name == *key {
                proof {
                    lemma_map_present(self.bindings@, i as int);
                }
                return Some(i);
            }
            i = i + 1;
        }
        proof {
            lemma_map_absent(self.bindings@, (scope as nat, key@));
        }
        None
    }

    /// The value of `name`, looked up from `scope` outward.
    pub fn get(&self, scope: usize, name: &str) -> (r: Result<Value, RuntimeError>)
        requires
            self.wf(),
            scope < self@.scope_count(),
        ensures
            match self@.get(scope as nat, name@) {
                Some(v) => r is Ok && r->Ok_0@ == v,
                None => r is Err && r->Err_0@ == SRuntimeError::NameError(name@),
            },
    {
        let key = name.to_owned();
        let mut cur: usize = scope;
        loop
            invariant
                self.wf(),
                cur < self@.scope_count(),
                self@.find(scope as nat, name@) == self@.find(cur as nat, name@),
                key@ == name@,
            decreases cur,
        {
            match self.index_of(cur, &key) {
                Some(i) => {
                    return Ok(self.bindings[i].value.duplicate());
                },
                None => {
                    proof {
                        self.lemma_parent(cur as int);
                    }
                    match self.parents[cur] {
                        Some(p) => {
                            cur = p;
                        },
                        None => {
                            return Err(RuntimeError::NameError(key));
                        },
                    }
                },
            }
        }
    }

    /// Rebinds `name` in the nearest scope, from `scope` outward, that binds
    /// it. Fails, changing nothing, where no scope of the chain binds it.
    pub fn assign(&mut self, scope: usize, name: &str, value: Value) -> (r: Result<(), RuntimeError>)
        requires
            old(self).wf(),
            scope < old(self)@.scope_count(),
            value_fits(value@, old(self)@.scope_count()),
        ensures
            final(self).wf(),
            match old(self)@.find(scope as nat, name@) {
                Some(s) => r is Ok && final(self)@ == old(self)@.define(s, name@, value@),
                None => r is Err && r->Err_0@ == SRuntimeError::NameError(name@) && final(self)@ == old(self)@,
            },
    {
        let key = name.to_owned();
        let mut cur: usize = scope;
        loop
            invariant
                self == old(self),
                self.wf(),
                cur < self@.scope_count(),
                self@.find(scope as nat, name@) == self@.find(cur as nat, name@),
                key@ == name@,
                value_fits(value@, old(self)@.scope_count()),
            decreases cur,
        {
            match self.index_of(cur, &key) {
                Some(i) => {
                    let nb = Binding { scope: cur, name: key, value };
                    proof {
                        lemma_map_update(self.bindings@, i as int, nb);
                    }
                    self.bindings.set(i, nb);
                    proof {
                        self.lemma_wf_after_define(old(self), cur as nat, name@, nb.value@);
                    }
                    return Ok(());
                },
                None => {
                    proof {
                        self.lemma_parent(cur as int);
                    }
                    match self.parents[cur] {
                        Some(p) => {
                            cur = p;
                        },
                        None => {
                            return Err(RuntimeError::NameError(key));
                        },
                    }
                },
            }
        }
    }
}

} // verus!
