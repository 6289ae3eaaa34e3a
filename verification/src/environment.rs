use vstd::prelude::*;

use crate::bindings::Bindings;
use vstd::string::StringExecFns;

verus! {

/// One environment: the variables a scope binds at run time, and the
/// environment it is nested in (by its index in the `Environments` that
/// hold both).
pub struct Environment<V> {
    values: Bindings<V>,
    enclosing: Option<usize>,
}

/// The mathematical content of an environment.
pub struct SpecEnv<V> {
    pub values: Map<Seq<char>, V>,
    pub enclosing: Option<nat>,
}

impl<V> View for Environment<V> {
    type V = SpecEnv<V>;

    closed spec fn view(&self) -> SpecEnv<V> {
        SpecEnv {
            values: self.values@,
            enclosing: match self.enclosing {
                Some(e) => Some(e as nat),
                None => None,
            },
        }
    }
}

impl<V> Environment<V> {
    pub closed spec fn wf(&self) -> bool {
        self.values.wf()
    }

    /// An environment that binds nothing yet, nested in `enclosing`.
    pub fn new(enclosing: Option<usize>) -> (e: Environment<V>)
        ensures
            e.wf(),
            e@.values == Map::<Seq<char>, V>::empty(),
            e@.enclosing == (match enclosing {
                Some(x) => Some(x as nat),
                None => None::<nat>,
            }),
    {
        Environment { values: Bindings::new(), enclosing }
    }

    /// Binds `name` to `value` here, replacing any binding of it here.
    pub fn define(&mut self, name: String, value: V)
        requires
            old(self).wf(),
        ensures
            final(self).wf(),
            final(self)@.values == old(self)@.values.insert(name@, value),
            final(self)@.enclosing == old(self)@.enclosing,
    {
        self.values.insert(name, value);
    }
}

// ------------------------------------------------------- the chain of scopes

/// The value of `name` seen from environment `id`: its binding in the
/// nearest environment, along the enclosing chain, that binds it.
pub open spec fn lookup<V>(envs: Seq<SpecEnv<V>>, id: int, name: Seq<char>) -> Option<V>
    decreases id,
{
    if 0 <= id < envs.len() {
        if envs[id].values.contains_key(name) {
            Some(envs[id].values[name])
        } else {
            match envs[id].enclosing {
                Some(p) => if p < id {
                    lookup(envs, p as int, name)
                } else {
                    None
                },
                None => None,
            }
        }
    } else {
        None
    }
}

/// The nearest environment, along the chain from `id`, that binds `name`.
pub open spec fn holder<V>(envs: Seq<SpecEnv<V>>, id: int, name: Seq<char>) -> Option<nat>
    decreases id,
{
    if 0 <= id < envs.len() {
        if envs[id].values.contains_key(name) {
            Some(id as nat)
        } else {
            match envs[id].enclosing {
                Some(p) => if p < id {
                    holder(envs, p as int, name)
                } else {
                    None
                },
                None => None,
            }
        }
    } else {
        None
    }
}

/// The environment `distance` steps out along the chain from `id`, if the
/// chain is that long.
pub open spec fn ancestor<V>(envs: Seq<SpecEnv<V>>, id: int, distance: nat) -> Option<nat>
    decreases distance,
{
    if distance == 0 {
        Some(id as nat)
    } else if 0 <= id < envs.len() {
        match envs[id].enclosing {
            Some(p) => ancestor(envs, p as int, (distance - 1) as nat),
            None => None,
        }
    } else {
        None
    }
}

/// The message for a variable that no environment binds.
pub open spec fn undefined_message(name: Seq<char>) -> Seq<char> {
    "Undefined variable: '"@ + name + "'."@
}

/// The message for a variable missing at the distance the resolver gave.
pub open spec fn undefined_at_depth_message(name: Seq<char>) -> Seq<char> {
    "Undefined variable in the specified depth. Variable: '"@ + name + "'"@
}

/// The environments of a running program, each nested in an older one.
pub struct Environments<V> {
    envs: Vec<Environment<V>>,
}

impl<V> View for Environments<V> {
    type V = Seq<SpecEnv<V>>;

    closed spec fn view(&self) -> Seq<SpecEnv<V>> {
        self.envs@.map_values(|e: Environment<V>| e@)
    }
}

impl<V> Environments<V> {
    /// Every environment is well formed and nested only in an older one.
    pub closed spec fn wf(&self) -> bool {
        forall|i: int|
            0 <= i < self.envs@.len() ==> {
                &&& (#[trigger] self.envs@[i]).wf()
                &&& (self.envs@[i].enclosing matches Some(p) ==> p < i)
            }
    }

    /// No environment yet.
    pub fn new() -> (r: Environments<V>)
        ensures
            r.wf(),
            r@ == Seq::<SpecEnv<V>>::empty(),
    {
        let r = Environments { envs: Vec::new() };
        assert(r@ =~= Seq::<SpecEnv<V>>::empty());
        r
    }

    /// How many environments are held.
    pub fn len(&self) -> (n: usize)
        ensures
            n == self@.len(),
    {
        self.envs.len()
    }

    /// Adds `env`, which may only be nested in an environment already held,
    /// and gives its index.
    pub fn push(&mut self, env: Environment<V>) -> (id: usize)
        requires
            old(self).wf(),
            env.wf(),
            env@.enclosing matches Some(p) ==> p < old(self)@.len(),
        ensures
            final(self).wf(),
            final(self)@ == old(self)@.push(env@),
            id == old(self)@.len(),
    {
        let id = self.envs.len();
        let ghost e = env@;
        self.envs.push(env);
        assert(self@ =~= old(self)@.push(e));
        id
    }

    /// Binds `name` to `value` in environment `id`.
    pub fn define(&mut self, id: usize, name: String, value: V)
        requires
            old(self).wf(),
            id < old(self)@.len(),
        ensures
            final(self).wf(),
            final(self)@ == old(self)@.update(
                id as int,
                SpecEnv { values: old(self)@[id as int].values.insert(name@, value), ..old(self)@[id as int] },
            ),
    {
        assert(self.envs@[id as int].wf());
        self.envs[id].define(name, value);
        assert(self@ =~= old(self)@.update(
            id as int,
            SpecEnv { values: old(self)@[id as int].values.insert(name@, value), ..old(self)@[id as int] },
        ));
    }
}


fn undefined(name: &str) -> (s: String)
    ensures
        s@ == undefined_message(name@),
{
    let mut s = String::from_str("Undefined variable: '");
    s.append(name);
    s.append("'.");
    s
}

impl<V> Environments<V> {
    /// The value of `name` seen from environment `id`, or the error that no
    /// environment along the chain binds it.
    pub fn get(&self, id: usize, name: &String) -> (r: Result<&V, String>)
        requires
            self.wf(),
            id < self@.len(),
        ensures
            match lookup(self@, id as int, name@) {
                Some(v) => r matches Ok(x) && *x == v,
                None => r matches Err(msg) && msg@ == undefined_message(name@),
            },
    {
        let mut cur = id;
        loop
            invariant
                self.wf(),
                cur < self@.len(),
                lookup(self@, id as int, name@) == lookup(self@, cur as int, name@),
            decreases cur,
        {
            assert(self.envs@[cur as int].wf());
            match self.envs[cur].values.get(name) {
                Some(v) => {
                    return Ok(v);
                },
                None => {},
            }
            match self.envs[cur].enclosing {
                Some(p) => {
                    cur = p;
                },
                None => {
                    return Err(undefined(name.as_str()));
                },
            }
        }
    }

    /// The environment `distance` steps out from `id`.
    pub fn ancestor(&self, id: usize, distance: usize) -> (r: Result<usize, String>)
        requires
            self.wf(),
            id < self@.len(),
        ensures
            match ancestor(self@, id as int, distance as nat) {
                Some(a) => r matches Ok(x) && x == a && x < self@.len(),
                None => r matches Err(msg) && msg@ == "Environment depth is too shallow."@,
            },
    {
        let mut current = id;
        let mut i: usize = 0;
        while i < distance
            invariant
                self.wf(),
                current < self@.len(),
                i <= distance,
                ancestor(self@, id as int, distance as nat) == ancestor(self@, current as int, (distance - i) as nat),
            decreases distance - i,
        {
            match self.envs[current].enclosing {
                Some(e) => {
                    current = e;
                },
                None => {
                    return Err(String::from_str("Environment depth is too shallow."));
                },
            }
            i = i + 1;
        }
        Ok(current)
    }

    /// The value of `name` in the environment `distance` steps out from `id`
    /// (only there, not further out).
    pub fn get_at(&self, id: usize, distance: usize, name: &String) -> (r: Result<&V, String>)
        requires
            self.wf(),
            id < self@.len(),
        ensures
            match ancestor(self@, id as int, distance as nat) {
                Some(a) => if self@[a as int].values.contains_key(name@) {
                    r matches Ok(x) && *x == self@[a as int].values[name@]
                } else {
                    r matches Err(msg) && msg@ == undefined_message(name@)
                },
                None => r matches Err(msg) && msg@ == "Environment depth is too shallow."@,
            },
    {
        let a = self.ancestor(id, distance)?;
        assert(self.envs@[a as int].wf());
        match self.envs[a].values.get(name) {
            Some(v) => Ok(v),
            None => Err(undefined(name.as_str())),
        }
    }

    /// Rebinds `name` to `value` in the nearest environment, along the chain
    /// from `id`, that binds it; or the error that none does.
    pub fn assign(&mut self, id: usize, name: String, value: V) -> (r: Result<(), String>)
        requires
            old(self).wf(),
            id < old(self)@.len(),
        ensures
            final(self).wf(),
            match holder(old(self)@, id as int, name@) {
                Some(h) => r is Ok && final(self)@ == old(self)@.update(
                    h as int,
                    SpecEnv { values: old(self)@[h as int].values.insert(name@, value), ..old(self)@[h as int] },
                ),
                None => r matches Err(msg) && msg@ == undefined_message(name@) && final(self)@ == old(self)@,
            },
    {
        let mut cur = id;
        loop
            invariant
                self.wf(),
                *self == *old(self),
                cur < self@.len(),
                holder(self@, id as int, name@) == holder(self@, cur as int, name@),
            decreases cur,
        {
            assert(self.envs@[cur as int].wf());
            if self.envs[cur].values.contains_key(&name) {
                self.define(cur, name, value);
                return Ok(());
            }
            match self.envs[cur].enclosing {
                Some(p) => {
                    cur = p;
                },
                None => {
                    return Err(undefined(name.as_str()));
                },
            }
        }
    }

    /// Rebinds `name` to `value` in the environment `distance` steps out from
    /// `id`, where it must be bound already.
    pub fn assign_at(&mut self, id: usize, distance: usize, name: String, value: V) -> (r: Result<(), String>)
        requires
            old(self).wf(),
            id < old(self)@.len(),
        ensures
            final(self).wf(),
            match ancestor(old(self)@, id as int, distance as nat) {
                Some(a) => if old(self)@[a as int].values.contains_key(name@) {
                    r is Ok && final(self)@ == old(self)@.update(
                        a as int,
                        SpecEnv { values: old(self)@[a as int].values.insert(name@, value), ..old(self)@[a as int] },
                    )
                } else {
                    r matches Err(msg) && msg@ == undefined_at_depth_message(name@) && final(self)@ == old(self)@
                },
                None => r matches Err(msg) && msg@ == "Environment depth is too shallow."@ && final(self)@ == old(self)@,
            },
    {
        let a = self.ancestor(id, distance)?;
        assert(self.envs@[a as int].wf());
        if self.envs[a].values.contains_key(&name) {
            self.define(a, name, value);
            Ok(())
        } else {
            let mut msg = String::from_str("Undefined variable in the specified depth. Variable: '");
            msg.append(name.as_str());
            msg.append("'");
            Err(msg)
        }
    }
}


// ------------------------------------------------------------------- laws

/// Going out along the chain from an environment that is held always ends
/// at an environment that is held.
pub proof fn lemma_ancestor_held<V>(envs: &Environments<V>, id: int, distance: nat)
    requires
        envs.wf(),
        0 <= id < envs@.len(),
    ensures
        ancestor(envs@, id, distance) matches Some(a) ==> a < envs@.len(),
    decreases distance,
{
    if distance > 0 {
        assert(envs.envs@[id].wf());
        if let Some(p) = envs@[id].enclosing {
            lemma_ancestor_held(envs, p as int, (distance - 1) as nat);
        }
    }
}

/// A name has a value seen from an environment exactly when some
/// environment along the chain binds it, and the value is that binding.
pub proof fn lemma_lookup_holder<V>(envs: Seq<SpecEnv<V>>, id: int, name: Seq<char>)
    ensures
        lookup(envs, id, name) is Some <==> holder(envs, id, name) is Some,
        holder(envs, id, name) matches Some(h) ==> {
            &&& 0 <= h < envs.len()
            &&& envs[h as int].values.contains_key(name)
            &&& lookup(envs, id, name) == Some(envs[h as int].values[name])
        },
    decreases id,
{
    if 0 <= id < envs.len() && !envs[id].values.contains_key(name) {
        if let Some(p) = envs[id].enclosing {
            if p < id {
                lemma_lookup_holder(envs, p as int, name);
            }
        }
    }
}

/// Rebinding a name in the environment that holds it changes no chain and
/// no other environment's bindings, so the holder stays the holder.
proof fn lemma_holder_after_update<V>(envs: Seq<SpecEnv<V>>, id: int, name: Seq<char>, h: nat, v: V)
    requires
        holder(envs, id, name) == Some(h),
        0 <= h < envs.len(),
    ensures
        holder(envs.update(h as int, SpecEnv { values: envs[h as int].values.insert(name, v), ..envs[h as int] }), id, name)
            == Some(h),
    decreases id,
{
    let envs2 = envs.update(h as int, SpecEnv { values: envs[h as int].values.insert(name, v), ..envs[h as int] });
    if 0 <= id < envs.len() && !envs[id].values.contains_key(name) {
        if let Some(p) = envs[id].enclosing {
            if p < id {
                lemma_holder_after_update(envs, p as int, name, h, v);
            }
        }
    }
}

/// A variable defined in an environment reads back, from that environment,
/// as the value it was defined with.
pub proof fn law_get_after_define<V>(envs: Seq<SpecEnv<V>>, id: nat, name: Seq<char>, v: V)
    requires
        id < envs.len(),
    ensures
        lookup(envs.update(id as int, SpecEnv { values: envs[id as int].values.insert(name, v), ..envs[id as int] }), id as int, name)
            == Some(v),
{
}

/// After an assignment succeeds, the variable reads back, from the same
/// environment, as the assigned value.
pub proof fn law_get_after_assign<V>(envs: Seq<SpecEnv<V>>, id: nat, name: Seq<char>, v: V)
    requires
        id < envs.len(),
        holder(envs, id as int, name) is Some,
    ensures
        ({
            let h = holder(envs, id as int, name)->Some_0;
            lookup(envs.update(h as int, SpecEnv { values: envs[h as int].values.insert(name, v), ..envs[h as int] }), id as int, name)
                == Some(v)
        }),
{
    let h = holder(envs, id as int, name)->Some_0;
    lemma_lookup_holder(envs, id as int, name);
    let envs2 = envs.update(h as int, SpecEnv { values: envs[h as int].values.insert(name, v), ..envs[h as int] });
    lemma_holder_after_update(envs, id as int, name, h, v);
    lemma_lookup_holder(envs2, id as int, name);
}

/// An assignment succeeds exactly when the variable can be read: both need
/// some environment along the chain to bind it.
pub proof fn law_assign_defined_iff_get_defined<V>(envs: Seq<SpecEnv<V>>, id: nat, name: Seq<char>)
    ensures
        holder(envs, id as int, name) is Some <==> lookup(envs, id as int, name) is Some,
{
    lemma_lookup_holder(envs, id as int, name);
}

/// The environment `distance` steps out is not changed by rebinding a name
/// in some environment: chains do not depend on bindings.
proof fn lemma_ancestor_after_update<V>(envs: Seq<SpecEnv<V>>, id: int, distance: nat, h: int, vals: Map<Seq<char>, V>)
    requires
        0 <= h < envs.len(),
    ensures
        ancestor(envs.update(h, SpecEnv { values: vals, ..envs[h] }), id, distance) == ancestor(envs, id, distance),
    decreases distance,
{
    if distance > 0 && 0 <= id < envs.len() {
        if let Some(p) = envs[id].enclosing {
            lemma_ancestor_after_update(envs, p as int, (distance - 1) as nat, h, vals);
        }
    }
}

/// After `assign_at` succeeds, `get_at` with the same distance reads the
/// assigned value back.
pub proof fn law_get_at_after_assign_at<V>(envs: Seq<SpecEnv<V>>, id: nat, distance: nat, name: Seq<char>, v: V)
    requires
        ancestor(envs, id as int, distance) matches Some(a) && a < envs.len() && envs[a as int].values.contains_key(name),
    ensures
        ({
            let a = ancestor(envs, id as int, distance)->Some_0;
            let envs2 = envs.update(a as int, SpecEnv { values: envs[a as int].values.insert(name, v), ..envs[a as int] });
            &&& ancestor(envs2, id as int, distance) == Some(a)
            &&& envs2[a as int].values.contains_key(name)
            &&& envs2[a as int].values[name] == v
        }),
{
    let a = ancestor(envs, id as int, distance)->Some_0;
    lemma_ancestor_after_update(envs, id as int, distance, a as int, envs[a as int].values.insert(name, v));
}

} // verus!
