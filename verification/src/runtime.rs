//! The scopes of a running program: the environments, the global one, the
//! one code runs in, and the scope distances the resolver worked out for the
//! variable occurrences. An evaluator keeps its values here and reads,
//! writes and nests scopes through this type.

use vstd::prelude::*;

use crate::environment::{
    ancestor, holder, lookup, undefined_at_depth_message, undefined_message, Environment, Environments,
    SpecEnv,
};
use crate::text::{decimal, push_decimal};
use crate::token::Token;
use std::collections::HashMap;
use vstd::string::StringExecFns;

verus! {

broadcast use vstd::std_specs::hash::group_hash_axioms;

/// The bindings that a call makes: each parameter name bound to the argument
/// at its place (a later parameter of the same name wins).
pub open spec fn parameter_bindings<V>(params: Seq<Token>, args: Seq<V>) -> Map<Seq<char>, V>
    decreases params.len(),
{
    if params.len() == 0 || params.len() != args.len() {
        Map::empty()
    } else {
        parameter_bindings(params.drop_last(), args.drop_last()).insert(params.last().lexeme@, args.last())
    }
}

/// The message for a call with the wrong number of arguments.
pub open spec fn arity_message(expected: nat, got: nat) -> Seq<char> {
    "Expected "@ + decimal(expected) + " arguments, but got "@ + decimal(got) + "."@
}

/// The message for a call with the wrong number of arguments.
pub fn arity_error(expected: usize, got: usize) -> (s: String)
    ensures
        s@ == arity_message(expected as nat, got as nat),
{
    let mut s = String::from_str("Expected ");
    push_decimal(&mut s, expected);
    s.append(" arguments, but got ");
    push_decimal(&mut s, got);
    s.append(".");
    s
}

/// The scopes of a running program.
pub struct Runtime<V> {
    environments: Environments<V>,
    globals: usize,
    environment: usize,
    locals: HashMap<usize, usize>,
}

impl<V> Runtime<V> {
    /// The environments.
    pub closed spec fn envs(&self) -> Seq<SpecEnv<V>> {
        self.environments@
    }

    /// The global environment.
    pub closed spec fn globals(&self) -> nat {
        self.globals as nat
    }

    /// The environment code runs in now.
    pub closed spec fn current(&self) -> nat {
        self.environment as nat
    }

    /// For each variable occurrence bound in a local scope, by its token
    /// position, how many scopes out its binding lives.
    pub closed spec fn locals(&self) -> Map<usize, usize> {
        self.locals@
    }

    pub closed spec fn wf(&self) -> bool {
        &&& self.environments.wf()
        &&& self.globals < self.environments@.len()
        &&& self.environment < self.environments@.len()
    }

    /// In a well-formed runtime, the global environment and the one code runs
    /// in are both held.
    pub proof fn lemma_held(&self)
        requires
            self.wf(),
        ensures
            self.globals() < self.envs().len(),
            self.current() < self.envs().len(),
    {
    }

    /// A runtime with one, empty, global environment, running in it.
    pub fn new() -> (r: Runtime<V>)
        ensures
            r.wf(),
            r.envs() == seq![SpecEnv { values: Map::<Seq<char>, V>::empty(), enclosing: None }],
            r.globals() == 0,
            r.current() == 0,
            r.locals() == Map::<usize, usize>::empty(),
    {
        let mut environments = Environments::new();
        let globals = environments.push(Environment::new(None));
        let r = Runtime { environments, globals, environment: globals, locals: HashMap::new() };
        assert(r.envs() =~= seq![SpecEnv { values: Map::<Seq<char>, V>::empty(), enclosing: None }]);
        r
    }

    /// How many environments there are.
    pub fn len(&self) -> (n: usize)
        ensures
            n == self.envs().len(),
    {
        self.environments.len()
    }

    /// Records that the variable occurrence at token position `id` is bound
    /// `depth` scopes out from where it is evaluated.
    pub fn resolve(&mut self, id: usize, depth: usize)
        requires
            old(self).wf(),
        ensures
            final(self).wf(),
            final(self).locals() == old(self).locals().insert(id, depth),
            final(self).envs() == old(self).envs(),
            final(self).globals() == old(self).globals(),
            final(self).current() == old(self).current(),
    {
        self.locals.insert(id, depth);
    }

    /// The environment code runs in now.
    pub fn current_environment(&self) -> (id: usize)
        ensures
            id == self.current(),
            self.wf() ==> id < self.envs().len(),
    {
        self.environment
    }

    /// Runs code in environment `id` from now on; gives the environment it
    /// ran in before, to come back to.
    pub fn enter(&mut self, id: usize) -> (previous: usize)
        requires
            old(self).wf(),
            id < old(self).envs().len(),
        ensures
            final(self).wf(),
            previous == old(self).current(),
            final(self).current() == id,
            final(self).envs() == old(self).envs(),
            final(self).globals() == old(self).globals(),
            final(self).locals() == old(self).locals(),
    {
        let previous = self.environment;
        self.environment = id;
        previous
    }

    /// A new, empty environment nested in `enclosing`.
    pub fn push_environment(&mut self, enclosing: usize) -> (id: usize)
        requires
            old(self).wf(),
            enclosing < old(self).envs().len(),
        ensures
            final(self).wf(),
            id == old(self).envs().len(),
            final(self).envs() == old(self).envs().push(
                SpecEnv { values: Map::<Seq<char>, V>::empty(), enclosing: Some(enclosing as nat) },
            ),
            final(self).globals() == old(self).globals(),
            final(self).current() == old(self).current(),
            final(self).locals() == old(self).locals(),
    {
        self.environments.push(Environment::new(Some(enclosing)))
    }

    /// Binds `name` to `value` in the environment code runs in.
    pub fn define(&mut self, name: String, value: V)
        requires
            old(self).wf(),
        ensures
            final(self).wf(),
            final(self).envs() == old(self).envs().update(
                old(self).current() as int,
                SpecEnv {
                    values: old(self).envs()[old(self).current() as int].values.insert(name@, value),
                    ..old(self).envs()[old(self).current() as int]
                },
            ),
            final(self).globals() == old(self).globals(),
            final(self).current() == old(self).current(),
            final(self).locals() == old(self).locals(),
    {
        self.environments.define(self.environment, name, value);
    }

    /// The value of the variable occurrence `name` at token position `id`:
    /// where the resolver placed it, that many environments out from the
    /// current one (and only there); else among the globals.
    pub fn look_up_variable(&self, name: &Token, id: usize) -> (r: Result<&V, String>)
        requires
            self.wf(),
        ensures
            match self.locals().get(id) {
                Some(distance) => match ancestor(self.envs(), self.current() as int, distance as nat) {
                    Some(a) => if self.envs()[a as int].values.contains_key(name.lexeme@) {
                        r matches Ok(x) && *x == self.envs()[a as int].values[name.lexeme@]
                    } else {
                        r matches Err(msg) && msg@ == undefined_message(name.lexeme@)
                    },
                    None => r matches Err(msg) && msg@ == "Environment depth is too shallow."@,
                },
                None => match lookup(self.envs(), self.globals() as int, name.lexeme@) {
                    Some(v) => r matches Ok(x) && *x == v,
                    None => r matches Err(msg) && msg@ == undefined_message(name.lexeme@),
                },
            },
    {
        match self.locals.get(&id) {
            Some(distance) => self.environments.get_at(self.environment, *distance, &name.lexeme),
            None => self.environments.get(self.globals, &name.lexeme),
        }
    }

    /// Assigns `value` to the variable occurrence `name` at token position
    /// `id`: where the resolver placed it, that many environments out from
    /// the current one (where it must be bound); else in the nearest
    /// environment along the current chain that binds it.
    pub fn assign_variable(&mut self, name: &Token, id: usize, value: V) -> (r: Result<(), String>)
        requires
            old(self).wf(),
        ensures
            final(self).wf(),
            final(self).globals() == old(self).globals(),
            final(self).current() == old(self).current(),
            final(self).locals() == old(self).locals(),
            match old(self).locals().get(id) {
                Some(distance) => match ancestor(old(self).envs(), old(self).current() as int, distance as nat) {
                    Some(a) => if old(self).envs()[a as int].values.contains_key(name.lexeme@) {
                        r is Ok && final(self).envs() == old(self).envs().update(
                            a as int,
                            SpecEnv {
                                values: old(self).envs()[a as int].values.insert(name.lexeme@, value),
                                ..old(self).envs()[a as int]
                            },
                        )
                    } else {
                        r matches Err(msg) && msg@ == undefined_at_depth_message(name.lexeme@) && final(self).envs()
                            == old(self).envs()
                    },
                    None => r matches Err(msg) && msg@ == "Environment depth is too shallow."@ && final(self).envs()
                        == old(self).envs(),
                },
                None => match holder(old(self).envs(), old(self).current() as int, name.lexeme@) {
                    Some(h) => r is Ok && final(self).envs() == old(self).envs().update(
                        h as int,
                        SpecEnv {
                            values: old(self).envs()[h as int].values.insert(name.lexeme@, value),
                            ..old(self).envs()[h as int]
                        },
                    ),
                    None => r matches Err(msg) && msg@ == undefined_message(name.lexeme@) && final(self).envs()
                        == old(self).envs(),
                },
            },
    {
        proof {
            crate::environment::lemma_ancestor_held(&self.environments, self.environment as int, 0);
            crate::environment::lemma_lookup_holder(self.environments@, self.environment as int, name.lexeme@);
            if let Some(distance) = self.locals@.get(id) {
                crate::environment::lemma_ancestor_held(
                    &self.environments,
                    self.environment as int,
                    distance as nat,
                );
            }
        }
        let r = match self.locals.get(&id) {
            Some(distance) => {
                let d = *distance;
                self.environments.assign_at(self.environment, d, name.lexeme.clone(), value)
            },
            None => self.environments.assign(self.environment, name.lexeme.clone(), value),
        };
        assert(self.environments@.len() == old(self).environments@.len());
        r
    }

    /// The environment of a call of a function whose closure is `closure`
    /// and whose parameters are `params`: nested in the closure, binding
    /// each parameter to its argument. When the numbers of parameters and
    /// arguments differ, the error that says so, and nothing changes.
    pub fn call_environment(&mut self, closure: usize, params: &Vec<Token>, arguments: Vec<V>) -> (r: Result<
        usize,
        String,
    >)
        requires
            old(self).wf(),
            closure < old(self).envs().len(),
        ensures
            final(self).wf(),
            final(self).globals() == old(self).globals(),
            final(self).current() == old(self).current(),
            final(self).locals() == old(self).locals(),
            params@.len() != arguments@.len() ==> (r matches Err(msg) && msg@ == arity_message(
                params@.len(),
                arguments@.len(),
            ) && final(self).envs() == old(self).envs()),
            params@.len() == arguments@.len() ==> (r matches Ok(id) && id == old(self).envs().len()
                && final(self).envs() == old(self).envs().push(
                SpecEnv { values: parameter_bindings(params@, arguments@), enclosing: Some(closure as nat) },
            )),
    {
        if params.len() != arguments.len() {
            return Err(arity_error(params.len(), arguments.len()));
        }
        let mut environment: Environment<V> = Environment::new(Some(closure));
        let mut arguments = arguments;
        let ghost args = arguments@;
        let n = params.len();
        let mut rest: Vec<V> = Vec::new();
        // Take the arguments off the back, then bind them front to back.
        while arguments.len() > 0
            invariant
                arguments@.len() + rest@.len() == args.len(),
                args == arguments@ + rest@.reverse(),
            decreases arguments.len(),
        {
            let v = arguments.pop().unwrap();
            proof {
                assert(rest@.push(v).reverse() =~= seq![v] + rest@.reverse());
                assert(args =~= arguments@ + rest@.push(v).reverse());
            }
            rest.push(v);
        }
        let mut i: usize = 0;
        while i < n
            invariant
                n == params@.len(),
                n == args.len(),
                i <= n,
                rest@.len() == n - i,
                forall|k: int| 0 <= k < n - i ==> #[trigger] rest@[k] == args[n - 1 - k],
                environment.wf(),
                environment@.values == parameter_bindings(params@.take(i as int), args.take(i as int)),
                environment@.enclosing == Some(closure as nat),
            decreases n - i,
        {
            let v = rest.pop().unwrap();
            proof {
                assert(v == args[i as int]);
                assert(params@.take(i + 1).drop_last() =~= params@.take(i as int));
                assert(args.take(i + 1).drop_last() =~= args.take(i as int));
            }
            environment.define(params[i].lexeme.clone(), v);
            i = i + 1;
        }
        proof {
            assert(params@.take(n as int) =~= params@);
            assert(args.take(n as int) =~= args);
        }
        Ok(self.environments.push(environment))
    }

    /// The environment of a method bound to an instance: nested in the
    /// method's closure `closure`, binding `this` to `instance`.
    pub fn bind_this(&mut self, closure: usize, instance: V) -> (id: usize)
        requires
            old(self).wf(),
            closure < old(self).envs().len(),
        ensures
            final(self).wf(),
            id == old(self).envs().len(),
            final(self).envs() == old(self).envs().push(
                SpecEnv {
                    values: Map::<Seq<char>, V>::empty().insert("this"@, instance),
                    enclosing: Some(closure as nat),
                },
            ),
            final(self).globals() == old(self).globals(),
            final(self).current() == old(self).current(),
            final(self).locals() == old(self).locals(),
    {
        let mut environment: Environment<V> = Environment::new(Some(closure));
        environment.define(String::from_str("this"), instance);
        self.environments.push(environment)
    }
}

/// In the environment of a call, a parameter is bound to the argument at its
/// place, unless a later parameter has the same name.
pub proof fn law_parameter_bound<V>(params: Seq<Token>, args: Seq<V>, i: int)
    requires
        params.len() == args.len(),
        0 <= i < params.len(),
        forall|j: int| i < j < params.len() ==> #[trigger] params[j].lexeme@ != params[i].lexeme@,
    ensures
        parameter_bindings(params, args).contains_key(params[i].lexeme@),
        parameter_bindings(params, args)[params[i].lexeme@] == args[i],
    decreases params.len(),
{
    if i < params.len() - 1 {
        let p2 = params.drop_last();
        let a2 = args.drop_last();
        assert forall|j: int| i < j < p2.len() implies #[trigger] p2[j].lexeme@ != p2[i].lexeme@ by {
            assert(p2[j] == params[j]);
        }
        law_parameter_bound(p2, a2, i);
        assert(params.last() == params[params.len() - 1]);
    }
}

} // verus!
