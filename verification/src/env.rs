//! The environment: a chain of variable scopes, the innermost one current.

use crate::parser::{Object, Value};
use vstd::hash_map::StringHashMap;
use vstd::prelude::*;
use vstd::string::StringExecFns;

verus! {

/// The bindings of one scope.
pub type Scope = Map<Seq<char>, Value>;

/// The value bound to `name` in the innermost scope that binds it, if any does.
/// The scopes stand outermost first.
pub open spec fn lookup(scopes: Seq<Scope>, name: Seq<char>) -> Option<Value>
    decreases scopes.len(),
{
    if scopes.len() == 0 {
        None
    } else if scopes.last().contains_key(name) {
        Some(scopes.last()[name])
    } else {
        lookup(scopes.drop_last(), name)
    }
}

/// The scopes after `name` was bound to `v` in the current one.
pub open spec fn bind(scopes: Seq<Scope>, name: Seq<char>, v: Value) -> Seq<Scope> {
    scopes.update(scopes.len() - 1, scopes.last().insert(name, v))
}

/// The scopes after an empty one was entered.
pub open spec fn enter(scopes: Seq<Scope>) -> Seq<Scope> {
    scopes.push(Map::empty())
}

/// The scopes after the current one was left: its parent's, or one empty scope
/// where it had no parent.
pub open spec fn leave(scopes: Seq<Scope>) -> Seq<Scope> {
    if scopes.len() > 1 {
        scopes.drop_last()
    } else {
        seq![Map::empty()]
    }
}

/// A scope of variables with the scope that encloses it, if any. The enclosing
/// scope belongs to this one until this one is left.
pub struct Env {
    parent: Option<Box<Env>>,
    vars: StringHashMap<Object>,
}

impl View for Env {
    type V = Seq<Scope>;

    /// The scopes of the chain, the outermost first and this one last.
    closed spec fn view(&self) -> Seq<Scope> {
        self.chain()
    }
}

impl Env {
    /// The scopes of the chain, the outermost first and this one last.
    pub closed spec fn chain(&self) -> Seq<Scope>
        decreases self,
    {
        match self.parent {
            Some(parent) => (*parent).chain().push(self.current()),
            None => seq![self.current()],
        }
    }

    /// The bindings of this scope alone.
    pub closed spec fn current(&self) -> Scope {
        Map::new(|name: Seq<char>| self.vars@.contains_key(name), |name: Seq<char>| self.vars@[name]@)
    }

    /// A chain always holds this scope, which is its last.
    pub proof fn lemma_view(&self)
        ensures
            self@.len() >= 1,
            self@.last() == self.current(),
    {
    }

    /// An empty scope without a parent.
    pub fn new() -> (env: Env)
        ensures
            env@ == seq![Map::<Seq<char>, Value>::empty()],
    {
        let env = Env { parent: None, vars: StringHashMap::new() };
        assert(env.current() =~= Map::<Seq<char>, Value>::empty());
        env
    }

    /// An empty scope whose parent is the given one.
    pub fn new_scope(parent: Env) -> (env: Env)
        ensures
            env@ == enter(parent@),
    {
        let env = Env { parent: Some(Box::new(parent)), vars: StringHashMap::new() };
        assert(env.current() =~= Map::<Seq<char>, Value>::empty());
        env
    }

    /// Enters an empty scope, of which the scope so far becomes the parent.
    pub fn push_scope(&mut self)
        ensures
            final(self)@ == enter(old(self)@),
    {
        let mut outer = Env::new();
        core::mem::swap(self, &mut outer);
        *self = Env::new_scope(outer);
    }

    /// Leaves this scope: it becomes what its parent was, or empty where it has none.
    pub fn remove_scope(&mut self)
        ensures
            final(self)@ == leave(old(self)@),
    {
        match self.parent.take() {
            Some(parent) => {
                *self = *parent;
            },
            None => {
                self.vars.clear();
                assert(self.current() =~= Map::<Seq<char>, Value>::empty());
            },
        }
    }

    /// The value bound to `name` in this scope or, where it binds none, in the
    /// nearest enclosing scope that does.
    pub fn get(&self, name: &str) -> (r: Option<Object>)
        ensures
            match r {
                Some(v) => lookup(self@, name@) == Some(v@),
                None => lookup(self@, name@) is None,
            },
        decreases self,
    {
        proof {
            self.lemma_view();
        }
        match self.vars.get(name) {
            Some(value) => Some(value.clone()),
            None => match &self.parent {
                Some(parent) => {
                    assert(self@.drop_last() =~= parent@);
                    parent.get(name)
                },
                None => None,
            },
        }
    }

    /// Binds `name` to `value` in this scope, over any binding it had there. No
    /// enclosing scope changes.
    pub fn set(&mut self, name: &str, value: Object)
        ensures
            final(self)@ == bind(old(self)@, name@, value@),
    {
        self.vars.insert(String::from_str(name), value);
        assert(final(self).current() =~= old(self).current().insert(name@, value@));
    }

    /// The variables of this scope alone.
    pub fn vars(&self) -> (vars: &StringHashMap<Object>)
        ensures
            vars@.dom() == self@.last().dom(),
            forall|name: Seq<char>| #[trigger]
                vars@.contains_key(name) ==> vars@[name]@ == self@.last()[name],
    {
        &self.vars
    }
}

} // verus!
