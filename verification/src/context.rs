//! The two-layer variable store scripts run against: a per-request local
//! map over a per-worker global map.
//!
//! Reads consult the local layer first, then the global one.  Writes always
//! land in the local layer and reach the global one only for names the
//! global layer already holds; `save_variables_as_global` is the one
//! primitive that installs new global names, used once per worker after the
//! global init script has run.
use crate::config;
use crate::error::Error;
use crate::value::assoc_contains;
use crate::value::assoc_find;
use crate::value::assoc_set;
use crate::value::Value;
use crate::value::ValueModel;
use crate::value::VarMap;
use vstd::prelude::*;

verus! {

use vstd::string::StringExecFns;

/// The per-worker global variable store.
#[derive(Debug)]
pub struct Global {
    pub variables: VarMap,
}

impl Global {
    /// A fresh, empty global store; the configured global section only
    /// carries the init script, which runs later.
    pub fn new(_configs: config::Global) -> (r: Global)
        ensures
            r.variables@ == Seq::<(Seq<char>, ValueModel)>::empty(),
    {
        Global { variables: VarMap::new() }
    }

    /// A fresh, empty global store.
    pub fn empty() -> (r: Global)
        ensures
            r.variables@ == Seq::<(Seq<char>, ValueModel)>::empty(),
    {
        Global { variables: VarMap::new() }
    }

    /// The value bound to `variable_name`, if any.
    pub fn get_variable_value(&self, variable_name: &str) -> (r: Option<&Value>)
        ensures
            match r {
                Some(v) => assoc_find(self.variables@, variable_name@) == Some(v.model()),
                None => assoc_find(self.variables@, variable_name@) is None,
            },
    {
        self.variables.get(variable_name)
    }

    /// Rebinds `variable_name` only when it is already bound; an unknown
    /// name leaves the store unchanged.
    pub fn update_variable_value(&mut self, variable_name: &str, value: Value)
        ensures
            final(self).variables@ == (if assoc_contains(old(self).variables@, variable_name@) {
                assoc_set(old(self).variables@, variable_name@, value.model())
            } else {
                old(self).variables@
            }),
    {
        if self.variables.contains_key(variable_name) {
            self.variables.insert(variable_name, value);
        }
    }

    /// Binds `variable_name` unconditionally.
    pub fn insert_variable(&mut self, variable_name: &str, value: Value)
        ensures
            final(self).variables@ == assoc_set(
                old(self).variables@,
                variable_name@,
                value.model(),
            ),
    {
        self.variables.insert(variable_name, value);
    }
}

/// The per-request local variable store.
#[derive(Debug)]
pub struct Local {
    pub variables: VarMap,
}

/// A script's view of the world: its own local bindings layered over the
/// worker's global store.
#[derive(Debug)]
pub struct ScriptContext {
    pub local: Local,
    pub global: Global,
}

/// The layered lookup: the local binding when one exists, else the global
/// one, else nothing.
pub open spec fn lookup_layered(
    local: Seq<(Seq<char>, ValueModel)>,
    global: Seq<(Seq<char>, ValueModel)>,
    name: Seq<char>,
) -> Option<ValueModel> {
    if assoc_contains(local, name) {
        assoc_find(local, name)
    } else {
        assoc_find(global, name)
    }
}

impl ScriptContext {
    /// What `get_variable` sees for `name` in this context.
    pub open spec fn lookup(self, name: Seq<char>) -> Option<ValueModel> {
        lookup_layered(self.local.variables@, self.global.variables@, name)
    }

    /// A fresh context over `global`, with no local bindings.
    pub fn new(global: Global) -> (r: ScriptContext)
        ensures
            r.local.variables@ == Seq::<(Seq<char>, ValueModel)>::empty(),
            r.global == global,
    {
        ScriptContext { local: Local { variables: VarMap::new() }, global }
    }

    /// Layered read: the local binding first, else the global one.
    pub fn get_variable(&self, name: &str) -> (r: Option<Value>)
        ensures
            match r {
                Some(v) => self.lookup(name@) == Some(v.model()),
                None => self.lookup(name@) is None,
            },
    {
        let local_value = self.local.variables.get(name);
        if let Some(value) = local_value {
            return Some(value.clone());
        }
        let global_value = self.global.variables.get(name);
        if let Some(value) = global_value {
            return Some(value.clone());
        }
        None
    }

    /// Layered read that fails with a `ScriptError` naming the variable
    /// when neither layer binds it.
    pub fn must_get_variable(&self, name: &str) -> (r: Result<Value, Error>)
        ensures
            r is Ok <==> self.lookup(name@) is Some,
            r matches Ok(v) ==> self.lookup(name@) == Some(v.model()),
            r matches Err(e) ==> e matches Error::ScriptError(m) && m@ == "Variable '"@ + name@
                + "' not found"@,
    {
        match self.get_variable(name) {
            Some(value) => Ok(value),
            None => {
                let msg = String::from_str("Variable '").concat(name).concat("' not found");
                proof {
                    assert(msg@ =~= "Variable '"@ + name@ + "' not found"@);
                }
                Err(Error::ScriptError(msg))
            },
        }
    }

    /// Writes `name` in the local layer, and in the global layer only if
    /// the global layer already binds it: an unknown name never creates a
    /// new global binding.
    pub fn set_variable(&mut self, name: &str, value: Value)
        ensures
            final(self).local.variables@ == assoc_set(
                old(self).local.variables@,
                name@,
                value.model(),
            ),
            final(self).global.variables@ == (if assoc_contains(
                old(self).global.variables@,
                name@,
            ) {
                assoc_set(old(self).global.variables@, name@, value.model())
            } else {
                old(self).global.variables@
            }),
    {
        let copy = value.clone();
        self.set_local_variable(name, copy);
        self.global.update_variable_value(name, value);
    }

    /// Writes `name` in the local layer only.
    pub fn set_local_variable(&mut self, name: &str, value: Value)
        ensures
            final(self).local.variables@ == assoc_set(
                old(self).local.variables@,
                name@,
                value.model(),
            ),
            final(self).global == old(self).global,
    {
        self.local.variables.insert(name, value);
    }

    /// Installs every local binding into the global store, in insertion
    /// order; used once per worker after the global init script has run.
    pub fn save_variables_as_global(&mut self)
        ensures
            final(self).global.variables@ == set_all(
                old(self).global.variables@,
                old(self).local.variables@,
            ),
            final(self).local == old(self).local,
    {
        let ghost locals = self.local.variables@;
        let ghost g0 = self.global.variables@;
        let n = self.local.variables.len();
        let mut i: usize = 0;
        proof {
            assert(locals.take(0) =~= Seq::<(Seq<char>, ValueModel)>::empty());
        }
        #[verifier::loop_isolation(false)]
        while i < n
            invariant
                i <= n,
                n == locals.len(),
                self.local == old(self).local,
                self.global.variables@ == set_all(g0, locals.take(i as int)),
            decreases n - i,
        {
            let entry = self.local.variables.entry(i);
            let name_chars = crate::text::chars_of(entry.0.as_str());
            let name = crate::text::string_of(&name_chars);
            let value = entry.1.clone();
            proof {
                lemma_set_all_snoc(g0, locals, i as int);
            }
            self.global.variables.insert(name.as_str(), value);
            i = i + 1;
        }
        proof {
            assert(locals.take(n as int) =~= locals);
        }
    }
}

/// `g` after binding every pair of `l` in order, each through the
/// unconditional insert.
pub open spec fn set_all(
    g: Seq<(Seq<char>, ValueModel)>,
    l: Seq<(Seq<char>, ValueModel)>,
) -> Seq<(Seq<char>, ValueModel)>
    decreases l.len(),
{
    if l.len() == 0 {
        g
    } else {
        assoc_set(set_all(g, l.drop_last()), l.last().0, l.last().1)
    }
}

proof fn lemma_set_all_snoc(g: Seq<(Seq<char>, ValueModel)>, l: Seq<(Seq<char>, ValueModel)>, i: int)
    requires
        0 <= i < l.len(),
    ensures
        set_all(g, l.take(i + 1)) == assoc_set(set_all(g, l.take(i)), l[i].0, l[i].1),
{
    assert(l.take(i + 1).drop_last() =~= l.take(i));
    assert(l.take(i + 1).last() == l[i]);
}

/// Context layering after a write: once `set_variable(name, v)` has run,
/// `get_variable(name)` yields `v`, whatever the global layer held before.
pub proof fn lemma_get_after_set(
    local: Seq<(Seq<char>, ValueModel)>,
    global: Seq<(Seq<char>, ValueModel)>,
    name: Seq<char>,
    v: ValueModel,
)
    ensures
        lookup_layered(assoc_set(local, name, v), global, name) == Some(v),
{
    crate::value::lemma_assoc_find_set_same(local, name, v);
}

/// A write to one name leaves what the context sees for every other name
/// unchanged, in both layers.
pub proof fn lemma_set_preserves_others(
    local: Seq<(Seq<char>, ValueModel)>,
    global: Seq<(Seq<char>, ValueModel)>,
    name: Seq<char>,
    v: ValueModel,
    other: Seq<char>,
)
    requires
        other != name,
    ensures
        lookup_layered(assoc_set(local, name, v), assoc_set(global, name, v), other)
            == lookup_layered(local, global, other),
        lookup_layered(assoc_set(local, name, v), global, other) == lookup_layered(
            local,
            global,
            other,
        ),
{
    crate::value::lemma_assoc_find_set_other(local, name, v, other);
    crate::value::lemma_assoc_find_set_other(global, name, v, other);
}

} // verus!
