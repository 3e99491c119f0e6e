use vstd::prelude::*;
use crate::value::{Value, Bindings};

verus! {

/// A chain of scopes, innermost first.
pub type Scopes = Seq<Map<Seq<char>, Value>>;

/// The value of `name` in the innermost scope that binds it.
pub open spec fn lookup_scopes(scopes: Scopes, name: Seq<char>) -> Option<Value>
    decreases scopes.len(),
{
    if scopes.len() == 0 {
        None
    } else if scopes[0].contains_key(name) {
        Some(scopes[0][name])
    } else {
        lookup_scopes(scopes.drop_first(), name)
    }
}

/// The scopes after rebinding `name` in the innermost scope that binds it;
/// `None` when no scope does.
pub open spec fn assign_scopes(scopes: Scopes, name: Seq<char>, v: Value) -> Option<Scopes>
    decreases scopes.len(),
{
    if scopes.len() == 0 {
        None
    } else if scopes[0].contains_key(name) {
        Some(scopes.update(0, scopes[0].insert(name, v)))
    } else {
        match assign_scopes(scopes.drop_first(), name, v) {
            Some(rest) => Some(seq![scopes[0]] + rest),
            None => None,
        }
    }
}

/// One scope of variables with a link to the enclosing scope.
#[derive(Debug)]
pub struct Environment {
    values: Bindings<Value>,
    parent: Option<Box<Environment>>,
}

spec fn scopes_of(e: Environment) -> Scopes
    decreases e,
{
    match e.parent {
        None => seq![e.values@],
        Some(p) => seq![e.values@] + scopes_of(*p),
    }
}

proof fn lemma_scopes_nonempty(e: Environment)
    ensures
        scopes_of(e).len() >= 1,
        scopes_of(e)[0] == e.values@,
    decreases e,
{
    if let Some(p) = e.parent {
        lemma_scopes_nonempty(*p);
    }
}

impl View for Environment {
    type V = Scopes;

    closed spec fn view(&self) -> Scopes {
        scopes_of(*self)
    }
}

impl Environment {
    /// Every environment has at least its own scope.
    pub proof fn lemma_nonempty(&self)
        ensures
            self@.len() >= 1,
    {
        lemma_scopes_nonempty(*self);
    }

    /// A top-level scope with no variables.
    pub fn new() -> (e: Self)
        ensures
            e@ == seq![Map::<Seq<char>, Value>::empty()],
    {
        Environment { values: Bindings::new(), parent: None }
    }

    /// An empty scope enclosed by `parent`.
    pub fn with_parent(parent: Environment) -> (e: Self)
        ensures
            e@ == seq![Map::<Seq<char>, Value>::empty()] + parent@,
    {
        Environment { values: Bindings::new(), parent: Some(Box::new(parent)) }
    }

    /// Binds `name` in this scope, replacing a binding of it here.
    pub fn define(&mut self, name: String, value: Value)
        ensures
            final(self)@ == old(self)@.update(0, old(self)@[0].insert(name@, value)),
    {
        proof { lemma_scopes_nonempty(*self); }
        self.values.insert(name, value);
        proof {
            assert(self@ =~= old(self)@.update(0, old(self)@[0].insert(name@, value)));
        }
    }

    /// The value of `name` in the innermost scope that binds it.
    pub fn get(&self, name: &str) -> (r: Option<&Value>)
        ensures
            match lookup_scopes(self@, name@) {
                Some(v) => r == Some(&v),
                None => r is None,
            },
        decreases self@.len(),
    {
        proof { lemma_scopes_nonempty(*self); }
        match self.values.get(name) {
            Some(v) => Some(v),
            None => match &self.parent {
                Some(p) => {
                    proof { assert(self@.drop_first() =~= p@); }
                    p.get(name)
                },
                None => None,
            },
        }
    }

    /// Rebinds `name` in the innermost scope that binds it; an error when no
    /// scope does.
    pub fn set(&mut self, name: &str, value: Value) -> (r: Result<(), String>)
        ensures
            match assign_scopes(old(self)@, name@, value) {
                Some(sc) => r is Ok && final(self)@ == sc,
                None => r matches Err(m) && m@ == "Undefined variable: '"@ + name@ + "'"@
                    && final(self)@ == old(self)@,
            },
        decreases old(self)@.len(),
    {
        proof { lemma_scopes_nonempty(*self); }
        if self.values.contains_key(name) {
            self.values.insert(String::from_str(name), value);
            proof {
                assert(self@ =~= old(self)@.update(0, old(self)@[0].insert(name@, value)));
            }
            return Ok(());
        }
        let mut parent: Option<Box<Environment>> = None;
        std::mem::swap(&mut parent, &mut self.parent);
        match parent {
            Some(mut p) => {
                let ghost p0 = *p;
                proof {
                    assert(old(self)@ == seq![old(self).values@] + p0@);
                    assert(!old(self)@[0].contains_key(name@));
                    assert(old(self)@.drop_first() =~= p0@);
                    assert(assign_scopes(old(self)@, name@, value) == match assign_scopes(p0@, name@, value) {
                        Some(rest) => Some(seq![old(self)@[0]] + rest),
                        None => None,
                    });
                }
                let r = p.set(name, value);
                self.parent = Some(p);
                proof {
                    assert(self@ == seq![self.values@] + p@);
                    assert(self.values@ == old(self)@[0]);
                    match assign_scopes(p0@, name@, value) {
                        Some(rest) => assert(self@ =~= seq![old(self)@[0]] + rest),
                        None => assert(self@ =~= old(self)@),
                    }
                }
                r
            },
            None => {
                let mut m = String::from_str("Undefined variable: '");
                m.append(name);
                m.append("'");
                proof {
                    assert(old(self)@.drop_first() =~= Seq::<Map<Seq<char>, Value>>::empty());
                }
                Err(m)
            },
        }
    }

    /// The enclosing scope; this one is dropped.
    pub fn into_parent(self) -> (r: Option<Environment>)
        ensures
            match r {
                Some(p) => self@.len() > 1 && p@ == self@.drop_first(),
                None => self@.len() == 1,
            },
    {
        proof { lemma_scopes_nonempty(self); }
        match self.parent {
            Some(p) => {
                proof {
                    lemma_scopes_nonempty(*p);
                    assert(self@.drop_first() =~= p@);
                }
                Some(*p)
            },
            None => None,
        }
    }
}


/// A variable defined in the innermost scope is found with the value it was
/// given, whatever the enclosing scopes bind.
pub proof fn law_define_then_get(scopes: Scopes, name: Seq<char>, v: Value)
    requires
        scopes.len() >= 1,
    ensures
        lookup_scopes(scopes.update(0, scopes[0].insert(name, v)), name) == Some(v),
{
}

/// A new scope sees every variable of the scope it encloses.
pub proof fn law_child_sees_parent(parent: Scopes, name: Seq<char>)
    ensures
        lookup_scopes(seq![Map::<Seq<char>, Value>::empty()] + parent, name) == lookup_scopes(parent, name),
{
    assert((seq![Map::<Seq<char>, Value>::empty()] + parent).drop_first() =~= parent);
}

/// Assignment succeeds exactly for a defined variable; afterwards the
/// variable has the new value, the chain keeps its length, and every other
/// variable keeps its value.
pub proof fn law_set_then_get(scopes: Scopes, name: Seq<char>, v: Value)
    ensures
        assign_scopes(scopes, name, v) is Some <==> lookup_scopes(scopes, name) is Some,
        assign_scopes(scopes, name, v) matches Some(sc) ==> {
            &&& lookup_scopes(sc, name) == Some(v)
            &&& sc.len() == scopes.len()
            &&& forall|other: Seq<char>| other != name ==> lookup_scopes(sc, other) == lookup_scopes(scopes, other)
        },
    decreases scopes.len(),
{
    if scopes.len() > 0 && !scopes[0].contains_key(name) {
        law_set_then_get(scopes.drop_first(), name, v);
        if let Some(rest) = assign_scopes(scopes.drop_first(), name, v) {
            let sc = seq![scopes[0]] + rest;
            assert(sc.drop_first() =~= rest);
            assert forall|other: Seq<char>| other != name implies lookup_scopes(sc, other) == lookup_scopes(scopes, other) by {
                if !scopes[0].contains_key(other) {
                    assert(lookup_scopes(rest, other) == lookup_scopes(scopes.drop_first(), other));
                }
            }
        }
    } else if scopes.len() > 0 {
        let sc = scopes.update(0, scopes[0].insert(name, v));
        assert(sc.drop_first() =~= scopes.drop_first());
    }
}

} // verus!
