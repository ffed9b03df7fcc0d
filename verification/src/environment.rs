//! The chain of scopes that holds the variables of a running program.
//!
//! An environment is a scope and, unless it is the outermost one, the
//! environment that encloses it. Its content is the sequence of its scopes,
//! the innermost first.

use crate::interpreter::{RuntimeError, RuntimeErrorView};
use crate::scanner::{LiteralValue, Token, Value};
use vstd::prelude::*;

verus! {

/// The variables of one scope, by name.
pub type Scope = Map<Seq<char>, Value>;

/// The value of `name` in the innermost scope of `scopes` that holds it.
pub open spec fn lookup(scopes: Seq<Scope>, name: Seq<char>) -> Option<Value>
    decreases scopes.len(),
{
    if scopes.len() == 0 {
        None
    } else if scopes[0].dom().contains(name) {
        Some(scopes[0][name])
    } else {
        lookup(scopes.drop_first(), name)
    }
}

/// `scopes` after `name` got `value` in the innermost scope that holds it;
/// unchanged if none holds it.
pub open spec fn assigned(scopes: Seq<Scope>, name: Seq<char>, value: Value) -> Seq<Scope>
    decreases scopes.len(),
{
    if scopes.len() == 0 {
        scopes
    } else if scopes[0].dom().contains(name) {
        scopes.update(0, scopes[0].insert(name, value))
    } else {
        seq![scopes[0]] + assigned(scopes.drop_first(), name, value)
    }
}

/// `scopes` after `name` was declared with `value` in the innermost scope,
/// whether or not that scope held it before.
pub open spec fn defined(scopes: Seq<Scope>, name: Seq<char>, value: Value) -> Seq<Scope> {
    scopes.update(0, scopes[0].insert(name, value))
}

/// `scopes` with a new empty scope inside them.
pub open spec fn entered(scopes: Seq<Scope>) -> Seq<Scope> {
    seq![Map::empty()] + scopes
}

/// A declared name is found with its value.
pub proof fn lemma_define_then_lookup(scopes: Seq<Scope>, name: Seq<char>, value: Value)
    requires
        scopes.len() >= 1,
    ensures
        lookup(defined(scopes, name, value), name) == Some(value),
{
}

/// A declaration in a new scope shadows the name in the scopes around it,
/// and closing the new scope gives those scopes back unchanged.
pub proof fn lemma_shadowing(scopes: Seq<Scope>, name: Seq<char>, value: Value)
    ensures
        lookup(defined(entered(scopes), name, value), name) == Some(value),
        defined(entered(scopes), name, value).drop_first() == scopes,
{
    assert(defined(entered(scopes), name, value).drop_first() =~= scopes);
}

/// An assigned name is found with its new value.
pub proof fn lemma_assign_then_lookup(scopes: Seq<Scope>, name: Seq<char>, value: Value)
    requires
        lookup(scopes, name) is Some,
    ensures
        lookup(assigned(scopes, name, value), name) == Some(value),
    decreases scopes.len(),
{
    if scopes.len() > 0 && !scopes[0].dom().contains(name) {
        lemma_assign_then_lookup(scopes.drop_first(), name, value);
        let changed = assigned(scopes, name, value);
        assert(changed[0] == scopes[0]);
        assert(changed.drop_first() =~= assigned(scopes.drop_first(), name, value));
    }
}

/// An assignment to a name that no scope holds changes nothing: it never
/// declares the name.
pub proof fn lemma_assign_declares_nothing(scopes: Seq<Scope>, name: Seq<char>, value: Value)
    requires
        lookup(scopes, name) is None,
    ensures
        assigned(scopes, name, value) == scopes,
        lookup(assigned(scopes, name, value), name) is None,
    decreases scopes.len(),
{
    if scopes.len() > 0 {
        lemma_assign_declares_nothing(scopes.drop_first(), name, value);
        assert(seq![scopes[0]] + scopes.drop_first() =~= scopes);
    }
}

/// The variables that a list of bindings holds: of two bindings of one name
/// the later counts.
pub open spec fn bindings(entries: Seq<(String, LiteralValue)>) -> Scope
    decreases entries.len(),
{
    if entries.len() == 0 {
        Map::empty()
    } else {
        bindings(entries.drop_last()).insert(entries.last().0@, entries.last().1@)
    }
}

/// The binding at `i` is the last one of `name`.
pub open spec fn last_binding(entries: Seq<(String, LiteralValue)>, i: int, name: Seq<char>) -> bool {
    &&& 0 <= i < entries.len()
    &&& entries[i].0@ == name
    &&& forall|j: int| i < j < entries.len() ==> (#[trigger] entries[j]).0@ != name
}

/// No binding is one of `name`.
pub open spec fn unbound(entries: Seq<(String, LiteralValue)>, name: Seq<char>) -> bool {
    forall|j: int| 0 <= j < entries.len() ==> (#[trigger] entries[j]).0@ != name
}

/// The last binding of a name is what the scope holds for it.
proof fn lemma_last_binding(entries: Seq<(String, LiteralValue)>, i: int, name: Seq<char>)
    requires
        last_binding(entries, i, name),
    ensures
        bindings(entries).dom().contains(name),
        bindings(entries)[name] == entries[i].1@,
    decreases entries.len(),
{
    if i < entries.len() - 1 {
        let shorter = entries.drop_last();
        assert(last_binding(shorter, i, name)) by {
            assert forall|j: int| i < j < shorter.len() implies (#[trigger] shorter[j]).0@
                != name by {
                assert(shorter[j] == entries[j]);
            }
        }
        lemma_last_binding(shorter, i, name);
        assert(entries.last() == entries[entries.len() - 1]);
    }
}

/// A scope holds no name without a binding.
proof fn lemma_unbound(entries: Seq<(String, LiteralValue)>, name: Seq<char>)
    requires
        unbound(entries, name),
    ensures
        !bindings(entries).dom().contains(name),
    decreases entries.len(),
{
    if entries.len() > 0 {
        let shorter = entries.drop_last();
        assert(unbound(shorter, name)) by {
            assert forall|j: int| 0 <= j < shorter.len() implies (#[trigger] shorter[j]).0@
                != name by {
                assert(shorter[j] == entries[j]);
            }
        }
        lemma_unbound(shorter, name);
        assert(entries.last() == entries[entries.len() - 1]);
    }
}

/// Replacing the last binding of a name gives the name its new value and
/// changes nothing else.
proof fn lemma_rebind(
    entries: Seq<(String, LiteralValue)>,
    i: int,
    entry: (String, LiteralValue),
)
    requires
        last_binding(entries, i, entry.0@),
    ensures
        bindings(entries.update(i, entry)) == bindings(entries).insert(entry.0@, entry.1@),
    decreases entries.len(),
{
    let changed = entries.update(i, entry);
    if i == entries.len() - 1 {
        assert(changed.drop_last() =~= entries.drop_last());
        assert(changed.last() == entry);
        assert(bindings(changed) =~= bindings(entries).insert(entry.0@, entry.1@));
    } else {
        let shorter = entries.drop_last();
        assert(last_binding(shorter, i, entry.0@)) by {
            assert forall|j: int| i < j < shorter.len() implies (#[trigger] shorter[j]).0@
                != entry.0@ by {
                assert(shorter[j] == entries[j]);
            }
        }
        lemma_rebind(shorter, i, entry);
        assert(changed.drop_last() =~= shorter.update(i, entry));
        assert(changed.last() == entries.last());
        assert(entries.last() == entries[entries.len() - 1]);
        assert(bindings(changed) =~= bindings(entries).insert(entry.0@, entry.1@));
    }
}

/// One scope of variables and the environment that encloses it.
pub struct Environment {
    values: Vec<(String, LiteralValue)>,
    enclosing: Option<Box<Environment>>,
}

impl Environment {
    /// The scopes of the chain, the innermost first.
    pub closed spec fn scopes(&self) -> Seq<Scope>
        decreases self,
    {
        seq![bindings(self.values@)] + match self.enclosing {
            Some(outer) => outer.scopes(),
            None => Seq::empty(),
        }
    }

    /// The scopes around the innermost one.
    spec fn outer_scopes(&self) -> Seq<Scope> {
        match self.enclosing {
            Some(outer) => outer.scopes(),
            None => Seq::empty(),
        }
    }

    /// The chain without its innermost scope is the chain of the enclosing
    /// environment.
    proof fn lemma_outer(&self)
        ensures
            self.scopes() == seq![bindings(self.values@)] + self.outer_scopes(),
            self.scopes().drop_first() == self.outer_scopes(),
            self.scopes()[0] == bindings(self.values@),
            self.scopes().len() == 1 + self.outer_scopes().len(),
            self.enclosing is Some <==> self.outer_scopes().len() > 0,
    {
        assert(self.scopes().drop_first() =~= self.outer_scopes());
        match self.enclosing {
            Some(outer) => {
                outer.lemma_depth();
            },
            None => {},
        }
    }

    /// The number of scopes of the chain.
    pub closed spec fn depth(&self) -> nat
        decreases self,
    {
        match self.enclosing {
            Some(outer) => 1 + outer.depth(),
            None => 1,
        }
    }

    /// The chain has as many scopes as it is deep, and at least one.
    pub proof fn lemma_depth(&self)
        ensures
            self.scopes().len() == self.depth(),
            self.depth() >= 1,
        decreases self,
    {
        match self.enclosing {
            Some(outer) => {
                outer.lemma_depth();
            },
            None => {},
        }
    }

    /// A chain has at least one scope.
    pub proof fn lemma_nonempty(&self)
        ensures
            self@.len() >= 1,
    {
        self.lemma_depth();
    }

    /// An environment with an empty scope inside `enclosing`, or the
    /// outermost one if there is no `enclosing`.
    pub fn new(enclosing: Option<Box<Environment>>) -> (r: Self)
        ensures
            r@ == entered(
                match enclosing {
                    Some(outer) => outer@,
                    None => Seq::empty(),
                },
            ),
    {
        Environment { values: Vec::new(), enclosing }
    }

    /// The index of the last binding of `name` in the innermost scope.
    fn find(&self, name: &String) -> (r: Option<usize>)
        ensures
            match r {
                Some(i) => last_binding(self.values@, i as int, name@),
                None => unbound(self.values@, name@),
            },
    {
        let mut i: usize = self.values.len();
        while i > 0
            invariant
                i <= self.values.len(),
                forall|j: int| i <= j < self.values.len() ==> (#[trigger] self.values@[j]).0@ != name@,
            decreases i,
        {
            i -= 1;
            if self.values[i].0 == *name {
                return Some(i);
            }
        }
        None
    }

    /// Declares `name` with `value` in the innermost scope. A name that the
    /// scope holds already gets the new value.
    pub fn define(&mut self, name: String, value: LiteralValue)
        ensures
            final(self)@ == defined(old(self)@, name@, value@),
    {
        let ghost before = self.values@;
        match self.find(&name) {
            Some(i) => {
                proof {
                    lemma_rebind(before, i as int, (name, value));
                }
                self.values.set(i, (name, value));
            },
            None => {
                self.values.push((name, value));
                assert(self.values@.drop_last() =~= before);
            },
        }
        assert(final(self)@ =~= defined(old(self)@, name@, value@));
    }

    /// The value of the variable that `name` names, from the innermost scope
    /// that holds it.
    pub fn get(&self, name: &Token) -> (r: Result<LiteralValue, RuntimeError>)
        ensures
            match (lookup(self@, name.lexeme@), r) {
                (Some(value), Ok(found)) => found@ == value,
                (None, Err(error)) => error@ == RuntimeErrorView::UndefinedVariable(name@),
                _ => false,
            },
        decreases self,
    {
        proof {
            self.lemma_outer();
        }
        match self.find(&name.lexeme) {
            Some(i) => {
                proof {
                    lemma_last_binding(self.values@, i as int, name.lexeme@);
                }
                let found = self.values[i].1.clone();
                assert(lookup(self@, name.lexeme@) == Some(found@));
                Ok(found)
            },
            None => {
                proof {
                    lemma_unbound(self.values@, name.lexeme@);
                }
                assert(lookup(self@, name.lexeme@) == lookup(self.outer_scopes(), name.lexeme@));
                match &self.enclosing {
                    Some(outer) => {
                        assert(outer@ == self.outer_scopes());
                        outer.get(name)
                    },
                    None => {
                        assert(lookup(self.outer_scopes(), name.lexeme@) is None);
                        Err(RuntimeError::UndefinedVariable(name.clone()))
                    },
                }
            },
        }
    }

    /// Gives `value` to the variable that `name` names, in the innermost
    /// scope that holds it. A name that no scope holds is an error, and
    /// nothing changes.
    pub fn assign(&mut self, name: &Token, value: LiteralValue) -> (r: Result<(), RuntimeError>)
        ensures
            match (lookup(old(self)@, name.lexeme@), r) {
                (Some(_), Ok(_)) => final(self)@ == assigned(old(self)@, name.lexeme@, value@),
                (None, Err(error)) => error@ == RuntimeErrorView::UndefinedVariable(name@) && final(self)@ == old(self)@,
                _ => false,
            },
        decreases old(self).depth(),
    {
        let ghost before = self.values@;
        proof {
            self.lemma_outer();
        }
        match self.find(&name.lexeme) {
            Some(i) => {
                let key = name.lexeme.clone();
                proof {
                    lemma_last_binding(before, i as int, name.lexeme@);
                    lemma_rebind(before, i as int, (key, value));
                }
                self.values.set(i, (key, value));
                proof {
                    self.lemma_outer();
                    assert(lookup(old(self)@, name.lexeme@) is Some);
                    assert(self.outer_scopes() == old(self).outer_scopes());
                    assert(self@ =~= assigned(old(self)@, name.lexeme@, value@));
                }
                Ok(())
            },
            None => {
                proof {
                    lemma_unbound(before, name.lexeme@);
                }
                assert(lookup(self@, name.lexeme@) == lookup(self.outer_scopes(), name.lexeme@));
                assert(assigned(self@, name.lexeme@, value@) == seq![bindings(before)] + assigned(
                    self.outer_scopes(),
                    name.lexeme@,
                    value@,
                ));
                match &mut self.enclosing {
                    Some(outer) => {
                        assert(outer@ == old(self).outer_scopes());
                        let r = outer.assign(name, value);
                        r
                    },
                    None => {
                        assert(lookup(self.outer_scopes(), name.lexeme@) is None);
                        Err(RuntimeError::UndefinedVariable(name.clone()))
                    },
                }
            },
        }
    }

    /// Opens a new empty scope inside the current one.
    pub fn enter(&mut self)
        ensures
            final(self)@ == entered(old(self)@),
    {
        let mut inner = Environment::new(None);
        core::mem::swap(self, &mut inner);
        self.enclosing = Some(Box::new(inner));
    }

    /// Whether the innermost scope has one that encloses it.
    pub fn is_enclosed(&self) -> (r: bool)
        ensures
            r == (self@.len() > 1),
    {
        proof {
            self.lemma_outer();
        }
        self.enclosing.is_some()
    }

    /// Closes the innermost scope. The outermost scope stays.
    pub fn leave(&mut self)
        ensures
            final(self)@ == if old(self)@.len() > 1 {
                old(self)@.drop_first()
            } else {
                old(self)@
            },
    {
        proof {
            self.lemma_outer();
        }
        let outer = self.enclosing.take();
        match outer {
            Some(environment) => {
                assert(old(self)@.drop_first() =~= environment@);
                *self = *environment;
            },
            None => {
                assert(final(self)@ =~= old(self)@);
            },
        }
    }
}

impl View for Environment {
    type V = Seq<Scope>;

    closed spec fn view(&self) -> Seq<Scope> {
        self.scopes()
    }
}

} // verus!
