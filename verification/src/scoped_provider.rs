//! Places for the values of nested Luau functions and their block scopes.
//!
//! Every function has its own [`FunctionProvider`]; a nested function
//! continues the numbering of locals of the function around it, and that
//! function continues after the nested one's highest local. A block scope
//! forgets, when it closes, the free locals created inside it.

use vstd::prelude::*;

use crate::function_provider::{FunctionModel, FunctionProvider};
use crate::index_provider::{IndexModel, below};
use crate::place::{Name, Place};
use crate::table_provider::TableModel;

verus! {

/// The abstract state of a [`ScopedProvider`]: the providers of the open
/// functions, innermost last, and the local count at each open block scope.
pub struct ScopedModel {
    pub functions: Seq<FunctionModel>,
    pub first_names: Seq<u32>,
}

/// `f` with its count of created locals set to `names`.
pub open spec fn with_names(f: FunctionModel, names: u32) -> FunctionModel {
    FunctionModel { locals: IndexModel { names, ..f.locals }, ..f }
}

impl ScopedModel {
    /// The provider of the innermost open function.
    pub open spec fn current(self) -> FunctionModel {
        self.functions.last()
    }

    /// `self` with the innermost function's provider replaced by `f`.
    pub open spec fn with_current(self, f: FunctionModel) -> ScopedModel {
        ScopedModel { functions: self.functions.update(self.functions.len() - 1, f), ..self }
    }

    /// Closing a block scope forgets the free locals created since it opened.
    pub open spec fn pop_local_scope(self) -> ScopedModel {
        let f = self.current();
        ScopedModel {
            functions: self.functions.update(
                self.functions.len() - 1,
                FunctionModel {
                    locals: IndexModel {
                        free: f.locals.free.filter(below(self.first_names.last())),
                        ..f.locals
                    },
                    ..f
                },
            ),
            first_names: self.first_names.drop_last(),
        }
    }

    /// Opening a block scope records the current count of created locals.
    pub open spec fn push_local_scope(self) -> ScopedModel {
        ScopedModel { first_names: self.first_names.push(self.current().locals.names), ..self }
    }

    /// Closing a function hands its count of created locals back to the
    /// function around it.
    pub open spec fn pop_function_scope(self) -> ScopedModel {
        let inner = self.current();
        let rest = self.functions.drop_last();
        ScopedModel {
            functions: if rest.len() > 0 {
                rest.update(rest.len() - 1, with_names(rest.last(), inner.locals.names))
            } else {
                rest
            },
            first_names: self.first_names,
        }
    }

    /// Opening a function starts its numbering where the function around it is.
    pub open spec fn push_function_scope(self) -> ScopedModel {
        let fresh = FunctionModel { locals: IndexModel::empty(), table: TableModel::Nothing };
        ScopedModel {
            functions: self.functions.push(
                if self.functions.len() > 0 {
                    with_names(fresh, self.current().locals.names)
                } else {
                    fresh
                },
            ),
            first_names: self.first_names,
        }
    }
}

/// Opening and at once closing a nested function leaves everything as it
/// was, and the nested function had no overflow table.
pub proof fn lemma_empty_function_scope(m: ScopedModel)
    requires
        m.functions.len() > 0,
    ensures
        m.push_function_scope().pop_function_scope() == m,
        m.push_function_scope().current().table.created_table() is None,
{
    let p = m.push_function_scope();
    let q = p.pop_function_scope();
    assert(p.functions.drop_last() =~= m.functions);
    assert(with_names(m.current(), m.current().locals.names) == m.current());
    assert(q.functions =~= m.functions);
}

/// A nested function's first local is numbered right after the locals of
/// the function around it, so it never shadows one of them.
pub proof fn lemma_nested_numbering_continues(m: ScopedModel)
    requires
        m.functions.len() > 0,
        m.current().locals.names < u32::MAX,
    ensures
        m.push_function_scope().current().pulled() == (Place::Definition {
            name: Name { id: m.current().locals.names },
        }),
        m.push_function_scope().current().pull(0).locals.names == m.current().locals.names + 1,
{
    let f = m.push_function_scope().current();
    assert(f.locals.free =~= vstd::multiset::Multiset::<u32>::empty());
    assert(f.locals.holds.len() == 0);
}

/// Opening and at once closing a block scope leaves everything as it was,
/// provided every free local was created before the scope opened.
pub proof fn lemma_empty_local_scope(m: ScopedModel)
    requires
        m.functions.len() > 0,
        m.current().locals.wf(),
    ensures
        m.push_local_scope().pop_local_scope() == m,
{
    let p = m.push_local_scope();
    let q = p.pop_local_scope();
    let f = m.current();
    assert forall|n: u32| #[trigger] f.locals.free.filter(below(f.locals.names)).count(n)
        == f.locals.free.count(n) by {
        broadcast use vstd::multiset::group_multiset_axioms;
        if f.locals.free.count(n) > 0 {
            assert(f.locals.free.contains(n));
        }
    }
    assert(f.locals.free.filter(below(f.locals.names)) =~= f.locals.free);
    assert(q.functions =~= m.functions);
    assert(q.first_names =~= m.first_names);
}

/// Hands out places for the values of nested functions and block scopes.
pub struct ScopedProvider {
    function_providers: Vec<FunctionProvider>,
    first_names: Vec<u32>,
}

impl View for ScopedProvider {
    type V = ScopedModel;

    closed spec fn view(&self) -> ScopedModel {
        ScopedModel {
            functions: self.function_providers@.map_values(|f: FunctionProvider| f@),
            first_names: self.first_names@,
        }
    }
}

impl ScopedProvider {
    /// A provider with no function open.
    pub fn new() -> (provider: Self)
        ensures
            provider@.functions.len() == 0,
            provider@.first_names.len() == 0,
    {
        ScopedProvider { function_providers: Vec::new(), first_names: Vec::new() }
    }

    /// Takes the innermost function's provider out, to be put back by `restore`.
    fn take_current(&mut self) -> (f: FunctionProvider)
        requires
            old(self)@.functions.len() > 0,
        ensures
            f@ == old(self)@.current(),
            final(self)@.functions == old(self)@.functions.drop_last(),
            final(self)@.first_names == old(self)@.first_names,
    {
        let f = self.function_providers.pop().unwrap();
        assert(self@.functions =~= old(self)@.functions.drop_last());
        f
    }

    /// Puts a function's provider back as the innermost one.
    fn restore(&mut self, f: FunctionProvider)
        ensures
            final(self)@.functions == old(self)@.functions.push(f@),
            final(self)@.first_names == old(self)@.first_names,
    {
        self.function_providers.push(f);
        assert(self@.functions =~= old(self)@.functions.push(f@));
    }

    /// Closes the innermost block scope.
    pub fn pop_local_scope(&mut self)
        requires
            old(self)@.functions.len() > 0,
            old(self)@.first_names.len() > 0,
        ensures
            final(self)@ == old(self)@.pop_local_scope(),
    {
        let mut f = self.take_current();
        let first = self.first_names.pop().unwrap();
        f.local_provider.forget_free(first);
        self.restore(f);
        assert(self@.functions =~= old(self)@.pop_local_scope().functions);
        assert(self@.first_names =~= old(self)@.pop_local_scope().first_names);
    }

    /// Opens a block scope in the innermost function.
    pub fn push_local_scope(&mut self)
        requires
            old(self)@.functions.len() > 0,
        ensures
            final(self)@ == old(self)@.push_local_scope(),
    {
        let last = self.function_providers.len() - 1;
        let names = self.function_providers[last].local_provider.get_names();
        self.first_names.push(names);
        assert(self@.first_names =~= old(self)@.push_local_scope().first_names);
    }

    /// Closes the innermost function, handing its count of created locals to
    /// the function around it; returns its overflow table, if one was created.
    pub fn pop_function_scope(&mut self) -> (table: Option<(Name, u32)>)
        requires
            old(self)@.functions.len() > 0,
        ensures
            table == old(self)@.current().table.created_table(),
            final(self)@ == old(self)@.pop_function_scope(),
    {
        let inner = self.take_current();
        let names = inner.local_provider.get_names();
        if self.function_providers.len() > 0 {
            let mut outer = self.take_current();
            outer.local_provider.set_names(names);
            self.restore(outer);
        }
        assert(self@.functions =~= old(self)@.pop_function_scope().functions);
        inner.table_provider.try_into_created()
    }

    /// Opens a nested function whose locals are numbered after those of the
    /// function around it.
    pub fn push_function_scope(&mut self)
        ensures
            final(self)@ == old(self)@.push_function_scope(),
    {
        let mut f = FunctionProvider::new();
        if self.function_providers.len() > 0 {
            let last = self.function_providers.len() - 1;
            let names = self.function_providers[last].local_provider.get_names();
            f.local_provider.set_names(names);
        }
        self.restore(f);
        assert(self@.functions =~= old(self)@.push_function_scope().functions);
    }

    /// Hands out a place of the innermost function held until `until`.
    pub fn pull(&mut self, until: u32) -> (place: Place)
        requires
            old(self)@.functions.len() > 0,
            old(self)@.current().can_pull(),
        ensures
            place == old(self)@.current().pulled(),
            final(self)@ == old(self)@.with_current(old(self)@.current().pull(until)),
    {
        let mut f = self.take_current();
        let place = f.pull(until);
        self.restore(f);
        assert(self@.functions =~= old(self)@.functions.update(
            old(self)@.functions.len() - 1, old(self)@.current().pull(until)));
        place
    }

    /// Holds `place` of the innermost function again until `until`, if it is
    /// free; reports whether it was.
    pub fn try_revive(&mut self, place: Place, until: u32) -> (revived: bool)
        requires
            old(self)@.functions.len() > 0,
        ensures
            revived == old(self)@.current().can_revive(place),
            final(self)@ == if revived {
                old(self)@.with_current(old(self)@.current().revive(place, until))
            } else {
                old(self)@
            },
    {
        let mut f = self.take_current();
        let revived = f.try_revive(place, until);
        self.restore(f);
        assert(self@.functions =~= (if revived {
            old(self)@.with_current(old(self)@.current().revive(place, until))
        } else {
            old(self)@
        }).functions);
        revived
    }

    /// Reaches the program point `end` in the innermost function.
    pub fn push_until(&mut self, end: u32)
        requires
            old(self)@.functions.len() > 0,
        ensures
            final(self)@ == old(self)@.with_current(old(self)@.current().push_until(end)),
    {
        let mut f = self.take_current();
        f.push_until(end);
        self.restore(f);
        assert(self@.functions =~= old(self)@.functions.update(
            old(self)@.functions.len() - 1, old(self)@.current().push_until(end)));
    }
}

} // verus!
