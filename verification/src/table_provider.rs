//! The overflow table of a Luau function: once a function runs out of local
//! variables, further values are stored in slots of a table, itself held in a
//! local variable. Slots are recycled like local indices.

use vstd::prelude::*;

use crate::index_provider::{IndexModel, IndexProvider};
use crate::place::{Name, Place};

verus! {

/// The abstract state of a [`TableProvider`].
pub enum TableModel {
    /// The table exists, is stored in the local `table`, and hands out its
    /// slots from `provider`.
    Just { provider: IndexModel, table: Name },
    /// No value has overflowed yet, so no table exists.
    Nothing,
}

impl TableModel {
    /// The slot provider, the table's local, and the function's local provider
    /// once the table exists, creating it (in a new local held until the end
    /// of the function) if needed.
    pub open spec fn created(self, locals: IndexModel) -> (IndexModel, Name, IndexModel) {
        match self {
            TableModel::Just { provider, table } => (provider, table, locals),
            TableModel::Nothing => (
                IndexModel::empty(),
                Name { id: locals.next_pulled() },
                locals.pull(u32::MAX),
            ),
        }
    }

    /// Whether a slot can be pulled: the table's local can be created and the
    /// slot index fits the `u16` slot numbering.
    pub open spec fn can_pull(self, locals: IndexModel) -> bool {
        match self {
            TableModel::Just { provider, .. } => provider.can_pull() && provider.next_pulled()
                <= u16::MAX,
            TableModel::Nothing => locals.can_pull(),
        }
    }

    /// The slot that `pull` hands out.
    pub open spec fn pulled(self, locals: IndexModel) -> Place {
        let (provider, table, _) = self.created(locals);
        Place::Overflow { table, index: provider.next_pulled() as u16 }
    }

    /// The table state after pulling a slot held until `until`.
    pub open spec fn pull(self, locals: IndexModel, until: u32) -> TableModel {
        let (provider, table, _) = self.created(locals);
        TableModel::Just { provider: provider.pull(until), table }
    }

    /// The function's local provider after pulling a slot.
    pub open spec fn locals_after_pull(self, locals: IndexModel) -> IndexModel {
        self.created(locals).2
    }

    /// Whether the slot `index` of the table `table` is free.
    pub open spec fn can_revive(self, table: Name, index: u16) -> bool {
        match self {
            TableModel::Just { provider, table: other } => table.id == other.id
                && provider.free.contains(index as u32),
            TableModel::Nothing => false,
        }
    }

    /// The table state after reviving slot `index` until `until`.
    pub open spec fn revive(self, index: u16, until: u32) -> TableModel {
        match self {
            TableModel::Just { provider, table } => TableModel::Just {
                provider: provider.revive(index as u32, until),
                table,
            },
            TableModel::Nothing => TableModel::Nothing,
        }
    }

    /// The table state after reaching `end`.
    pub open spec fn push_until(self, end: u32) -> TableModel {
        match self {
            TableModel::Just { provider, table } => TableModel::Just {
                provider: provider.push_until(end),
                table,
            },
            TableModel::Nothing => TableModel::Nothing,
        }
    }

    /// The table's local and length, if the table exists.
    pub open spec fn created_table(self) -> Option<(Name, u32)> {
        match self {
            TableModel::Just { provider, table } => Some((table, provider.names)),
            TableModel::Nothing => None,
        }
    }
}

/// Hands out slots of a function's overflow table, creating the table on first use.
pub enum TableProvider {
    Just { provider: IndexProvider, table: Name },
    Nothing,
}

impl View for TableProvider {
    type V = TableModel;

    open spec fn view(&self) -> TableModel {
        match self {
            TableProvider::Just { provider, table } => TableModel::Just {
                provider: provider@,
                table: *table,
            },
            TableProvider::Nothing => TableModel::Nothing,
        }
    }
}

impl TableProvider {
    /// Hands out a table slot held until `until`, creating the table in a new
    /// local of `locals` if it does not exist yet.
    pub fn pull(&mut self, until: u32, locals: &mut IndexProvider) -> (place: Place)
        requires
            old(self)@.can_pull(old(locals)@),
        ensures
            place == old(self)@.pulled(old(locals)@),
            final(self)@ == old(self)@.pull(old(locals)@, until),
            final(locals)@ == old(self)@.locals_after_pull(old(locals)@),
    {
        if let TableProvider::Nothing = self {
            let id = locals.pull(u32::MAX);
            *self = TableProvider::Just { provider: IndexProvider::new(), table: Name { id } };
        }
        let mut current = TableProvider::Nothing;
        std::mem::swap(&mut current, self);
        match current {
            TableProvider::Just { mut provider, table } => {
                let index = provider.pull(until);
                *self = TableProvider::Just { provider, table };
                Place::Overflow { table, index: index as u16 }
            },
            TableProvider::Nothing => {
                assert(false);
                Place::Overflow { table: Name { id: 0 }, index: 0 }
            },
        }
    }

    /// Holds slot `index` of the table again until `until`, if `table` is this
    /// function's table and the slot is free; reports whether it was revived.
    pub fn try_revive(&mut self, table: Name, index: u16, until: u32) -> (revived: bool)
        ensures
            revived == old(self)@.can_revive(table, index),
            final(self)@ == if revived {
                old(self)@.revive(index, until)
            } else {
                old(self)@
            },
    {
        let mut current = TableProvider::Nothing;
        std::mem::swap(&mut current, self);
        match current {
            TableProvider::Just { mut provider, table: other } => {
                let revived = table.id == other.id && provider.try_revive(index as u32, until);
                *self = TableProvider::Just { provider, table: other };
                revived
            },
            TableProvider::Nothing => false,
        }
    }

    /// Reaches the program point `end`, freeing the slots held until it.
    pub fn push_until(&mut self, end: u32)
        ensures
            final(self)@ == old(self)@.push_until(end),
    {
        let mut current = TableProvider::Nothing;
        std::mem::swap(&mut current, self);
        match current {
            TableProvider::Just { mut provider, table } => {
                provider.push_until(end);
                *self = TableProvider::Just { provider, table };
            },
            TableProvider::Nothing => {},
        }
    }

    /// The table's local and length, if the table was created.
    pub fn try_into_created(self) -> (created: Option<(Name, u32)>)
        ensures
            created == self@.created_table(),
    {
        match self {
            TableProvider::Just { provider, table } => Some((table, provider.get_names())),
            TableProvider::Nothing => None,
        }
    }
}

} // verus!
