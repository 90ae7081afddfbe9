//! Places for the values of one Luau function: local variables while they
//! last, slots of an overflow table after that.

use vstd::prelude::*;

use crate::index_provider::{IndexModel, IndexProvider};
use crate::place::{Name, Place};
use crate::table_provider::{TableModel, TableProvider};

verus! {

/// Luau has a maximum count of local variables and no register allocator, so
/// once this many locals are held and none is free, values spill to a table.
pub const MAX_LOCAL_VARIABLES: usize = 199;

/// The abstract state of a [`FunctionProvider`].
pub struct FunctionModel {
    pub locals: IndexModel,
    pub table: TableModel,
}

impl FunctionModel {
    /// Whether the next value spills to the overflow table.
    pub open spec fn overflows(self) -> bool {
        self.locals.free.len() == 0 && self.locals.holds.len() >= MAX_LOCAL_VARIABLES
    }

    /// Whether a place can be pulled without exhausting a numbering.
    pub open spec fn can_pull(self) -> bool {
        if self.overflows() {
            self.table.can_pull(self.locals)
        } else {
            self.locals.can_pull()
        }
    }

    /// The place `pull` hands out.
    pub open spec fn pulled(self) -> Place {
        if self.overflows() {
            self.table.pulled(self.locals)
        } else if self.locals.free.len() == 0 {
            Place::Definition { name: Name { id: self.locals.next_pulled() } }
        } else {
            Place::Assignment { name: Name { id: self.locals.next_pulled() } }
        }
    }

    /// The state after pulling a place held until `until`.
    pub open spec fn pull(self, until: u32) -> FunctionModel {
        if self.overflows() {
            FunctionModel {
                locals: self.table.locals_after_pull(self.locals),
                table: self.table.pull(self.locals, until),
            }
        } else {
            FunctionModel { locals: self.locals.pull(until), table: self.table }
        }
    }

    /// Whether `place` is free to be revived.
    pub open spec fn can_revive(self, place: Place) -> bool {
        match place {
            Place::Definition { name } => self.locals.free.contains(name.id),
            Place::Assignment { name } => self.locals.free.contains(name.id),
            Place::Overflow { table, index } => self.table.can_revive(table, index),
        }
    }

    /// The state after reviving the free `place` until `until`.
    pub open spec fn revive(self, place: Place, until: u32) -> FunctionModel {
        match place {
            Place::Definition { name } => FunctionModel {
                locals: self.locals.revive(name.id, until),
                ..self
            },
            Place::Assignment { name } => FunctionModel {
                locals: self.locals.revive(name.id, until),
                ..self
            },
            Place::Overflow { index, .. } => FunctionModel {
                table: self.table.revive(index, until),
                ..self
            },
        }
    }

    /// The state after reaching `end`.
    pub open spec fn push_until(self, end: u32) -> FunctionModel {
        FunctionModel { locals: self.locals.push_until(end), table: self.table.push_until(end) }
    }
}

/// Hands out places for the values of one function.
pub struct FunctionProvider {
    pub local_provider: IndexProvider,
    pub table_provider: TableProvider,
}

impl View for FunctionProvider {
    type V = FunctionModel;

    open spec fn view(&self) -> FunctionModel {
        FunctionModel { locals: self.local_provider@, table: self.table_provider@ }
    }
}

impl FunctionProvider {
    /// A provider with no local used and no overflow table.
    pub fn new() -> (provider: Self)
        ensures
            provider@ == (FunctionModel { locals: IndexModel::empty(), table: TableModel::Nothing }),
    {
        FunctionProvider { local_provider: IndexProvider::new(), table_provider: TableProvider::Nothing }
    }

    fn pull_fast(&mut self, until: u32) -> (place: Place)
        requires
            !old(self)@.overflows(),
            old(self)@.locals.can_pull(),
        ensures
            place == old(self)@.pulled(),
            final(self)@ == old(self)@.pull(until),
    {
        let declares = self.local_provider.should_create();
        let name = Name { id: self.local_provider.pull(until) };
        if declares {
            Place::Definition { name }
        } else {
            Place::Assignment { name }
        }
    }

    fn pull_slow(&mut self, until: u32) -> (place: Place)
        requires
            old(self)@.overflows(),
            old(self)@.table.can_pull(old(self)@.locals),
        ensures
            place == old(self)@.pulled(),
            final(self)@ == old(self)@.pull(until),
    {
        self.table_provider.pull(until, &mut self.local_provider)
    }

    /// Hands out a place held until `until`: a local while fewer than
    /// [`MAX_LOCAL_VARIABLES`] are held or one is free, a table slot otherwise.
    pub fn pull(&mut self, until: u32) -> (place: Place)
        requires
            old(self)@.can_pull(),
        ensures
            place == old(self)@.pulled(),
            final(self)@ == old(self)@.pull(until),
    {
        if self.local_provider.should_exceed(MAX_LOCAL_VARIABLES) {
            self.pull_slow(until)
        } else {
            self.pull_fast(until)
        }
    }

    /// Holds `place` again until `until` if it is free; reports whether it was.
    pub fn try_revive(&mut self, place: Place, until: u32) -> (revived: bool)
        ensures
            revived == old(self)@.can_revive(place),
            final(self)@ == if revived {
                old(self)@.revive(place, until)
            } else {
                old(self)@
            },
    {
        match place {
            Place::Definition { name } | Place::Assignment { name } => {
                self.local_provider.try_revive(name.id, until)
            },
            Place::Overflow { table, index } => self.table_provider.try_revive(table, index, until),
        }
    }

    /// Reaches the program point `end` for both locals and table slots.
    pub fn push_until(&mut self, end: u32)
        ensures
            final(self)@ == old(self)@.push_until(end),
    {
        self.local_provider.push_until(end);
        self.table_provider.push_until(end);
    }
}

} // verus!
