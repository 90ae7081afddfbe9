//! Where a value of a Luau function lives: a local variable, or a slot of the
//! function's overflow table once the local variables run out.

use vstd::prelude::*;

verus! {

/// A Luau identifier, numbered.
#[derive(Clone, Copy, PartialEq, Eq, Structural)]
pub struct Name {
    pub id: u32,
}

/// A Luau storage location: a local variable, or a slot of an overflow table.
#[derive(Clone, Copy, PartialEq, Eq, Structural)]
pub enum Local {
    Fast { name: Name },
    Slow { table: Name, index: u16 },
}

/// An overflow table and its length.
#[derive(Clone, Copy, PartialEq, Eq, Structural)]
pub struct Table {
    pub name: Name,
    pub len: u32,
}

/// Where a value is stored, and whether storing it declares a new local.
#[derive(Clone, Copy, PartialEq, Eq, Structural)]
pub enum Place {
    /// A new local variable, declared by the store.
    Definition { name: Name },
    /// An existing local variable, reassigned by the store.
    Assignment { name: Name },
    /// A slot of an overflow table.
    Overflow { table: Name, index: u16 },
}

impl Place {
    /// The local a definition declares.
    pub fn into_definition(self) -> (name: Name)
        requires
            self is Definition,
        ensures
            name == self->Definition_name,
    {
        match self {
            Place::Definition { name } => name,
            Place::Assignment { name } => name,
            Place::Overflow { table, .. } => table,
        }
    }

    /// The storage location of the place.
    pub fn into_local(self) -> (local: Local)
        ensures
            local == place_local(self),
    {
        match self {
            Place::Definition { name } | Place::Assignment { name } => Local::Fast { name },
            Place::Overflow { table, index } => Local::Slow { table, index },
        }
    }
}

/// The storage location of a place: the named local, or the table slot.
pub open spec fn place_local(place: Place) -> Local {
    match place {
        Place::Definition { name } => Local::Fast { name },
        Place::Assignment { name } => Local::Fast { name },
        Place::Overflow { table, index } => Local::Slow { table, index },
    }
}

} // verus!
