//! The statements of the LuaJIT tree that the emitter builds.

use vstd::prelude::*;

use crate::luajit::Local;
use crate::luajit_data::Expression;

verus! {

/// A sequence of statements, in execution order.
pub struct Sequence {
    pub statements: Vec<Statement>,
}

/// A conditional: the branch chosen by `condition`.
pub struct Match {
    pub branches: Vec<Sequence>,
    pub condition: Expression,
}

/// A loop: `code` runs, and while `condition` is not zero, `rotation`
/// moves the carried values into place and `code` runs again.
pub struct Repeat {
    pub code: Sequence,
    pub condition: Expression,
    pub rotation: Sequence,
}

/// An assignment of `source` to the local `destination`.
pub struct Assign {
    pub destination: Local,
    pub source: Expression,
}

/// A cyclic swap of locals, in cycle order.
pub struct SwapAll {
    pub locals: Vec<Local>,
}

/// A call that binds its results, in port order, to locals.
pub struct Call {
    pub results: Vec<Local>,
    pub call: Expression,
}

/// A table element write: `(table)[offset] = value`.
pub struct SetIndex {
    pub table: Expression,
    pub offset: Expression,
    pub value: Expression,
}

/// A statement of the tree.
pub enum Statement {
    Match(Box<Match>),
    Repeat(Box<Repeat>),
    Assign(Box<Assign>),
    SwapAll(Box<SwapAll>),
    Call(Box<Call>),
    SetIndex(Box<SetIndex>),
}

} // verus!
