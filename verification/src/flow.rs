//! The data-flow graph that the Luau local finders read: each node's
//! operation with the links and counts that the finders look at, and the
//! links the node reads, in the order the graph visits them.
//!
//! Nodes are numbered by their position in the graph. A node's value
//! outputs come first among its ports and its state outputs after them, so
//! a node with a result has it at `RESULT_PORT` and its state at
//! `STATE_PORT`, and a node that copies between two references has the
//! state of the destination before that of the source.

use vstd::prelude::*;

use crate::ir::Link;

verus! {

/// The port of the value that a node with one result produces.
pub const RESULT_PORT: u16 = 0;

/// The port of the state that a node with one result passes on.
pub const STATE_PORT: u16 = 1;

/// The port of the destination's state of a copy or an initialisation.
pub const DESTINATION_STATE_PORT: u16 = 0;

/// The port of the source's state of a copy or an initialisation.
pub const SOURCE_STATE_PORT: u16 = 1;

/// A place in a table or a memory: the state of the object and the index
/// or address within it.
#[derive(Clone, Copy, PartialEq, Eq, Structural)]
pub struct Location {
    pub reference: Link,
    pub offset: Link,
}

/// What a data-flow node does, with the links and counts the finders read.
#[allow(inconsistent_fields)]
pub enum FlowOperation {
    LambdaIn { parameter_count: usize },
    LambdaOut { results: Vec<Link> },
    RegionIn,
    RegionOut { results: Vec<Link> },
    GammaIn { condition: Link, arguments: Vec<Link> },
    GammaOut { input: u32, region_count: usize },
    ThetaIn { arguments: Vec<Link> },
    ThetaOut { condition: Link, results: Vec<Link> },
    OmegaIn,
    OmegaOut,
    Import,
    Host,
    Trap,
    Null,
    Identity,
    I32,
    I64,
    F32,
    F64,
    RefIsNull,
    IntegerUnaryOperation,
    IntegerBinaryOperation,
    IntegerCompareOperation,
    IntegerNarrow,
    IntegerWiden,
    IntegerExtend,
    IntegerConvertToNumber,
    IntegerTransmuteToNumber,
    NumberUnaryOperation,
    NumberBinaryOperation,
    NumberCompareOperation,
    NumberNarrow,
    NumberWiden,
    NumberTruncateToInteger,
    NumberTransmuteToInteger,
    /// A call of `function`; the last `states` of `arguments` are states,
    /// and the call produces `results` values and then as many states.
    Call { function: Link, arguments: Vec<Link>, results: u16, states: u16 },
    Merge { states: Vec<Link> },
    GlobalNew,
    GlobalGet { source: Link },
    GlobalSet { destination: Link, source: Link },
    TableNew,
    TableGet { source: Location },
    TableSet { destination: Location, source: Link },
    TableSize { source: Link },
    TableGrow { destination: Link, initializer: Link, size: Link },
    TableFill { destination: Location, source: Link, size: Link },
    TableCopy { destination: Location, source: Location, size: Link },
    TableInit { destination: Location, source: Location, size: Link },
    ElementsNew,
    ElementsDrop { source: Link },
    MemoryNew,
    MemoryLoad { source: Location },
    MemoryStore { destination: Location, source: Link },
    MemorySize { source: Link },
    MemoryGrow { destination: Link, size: Link },
    MemoryFill { destination: Location, byte: Link, size: Link },
    MemoryCopy { destination: Location, source: Location, size: Link },
    MemoryInit { destination: Location, source: Location, size: Link },
    DataNew,
    DataDrop { source: Link },
}

/// A node of a data-flow graph.
pub struct FlowNode {
    /// What the node does.
    pub operation: FlowOperation,
    /// Every link the node reads, in the order the graph visits them.
    pub inputs: Vec<Link>,
}

} // verus!
