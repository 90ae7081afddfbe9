//! The structured graph that the local allocator reads: regions of nodes,
//! where a match, a repetition or a function holds regions of its own.
//!
//! A node's value outputs come first among its ports and its state outputs
//! after them; a copy passes on the state of its destination before that of
//! its source. Each region has an identity of its own, distinct from that
//! of every other region.

use vstd::prelude::*;

use crate::flow::Location;
use crate::ir::Link;

verus! {

/// A region: its identity, its nodes in order, and the outputs it yields.
pub struct Region {
    /// The identity of the region.
    pub scope: usize,
    /// The nodes of the region, numbered by their position.
    pub nodes: Vec<RegionNode>,
    /// The outputs the region yields, in order.
    pub results: Vec<Link>,
}

/// A node of a region.
pub struct RegionNode {
    /// What the node does.
    pub operation: RegionOperation,
    /// The outputs of its own region that the node reads, in order.
    pub inputs: Vec<Link>,
}

/// What a node of a region does, with the counts and links that the local
/// allocator reads.
#[allow(inconsistent_fields)]
pub enum RegionOperation {
    /// A function, with the number of values it captures and of arguments
    /// it takes.
    Function { body: Region, capture_count: u16, argument_count: u16 },
    /// A match on `condition` that passes `arguments` into the chosen
    /// branch; each branch yields `result_count` values.
    Match { condition: Link, arguments: Vec<Link>, branches: Vec<Region>, result_count: u16 },
    /// A repetition of `body`, which starts from `arguments` and yields
    /// `result_count` values.
    Repeat { arguments: Vec<Link>, body: Region, result_count: u16 },
    /// The arguments of a module, `result_count` of them.
    ModuleArguments { result_count: u16 },
    ModuleResults,
    FunctionCaptures,
    FunctionArguments,
    FunctionResults,
    BranchArguments,
    BranchResults,
    RepeatArguments,
    RepeatResults,
    Import,
    Host,
    Trap,
    Null,
    I32,
    I64,
    F32,
    F64,
    /// Passes each source through to the output of the same position.
    Identity { sources: Vec<Link> },
    /// Orders effects: passes each source through to the output of the
    /// same position, carrying no value of its own.
    Fence { sources: Vec<Link> },
    /// A call that yields `result_count` values.
    Apply { result_count: u16 },
    RefIsNull,
    IntegerUnaryOperation,
    IntegerBinaryOperation,
    IntegerCompareOperation,
    IntegerNarrow,
    IntegerWiden,
    IntegerExtend,
    IntegerConvertToNumber,
    IntegerTransmuteToNumber,
    NumberUnaryOperation,
    NumberBinaryOperation,
    NumberCompareOperation,
    NumberNarrow,
    NumberWiden,
    NumberTruncateToInteger,
    NumberTransmuteToInteger,
    GlobalNew,
    GlobalGet { source: Link },
    GlobalSet { destination: Link, source: Link },
    TableNew,
    TableGet { source: Location },
    TableSet { destination: Location },
    TableSize { source: Link },
    TableGrow { destination: Link },
    TableFill { destination: Location },
    TableCopy { destination: Location, source: Location },
    TableDrop { source: Link },
    MemoryNew,
    MemoryLoad { source: Location },
    MemoryStore { destination: Location },
    MemorySize { source: Link },
    MemoryGrow { destination: Link },
    MemoryFill { destination: Location },
    MemoryCopy { destination: Location, source: Location },
    MemoryDrop { source: Link },
}

} // verus!
