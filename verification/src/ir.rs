//! The parts of the IR graph that the printers and policies read, held as
//! plain values: each node's operation, its input links, and the regions
//! nested in it.

use vstd::prelude::*;

verus! {

/// A reference to output `port` of the node at position `node` of the
/// enclosing region.
#[derive(Clone, Copy, Debug, PartialEq, Eq, Hash, Structural)]
pub struct Link {
    pub node: u32,
    pub port: u16,
}

/// The width of an integer value.
#[derive(Clone, Copy, PartialEq, Eq, Structural)]
pub enum IntegerType {
    I32,
    I64,
}

/// A one-operand integer operation.
#[derive(Clone, Copy, PartialEq, Eq, Structural)]
pub enum IntegerUnaryOperator {
    CountOnes,
    LeadingZeroes,
    TrailingZeroes,
}

/// A two-operand integer operation.
#[derive(Clone, Copy, PartialEq, Eq, Structural)]
pub enum IntegerBinaryOperator {
    Add,
    Subtract,
    Multiply,
    Divide { signed: bool },
    Remainder { signed: bool },
    And,
    Or,
    ExclusiveOr,
    ShiftLeft,
    ShiftRight { signed: bool },
    RotateLeft,
    RotateRight,
}

/// An integer comparison.
#[derive(Clone, Copy, PartialEq, Eq, Structural)]
pub enum IntegerCompareOperator {
    Equal,
    NotEqual,
    LessThan { signed: bool },
    GreaterThan { signed: bool },
    LessThanEqual { signed: bool },
    GreaterThanEqual { signed: bool },
}

/// The width of a floating-point value.
#[derive(Clone, Copy, PartialEq, Eq, Structural)]
pub enum NumberType {
    F32,
    F64,
}

/// A one-operand floating-point operation.
#[derive(Clone, Copy, PartialEq, Eq, Structural)]
pub enum NumberUnaryOperator {
    Absolute,
    Negate,
    SquareRoot,
    RoundUp,
    RoundDown,
    Truncate,
    Nearest,
}

/// A two-operand floating-point operation.
#[derive(Clone, Copy, PartialEq, Eq, Structural)]
pub enum NumberBinaryOperator {
    Add,
    Subtract,
    Multiply,
    Divide,
    Minimum,
    Maximum,
    CopySign,
}

/// A floating-point comparison.
#[derive(Clone, Copy, PartialEq, Eq, Structural)]
pub enum NumberCompareOperator {
    Equal,
    NotEqual,
    LessThan,
    GreaterThan,
    LessThanEqual,
    GreaterThanEqual,
}

/// The source and target widths of a sign extension.
#[derive(Clone, Copy, PartialEq, Eq, Structural)]
pub enum ExtendType {
    I32S8,
    I32S16,
    I64S8,
    I64S16,
    I64S32,
}

/// What a memory load reads and the value it makes of it.
#[derive(Clone, Copy, PartialEq, Eq, Structural)]
pub enum LoadType {
    I32S8,
    I32U8,
    I32S16,
    I32U16,
    I32,
    I64S8,
    I64U8,
    I64S16,
    I64U16,
    I64S32,
    I64U32,
    I64,
    F32,
    F64,
}

/// The value a memory store takes and what it writes of it.
#[derive(Clone, Copy, PartialEq, Eq, Structural)]
pub enum StoreType {
    I32I8,
    I32I16,
    I32,
    I64I8,
    I64I16,
    I64I32,
    I64,
    F32,
    F64,
}

/// What a node computes, with the regions nested in it.
#[allow(inconsistent_fields)]
pub enum Operation {
    Function { body: Vec<Node> },
    /// A match on `condition`, passing `arguments` into the chosen branch.
    Match { condition: Link, arguments: Vec<Link>, branches: Vec<Vec<Node>> },
    Repeat { body: Vec<Node> },
    ModuleArguments,
    ModuleResults,
    FunctionCaptures,
    FunctionArguments,
    FunctionResults,
    BranchArguments,
    BranchResults,
    RepeatArguments,
    RepeatResults,
    /// An operation of the target, named by `identifier`; a target store
    /// names the output port that carries its state and the reference it
    /// writes through.
    Foreign { identifier: &'static str, store: Option<StoreHint> },
    Trap,
    Null,
    /// A 32-bit integer constant.
    I32 { value: i32 },
    /// A 64-bit integer constant.
    I64 { value: i64 },
    /// A 32-bit floating-point constant, by its value written in
    /// scientific notation.
    F32 { text: String },
    /// A 64-bit floating-point constant, by its value written in
    /// scientific notation.
    F64 { text: String },
    Identity,
    Fence,
    Apply,
    RefIsNull,
    IntegerUnaryOperation { kind: IntegerType, operator: IntegerUnaryOperator },
    IntegerBinaryOperation { kind: IntegerType, operator: IntegerBinaryOperator },
    IntegerCompareOperation { kind: IntegerType, operator: IntegerCompareOperator },
    IntegerSignExtend { kind: ExtendType },
    IntegerNarrow,
    IntegerWiden,
    IntegerConvertToNumber,
    IntegerTransmuteToNumber,
    NumberUnaryOperation { kind: NumberType, operator: NumberUnaryOperator },
    NumberBinaryOperation { kind: NumberType, operator: NumberBinaryOperator },
    NumberCompareOperation { kind: NumberType, operator: NumberCompareOperator },
    NumberNarrow,
    NumberWiden,
    NumberTruncateToInteger,
    NumberTransmuteToInteger,
    MutableNew,
    MutableGet,
    MutableSet,
    TableNew,
    TableGet,
    TableSet,
    TableSize,
    TableGrow,
    TableFill,
    TableCopy,
    TableDrop,
    MemoryNew,
    MemoryLoad,
    MemoryStore,
    MemorySize,
    MemoryGrow,
    MemoryFill,
    MemoryCopy,
    MemoryDrop,
}

/// The state port of a target store and the reference that port reuses.
#[derive(Clone, Copy, PartialEq, Eq, Structural)]
pub struct StoreHint {
    pub state_port: u16,
    pub reference: Link,
}

/// A node of a region.
pub struct Node {
    /// What the node computes.
    pub operation: Operation,
    /// The outputs the node reads, in order.
    pub inputs: Vec<Link>,
    /// For each output port of the node, the input whose register the
    /// register allocator reuses for it, if any.
    pub reuse_hints: Vec<Option<Link>>,
    /// The node's identity within its function.
    pub address: usize,
}

} // verus!
