//! How the outputs of each node of a data-flow graph are read: how many
//! value results a node has, and which of its ports its readers use.

use vstd::prelude::*;

use crate::flow::{FlowNode, FlowOperation};

verus! {

/// The number of value results of `node`; its ports from this number on
/// carry states.
pub open spec fn result_count(node: FlowNode) -> int {
    match node.operation {
        FlowOperation::LambdaIn { parameter_count } => parameter_count as int,
        FlowOperation::RegionIn
        | FlowOperation::RegionOut { .. }
        | FlowOperation::GammaIn { .. }
        | FlowOperation::GammaOut { .. }
        | FlowOperation::ThetaIn { .. }
        | FlowOperation::ThetaOut { .. }
        | FlowOperation::OmegaIn
        | FlowOperation::Merge { .. }
        | FlowOperation::GlobalSet { .. }
        | FlowOperation::TableSet { .. }
        | FlowOperation::TableFill { .. }
        | FlowOperation::TableCopy { .. }
        | FlowOperation::TableInit { .. }
        | FlowOperation::ElementsDrop { .. }
        | FlowOperation::MemoryStore { .. }
        | FlowOperation::MemoryFill { .. }
        | FlowOperation::MemoryCopy { .. }
        | FlowOperation::MemoryInit { .. }
        | FlowOperation::DataDrop { .. }
        | FlowOperation::Host => 0,
        FlowOperation::Call { results, .. } => results as int,
        _ => 1,
    }
}

/// Whether the result count of `node` fits a port number.
pub open spec fn result_count_fits(node: FlowNode) -> bool {
    result_count(node) <= u16::MAX
}

/// The number of value results of `node`.
pub fn result_count_of(node: &FlowNode) -> (count: u16)
    requires
        result_count_fits(*node),
    ensures
        count == result_count(*node),
{
    match &node.operation {
        FlowOperation::LambdaIn { parameter_count } => *parameter_count as u16,
        FlowOperation::RegionIn
        | FlowOperation::RegionOut { .. }
        | FlowOperation::GammaIn { .. }
        | FlowOperation::GammaOut { .. }
        | FlowOperation::ThetaIn { .. }
        | FlowOperation::ThetaOut { .. }
        | FlowOperation::OmegaIn
        | FlowOperation::Merge { .. }
        | FlowOperation::GlobalSet { .. }
        | FlowOperation::TableSet { .. }
        | FlowOperation::TableFill { .. }
        | FlowOperation::TableCopy { .. }
        | FlowOperation::TableInit { .. }
        | FlowOperation::ElementsDrop { .. }
        | FlowOperation::MemoryStore { .. }
        | FlowOperation::MemoryFill { .. }
        | FlowOperation::MemoryCopy { .. }
        | FlowOperation::MemoryInit { .. }
        | FlowOperation::DataDrop { .. } => 0,
        FlowOperation::Host => 0,
        FlowOperation::LambdaOut { .. }
        | FlowOperation::OmegaOut
        | FlowOperation::Import
        | FlowOperation::Trap
        | FlowOperation::Null
        | FlowOperation::Identity
        | FlowOperation::I32
        | FlowOperation::I64
        | FlowOperation::F32
        | FlowOperation::F64
        | FlowOperation::RefIsNull
        | FlowOperation::IntegerUnaryOperation
        | FlowOperation::IntegerBinaryOperation
        | FlowOperation::IntegerCompareOperation
        | FlowOperation::IntegerNarrow
        | FlowOperation::IntegerWiden
        | FlowOperation::IntegerExtend
        | FlowOperation::IntegerConvertToNumber
        | FlowOperation::IntegerTransmuteToNumber
        | FlowOperation::NumberUnaryOperation
        | FlowOperation::NumberBinaryOperation
        | FlowOperation::NumberCompareOperation
        | FlowOperation::NumberNarrow
        | FlowOperation::NumberWiden
        | FlowOperation::NumberTruncateToInteger
        | FlowOperation::NumberTransmuteToInteger
        | FlowOperation::GlobalNew
        | FlowOperation::GlobalGet { .. }
        | FlowOperation::TableNew
        | FlowOperation::TableGet { .. }
        | FlowOperation::TableSize { .. }
        | FlowOperation::TableGrow { .. }
        | FlowOperation::ElementsNew
        | FlowOperation::MemoryNew
        | FlowOperation::MemoryLoad { .. }
        | FlowOperation::MemorySize { .. }
        | FlowOperation::MemoryGrow { .. }
        | FlowOperation::DataNew => 1,
        FlowOperation::Call { results, .. } => *results,
    }
}

/// Whether some read of node `id` uses a port at most `port`.
pub open spec fn reads_at_most(uses: Seq<Seq<u16>>, id: int, port: u16) -> bool {
    exists|k: int| 0 <= k < uses[id].len() && #[trigger] uses[id][k] <= port
}

/// The number of the first `count` reads of node `id` that read a value
/// result of `node`.
pub open spec fn value_reads(uses: Seq<Seq<u16>>, id: int, node: FlowNode, count: nat) -> nat
    decreases count,
{
    if count == 0 {
        0
    } else {
        value_reads(uses, id, node, (count - 1) as nat) + if uses[id][count - 1] < result_count(
            node,
        ) {
            1nat
        } else {
            0nat
        }
    }
}

/// Whether some read of node `id` reads a value result of `node` other
/// than the first.
pub open spec fn reads_later_result(uses: Seq<Seq<u16>>, id: int, node: FlowNode) -> bool {
    exists|k: int|
        0 <= k < uses[id].len() && 0 < #[trigger] uses[id][k] && uses[id][k] < result_count(node)
}

/// Answers how the outputs of each node are read, from the ports that the
/// readers of each node use, in the order the graph lists its readers.
pub struct ReferenceFinder {
    uses: Vec<Vec<u16>>,
}

impl ReferenceFinder {
    /// For each node, the ports its readers use.
    pub closed spec fn uses(&self) -> Seq<Seq<u16>> {
        self.uses@.map_values(|ports: Vec<u16>| ports@)
    }

    /// A finder that knows of no node.
    pub fn new() -> (finder: Self)
        ensures
            finder.uses().len() == 0,
    {
        ReferenceFinder { uses: Vec::new() }
    }

    /// Takes the ports that the readers of each node use, node by node.
    pub fn run(&mut self, uses: Vec<Vec<u16>>)
        ensures
            final(self).uses() == uses@.map_values(|ports: Vec<u16>| ports@),
    {
        self.uses = uses;
    }

    /// Whether some reader of node `id` uses a port at most `port`.
    pub fn has_result_at(&self, id: u32, port: u16) -> (found: bool)
        requires
            id < self.uses().len(),
        ensures
            found == reads_at_most(self.uses(), id as int, port),
    {
        let ports = &self.uses[id as usize];
        let mut k: usize = 0;
        while k < ports.len()
            invariant
                k <= ports@.len(),
                ports@ == self.uses()[id as int],
                forall|j: int| 0 <= j < k ==> ports@[j] > port,
            decreases ports@.len() - k,
        {
            if ports[k] <= port {
                return true;
            }
            k += 1;
        }
        false
    }

    /// Whether at least two reads of node `id` read value results of
    /// `node`.
    pub fn has_many_uses(&self, id: u32, node: &FlowNode) -> (found: bool)
        requires
            id < self.uses().len(),
            result_count_fits(*node),
        ensures
            found == (value_reads(self.uses(), id as int, *node, self.uses()[id as int].len()) >= 2),
    {
        let ports = &self.uses[id as usize];
        let count = result_count_of(node);
        let mut seen: usize = 0;
        let mut k: usize = 0;
        while k < ports.len()
            invariant
                k <= ports@.len(),
                ports@ == self.uses()[id as int],
                count == result_count(*node),
                seen == value_reads(self.uses(), id as int, *node, k as nat),
                seen < 2,
            decreases ports@.len() - k,
        {
            if ports[k] < count {
                seen += 1;
                if seen == 2 {
                    proof {
                        lemma_value_reads_grow(self.uses(), id as int, *node, (k + 1) as nat, self.uses()[id as int].len());
                    }
                    return true;
                }
            }
            k += 1;
        }
        false
    }

    /// Whether some read of node `id` reads a value result of `node` other
    /// than the first.
    pub fn has_many_results(&self, id: u32, node: &FlowNode) -> (found: bool)
        requires
            id < self.uses().len(),
            result_count_fits(*node),
        ensures
            found == reads_later_result(self.uses(), id as int, *node),
    {
        let ports = &self.uses[id as usize];
        let count = result_count_of(node);
        let mut k: usize = 0;
        while k < ports.len()
            invariant
                k <= ports@.len(),
                ports@ == self.uses()[id as int],
                count == result_count(*node),
                forall|j: int| 0 <= j < k ==> !(0 < ports@[j] && ports@[j] < count),
            decreases ports@.len() - k,
        {
            if ports[k] > 0 && ports[k] < count {
                return true;
            }
            k += 1;
        }
        false
    }
}

proof fn lemma_value_reads_grow(uses: Seq<Seq<u16>>, id: int, node: FlowNode, from: nat, to: nat)
    requires
        from <= to,
    ensures
        value_reads(uses, id, node, from) <= value_reads(uses, id, node, to),
    decreases to - from,
{
    if from < to {
        lemma_value_reads_grow(uses, id, node, from, (to - 1) as nat);
    }
}

} // verus!
