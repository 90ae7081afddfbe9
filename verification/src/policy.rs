//! Which nodes the Luau and LuaJIT back ends inline into the one expression
//! that reads them, instead of giving them a register.
//!
//! A node is inlined when its value port is read exactly once, by a plain
//! operation, and nothing else pins it to a register.

use vstd::prelude::*;

use crate::ir::{Link, Node, Operation};

verus! {

/// The count of registers the allocator may use.
pub const PHYSICAL_REGISTERS: u32 = 100;

/// The register kind that accepts every value.
pub const ALL_KINDS: u8 = 0xFF;

/// How the value of a node is read so far.
#[derive(Clone, Copy, PartialEq, Eq, Structural)]
pub enum UseState {
    /// Not read.
    Unused,
    /// Read once, through its value port, by a consumer that can inline it.
    Deferrable,
    /// Pinned to a register.
    Blocked,
}

impl UseState {
    /// The state after one more read through `port`: only a first read of
    /// the value port (0) keeps the node inlinable.
    pub open spec fn observed(self, port: u16) -> UseState {
        if port == 0 && self == UseState::Unused {
            UseState::Deferrable
        } else {
            UseState::Blocked
        }
    }

    /// Pins the node to a register.
    pub fn block(&mut self)
        ensures
            *final(self) == UseState::Blocked,
    {
        *self = UseState::Blocked;
    }

    /// Records one more read through `port`.
    pub fn observe(&mut self, port: u16)
        ensures
            *final(self) == old(self).observed(port),
    {
        *self = if port == 0 && *self == UseState::Unused {
            UseState::Deferrable
        } else {
            UseState::Blocked
        };
    }
}

/// How a node relates to the regions of the graph.
#[derive(Clone, Copy, PartialEq, Eq, Structural)]
pub enum Shape {
    Plain,
    Function,
    Repeat,
    Match,
    BranchResults,
    RepeatResults,
}

/// The shape of a node, by what it computes.
pub open spec fn shape_of(operation: Operation) -> Shape {
    match operation {
        Operation::Function { .. } => Shape::Function,
        Operation::Repeat { .. } => Shape::Repeat,
        Operation::Match { .. } => Shape::Match,
        Operation::BranchResults => Shape::BranchResults,
        Operation::RepeatResults => Shape::RepeatResults,
        _ => Shape::Plain,
    }
}

/// The shape of a node.
pub fn shape(node: &Node) -> (shape: Shape)
    ensures
        shape == shape_of(node.operation),
{
    match &node.operation {
        Operation::Function { .. } => Shape::Function,
        Operation::Repeat { .. } => Shape::Repeat,
        Operation::Match { .. } => Shape::Match,
        Operation::BranchResults => Shape::BranchResults,
        Operation::RepeatResults => Shape::RepeatResults,
        _ => Shape::Plain,
    }
}

/// The register allocator's reuse hint for output `port` of `node`.
pub open spec fn allocator_hint(node: Node, port: int) -> Option<Link> {
    if 0 <= port < node.reuse_hints@.len() {
        node.reuse_hints@[port]
    } else {
        None
    }
}

/// The allocator's hint extended with the Luau target's stores: a buffer or
/// table store reuses the register of the reference it writes through for
/// its state port, and no other foreign operation has a hint.
pub open spec fn luau_hint(node: Node, port: int) -> Option<Link> {
    match node.operation {
        Operation::Foreign { store, .. } => match store {
            Some(hint) => if port == hint.state_port as int {
                Some(hint.reference)
            } else {
                None
            },
            None => None,
        },
        _ => allocator_hint(node, port),
    }
}

/// Reading each of the first `k` links once.
pub open spec fn observe_all(states: Seq<UseState>, links: Seq<Link>, k: int) -> Seq<UseState>
    decreases k,
{
    if k <= 0 || k > links.len() {
        states
    } else {
        let prev = observe_all(states, links, k - 1);
        let link = links[k - 1];
        prev.update(link.node as int, prev[link.node as int].observed(link.port))
    }
}

/// Pinning the sources of the first `k` links to registers.
pub open spec fn block_all(states: Seq<UseState>, links: Seq<Link>, k: int) -> Seq<UseState>
    decreases k,
{
    if k <= 0 || k > links.len() {
        states
    } else {
        block_all(states, links, k - 1).update(links[k - 1].node as int, UseState::Blocked)
    }
}

/// Pinning to registers the operands whose registers the first `p` output
/// ports of `node` reuse, by the Luau target's hints (`luau`) or the
/// allocator's.
pub open spec fn block_hints(states: Seq<UseState>, node: Node, p: int, luau: bool) -> Seq<UseState>
    decreases p,
{
    if p <= 0 {
        states
    } else {
        let prev = block_hints(states, node, p - 1, luau);
        let hint = if luau { luau_hint(node, p - 1) } else { allocator_hint(node, p - 1) };
        match hint {
            Some(operand) => prev.update(operand.node as int, UseState::Blocked),
            None => prev,
        }
    }
}

/// The Luau reading of a match: its arguments are register transfers, and
/// its condition is inlinable only in a two-way match, which tests it once.
pub open spec fn match_uses(
    states: Seq<UseState>,
    arguments: Seq<Link>,
    condition: Link,
    branch_count: nat,
) -> Seq<UseState> {
    let s = block_all(states, arguments, arguments.len() as int);
    if branch_count <= 2 {
        s.update(condition.node as int, s[condition.node as int].observed(condition.port))
    } else {
        s.update(condition.node as int, UseState::Blocked)
    }
}

/// The use states after the Luau target classifies the reads of `node`.
pub open spec fn luau_classify(node: Node, states: Seq<UseState>) -> Seq<UseState> {
    let inputs = node.inputs@;
    let s = match node.operation {
        Operation::Match { condition, arguments, branches } => match_uses(
            states,
            arguments@,
            condition,
            branches@.len(),
        ),
        _ => if shape_of(node.operation) == Shape::Plain {
            observe_all(states, inputs, inputs.len() as int)
        } else {
            block_all(states, inputs, inputs.len() as int)
        },
    };
    block_hints(s, node, node.reuse_hints@.len() as int, true)
}

/// The use states after the LuaJIT target classifies the reads of `node`:
/// only a plain operation can inline what it reads.
pub open spec fn luajit_classify(node: Node, states: Seq<UseState>) -> Seq<UseState> {
    let inputs = node.inputs@;
    let s = if shape_of(node.operation) == Shape::Plain {
        observe_all(states, inputs, inputs.len() as int)
    } else {
        block_all(states, inputs, inputs.len() as int)
    };
    block_hints(s, node, node.reuse_hints@.len() as int, false)
}

/// The use states of a region after classifying its first `i` nodes.
pub open spec fn use_states(nodes: Seq<Node>, i: int, luau: bool) -> Seq<UseState>
    decreases i,
{
    if i <= 0 || i > nodes.len() {
        Seq::new(nodes.len(), |j: int| UseState::Unused)
    } else {
        let prev = use_states(nodes, i - 1, luau);
        if luau {
            luau_classify(nodes[i - 1], prev)
        } else {
            luajit_classify(nodes[i - 1], prev)
        }
    }
}

/// Whether a node can be folded into the expression that reads it: boundary
/// arguments live in registers, calls are statements, and a hinted value
/// port carries an operand's value rather than its own.
pub open spec fn inlinable(node: Node, luau: bool) -> bool {
    &&& !(node.operation is FunctionArguments || node.operation is BranchArguments
        || node.operation is RepeatArguments || node.operation is Apply)
    &&& shape_of(node.operation) == Shape::Plain
    &&& (if luau { luau_hint(node, 0) } else { allocator_hint(node, 0) }) is None
}

/// The addresses of the first `i` nodes of a region that are deferred.
pub open spec fn recorded(nodes: Seq<Node>, states: Seq<UseState>, i: int, luau: bool) -> Seq<usize>
    decreases i,
{
    if i <= 0 || i > nodes.len() {
        Seq::empty()
    } else {
        let prev = recorded(nodes, states, i - 1, luau);
        if states[i - 1] == UseState::Deferrable && inlinable(nodes[i - 1], luau) {
            prev.push(nodes[i - 1].address)
        } else {
            prev
        }
    }
}

/// The deferred nodes of a region: its own, then those of the regions
/// nested in its nodes, in order.
pub open spec fn deferrals(nodes: Seq<Node>, luau: bool) -> Seq<usize>
    decreases nodes, nodes.len() + 1,
{
    recorded(nodes, use_states(nodes, nodes.len() as int, luau), nodes.len() as int, luau)
        + children_deferrals(nodes, nodes.len() as int, luau)
}

/// The deferred nodes of the regions nested in the first `i` nodes.
pub open spec fn children_deferrals(nodes: Seq<Node>, i: int, luau: bool) -> Seq<usize>
    decreases nodes, i,
{
    if i <= 0 || i > nodes.len() {
        Seq::empty()
    } else {
        children_deferrals(nodes, i - 1, luau) + node_deferrals(nodes[i - 1], luau)
    }
}

/// The deferred nodes of the regions nested in a node.
pub open spec fn node_deferrals(node: Node, luau: bool) -> Seq<usize>
    decreases node, 0int,
{
    match node.operation {
        Operation::Function { body } => deferrals(body@, luau),
        Operation::Repeat { body } => deferrals(body@, luau),
        Operation::Match { branches, .. } => branch_deferrals(branches@, branches@.len() as int, luau),
        _ => Seq::empty(),
    }
}

/// The deferred nodes of the first `j` branches.
pub open spec fn branch_deferrals(branches: Seq<Vec<Node>>, j: int, luau: bool) -> Seq<usize>
    decreases branches, j,
{
    if j <= 0 || j > branches.len() {
        Seq::empty()
    } else {
        branch_deferrals(branches, j - 1, luau) + deferrals(branches[j - 1]@, luau)
    }
}

/// Every link of `links` refers to one of `count` nodes.
pub open spec fn links_within(links: Seq<Link>, count: nat) -> bool {
    forall|k: int| 0 <= k < links.len() ==> (#[trigger] links[k]).node < count
}

/// A node whose links all stay within a region of `count` nodes, with
/// nested regions of the same kind.
pub open spec fn node_links_ok(node: Node, count: nat) -> bool
    decreases node, 0int,
{
    &&& links_within(node.inputs@, count)
    &&& node.reuse_hints@.len() <= u16::MAX
    &&& forall|p: int| 0 <= p < node.reuse_hints@.len() && (#[trigger] node.reuse_hints@[p]) is Some
        ==> node.reuse_hints@[p]->0.node < count
    &&& match node.operation {
        Operation::Function { body } => region_links_ok(body@),
        Operation::Repeat { body } => region_links_ok(body@),
        Operation::Match { condition, arguments, branches } => {
            &&& condition.node < count
            &&& links_within(arguments@, count)
            &&& branches_links_ok(branches@, branches@.len() as int)
        },
        Operation::Foreign { store, .. } => store matches Some(hint) ==> hint.reference.node < count,
        _ => true,
    }
}

/// The first `i` nodes of a region keep their links within it.
pub open spec fn nodes_links_ok(nodes: Seq<Node>, i: int) -> bool
    decreases nodes, i,
{
    if i <= 0 || i > nodes.len() {
        true
    } else {
        nodes_links_ok(nodes, i - 1) && node_links_ok(nodes[i - 1], nodes.len())
    }
}

/// Every node of a region, nested regions included, keeps its links within
/// its own region.
pub open spec fn region_links_ok(nodes: Seq<Node>) -> bool
    decreases nodes, nodes.len() + 1,
{
    nodes_links_ok(nodes, nodes.len() as int)
}

/// The first `j` branches keep their links within themselves.
pub open spec fn branches_links_ok(branches: Seq<Vec<Node>>, j: int) -> bool
    decreases branches, j,
{
    if j <= 0 || j > branches.len() {
        true
    } else {
        branches_links_ok(branches, j - 1) && region_links_ok(branches[j - 1]@)
    }
}

/// The register allocator's reuse hint for output `port` of `node`.
pub fn allocator_reuse_hint(node: &Node, port: u16) -> (hint: Option<Link>)
    ensures
        hint == allocator_hint(*node, port as int),
{
    if (port as usize) < node.reuse_hints.len() {
        node.reuse_hints[port as usize]
    } else {
        None
    }
}

/// The Luau target's reuse hint for output `port` of `node`.
pub fn reuse_hint_of(node: &Node, port: u16) -> (hint: Option<Link>)
    ensures
        hint == luau_hint(*node, port as int),
{
    match &node.operation {
        Operation::Foreign { store, .. } => match store {
            Some(hint) => if port == hint.state_port {
                Some(hint.reference)
            } else {
                None
            },
            None => None,
        },
        _ => allocator_reuse_hint(node, port),
    }
}

/// Records one read through `link`.
fn observe_link(states: &mut Vec<UseState>, link: Link)
    requires
        (link.node as int) < old(states)@.len(),
    ensures
        final(states)@ == old(states)@.update(
            link.node as int,
            old(states)@[link.node as int].observed(link.port),
        ),
{
    let mut state = states[link.node as usize];
    state.observe(link.port);
    states.set(link.node as usize, state);
}

/// Pins the source of `link` to a register.
fn block_link(states: &mut Vec<UseState>, link: Link)
    requires
        (link.node as int) < old(states)@.len(),
    ensures
        final(states)@ == old(states)@.update(link.node as int, UseState::Blocked),
{
    states.set(link.node as usize, UseState::Blocked);
}

/// Records one read of each input of a plain operation.
fn classify_plain_uses(node: &Node, states: &mut Vec<UseState>)
    requires
        links_within(node.inputs@, old(states)@.len()),
    ensures
        final(states)@ == observe_all(old(states)@, node.inputs@, node.inputs@.len() as int),
        final(states)@.len() == old(states)@.len(),
{
    let mut k: usize = 0;
    while k < node.inputs.len()
        invariant
            k <= node.inputs@.len(),
            links_within(node.inputs@, old(states)@.len()),
            states@ == observe_all(old(states)@, node.inputs@, k as int),
            states@.len() == old(states)@.len(),
        decreases node.inputs.len() - k,
    {
        let link = node.inputs[k];
        observe_link(states, link);
        k = k + 1;
    }
}

/// Pins every input of `links` to a register.
fn block_links(links: &Vec<Link>, states: &mut Vec<UseState>)
    requires
        links_within(links@, old(states)@.len()),
    ensures
        final(states)@ == block_all(old(states)@, links@, links@.len() as int),
        final(states)@.len() == old(states)@.len(),
{
    let mut k: usize = 0;
    while k < links.len()
        invariant
            k <= links@.len(),
            links_within(links@, old(states)@.len()),
            states@ == block_all(old(states)@, links@, k as int),
            states@.len() == old(states)@.len(),
        decreases links.len() - k,
    {
        block_link(states, links[k]);
        k = k + 1;
    }
}

/// Pins every input of a node that is not a plain operation to a register.
fn classify_blocking_uses(node: &Node, states: &mut Vec<UseState>)
    requires
        links_within(node.inputs@, old(states)@.len()),
    ensures
        final(states)@ == block_all(old(states)@, node.inputs@, node.inputs@.len() as int),
        final(states)@.len() == old(states)@.len(),
{
    block_links(&node.inputs, states);
}

/// Classifies the reads of a match: its arguments are register transfers,
/// and its condition is inlinable only when the match has at most two
/// branches.
fn classify_match_uses(
    condition: Link,
    arguments: &Vec<Link>,
    branch_count: usize,
    states: &mut Vec<UseState>,
)
    requires
        links_within(arguments@, old(states)@.len()),
        (condition.node as int) < old(states)@.len(),
    ensures
        final(states)@ == match_uses(old(states)@, arguments@, condition, branch_count as nat),
        final(states)@.len() == old(states)@.len(),
{
    block_links(arguments, states);
    if branch_count <= 2 {
        observe_link(states, condition);
    } else {
        block_link(states, condition);
    }
}

/// Pins to registers the operands whose registers the output ports of
/// `node` reuse, by the Luau target's hints (`luau`) or the allocator's.
fn block_hinted_operands(node: &Node, states: &mut Vec<UseState>, luau: bool)
    requires
        node_hints_within(*node, old(states)@.len()),
    ensures
        final(states)@ == block_hints(old(states)@, *node, node.reuse_hints@.len() as int, luau),
        final(states)@.len() == old(states)@.len(),
{
    let count = node.reuse_hints.len() as u16;
    let mut port: u16 = 0;
    while port < count
        invariant
            port <= count,
            count == node.reuse_hints@.len(),
            node_hints_within(*node, old(states)@.len()),
            states@ == block_hints(old(states)@, *node, port as int, luau),
            states@.len() == old(states)@.len(),
        decreases count - port,
    {
        let hint = if luau { reuse_hint_of(node, port) } else { allocator_reuse_hint(node, port) };
        if let Some(operand) = hint {
            block_link(states, operand);
        }
        port = port + 1;
    }
}

/// Every hint of `node` refers to one of `count` nodes, and it has at most
/// `u16::MAX` output ports.
pub open spec fn node_hints_within(node: Node, count: nat) -> bool {
    &&& node.reuse_hints@.len() <= u16::MAX
    &&& forall|p: int| 0 <= p < node.reuse_hints@.len() && (#[trigger] node.reuse_hints@[p]) is Some
        ==> node.reuse_hints@[p]->0.node < count
    &&& node.operation matches Operation::Foreign { store, .. } ==> (store matches Some(hint)
        ==> hint.reference.node < count)
}

/// Once pinned to a register, a node stays pinned, whatever else reads it.
pub proof fn lemma_blocked_stays_blocked(node: Node, states: Seq<UseState>, j: int, luau: bool)
    requires
        0 <= j < states.len(),
        states[j] == UseState::Blocked,
        node_reads_within(node, states.len()),
    ensures
        (if luau { luau_classify(node, states) } else { luajit_classify(node, states) })[j]
            == UseState::Blocked,
        (if luau { luau_classify(node, states) } else { luajit_classify(node, states) }).len()
            == states.len(),
{
    let inputs = node.inputs@;
    lemma_observe_all_keeps_blocked(states, inputs, inputs.len() as int, j);
    lemma_block_all_keeps_blocked(states, inputs, inputs.len() as int, j);
    if let Operation::Match { condition, arguments, branches } = node.operation {
        lemma_block_all_keeps_blocked(states, arguments@, arguments@.len() as int, j);
        lemma_block_all_len(states, arguments@, arguments@.len() as int);
    }
    let s = if luau {
        match node.operation {
            Operation::Match { condition, arguments, branches } => match_uses(
                states,
                arguments@,
                condition,
                branches@.len(),
            ),
            _ => if shape_of(node.operation) == Shape::Plain {
                observe_all(states, inputs, inputs.len() as int)
            } else {
                block_all(states, inputs, inputs.len() as int)
            },
        }
    } else if shape_of(node.operation) == Shape::Plain {
        observe_all(states, inputs, inputs.len() as int)
    } else {
        block_all(states, inputs, inputs.len() as int)
    };
    assert(s[j] == UseState::Blocked && s.len() == states.len());
    lemma_block_hints_keeps_blocked(s, node, node.reuse_hints@.len() as int, luau, j);
}

/// Across a region, a node pinned after `i` classifications is still pinned
/// after any later count `k`.
pub proof fn lemma_region_blocked_stays_blocked(nodes: Seq<Node>, i: int, k: int, j: int, luau: bool)
    requires
        0 <= i <= k <= nodes.len(),
        0 <= j < nodes.len(),
        use_states(nodes, i, luau)[j] == UseState::Blocked,
        forall|n: int| 0 <= n < nodes.len() ==> node_reads_within(#[trigger] nodes[n], nodes.len()),
    ensures
        use_states(nodes, k, luau)[j] == UseState::Blocked,
    decreases k,
{
    lemma_use_states_len(nodes, k, luau);
    if k > i {
        lemma_region_blocked_stays_blocked(nodes, i, k - 1, j, luau);
        lemma_use_states_len(nodes, k - 1, luau);
        lemma_blocked_stays_blocked(nodes[k - 1], use_states(nodes, k - 1, luau), j, luau);
    }
}

/// Classification keeps one state per node.
pub proof fn lemma_use_states_len(nodes: Seq<Node>, i: int, luau: bool)
    requires
        forall|n: int| 0 <= n < nodes.len() ==> node_reads_within(#[trigger] nodes[n], nodes.len()),
    ensures
        use_states(nodes, i, luau).len() == nodes.len(),
    decreases i,
{
    if 0 < i <= nodes.len() {
        lemma_use_states_len(nodes, i - 1, luau);
        let prev = use_states(nodes, i - 1, luau);
        let node = nodes[i - 1];
        let inputs = node.inputs@;
        lemma_observe_all_len(prev, inputs, inputs.len() as int);
        lemma_block_all_len(prev, inputs, inputs.len() as int);
        assert(node_reads_within(node, nodes.len()));
        if let Operation::Match { condition, arguments, branches } = node.operation {
            lemma_block_all_len(prev, arguments@, arguments@.len() as int);
        }
        let s1 = observe_all(prev, inputs, inputs.len() as int);
        let s2 = block_all(prev, inputs, inputs.len() as int);
        lemma_block_hints_len(s1, node, node.reuse_hints@.len() as int, luau);
        lemma_block_hints_len(s2, node, node.reuse_hints@.len() as int, luau);
        if let Operation::Match { condition, arguments, branches } = node.operation {
            let s3 = match_uses(prev, arguments@, condition, branches@.len());
            lemma_block_hints_len(s3, node, node.reuse_hints@.len() as int, luau);
        }
    }
}

proof fn lemma_observe_all_len(states: Seq<UseState>, links: Seq<Link>, k: int)
    requires
        links_within(links, states.len()),
    ensures
        observe_all(states, links, k).len() == states.len(),
    decreases k,
{
    if 0 < k <= links.len() {
        lemma_observe_all_len(states, links, k - 1);
    }
}

proof fn lemma_block_all_len(states: Seq<UseState>, links: Seq<Link>, k: int)
    requires
        links_within(links, states.len()),
    ensures
        block_all(states, links, k).len() == states.len(),
    decreases k,
{
    if 0 < k <= links.len() {
        lemma_block_all_len(states, links, k - 1);
    }
}

proof fn lemma_block_hints_len(states: Seq<UseState>, node: Node, p: int, luau: bool)
    requires
        node_hints_within(node, states.len()),
    ensures
        block_hints(states, node, p, luau).len() == states.len(),
    decreases p,
{
    if p > 0 {
        lemma_block_hints_len(states, node, p - 1, luau);
    }
}

proof fn lemma_observe_all_keeps_blocked(states: Seq<UseState>, links: Seq<Link>, k: int, j: int)
    requires
        0 <= j < states.len(),
        states[j] == UseState::Blocked,
        links_within(links, states.len()),
    ensures
        observe_all(states, links, k)[j] == UseState::Blocked,
        observe_all(states, links, k).len() == states.len(),
    decreases k,
{
    if 0 < k <= links.len() {
        lemma_observe_all_keeps_blocked(states, links, k - 1, j);
    }
}

proof fn lemma_block_all_keeps_blocked(states: Seq<UseState>, links: Seq<Link>, k: int, j: int)
    requires
        0 <= j < states.len(),
        states[j] == UseState::Blocked,
        links_within(links, states.len()),
    ensures
        block_all(states, links, k)[j] == UseState::Blocked,
        block_all(states, links, k).len() == states.len(),
    decreases k,
{
    if 0 < k <= links.len() {
        lemma_block_all_keeps_blocked(states, links, k - 1, j);
    }
}

proof fn lemma_block_hints_keeps_blocked(states: Seq<UseState>, node: Node, p: int, luau: bool, j: int)
    requires
        0 <= j < states.len(),
        states[j] == UseState::Blocked,
        node_hints_within(node, states.len()),
    ensures
        block_hints(states, node, p, luau)[j] == UseState::Blocked,
        block_hints(states, node, p, luau).len() == states.len(),
    decreases p,
{
    if p > 0 {
        lemma_block_hints_keeps_blocked(states, node, p - 1, luau, j);
    }
}

/// After `precompute`, a node gets a register exactly when it is not among
/// the deferred nodes of the function.
pub proof fn lemma_materialize_iff_not_deferred(deferred: Seq<usize>, nodes: Seq<Node>, address: usize, luau: bool)
    requires
        deferred.to_multiset() == deferrals(nodes, luau).to_multiset(),
    ensures
        deferred.contains(address) <==> deferrals(nodes, luau).contains(address),
{
    broadcast use vstd::seq_lib::group_to_multiset_ensures;
    assert(deferred.contains(address) <==> deferred.to_multiset().count(address) > 0);
    assert(deferrals(nodes, luau).contains(address) <==> deferrals(nodes, luau).to_multiset().count(address) > 0);
}

/// The addresses of the nodes of a region: its own, then those of the
/// regions nested in its nodes, in order.
pub open spec fn region_addresses(nodes: Seq<Node>) -> Seq<usize>
    decreases nodes, nodes.len() + 1,
{
    nodes.map_values(|node: Node| node.address) + children_addresses(nodes, nodes.len() as int)
}

/// The addresses of the nodes of the regions nested in the first `i` nodes.
pub open spec fn children_addresses(nodes: Seq<Node>, i: int) -> Seq<usize>
    decreases nodes, i,
{
    if i <= 0 || i > nodes.len() {
        Seq::empty()
    } else {
        children_addresses(nodes, i - 1) + node_addresses(nodes[i - 1])
    }
}

/// The addresses of the nodes of the regions nested in a node.
pub open spec fn node_addresses(node: Node) -> Seq<usize>
    decreases node, 0int,
{
    match node.operation {
        Operation::Function { body } => region_addresses(body@),
        Operation::Repeat { body } => region_addresses(body@),
        Operation::Match { branches, .. } => branch_addresses(branches@, branches@.len() as int),
        _ => Seq::empty(),
    }
}

/// The addresses of the nodes of the first `j` branches.
pub open spec fn branch_addresses(branches: Seq<Vec<Node>>, j: int) -> Seq<usize>
    decreases branches, j,
{
    if j <= 0 || j > branches.len() {
        Seq::empty()
    } else {
        branch_addresses(branches, j - 1) + region_addresses(branches[j - 1]@)
    }
}

proof fn lemma_recorded_from_qualifying(nodes: Seq<Node>, states: Seq<UseState>, i: int, luau: bool, x: usize)
    requires
        recorded(nodes, states, i, luau).contains(x),
    ensures
        exists|k: int|
            0 <= k < i && k < nodes.len() && states[k] == UseState::Deferrable && inlinable(
                nodes[k],
                luau,
            ) && #[trigger] nodes[k].address == x,
    decreases i,
{
    if 0 < i <= nodes.len() {
        let prev = recorded(nodes, states, i - 1, luau);
        if states[i - 1] == UseState::Deferrable && inlinable(nodes[i - 1], luau) {
            if x == nodes[i - 1].address {
                assert(nodes[i - 1].address == x);
            } else {
                lemma_in_concat(prev, seq![nodes[i - 1].address], x);
                assert(prev.push(nodes[i - 1].address) =~= prev + seq![nodes[i - 1].address]);
                lemma_recorded_from_qualifying(nodes, states, i - 1, luau, x);
            }
        } else {
            lemma_recorded_from_qualifying(nodes, states, i - 1, luau, x);
        }
    }
}

proof fn lemma_in_concat<A>(a: Seq<A>, b: Seq<A>, x: A)
    ensures
        (a + b).contains(x) <==> a.contains(x) || b.contains(x),
{
    if (a + b).contains(x) {
        let w = choose|w: int| 0 <= w < (a + b).len() && #[trigger] (a + b)[w] == x;
        if w < a.len() {
            assert(a[w] == x);
        } else {
            assert(b[w - a.len()] == x);
        }
    }
    if a.contains(x) {
        let w = choose|w: int| 0 <= w < a.len() && #[trigger] a[w] == x;
        assert((a + b)[w] == x);
    }
    if b.contains(x) {
        let w = choose|w: int| 0 <= w < b.len() && #[trigger] b[w] == x;
        assert((a + b)[w + a.len()] == x);
    }
}

proof fn lemma_deferrals_within(nodes: Seq<Node>, luau: bool, x: usize)
    requires
        deferrals(nodes, luau).contains(x),
    ensures
        region_addresses(nodes).contains(x),
    decreases nodes, nodes.len() + 1,
{
    let own = recorded(nodes, use_states(nodes, nodes.len() as int, luau), nodes.len() as int, luau);
    lemma_in_concat(own, children_deferrals(nodes, nodes.len() as int, luau), x);
    let addresses = nodes.map_values(|node: Node| node.address);
    lemma_in_concat(addresses, children_addresses(nodes, nodes.len() as int), x);
    if own.contains(x) {
        lemma_recorded_from_qualifying(nodes, use_states(nodes, nodes.len() as int, luau), nodes.len() as int, luau, x);
        let k = choose|k: int|
            0 <= k < nodes.len() && k < nodes.len() && use_states(nodes, nodes.len() as int, luau)[k] == UseState::Deferrable
                && inlinable(nodes[k], luau) && #[trigger] nodes[k].address == x;
        assert(addresses[k] == x);
    } else {
        lemma_children_deferrals_within(nodes, nodes.len() as int, luau, x);
    }
}

proof fn lemma_children_deferrals_within(nodes: Seq<Node>, i: int, luau: bool, x: usize)
    requires
        children_deferrals(nodes, i, luau).contains(x),
    ensures
        children_addresses(nodes, i).contains(x),
    decreases nodes, i,
{
    if 0 < i <= nodes.len() {
        lemma_in_concat(children_deferrals(nodes, i - 1, luau), node_deferrals(nodes[i - 1], luau), x);
        lemma_in_concat(children_addresses(nodes, i - 1), node_addresses(nodes[i - 1]), x);
        if children_deferrals(nodes, i - 1, luau).contains(x) {
            lemma_children_deferrals_within(nodes, i - 1, luau, x);
        } else {
            lemma_node_deferrals_within(nodes[i - 1], luau, x);
        }
    }
}

proof fn lemma_node_deferrals_within(node: Node, luau: bool, x: usize)
    requires
        node_deferrals(node, luau).contains(x),
    ensures
        node_addresses(node).contains(x),
    decreases node, 0int,
{
    match node.operation {
        Operation::Function { body } => lemma_deferrals_within(body@, luau, x),
        Operation::Repeat { body } => lemma_deferrals_within(body@, luau, x),
        Operation::Match { branches, .. } => lemma_branch_deferrals_within(branches@, branches@.len() as int, luau, x),
        _ => {},
    }
}

proof fn lemma_branch_deferrals_within(branches: Seq<Vec<Node>>, j: int, luau: bool, x: usize)
    requires
        branch_deferrals(branches, j, luau).contains(x),
    ensures
        branch_addresses(branches, j).contains(x),
    decreases branches, j,
{
    if 0 < j <= branches.len() {
        lemma_in_concat(branch_deferrals(branches, j - 1, luau), deferrals(branches[j - 1]@, luau), x);
        lemma_in_concat(branch_addresses(branches, j - 1), region_addresses(branches[j - 1]@), x);
        if branch_deferrals(branches, j - 1, luau).contains(x) {
            lemma_branch_deferrals_within(branches, j - 1, luau, x);
        } else {
            lemma_deferrals_within(branches[j - 1]@, luau, x);
        }
    }
}

/// Where no two nodes of a function share an address, a node of its outer
/// region whose value is read other than exactly once through its value
/// port by a plain operation, or that cannot be inlined, is among no
/// deferred nodes: it gets a register.
pub proof fn lemma_undeferred_nodes_materialize(nodes: Seq<Node>, j: int, luau: bool)
    requires
        region_addresses(nodes).no_duplicates(),
        0 <= j < nodes.len(),
        use_states(nodes, nodes.len() as int, luau)[j] != UseState::Deferrable || !inlinable(nodes[j], luau),
    ensures
        !deferrals(nodes, luau).contains(nodes[j].address),
{
    let x = nodes[j].address;
    let states = use_states(nodes, nodes.len() as int, luau);
    let own = recorded(nodes, states, nodes.len() as int, luau);
    let addresses = nodes.map_values(|node: Node| node.address);
    let children = children_addresses(nodes, nodes.len() as int);
    lemma_in_concat(own, children_deferrals(nodes, nodes.len() as int, luau), x);
    assert(addresses[j] == x);
    if own.contains(x) {
        lemma_recorded_from_qualifying(nodes, states, nodes.len() as int, luau, x);
        let k = choose|k: int|
            0 <= k < nodes.len() && k < nodes.len() && states[k] == UseState::Deferrable
                && inlinable(nodes[k], luau) && #[trigger] nodes[k].address == x;
        assert(k != j);
        assert(region_addresses(nodes)[k] == addresses[k]);
        assert(region_addresses(nodes)[j] == addresses[j]);
    }
    if children_deferrals(nodes, nodes.len() as int, luau).contains(x) {
        lemma_children_deferrals_within(nodes, nodes.len() as int, luau, x);
        let w = choose|w: int| 0 <= w < children.len() && #[trigger] children[w] == x;
        assert(region_addresses(nodes)[addresses.len() + w] == x);
        assert(region_addresses(nodes)[j] == x);
    }
}

/// After `precompute`, where no two nodes of the function share an
/// address, a node of the outer region that is pinned to a register is not
/// among the deferred nodes, so `should_materialize` holds of it.
pub proof fn lemma_pinned_nodes_materialize(deferred: Seq<usize>, nodes: Seq<Node>, j: int, luau: bool)
    requires
        deferred.to_multiset() == deferrals(nodes, luau).to_multiset(),
        region_addresses(nodes).no_duplicates(),
        0 <= j < nodes.len(),
        use_states(nodes, nodes.len() as int, luau)[j] == UseState::Blocked,
    ensures
        !deferred.contains(nodes[j].address),
{
    lemma_undeferred_nodes_materialize(nodes, j, luau);
    lemma_materialize_iff_not_deferred(deferred, nodes, nodes[j].address, luau);
}

/// How far a use state is from inlinable: unread, read once, pinned.
pub open spec fn use_rank(state: UseState) -> int {
    match state {
        UseState::Unused => 0,
        UseState::Deferrable => 1,
        UseState::Blocked => 2,
    }
}

proof fn lemma_observe_all_grows(states: Seq<UseState>, links: Seq<Link>, k: int, j: int)
    requires
        0 <= j < states.len(),
        links_within(links, states.len()),
    ensures
        use_rank(observe_all(states, links, k)[j]) >= use_rank(states[j]),
        observe_all(states, links, k).len() == states.len(),
    decreases k,
{
    if 0 < k <= links.len() {
        lemma_observe_all_grows(states, links, k - 1, j);
        lemma_observe_all_len(states, links, k - 1);
    }
}

proof fn lemma_block_all_grows(states: Seq<UseState>, links: Seq<Link>, k: int, j: int)
    requires
        0 <= j < states.len(),
        links_within(links, states.len()),
    ensures
        use_rank(block_all(states, links, k)[j]) >= use_rank(states[j]),
        block_all(states, links, k).len() == states.len(),
    decreases k,
{
    if 0 < k <= links.len() {
        lemma_block_all_grows(states, links, k - 1, j);
        lemma_block_all_len(states, links, k - 1);
    }
}

proof fn lemma_block_hints_grows(states: Seq<UseState>, node: Node, p: int, luau: bool, j: int)
    requires
        0 <= j < states.len(),
        node_hints_within(node, states.len()),
    ensures
        use_rank(block_hints(states, node, p, luau)[j]) >= use_rank(states[j]),
        block_hints(states, node, p, luau).len() == states.len(),
    decreases p,
{
    if p > 0 {
        lemma_block_hints_grows(states, node, p - 1, luau, j);
        lemma_block_hints_len(states, node, p - 1, luau);
    }
}

/// The states before the hints of `node` are applied.
pub open spec fn read_states(node: Node, states: Seq<UseState>, luau: bool) -> Seq<UseState> {
    let inputs = node.inputs@;
    if luau && node.operation is Match {
        match node.operation {
            Operation::Match { condition, arguments, branches } => match_uses(
                states,
                arguments@,
                condition,
                branches@.len(),
            ),
            _ => states,
        }
    } else if shape_of(node.operation) == Shape::Plain {
        observe_all(states, inputs, inputs.len() as int)
    } else {
        block_all(states, inputs, inputs.len() as int)
    }
}

proof fn lemma_classify_unfold(node: Node, states: Seq<UseState>, luau: bool)
    ensures
        (if luau { luau_classify(node, states) } else { luajit_classify(node, states) })
            == block_hints(read_states(node, states, luau), node, node.reuse_hints@.len() as int, luau),
{
}

proof fn lemma_classify_grows(node: Node, states: Seq<UseState>, luau: bool, j: int)
    requires
        0 <= j < states.len(),
        node_reads_within(node, states.len()),
    ensures
        use_rank((if luau { luau_classify(node, states) } else { luajit_classify(node, states) })[j])
            >= use_rank(states[j]),
{
    lemma_classify_unfold(node, states, luau);
    let inputs = node.inputs@;
    lemma_observe_all_grows(states, inputs, inputs.len() as int, j);
    lemma_block_all_grows(states, inputs, inputs.len() as int, j);
    if let Operation::Match { condition, arguments, branches } = node.operation {
        lemma_block_all_grows(states, arguments@, arguments@.len() as int, j);
    }
    let s = read_states(node, states, luau);
    assert(use_rank(s[j]) >= use_rank(states[j]) && s.len() == states.len());
    lemma_block_hints_grows(s, node, node.reuse_hints@.len() as int, luau, j);
}

proof fn lemma_region_grows(nodes: Seq<Node>, i: int, k: int, j: int, luau: bool)
    requires
        0 <= i <= k <= nodes.len(),
        0 <= j < nodes.len(),
        forall|n: int| 0 <= n < nodes.len() ==> node_reads_within(#[trigger] nodes[n], nodes.len()),
    ensures
        use_rank(use_states(nodes, k, luau)[j]) >= use_rank(use_states(nodes, i, luau)[j]),
    decreases k,
{
    if k > i {
        lemma_region_grows(nodes, i, k - 1, j, luau);
        lemma_use_states_len(nodes, k - 1, luau);
        lemma_classify_grows(nodes[k - 1], use_states(nodes, k - 1, luau), luau, j);
    }
}

proof fn lemma_block_all_marks(states: Seq<UseState>, links: Seq<Link>, k: int, q: int)
    requires
        0 <= q < k <= links.len(),
        links_within(links, states.len()),
    ensures
        block_all(states, links, k)[links[q].node as int] == UseState::Blocked,
    decreases k,
{
    lemma_block_all_len(states, links, k - 1);
    if q < k - 1 {
        lemma_block_all_marks(states, links, k - 1, q);
    }
}

proof fn lemma_observe_all_marks(states: Seq<UseState>, links: Seq<Link>, k: int, q: int)
    requires
        0 <= q < k <= links.len(),
        links_within(links, states.len()),
    ensures
        use_rank(observe_all(states, links, k)[links[q].node as int]) >= 1,
        links[q].port != 0 || use_rank(observe_all(states, links, q)[links[q].node as int]) >= 1
            ==> observe_all(states, links, k)[links[q].node as int] == UseState::Blocked,
    decreases k,
{
    let n = links[q].node as int;
    lemma_observe_all_len(states, links, k - 1);
    if q < k - 1 {
        lemma_observe_all_marks(states, links, k - 1, q);
    }
}

/// A node is pinned to a register when a node of its region that is not a
/// plain operation reads it (the Luau target's match aside, which reads its
/// condition on its own terms).
pub proof fn lemma_non_plain_reader_blocks(nodes: Seq<Node>, k: int, q: int, luau: bool)
    requires
        region_links_ok(nodes),
        0 <= k < nodes.len(),
        shape_of(nodes[k].operation) != Shape::Plain,
        luau ==> !(nodes[k].operation is Match),
        0 <= q < nodes[k].inputs@.len(),
    ensures
        use_states(nodes, nodes.len() as int, luau)[nodes[k].inputs@[q].node as int] == UseState::Blocked,
{
    lemma_nodes_links_ok(nodes, nodes.len() as int);
    assert forall|n: int| 0 <= n < nodes.len() implies node_reads_within(#[trigger] nodes[n], nodes.len()) by {
        lemma_node_reads_within(nodes[n], nodes.len());
    }
    let node = nodes[k];
    let j = node.inputs@[q].node as int;
    let before = use_states(nodes, k, luau);
    lemma_use_states_len(nodes, k, luau);
    lemma_block_all_marks(before, node.inputs@, node.inputs@.len() as int, q);
    lemma_block_all_len(before, node.inputs@, node.inputs@.len() as int);
    lemma_classify_unfold(node, before, luau);
    lemma_block_hints_keeps_blocked(read_states(node, before, luau), node, node.reuse_hints@.len() as int, luau, j);
    lemma_region_blocked_stays_blocked(nodes, k + 1, nodes.len() as int, j, luau);
}

/// A node is pinned to a register when a plain operation of its region
/// reads it a second time, or reads an output of it other than its value:
/// `earlier` and `earlier_input` name a read before input `q` of node `k`.
pub proof fn lemma_second_read_blocks(nodes: Seq<Node>, k: int, q: int, earlier: int, earlier_input: int, luau: bool)
    requires
        region_links_ok(nodes),
        0 <= k < nodes.len(),
        shape_of(nodes[k].operation) == Shape::Plain,
        0 <= q < nodes[k].inputs@.len(),
        nodes[k].inputs@[q].port != 0 || (0 <= earlier <= k && 0 <= earlier_input < nodes[earlier].inputs@.len()
            && (earlier < k || earlier_input < q) && nodes[earlier].inputs@[earlier_input].node
            == nodes[k].inputs@[q].node && (luau ==> !(nodes[earlier].operation is Match))),
    ensures
        use_states(nodes, nodes.len() as int, luau)[nodes[k].inputs@[q].node as int] == UseState::Blocked,
{
    lemma_nodes_links_ok(nodes, nodes.len() as int);
    assert forall|n: int| 0 <= n < nodes.len() implies node_reads_within(#[trigger] nodes[n], nodes.len()) by {
        lemma_node_reads_within(nodes[n], nodes.len());
    }
    let node = nodes[k];
    let inputs = node.inputs@;
    let j = inputs[q].node as int;
    let before = use_states(nodes, k, luau);
    lemma_use_states_len(nodes, k, luau);
    if inputs[q].port == 0 {
        if earlier < k {
            let other = nodes[earlier];
            let at = use_states(nodes, earlier, luau);
            lemma_use_states_len(nodes, earlier, luau);
            let oinputs = other.inputs@;
            lemma_observe_all_len(at, oinputs, oinputs.len() as int);
            lemma_block_all_len(at, oinputs, oinputs.len() as int);
            if shape_of(other.operation) == Shape::Plain {
                lemma_observe_all_marks(at, oinputs, oinputs.len() as int, earlier_input);
            } else {
                lemma_block_all_marks(at, oinputs, oinputs.len() as int, earlier_input);
            }
            let r = read_states(other, at, luau);
            assert(use_rank(r[j]) >= 1);
            lemma_block_hints_grows(r, other, other.reuse_hints@.len() as int, luau, j);
            lemma_classify_unfold(other, at, luau);
            assert(use_rank(use_states(nodes, earlier + 1, luau)[j]) >= 1);
            lemma_region_grows(nodes, earlier + 1, k, j, luau);
            lemma_observe_all_grows(before, inputs, q, j);
        } else {
            lemma_observe_all_marks(before, inputs, q, earlier_input);
        }
    }
    lemma_observe_all_marks(before, inputs, inputs.len() as int, q);
    lemma_observe_all_len(before, inputs, inputs.len() as int);
    lemma_classify_unfold(node, before, luau);
    lemma_block_hints_keeps_blocked(read_states(node, before, luau), node, node.reuse_hints@.len() as int, luau, j);
    lemma_region_blocked_stays_blocked(nodes, k + 1, nodes.len() as int, j, luau);
}

proof fn lemma_block_hints_marks(states: Seq<UseState>, node: Node, p: int, luau: bool, hinted: int)
    requires
        0 <= hinted < p,
        node_hints_within(node, states.len()),
        (if luau { luau_hint(node, hinted) } else { allocator_hint(node, hinted) }) is Some,
    ensures
        block_hints(states, node, p, luau)[(if luau { luau_hint(node, hinted) } else {
            allocator_hint(node, hinted)
        })->0.node as int] == UseState::Blocked,
    decreases p,
{
    lemma_block_hints_len(states, node, p - 1, luau);
    if hinted < p - 1 {
        lemma_block_hints_marks(states, node, p - 1, luau, hinted);
    }
}

/// A node is pinned to a register when an output port of a node of its
/// region reuses its register.
pub proof fn lemma_hinted_operand_blocks(nodes: Seq<Node>, k: int, port: int, luau: bool)
    requires
        region_links_ok(nodes),
        0 <= k < nodes.len(),
        0 <= port < nodes[k].reuse_hints@.len(),
        (if luau { luau_hint(nodes[k], port) } else { allocator_hint(nodes[k], port) }) is Some,
    ensures
        use_states(nodes, nodes.len() as int, luau)[(if luau { luau_hint(nodes[k], port) } else {
            allocator_hint(nodes[k], port)
        })->0.node as int] == UseState::Blocked,
{
    lemma_nodes_links_ok(nodes, nodes.len() as int);
    assert forall|n: int| 0 <= n < nodes.len() implies node_reads_within(#[trigger] nodes[n], nodes.len()) by {
        lemma_node_reads_within(nodes[n], nodes.len());
    }
    let node = nodes[k];
    let hint = if luau { luau_hint(node, port) } else { allocator_hint(node, port) };
    let before = use_states(nodes, k, luau);
    lemma_use_states_len(nodes, k, luau);
    let inputs = node.inputs@;
    lemma_observe_all_len(before, inputs, inputs.len() as int);
    lemma_block_all_len(before, inputs, inputs.len() as int);
    if let Operation::Match { condition, arguments, branches } = node.operation {
        lemma_block_all_len(before, arguments@, arguments@.len() as int);
    }
    let s = read_states(node, before, luau);
    assert(s.len() == nodes.len());
    if luau {
        if let Operation::Foreign { store, .. } = node.operation {
            assert(hint->0.node < nodes.len());
        } else {
            assert(hint == allocator_hint(node, port));
            assert(node.reuse_hints@[port] is Some);
        }
    } else {
        assert(node.reuse_hints@[port] is Some);
    }
    lemma_block_hints_marks(s, node, node.reuse_hints@.len() as int, luau, port);
    lemma_classify_unfold(node, before, luau);
    lemma_region_blocked_stays_blocked(nodes, k + 1, nodes.len() as int, hint->0.node as int, luau);
}

/// The reads of `node` itself (not of nested regions) stay within a region
/// of `count` nodes.
pub open spec fn node_reads_within(node: Node, count: nat) -> bool {
    &&& links_within(node.inputs@, count)
    &&& node_hints_within(node, count)
    &&& node.operation matches Operation::Match { condition, arguments, .. } ==> {
        &&& condition.node < count
        &&& links_within(arguments@, count)
    }
}

/// A node whose links stay within its region reads within it.
pub proof fn lemma_node_reads_within(node: Node, count: nat)
    requires
        node_links_ok(node, count),
    ensures
        node_reads_within(node, count),
{
}

/// Every node among the first `i` of a region keeps its links within it.
pub proof fn lemma_nodes_links_ok(nodes: Seq<Node>, i: int)
    requires
        nodes_links_ok(nodes, i),
        0 <= i <= nodes.len(),
    ensures
        forall|k: int| 0 <= k < i ==> node_links_ok(#[trigger] nodes[k], nodes.len()),
    decreases i,
{
    if i > 0 {
        lemma_nodes_links_ok(nodes, i - 1);
    }
}

/// Every branch among the first `j` keeps its links within itself.
pub proof fn lemma_branches_links_ok(branches: Seq<Vec<Node>>, j: int)
    requires
        branches_links_ok(branches, j),
        0 <= j <= branches.len(),
    ensures
        forall|k: int| 0 <= k < j ==> region_links_ok(#[trigger] branches[k]@),
    decreases j,
{
    if j > 0 {
        lemma_branches_links_ok(branches, j - 1);
    }
}

/// Classifies the reads of `node` for the Luau target.
fn classify_uses(node: &Node, states: &mut Vec<UseState>)
    requires
        node_reads_within(*node, old(states)@.len()),
    ensures
        final(states)@ == luau_classify(*node, old(states)@),
        final(states)@.len() == old(states)@.len(),
{
    match &node.operation {
        Operation::Match { condition, arguments, branches } => {
            classify_match_uses(*condition, arguments, branches.len(), states);
        },
        _ => {
            if shape(node) == Shape::Plain {
                classify_plain_uses(node, states);
            } else {
                classify_blocking_uses(node, states);
            }
        },
    }
    block_hinted_operands(node, states, true);
}

/// Whether `node` can be inlined by the Luau target.
fn is_inlinable(node: &Node) -> (inline: bool)
    ensures
        inline == inlinable(*node, true),
{
    let boundary = match &node.operation {
        Operation::FunctionArguments
        | Operation::BranchArguments
        | Operation::RepeatArguments
        | Operation::Apply => true,
        _ => false,
    };
    !boundary && shape(node) == Shape::Plain && reuse_hint_of(node, 0).is_none()
}

/// Sorts addresses in increasing order.
///
/// Calls `slice::sort_unstable`, which the standard library documents as
/// sorting the slice in ascending order, keeping every element.
#[verifier::external_body]
fn sort_addresses(addresses: &mut Vec<usize>)
    ensures
        final(addresses)@.to_multiset() == old(addresses)@.to_multiset(),
        forall|i: int, j: int|
            0 <= i <= j < final(addresses)@.len() ==> final(addresses)@[i] <= final(addresses)@[j],
{
    addresses.sort_unstable();
}

/// Whether the sorted `addresses` hold `x`, found by halving the range.
fn sorted_contains(addresses: &[usize], x: usize) -> (found: bool)
    requires
        forall|i: int, j: int| 0 <= i <= j < addresses@.len() ==> addresses@[i] <= addresses@[j],
    ensures
        found == addresses@.contains(x),
{
    let mut low: usize = 0;
    let mut high: usize = addresses.len();
    while low < high
        invariant
            low <= high <= addresses@.len(),
            forall|i: int, j: int| 0 <= i <= j < addresses@.len() ==> addresses@[i] <= addresses@[j],
            forall|k: int| 0 <= k < low ==> addresses@[k] < x,
            forall|k: int| high <= k < addresses@.len() ==> addresses@[k] > x,
        decreases high - low,
    {
        let middle = low + (high - low) / 2;
        if addresses[middle] < x {
            low = middle + 1;
        } else if addresses[middle] > x {
            high = middle;
        } else {
            assert(addresses@[middle as int] == x);
            return true;
        }
    }
    assert forall|k: int| 0 <= k < addresses@.len() implies addresses@[k] != x by {
        if k < low {
            assert(addresses@[k] < x);
        } else {
            assert(addresses@[k] > x);
        }
    }
    false
}

/// The register kinds of the physical registers: every register takes
/// every kind of value.
fn all_kind_registers() -> (registers: Vec<u8>)
    ensures
        registers@.len() == PHYSICAL_REGISTERS,
        forall|i: int| 0 <= i < registers@.len() ==> registers@[i] == ALL_KINDS,
{
    let mut registers: Vec<u8> = Vec::new();
    while registers.len() < PHYSICAL_REGISTERS as usize
        invariant
            registers@.len() <= PHYSICAL_REGISTERS,
            forall|i: int| 0 <= i < registers@.len() ==> registers@[i] == ALL_KINDS,
        decreases PHYSICAL_REGISTERS - registers@.len(),
    {
        registers.push(ALL_KINDS);
    }
    registers
}

/// The Luau target's choice of the nodes to inline.
pub struct LuauPolicy {
    deferred: Vec<usize>,
    use_states: Vec<UseState>,
}

impl View for LuauPolicy {
    type V = Seq<usize>;

    closed spec fn view(&self) -> Seq<usize> {
        self.deferred@
    }
}

impl LuauPolicy {
    /// A policy that defers nothing.
    pub fn new() -> (policy: Self)
        ensures
            policy@ == Seq::<usize>::empty(),
    {
        LuauPolicy { deferred: Vec::new(), use_states: Vec::new() }
    }

    /// Records, for a whole function, every node whose value is inlined at
    /// its one use rather than given a register.
    pub fn precompute(&mut self, nodes: &[Node])
        requires
            region_links_ok(nodes@),
        ensures
            final(self)@.to_multiset() == deferrals(nodes@, true).to_multiset(),
            forall|i: int, j: int| 0 <= i <= j < final(self)@.len() ==> final(self)@[i] <= final(self)@[j],
    {
        self.deferred.clear();
        self.collect_deferrals(nodes);
        assert(self.deferred@ =~= deferrals(nodes@, true));
        sort_addresses(&mut self.deferred);
    }

    fn collect_deferrals(&mut self, nodes: &[Node])
        requires
            region_links_ok(nodes@),
        ensures
            final(self)@ == old(self)@ + deferrals(nodes@, true),
        decreases nodes@, nodes@.len() + 1,
    {
        proof {
            lemma_nodes_links_ok(nodes@, nodes@.len() as int);
        }
        self.mark_use_states(nodes);
        self.record_deferred(nodes);
        self.descend_into_children(nodes);
        assert(self@ =~= old(self)@ + deferrals(nodes@, true));
    }

    fn mark_use_states(&mut self, nodes: &[Node])
        requires
            forall|k: int| 0 <= k < nodes@.len() ==> node_links_ok(#[trigger] nodes@[k], nodes@.len()),
        ensures
            final(self).use_states@ == use_states(nodes@, nodes@.len() as int, true),
            final(self).use_states@.len() == nodes@.len(),
            final(self)@ == old(self)@,
    {
        self.use_states.clear();
        while self.use_states.len() < nodes.len()
            invariant
                self.use_states@.len() <= nodes@.len(),
                forall|i: int| 0 <= i < self.use_states@.len() ==> self.use_states@[i] == UseState::Unused,
                self@ == old(self)@,
            decreases nodes@.len() - self.use_states@.len(),
        {
            self.use_states.push(UseState::Unused);
        }
        assert(self.use_states@ =~= use_states(nodes@, 0, true));
        let mut i: usize = 0;
        while i < nodes.len()
            invariant
                i <= nodes@.len(),
                self.use_states@ == use_states(nodes@, i as int, true),
                self.use_states@.len() == nodes@.len(),
                self@ == old(self)@,
                forall|k: int| 0 <= k < nodes@.len() ==> node_links_ok(#[trigger] nodes@[k], nodes@.len()),
            decreases nodes.len() - i,
        {
            proof {
                lemma_node_reads_within(nodes@[i as int], nodes@.len());
            }
            classify_uses(&nodes[i], &mut self.use_states);
            i = i + 1;
        }
    }

    fn record_deferred(&mut self, nodes: &[Node])
        requires
            old(self).use_states@ == use_states(nodes@, nodes@.len() as int, true),
            old(self).use_states@.len() == nodes@.len(),
        ensures
            final(self)@ == old(self)@ + recorded(nodes@, old(self).use_states@, nodes@.len() as int, true),
            final(self).use_states@ == old(self).use_states@,
    {
        let mut i: usize = 0;
        while i < nodes.len()
            invariant
                i <= nodes@.len(),
                self.use_states@ == old(self).use_states@,
                old(self).use_states@.len() == nodes@.len(),
                self@ == old(self)@ + recorded(nodes@, old(self).use_states@, i as int, true),
            decreases nodes.len() - i,
        {
            if self.use_states[i] == UseState::Deferrable && is_inlinable(&nodes[i]) {
                self.deferred.push(nodes[i].address);
            }
            assert(self@ =~= old(self)@ + recorded(nodes@, old(self).use_states@, i + 1, true));
            i = i + 1;
        }
    }

    fn descend_into_children(&mut self, nodes: &[Node])
        requires
            forall|k: int| 0 <= k < nodes@.len() ==> node_links_ok(#[trigger] nodes@[k], nodes@.len()),
        ensures
            final(self)@ == old(self)@ + children_deferrals(nodes@, nodes@.len() as int, true),
        decreases nodes@, nodes@.len(),
    {
        let mut i: usize = 0;
        while i < nodes.len()
            invariant
                i <= nodes@.len(),
                self@ == old(self)@ + children_deferrals(nodes@, i as int, true),
                forall|k: int| 0 <= k < nodes@.len() ==> node_links_ok(#[trigger] nodes@[k], nodes@.len()),
            decreases nodes.len() - i,
        {
            self.descend(&nodes[i], Ghost(nodes@.len()));
            assert(self@ =~= old(self)@ + children_deferrals(nodes@, i + 1, true));
            i = i + 1;
        }
    }

    fn descend(&mut self, node: &Node, Ghost(count): Ghost<nat>)
        requires
            node_links_ok(*node, count),
        ensures
            final(self)@ == old(self)@ + node_deferrals(*node, true),
        decreases *node, 0int,
    {
        match &node.operation {
            Operation::Function { body } | Operation::Repeat { body } => {
                self.collect_deferrals(body.as_slice());
            },
            Operation::Match { branches, .. } => {
                self.descend_into_branches(branches);
            },
            _ => {
                assert(self@ =~= old(self)@ + node_deferrals(*node, true));
            },
        }
    }

    fn descend_into_branches(&mut self, branches: &Vec<Vec<Node>>)
        requires
            branches_links_ok(branches@, branches@.len() as int),
        ensures
            final(self)@ == old(self)@ + branch_deferrals(branches@, branches@.len() as int, true),
        decreases branches@, 0int,
    {
        proof {
            lemma_branches_links_ok(branches@, branches@.len() as int);
        }
        let mut j: usize = 0;
        while j < branches.len()
            invariant
                j <= branches@.len(),
                self@ == old(self)@ + branch_deferrals(branches@, j as int, true),
                forall|k: int| 0 <= k < branches@.len() ==> region_links_ok(#[trigger] branches@[k]@),
            decreases branches.len() - j,
        {
            self.collect_deferrals(branches[j].as_slice());
            assert(self@ =~= old(self)@ + branch_deferrals(branches@, j + 1, true));
            j = j + 1;
        }
    }

    /// The register kinds of the physical registers.
    pub fn registers(&self) -> (registers: Vec<u8>)
        ensures
            registers@.len() == PHYSICAL_REGISTERS,
            forall|i: int| 0 <= i < registers@.len() ==> registers@[i] == ALL_KINDS,
    {
        all_kind_registers()
    }

    /// The register kind of output `port` of `node`: every value takes any register.
    pub fn kind(&self, node: &Node, port: u16) -> (kind: u8)
        ensures
            kind == ALL_KINDS,
    {
        ALL_KINDS
    }

    /// Whether `node` gets a register: every node not deferred does.
    pub fn should_materialize(&self, node: &Node) -> (materialize: bool)
        requires
            forall|i: int, j: int| 0 <= i <= j < self@.len() ==> self@[i] <= self@[j],
        ensures
            materialize == !self@.contains(node.address),
    {
        !sorted_contains(&self.deferred, node.address)
    }

    /// The input whose register output `port` of `node` reuses.
    pub fn reuse_hint(&self, node: &Node, port: u16) -> (hint: Option<Link>)
        ensures
            hint == luau_hint(*node, port as int),
    {
        reuse_hint_of(node, port)
    }
}

/// The LuaJIT target's choice of the nodes to inline.
pub struct LuaJITPolicy {
    deferred: Vec<usize>,
    use_states: Vec<UseState>,
}

impl View for LuaJITPolicy {
    type V = Seq<usize>;

    closed spec fn view(&self) -> Seq<usize> {
        self.deferred@
    }
}

impl LuaJITPolicy {
    /// A policy that defers nothing.
    pub fn new() -> (policy: Self)
        ensures
            policy@ == Seq::<usize>::empty(),
    {
        LuaJITPolicy { deferred: Vec::new(), use_states: Vec::new() }
    }

    /// Records, for a whole function, every node whose value is inlined at
    /// its one use rather than given a register.
    pub fn precompute(&mut self, nodes: &[Node])
        requires
            region_links_ok(nodes@),
        ensures
            final(self)@.to_multiset() == deferrals(nodes@, false).to_multiset(),
            forall|i: int, j: int| 0 <= i <= j < final(self)@.len() ==> final(self)@[i] <= final(self)@[j],
    {
        self.deferred.clear();
        self.collect_deferrals(nodes);
        assert(self.deferred@ =~= deferrals(nodes@, false));
        sort_addresses(&mut self.deferred);
    }

    fn collect_deferrals(&mut self, nodes: &[Node])
        requires
            region_links_ok(nodes@),
        ensures
            final(self)@ == old(self)@ + deferrals(nodes@, false),
        decreases nodes@, nodes@.len() + 1,
    {
        proof {
            lemma_nodes_links_ok(nodes@, nodes@.len() as int);
        }
        self.use_states.clear();
        while self.use_states.len() < nodes.len()
            invariant
                self.use_states@.len() <= nodes@.len(),
                forall|i: int| 0 <= i < self.use_states@.len() ==> self.use_states@[i] == UseState::Unused,
                self@ == old(self)@,
            decreases nodes@.len() - self.use_states@.len(),
        {
            self.use_states.push(UseState::Unused);
        }
        assert(self.use_states@ =~= use_states(nodes@, 0, false));
        let mut i: usize = 0;
        while i < nodes.len()
            invariant
                i <= nodes@.len(),
                self.use_states@ == use_states(nodes@, i as int, false),
                self.use_states@.len() == nodes@.len(),
                self@ == old(self)@,
                forall|k: int| 0 <= k < nodes@.len() ==> node_links_ok(#[trigger] nodes@[k], nodes@.len()),
            decreases nodes.len() - i,
        {
            proof {
                lemma_node_reads_within(nodes@[i as int], nodes@.len());
            }
            Self::classify_uses(&nodes[i], &mut self.use_states);
            i = i + 1;
        }
        let ghost states = self.use_states@;
        let mut i: usize = 0;
        while i < nodes.len()
            invariant
                i <= nodes@.len(),
                self.use_states@ == states,
                states == use_states(nodes@, nodes@.len() as int, false),
                states.len() == nodes@.len(),
                self@ == old(self)@ + recorded(nodes@, states, i as int, false),
            decreases nodes.len() - i,
        {
            if self.use_states[i] == UseState::Deferrable && Self::is_inlinable(&nodes[i]) {
                self.deferred.push(nodes[i].address);
            }
            assert(self@ =~= old(self)@ + recorded(nodes@, states, i + 1, false));
            i = i + 1;
        }
        let ghost after_record = self@;
        let mut i: usize = 0;
        while i < nodes.len()
            invariant
                i <= nodes@.len(),
                self@ == after_record + children_deferrals(nodes@, i as int, false),
                forall|k: int| 0 <= k < nodes@.len() ==> node_links_ok(#[trigger] nodes@[k], nodes@.len()),
            decreases nodes.len() - i,
        {
            self.descend(&nodes[i], Ghost(nodes@.len()));
            assert(self@ =~= after_record + children_deferrals(nodes@, i + 1, false));
            i = i + 1;
        }
        assert(self@ =~= old(self)@ + deferrals(nodes@, false));
    }

    /// Classifies the reads of `node` for the LuaJIT target: a plain
    /// operation's first read of a value port keeps it inlinable, every other
    /// read pins it, and so does reuse of its register by a hinted port.
    fn classify_uses(node: &Node, states: &mut Vec<UseState>)
        requires
            node_reads_within(*node, old(states)@.len()),
        ensures
            final(states)@ == luajit_classify(*node, old(states)@),
            final(states)@.len() == old(states)@.len(),
    {
        if shape(node) == Shape::Plain {
            classify_plain_uses(node, states);
        } else {
            classify_blocking_uses(node, states);
        }
        block_hinted_operands(node, states, false);
    }

    /// Whether `node` can be inlined by the LuaJIT target.
    fn is_inlinable(node: &Node) -> (inline: bool)
        ensures
            inline == inlinable(*node, false),
    {
        let boundary = match &node.operation {
            Operation::FunctionArguments
            | Operation::BranchArguments
            | Operation::RepeatArguments
            | Operation::Apply => true,
            _ => false,
        };
        !boundary && shape(node) == Shape::Plain && allocator_reuse_hint(node, 0).is_none()
    }

    fn descend(&mut self, node: &Node, Ghost(count): Ghost<nat>)
        requires
            node_links_ok(*node, count),
        ensures
            final(self)@ == old(self)@ + node_deferrals(*node, false),
        decreases *node, 0int,
    {
        match &node.operation {
            Operation::Function { body } | Operation::Repeat { body } => {
                self.collect_deferrals(body.as_slice());
            },
            Operation::Match { branches, .. } => {
                self.descend_into_branches(branches);
            },
            _ => {
                assert(self@ =~= old(self)@ + node_deferrals(*node, false));
            },
        }
    }

    fn descend_into_branches(&mut self, branches: &Vec<Vec<Node>>)
        requires
            branches_links_ok(branches@, branches@.len() as int),
        ensures
            final(self)@ == old(self)@ + branch_deferrals(branches@, branches@.len() as int, false),
        decreases branches@, 0int,
    {
        proof {
            lemma_branches_links_ok(branches@, branches@.len() as int);
        }
        let mut j: usize = 0;
        while j < branches.len()
            invariant
                j <= branches@.len(),
                self@ == old(self)@ + branch_deferrals(branches@, j as int, false),
                forall|k: int| 0 <= k < branches@.len() ==> region_links_ok(#[trigger] branches@[k]@),
            decreases branches.len() - j,
        {
            self.collect_deferrals(branches[j].as_slice());
            assert(self@ =~= old(self)@ + branch_deferrals(branches@, j + 1, false));
            j = j + 1;
        }
    }

    /// The register kinds of the physical registers.
    pub fn registers(&self) -> (registers: Vec<u8>)
        ensures
            registers@.len() == PHYSICAL_REGISTERS,
            forall|i: int| 0 <= i < registers@.len() ==> registers@[i] == ALL_KINDS,
    {
        all_kind_registers()
    }

    /// The register kind of output `port` of `node`: every value takes any register.
    pub fn kind(&self, node: &Node, port: u16) -> (kind: u8)
        ensures
            kind == ALL_KINDS,
    {
        ALL_KINDS
    }

    /// Whether `node` gets a register: every node not deferred does.
    pub fn should_materialize(&self, node: &Node) -> (materialize: bool)
        requires
            forall|i: int, j: int| 0 <= i <= j < self@.len() ==> self@[i] <= self@[j],
        ensures
            materialize == !self@.contains(node.address),
    {
        !sorted_contains(&self.deferred, node.address)
    }

    /// The input whose register output `port` of `node` reuses: the
    /// allocator's hint.
    pub fn reuse_hint(&self, node: &Node, port: u16) -> (hint: Option<Link>)
        ensures
            hint == allocator_hint(*node, port as int),
    {
        allocator_reuse_hint(node, port)
    }
}

} // verus!
