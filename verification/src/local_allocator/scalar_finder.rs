//! Which outputs of a structured graph need locals of their own: every
//! value output of a node whose first output is read more than once, whose
//! later outputs are read, or whose effect must not be lost.
//!
//! A single read of a first output counts as one read wherever it stands:
//! a value read once, even out of the order in which nodes are computed,
//! gets no local of its own here.

use vstd::prelude::*;

use crate::ir::Link;
use crate::local_allocator::{
    add_keys, branch_scopes, branches_distinct, dangling, nested_distinct, nested_scopes,
    preferences_of, scopes_distinct, tree_scopes, Preferences, ScopedLink,
};
use crate::region::{RegionNode, RegionOperation};

verus! {

/// The number of value outputs of `node`.
pub open spec fn value_port_count(node: RegionNode) -> int {
    match node.operation {
        RegionOperation::Match { result_count, .. }
        | RegionOperation::Repeat { result_count, .. }
        | RegionOperation::Apply { result_count } => result_count as int,
        RegionOperation::Identity { sources } => sources@.len() as int,
        RegionOperation::ModuleArguments { .. }
        | RegionOperation::ModuleResults
        | RegionOperation::FunctionCaptures
        | RegionOperation::FunctionArguments
        | RegionOperation::FunctionResults
        | RegionOperation::BranchArguments
        | RegionOperation::BranchResults
        | RegionOperation::RepeatArguments
        | RegionOperation::RepeatResults
        | RegionOperation::Fence { .. }
        | RegionOperation::GlobalSet { .. }
        | RegionOperation::TableSet { .. }
        | RegionOperation::TableFill { .. }
        | RegionOperation::TableCopy { .. }
        | RegionOperation::TableDrop { .. }
        | RegionOperation::MemoryStore { .. }
        | RegionOperation::MemoryFill { .. }
        | RegionOperation::MemoryCopy { .. }
        | RegionOperation::MemoryDrop { .. }
        | RegionOperation::Host => 0,
        _ => 1,
    }
}

/// Whether the number of value outputs of `node` fits a port number.
pub open spec fn value_count_fits(node: RegionNode) -> bool {
    value_port_count(node) <= u16::MAX
}

/// The number of value outputs of `node`.
pub fn value_port_count_of(node: &RegionNode) -> (count: u16)
    requires
        value_count_fits(*node),
    ensures
        count == value_port_count(*node),
{
    match &node.operation {
        RegionOperation::Function { .. }
        | RegionOperation::Import
        | RegionOperation::Trap
        | RegionOperation::Null
        | RegionOperation::I32
        | RegionOperation::I64
        | RegionOperation::F32
        | RegionOperation::F64
        | RegionOperation::RefIsNull
        | RegionOperation::IntegerUnaryOperation
        | RegionOperation::IntegerBinaryOperation
        | RegionOperation::IntegerCompareOperation
        | RegionOperation::IntegerNarrow
        | RegionOperation::IntegerWiden
        | RegionOperation::IntegerExtend
        | RegionOperation::IntegerConvertToNumber
        | RegionOperation::IntegerTransmuteToNumber
        | RegionOperation::NumberUnaryOperation
        | RegionOperation::NumberBinaryOperation
        | RegionOperation::NumberCompareOperation
        | RegionOperation::NumberNarrow
        | RegionOperation::NumberWiden
        | RegionOperation::NumberTruncateToInteger
        | RegionOperation::NumberTransmuteToInteger
        | RegionOperation::GlobalNew
        | RegionOperation::GlobalGet { .. }
        | RegionOperation::TableNew
        | RegionOperation::TableGet { .. }
        | RegionOperation::TableSize { .. }
        | RegionOperation::TableGrow { .. }
        | RegionOperation::MemoryNew
        | RegionOperation::MemoryLoad { .. }
        | RegionOperation::MemorySize { .. }
        | RegionOperation::MemoryGrow { .. } => 1,
        RegionOperation::Match { result_count, .. } => *result_count,
        RegionOperation::Repeat { result_count, .. } => *result_count,
        RegionOperation::ModuleArguments { .. }
        | RegionOperation::ModuleResults
        | RegionOperation::FunctionCaptures
        | RegionOperation::FunctionArguments
        | RegionOperation::FunctionResults
        | RegionOperation::BranchArguments
        | RegionOperation::BranchResults
        | RegionOperation::RepeatArguments
        | RegionOperation::RepeatResults
        | RegionOperation::Fence { .. }
        | RegionOperation::GlobalSet { .. }
        | RegionOperation::TableSet { .. }
        | RegionOperation::TableFill { .. }
        | RegionOperation::TableCopy { .. }
        | RegionOperation::TableDrop { .. }
        | RegionOperation::MemoryStore { .. }
        | RegionOperation::MemoryFill { .. }
        | RegionOperation::MemoryCopy { .. }
        | RegionOperation::MemoryDrop { .. } => 0,
        RegionOperation::Host => 0,
        RegionOperation::Identity { sources } => sources.len() as u16,
        RegionOperation::Apply { result_count } => *result_count,
    }
}

/// The outputs that the first `count` nodes of `nodes` read, in order.
pub open spec fn inputs_of(nodes: Seq<RegionNode>, count: int) -> Seq<Link>
    decreases count,
{
    if count <= 0 || count > nodes.len() {
        Seq::empty()
    } else {
        inputs_of(nodes, count - 1) + nodes[count - 1].inputs@
    }
}

/// Every read of an output of a region of `nodes` that yields `roots`: the
/// reads of its nodes, in order, and then the outputs it yields.
pub open spec fn region_uses(nodes: Seq<RegionNode>, roots: Seq<Link>) -> Seq<Link> {
    inputs_of(nodes, nodes.len() as int) + roots
}

/// The mark of node `id` after `uses`: none while it is unread, `false`
/// after one read of its first output, and `true` once a read of another
/// output or a second read of the first shows that it needs locals.
pub open spec fn use_mark(uses: Seq<Link>, id: u32) -> Option<bool>
    decreases uses.len(),
{
    if uses.len() == 0 {
        None
    } else {
        let before = use_mark(uses.drop_last(), id);
        let link = uses.last();
        if link.node != id {
            before
        } else if link.port == 0 {
            match before {
                None => Some(false),
                Some(_) => Some(true),
            }
        } else {
            Some(true)
        }
    }
}

/// Whether `node` has an effect that is lost unless its outputs are kept.
pub open spec fn has_effect(node: RegionNode) -> bool {
    ||| node.operation is Apply
    ||| node.operation is TableGrow
    ||| node.operation is MemoryGrow
}

/// Whether the value outputs of node `id` of a region of `nodes` that
/// yields `roots` need locals of their own.
pub open spec fn needs_locals(nodes: Seq<RegionNode>, roots: Seq<Link>, id: int) -> bool {
    use_mark(region_uses(nodes, roots), id as u32) == Some(true) || has_effect(nodes[id])
}

/// The value outputs of node `id` of `nodes`, in region `scope`.
pub open spec fn port_keys(nodes: Seq<RegionNode>, scope: usize, id: int) -> Set<ScopedLink> {
    Set::new(
        |key: ScopedLink|
            key.1 == scope && key.0.node == id && key.0.port < value_port_count(nodes[id]),
    )
}

/// The value outputs of the nodes of a region that need locals of their
/// own, given which of its nodes need them.
pub open spec fn marked_keys(nodes: Seq<RegionNode>, scope: usize, marked: spec_fn(int) -> bool) -> Set<
    ScopedLink,
> {
    Set::new(
        |key: ScopedLink|
            key.1 == scope && key.0.node < nodes.len() && marked(key.0.node as int) && key.0.port
                < value_port_count(nodes[key.0.node as int]),
    )
}

/// The value outputs of the nodes of region `scope` of `nodes`, yielding
/// `roots`, that need locals of their own.
pub open spec fn own_scalar_keys(nodes: Seq<RegionNode>, scope: usize, roots: Seq<Link>) -> Set<
    ScopedLink,
> {
    marked_keys(nodes, scope, |id: int| needs_locals(nodes, roots, id))
}

/// The value outputs that need locals of their own in the regions nested
/// in the first `count` nodes of `nodes`.
pub open spec fn nested_scalar_keys(nodes: Seq<RegionNode>, count: int) -> Set<ScopedLink>
    decreases nodes, 0int, count, 0int,
{
    if count <= 0 || count > nodes.len() {
        Set::empty()
    } else {
        nested_scalar_keys(nodes, count - 1).union(
            match nodes[count - 1].operation {
                RegionOperation::Match { branches, .. } => branch_scalar_keys(
                    nodes,
                    count - 1,
                    branches@.len() as int,
                ),
                RegionOperation::Repeat { body, .. } => scalar_keys(
                    body.nodes@,
                    body.scope,
                    body.results@,
                ),
                _ => Set::empty(),
            },
        )
    }
}

/// The value outputs that need locals of their own in the first `count`
/// branches of the match at position `at` of `nodes`.
pub open spec fn branch_scalar_keys(nodes: Seq<RegionNode>, at: int, count: int) -> Set<ScopedLink>
    decreases nodes, 0int, at, count,
{
    if 0 <= at < nodes.len() {
        match nodes[at].operation {
            RegionOperation::Match { branches, .. } => if 0 < count <= branches@.len() {
                branch_scalar_keys(nodes, at, count - 1).union(
                    scalar_keys(
                        branches@[count - 1].nodes@,
                        branches@[count - 1].scope,
                        branches@[count - 1].results@,
                    ),
                )
            } else {
                Set::empty()
            },
            _ => Set::empty(),
        }
    } else {
        Set::empty()
    }
}

/// The value outputs that need locals of their own in region `scope` of
/// `nodes`, yielding `roots`, and in the regions nested in it.
pub open spec fn scalar_keys(nodes: Seq<RegionNode>, scope: usize, roots: Seq<Link>) -> Set<
    ScopedLink,
>
    decreases nodes, 1int, 0int, 0int,
{
    own_scalar_keys(nodes, scope, roots).union(nested_scalar_keys(nodes, nodes.len() as int))
}

/// Whether a region of `nodes` yielding `roots` can be numbered by `u32`,
/// every output it reads or yields is one of its own, and the value
/// outputs of each node can be numbered by ports.
pub open spec fn region_ok(nodes: Seq<RegionNode>, roots: Seq<Link>) -> bool {
    &&& nodes.len() <= u32::MAX
    &&& forall|k: int| 0 <= k < nodes.len() ==> #[trigger] value_count_fits(nodes[k])
    &&& forall|k: int, j: int|
        0 <= k < nodes.len() && 0 <= j < nodes[k].inputs@.len() ==> #[trigger] nodes[k].inputs@[j].node
            < nodes.len()
    &&& forall|j: int| 0 <= j < roots.len() ==> #[trigger] roots[j].node < nodes.len()
}

/// Whether the regions nested in the first `count` nodes of `nodes` are
/// as [`region_ok`] asks, and so are the regions nested in them.
pub open spec fn nested_ok(nodes: Seq<RegionNode>, count: int) -> bool
    decreases nodes, 0int, count, 0int,
{
    if count <= 0 || count > nodes.len() {
        true
    } else {
        &&& nested_ok(nodes, count - 1)
        &&& match nodes[count - 1].operation {
            RegionOperation::Match { branches, .. } => branches_ok(
                nodes,
                count - 1,
                branches@.len() as int,
            ),
            RegionOperation::Repeat { body, .. } => tree_ok(body.nodes@, body.results@),
            _ => true,
        }
    }
}

/// Whether the first `count` branches of the match at position `at` of
/// `nodes` are as [`tree_ok`] asks.
pub open spec fn branches_ok(nodes: Seq<RegionNode>, at: int, count: int) -> bool
    decreases nodes, 0int, at, count,
{
    if 0 <= at < nodes.len() {
        match nodes[at].operation {
            RegionOperation::Match { branches, .. } => if 0 < count <= branches@.len() {
                &&& branches_ok(nodes, at, count - 1)
                &&& tree_ok(branches@[count - 1].nodes@, branches@[count - 1].results@)
            } else {
                true
            },
            _ => true,
        }
    } else {
        true
    }
}

/// Whether a region of `nodes` yielding `roots`, and every region nested
/// in it, are as [`region_ok`] asks.
pub open spec fn tree_ok(nodes: Seq<RegionNode>, roots: Seq<Link>) -> bool
    decreases nodes, 1int, 0int, 0int,
{
    region_ok(nodes, roots) && nested_ok(nodes, nodes.len() as int)
}


/// The value outputs of the nodes of region `scope` of `nodes` that `uses`
/// mark as needing locals.
pub open spec fn use_keys(nodes: Seq<RegionNode>, scope: usize, uses: Seq<Link>) -> Set<ScopedLink> {
    marked_keys(nodes, scope, |id: int| use_mark(uses, id as u32) == Some(true))
}

/// The value outputs of the nodes of region `scope` of `nodes` that `uses`
/// mark as needing locals, or that belong to one of the first `count`
/// nodes and have an effect.
pub open spec fn effect_keys(nodes: Seq<RegionNode>, scope: usize, uses: Seq<Link>, count: int) -> Set<
    ScopedLink,
> {
    marked_keys(
        nodes,
        scope,
        |id: int| use_mark(uses, id as u32) == Some(true) || (id < count && has_effect(nodes[id])),
    )
}


/// The number of reads of the first output of node `id` among `uses`.
pub open spec fn first_output_reads(uses: Seq<Link>, id: u32) -> nat
    decreases uses.len(),
{
    if uses.len() == 0 {
        0
    } else {
        first_output_reads(uses.drop_last(), id) + if uses.last() == (Link { node: id, port: 0 }) {
            1nat
        } else {
            0nat
        }
    }
}

/// Whether `uses` read an output of node `id` other than the first.
pub open spec fn reads_later_output(uses: Seq<Link>, id: u32) -> bool {
    exists|j: int| 0 <= j < uses.len() && #[trigger] uses[j].node == id && uses[j].port != 0
}

/// A node is marked as needing locals exactly when its first output is
/// read more than once or another of its outputs is read; it is marked
/// without needing them when its first output is read once and nothing
/// else of it is read.
pub proof fn lemma_use_mark_counts_reads(uses: Seq<Link>, id: u32)
    ensures
        use_mark(uses, id) == if reads_later_output(uses, id) || first_output_reads(uses, id) >= 2 {
            Some(true)
        } else if first_output_reads(uses, id) == 1 {
            Some(false)
        } else {
            None::<bool>
        },
    decreases uses.len(),
{
    if uses.len() > 0 {
        let d = uses.drop_last();
        lemma_use_mark_counts_reads(d, id);
        let last = uses.last();
        if reads_later_output(d, id) {
            let j = choose|j: int| 0 <= j < d.len() && #[trigger] d[j].node == id && d[j].port != 0;
            assert(uses[j] == d[j]);
        }
        if reads_later_output(uses, id) && !reads_later_output(d, id) {
            let j = choose|j: int| 0 <= j < uses.len() && #[trigger] uses[j].node == id && uses[j].port != 0;
            if j < d.len() {
                assert(d[j] == uses[j]);
            }
        }
        if last.node == id && last.port != 0 {
            assert(uses[uses.len() - 1] == last);
        }
    }
}

/// The mark of node `id` of region `scope` in `handled`.
pub open spec fn mark(handled: Map<(u32, usize), bool>, id: u32, scope: usize) -> Option<bool> {
    if handled.contains_key((id, scope)) {
        Some(handled[(id, scope)])
    } else {
        None
    }
}

/// A `hashbrown::HashMap` from nodes, by id and region, to their marks.
#[verifier::external_body]
pub struct HandledNodes {
    map: hashbrown::HashMap<(u32, usize), bool>,
}

/// The entries of a [`HandledNodes`].
pub uninterp spec fn handled_of(handled: HandledNodes) -> Map<(u32, usize), bool>;

impl HandledNodes {
    /// An empty map.
    ///
    /// Calls `hashbrown::HashMap::new`, which creates a map with no entries.
    #[verifier::external_body]
    pub fn new() -> (handled: Self)
        ensures
            handled_of(handled).dom() == Set::<(u32, usize)>::empty(),
    {
        HandledNodes { map: hashbrown::HashMap::new() }
    }

    /// Removes every entry.
    ///
    /// Calls `hashbrown::HashMap::clear`, which removes every entry.
    #[verifier::external_body]
    pub fn clear(&mut self)
        ensures
            handled_of(*final(self)).dom() == Set::<(u32, usize)>::empty(),
    {
        self.map.clear();
    }

    /// The mark of `key`, if any.
    ///
    /// Calls `hashbrown::HashMap::get`, which returns the value stored under
    /// the key, or `None` when there is none.
    #[verifier::external_body]
    pub fn get(&self, key: (u32, usize)) -> (marked: Option<bool>)
        ensures
            marked == mark(handled_of(*self), key.0, key.1),
    {
        self.map.get(&key).copied()
    }

    /// Marks `key`, returning its earlier mark, if any.
    ///
    /// Calls `hashbrown::HashMap::insert`, which stores the value under the
    /// key and returns the value an equal key held before, if any.
    #[verifier::external_body]
    pub fn insert(&mut self, key: (u32, usize), marked: bool) -> (previous: Option<bool>)
        ensures
            handled_of(*final(self)) == handled_of(*old(self)).insert(key, marked),
            previous == mark(handled_of(*old(self)), key.0, key.1),
    {
        self.map.insert(key, marked)
    }
}

proof fn lemma_add_keys_union(
    preferences: Map<ScopedLink, ScopedLink>,
    first: Set<ScopedLink>,
    second: Set<ScopedLink>,
)
    ensures
        add_keys(add_keys(preferences, first), second) == add_keys(preferences, first.union(second)),
{
    assert(add_keys(add_keys(preferences, first), second) =~= add_keys(
        preferences,
        first.union(second),
    ));
}

fn add_value_assignments(assignments: &mut Preferences, nodes: &[RegionNode], scope: usize, id: u32)
    requires
        id < nodes@.len(),
        value_count_fits(nodes@[id as int]),
    ensures
        preferences_of(*final(assignments)) == add_keys(
            preferences_of(*old(assignments)),
            port_keys(nodes@, scope, id as int),
        ),
{
    let count = value_port_count_of(&nodes[id as usize]);
    let ghost start = preferences_of(*assignments);
    let mut port: u16 = 0;
    proof {
        assert(add_keys(start, Set::empty()) =~= start);
        assert(Set::new(
            |key: ScopedLink| key.1 == scope && key.0.node == id && key.0.port < port,
        ) =~= Set::<ScopedLink>::empty());
    }
    while port < count
        invariant
            port <= count,
            count == value_port_count(nodes@[id as int]),
            preferences_of(*assignments) == add_keys(
                start,
                Set::new(
                    |key: ScopedLink| key.1 == scope && key.0.node == id && key.0.port < port,
                ),
            ),
        decreases count - port,
    {
        assignments.try_insert((Link { node: id, port }, scope), (dangling(), 0));
        port += 1;
        proof {
            assert(preferences_of(*assignments) =~= add_keys(
                start,
                Set::new(
                    |key: ScopedLink| key.1 == scope && key.0.node == id && key.0.port < port,
                ),
            ));
        }
    }
    proof {
        assert(Set::new(
            |key: ScopedLink| key.1 == scope && key.0.node == id && key.0.port < port,
        ) =~= port_keys(nodes@, scope, id as int));
    }
}


proof fn lemma_nested_prefix(nodes: Seq<RegionNode>, first: int, second: int)
    requires
        0 <= first <= second <= nodes.len(),
    ensures
        nested_scopes(nodes, first).subset_of(nested_scopes(nodes, second)),
        nested_ok(nodes, second) ==> nested_ok(nodes, first),
        nested_distinct(nodes, second) ==> nested_distinct(nodes, first),
    decreases second - first,
{
    if first < second {
        lemma_nested_prefix(nodes, first, second - 1);
    }
}

proof fn lemma_branches_prefix(nodes: Seq<RegionNode>, at: int, first: int, second: int)
    requires
        0 <= at < nodes.len(),
        nodes[at].operation matches RegionOperation::Match { branches, .. } && 0 <= first <= second
            <= branches@.len(),
    ensures
        branch_scopes(nodes, at, first).subset_of(branch_scopes(nodes, at, second)),
        branches_ok(nodes, at, second) ==> branches_ok(nodes, at, first),
        branches_distinct(nodes, at, second) ==> branches_distinct(nodes, at, first),
    decreases second - first,
{
    if first < second {
        lemma_branches_prefix(nodes, at, first, second - 1);
    }
}

/// Finds the outputs of a structured graph that need locals of their own.
pub struct ScalarFinder {
    handled: HandledNodes,
}

impl ScalarFinder {
    /// The nodes marked so far, by id and region.
    pub closed spec fn marks(&self) -> Map<(u32, usize), bool> {
        handled_of(self.handled)
    }

    /// A finder with no node marked.
    pub fn new() -> (finder: Self)
        ensures
            finder.marks().dom() == Set::<(u32, usize)>::empty(),
    {
        ScalarFinder { handled: HandledNodes::new() }
    }

    fn handle_effects(
        &mut self,
        assignments: &mut Preferences,
        nodes: &[RegionNode],
        scope: usize,
        id: u32,
        node: &RegionNode,
    )
        requires
            id < nodes@.len(),
            *node == nodes@[id as int],
            value_count_fits(nodes@[id as int]),
        ensures
            handled_of(final(self).handled) == if has_effect(*node) {
                handled_of(old(self).handled).insert((id, scope), true)
            } else {
                handled_of(old(self).handled)
            },
            preferences_of(*final(assignments)) == if has_effect(*node) && mark(
                handled_of(old(self).handled),
                id,
                scope,
            ) != Some(true) {
                add_keys(preferences_of(*old(assignments)), port_keys(nodes@, scope, id as int))
            } else {
                preferences_of(*old(assignments))
            },
    {
        // Without at least one value reference we might discard the side effects
        // of these expressions.
        if !matches!(
            node.operation,
            RegionOperation::Apply { .. } | RegionOperation::TableGrow { .. } | RegionOperation::MemoryGrow { .. }
        ) {
            return ;
        }
        match self.handled.insert((id, scope), true) {
            None => add_value_assignments(assignments, nodes, scope, id),
            Some(previous) => {
                if !previous {
                    add_value_assignments(assignments, nodes, scope, id);
                }
            },
        }
    }

    fn handle_repeat(&mut self, assignments: &mut Preferences, nodes: &[RegionNode], scope: usize, id: u32)
        requires
            id < nodes@.len(),
            value_count_fits(nodes@[id as int]),
        ensures
            handled_of(final(self).handled) == handled_of(old(self).handled).insert(
                (id, scope),
                mark(handled_of(old(self).handled), id, scope) is Some,
            ),
            preferences_of(*final(assignments)) == if mark(handled_of(old(self).handled), id, scope)
                == Some(false) {
                add_keys(preferences_of(*old(assignments)), port_keys(nodes@, scope, id as int))
            } else {
                preferences_of(*old(assignments))
            },
    {
        match self.handled.get((id, scope)) {
            Some(_) => {
                if self.handled.insert((id, scope), true).unwrap_or_default() {
                    return ;
                }
                add_value_assignments(assignments, nodes, scope, id);
            },
            None => {
                self.handled.insert((id, scope), false);
            },
        }
    }

    fn handle_excess(&mut self, assignments: &mut Preferences, nodes: &[RegionNode], scope: usize, id: u32)
        requires
            id < nodes@.len(),
            value_count_fits(nodes@[id as int]),
        ensures
            handled_of(final(self).handled) == handled_of(old(self).handled).insert((id, scope), true),
            preferences_of(*final(assignments)) == if mark(handled_of(old(self).handled), id, scope)
                == Some(true) {
                preferences_of(*old(assignments))
            } else {
                add_keys(preferences_of(*old(assignments)), port_keys(nodes@, scope, id as int))
            },
    {
        if self.handled.insert((id, scope), true).unwrap_or_default() {
            return ;
        }
        add_value_assignments(assignments, nodes, scope, id);
    }

    fn handle_use(
        &mut self,
        assignments: &mut Preferences,
        nodes: &[RegionNode],
        scope: usize,
        link: Link,
        Ghost(uses): Ghost<Seq<Link>>,
        Ghost(base): Ghost<Map<ScopedLink, ScopedLink>>,
        Ghost(start): Ghost<Map<(u32, usize), bool>>,
    )
        requires
            link.node < nodes@.len(),
            value_count_fits(nodes@[link.node as int]),
            forall|id: u32| #[trigger] mark(handled_of(old(self).handled), id, scope) == use_mark(uses, id),
            forall|key: (u32, usize)| #[trigger] handled_of(old(self).handled).contains_key(key) ==> start.contains_key(key) || key.1 == scope,
            preferences_of(*old(assignments)) == add_keys(base, use_keys(nodes@, scope, uses)),
        ensures
            forall|id: u32| #[trigger] mark(handled_of(final(self).handled), id, scope) == use_mark(uses.push(link), id),
            forall|key: (u32, usize)| #[trigger] handled_of(final(self).handled).contains_key(key) ==> start.contains_key(key) || key.1 == scope,
            preferences_of(*final(assignments)) == add_keys(base, use_keys(nodes@, scope, uses.push(link))),
    {
        let ghost before = preferences_of(*assignments);
        let ghost after_uses = uses.push(link);
        proof {
            assert(after_uses.drop_last() =~= uses);
            assert(after_uses.last() == link);
        }
        if link.port == 0 {
            self.handle_repeat(assignments, nodes, scope, link.node);
        } else {
            self.handle_excess(assignments, nodes, scope, link.node);
        }
        proof {
            assert forall|id: u32| #[trigger] mark(handled_of(self.handled), id, scope) == use_mark(after_uses, id) by {
                assert(mark(handled_of(old(self).handled), id, scope) == use_mark(uses, id));
            }
            if use_mark(uses, link.node) != Some(true) && use_mark(after_uses, link.node) == Some(true) {
                lemma_add_keys_union(base, use_keys(nodes@, scope, uses), port_keys(nodes@, scope, link.node as int));
                assert(use_keys(nodes@, scope, uses).union(port_keys(nodes@, scope, link.node as int)) =~= use_keys(nodes@, scope, after_uses));
            } else {
                assert(use_keys(nodes@, scope, uses) =~= use_keys(nodes@, scope, after_uses));
            }
        }
    }

    fn handle_uses(
        &mut self,
        assignments: &mut Preferences,
        nodes: &[RegionNode],
        scope: usize,
        links: &[Link],
        Ghost(uses): Ghost<Seq<Link>>,
        Ghost(base): Ghost<Map<ScopedLink, ScopedLink>>,
        Ghost(start): Ghost<Map<(u32, usize), bool>>,
    )
        requires
            forall|j: int| 0 <= j < links@.len() ==> #[trigger] links@[j].node < nodes@.len(),
            forall|k: int| 0 <= k < nodes@.len() ==> #[trigger] value_count_fits(nodes@[k]),
            forall|id: u32| #[trigger] mark(handled_of(old(self).handled), id, scope) == use_mark(uses, id),
            forall|key: (u32, usize)| #[trigger] handled_of(old(self).handled).contains_key(key) ==> start.contains_key(key) || key.1 == scope,
            preferences_of(*old(assignments)) == add_keys(base, use_keys(nodes@, scope, uses)),
        ensures
            forall|id: u32| #[trigger] mark(handled_of(final(self).handled), id, scope) == use_mark(uses + links@, id),
            forall|key: (u32, usize)| #[trigger] handled_of(final(self).handled).contains_key(key) ==> start.contains_key(key) || key.1 == scope,
            preferences_of(*final(assignments)) == add_keys(base, use_keys(nodes@, scope, uses + links@)),
    {
        let mut j: usize = 0;
        while j < links.len()
            invariant
                j <= links@.len(),
                forall|j: int| 0 <= j < links@.len() ==> #[trigger] links@[j].node < nodes@.len(),
                forall|k: int| 0 <= k < nodes@.len() ==> #[trigger] value_count_fits(nodes@[k]),
                forall|id: u32| #[trigger] mark(handled_of(self.handled), id, scope) == use_mark(uses + links@.subrange(0, j as int), id),
                forall|key: (u32, usize)| #[trigger] handled_of(self.handled).contains_key(key) ==> start.contains_key(key) || key.1 == scope,
                preferences_of(*assignments) == add_keys(base, use_keys(nodes@, scope, uses + links@.subrange(0, j as int))),
            decreases links@.len() - j,
        {
            let link = links[j];
            proof {
                assert(link.node < nodes@.len());
                assert((uses + links@.subrange(0, j as int)).push(link) =~= uses + links@.subrange(0, j + 1));
            }
            self.handle_use(assignments, nodes, scope, link, Ghost(uses + links@.subrange(0, j as int)), Ghost(base), Ghost(start));
            j += 1;
        }
        proof {
            assert(links@.subrange(0, links@.len() as int) =~= links@);
        }
    }

    fn run_region(&mut self, assignments: &mut Preferences, nodes: &[RegionNode], scope: usize, roots: &[Link])
        requires
            tree_ok(nodes@, roots@),
            scopes_distinct(nodes@, scope),
            forall|key: (u32, usize)| #[trigger] handled_of(old(self).handled).contains_key(key) ==> !tree_scopes(nodes@, scope).contains(key.1),
        ensures
            forall|key: (u32, usize)| #[trigger] handled_of(final(self).handled).contains_key(key) ==> handled_of(old(self).handled).contains_key(key) || tree_scopes(nodes@, scope).contains(key.1),
            preferences_of(*final(assignments)) == add_keys(preferences_of(*old(assignments)), scalar_keys(nodes@, scope, roots@)),
        decreases nodes@,
    {
        let ghost start = handled_of(self.handled);
        let ghost base = preferences_of(*assignments);
        let ghost all_uses = region_uses(nodes@, roots@);
        proof {
            assert forall|id: u32| #[trigger] mark(handled_of(self.handled), id, scope) == use_mark(Seq::<Link>::empty(), id) by {
                assert(tree_scopes(nodes@, scope).contains(scope));
            }
            assert(use_keys(nodes@, scope, Seq::<Link>::empty()) =~= Set::<ScopedLink>::empty());
            assert(add_keys(base, Set::<ScopedLink>::empty()) =~= base);
        }
        // All uses are handled first since that contains all base assignments.
        let mut k: usize = 0;
        while k < nodes.len()
            invariant
                k <= nodes@.len(),
                region_ok(nodes@, roots@),
                forall|id: u32| #[trigger] mark(handled_of(self.handled), id, scope) == use_mark(inputs_of(nodes@, k as int), id),
                forall|key: (u32, usize)| #[trigger] handled_of(self.handled).contains_key(key) ==> start.contains_key(key) || key.1 == scope,
                preferences_of(*assignments) == add_keys(base, use_keys(nodes@, scope, inputs_of(nodes@, k as int))),
            decreases nodes@.len() - k,
        {
            let node = &nodes[k];
            proof {
                assert forall|j: int| 0 <= j < node.inputs@.len() implies #[trigger] node.inputs@[j].node < nodes@.len() by {
                    assert(nodes@[k as int].inputs@[j].node < nodes@.len());
                }
                assert(inputs_of(nodes@, k + 1) == inputs_of(nodes@, k as int) + node.inputs@);
            }
            self.handle_uses(assignments, nodes, scope, node.inputs.as_slice(), Ghost(inputs_of(nodes@, k as int)), Ghost(base), Ghost(start));
            k += 1;
        }
        // Region output Links are additional uses.
        self.handle_uses(assignments, nodes, scope, roots, Ghost(inputs_of(nodes@, nodes@.len() as int)), Ghost(base), Ghost(start));
        proof {
            assert(effect_keys(nodes@, scope, all_uses, 0) =~= use_keys(nodes@, scope, all_uses));
        }
        // Then, effects are handled from the missing assignments.
        let mut id: usize = 0;
        while id < nodes.len()
            invariant
                id <= nodes@.len(),
                region_ok(nodes@, roots@),
                forall|i: u32| #[trigger] mark(handled_of(self.handled), i, scope) == if (i as int) < id && has_effect(nodes@[i as int]) {
                    Some(true)
                } else {
                    use_mark(all_uses, i)
                },
                forall|key: (u32, usize)| #[trigger] handled_of(self.handled).contains_key(key) ==> start.contains_key(key) || key.1 == scope,
                preferences_of(*assignments) == add_keys(base, effect_keys(nodes@, scope, all_uses, id as int)),
            decreases nodes@.len() - id,
        {
            let node = &nodes[id];
            let ghost before = preferences_of(*assignments);
            let ghost marks = handled_of(self.handled);
            proof {
                assert(value_count_fits(nodes@[id as int]));
            }
            self.handle_effects(assignments, nodes, scope, id as u32, node);
            proof {
                let i = id as u32;
                assert(mark(marks, i, scope) == use_mark(all_uses, i));
                assert forall|j: u32| #[trigger] mark(handled_of(self.handled), j, scope) == if (j as int) < id + 1 && has_effect(nodes@[j as int]) {
                    Some(true)
                } else {
                    use_mark(all_uses, j)
                } by {
                    assert(mark(marks, j, scope) == if (j as int) < id && has_effect(nodes@[j as int]) {
                        Some(true)
                    } else {
                        use_mark(all_uses, j)
                    });
                    if j != i {
                        assert((j, scope) != (i, scope));
                    }
                }
                if has_effect(*node) && mark(marks, i, scope) != Some(true) {
                    lemma_add_keys_union(base, effect_keys(nodes@, scope, all_uses, id as int), port_keys(nodes@, scope, id as int));
                    assert(effect_keys(nodes@, scope, all_uses, id as int).union(port_keys(nodes@, scope, id as int)) =~= effect_keys(nodes@, scope, all_uses, id + 1));
                } else {
                    assert(effect_keys(nodes@, scope, all_uses, id as int) =~= effect_keys(nodes@, scope, all_uses, id + 1));
                }
            }
            id += 1;
        }
        proof {
            assert(effect_keys(nodes@, scope, all_uses, nodes@.len() as int) =~= own_scalar_keys(nodes@, scope, roots@));
            assert(own_scalar_keys(nodes@, scope, roots@).union(nested_scalar_keys(nodes@, 0)) =~= own_scalar_keys(nodes@, scope, roots@));
        }
        // Recurse into nested control regions (not Functions).
        let ghost own = own_scalar_keys(nodes@, scope, roots@);
        let ghost count = nodes@.len() as int;
        let mut k: usize = 0;
        while k < nodes.len()
            invariant
                k <= nodes@.len(),
                count == nodes@.len(),
                nested_ok(nodes@, count),
                nested_distinct(nodes@, count),
                !nested_scopes(nodes@, count).contains(scope),
                forall|key: (u32, usize)| #[trigger] start.contains_key(key) ==> !tree_scopes(nodes@, scope).contains(key.1),
                forall|key: (u32, usize)| #[trigger] handled_of(self.handled).contains_key(key) ==> start.contains_key(key) || key.1 == scope || nested_scopes(nodes@, k as int).contains(key.1),
                preferences_of(*assignments) == add_keys(base, own.union(nested_scalar_keys(nodes@, k as int))),
            decreases nodes@.len() - k,
        {
            let node = &nodes[k];
            proof {
                lemma_nested_prefix(nodes@, k + 1, count);
                lemma_nested_prefix(nodes@, k as int, k + 1);
            }
            match &node.operation {
                RegionOperation::Match { branches, .. } => {
                    let ghost nb = branches@.len() as int;
                    proof {
                        assert(branch_scopes(nodes@, k as int, 0) =~= Set::<usize>::empty());
                        assert(branch_scalar_keys(nodes@, k as int, 0) =~= Set::<ScopedLink>::empty());
                        assert(own.union(nested_scalar_keys(nodes@, k as int)).union(Set::empty()) =~= own.union(nested_scalar_keys(nodes@, k as int)));
                    }
                    let mut b: usize = 0;
                    while b < branches.len()
                        invariant
                            b <= branches@.len(),
                            nb == branches@.len(),
                            k < nodes@.len(),
                            count == nodes@.len(),
                            nodes@[k as int].operation matches RegionOperation::Match { branches: all, .. } && all == *branches,
                            branches_ok(nodes@, k as int, nb),
                            branches_distinct(nodes@, k as int, nb),
                            branch_scopes(nodes@, k as int, nb).disjoint(nested_scopes(nodes@, k as int)),
                            branch_scopes(nodes@, k as int, nb).subset_of(nested_scopes(nodes@, count)),
                            !nested_scopes(nodes@, count).contains(scope),
                            forall|key: (u32, usize)| #[trigger] start.contains_key(key) ==> !tree_scopes(nodes@, scope).contains(key.1),
                            forall|key: (u32, usize)| #[trigger] handled_of(self.handled).contains_key(key) ==> start.contains_key(key) || key.1 == scope || nested_scopes(nodes@, k as int).contains(key.1) || branch_scopes(nodes@, k as int, b as int).contains(key.1),
                            preferences_of(*assignments) == add_keys(base, own.union(nested_scalar_keys(nodes@, k as int)).union(branch_scalar_keys(nodes@, k as int, b as int))),
                        decreases branches@.len() - b,
                    {
                        let branch = &branches[b];
                        let ghost before = preferences_of(*assignments);
                        proof {
                            lemma_branches_prefix(nodes@, k as int, b + 1, nb);
                            lemma_branches_prefix(nodes@, k as int, b as int, b + 1);
                            assert(tree_scopes(nodes@, scope).contains(scope));
                            assert forall|key: (u32, usize)| #[trigger] handled_of(self.handled).contains_key(key) implies !tree_scopes(branch.nodes@, branch.scope).contains(key.1) by {
                                if tree_scopes(branch.nodes@, branch.scope).contains(key.1) {
                                    assert(branch_scopes(nodes@, k as int, b + 1).contains(key.1));
                                    assert(nested_scopes(nodes@, count).contains(key.1));
                                }
                            }
                        }
                        self.run_region(assignments, branch.nodes.as_slice(), branch.scope, branch.results.as_slice());
                        proof {
                            lemma_add_keys_union(base, own.union(nested_scalar_keys(nodes@, k as int)).union(branch_scalar_keys(nodes@, k as int, b as int)), scalar_keys(branch.nodes@, branch.scope, branch.results@));
                            assert(own.union(nested_scalar_keys(nodes@, k as int)).union(branch_scalar_keys(nodes@, k as int, b as int)).union(scalar_keys(branch.nodes@, branch.scope, branch.results@)) =~= own.union(nested_scalar_keys(nodes@, k as int)).union(branch_scalar_keys(nodes@, k as int, b + 1)));
                        }
                        b += 1;
                    }
                    proof {
                        assert(own.union(nested_scalar_keys(nodes@, k as int)).union(branch_scalar_keys(nodes@, k as int, nb)) =~= own.union(nested_scalar_keys(nodes@, k + 1)));
                    }
                },
                RegionOperation::Repeat { body, .. } => {
                    proof {
                        assert(tree_scopes(nodes@, scope).contains(scope));
                        assert forall|key: (u32, usize)| #[trigger] handled_of(self.handled).contains_key(key) implies !tree_scopes(body.nodes@, body.scope).contains(key.1) by {
                            if tree_scopes(body.nodes@, body.scope).contains(key.1) {
                                assert(nested_scopes(nodes@, k + 1).contains(key.1));
                                assert(nested_scopes(nodes@, count).contains(key.1));
                            }
                        }
                    }
                    self.run_region(assignments, body.nodes.as_slice(), body.scope, body.results.as_slice());
                    proof {
                        lemma_add_keys_union(base, own.union(nested_scalar_keys(nodes@, k as int)), scalar_keys(body.nodes@, body.scope, body.results@));
                        assert(own.union(nested_scalar_keys(nodes@, k as int)).union(scalar_keys(body.nodes@, body.scope, body.results@)) =~= own.union(nested_scalar_keys(nodes@, k + 1)));
                    }
                },
                _ => {
                    proof {
                        assert(nested_scalar_keys(nodes@, k as int) =~= nested_scalar_keys(nodes@, k + 1));
                        assert(nested_scopes(nodes@, k as int) =~= nested_scopes(nodes@, k + 1));
                    }
                },
            }
            k += 1;
        }
    }

    // We assign locals to all value ports in a node if...
    //   * Any value port has more than one use.
    //   * Any value port other than the first is in use.
    //   * No value port is used but it has side effects.
    /// Records in `assignments`, without replacing any entry, that every
    /// value output of region `scope` of `nodes`, which yields `roots`, and of
    /// the regions nested in it needs a local of its own when its node's
    /// first output is read more than once, another of its outputs is read,
    /// or its node has an effect.
    pub fn run(&mut self, assignments: &mut Preferences, nodes: &[RegionNode], scope: usize, roots: &[Link])
        requires
            tree_ok(nodes@, roots@),
            scopes_distinct(nodes@, scope),
        ensures
            preferences_of(*final(assignments)) == add_keys(preferences_of(*old(assignments)), scalar_keys(nodes@, scope, roots@)),
    {
        self.handled.clear();
        self.run_region(assignments, nodes, scope, roots);
    }
}

} // verus!
