//! Local preferences of the outputs of a structured graph, by output and
//! region: which outputs need locals of their own, and which should share
//! the local of another output.

use vstd::prelude::*;

use crate::ir::Link;
use crate::local_allocator::scalar_finder::ScalarFinder;
use crate::local_allocator::reference_finder::{branches_fit, keep_ports, node_fits, region_writes, writes_fit};
use crate::local_allocator::scalar_finder::{scalar_keys, tree_ok};
use crate::region::{Region, RegionNode, RegionOperation};

pub mod reference_finder;
pub mod scalar_finder;

verus! {

/// An output of a node, together with the identity of the node's region.
pub type ScopedLink = (Link, usize);

/// The link that names no output, which a preference for no output in
/// particular points at.
pub open spec fn dangling_link() -> Link {
    Link { node: u32::MAX, port: u16::MAX }
}

/// The link that names no output.
pub fn dangling() -> (link: Link)
    ensures
        link == dangling_link(),
{
    Link { node: u32::MAX, port: u16::MAX }
}

/// `preferences` with every output of `keys` that has none preferring no
/// output in particular.
pub open spec fn add_keys(preferences: Map<ScopedLink, ScopedLink>, keys: Set<ScopedLink>) -> Map<
    ScopedLink,
    ScopedLink,
> {
    Map::new(
        |key: ScopedLink| preferences.contains_key(key) || keys.contains(key),
        |key: ScopedLink|
            if preferences.contains_key(key) {
                preferences[key]
            } else {
                (dangling_link(), 0usize)
            },
    )
}

/// A `hashbrown::HashMap` from outputs to the outputs whose locals they
/// prefer.
#[verifier::external_body]
pub struct Preferences {
    map: hashbrown::HashMap<ScopedLink, ScopedLink>,
}

/// The entries of a [`Preferences`].
pub uninterp spec fn preferences_of(preferences: Preferences) -> Map<ScopedLink, ScopedLink>;

impl Preferences {
    /// An empty map.
    ///
    /// Calls `hashbrown::HashMap::new`, which creates a map with no entries.
    #[verifier::external_body]
    pub fn new() -> (preferences: Self)
        ensures
            preferences_of(preferences).dom() == Set::<ScopedLink>::empty(),
    {
        Preferences { map: hashbrown::HashMap::new() }
    }

    /// Removes every entry.
    ///
    /// Calls `hashbrown::HashMap::clear`, which removes every entry.
    #[verifier::external_body]
    pub fn clear(&mut self)
        ensures
            preferences_of(*final(self)).dom() == Set::<ScopedLink>::empty(),
    {
        self.map.clear();
    }

    /// Whether `key` has an entry.
    ///
    /// Calls `hashbrown::HashMap::contains_key`, which reports whether the
    /// map holds an equal key.
    #[verifier::external_body]
    pub fn contains_key(&self, key: ScopedLink) -> (found: bool)
        ensures
            found == preferences_of(*self).contains_key(key),
    {
        self.map.contains_key(&key)
    }

    /// The entry of `key`, if any.
    ///
    /// Calls `hashbrown::HashMap::get`, which returns the value stored under
    /// the key, or `None` when there is none.
    #[verifier::external_body]
    pub fn get(&self, key: ScopedLink) -> (preferred: Option<ScopedLink>)
        ensures
            preferred == (if preferences_of(*self).contains_key(key) {
                Some(preferences_of(*self)[key])
            } else {
                None
            }),
    {
        self.map.get(&key).copied()
    }

    /// Makes `key` prefer `preferred`, replacing any earlier entry.
    ///
    /// Calls `hashbrown::HashMap::insert`, which stores the value under the
    /// key, replacing the value of an equal key already present.
    #[verifier::external_body]
    pub fn insert(&mut self, key: ScopedLink, preferred: ScopedLink)
        ensures
            preferences_of(*final(self)) == preferences_of(*old(self)).insert(key, preferred),
            preferences_of(*final(self)) == apply_write(
                preferences_of(*old(self)),
                replacing(key, preferred),
            ),
    {
        self.map.insert(key, preferred);
    }

    /// Makes `key` prefer `preferred` unless `key` has an entry already.
    ///
    /// Calls `hashbrown::HashMap::try_insert`, which stores the value under
    /// the key when the map holds no equal key and changes nothing
    /// otherwise.
    #[verifier::external_body]
    pub fn try_insert(&mut self, key: ScopedLink, preferred: ScopedLink)
        ensures
            preferences_of(*final(self)) == (if preferences_of(*old(self)).contains_key(key) {
                preferences_of(*old(self))
            } else {
                preferences_of(*old(self)).insert(key, preferred)
            }),
            preferences_of(*final(self)) == apply_write(
                preferences_of(*old(self)),
                PreferenceWrite { key, preferred, replaces: false },
            ),
    {
        let _ = self.map.try_insert(key, preferred);
    }
}

/// Writes change only the entries of the outputs they name: every other
/// output keeps its entry, or its lack of one.
pub proof fn lemma_apply_writes_frame(
    preferences: Map<ScopedLink, ScopedLink>,
    writes: Seq<PreferenceWrite>,
    key: ScopedLink,
)
    requires
        forall|i: int| 0 <= i < writes.len() ==> #[trigger] writes[i].key != key,
    ensures
        apply_writes(preferences, writes).contains_key(key) == preferences.contains_key(key),
        preferences.contains_key(key) ==> apply_writes(preferences, writes)[key] == preferences[key],
    decreases writes.len(),
{
    if writes.len() > 0 {
        assert(writes[writes.len() - 1].key != key);
        lemma_apply_writes_frame(preferences, writes.drop_last(), key);
    }
}

/// Every output that a write names has an entry after the writes.
pub proof fn lemma_written_outputs_have_entries(
    preferences: Map<ScopedLink, ScopedLink>,
    writes: Seq<PreferenceWrite>,
    i: int,
)
    requires
        0 <= i < writes.len(),
    ensures
        apply_writes(preferences, writes).contains_key(writes[i].key),
    decreases writes.len(),
{
    if i < writes.len() - 1 {
        lemma_written_outputs_have_entries(preferences, writes.drop_last(), i);
    }
}

/// The identities of the regions nested in the first `count` nodes of
/// `nodes`, not counting functions, which are regions of their own.
pub open spec fn nested_scopes(nodes: Seq<RegionNode>, count: int) -> Set<usize>
    decreases nodes, 0int, count, 0int,
{
    if count <= 0 || count > nodes.len() {
        Set::empty()
    } else {
        nested_scopes(nodes, count - 1).union(
            match nodes[count - 1].operation {
                RegionOperation::Match { branches, .. } => branch_scopes(
                    nodes,
                    count - 1,
                    branches@.len() as int,
                ),
                RegionOperation::Repeat { body, .. } => tree_scopes(body.nodes@, body.scope),
                _ => Set::empty(),
            },
        )
    }
}

/// The identities of the first `count` branches of the match at position
/// `at` of `nodes`, and of the regions nested in them.
pub open spec fn branch_scopes(nodes: Seq<RegionNode>, at: int, count: int) -> Set<usize>
    decreases nodes, 0int, at, count,
{
    if 0 <= at < nodes.len() {
        match nodes[at].operation {
            RegionOperation::Match { branches, .. } => if 0 < count <= branches@.len() {
                branch_scopes(nodes, at, count - 1).union(
                    tree_scopes(branches@[count - 1].nodes@, branches@[count - 1].scope),
                )
            } else {
                Set::empty()
            },
            _ => Set::empty(),
        }
    } else {
        Set::empty()
    }
}

/// The identity `scope` of a region of `nodes`, and those of the regions
/// nested in it.
pub open spec fn tree_scopes(nodes: Seq<RegionNode>, scope: usize) -> Set<usize>
    decreases nodes, 1int, 0int, 0int,
{
    set![scope].union(nested_scopes(nodes, nodes.len() as int))
}

/// Whether the regions nested in the first `count` nodes of `nodes` have
/// distinct identities.
pub open spec fn nested_distinct(nodes: Seq<RegionNode>, count: int) -> bool
    decreases nodes, 0int, count, 0int,
{
    if count <= 0 || count > nodes.len() {
        true
    } else {
        &&& nested_distinct(nodes, count - 1)
        &&& match nodes[count - 1].operation {
            RegionOperation::Match { branches, .. } => {
                &&& branches_distinct(nodes, count - 1, branches@.len() as int)
                &&& branch_scopes(nodes, count - 1, branches@.len() as int).disjoint(
                    nested_scopes(nodes, count - 1),
                )
            },
            RegionOperation::Repeat { body, .. } => {
                &&& scopes_distinct(body.nodes@, body.scope)
                &&& tree_scopes(body.nodes@, body.scope).disjoint(nested_scopes(nodes, count - 1))
            },
            _ => true,
        }
    }
}

/// Whether the first `count` branches of the match at position `at` of
/// `nodes`, and the regions nested in them, have distinct identities.
pub open spec fn branches_distinct(nodes: Seq<RegionNode>, at: int, count: int) -> bool
    decreases nodes, 0int, at, count,
{
    if 0 <= at < nodes.len() {
        match nodes[at].operation {
            RegionOperation::Match { branches, .. } => if 0 < count <= branches@.len() {
                &&& branches_distinct(nodes, at, count - 1)
                &&& scopes_distinct(branches@[count - 1].nodes@, branches@[count - 1].scope)
                &&& tree_scopes(branches@[count - 1].nodes@, branches@[count - 1].scope).disjoint(
                    branch_scopes(nodes, at, count - 1),
                )
            } else {
                true
            },
            _ => true,
        }
    } else {
        true
    }
}

/// Whether a region of `nodes` with identity `scope` and the regions nested
/// in it have distinct identities.
pub open spec fn scopes_distinct(nodes: Seq<RegionNode>, scope: usize) -> bool
    decreases nodes, 1int, 0int, 0int,
{
    &&& !nested_scopes(nodes, nodes.len() as int).contains(scope)
    &&& nested_distinct(nodes, nodes.len() as int)
}

/// A write into preferences: `key` comes to prefer `preferred`, replacing
/// any earlier entry when `replaces` holds and only when `key` has none
/// otherwise.
pub struct PreferenceWrite {
    pub key: ScopedLink,
    pub preferred: ScopedLink,
    pub replaces: bool,
}

/// The write that makes `key` prefer `preferred`, replacing any entry.
pub open spec fn replacing(key: ScopedLink, preferred: ScopedLink) -> PreferenceWrite {
    PreferenceWrite { key, preferred, replaces: true }
}

/// The write that makes `key` prefer no output in particular, unless it has
/// an entry.
pub open spec fn keeping(key: ScopedLink) -> PreferenceWrite {
    PreferenceWrite { key, preferred: (dangling_link(), 0usize), replaces: false }
}

/// `preferences` after `write`.
pub open spec fn apply_write(preferences: Map<ScopedLink, ScopedLink>, write: PreferenceWrite) -> Map<
    ScopedLink,
    ScopedLink,
> {
    if write.replaces || !preferences.contains_key(write.key) {
        preferences.insert(write.key, write.preferred)
    } else {
        preferences
    }
}

/// `preferences` after `writes`, in order.
pub open spec fn apply_writes(preferences: Map<ScopedLink, ScopedLink>, writes: Seq<PreferenceWrite>) -> Map<
    ScopedLink,
    ScopedLink,
>
    decreases writes.len(),
{
    if writes.len() == 0 {
        preferences
    } else {
        apply_write(apply_writes(preferences, writes.drop_last()), writes.last())
    }
}

/// Applying two runs of writes is applying the first and then the second.
pub proof fn lemma_apply_writes_append(
    preferences: Map<ScopedLink, ScopedLink>,
    first: Seq<PreferenceWrite>,
    second: Seq<PreferenceWrite>,
)
    ensures
        apply_writes(preferences, first + second) == apply_writes(
            apply_writes(preferences, first),
            second,
        ),
    decreases second.len(),
{
    if second.len() == 0 {
        assert(first + second =~= first);
    } else {
        lemma_apply_writes_append(preferences, first, second.drop_last());
        assert((first + second).drop_last() =~= first + second.drop_last());
    }
}

/// The local of an output: a slot of the stack of its function.
#[derive(Clone, Copy, Debug, PartialEq, Eq, Structural)]
pub enum Local {
    Slow { offset: u16 },
}

/// The locals given so far, the next free slot, and whether every step so
/// far stayed within the limits of port and slot numbers.
pub type Allotment = (Map<ScopedLink, Local>, int, bool);

/// `allotment` after giving `link` the next free slot, unless it has a
/// local already.
pub open spec fn alloc_local(allotment: Allotment, link: ScopedLink) -> Allotment {
    if allotment.0.contains_key(link) {
        allotment
    } else {
        (
            allotment.0.insert(link, Local::Slow { offset: allotment.1 as u16 }),
            allotment.1 + 1,
            allotment.2 && allotment.1 < u16::MAX,
        )
    }
}

/// `allotment` after giving locals to outputs `from .. from + count` of node
/// `id` of region `scope`, in order.
pub open spec fn alloc_ports(allotment: Allotment, id: u32, scope: usize, from: int, count: nat) -> Allotment
    decreases count,
{
    if count == 0 {
        allotment
    } else {
        alloc_local(
            alloc_ports(allotment, id, scope, from, (count - 1) as nat),
            (Link { node: id, port: (from + count - 1) as u16 }, scope),
        )
    }
}

/// `allotment` after giving locals to those of outputs `from .. from +
/// count` of node `id` of region `scope` that have preferences, in order.
pub open spec fn alloc_preferred(
    allotment: Allotment,
    preferences: Map<ScopedLink, ScopedLink>,
    id: u32,
    scope: usize,
    from: int,
    count: nat,
) -> Allotment
    decreases count,
{
    if count == 0 {
        allotment
    } else {
        let before = alloc_preferred(allotment, preferences, id, scope, from, (count - 1) as nat);
        let link = (Link { node: id, port: (from + count - 1) as u16 }, scope);
        if preferences.contains_key(link) {
            alloc_local(before, link)
        } else {
            before
        }
    }
}

/// The first port from `from` on of node `id` of region `scope` without a
/// preference, or one past the last port when every one has one.
pub open spec fn first_gap(preferences: Map<ScopedLink, ScopedLink>, id: u32, scope: usize, from: int) -> int
    decreases u16::MAX + 1 - from,
{
    if from > u16::MAX {
        u16::MAX + 1
    } else if preferences.contains_key((Link { node: id, port: from as u16 }, scope)) {
        first_gap(preferences, id, scope, from + 1)
    } else {
        from
    }
}

/// `allotment` after giving locals to the outputs of node `id` of region
/// `scope` with preferences: every output before the first one without,
/// and those of the eight after it that have them.
pub open spec fn assign_ports(
    allotment: Allotment,
    preferences: Map<ScopedLink, ScopedLink>,
    id: u32,
    scope: usize,
) -> Allotment {
    let gap = first_gap(preferences, id, scope, 0);
    let leading = alloc_ports(allotment, id, scope, 0, gap as nat);
    let end = if gap + 8 > u16::MAX {
        u16::MAX as int
    } else {
        gap + 8
    };
    let extra = alloc_preferred(leading, preferences, id, scope, gap, (end - gap) as nat);
    (extra.0, extra.1, extra.2 && gap <= u16::MAX)
}

/// `allotment` after giving each of the first `count` of `results`, of
/// region `inner`, a local, and output of the same position of node `id`
/// of region `scope` the same local.
pub open spec fn repeat_results(
    allotment: Allotment,
    id: u32,
    scope: usize,
    inner: usize,
    results: Seq<Link>,
    count: nat,
) -> Allotment
    decreases count,
{
    if count == 0 {
        allotment
    } else {
        let before = repeat_results(allotment, id, scope, inner, results, (count - 1) as nat);
        let key = (results[count - 1], inner);
        let after = alloc_local(before, key);
        (
            after.0.insert((Link { node: id, port: (count - 1) as u16 }, scope), after.0[key]),
            after.1,
            after.2,
        )
    }
}

/// `allotment` after giving locals to the first `count` nodes of region
/// `scope` of `nodes` and to the regions nested in them.
pub open spec fn assign_nodes(
    allotment: Allotment,
    preferences: Map<ScopedLink, ScopedLink>,
    nodes: Seq<RegionNode>,
    scope: usize,
    count: int,
) -> Allotment
    decreases nodes, 0int, count, 0int,
{
    if count <= 0 || count > nodes.len() {
        allotment
    } else {
        let id = count - 1;
        let with_ports = assign_ports(
            assign_nodes(allotment, preferences, nodes, scope, count - 1),
            preferences,
            id as u32,
            scope,
        );
        match nodes[id].operation {
            RegionOperation::Match { branches, result_count, .. } => alloc_ports(
                assign_branches(with_ports, preferences, nodes, id, branches@.len() as int),
                id as u32,
                scope,
                0,
                result_count as nat,
            ),
            RegionOperation::Repeat { body, .. } => repeat_results(
                assign_region(with_ports, preferences, body.nodes@, body.scope),
                id as u32,
                scope,
                body.scope,
                body.results@,
                body.results@.len(),
            ),
            _ => with_ports,
        }
    }
}

/// `allotment` after giving locals to the first `count` branches of the
/// match at position `at` of `nodes`.
pub open spec fn assign_branches(
    allotment: Allotment,
    preferences: Map<ScopedLink, ScopedLink>,
    nodes: Seq<RegionNode>,
    at: int,
    count: int,
) -> Allotment
    decreases nodes, 0int, at, count,
{
    if 0 <= at < nodes.len() {
        match nodes[at].operation {
            RegionOperation::Match { branches, .. } => if 0 < count <= branches@.len() {
                assign_region(
                    assign_branches(allotment, preferences, nodes, at, count - 1),
                    preferences,
                    branches@[count - 1].nodes@,
                    branches@[count - 1].scope,
                )
            } else {
                allotment
            },
            _ => allotment,
        }
    } else {
        allotment
    }
}

/// `allotment` after giving locals to the outputs of region `scope` of
/// `nodes` that have preferences, to the results of its matches and
/// repetitions, and to the regions nested in it.
pub open spec fn assign_region(
    allotment: Allotment,
    preferences: Map<ScopedLink, ScopedLink>,
    nodes: Seq<RegionNode>,
    scope: usize,
) -> Allotment
    decreases nodes, 1int, 0int, 0int,
{
    assign_nodes(allotment, preferences, nodes, scope, nodes.len() as int)
}

proof fn lemma_alloc_ports_prefix(allotment: Allotment, id: u32, scope: usize, from: int, first: nat, second: nat)
    requires
        first <= second,
        alloc_ports(allotment, id, scope, from, second).2,
    ensures
        alloc_ports(allotment, id, scope, from, first).2,
    decreases second - first,
{
    if first < second {
        lemma_alloc_ports_prefix(allotment, id, scope, from, first, (second - 1) as nat);
    }
}

proof fn lemma_alloc_preferred_prefix(
    allotment: Allotment,
    preferences: Map<ScopedLink, ScopedLink>,
    id: u32,
    scope: usize,
    from: int,
    first: nat,
    second: nat,
)
    requires
        first <= second,
        alloc_preferred(allotment, preferences, id, scope, from, second).2,
    ensures
        alloc_preferred(allotment, preferences, id, scope, from, first).2,
    decreases second - first,
{
    if first < second {
        lemma_alloc_preferred_prefix(allotment, preferences, id, scope, from, first, (second - 1) as nat);
    }
}

proof fn lemma_repeat_results_prefix(
    allotment: Allotment,
    id: u32,
    scope: usize,
    inner: usize,
    results: Seq<Link>,
    first: nat,
    second: nat,
)
    requires
        first <= second,
        repeat_results(allotment, id, scope, inner, results, second).2,
    ensures
        repeat_results(allotment, id, scope, inner, results, first).2,
    decreases second - first,
{
    if first < second {
        lemma_repeat_results_prefix(allotment, id, scope, inner, results, first, (second - 1) as nat);
    }
}

proof fn lemma_assign_ports_fits(
    allotment: Allotment,
    preferences: Map<ScopedLink, ScopedLink>,
    id: u32,
    scope: usize,
)
    requires
        assign_ports(allotment, preferences, id, scope).2,
    ensures
        allotment.2,
{
    let gap = first_gap(preferences, id, scope, 0);
    let leading = alloc_ports(allotment, id, scope, 0, gap as nat);
    let end = if gap + 8 > u16::MAX {
        u16::MAX as int
    } else {
        gap + 8
    };
    lemma_first_gap_at_least(preferences, id, scope, 0);
    lemma_alloc_preferred_prefix(leading, preferences, id, scope, gap, 0, (end - gap) as nat);
    lemma_alloc_ports_prefix(allotment, id, scope, 0, 0, gap as nat);
}

proof fn lemma_first_gap_at_least(preferences: Map<ScopedLink, ScopedLink>, id: u32, scope: usize, from: int)
    requires
        0 <= from <= u16::MAX + 1,
    ensures
        first_gap(preferences, id, scope, from) >= from,
        first_gap(preferences, id, scope, from) <= u16::MAX + 1,
    decreases u16::MAX + 1 - from,
{
    if from <= u16::MAX && preferences.contains_key((Link { node: id, port: from as u16 }, scope)) {
        lemma_first_gap_at_least(preferences, id, scope, from + 1);
    }
}

proof fn lemma_region_fits(
    allotment: Allotment,
    preferences: Map<ScopedLink, ScopedLink>,
    nodes: Seq<RegionNode>,
    scope: usize,
)
    requires
        assign_region(allotment, preferences, nodes, scope).2,
    ensures
        allotment.2,
    decreases nodes, 1int, 0int, 0int,
{
    lemma_nodes_fits(allotment, preferences, nodes, scope, 0, nodes.len() as int);
}

proof fn lemma_nodes_fits(
    allotment: Allotment,
    preferences: Map<ScopedLink, ScopedLink>,
    nodes: Seq<RegionNode>,
    scope: usize,
    first: int,
    second: int,
)
    requires
        0 <= first <= second <= nodes.len(),
        assign_nodes(allotment, preferences, nodes, scope, second).2,
    ensures
        assign_nodes(allotment, preferences, nodes, scope, first).2,
    decreases nodes, 0int, second, 0int,
{
    if first < second {
        let id = second - 1;
        let before = assign_nodes(allotment, preferences, nodes, scope, second - 1);
        let with_ports = assign_ports(before, preferences, id as u32, scope);
        match nodes[id].operation {
            RegionOperation::Match { branches, result_count, .. } => {
                let branched = assign_branches(with_ports, preferences, nodes, id, branches@.len() as int);
                lemma_alloc_ports_prefix(branched, id as u32, scope, 0, 0, result_count as nat);
                lemma_branches_fits(with_ports, preferences, nodes, id, 0, branches@.len() as int);
            },
            RegionOperation::Repeat { body, .. } => {
                let inner = assign_region(with_ports, preferences, body.nodes@, body.scope);
                lemma_repeat_results_prefix(inner, id as u32, scope, body.scope, body.results@, 0, body.results@.len());
                lemma_region_fits(with_ports, preferences, body.nodes@, body.scope);
            },
            _ => {},
        }
        lemma_assign_ports_fits(before, preferences, id as u32, scope);
        lemma_nodes_fits(allotment, preferences, nodes, scope, first, second - 1);
    }
}

proof fn lemma_branches_fits(
    allotment: Allotment,
    preferences: Map<ScopedLink, ScopedLink>,
    nodes: Seq<RegionNode>,
    at: int,
    first: int,
    second: int,
)
    requires
        0 <= at < nodes.len(),
        nodes[at].operation matches RegionOperation::Match { branches, .. } && 0 <= first <= second
            <= branches@.len(),
        assign_branches(allotment, preferences, nodes, at, second).2,
    ensures
        assign_branches(allotment, preferences, nodes, at, first).2,
    decreases nodes, 0int, at, second,
{
    if first < second {
        match nodes[at].operation {
            RegionOperation::Match { branches, .. } => {
                let before = assign_branches(allotment, preferences, nodes, at, second - 1);
                lemma_region_fits(before, preferences, branches@[second - 1].nodes@, branches@[second - 1].scope);
                lemma_branches_fits(allotment, preferences, nodes, at, first, second - 1);
            },
            _ => {},
        }
    }
}


/// The preferences after finding those of the function with identity
/// `scope` whose body is `nodes`, yielding `roots`, with `captures` captured
/// values and `arguments` arguments: the shared locals of its regions, the
/// outputs that need locals of their own, and its captures and arguments.
pub open spec fn function_preferences(
    preferences: Map<ScopedLink, ScopedLink>,
    nodes: Seq<RegionNode>,
    scope: usize,
    roots: Seq<Link>,
    captures: u16,
    arguments: u16,
) -> Map<ScopedLink, ScopedLink> {
    apply_writes(
        add_keys(apply_writes(preferences, region_writes(nodes, scope)), scalar_keys(nodes, scope, roots)),
        keep_ports(0, scope, captures as int) + keep_ports(1, scope, arguments as int),
    )
}

/// What the local allocator has found: the preferences, the locals of the
/// outputs, and the stack sizes of the functions.
pub type Allocation = (Map<ScopedLink, ScopedLink>, Map<ScopedLink, Local>, Map<usize, u16>);

/// `allocation` after giving locals to the outputs of a function: its
/// slots are numbered from zero, and its stack size is the number of slots
/// it uses.
pub open spec fn function_step(
    allocation: Allocation,
    nodes: Seq<RegionNode>,
    scope: usize,
    roots: Seq<Link>,
    captures: u16,
    arguments: u16,
) -> Allocation {
    let preferences = function_preferences(allocation.0, nodes, scope, roots, captures, arguments);
    let allotted = assign_region((allocation.1, 0, true), preferences, nodes, scope);
    (preferences, allotted.0, allocation.2.insert(scope, allotted.1 as u16))
}

/// Whether the local allocator can handle a function in `allocation`.
pub open spec fn function_fits(
    allocation: Allocation,
    nodes: Seq<RegionNode>,
    scope: usize,
    roots: Seq<Link>,
    captures: u16,
    arguments: u16,
) -> bool {
    &&& tree_ok(nodes, roots)
    &&& scopes_distinct(nodes, scope)
    &&& writes_fit(nodes)
    &&& assign_region(
        (allocation.1, 0, true),
        function_preferences(allocation.0, nodes, scope, roots, captures, arguments),
        nodes,
        scope,
    ).2
}

/// The functions defined in the last `count` nodes of `nodes`, and in the
/// regions nested in them, as they are found from the last node to the
/// first: a function after those defined in its body.
pub open spec fn functions_after(nodes: Seq<RegionNode>, count: int) -> Seq<RegionNode>
    decreases nodes, 0int, count, 0int,
{
    if count <= 0 || count > nodes.len() {
        Seq::empty()
    } else {
        let at = nodes.len() - count;
        functions_after(nodes, count - 1) + match nodes[at].operation {
            RegionOperation::Function { body, .. } => functions_in(body.nodes@) + seq![nodes[at]],
            RegionOperation::Match { branches, .. } => branch_functions(
                nodes,
                at,
                branches@.len() as int,
            ),
            RegionOperation::Repeat { body, .. } => functions_in(body.nodes@),
            _ => Seq::empty(),
        }
    }
}

/// The functions defined in the first `count` branches of the match at
/// position `at` of `nodes`.
pub open spec fn branch_functions(nodes: Seq<RegionNode>, at: int, count: int) -> Seq<RegionNode>
    decreases nodes, 0int, nodes.len() - at - 1, count,
{
    if 0 <= at < nodes.len() {
        match nodes[at].operation {
            RegionOperation::Match { branches, .. } => if 0 < count <= branches@.len() {
                branch_functions(nodes, at, count - 1) + functions_in(branches@[count - 1].nodes@)
            } else {
                Seq::empty()
            },
            _ => Seq::empty(),
        }
    } else {
        Seq::empty()
    }
}

/// The functions defined in `nodes`, as they are found.
pub open spec fn functions_in(nodes: Seq<RegionNode>) -> Seq<RegionNode>
    decreases nodes, 1int, 0int, 0int,
{
    functions_after(nodes, nodes.len() as int)
}

/// `allocation` after handling the last `count` of `functions`, from the
/// last one back.
pub open spec fn function_steps(allocation: Allocation, functions: Seq<RegionNode>, count: nat) -> Allocation
    decreases count,
{
    if count == 0 || count > functions.len() {
        allocation
    } else {
        let before = function_steps(allocation, functions, (count - 1) as nat);
        match functions[functions.len() - count].operation {
            RegionOperation::Function { body, capture_count, argument_count } => function_step(
                before,
                body.nodes@,
                body.scope,
                body.results@,
                capture_count,
                argument_count,
            ),
            _ => before,
        }
    }
}

/// Whether the local allocator can handle each of the last `count` of
/// `functions`, from the last one back.
pub open spec fn function_steps_fit(allocation: Allocation, functions: Seq<RegionNode>, count: nat) -> bool
    decreases count,
{
    if count == 0 || count > functions.len() {
        true
    } else {
        &&& function_steps_fit(allocation, functions, (count - 1) as nat)
        &&& match functions[functions.len() - count].operation {
            RegionOperation::Function { body, capture_count, argument_count } => function_fits(
                function_steps(allocation, functions, (count - 1) as nat),
                body.nodes@,
                body.scope,
                body.results@,
                capture_count,
                argument_count,
            ),
            _ => true,
        }
    }
}

/// What the local allocator finds for a module whose region of identity
/// `scope` is `nodes` and yields the state `state`: the module is handled
/// as a function, and then every function defined in it.
pub open spec fn module_allocation(nodes: Seq<RegionNode>, scope: usize, state: Link) -> Allocation {
    let start = function_step((Map::empty(), Map::empty(), Map::empty()), nodes, scope, seq![state], 0, 0);
    let functions = functions_in(nodes);
    function_steps(start, functions, functions.len())
}

/// Whether the local allocator can handle the module whose region of
/// identity `scope` is `nodes` and yields the state `state`.
pub open spec fn module_fits(nodes: Seq<RegionNode>, scope: usize, state: Link) -> bool {
    let empty = (Map::empty(), Map::empty(), Map::empty());
    let start = function_step(empty, nodes, scope, seq![state], 0, 0);
    let functions = functions_in(nodes);
    &&& function_fits(empty, nodes, scope, seq![state], 0, 0)
    &&& function_steps_fit(start, functions, functions.len())
}

proof fn lemma_function_steps_fit_prefix(allocation: Allocation, functions: Seq<RegionNode>, first: nat, second: nat)
    requires
        first <= second <= functions.len(),
        function_steps_fit(allocation, functions, second),
    ensures
        function_steps_fit(allocation, functions, first),
    decreases second - first,
{
    if first < second {
        lemma_function_steps_fit_prefix(allocation, functions, first, (second - 1) as nat);
    }
}

/// Whether every local of `allotment` lies below its next free slot.
pub open spec fn slots_below(allotment: Allotment) -> bool {
    &&& 0 <= allotment.1
    &&& forall|link: ScopedLink| #[trigger] allotment.0.contains_key(link) ==> (allotment.0[link]->offset as int) < allotment.1
}

proof fn lemma_alloc_keeps_slots(allotment: Allotment, link: ScopedLink)
    requires
        slots_below(allotment),
        alloc_local(allotment, link).2,
    ensures
        slots_below(alloc_local(allotment, link)),
        alloc_local(allotment, link).1 >= allotment.1,
{
    if !allotment.0.contains_key(link) {
        assert((allotment.1 as u16) as int == allotment.1);
    }
}

proof fn lemma_alloc_ports_keeps_slots(allotment: Allotment, id: u32, scope: usize, from: int, count: nat)
    requires
        slots_below(allotment),
        alloc_ports(allotment, id, scope, from, count).2,
    ensures
        slots_below(alloc_ports(allotment, id, scope, from, count)),
        alloc_ports(allotment, id, scope, from, count).1 >= allotment.1,
    decreases count,
{
    if count > 0 {
        lemma_alloc_ports_prefix(allotment, id, scope, from, (count - 1) as nat, count);
        lemma_alloc_ports_keeps_slots(allotment, id, scope, from, (count - 1) as nat);
        lemma_alloc_keeps_slots(
            alloc_ports(allotment, id, scope, from, (count - 1) as nat),
            (Link { node: id, port: (from + count - 1) as u16 }, scope),
        );
    }
}

proof fn lemma_alloc_preferred_keeps_slots(
    allotment: Allotment,
    preferences: Map<ScopedLink, ScopedLink>,
    id: u32,
    scope: usize,
    from: int,
    count: nat,
)
    requires
        slots_below(allotment),
        alloc_preferred(allotment, preferences, id, scope, from, count).2,
    ensures
        slots_below(alloc_preferred(allotment, preferences, id, scope, from, count)),
        alloc_preferred(allotment, preferences, id, scope, from, count).1 >= allotment.1,
    decreases count,
{
    if count > 0 {
        lemma_alloc_preferred_prefix(allotment, preferences, id, scope, from, (count - 1) as nat, count);
        lemma_alloc_preferred_keeps_slots(allotment, preferences, id, scope, from, (count - 1) as nat);
        let link = (Link { node: id, port: (from + count - 1) as u16 }, scope);
        if preferences.contains_key(link) {
            lemma_alloc_keeps_slots(alloc_preferred(allotment, preferences, id, scope, from, (count - 1) as nat), link);
        }
    }
}

proof fn lemma_assign_ports_keeps_slots(
    allotment: Allotment,
    preferences: Map<ScopedLink, ScopedLink>,
    id: u32,
    scope: usize,
)
    requires
        slots_below(allotment),
        assign_ports(allotment, preferences, id, scope).2,
    ensures
        slots_below(assign_ports(allotment, preferences, id, scope)),
        assign_ports(allotment, preferences, id, scope).1 >= allotment.1,
{
    let gap = first_gap(preferences, id, scope, 0);
    let leading = alloc_ports(allotment, id, scope, 0, gap as nat);
    let end = if gap + 8 > u16::MAX {
        u16::MAX as int
    } else {
        gap + 8
    };
    lemma_first_gap_at_least(preferences, id, scope, 0);
    lemma_alloc_preferred_prefix(leading, preferences, id, scope, gap, 0, (end - gap) as nat);
    lemma_alloc_ports_keeps_slots(allotment, id, scope, 0, gap as nat);
    lemma_alloc_preferred_keeps_slots(leading, preferences, id, scope, gap, (end - gap) as nat);
}

proof fn lemma_repeat_results_keeps_slots(
    allotment: Allotment,
    id: u32,
    scope: usize,
    inner: usize,
    results: Seq<Link>,
    count: nat,
)
    requires
        slots_below(allotment),
        repeat_results(allotment, id, scope, inner, results, count).2,
    ensures
        slots_below(repeat_results(allotment, id, scope, inner, results, count)),
        repeat_results(allotment, id, scope, inner, results, count).1 >= allotment.1,
    decreases count,
{
    if count > 0 {
        lemma_repeat_results_prefix(allotment, id, scope, inner, results, (count - 1) as nat, count);
        lemma_repeat_results_keeps_slots(allotment, id, scope, inner, results, (count - 1) as nat);
        let before = repeat_results(allotment, id, scope, inner, results, (count - 1) as nat);
        let key = (results[count - 1], inner);
        lemma_alloc_keeps_slots(before, key);
        assert(alloc_local(before, key).0.contains_key(key));
    }
}

proof fn lemma_region_keeps_slots(
    allotment: Allotment,
    preferences: Map<ScopedLink, ScopedLink>,
    nodes: Seq<RegionNode>,
    scope: usize,
)
    requires
        slots_below(allotment),
        assign_region(allotment, preferences, nodes, scope).2,
    ensures
        slots_below(assign_region(allotment, preferences, nodes, scope)),
        assign_region(allotment, preferences, nodes, scope).1 >= allotment.1,
    decreases nodes, 1int, 0int, 0int,
{
    lemma_nodes_keep_slots(allotment, preferences, nodes, scope, nodes.len() as int);
}

proof fn lemma_nodes_keep_slots(
    allotment: Allotment,
    preferences: Map<ScopedLink, ScopedLink>,
    nodes: Seq<RegionNode>,
    scope: usize,
    count: int,
)
    requires
        0 <= count <= nodes.len(),
        slots_below(allotment),
        assign_nodes(allotment, preferences, nodes, scope, count).2,
    ensures
        slots_below(assign_nodes(allotment, preferences, nodes, scope, count)),
        assign_nodes(allotment, preferences, nodes, scope, count).1 >= allotment.1,
    decreases nodes, 0int, count, 0int,
{
    if count > 0 {
        let id = count - 1;
        lemma_nodes_fits(allotment, preferences, nodes, scope, count - 1, count);
        lemma_nodes_keep_slots(allotment, preferences, nodes, scope, count - 1);
        let before = assign_nodes(allotment, preferences, nodes, scope, count - 1);
        let with_ports = assign_ports(before, preferences, id as u32, scope);
        match nodes[id].operation {
            RegionOperation::Match { branches, result_count, .. } => {
                let branched = assign_branches(with_ports, preferences, nodes, id, branches@.len() as int);
                lemma_alloc_ports_prefix(branched, id as u32, scope, 0, 0, result_count as nat);
                lemma_branches_fits(with_ports, preferences, nodes, id, 0, branches@.len() as int);
                lemma_assign_ports_keeps_slots(before, preferences, id as u32, scope);
                lemma_branches_keep_slots(with_ports, preferences, nodes, id, branches@.len() as int);
                lemma_alloc_ports_keeps_slots(branched, id as u32, scope, 0, result_count as nat);
            },
            RegionOperation::Repeat { body, .. } => {
                let inner = assign_region(with_ports, preferences, body.nodes@, body.scope);
                lemma_repeat_results_prefix(inner, id as u32, scope, body.scope, body.results@, 0, body.results@.len());
                lemma_region_fits(with_ports, preferences, body.nodes@, body.scope);
                lemma_assign_ports_keeps_slots(before, preferences, id as u32, scope);
                lemma_region_keeps_slots(with_ports, preferences, body.nodes@, body.scope);
                lemma_repeat_results_keeps_slots(inner, id as u32, scope, body.scope, body.results@, body.results@.len());
            },
            _ => {
                lemma_assign_ports_keeps_slots(before, preferences, id as u32, scope);
            },
        }
    }
}

proof fn lemma_branches_keep_slots(
    allotment: Allotment,
    preferences: Map<ScopedLink, ScopedLink>,
    nodes: Seq<RegionNode>,
    at: int,
    count: int,
)
    requires
        0 <= at < nodes.len(),
        nodes[at].operation matches RegionOperation::Match { branches, .. } && 0 <= count <= branches@.len(),
        slots_below(allotment),
        assign_branches(allotment, preferences, nodes, at, count).2,
    ensures
        slots_below(assign_branches(allotment, preferences, nodes, at, count)),
        assign_branches(allotment, preferences, nodes, at, count).1 >= allotment.1,
    decreases nodes, 0int, at, count,
{
    if count > 0 {
        match nodes[at].operation {
            RegionOperation::Match { branches, .. } => {
                lemma_branches_fits(allotment, preferences, nodes, at, count - 1, count);
                lemma_branches_keep_slots(allotment, preferences, nodes, at, count - 1);
                let before = assign_branches(allotment, preferences, nodes, at, count - 1);
                lemma_region_keeps_slots(before, preferences, branches@[count - 1].nodes@, branches@[count - 1].scope);
            },
            _ => {},
        }
    }
}

/// Every slot that a function's outputs get lies below the stack size that
/// is recorded for the function.
pub proof fn lemma_slots_below_stack_size(
    preferences: Map<ScopedLink, ScopedLink>,
    nodes: Seq<RegionNode>,
    scope: usize,
    link: ScopedLink,
)
    requires
        assign_region((Map::empty(), 0, true), preferences, nodes, scope).2,
        assign_region((Map::empty(), 0, true), preferences, nodes, scope).0.contains_key(link),
    ensures
        (assign_region((Map::empty(), 0, true), preferences, nodes, scope).0[link]->offset as int)
            < assign_region((Map::empty(), 0, true), preferences, nodes, scope).1,
{
    lemma_region_keeps_slots((Map::empty(), 0, true), preferences, nodes, scope);
}

/// A `hashbrown::HashMap` from outputs to their locals.
#[verifier::external_body]
pub struct LocalAssignments {
    map: hashbrown::HashMap<ScopedLink, Local>,
}

/// The entries of a [`LocalAssignments`].
pub uninterp spec fn locals_of(assignments: LocalAssignments) -> Map<ScopedLink, Local>;

impl LocalAssignments {
    /// An empty map.
    ///
    /// Calls `hashbrown::HashMap::new`, which creates a map with no entries.
    #[verifier::external_body]
    pub fn new() -> (assignments: Self)
        ensures
            locals_of(assignments).dom() == Set::<ScopedLink>::empty(),
    {
        LocalAssignments { map: hashbrown::HashMap::new() }
    }

    /// Removes every entry.
    ///
    /// Calls `hashbrown::HashMap::clear`, which removes every entry.
    #[verifier::external_body]
    pub fn clear(&mut self)
        ensures
            locals_of(*final(self)).dom() == Set::<ScopedLink>::empty(),
    {
        self.map.clear();
    }

    /// Whether `link` has a local.
    ///
    /// Calls `hashbrown::HashMap::contains_key`, which reports whether the
    /// map holds an equal key.
    #[verifier::external_body]
    pub fn contains_key(&self, link: ScopedLink) -> (found: bool)
        ensures
            found == locals_of(*self).contains_key(link),
    {
        self.map.contains_key(&link)
    }

    /// The local of `link`, if any.
    ///
    /// Calls `hashbrown::HashMap::get`, which returns the value stored under
    /// the key, or `None` when there is none.
    #[verifier::external_body]
    pub fn get(&self, link: ScopedLink) -> (local: Option<Local>)
        ensures
            local == (if locals_of(*self).contains_key(link) {
                Some(locals_of(*self)[link])
            } else {
                None
            }),
    {
        self.map.get(&link).copied()
    }

    /// Gives `link` the local `local`, replacing any earlier one.
    ///
    /// Calls `hashbrown::HashMap::insert`, which stores the value under the
    /// key, replacing the value of an equal key already present.
    #[verifier::external_body]
    pub fn insert(&mut self, link: ScopedLink, local: Local)
        ensures
            locals_of(*final(self)) == locals_of(*old(self)).insert(link, local),
    {
        self.map.insert(link, local);
    }
}

/// A `hashbrown::HashMap` from functions, by identity, to the number of
/// stack slots they use.
#[verifier::external_body]
pub struct StackSizes {
    map: hashbrown::HashMap<usize, u16>,
}

/// The entries of a [`StackSizes`].
pub uninterp spec fn stack_sizes_of(sizes: StackSizes) -> Map<usize, u16>;

impl StackSizes {
    /// An empty map.
    ///
    /// Calls `hashbrown::HashMap::new`, which creates a map with no entries.
    #[verifier::external_body]
    pub fn new() -> (sizes: Self)
        ensures
            stack_sizes_of(sizes).dom() == Set::<usize>::empty(),
    {
        StackSizes { map: hashbrown::HashMap::new() }
    }

    /// Removes every entry.
    ///
    /// Calls `hashbrown::HashMap::clear`, which removes every entry.
    #[verifier::external_body]
    pub fn clear(&mut self)
        ensures
            stack_sizes_of(*final(self)).dom() == Set::<usize>::empty(),
    {
        self.map.clear();
    }

    /// The stack size of function `scope`, if any.
    ///
    /// Calls `hashbrown::HashMap::get`, which returns the value stored under
    /// the key, or `None` when there is none.
    #[verifier::external_body]
    pub fn get(&self, scope: usize) -> (size: Option<u16>)
        ensures
            size == (if stack_sizes_of(*self).contains_key(scope) {
                Some(stack_sizes_of(*self)[scope])
            } else {
                None
            }),
    {
        self.map.get(&scope).copied()
    }

    /// Records the stack size of function `scope`, replacing any earlier one.
    ///
    /// Calls `hashbrown::HashMap::insert`, which stores the value under the
    /// key, replacing the value of an equal key already present.
    #[verifier::external_body]
    pub fn insert(&mut self, scope: usize, size: u16)
        ensures
            stack_sizes_of(*final(self)) == stack_sizes_of(*old(self)).insert(scope, size),
    {
        self.map.insert(scope, size);
    }
}

/// Gives the outputs of a structured graph stack slots: those that need
/// locals of their own, and those that should share one, by function.
pub struct LocalAllocator {
    preferences: Preferences,
    scalar_finder: ScalarFinder,
    next_offset: u16,
}

impl LocalAllocator {
    /// The locals given so far in `assignments` and the next free slot.
    pub closed spec fn allotment(&self, assignments: LocalAssignments) -> Allotment {
        (locals_of(assignments), self.next_offset as int, true)
    }

    /// The preferences found so far.
    pub closed spec fn preferences(&self) -> Map<ScopedLink, ScopedLink> {
        preferences_of(self.preferences)
    }

    /// The next stack slot to be given out.
    pub closed spec fn next_offset(&self) -> int {
        self.next_offset as int
    }

    /// The nodes that the scalar finder has marked so far.
    pub closed spec fn scalar_marks(&self) -> Map<(u32, usize), bool> {
        self.scalar_finder.marks()
    }

    /// An allocator that has found nothing yet and gives out the first slot next.
    pub fn new() -> (allocator: Self)
        ensures
            allocator.preferences().dom() == Set::<ScopedLink>::empty(),
            allocator.scalar_marks().dom() == Set::<(u32, usize)>::empty(),
            allocator.next_offset() == 0,
    {
        LocalAllocator {
            preferences: Preferences::new(),
            scalar_finder: ScalarFinder::new(),
            next_offset: 0,
        }
    }

    fn alloc_slow(&mut self, assignments: &mut LocalAssignments, link: ScopedLink)
        requires
            alloc_local(old(self).allotment(*old(assignments)), link).2,
        ensures
            final(self).allotment(*final(assignments)) == alloc_local(
                old(self).allotment(*old(assignments)),
                link,
            ),
            final(self).preferences() == old(self).preferences(),
    {
        if assignments.contains_key(link) {
            return ;
        }
        let offset = self.next_offset;
        self.next_offset += 1;
        assignments.insert(link, Local::Slow { offset });
    }

    fn assign_preferred_ports(&mut self, assignments: &mut LocalAssignments, id: u32, scope: usize)
        requires
            assign_ports(old(self).allotment(*old(assignments)), old(self).preferences(), id, scope).2,
        ensures
            final(self).allotment(*final(assignments)) == assign_ports(
                old(self).allotment(*old(assignments)),
                old(self).preferences(),
                id,
                scope,
            ),
            final(self).preferences() == old(self).preferences(),
    {
        let ghost start = self.allotment(*assignments);
        let ghost preferences = self.preferences();
        let ghost gap = first_gap(preferences, id, scope, 0);
        let ghost end = if gap + 8 > u16::MAX {
            u16::MAX as int
        } else {
            gap + 8
        };
        proof {
            lemma_first_gap_at_least(preferences, id, scope, 0);
            let leading = alloc_ports(start, id, scope, 0, gap as nat);
            lemma_alloc_preferred_prefix(leading, preferences, id, scope, gap, 0, (end - gap) as nat);
        }
        let mut port = 0_u16;
        loop
            invariant
                preferences == self.preferences(),
                gap == first_gap(preferences, id, scope, 0),
                gap == first_gap(preferences, id, scope, port as int),
                port <= gap <= u16::MAX,
                alloc_ports(start, id, scope, 0, gap as nat).2,
                self.allotment(*assignments) == alloc_ports(start, id, scope, 0, port as nat),
            ensures
                preferences == self.preferences(),
                port == gap,
                self.allotment(*assignments) == alloc_ports(start, id, scope, 0, gap as nat),
            decreases gap - port,
        {
            if !self.preferences.contains_key((Link { node: id, port }, scope)) {
                break;
            }
            proof {
                lemma_first_gap_at_least(preferences, id, scope, port + 1);
                lemma_alloc_ports_prefix(start, id, scope, 0, (port + 1) as nat, gap as nat);
            }
            self.alloc_slow(assignments, (Link { node: id, port }, scope));
            port += 1;
        }
        let ghost leading = self.allotment(*assignments);
        let stop = port.saturating_add(8);
        let mut extra = port;
        while extra < stop
            invariant
                preferences == self.preferences(),
                port == gap,
                stop == end,
                port <= extra <= stop,
                leading == alloc_ports(start, id, scope, 0, gap as nat),
                alloc_preferred(leading, preferences, id, scope, gap, (end - gap) as nat).2,
                self.allotment(*assignments) == alloc_preferred(leading, preferences, id, scope, gap, (extra - gap) as nat),
            decreases stop - extra,
        {
            let link = (Link { node: id, port: extra }, scope);
            proof {
                lemma_alloc_preferred_prefix(leading, preferences, id, scope, gap, (extra - gap + 1) as nat, (end - gap) as nat);
            }
            if self.preferences.contains_key(link) {
                self.alloc_slow(assignments, link);
            }
            extra += 1;
        }
    }

    fn assign_match(
        &mut self,
        assignments: &mut LocalAssignments,
        nodes: &[RegionNode],
        id: u32,
        scope: usize,
        branches: &Vec<Region>,
        result_count: u16,
    )
        requires
            id < nodes@.len(),
            nodes@[id as int].operation matches RegionOperation::Match { branches: all, result_count: count, .. }
                && all == *branches && count == result_count,
            branches_fit(nodes@, id as int, branches@.len() as int),
            alloc_ports(
                assign_branches(old(self).allotment(*old(assignments)), old(self).preferences(), nodes@, id as int, branches@.len() as int),
                id,
                scope,
                0,
                result_count as nat,
            ).2,
        ensures
            final(self).allotment(*final(assignments)) == alloc_ports(
                assign_branches(old(self).allotment(*old(assignments)), old(self).preferences(), nodes@, id as int, branches@.len() as int),
                id,
                scope,
                0,
                result_count as nat,
            ),
            final(self).preferences() == old(self).preferences(),
        decreases nodes@, 0int, id, 0int,
    {
        let ghost start = self.allotment(*assignments);
        let ghost preferences = self.preferences();
        let ghost count = branches@.len() as int;
        let ghost branched = assign_branches(start, preferences, nodes@, id as int, count);
        proof {
            lemma_alloc_ports_prefix(branched, id, scope, 0, 0, result_count as nat);
        }
        let mut b: usize = 0;
        while b < branches.len()
            invariant
                id < nodes@.len(),
                nodes@[id as int].operation matches RegionOperation::Match { branches: all, .. } && all == *branches,
                count == branches@.len(),
                b <= count,
                preferences == self.preferences(),
                branches_fit(nodes@, id as int, count),
                assign_branches(start, preferences, nodes@, id as int, count).2,
                self.allotment(*assignments) == assign_branches(start, preferences, nodes@, id as int, b as int),
            decreases count - b,
        {
            let branch = &branches[b];
            proof {
                lemma_branches_fits(start, preferences, nodes@, id as int, b + 1, count);
                crate::local_allocator::reference_finder::lemma_branches_fit_prefix(nodes@, id as int, b + 1, count);
            }
            self.assign_scope(assignments, branch.nodes.as_slice(), branch.scope);
            b += 1;
        }
        let mut port: u16 = 0;
        while port < result_count
            invariant
                port <= result_count,
                preferences == self.preferences(),
                branched == assign_branches(start, preferences, nodes@, id as int, count),
                alloc_ports(branched, id, scope, 0, result_count as nat).2,
                self.allotment(*assignments) == alloc_ports(branched, id, scope, 0, port as nat),
            decreases result_count - port,
        {
            proof {
                lemma_alloc_ports_prefix(branched, id, scope, 0, (port + 1) as nat, result_count as nat);
            }
            self.alloc_slow(assignments, (Link { node: id, port }, scope));
            port += 1;
        }
    }

    fn assign_repeat(
        &mut self,
        assignments: &mut LocalAssignments,
        nodes: &[RegionNode],
        id: u32,
        scope: usize,
        body: &Region,
    )
        requires
            id < nodes@.len(),
            nodes@[id as int].operation matches RegionOperation::Repeat { body: inner, .. } && inner == *body,
            writes_fit(body.nodes@),
            body.results@.len() <= u16::MAX,
            repeat_results(
                assign_region(old(self).allotment(*old(assignments)), old(self).preferences(), body.nodes@, body.scope),
                id,
                scope,
                body.scope,
                body.results@,
                body.results@.len(),
            ).2,
        ensures
            final(self).allotment(*final(assignments)) == repeat_results(
                assign_region(old(self).allotment(*old(assignments)), old(self).preferences(), body.nodes@, body.scope),
                id,
                scope,
                body.scope,
                body.results@,
                body.results@.len(),
            ),
            final(self).preferences() == old(self).preferences(),
        decreases nodes@, 0int, id, 0int,
    {
        let ghost preferences = self.preferences();
        let ghost inner = assign_region(self.allotment(*assignments), preferences, body.nodes@, body.scope);
        proof {
            lemma_repeat_results_prefix(inner, id, scope, body.scope, body.results@, 0, body.results@.len());
        }
        let repeat_scope = body.scope;
        self.assign_scope(assignments, body.nodes.as_slice(), repeat_scope);
        let mut offset: usize = 0;
        while offset < body.results.len()
            invariant
                offset <= body.results@.len() <= u16::MAX,
                repeat_scope == body.scope,
                preferences == self.preferences(),
                repeat_results(inner, id, scope, body.scope, body.results@, body.results@.len()).2,
                self.allotment(*assignments) == repeat_results(inner, id, scope, body.scope, body.results@, offset as nat),
            decreases body.results@.len() - offset,
        {
            let port = offset as u16;
            let result_key = (body.results[offset], repeat_scope);
            proof {
                lemma_repeat_results_prefix(inner, id, scope, body.scope, body.results@, (offset + 1) as nat, body.results@.len());
            }
            self.alloc_slow(assignments, result_key);
            match assignments.get(result_key) {
                Some(local) => assignments.insert((Link { node: id, port }, scope), local),
                None => {
                    proof {
                        assert(false);
                    }
                },
            }
            offset += 1;
        }
    }

    fn assign_scope(&mut self, assignments: &mut LocalAssignments, nodes: &[RegionNode], scope: usize)
        requires
            writes_fit(nodes@),
            assign_region(old(self).allotment(*old(assignments)), old(self).preferences(), nodes@, scope).2,
        ensures
            final(self).allotment(*final(assignments)) == assign_region(
                old(self).allotment(*old(assignments)),
                old(self).preferences(),
                nodes@,
                scope,
            ),
            final(self).preferences() == old(self).preferences(),
        decreases nodes@, 1int, 0int, 0int,
    {
        let ghost start = self.allotment(*assignments);
        let ghost preferences = self.preferences();
        let ghost count = nodes@.len() as int;
        let mut k: usize = 0;
        while k < nodes.len()
            invariant
                k <= count,
                count == nodes@.len(),
                writes_fit(nodes@),
                preferences == self.preferences(),
                assign_nodes(start, preferences, nodes@, scope, count).2,
                self.allotment(*assignments) == assign_nodes(start, preferences, nodes@, scope, k as int),
            decreases count - k,
        {
            let node = &nodes[k];
            let ghost before = self.allotment(*assignments);
            let ghost with_ports = assign_ports(before, preferences, k as u32, scope);
            proof {
                lemma_nodes_fits(start, preferences, nodes@, scope, k + 1, count);
                match nodes@[k as int].operation {
                    RegionOperation::Match { branches, result_count, .. } => {
                        let branched = assign_branches(with_ports, preferences, nodes@, k as int, branches@.len() as int);
                        lemma_alloc_ports_prefix(branched, k as u32, scope, 0, 0, result_count as nat);
                        lemma_branches_fits(with_ports, preferences, nodes@, k as int, 0, branches@.len() as int);
                    },
                    RegionOperation::Repeat { body, .. } => {
                        let inner = assign_region(with_ports, preferences, body.nodes@, body.scope);
                        lemma_repeat_results_prefix(inner, k as u32, scope, body.scope, body.results@, 0, body.results@.len());
                        lemma_region_fits(with_ports, preferences, body.nodes@, body.scope);
                    },
                    _ => {},
                }
                assert(node_fits(nodes@[k as int], count));
                crate::local_allocator::reference_finder::lemma_nested_fit_prefix(nodes@, k + 1, count);
            }
            self.assign_preferred_ports(assignments, k as u32, scope);
            match &node.operation {
                RegionOperation::Match { branches, result_count, .. } => {
                    self.assign_match(assignments, nodes, k as u32, scope, branches, *result_count);
                },
                RegionOperation::Repeat { body, .. } => {
                    self.assign_repeat(assignments, nodes, k as u32, scope, body);
                },
                _ => {},
            }
            k += 1;
        }
    }

    /// The functions defined in `nodes`, and in the regions nested in them,
    /// as they are found from the last node to the first.
    fn find_functions_in<'a>(functions: &mut Vec<&'a RegionNode>, nodes: &'a [RegionNode])
        ensures
            final(functions)@.map_values(|node: &RegionNode| *node) == old(functions)@.map_values(
                |node: &RegionNode| *node,
            ) + functions_in(nodes@),
        decreases nodes@, 1int, 0int, 0int,
    {
        let ghost start = functions@.map_values(|node: &RegionNode| *node);
        let ghost count = nodes@.len() as int;
        proof {
            assert(start + functions_after(nodes@, 0) =~= start);
        }
        let mut k: usize = nodes.len();
        while k > 0
            invariant
                k <= count,
                count == nodes@.len(),
                functions@.map_values(|node: &RegionNode| *node) == start + functions_after(nodes@, count - k),
            decreases k,
        {
            k -= 1;
            let node = &nodes[k];
            let ghost before = functions@.map_values(|node: &RegionNode| *node);
            match &node.operation {
                RegionOperation::Function { body, .. } => {
                    Self::find_functions_in(functions, body.nodes.as_slice());
                    let ghost inner = functions@.map_values(|node: &RegionNode| *node);
                    functions.push(node);
                    proof {
                        assert(functions@.map_values(|node: &RegionNode| *node) =~= inner.push(*node));
                        assert(before + (functions_in(body.nodes@) + seq![*node]) =~= inner.push(*node));
                    }
                },
                RegionOperation::Match { branches, .. } => {
                    let ghost nb = branches@.len() as int;
                    proof {
                        assert(before + branch_functions(nodes@, k as int, 0) =~= before);
                    }
                    let mut b: usize = 0;
                    while b < branches.len()
                        invariant
                            k < count,
                            count == nodes@.len(),
                            nb == branches@.len(),
                            b <= nb,
                            nodes@[k as int].operation matches RegionOperation::Match { branches: all, .. } && all == *branches,
                            functions@.map_values(|node: &RegionNode| *node) == before + branch_functions(nodes@, k as int, b as int),
                        decreases nb - b,
                    {
                        let branch = &branches[b];
                        Self::find_functions_in(functions, branch.nodes.as_slice());
                        proof {
                            assert(before + branch_functions(nodes@, k as int, b + 1) =~= before + branch_functions(nodes@, k as int, b as int) + functions_in(branch.nodes@));
                        }
                        b += 1;
                    }
                },
                RegionOperation::Repeat { body, .. } => {
                    Self::find_functions_in(functions, body.nodes.as_slice());
                },
                _ => {},
            }
            proof {
                assert(functions_after(nodes@, count - k) == functions_after(nodes@, count - k - 1) + match nodes@[k as int].operation {
                    RegionOperation::Function { body, .. } => functions_in(body.nodes@) + seq![nodes@[k as int]],
                    RegionOperation::Match { branches, .. } => branch_functions(nodes@, k as int, branches@.len() as int),
                    RegionOperation::Repeat { body, .. } => functions_in(body.nodes@),
                    _ => Seq::empty(),
                });
                assert(functions@.map_values(|node: &RegionNode| *node) =~= start + functions_after(nodes@, count - k));
            }
        }
    }

    fn register_boundary_preferences(&mut self, scope: usize, boundary_id: u32, port_count: u16)
        ensures
            final(self).preferences() == apply_writes(
                old(self).preferences(),
                keep_ports(boundary_id, scope, port_count as int),
            ),
    {
        let ghost start = self.preferences();
        let mut port: u16 = 0;
        while port < port_count
            invariant
                port <= port_count,
                self.preferences() == apply_writes(start, keep_ports(boundary_id, scope, port as int)),
            decreases port_count - port,
        {
            self.preferences.try_insert((Link { node: boundary_id, port }, scope), (dangling(), 0));
            proof {
                assert(keep_ports(boundary_id, scope, port + 1).drop_last() =~= keep_ports(boundary_id, scope, port as int));
            }
            port += 1;
        }
    }

    fn run_finders(&mut self, nodes: &[RegionNode], scope: usize, roots: &[Link])
        requires
            tree_ok(nodes@, roots@),
            scopes_distinct(nodes@, scope),
            writes_fit(nodes@),
        ensures
            final(self).preferences() == add_keys(
                apply_writes(old(self).preferences(), region_writes(nodes@, scope)),
                scalar_keys(nodes@, scope, roots@),
            ),
    {
        crate::local_allocator::reference_finder::run(&mut self.preferences, nodes, scope);
        self.scalar_finder.run(&mut self.preferences, nodes, scope, roots);
    }

    fn handle_function(
        &mut self,
        stack_sizes: &mut StackSizes,
        assignments: &mut LocalAssignments,
        nodes: &[RegionNode],
        scope: usize,
        roots: &[Link],
        capture_count: u16,
        argument_count: u16,
    )
        requires
            function_fits(
                (old(self).preferences(), locals_of(*old(assignments)), stack_sizes_of(*old(stack_sizes))),
                nodes@,
                scope,
                roots@,
                capture_count,
                argument_count,
            ),
        ensures
            (final(self).preferences(), locals_of(*final(assignments)), stack_sizes_of(*final(stack_sizes)))
                == function_step(
                (old(self).preferences(), locals_of(*old(assignments)), stack_sizes_of(*old(stack_sizes))),
                nodes@,
                scope,
                roots@,
                capture_count,
                argument_count,
            ),
    {
        let ghost start = self.preferences();
        self.run_finders(nodes, scope, roots);
        let ghost found = self.preferences();
        self.register_boundary_preferences(scope, 0, capture_count);
        self.register_boundary_preferences(scope, 1, argument_count);
        proof {
            lemma_apply_writes_append(found, keep_ports(0, scope, capture_count as int), keep_ports(1, scope, argument_count as int));
        }
        self.next_offset = 0;
        self.assign_scope(assignments, nodes, scope);
        stack_sizes.insert(scope, self.next_offset);
    }

    /// Gives locals to the outputs of the module whose region of identity
    /// `module_scope` is `module_nodes` and yields `module_state`, and of
    /// every function defined in it: records in `assignments` the local of
    /// each output and in `stack_sizes` the number of slots of each
    /// function, as [`module_allocation`] describes.
    pub fn run(
        &mut self,
        stack_sizes: &mut StackSizes,
        assignments: &mut LocalAssignments,
        module_nodes: &[RegionNode],
        module_scope: usize,
        module_state: Link,
    )
        requires
            module_fits(module_nodes@, module_scope, module_state),
        ensures
            (final(self).preferences(), locals_of(*final(assignments)), stack_sizes_of(*final(stack_sizes)))
                == module_allocation(module_nodes@, module_scope, module_state),
    {
        self.preferences.clear();
        let mut functions: Vec<&RegionNode> = Vec::new();
        Self::find_functions_in(&mut functions, module_nodes);
        stack_sizes.clear();
        assignments.clear();
        let ghost empty: Allocation = (Map::empty(), Map::empty(), Map::empty());
        proof {
            assert(self.preferences() =~= Map::empty());
            assert(locals_of(*assignments) =~= Map::empty());
            assert(stack_sizes_of(*stack_sizes) =~= Map::empty());
            assert(functions@.map_values(|node: &RegionNode| *node) =~= functions_in(module_nodes@));
        }
        let mut roots: Vec<Link> = Vec::new();
        roots.push(module_state);
        proof {
            assert(roots@ =~= seq![module_state]);
        }
        self.handle_function(stack_sizes, assignments, module_nodes, module_scope, roots.as_slice(), 0, 0);
        let ghost start = (self.preferences(), locals_of(*assignments), stack_sizes_of(*stack_sizes));
        let ghost all = functions_in(module_nodes@);
        let ghost total = all.len();
        loop
            invariant
                all == functions_in(module_nodes@),
                total == all.len(),
                functions@.len() <= total,
                functions@.map_values(|node: &RegionNode| *node) == all.subrange(0, functions@.len() as int),
                function_steps_fit(start, all, total),
                (self.preferences(), locals_of(*assignments), stack_sizes_of(*stack_sizes)) == function_steps(
                    start,
                    all,
                    (total - functions@.len()) as nat,
                ),
            ensures
                (self.preferences(), locals_of(*assignments), stack_sizes_of(*stack_sizes)) == function_steps(start, all, total),
            decreases functions@.len(),
        {
            let ghost before = functions@.map_values(|node: &RegionNode| *node);
            let ghost remaining = functions@.len();
            match functions.pop() {
                Some(node) => {
                    let ghost count = (total - remaining + 1) as nat;
                    proof {
                        assert(before[remaining - 1] == all[remaining - 1]);
                        assert(*node == before[remaining - 1]);
                        lemma_function_steps_fit_prefix(start, all, count, total);
                        assert(functions@.map_values(|node: &RegionNode| *node) =~= all.subrange(0, functions@.len() as int));
                    }
                    match &node.operation {
                        RegionOperation::Function { body, capture_count, argument_count } => {
                            self.handle_function(
                                stack_sizes,
                                assignments,
                                body.nodes.as_slice(),
                                body.scope,
                                body.results.as_slice(),
                                *capture_count,
                                *argument_count,
                            );
                        },
                        _ => {},
                    }
                },
                None => {
                    break;
                },
            }
        }
    }
}

} // verus!
