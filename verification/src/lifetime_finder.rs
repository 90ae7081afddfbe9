//! How long the value of each local lives: the last node that reads it,
//! directly or through nodes whose results are not kept in locals and are
//! therefore computed again where they are read.

use vstd::prelude::*;

use crate::flow::{
    FlowNode, FlowOperation, DESTINATION_STATE_PORT, RESULT_PORT, SOURCE_STATE_PORT, STATE_PORT,
};
use crate::ir::Link;
use crate::local_provider::{lifetimes_of, LinkLifetimes};

verus! {

/// Whether `ids` is in increasing order.
pub open spec fn is_sorted_ids(ids: Seq<u32>) -> bool {
    forall|i: int, j: int| 0 <= i <= j < ids.len() ==> ids[i] <= ids[j]
}

/// Whether output `port` of node `id` is a value kept in a local, given
/// the sorted ids of the nodes whose values are locals.
pub open spec fn local_result(node: FlowNode, id: u32, port: u16, locals: Seq<u32>) -> bool {
    let local = locals.contains(id);
    match node.operation {
        FlowOperation::LambdaIn { .. }
        | FlowOperation::RegionIn
        | FlowOperation::RegionOut { .. }
        | FlowOperation::GammaIn { .. }
        | FlowOperation::GammaOut { .. }
        | FlowOperation::ThetaIn { .. }
        | FlowOperation::ThetaOut { .. }
        | FlowOperation::OmegaIn
        | FlowOperation::OmegaOut
        | FlowOperation::GlobalNew
        | FlowOperation::TableNew
        | FlowOperation::ElementsNew
        | FlowOperation::MemoryNew
        | FlowOperation::DataNew => true,
        FlowOperation::LambdaOut { .. }
        | FlowOperation::Import
        | FlowOperation::Trap
        | FlowOperation::Null
        | FlowOperation::Identity
        | FlowOperation::I32
        | FlowOperation::I64
        | FlowOperation::F32
        | FlowOperation::F64
        | FlowOperation::RefIsNull
        | FlowOperation::IntegerUnaryOperation
        | FlowOperation::IntegerBinaryOperation
        | FlowOperation::IntegerCompareOperation
        | FlowOperation::IntegerNarrow
        | FlowOperation::IntegerWiden
        | FlowOperation::IntegerExtend
        | FlowOperation::IntegerConvertToNumber
        | FlowOperation::IntegerTransmuteToNumber
        | FlowOperation::NumberUnaryOperation
        | FlowOperation::NumberBinaryOperation
        | FlowOperation::NumberCompareOperation
        | FlowOperation::NumberNarrow
        | FlowOperation::NumberWiden
        | FlowOperation::NumberTruncateToInteger
        | FlowOperation::NumberTransmuteToInteger => local,
        FlowOperation::Host => false,
        FlowOperation::Call { results, .. } => port < results && local,
        FlowOperation::Merge { .. }
        | FlowOperation::GlobalSet { .. }
        | FlowOperation::TableSet { .. }
        | FlowOperation::TableFill { .. }
        | FlowOperation::TableCopy { .. }
        | FlowOperation::TableInit { .. }
        | FlowOperation::ElementsDrop { .. }
        | FlowOperation::MemoryStore { .. }
        | FlowOperation::MemoryFill { .. }
        | FlowOperation::MemoryCopy { .. }
        | FlowOperation::MemoryInit { .. }
        | FlowOperation::DataDrop { .. } => false,
        FlowOperation::GlobalGet { .. }
        | FlowOperation::TableGet { .. }
        | FlowOperation::TableSize { .. }
        | FlowOperation::TableGrow { .. }
        | FlowOperation::MemoryLoad { .. }
        | FlowOperation::MemorySize { .. }
        | FlowOperation::MemoryGrow { .. } => port == RESULT_PORT && local,
    }
}

/// The outputs that node `id` reads where it is emitted: nothing for a
/// node whose value is computed again where it is read and that has no
/// effect of its own.
pub open spec fn producers(node: FlowNode, id: u32, locals: Seq<u32>) -> Seq<Link> {
    let local = locals.contains(id);
    match node.operation {
        FlowOperation::LambdaIn { .. }
        | FlowOperation::LambdaOut { .. }
        | FlowOperation::RegionIn
        | FlowOperation::RegionOut { .. }
        | FlowOperation::GammaIn { .. }
        | FlowOperation::GammaOut { .. }
        | FlowOperation::ThetaIn { .. }
        | FlowOperation::ThetaOut { .. }
        | FlowOperation::OmegaIn
        | FlowOperation::OmegaOut => node.inputs@,
        FlowOperation::Trap
        | FlowOperation::Null
        | FlowOperation::I32
        | FlowOperation::I64
        | FlowOperation::F32
        | FlowOperation::F64
        | FlowOperation::Merge { .. }
        | FlowOperation::GlobalGet { .. }
        | FlowOperation::TableSize { .. }
        | FlowOperation::ElementsDrop { .. }
        | FlowOperation::MemorySize { .. }
        | FlowOperation::DataNew
        | FlowOperation::DataDrop { .. }
        | FlowOperation::Host => Seq::empty(),
        FlowOperation::Import
        | FlowOperation::Identity
        | FlowOperation::RefIsNull
        | FlowOperation::IntegerUnaryOperation
        | FlowOperation::IntegerBinaryOperation
        | FlowOperation::IntegerCompareOperation
        | FlowOperation::IntegerNarrow
        | FlowOperation::IntegerWiden
        | FlowOperation::IntegerExtend
        | FlowOperation::IntegerConvertToNumber
        | FlowOperation::IntegerTransmuteToNumber
        | FlowOperation::NumberUnaryOperation
        | FlowOperation::NumberBinaryOperation
        | FlowOperation::NumberCompareOperation
        | FlowOperation::NumberNarrow
        | FlowOperation::NumberWiden
        | FlowOperation::NumberTruncateToInteger
        | FlowOperation::NumberTransmuteToInteger
        | FlowOperation::GlobalNew
        | FlowOperation::TableNew
        | FlowOperation::ElementsNew
        | FlowOperation::MemoryNew => if local {
            node.inputs@
        } else {
            Seq::empty()
        },
        FlowOperation::Call { function, arguments, states, .. } => if local {
            seq![function] + arguments@.subrange(0, arguments@.len() - states)
        } else {
            Seq::empty()
        },
        FlowOperation::GlobalSet { source, .. } => seq![source],
        FlowOperation::TableGet { source } | FlowOperation::MemoryLoad { source } => if local {
            seq![source.offset]
        } else {
            Seq::empty()
        },
        FlowOperation::TableSet { destination, source }
        | FlowOperation::MemoryStore { destination, source } => seq![destination.offset, source],
        FlowOperation::TableGrow { initializer, size, .. } => if local {
            seq![initializer, size]
        } else {
            Seq::empty()
        },
        FlowOperation::TableFill { destination, source, size } => seq![
            destination.offset,
            source,
            size,
        ],
        FlowOperation::TableCopy { destination, source, size }
        | FlowOperation::MemoryCopy { destination, source, size }
        | FlowOperation::TableInit { destination, source, size }
        | FlowOperation::MemoryInit { destination, source, size } => seq![
            destination.offset,
            source.offset,
            size,
        ],
        FlowOperation::MemoryGrow { size, .. } => if local {
            seq![size]
        } else {
            Seq::empty()
        },
        FlowOperation::MemoryFill { destination, byte, size } => seq![
            destination.offset,
            byte,
            size,
        ],
    }
}

/// The outputs read again to compute output `port` of `node` where that
/// output is read, when it is not kept in a local.
pub open spec fn continuations(node: FlowNode, port: u16) -> Seq<Link> {
    match node.operation {
        FlowOperation::LambdaIn { .. }
        | FlowOperation::LambdaOut { .. }
        | FlowOperation::RegionIn
        | FlowOperation::RegionOut { .. }
        | FlowOperation::GammaIn { .. }
        | FlowOperation::GammaOut { .. }
        | FlowOperation::ThetaIn { .. }
        | FlowOperation::ThetaOut { .. }
        | FlowOperation::OmegaIn
        | FlowOperation::OmegaOut
        | FlowOperation::Trap
        | FlowOperation::Null
        | FlowOperation::I32
        | FlowOperation::I64
        | FlowOperation::F32
        | FlowOperation::F64
        | FlowOperation::GlobalNew
        | FlowOperation::GlobalGet { .. }
        | FlowOperation::TableNew
        | FlowOperation::ElementsNew
        | FlowOperation::MemoryNew
        | FlowOperation::DataNew
        | FlowOperation::Host => Seq::empty(),
        FlowOperation::Import
        | FlowOperation::Identity
        | FlowOperation::Merge { .. }
        | FlowOperation::RefIsNull
        | FlowOperation::IntegerUnaryOperation
        | FlowOperation::IntegerBinaryOperation
        | FlowOperation::IntegerCompareOperation
        | FlowOperation::IntegerNarrow
        | FlowOperation::IntegerWiden
        | FlowOperation::IntegerExtend
        | FlowOperation::IntegerConvertToNumber
        | FlowOperation::IntegerTransmuteToNumber
        | FlowOperation::NumberUnaryOperation
        | FlowOperation::NumberBinaryOperation
        | FlowOperation::NumberCompareOperation
        | FlowOperation::NumberNarrow
        | FlowOperation::NumberWiden
        | FlowOperation::NumberTruncateToInteger
        | FlowOperation::NumberTransmuteToInteger
        | FlowOperation::ElementsDrop { .. }
        | FlowOperation::DataDrop { .. } => node.inputs@,
        FlowOperation::Call { arguments, results, states, .. } => if port >= results {
            seq![arguments@[arguments@.len() - states + (port - results)]]
        } else {
            arguments@.subrange(0, arguments@.len() - states)
        },
        FlowOperation::GlobalSet { destination, .. } => seq![destination],
        FlowOperation::TableGet { source } | FlowOperation::MemoryLoad { source } => if port
            == RESULT_PORT {
            seq![source.offset]
        } else if port == STATE_PORT {
            seq![source.reference]
        } else {
            Seq::empty()
        },
        FlowOperation::TableSet { destination, .. }
        | FlowOperation::TableFill { destination, .. }
        | FlowOperation::MemoryStore { destination, .. }
        | FlowOperation::MemoryFill { destination, .. } => seq![destination.reference],
        FlowOperation::TableSize { source } | FlowOperation::MemorySize { source } => if port
            == STATE_PORT {
            seq![source]
        } else {
            Seq::empty()
        },
        FlowOperation::TableGrow { destination, initializer, size } => if port == RESULT_PORT {
            seq![initializer, size]
        } else if port == STATE_PORT {
            seq![destination]
        } else {
            Seq::empty()
        },
        FlowOperation::TableCopy { destination, source, .. }
        | FlowOperation::TableInit { destination, source, .. }
        | FlowOperation::MemoryCopy { destination, source, .. }
        | FlowOperation::MemoryInit { destination, source, .. } => if port
            == DESTINATION_STATE_PORT {
            seq![destination.reference]
        } else if port == SOURCE_STATE_PORT {
            seq![source.reference]
        } else {
            Seq::empty()
        },
        FlowOperation::MemoryGrow { destination, size } => if port == RESULT_PORT {
            seq![size]
        } else if port == STATE_PORT {
            seq![destination]
        } else {
            Seq::empty()
        },
    }
}

/// The links that `node` holds in its own fields, besides its inputs.
pub open spec fn field_links(node: FlowNode) -> Seq<Link> {
    match node.operation {
        FlowOperation::LambdaOut { results } | FlowOperation::RegionOut { results } => results@,
        FlowOperation::GammaIn { condition, arguments } => seq![condition] + arguments@,
        FlowOperation::ThetaIn { arguments } => arguments@,
        FlowOperation::ThetaOut { condition, results } => seq![condition] + results@,
        FlowOperation::Call { function, arguments, .. } => seq![function] + arguments@,
        FlowOperation::Merge { states } => states@,
        FlowOperation::GlobalGet { source }
        | FlowOperation::TableSize { source }
        | FlowOperation::ElementsDrop { source }
        | FlowOperation::MemorySize { source }
        | FlowOperation::DataDrop { source } => seq![source],
        FlowOperation::GlobalSet { destination, source } => seq![destination, source],
        FlowOperation::TableGet { source } | FlowOperation::MemoryLoad { source } => seq![
            source.reference,
            source.offset,
        ],
        FlowOperation::TableSet { destination, source }
        | FlowOperation::MemoryStore { destination, source } => seq![
            destination.reference,
            destination.offset,
            source,
        ],
        FlowOperation::TableGrow { destination, initializer, size } => seq![
            destination,
            initializer,
            size,
        ],
        FlowOperation::TableFill { destination, source, size } => seq![
            destination.reference,
            destination.offset,
            source,
            size,
        ],
        FlowOperation::TableCopy { destination, source, size }
        | FlowOperation::TableInit { destination, source, size }
        | FlowOperation::MemoryCopy { destination, source, size }
        | FlowOperation::MemoryInit { destination, source, size } => seq![
            destination.reference,
            destination.offset,
            source.reference,
            source.offset,
            size,
        ],
        FlowOperation::MemoryGrow { destination, size } => seq![destination, size],
        FlowOperation::MemoryFill { destination, byte, size } => seq![
            destination.reference,
            destination.offset,
            byte,
            size,
        ],
        _ => Seq::empty(),
    }
}

/// Whether `node` holds `link`, among its inputs or in its fields.
pub open spec fn holds_link(node: FlowNode, link: Link) -> bool {
    node.inputs@.contains(link) || field_links(node).contains(link)
}

/// Whether `link` names an output of a node of `g`.
pub open spec fn link_ok(g: Seq<FlowNode>, link: Link) -> bool {
    &&& link.node < g.len()
    &&& match g[link.node as int].operation {
        FlowOperation::Call { results, states, .. } => link.port < results + states,
        _ => true,
    }
}

/// Whether the states of a call are among its arguments.
pub open spec fn call_states_fit(node: FlowNode) -> bool {
    match node.operation {
        FlowOperation::Call { arguments, states, .. } => states <= arguments@.len(),
        _ => true,
    }
}

/// Whether `g` is a data-flow graph that the finders handle: its nodes
/// can be numbered by `u32`, none is a host operation, every link names
/// an output of the graph, and computing a node's output again only reads
/// outputs of earlier nodes.
pub open spec fn is_flow_graph(g: Seq<FlowNode>) -> bool {
    &&& g.len() <= u32::MAX
    &&& forall|k: int| 0 <= k < g.len() ==> !(#[trigger] g[k].operation is Host)
    &&& forall|k: int| 0 <= k < g.len() ==> #[trigger] call_states_fit(g[k])
    &&& forall|k: int, link: Link|
        0 <= k < g.len() && #[trigger] holds_link(g[k], link) ==> link_ok(g, link)
    &&& forall|k: int, port: u16, j: int|
        0 <= k < g.len() && 0 <= j < continuations(g[k], port).len()
            ==> #[trigger] continuations(g[k], port)[j].node < k
}

/// The local outputs that reading `link` reads: the output itself when it
/// is kept in a local, or else those read by computing it again.
pub open spec fn found(g: Seq<FlowNode>, locals: Seq<u32>, link: Link) -> Set<Link>
    decreases link.node as int, 1int, 0int,
{
    if link.node >= g.len() {
        Set::empty()
    } else if local_result(g[link.node as int], link.node, link.port, locals) {
        set![link]
    } else {
        found_below(g, locals, continuations(g[link.node as int], link.port), link.node as int)
    }
}

/// The local outputs that reading each of `links` of a node before `bound`
/// reads.
pub open spec fn found_below(g: Seq<FlowNode>, locals: Seq<u32>, links: Seq<Link>, bound: int) -> Set<
    Link,
>
    decreases bound, 0int, links.len(),
{
    if links.len() == 0 {
        Set::empty()
    } else {
        let last = links.last();
        found_below(g, locals, links.drop_last(), bound).union(
            if 0 <= last.node < bound {
                found(g, locals, last)
            } else {
                Set::empty()
            },
        )
    }
}

/// How many outputs reading `link` visits.
pub open spec fn walk(g: Seq<FlowNode>, locals: Seq<u32>, link: Link) -> nat
    decreases link.node as int, 1int, 0int,
{
    if link.node >= g.len() || local_result(g[link.node as int], link.node, link.port, locals) {
        1
    } else {
        1 + walk_below(g, locals, continuations(g[link.node as int], link.port), link.node as int)
    }
}

/// How many outputs reading each of `links` of a node before `bound`
/// visits.
pub open spec fn walk_below(g: Seq<FlowNode>, locals: Seq<u32>, links: Seq<Link>, bound: int) -> nat
    decreases bound, 0int, links.len(),
{
    if links.len() == 0 {
        0
    } else {
        let last = links.last();
        walk_below(g, locals, links.drop_last(), bound) + if 0 <= last.node < bound {
            walk(g, locals, last)
        } else {
            1
        }
    }
}

/// The local outputs that emitting node `id` of `g` reads.
pub open spec fn read_by(g: Seq<FlowNode>, locals: Seq<u32>, id: int) -> Set<Link> {
    found_below(g, locals, producers(g[id], id as u32, locals), g.len() as int)
}

/// The last of the first `count` nodes of `g` that reads `link`, if any.
pub open spec fn last_reader(g: Seq<FlowNode>, locals: Seq<u32>, link: Link, count: nat) -> Option<
    u32,
>
    decreases count,
{
    if count == 0 {
        None
    } else if read_by(g, locals, count - 1).contains(link) {
        Some((count - 1) as u32)
    } else {
        last_reader(g, locals, link, (count - 1) as nat)
    }
}

/// The lifetimes found in the first `count` nodes of `g`: each local
/// output read there lives until the last node that reads it.
pub open spec fn lifetimes_within(g: Seq<FlowNode>, locals: Seq<u32>, count: nat) -> Map<Link, u32> {
    Map::new(
        |link: Link| last_reader(g, locals, link, count) is Some,
        |link: Link| last_reader(g, locals, link, count)->0,
    )
}

/// The lifetimes of the local outputs of `g`.
pub open spec fn graph_lifetimes(g: Seq<FlowNode>, locals: Seq<u32>) -> Map<Link, u32> {
    lifetimes_within(g, locals, g.len())
}

/// `lifetimes` with every link of `links` living at least until `until`.
pub open spec fn raise(lifetimes: Map<Link, u32>, links: Set<Link>, until: u32) -> Map<Link, u32> {
    Map::new(
        |link: Link| lifetimes.contains_key(link) || links.contains(link),
        |link: Link|
            if links.contains(link) {
                if lifetimes.contains_key(link) && lifetimes[link] > until {
                    lifetimes[link]
                } else {
                    until
                }
            } else {
                lifetimes[link]
            },
    )
}

/// The link that a pair of a node and a port names.
pub open spec fn pair_link(pair: (u32, u16)) -> Link {
    Link { node: pair.0, port: pair.1 }
}

/// The links that pairs of nodes and ports name.
pub open spec fn pair_links(pairs: Seq<(u32, u16)>) -> Seq<Link> {
    pairs.map_values(|pair: (u32, u16)| pair_link(pair))
}

/// Whether `a` comes no later than `b`, by node and then by port.
pub open spec fn pair_le(a: (u32, u16), b: (u32, u16)) -> bool {
    a.0 < b.0 || (a.0 == b.0 && a.1 <= b.1)
}

/// `s` with every run of equal neighbours kept once.
pub open spec fn without_repeats<A>(s: Seq<A>) -> Seq<A>
    decreases s.len(),
{
    if s.len() <= 1 {
        s
    } else {
        let rest = without_repeats(s.drop_last());
        if s.last() == s[s.len() - 2] {
            rest
        } else {
            rest.push(s.last())
        }
    }
}

/// Whether the sorted `ids` hold `x`, found by halving the range.
fn sorted_ids_contain(ids: &[u32], x: u32) -> (found: bool)
    requires
        is_sorted_ids(ids@),
    ensures
        found == ids@.contains(x),
{
    let mut low: usize = 0;
    let mut high: usize = ids.len();
    while low < high
        invariant
            low <= high <= ids@.len(),
            is_sorted_ids(ids@),
            forall|k: int| 0 <= k < low ==> ids@[k] < x,
            forall|k: int| high <= k < ids@.len() ==> ids@[k] > x,
        decreases high - low,
    {
        let middle = low + (high - low) / 2;
        if ids[middle] < x {
            low = middle + 1;
        } else if ids[middle] > x {
            high = middle;
        } else {
            assert(ids@[middle as int] == x);
            return true;
        }
    }
    assert forall|k: int| 0 <= k < ids@.len() implies ids@[k] != x by {
        if k < low {
            assert(ids@[k] < x);
        } else {
            assert(ids@[k] > x);
        }
    }
    false
}

/// Sorts pairs by node and then by port.
///
/// Calls `slice::sort_unstable`, which the standard library documents as
/// sorting the slice in ascending order, keeping every element; tuples
/// compare by their first element and then by their second.
#[verifier::external_body]
fn sort_pairs(pairs: &mut Vec<(u32, u16)>)
    ensures
        final(pairs)@.to_multiset() == old(pairs)@.to_multiset(),
        forall|i: int, j: int|
            0 <= i <= j < final(pairs)@.len() ==> pair_le(final(pairs)@[i], final(pairs)@[j]),
{
    pairs.sort_unstable();
}

/// Removes consecutive repeated pairs, keeping one of each run.
fn dedup_pairs(pairs: &mut Vec<(u32, u16)>)
    ensures
        final(pairs)@ == without_repeats(old(pairs)@),
{
    let mut kept: Vec<(u32, u16)> = Vec::new();
    let mut i: usize = 0;
    while i < pairs.len()
        invariant
            i <= pairs@.len(),
            pairs@ == old(pairs)@,
            kept@ == without_repeats(pairs@.take(i as int)),
        decreases pairs@.len() - i,
    {
        let current = pairs[i];
        if i == 0 || current.0 != pairs[i - 1].0 || current.1 != pairs[i - 1].1 {
            kept.push(current);
        }
        proof {
            let t = pairs@.take(i + 1);
            assert(t.drop_last() =~= pairs@.take(i as int));
            if i == 0 {
                assert(kept@ =~= t);
            } else {
                assert(t[t.len() - 2] == pairs@[i - 1]);
            }
        }
        i += 1;
    }
    assert(pairs@.take(pairs@.len() as int) =~= pairs@);
    *pairs = kept;
}

pub(crate) proof fn lemma_without_repeats_contains<A>(s: Seq<A>, x: A)
    ensures
        without_repeats(s).contains(x) <==> s.contains(x),
    decreases s.len(),
{
    if s.len() > 1 {
        let d = s.drop_last();
        let rest = without_repeats(d);
        lemma_without_repeats_contains(d, x);
        if s.contains(x) {
            let i = choose|i: int| 0 <= i < s.len() && s[i] == x;
            if i < s.len() - 1 {
                assert(d[i] == x);
            }
        }
        if d.contains(x) {
            let i = choose|i: int| 0 <= i < d.len() && d[i] == x;
            assert(s[i] == x);
        }
        assert(s[s.len() - 1] == s.last());
        if s.last() == s[s.len() - 2] {
            assert(d[s.len() - 2] == s.last());
        } else {
            let r = rest.push(s.last());
            assert(r[rest.len() as int] == s.last());
            if rest.contains(x) {
                let i = choose|i: int| 0 <= i < rest.len() && rest[i] == x;
                assert(r[i] == x);
            }
            if r.contains(x) {
                let i = choose|i: int| 0 <= i < r.len() && r[i] == x;
                if i < rest.len() {
                    assert(rest[i] == x);
                }
            }
        }
    }
}

proof fn lemma_below_append(g: Seq<FlowNode>, locals: Seq<u32>, a: Seq<Link>, b: Seq<Link>, bound: int)
    ensures
        found_below(g, locals, a + b, bound) == found_below(g, locals, a, bound).union(
            found_below(g, locals, b, bound),
        ),
        walk_below(g, locals, a + b, bound) == walk_below(g, locals, a, bound) + walk_below(
            g,
            locals,
            b,
            bound,
        ),
    decreases b.len(),
{
    if b.len() == 0 {
        assert(a + b =~= a);
        assert(found_below(g, locals, a, bound).union(Set::empty()) =~= found_below(
            g,
            locals,
            a,
            bound,
        ));
    } else {
        lemma_below_append(g, locals, a, b.drop_last(), bound);
        assert((a + b).drop_last() =~= a + b.drop_last());
        assert((a + b).last() == b.last());
        assert(found_below(g, locals, a + b, bound) =~= found_below(g, locals, a, bound).union(
            found_below(g, locals, b, bound),
        ));
    }
}

proof fn lemma_below_rebound(
    g: Seq<FlowNode>,
    locals: Seq<u32>,
    links: Seq<Link>,
    first: int,
    second: int,
)
    requires
        forall|i: int| 0 <= i < links.len() ==> links[i].node < first && links[i].node < second,
    ensures
        found_below(g, locals, links, first) == found_below(g, locals, links, second),
        walk_below(g, locals, links, first) == walk_below(g, locals, links, second),
    decreases links.len(),
{
    if links.len() > 0 {
        lemma_below_rebound(g, locals, links.drop_last(), first, second);
    }
}

proof fn lemma_found_below_contains(
    g: Seq<FlowNode>,
    locals: Seq<u32>,
    links: Seq<Link>,
    bound: int,
    x: Link,
)
    ensures
        found_below(g, locals, links, bound).contains(x) <==> exists|i: int|
            0 <= i < links.len() && 0 <= links[i].node < bound && #[trigger] found(
                g,
                locals,
                links[i],
            ).contains(x),
    decreases links.len(),
{
    if links.len() > 0 {
        let d = links.drop_last();
        lemma_found_below_contains(g, locals, d, bound, x);
        if found_below(g, locals, links, bound).contains(x) {
            if found_below(g, locals, d, bound).contains(x) {
                let i = choose|i: int|
                    0 <= i < d.len() && 0 <= d[i].node < bound && #[trigger] found(
                        g,
                        locals,
                        d[i],
                    ).contains(x);
                assert(links[i] == d[i]);
            } else {
                assert(found(g, locals, links[links.len() - 1]).contains(x));
            }
        }
        if exists|i: int|
            0 <= i < links.len() && 0 <= links[i].node < bound && #[trigger] found(
                g,
                locals,
                links[i],
            ).contains(x) {
            let i = choose|i: int|
                0 <= i < links.len() && 0 <= links[i].node < bound && #[trigger] found(
                    g,
                    locals,
                    links[i],
                ).contains(x);
            if i < links.len() - 1 {
                assert(d[i] == links[i]);
                assert(found(g, locals, d[i]).contains(x));
            }
        }
    }
}

proof fn lemma_found_below_same_links(
    g: Seq<FlowNode>,
    locals: Seq<u32>,
    a: Seq<Link>,
    b: Seq<Link>,
    bound: int,
)
    requires
        forall|l: Link| a.contains(l) <==> b.contains(l),
    ensures
        found_below(g, locals, a, bound) == found_below(g, locals, b, bound),
{
    assert forall|x: Link| #[trigger]
        found_below(g, locals, a, bound).contains(x) implies found_below(
        g,
        locals,
        b,
        bound,
    ).contains(x) by {
        lemma_found_below_contains(g, locals, a, bound, x);
        lemma_found_below_contains(g, locals, b, bound, x);
        let i = choose|i: int|
            0 <= i < a.len() && 0 <= a[i].node < bound && #[trigger] found(
                g,
                locals,
                a[i],
            ).contains(x);
        assert(a.contains(a[i]));
        let j = choose|j: int| 0 <= j < b.len() && b[j] == a[i];
        assert(found(g, locals, b[j]).contains(x));
    }
    assert forall|x: Link| #[trigger]
        found_below(g, locals, b, bound).contains(x) implies found_below(
        g,
        locals,
        a,
        bound,
    ).contains(x) by {
        lemma_found_below_contains(g, locals, a, bound, x);
        lemma_found_below_contains(g, locals, b, bound, x);
        let i = choose|i: int|
            0 <= i < b.len() && 0 <= b[i].node < bound && #[trigger] found(
                g,
                locals,
                b[i],
            ).contains(x);
        assert(b.contains(b[i]));
        let j = choose|j: int| 0 <= j < a.len() && a[j] == b[i];
        assert(found(g, locals, a[j]).contains(x));
    }
    assert(found_below(g, locals, a, bound) =~= found_below(g, locals, b, bound));
}

proof fn lemma_pair_links_same(a: Seq<(u32, u16)>, b: Seq<(u32, u16)>)
    requires
        forall|p: (u32, u16)| a.contains(p) <==> b.contains(p),
    ensures
        forall|l: Link| pair_links(a).contains(l) <==> pair_links(b).contains(l),
{
    assert forall|l: Link| pair_links(a).contains(l) implies pair_links(b).contains(l) by {
        let i = choose|i: int| 0 <= i < pair_links(a).len() && pair_links(a)[i] == l;
        assert(a.contains(a[i]));
        let j = choose|j: int| 0 <= j < b.len() && b[j] == a[i];
        assert(pair_links(b)[j] == l);
    }
    assert forall|l: Link| pair_links(b).contains(l) implies pair_links(a).contains(l) by {
        let i = choose|i: int| 0 <= i < pair_links(b).len() && pair_links(b)[i] == l;
        assert(b.contains(b[i]));
        let j = choose|j: int| 0 <= j < a.len() && a[j] == b[i];
        assert(pair_links(a)[j] == l);
    }
}

proof fn lemma_last_reader_before(g: Seq<FlowNode>, locals: Seq<u32>, link: Link, count: nat)
    requires
        count <= u32::MAX + 1,
    ensures
        last_reader(g, locals, link, count) matches Some(id) ==> id < count,
    decreases count,
{
    if count > 0 {
        lemma_last_reader_before(g, locals, link, (count - 1) as nat);
    }
}


/// Whether output `port` of node `id` is a value kept in a local, given
/// the sorted ids of the nodes whose values are locals.
fn has_local_result(node: &FlowNode, id: u32, port: u16, locals: &[u32]) -> (kept: bool)
    requires
        !(node.operation is Host),
        is_sorted_ids(locals@),
    ensures
        kept == local_result(*node, id, port, locals@),
{
    match &node.operation {
        FlowOperation::LambdaIn { .. }
        | FlowOperation::RegionIn
        | FlowOperation::RegionOut { .. }
        | FlowOperation::GammaIn { .. }
        | FlowOperation::GammaOut { .. }
        | FlowOperation::ThetaIn { .. }
        | FlowOperation::ThetaOut { .. }
        | FlowOperation::OmegaIn
        | FlowOperation::OmegaOut
        | FlowOperation::GlobalNew
        | FlowOperation::TableNew
        | FlowOperation::ElementsNew
        | FlowOperation::MemoryNew
        | FlowOperation::DataNew => true,
        FlowOperation::LambdaOut { .. }
        | FlowOperation::Import
        | FlowOperation::Trap
        | FlowOperation::Null
        | FlowOperation::Identity
        | FlowOperation::I32
        | FlowOperation::I64
        | FlowOperation::F32
        | FlowOperation::F64
        | FlowOperation::RefIsNull
        | FlowOperation::IntegerUnaryOperation
        | FlowOperation::IntegerBinaryOperation
        | FlowOperation::IntegerCompareOperation
        | FlowOperation::IntegerNarrow
        | FlowOperation::IntegerWiden
        | FlowOperation::IntegerExtend
        | FlowOperation::IntegerConvertToNumber
        | FlowOperation::IntegerTransmuteToNumber
        | FlowOperation::NumberUnaryOperation
        | FlowOperation::NumberBinaryOperation
        | FlowOperation::NumberCompareOperation
        | FlowOperation::NumberNarrow
        | FlowOperation::NumberWiden
        | FlowOperation::NumberTruncateToInteger
        | FlowOperation::NumberTransmuteToInteger => sorted_ids_contain(locals, id),
        FlowOperation::Host => {
            proof {
                assert(false);
            }
            false
        },
        FlowOperation::Call { results, .. } => port < *results && sorted_ids_contain(locals, id),
        FlowOperation::Merge { .. }
        | FlowOperation::GlobalSet { .. }
        | FlowOperation::TableSet { .. }
        | FlowOperation::TableFill { .. }
        | FlowOperation::TableCopy { .. }
        | FlowOperation::TableInit { .. }
        | FlowOperation::ElementsDrop { .. }
        | FlowOperation::MemoryStore { .. }
        | FlowOperation::MemoryFill { .. }
        | FlowOperation::MemoryCopy { .. }
        | FlowOperation::MemoryInit { .. }
        | FlowOperation::DataDrop { .. } => false,
        FlowOperation::GlobalGet { .. }
        | FlowOperation::TableGet { .. }
        | FlowOperation::TableSize { .. }
        | FlowOperation::TableGrow { .. }
        | FlowOperation::MemoryLoad { .. }
        | FlowOperation::MemorySize { .. }
        | FlowOperation::MemoryGrow { .. } => port == RESULT_PORT && sorted_ids_contain(
            locals,
            id,
        ),
    }
}

/// Makes `link` live at least until `until`.
fn set_max_lifetime(link: Link, until: u32, lifetimes: &mut LinkLifetimes)
    ensures
        lifetimes_of(*final(lifetimes)) == raise(lifetimes_of(*old(lifetimes)), set![link], until),
{
    let last = match lifetimes.get(link) {
        Some(last) => last,
        None => 0,
    };
    lifetimes.insert(link, if until > last { until } else { last });
    proof {
        assert(lifetimes_of(*lifetimes) =~= raise(lifetimes_of(*old(lifetimes)), set![link], until));
    }
}


proof fn lemma_continuations_held(node: FlowNode, port: u16, i: int)
    requires
        call_states_fit(node),
        node.operation matches FlowOperation::Call { results, states, .. } ==> port < results
            + states,
        0 <= i < continuations(node, port).len(),
    ensures
        holds_link(node, continuations(node, port)[i]),
{
    let x = continuations(node, port)[i];
    let f = field_links(node);
    match node.operation {
        FlowOperation::Call { function, arguments, results, states } => {
            let k = if port >= results {
                arguments@.len() - states + (port - results)
            } else {
                i
            };
            assert(arguments@[k] == x);
            assert(f[k + 1] == x);
        },
        FlowOperation::TableGet { source } | FlowOperation::MemoryLoad { source } => {
            assert(f[0] == source.reference);
            assert(f[1] == source.offset);
        },
        FlowOperation::TableGrow { destination, initializer, size } => {
            assert(f[0] == destination);
            assert(f[1] == initializer);
            assert(f[2] == size);
        },
        FlowOperation::MemoryGrow { destination, size } => {
            assert(f[0] == destination);
            assert(f[1] == size);
        },
        FlowOperation::TableCopy { destination, source, .. }
        | FlowOperation::TableInit { destination, source, .. }
        | FlowOperation::MemoryCopy { destination, source, .. }
        | FlowOperation::MemoryInit { destination, source, .. } => {
            assert(f[0] == destination.reference);
            assert(f[2] == source.reference);
        },
        _ => {
            assert(node.inputs@.contains(x) || f[0] == x);
        },
    }
}

proof fn lemma_producers_held(node: FlowNode, id: u32, locals: Seq<u32>, i: int)
    requires
        call_states_fit(node),
        0 <= i < producers(node, id, locals).len(),
    ensures
        holds_link(node, producers(node, id, locals)[i]),
{
    let x = producers(node, id, locals)[i];
    let f = field_links(node);
    match node.operation {
        FlowOperation::Call { function, arguments, results, states } => {
            if i == 0 {
                assert(f[0] == x);
            } else {
                assert(arguments@[i - 1] == x);
                assert(f[i] == x);
            }
        },
        FlowOperation::TableGet { source } | FlowOperation::MemoryLoad { source } => {
            assert(f[1] == source.offset);
        },
        FlowOperation::TableSet { destination, source }
        | FlowOperation::MemoryStore { destination, source } => {
            assert(f[1] == destination.offset);
            assert(f[2] == source);
        },
        FlowOperation::TableGrow { destination, initializer, size } => {
            assert(f[1] == initializer);
            assert(f[2] == size);
        },
        FlowOperation::TableFill { destination, source, size } => {
            assert(f[1] == destination.offset);
            assert(f[2] == source);
            assert(f[3] == size);
        },
        FlowOperation::TableCopy { destination, source, size }
        | FlowOperation::TableInit { destination, source, size }
        | FlowOperation::MemoryCopy { destination, source, size }
        | FlowOperation::MemoryInit { destination, source, size } => {
            assert(f[1] == destination.offset);
            assert(f[3] == source.offset);
            assert(f[4] == size);
        },
        FlowOperation::MemoryGrow { destination, size } => {
            assert(f[1] == size);
        },
        FlowOperation::MemoryFill { destination, byte, size } => {
            assert(f[1] == destination.offset);
            assert(f[2] == byte);
            assert(f[3] == size);
        },
        FlowOperation::GlobalSet { destination, source } => {
            assert(f[1] == source);
        },
        _ => {
            assert(node.inputs@[i] == x);
        },
    }
}

proof fn lemma_raise_more(lifetimes: Map<Link, u32>, done: Set<Link>, link: Link, until: u32)
    ensures
        raise(raise(lifetimes, done, until), set![link], until) == raise(
            lifetimes,
            done.insert(link),
            until,
        ),
{
    assert(raise(raise(lifetimes, done, until), set![link], until) =~= raise(
        lifetimes,
        done.insert(link),
        until,
    ));
}

/// Finds how long the value of each local output lives.
pub struct LifetimeFinder {
    stack: Vec<(u32, u16)>,
}

impl LifetimeFinder {
    /// The outputs waiting to be visited.
    pub closed spec fn pending(&self) -> Seq<Link> {
        pair_links(self.stack@)
    }

    /// Whether no output waits to be visited, as between runs.
    pub closed spec fn is_idle(&self) -> bool {
        self.stack@.len() == 0
    }

    /// A finder with nothing to visit.
    pub fn new() -> (finder: Self)
        ensures
            finder.is_idle(),
    {
        LifetimeFinder { stack: Vec::new() }
    }

    fn push(&mut self, link: Link)
        ensures
            final(self).pending() == old(self).pending().push(link),
    {
        self.stack.push((link.node, link.port));
        proof {
            assert(self.pending() =~= old(self).pending().push(link));
        }
    }

    fn push_links(&mut self, links: &Vec<Link>, end: usize)
        requires
            end <= links@.len(),
        ensures
            final(self).pending() == old(self).pending() + links@.subrange(0, end as int),
    {
        let mut i: usize = 0;
        while i < end
            invariant
                i <= end <= links@.len(),
                self.pending() == old(self).pending() + links@.subrange(0, i as int),
            decreases end - i,
        {
            self.push(links[i]);
            i += 1;
            proof {
                assert(links@.subrange(0, i as int) =~= links@.subrange(0, i - 1).push(
                    links@[i - 1],
                ));
                assert(self.pending() =~= old(self).pending() + links@.subrange(0, i as int));
            }
        }
    }

    fn push_producers(&mut self, node: &FlowNode, id: u32, locals: &[u32])
        requires
            !(node.operation is Host),
            call_states_fit(*node),
            is_sorted_ids(locals@),
        ensures
            final(self).pending() == old(self).pending() + producers(*node, id, locals@),
    {
        match &node.operation {
            FlowOperation::LambdaIn { .. }
            | FlowOperation::LambdaOut { .. }
            | FlowOperation::RegionIn
            | FlowOperation::RegionOut { .. }
            | FlowOperation::GammaIn { .. }
            | FlowOperation::GammaOut { .. }
            | FlowOperation::ThetaIn { .. }
            | FlowOperation::ThetaOut { .. }
            | FlowOperation::OmegaIn
            | FlowOperation::OmegaOut => self.push_links(&node.inputs, node.inputs.len()),
            FlowOperation::Trap
            | FlowOperation::Null
            | FlowOperation::I32
            | FlowOperation::I64
            | FlowOperation::F32
            | FlowOperation::F64
            | FlowOperation::Merge { .. }
            | FlowOperation::GlobalGet { .. }
            | FlowOperation::TableSize { .. }
            | FlowOperation::ElementsDrop { .. }
            | FlowOperation::MemorySize { .. }
            | FlowOperation::DataNew
            | FlowOperation::DataDrop { .. } => {},
            FlowOperation::Import
            | FlowOperation::Identity
            | FlowOperation::RefIsNull
            | FlowOperation::IntegerUnaryOperation
            | FlowOperation::IntegerBinaryOperation
            | FlowOperation::IntegerCompareOperation
            | FlowOperation::IntegerNarrow
            | FlowOperation::IntegerWiden
            | FlowOperation::IntegerExtend
            | FlowOperation::IntegerConvertToNumber
            | FlowOperation::IntegerTransmuteToNumber
            | FlowOperation::NumberUnaryOperation
            | FlowOperation::NumberBinaryOperation
            | FlowOperation::NumberCompareOperation
            | FlowOperation::NumberNarrow
            | FlowOperation::NumberWiden
            | FlowOperation::NumberTruncateToInteger
            | FlowOperation::NumberTransmuteToInteger
            | FlowOperation::GlobalNew
            | FlowOperation::TableNew
            | FlowOperation::ElementsNew
            | FlowOperation::MemoryNew => {
                if sorted_ids_contain(locals, id) {
                    self.push_links(&node.inputs, node.inputs.len());
                }
            },
            FlowOperation::Host => {
                proof {
                    assert(false);
                }
            },
            FlowOperation::Call { function, arguments, states, .. } => {
                if sorted_ids_contain(locals, id) {
                    let last = arguments.len() - *states as usize;
                    self.push(*function);
                    self.push_links(arguments, last);
                }
            },
            FlowOperation::GlobalSet { source, .. } => self.push(*source),
            FlowOperation::TableGet { source } | FlowOperation::MemoryLoad { source } => {
                if sorted_ids_contain(locals, id) {
                    self.push(source.offset);
                }
            },
            FlowOperation::TableSet { destination, source }
            | FlowOperation::MemoryStore { destination, source } => {
                self.push(destination.offset);
                self.push(*source);
            },
            FlowOperation::TableGrow { initializer, size, .. } => {
                if sorted_ids_contain(locals, id) {
                    self.push(*initializer);
                    self.push(*size);
                }
            },
            FlowOperation::TableFill { destination, source, size } => {
                self.push(destination.offset);
                self.push(*source);
                self.push(*size);
            },
            FlowOperation::TableCopy { destination, source, size }
            | FlowOperation::MemoryCopy { destination, source, size }
            | FlowOperation::TableInit { destination, source, size }
            | FlowOperation::MemoryInit { destination, source, size } => {
                self.push(destination.offset);
                self.push(source.offset);
                self.push(*size);
            },
            FlowOperation::MemoryGrow { size, .. } => {
                if sorted_ids_contain(locals, id) {
                    self.push(*size);
                }
            },
            FlowOperation::MemoryFill { destination, byte, size } => {
                self.push(destination.offset);
                self.push(*byte);
                self.push(*size);
            },
        }
        proof {
            assert(self.pending() =~= old(self).pending() + producers(*node, id, locals@));
        }
    }

    fn push_continuations(&mut self, node: &FlowNode, port: u16)
        requires
            !(node.operation is Host),
            call_states_fit(*node),
            node.operation matches FlowOperation::Call { results, states, .. } ==> port < results
                + states,
        ensures
            final(self).pending() == old(self).pending() + continuations(*node, port),
    {
        match &node.operation {
            FlowOperation::LambdaIn { .. }
            | FlowOperation::LambdaOut { .. }
            | FlowOperation::RegionIn
            | FlowOperation::RegionOut { .. }
            | FlowOperation::GammaIn { .. }
            | FlowOperation::GammaOut { .. }
            | FlowOperation::ThetaIn { .. }
            | FlowOperation::ThetaOut { .. }
            | FlowOperation::OmegaIn
            | FlowOperation::OmegaOut
            | FlowOperation::Trap
            | FlowOperation::Null
            | FlowOperation::I32
            | FlowOperation::I64
            | FlowOperation::F32
            | FlowOperation::F64
            | FlowOperation::GlobalNew
            | FlowOperation::GlobalGet { .. }
            | FlowOperation::TableNew
            | FlowOperation::ElementsNew
            | FlowOperation::MemoryNew
            | FlowOperation::DataNew => {},
            FlowOperation::Import
            | FlowOperation::Identity
            | FlowOperation::Merge { .. }
            | FlowOperation::RefIsNull
            | FlowOperation::IntegerUnaryOperation
            | FlowOperation::IntegerBinaryOperation
            | FlowOperation::IntegerCompareOperation
            | FlowOperation::IntegerNarrow
            | FlowOperation::IntegerWiden
            | FlowOperation::IntegerExtend
            | FlowOperation::IntegerConvertToNumber
            | FlowOperation::IntegerTransmuteToNumber
            | FlowOperation::NumberUnaryOperation
            | FlowOperation::NumberBinaryOperation
            | FlowOperation::NumberCompareOperation
            | FlowOperation::NumberNarrow
            | FlowOperation::NumberWiden
            | FlowOperation::NumberTruncateToInteger
            | FlowOperation::NumberTransmuteToInteger
            | FlowOperation::ElementsDrop { .. }
            | FlowOperation::DataDrop { .. } => self.push_links(&node.inputs, node.inputs.len()),
            FlowOperation::Host => {
                proof {
                    assert(false);
                }
            },
            FlowOperation::Call { arguments, results, states, .. } => {
                if let Some(result) = port.checked_sub(*results) {
                    let position = arguments.len() - *states as usize + result as usize;
                    self.push(arguments[position]);
                } else {
                    let end = arguments.len() - *states as usize;
                    self.push_links(arguments, end);
                }
            },
            FlowOperation::GlobalSet { destination, .. } => self.push(*destination),
            FlowOperation::TableGet { source } => {
                if port == RESULT_PORT {
                    self.push(source.offset);
                } else if port == STATE_PORT {
                    self.push(source.reference);
                }
            },
            FlowOperation::TableSet { destination, .. } => self.push(destination.reference),
            FlowOperation::TableSize { source } => {
                if port == STATE_PORT {
                    self.push(*source);
                }
            },
            FlowOperation::TableGrow { destination, initializer, size } => {
                if port == RESULT_PORT {
                    self.push(*initializer);
                    self.push(*size);
                } else if port == STATE_PORT {
                    self.push(*destination);
                }
            },
            FlowOperation::TableFill { destination, .. }
            | FlowOperation::MemoryStore { destination, .. }
            | FlowOperation::MemoryFill { destination, .. } => self.push(destination.reference),
            FlowOperation::TableCopy { destination, source, .. } => {
                if port == DESTINATION_STATE_PORT {
                    self.push(destination.reference);
                } else if port == SOURCE_STATE_PORT {
                    self.push(source.reference);
                }
            },
            FlowOperation::TableInit { destination, source, .. } => {
                if port == DESTINATION_STATE_PORT {
                    self.push(destination.reference);
                } else if port == SOURCE_STATE_PORT {
                    self.push(source.reference);
                }
            },
            FlowOperation::MemoryLoad { source } => {
                if port == RESULT_PORT {
                    self.push(source.offset);
                } else if port == STATE_PORT {
                    self.push(source.reference);
                }
            },
            FlowOperation::MemorySize { source } => {
                if port == STATE_PORT {
                    self.push(*source);
                }
            },
            FlowOperation::MemoryGrow { destination, size } => {
                if port == RESULT_PORT {
                    self.push(*size);
                } else if port == STATE_PORT {
                    self.push(*destination);
                }
            },
            FlowOperation::MemoryCopy { destination, source, .. } => {
                if port == DESTINATION_STATE_PORT {
                    self.push(destination.reference);
                } else if port == SOURCE_STATE_PORT {
                    self.push(source.reference);
                }
            },
            FlowOperation::MemoryInit { destination, source, .. } => {
                if port == DESTINATION_STATE_PORT {
                    self.push(destination.reference);
                } else if port == SOURCE_STATE_PORT {
                    self.push(source.reference);
                }
            },
        }
        proof {
            assert(self.pending() =~= old(self).pending() + continuations(*node, port));
        }
    }

    fn pop_producers(
        &mut self,
        lifetimes: &mut LinkLifetimes,
        graph: &[FlowNode],
        until: u32,
        locals: &[u32],
    )
        requires
            is_flow_graph(graph@),
            is_sorted_ids(locals@),
            forall|i: int| 0 <= i < old(self).pending().len() ==> link_ok(graph@, #[trigger] old(self).pending()[i]),
        ensures
            final(self).is_idle(),
            lifetimes_of(*final(lifetimes)) == raise(
                lifetimes_of(*old(lifetimes)),
                found_below(graph@, locals@, old(self).pending(), graph@.len() as int),
                until,
            ),
    {
        let ghost g = graph@;
        let ghost n = graph@.len() as int;
        let ghost start = self.pending();
        let ghost m0 = lifetimes_of(*lifetimes);
        let ghost mut done: Set<Link> = Set::empty();
        proof {
            assert(done.union(found_below(g, locals@, self.pending(), n)) =~= found_below(g, locals@, start, n));
            assert(raise(m0, done, until) =~= m0);
        }
        loop
            invariant
                g == graph@,
                n == g.len(),
                is_flow_graph(g),
                is_sorted_ids(locals@),
                forall|i: int| 0 <= i < self.pending().len() ==> link_ok(g, #[trigger] self.pending()[i]),
                found_below(g, locals@, start, n) == done.union(found_below(g, locals@, self.pending(), n)),
                lifetimes_of(*lifetimes) == raise(m0, done, until),
            ensures
                self.is_idle(),
                lifetimes_of(*lifetimes) == raise(m0, found_below(g, locals@, start, n), until),
            decreases walk_below(g, locals@, self.pending(), n),
        {
            let ghost before = self.pending();
            match self.stack.pop() {
                None => {
                    proof {
                        assert(done.union(Set::empty()) =~= done);
                    }
                    break;
                },
                Some(pair) => {
                    let link = Link { node: pair.0, port: pair.1 };
                    proof {
                        assert(self.pending() =~= before.drop_last());
                        assert(before.last() == link);
                        assert(link_ok(g, before[before.len() - 1]));
                    }
                    let node = &graph[link.node as usize];
                    proof {
                        assert(!(g[link.node as int].operation is Host));
                        assert(call_states_fit(g[link.node as int]));
                    }
                    proof {
                        assert(found_below(g, locals@, before, n) == found_below(g, locals@, before.drop_last(), n).union(found(g, locals@, link)));
                        assert(walk_below(g, locals@, before, n) == walk_below(g, locals@, before.drop_last(), n) + walk(g, locals@, link));
                    }
                    if has_local_result(node, link.node, link.port, locals) {
                        set_max_lifetime(link, until, lifetimes);
                        proof {
                            lemma_raise_more(m0, done, link, until);
                            assert(found(g, locals@, link) == set![link]);
                            done = done.insert(link);
                            assert(found_below(g, locals@, start, n) =~= done.union(found_below(g, locals@, self.pending(), n)));
                        }
                    } else {
                        let ghost rest = self.pending();
                        self.push_continuations(node, link.port);
                        proof {
                            let next = continuations(g[link.node as int], link.port);
                            assert forall|j: int| 0 <= j < next.len() implies next[j].node < link.node
                                && link_ok(g, #[trigger] next[j]) by {
                                lemma_continuations_held(g[link.node as int], link.port, j);
                            }
                            lemma_below_rebound(g, locals@, next, link.node as int, n);
                            lemma_below_append(g, locals@, rest, next, n);
                            assert(found(g, locals@, link) == found_below(g, locals@, next, link.node as int));
                            assert(walk(g, locals@, link) == 1 + walk_below(g, locals@, next, link.node as int));
                            assert forall|i: int| 0 <= i < self.pending().len() implies link_ok(g, #[trigger] self.pending()[i]) by {
                                if i < rest.len() {
                                    assert(self.pending()[i] == rest[i]);
                                    assert(rest[i] == before[i]);
                                } else {
                                    assert(self.pending()[i] == next[i - rest.len()]);
                                }
                            }
                            assert(found_below(g, locals@, start, n) =~= done.union(found_below(g, locals@, self.pending(), n)));
                        }
                    }
                },
            }
        }
    }

    /// Records in `lifetimes` how long the value of each local output of
    /// `graph` lives, given the sorted ids of the nodes whose values are
    /// locals: until the last node that reads it, directly or through
    /// nodes whose outputs are computed again where they are read.
    pub fn run(&mut self, lifetimes: &mut LinkLifetimes, graph: &[FlowNode], locals: &[u32])
        requires
            old(self).is_idle(),
            is_flow_graph(graph@),
            is_sorted_ids(locals@),
        ensures
            final(self).is_idle(),
            lifetimes_of(*final(lifetimes)) == graph_lifetimes(graph@, locals@),
    {
        lifetimes.clear();
        let ghost g = graph@;
        let ghost n = graph@.len() as int;
        proof {
            assert(lifetimes_of(*lifetimes) =~= lifetimes_within(g, locals@, 0));
        }
        let mut id: u32 = 0;
        while (id as usize) < graph.len()
            invariant
                g == graph@,
                n == g.len(),
                is_flow_graph(g),
                is_sorted_ids(locals@),
                id <= n,
                self.is_idle(),
                lifetimes_of(*lifetimes) == lifetimes_within(g, locals@, id as nat),
            decreases n - id,
        {
            let node = &graph[id as usize];
            proof {
                assert(!(g[id as int].operation is Host));
                assert(call_states_fit(g[id as int]));
                assert(self.pending() =~= Seq::<Link>::empty());
            }
            self.push_producers(node, id, locals);
            let ghost pushed = self.stack@;
            sort_pairs(&mut self.stack);
            let ghost sorted = self.stack@;
            dedup_pairs(&mut self.stack);
            proof {
                let reads = producers(g[id as int], id, locals@);
                assert(pair_links(pushed) =~= reads);
                assert forall|p: (u32, u16)| #[trigger] self.stack@.contains(p) <==> pushed.contains(p) by {
                    lemma_without_repeats_contains(sorted, p);
                    vstd::seq_lib::to_multiset_contains(sorted, p);
                    vstd::seq_lib::to_multiset_contains(pushed, p);
                }
                lemma_pair_links_same(self.stack@, pushed);
                lemma_found_below_same_links(g, locals@, self.pending(), reads, n);
                assert forall|i: int| 0 <= i < self.pending().len() implies link_ok(g, #[trigger] self.pending()[i]) by {
                    let l = self.pending()[i];
                    assert(self.pending().contains(l));
                    assert(reads.contains(l));
                    let k = choose|k: int| 0 <= k < reads.len() && reads[k] == l;
                    lemma_producers_held(g[id as int], id, locals@, k);
                }
            }
            self.pop_producers(lifetimes, graph, id, locals);
            proof {
                let reads = read_by(g, locals@, id as int);
                assert forall|link: Link| #[trigger] lifetimes_within(g, locals@, id as nat).contains_key(link) implies
                    lifetimes_within(g, locals@, id as nat)[link] < id by {
                    lemma_last_reader_before(g, locals@, link, id as nat);
                }
                assert(lifetimes_of(*lifetimes) =~= lifetimes_within(g, locals@, (id + 1) as nat));
            }
            id += 1;
        }
    }
}

/// Every local output that a node reads lives at least until that node.
pub proof fn lemma_lifetime_covers_every_read(g: Seq<FlowNode>, locals: Seq<u32>, id: int, link: Link)
    requires
        is_flow_graph(g),
        0 <= id < g.len(),
        read_by(g, locals, id).contains(link),
    ensures
        graph_lifetimes(g, locals).contains_key(link),
        graph_lifetimes(g, locals)[link] >= id,
{
    lemma_last_reader_at_least(g, locals, link, id, g.len());
}

proof fn lemma_last_reader_at_least(g: Seq<FlowNode>, locals: Seq<u32>, link: Link, id: int, count: nat)
    requires
        0 <= id < count <= u32::MAX + 1,
        read_by(g, locals, id).contains(link),
    ensures
        last_reader(g, locals, link, count) matches Some(last) && last >= id,
    decreases count,
{
    if !read_by(g, locals, count - 1).contains(link) {
        lemma_last_reader_at_least(g, locals, link, id, (count - 1) as nat);
    }
}

proof fn lemma_found_is_local(g: Seq<FlowNode>, locals: Seq<u32>, link: Link, x: Link)
    requires
        found(g, locals, link).contains(x),
    ensures
        x.node < g.len(),
        local_result(g[x.node as int], x.node, x.port, locals),
    decreases link.node as int, 1int, 0int,
{
    if link.node < g.len() && !local_result(g[link.node as int], link.node, link.port, locals) {
        lemma_found_below_is_local(g, locals, continuations(g[link.node as int], link.port), link.node as int, x);
    }
}

proof fn lemma_found_below_is_local(g: Seq<FlowNode>, locals: Seq<u32>, links: Seq<Link>, bound: int, x: Link)
    requires
        found_below(g, locals, links, bound).contains(x),
    ensures
        x.node < g.len(),
        local_result(g[x.node as int], x.node, x.port, locals),
    decreases bound, 0int, links.len(),
{
    let last = links.last();
    if found_below(g, locals, links.drop_last(), bound).contains(x) {
        lemma_found_below_is_local(g, locals, links.drop_last(), bound, x);
    } else {
        lemma_found_is_local(g, locals, last, x);
    }
}

/// Only outputs kept in locals get a lifetime, and each lives until a node
/// of the graph that reads it.
pub proof fn lemma_only_locals_live(g: Seq<FlowNode>, locals: Seq<u32>, link: Link)
    requires
        is_flow_graph(g),
        graph_lifetimes(g, locals).contains_key(link),
    ensures
        link.node < g.len(),
        local_result(g[link.node as int], link.node, link.port, locals),
        graph_lifetimes(g, locals)[link] < g.len(),
        read_by(g, locals, graph_lifetimes(g, locals)[link] as int).contains(link),
{
    lemma_last_reader_reads(g, locals, link, g.len());
    let id = graph_lifetimes(g, locals)[link] as int;
    lemma_found_below_is_local(g, locals, producers(g[id], id as u32, locals), g.len() as int, link);
}

proof fn lemma_last_reader_reads(g: Seq<FlowNode>, locals: Seq<u32>, link: Link, count: nat)
    requires
        count <= u32::MAX + 1,
    ensures
        last_reader(g, locals, link, count) matches Some(id) ==> id < count && read_by(
            g,
            locals,
            id as int,
        ).contains(link),
    decreases count,
{
    if count > 0 {
        lemma_last_reader_reads(g, locals, link, (count - 1) as nat);
    }
}

} // verus!
