//! Which nodes of a data-flow graph keep their values in locals: those
//! read out of order, those that cross region boundaries, those whose
//! values feed states, and those whose results are read more than once or
//! must be kept for their effect.

use vstd::prelude::*;

use crate::flow::{FlowNode, FlowOperation, RESULT_PORT};
use crate::ir::Link;
use crate::lifetime_finder::{
    call_states_fit, holds_link, is_sorted_ids, lemma_without_repeats_contains, without_repeats,
};
use crate::reference_finder::{
    reads_at_most, reads_later_result, result_count, result_count_fits, result_count_of,
    value_reads, ReferenceFinder,
};

verus! {

/// Whether a gamma exit with other than two regions names the entry it
/// belongs to.
pub open spec fn gamma_out_fits(g: Seq<FlowNode>, node: FlowNode) -> bool {
    match node.operation {
        FlowOperation::GammaOut { input, region_count } => region_count != 2 ==> input < g.len()
            && g[input as int].operation is GammaIn,
        _ => true,
    }
}

/// Whether `g` is a data-flow graph that the local finder handles: its
/// nodes can be numbered by `u32`, the states of each call are among its
/// arguments, each result count fits a port number, every link names a
/// node of the graph, and every gamma exit that needs it names its entry.
pub open spec fn is_local_graph(g: Seq<FlowNode>) -> bool {
    &&& g.len() <= u32::MAX
    &&& forall|k: int| 0 <= k < g.len() ==> #[trigger] call_states_fit(g[k])
    &&& forall|k: int| 0 <= k < g.len() ==> #[trigger] result_count_fits(g[k])
    &&& forall|k: int| 0 <= k < g.len() ==> #[trigger] gamma_out_fits(g, g[k])
    &&& forall|k: int, link: Link|
        0 <= k < g.len() && #[trigger] holds_link(g[k], link) ==> link.node < g.len()
}

/// The nodes that `links` read.
pub open spec fn link_ids(links: Seq<Link>) -> Seq<u32> {
    links.map_values(|link: Link| link.node)
}

/// Scanning `links` in order, the nodes read before a node already read
/// with a later id, and the latest id read so far: only value results
/// count.
pub open spec fn sequence_scan(g: Seq<FlowNode>, links: Seq<Link>) -> (Seq<u32>, u32)
    decreases links.len(),
{
    if links.len() == 0 {
        (Seq::empty(), 0)
    } else {
        let (pushed, parameter) = sequence_scan(g, links.drop_last());
        let link = links.last();
        if link.port >= result_count(g[link.node as int]) {
            (pushed, parameter)
        } else if link.node >= parameter {
            (pushed, link.node)
        } else {
            (pushed.push(link.node), parameter)
        }
    }
}

/// The nodes that `node` reads out of order.
pub open spec fn sequence_locals(g: Seq<FlowNode>, node: FlowNode) -> Seq<u32> {
    sequence_scan(g, node.inputs@).0
}

/// Whether `link` reads a value result of its node.
pub open spec fn reads_value(g: Seq<FlowNode>, link: Link) -> bool {
    link.port < result_count(g[link.node as int])
}

proof fn lemma_scan_parameter(g: Seq<FlowNode>, links: Seq<Link>, i: int)
    requires
        0 <= i < links.len(),
        reads_value(g, links[i]),
    ensures
        sequence_scan(g, links).1 >= links[i].node,
    decreases links.len(),
{
    if i < links.len() - 1 {
        lemma_scan_parameter(g, links.drop_last(), i);
    }
}

proof fn lemma_scan_keeps(g: Seq<FlowNode>, links: Seq<Link>, k: int, x: u32)
    requires
        0 <= k <= links.len(),
        sequence_scan(g, links.subrange(0, k)).0.contains(x),
    ensures
        sequence_scan(g, links).0.contains(x),
    decreases links.len() - k,
{
    if k < links.len() {
        let next = links.subrange(0, k + 1);
        assert(next.drop_last() =~= links.subrange(0, k));
        let pushed = sequence_scan(g, links.subrange(0, k)).0;
        let i = choose|i: int| 0 <= i < pushed.len() && pushed[i] == x;
        assert(sequence_scan(g, next).0[i] == x);
        lemma_scan_keeps(g, links, k + 1, x);
    } else {
        assert(links.subrange(0, k) =~= links);
    }
}

/// A node read out of order keeps its value in a local: when a node reads
/// a value result of some node after one of a later node, the earlier node
/// is among the locals the reading node finds.
pub proof fn lemma_out_of_order_reads_are_locals(g: Seq<FlowNode>, node: FlowNode, i: int, j: int)
    requires
        0 <= i < j < node.inputs@.len(),
        reads_value(g, node.inputs@[i]),
        reads_value(g, node.inputs@[j]),
        node.inputs@[j].node < node.inputs@[i].node,
    ensures
        sequence_locals(g, node).contains(node.inputs@[j].node),
{
    let links = node.inputs@;
    let before = links.subrange(0, j);
    let upto = links.subrange(0, j + 1);
    assert(before[i] == links[i]);
    lemma_scan_parameter(g, before, i);
    assert(upto.drop_last() =~= before);
    assert(upto.last() == links[j]);
    let pushed = sequence_scan(g, upto).0;
    assert(pushed[pushed.len() - 1] == links[j].node);
    lemma_scan_keeps(g, links, j + 1, links[j].node);
}

/// The nodes whose values cross the region boundary that `node` marks.
pub open spec fn region_locals(g: Seq<FlowNode>, node: FlowNode) -> Seq<u32> {
    match node.operation {
        FlowOperation::RegionOut { results } | FlowOperation::LambdaOut { results } => link_ids(
            results@,
        ),
        FlowOperation::GammaIn { arguments, .. } | FlowOperation::ThetaIn { arguments } => link_ids(
            arguments@,
        ),
        FlowOperation::GammaOut { input, region_count } => if region_count == 2 {
            Seq::empty()
        } else {
            match g[input as int].operation {
                FlowOperation::GammaIn { condition, .. } => seq![condition.node],
                _ => Seq::empty(),
            }
        },
        FlowOperation::ThetaOut { condition, results } => seq![condition.node] + link_ids(
            results@,
        ),
        _ => Seq::empty(),
    }
}

/// The node of `link` when `link` is one of its value results.
pub open spec fn state_producer(g: Seq<FlowNode>, link: Link) -> Seq<u32> {
    if result_count(g[link.node as int]) > link.port {
        seq![link.node]
    } else {
        Seq::empty()
    }
}

/// The nodes of those of `links` that are value results.
pub open spec fn state_producers(g: Seq<FlowNode>, links: Seq<Link>) -> Seq<u32>
    decreases links.len(),
{
    if links.len() == 0 {
        Seq::empty()
    } else {
        state_producers(g, links.drop_last()) + state_producer(g, links.last())
    }
}

/// The nodes whose value results `node` takes where it takes a state.
pub open spec fn state_locals(g: Seq<FlowNode>, node: FlowNode) -> Seq<u32> {
    match node.operation {
        FlowOperation::Call { arguments, states, .. } => state_producers(
            g,
            arguments@.subrange(arguments@.len() - states, arguments@.len() as int),
        ),
        FlowOperation::Merge { states } => state_producers(g, states@),
        FlowOperation::GlobalGet { source }
        | FlowOperation::TableSize { source }
        | FlowOperation::ElementsDrop { source }
        | FlowOperation::MemorySize { source }
        | FlowOperation::DataDrop { source } => state_producer(g, source),
        FlowOperation::GlobalSet { destination, .. }
        | FlowOperation::TableGrow { destination, .. }
        | FlowOperation::MemoryGrow { destination, .. } => state_producer(g, destination),
        FlowOperation::TableGet { source } | FlowOperation::MemoryLoad { source } => state_producer(
            g,
            source.reference,
        ),
        FlowOperation::TableSet { destination, .. }
        | FlowOperation::TableFill { destination, .. }
        | FlowOperation::MemoryStore { destination, .. }
        | FlowOperation::MemoryFill { destination, .. } => state_producer(
            g,
            destination.reference,
        ),
        FlowOperation::TableCopy { destination, source, .. }
        | FlowOperation::TableInit { destination, source, .. }
        | FlowOperation::MemoryCopy { destination, source, .. }
        | FlowOperation::MemoryInit { destination, source, .. } => state_producer(
            g,
            destination.reference,
        ) + state_producer(g, source.reference),
        _ => Seq::empty(),
    }
}

/// Whether node `id` keeps its own values in locals: a trap, a call or a
/// growth whose results are not all left unread, or a node whose value
/// results are read twice or whose later results are read.
pub open spec fn keeps_itself(uses: Seq<Seq<u16>>, id: int, node: FlowNode) -> bool {
    let own = match node.operation {
        FlowOperation::Trap => true,
        FlowOperation::Call { results, .. } => results >= 1 && !reads_at_most(
            uses,
            id,
            (results - 1) as u16,
        ),
        FlowOperation::TableGrow { .. } | FlowOperation::MemoryGrow { .. } => !reads_at_most(
            uses,
            id,
            RESULT_PORT,
        ),
        _ => false,
    };
    own || value_reads(uses, id, node, uses[id].len()) >= 2 || reads_later_result(uses, id, node)
}

/// The nodes that visiting node `id` of `g` keeps in locals, in the order
/// they are found.
pub open spec fn node_locals(g: Seq<FlowNode>, uses: Seq<Seq<u16>>, id: int) -> Seq<u32> {
    sequence_locals(g, g[id]) + region_locals(g, g[id]) + state_locals(g, g[id]) + if keeps_itself(
        uses,
        id,
        g[id],
    ) {
        seq![id as u32]
    } else {
        Seq::empty()
    }
}

/// The nodes that visiting the first `count` nodes of `g` keeps in
/// locals, in the order they are found.
pub open spec fn locals_within(g: Seq<FlowNode>, uses: Seq<Seq<u16>>, count: nat) -> Seq<u32>
    decreases count,
{
    if count == 0 {
        Seq::empty()
    } else {
        locals_within(g, uses, (count - 1) as nat) + node_locals(g, uses, count - 1)
    }
}

/// Whether `ids` is in strictly increasing order.
pub open spec fn is_strictly_increasing(ids: Seq<u32>) -> bool {
    forall|i: int, j: int| 0 <= i < j < ids.len() ==> ids[i] < ids[j]
}

/// Sorts ids in increasing order.
///
/// Calls `slice::sort_unstable`, which the standard library documents as
/// sorting the slice in ascending order, keeping every element.
#[verifier::external_body]
fn sort_ids(ids: &mut Vec<u32>)
    ensures
        final(ids)@.to_multiset() == old(ids)@.to_multiset(),
        is_sorted_ids(final(ids)@),
{
    ids.sort_unstable();
}

/// Removes consecutive repeated ids, keeping one of each run.
fn dedup_ids(ids: &mut Vec<u32>)
    ensures
        final(ids)@ == without_repeats(old(ids)@),
{
    let mut kept: Vec<u32> = Vec::new();
    let mut i: usize = 0;
    while i < ids.len()
        invariant
            i <= ids@.len(),
            ids@ == old(ids)@,
            kept@ == without_repeats(ids@.take(i as int)),
        decreases ids@.len() - i,
    {
        let current = ids[i];
        if i == 0 || current != ids[i - 1] {
            kept.push(current);
        }
        proof {
            let t = ids@.take(i + 1);
            assert(t.drop_last() =~= ids@.take(i as int));
            if i == 0 {
                assert(kept@ =~= t);
            } else {
                assert(t[t.len() - 2] == ids@[i - 1]);
            }
        }
        i += 1;
    }
    assert(ids@.take(ids@.len() as int) =~= ids@);
    *ids = kept;
}

proof fn lemma_without_repeats_sorted(s: Seq<u32>)
    requires
        is_sorted_ids(s),
    ensures
        is_strictly_increasing(without_repeats(s)),
        without_repeats(s).len() > 0 ==> s.len() > 0 && without_repeats(s).last() == s.last(),
    decreases s.len(),
{
    if s.len() > 1 {
        let d = s.drop_last();
        lemma_without_repeats_sorted(d);
        let r = without_repeats(d);
        assert(r.len() > 0) by {
            assert(d.len() > 0);
            if r.len() == 0 {
                assert(r == d.drop_last()) by {
                    if d.len() > 1 {
                        lemma_without_repeats_contains(d, d[0]);
                        assert(d.contains(d[0]));
                    }
                };
                lemma_without_repeats_contains(d, d[0]);
                assert(d.contains(d[0]));
            }
        }
        assert(r.last() == d.last());
        assert(d.last() == s[s.len() - 2]);
    }
}

fn handle_link_list(locals: &mut Vec<u32>, list: &Vec<Link>)
    ensures
        final(locals)@ == old(locals)@ + link_ids(list@),
{
    let mut k: usize = 0;
    while k < list.len()
        invariant
            k <= list@.len(),
            locals@ == old(locals)@ + link_ids(list@.subrange(0, k as int)),
        decreases list@.len() - k,
    {
        locals.push(list[k].node);
        k += 1;
        proof {
            assert(link_ids(list@.subrange(0, k as int)) =~= link_ids(list@.subrange(0, k - 1)).push(
                list@[k - 1].node,
            ));
            assert(locals@ =~= old(locals)@ + link_ids(list@.subrange(0, k as int)));
        }
    }
    proof {
        assert(list@.subrange(0, list@.len() as int) =~= list@);
    }
}

// We localize any predecessors that appear out of order relative
// to their position in the topological order.
fn localize_sequences(locals: &mut Vec<u32>, graph: &[FlowNode], node: &FlowNode)
    requires
        is_local_graph(graph@),
        forall|link: Link| #[trigger] holds_link(*node, link) ==> link.node < graph@.len(),
    ensures
        final(locals)@ == old(locals)@ + sequence_locals(graph@, *node),
{
    let ghost g = graph@;
    let mut parameter: u32 = 0;
    let mut k: usize = 0;
    while k < node.inputs.len()
        invariant
            g == graph@,
            is_local_graph(g),
            forall|link: Link| #[trigger] holds_link(*node, link) ==> link.node < g.len(),
            k <= node.inputs@.len(),
            locals@ == old(locals)@ + sequence_scan(g, node.inputs@.subrange(0, k as int)).0,
            parameter == sequence_scan(g, node.inputs@.subrange(0, k as int)).1,
        decreases node.inputs@.len() - k,
    {
        let link = node.inputs[k];
        proof {
            assert(holds_link(*node, link));
            assert(node.inputs@.subrange(0, k + 1).drop_last() =~= node.inputs@.subrange(
                0,
                k as int,
            ));
        }
        if link.port >= result_count_of(&graph[link.node as usize]) {
        } else if link.node >= parameter {
            parameter = link.node;
        } else {
            locals.push(link.node);
        }
        k += 1;
    }
    proof {
        assert(node.inputs@.subrange(0, node.inputs@.len() as int) =~= node.inputs@);
    }
}

fn handle_gamma_out(locals: &mut Vec<u32>, graph: &[FlowNode], input: u32, region_count: usize)
    requires
        region_count != 2 ==> input < graph@.len() && graph@[input as int].operation is GammaIn,
    ensures
        final(locals)@ == old(locals)@ + (if region_count == 2 {
            Seq::empty()
        } else {
            match graph@[input as int].operation {
                FlowOperation::GammaIn { condition, .. } => seq![condition.node],
                _ => Seq::empty(),
            }
        }),
{
    if region_count == 2 {
        proof {
            assert(locals@ =~= old(locals)@ + Seq::<u32>::empty());
        }
        return ;
    }
    match &graph[input as usize].operation {
        FlowOperation::GammaIn { condition, .. } => locals.push(condition.node),
        _ => {
            proof {
                assert(false);
            }
        },
    }
}

fn handle_theta_out(locals: &mut Vec<u32>, condition: Link, results: &Vec<Link>)
    ensures
        final(locals)@ == old(locals)@ + (seq![condition.node] + link_ids(results@)),
{
    locals.push(condition.node);
    handle_link_list(locals, results);
    proof {
        assert(locals@ =~= old(locals)@ + (seq![condition.node] + link_ids(results@)));
    }
}

fn localize_regions(locals: &mut Vec<u32>, graph: &[FlowNode], node: &FlowNode)
    requires
        gamma_out_fits(graph@, *node),
    ensures
        final(locals)@ == old(locals)@ + region_locals(graph@, *node),
{
    match &node.operation {
        FlowOperation::RegionOut { results } => handle_link_list(locals, results),
        FlowOperation::GammaIn { arguments, .. } => handle_link_list(locals, arguments),
        FlowOperation::GammaOut { input, region_count } => handle_gamma_out(
            locals,
            graph,
            *input,
            *region_count,
        ),
        FlowOperation::ThetaIn { arguments } => handle_link_list(locals, arguments),
        FlowOperation::ThetaOut { condition, results } => handle_theta_out(
            locals,
            *condition,
            results,
        ),
        FlowOperation::LambdaOut { results } => handle_link_list(locals, results),
        _ => {
            proof {
                assert(locals@ =~= old(locals)@ + region_locals(graph@, *node));
            }
        },
    }
}

// If a state input takes from a value output then we should localize the value.
fn handle_state_producer(locals: &mut Vec<u32>, graph: &[FlowNode], link: Link)
    requires
        link.node < graph@.len(),
        result_count_fits(graph@[link.node as int]),
    ensures
        final(locals)@ == old(locals)@ + state_producer(graph@, link),
{
    let node = &graph[link.node as usize];
    if result_count_of(node) > link.port {
        locals.push(link.node);
    }
    proof {
        assert(locals@ =~= old(locals)@ + state_producer(graph@, link));
    }
}

fn handle_state_producers(locals: &mut Vec<u32>, graph: &[FlowNode], links: &Vec<Link>, start: usize)
    requires
        is_local_graph(graph@),
        start <= links@.len(),
        forall|k: int| 0 <= k < links@.len() ==> #[trigger] links@[k].node < graph@.len(),
    ensures
        final(locals)@ == old(locals)@ + state_producers(graph@, links@.subrange(start as int, links@.len() as int)),
{
    let mut k: usize = start;
    while k < links.len()
        invariant
            is_local_graph(graph@),
            start <= k <= links@.len(),
            forall|j: int| 0 <= j < links@.len() ==> #[trigger] links@[j].node < graph@.len(),
            locals@ == old(locals)@ + state_producers(graph@, links@.subrange(start as int, k as int)),
        decreases links@.len() - k,
    {
        let link = links[k];
        proof {
            assert(links@[k as int].node < graph@.len());
            assert(result_count_fits(graph@[link.node as int]));
        }
        handle_state_producer(locals, graph, link);
        k += 1;
        proof {
            let s = links@.subrange(start as int, k as int);
            assert(s.drop_last() =~= links@.subrange(start as int, k - 1));
            assert(s.last() == link);
            assert(locals@ =~= old(locals)@ + state_producers(graph@, s));
        }
    }
}

fn localize_state_producer(locals: &mut Vec<u32>, graph: &[FlowNode], node: &FlowNode)
    requires
        is_local_graph(graph@),
        call_states_fit(*node),
        forall|link: Link| #[trigger] holds_link(*node, link) ==> link.node < graph@.len(),
    ensures
        final(locals)@ == old(locals)@ + state_locals(graph@, *node),
{
    let ghost g = graph@;
    proof {
        assert(forall|j: int| 0 <= j < crate::lifetime_finder::field_links(*node).len() ==> holds_link(*node, #[trigger] crate::lifetime_finder::field_links(*node)[j]));
    }
    match &node.operation {
        FlowOperation::Call { function, arguments, states, .. } => {
            proof {
                assert forall|k: int| 0 <= k < arguments@.len() implies #[trigger] arguments@[k].node < g.len() by {
                    assert(crate::lifetime_finder::field_links(*node)[k + 1] == arguments@[k]);
                }
            }
            handle_state_producers(locals, graph, arguments, arguments.len() - *states as usize);
        },
        FlowOperation::Merge { states } => {
            proof {
                assert forall|k: int| 0 <= k < states@.len() implies #[trigger] states@[k].node < g.len() by {
                    assert(crate::lifetime_finder::field_links(*node)[k] == states@[k]);
                }
            }
            handle_state_producers(locals, graph, states, 0);
            proof {
                assert(states@.subrange(0, states@.len() as int) =~= states@);
            }
        },
        FlowOperation::GlobalGet { source }
        | FlowOperation::TableSize { source }
        | FlowOperation::ElementsDrop { source }
        | FlowOperation::MemorySize { source }
        | FlowOperation::DataDrop { source } => {
            proof {
                assert(crate::lifetime_finder::field_links(*node)[0] == *source);
            }
            handle_state_producer(locals, graph, *source)
        },
        FlowOperation::GlobalSet { destination, .. }
        | FlowOperation::TableGrow { destination, .. }
        | FlowOperation::MemoryGrow { destination, .. } => {
            proof {
                assert(crate::lifetime_finder::field_links(*node)[0] == *destination);
            }
            handle_state_producer(locals, graph, *destination)
        },
        FlowOperation::TableGet { source } | FlowOperation::MemoryLoad { source } => {
            proof {
                assert(crate::lifetime_finder::field_links(*node)[0] == source.reference);
            }
            handle_state_producer(locals, graph, source.reference)
        },
        FlowOperation::TableSet { destination, .. }
        | FlowOperation::TableFill { destination, .. }
        | FlowOperation::MemoryStore { destination, .. }
        | FlowOperation::MemoryFill { destination, .. } => {
            proof {
                assert(crate::lifetime_finder::field_links(*node)[0] == destination.reference);
            }
            handle_state_producer(locals, graph, destination.reference)
        },
        FlowOperation::TableCopy { destination, source, .. }
        | FlowOperation::TableInit { destination, source, .. }
        | FlowOperation::MemoryCopy { destination, source, .. }
        | FlowOperation::MemoryInit { destination, source, .. } => {
            proof {
                assert(crate::lifetime_finder::field_links(*node)[0] == destination.reference);
                assert(crate::lifetime_finder::field_links(*node)[2] == source.reference);
            }
            handle_state_producer(locals, graph, destination.reference);
            handle_state_producer(locals, graph, source.reference);
            proof {
                assert(locals@ =~= old(locals)@ + state_locals(g, *node));
            }
        },
        _ => {
            proof {
                assert(locals@ =~= old(locals)@ + state_locals(g, *node));
            }
        },
    }
}

fn should_localize(reference_finder: &ReferenceFinder, id: u32, node: &FlowNode) -> (keep: bool)
    requires
        id < reference_finder.uses().len(),
        result_count_fits(*node),
    ensures
        keep == keeps_itself(reference_finder.uses(), id as int, *node),
{
    let local = match &node.operation {
        FlowOperation::Trap => true,
        FlowOperation::Call { results, .. } => match results.checked_sub(1) {
            Some(port) => !reference_finder.has_result_at(id, port),
            None => false,
        },
        FlowOperation::TableGrow { .. } => !reference_finder.has_result_at(id, RESULT_PORT),
        FlowOperation::MemoryGrow { .. } => !reference_finder.has_result_at(id, RESULT_PORT),
        _ => false,
    };
    local || reference_finder.has_many_uses(id, node) || reference_finder.has_many_results(id, node)
}

/// Fills `locals` with the ids of the nodes of `graph` whose values are
/// kept in locals, in increasing order and each once, using
/// `reference_finder` for how the nodes are read.
pub fn run(locals: &mut Vec<u32>, graph: &[FlowNode], reference_finder: &ReferenceFinder)
    requires
        is_local_graph(graph@),
        graph@.len() <= reference_finder.uses().len(),
    ensures
        is_strictly_increasing(final(locals)@),
        forall|id: u32| #[trigger] final(locals)@.contains(id) <==> locals_within(
            graph@,
            reference_finder.uses(),
            graph@.len(),
        ).contains(id),
{
    let ghost g = graph@;
    let ghost uses = reference_finder.uses();
    locals.clear();
    let mut id: u32 = 0;
    while (id as usize) < graph.len()
        invariant
            g == graph@,
            uses == reference_finder.uses(),
            is_local_graph(g),
            g.len() <= uses.len(),
            id <= g.len(),
            locals@ == locals_within(g, uses, id as nat),
        decreases g.len() - id,
    {
        let node = &graph[id as usize];
        proof {
            assert(call_states_fit(g[id as int]));
            assert(result_count_fits(g[id as int]));
            assert(gamma_out_fits(g, g[id as int]));
        }
        let ghost before = locals@;
        localize_sequences(locals, graph, node);
        localize_regions(locals, graph, node);
        localize_state_producer(locals, graph, node);
        if should_localize(reference_finder, id, node) {
            locals.push(id);
        }
        proof {
            assert(locals@ =~= before + node_locals(g, uses, id as int));
        }
        id += 1;
    }
    let ghost found = locals@;
    sort_ids(locals);
    let ghost sorted = locals@;
    dedup_ids(locals);
    proof {
        lemma_without_repeats_sorted(sorted);
        assert forall|x: u32| #[trigger] locals@.contains(x) <==> found.contains(x) by {
            lemma_without_repeats_contains(sorted, x);
            vstd::seq_lib::to_multiset_contains(sorted, x);
            vstd::seq_lib::to_multiset_contains(found, x);
        }
    }
}

} // verus!
