//! Which outputs of a structured graph should share a local: the state a
//! node passes on shares the local of the state it takes, values passed
//! into or out of a region share the locals of the region's ports, and the
//! branches of a match share the locals of its last branch.

use vstd::prelude::*;

use crate::ir::Link;
use crate::local_allocator::scalar_finder::{value_count_fits, value_port_count, value_port_count_of};
use crate::local_allocator::{
    apply_write, apply_writes, dangling, keeping, lemma_apply_writes_append,
    lemma_written_outputs_have_entries, preferences_of, replacing, PreferenceWrite, Preferences,
    ScopedLink,
};
use crate::region::{Region, RegionNode, RegionOperation};

verus! {

/// Output `port` of node `id` of region `scope`.
pub open spec fn output(id: u32, port: int, scope: usize) -> ScopedLink {
    (Link { node: id, port: port as u16 }, scope)
}

/// The writes that make the first `count` outputs of node `id` of region
/// `scope` prefer no output, unless they have entries.
pub open spec fn keep_ports(id: u32, scope: usize, count: int) -> Seq<PreferenceWrite> {
    Seq::new(count as nat, |port: int| keeping(output(id, port, scope)))
}

/// The write for a state `link` of region `scope`: a state output of its
/// node prefers no output, unless it has an entry.
pub open spec fn state_writes(nodes: Seq<RegionNode>, scope: usize, link: Link) -> Seq<PreferenceWrite> {
    if link.port >= value_port_count(nodes[link.node as int]) {
        seq![keeping((link, scope))]
    } else {
        Seq::empty()
    }
}

/// The writes for node `id` of region `scope` that passes each of `sources`
/// through: each source prefers the output of the same position, and each
/// such output prefers no output, unless it has an entry.
pub open spec fn pass_writes(scope: usize, id: u32, sources: Seq<Link>) -> Seq<PreferenceWrite> {
    Seq::new(
        sources.len(),
        |port: int| replacing((sources[port], scope), output(id, port, scope)),
    ) + keep_ports(id, scope, sources.len() as int)
}

/// The writes for the repetition at node `id` of region `parent`, which
/// starts from `arguments` and repeats a body of identity `inner` yielding
/// `results`: the body's argument ports prefer no output, unless they have
/// entries; the arguments prefer the body's argument ports; the results
/// prefer the argument ports of the same position; and so do the outputs of
/// the repetition.
pub open spec fn repeat_writes(
    parent: usize,
    id: u32,
    arguments: Seq<Link>,
    inner: usize,
    results: Seq<Link>,
) -> Seq<PreferenceWrite> {
    keep_ports(0, inner, arguments.len() as int) + Seq::new(
        arguments.len(),
        |port: int| replacing((arguments[port], parent), output(0, port, inner)),
    ) + Seq::new(
        results.len(),
        |port: int| replacing((results[port], inner), output(0, port, inner)),
    ) + Seq::new(
        arguments.len(),
        |port: int| replacing(output(id, port, parent), output(0, port, inner)),
    )
}

/// The writes that make the argument ports of the first `count` of
/// `branches` prefer those of the branch of identity `last`.
pub open spec fn branch_argument_writes(branches: Seq<Region>, count: int, arguments: int, last: usize) -> Seq<
    PreferenceWrite,
>
    decreases count,
{
    if count <= 0 {
        Seq::empty()
    } else {
        branch_argument_writes(branches, count - 1, arguments, last) + Seq::new(
            arguments as nat,
            |port: int| replacing(output(0, port, branches[count - 1].scope), output(0, port, last)),
        )
    }
}

/// The writes that make the results of the first `count` of `branches`
/// prefer the results of the same position of `last`.
pub open spec fn branch_result_writes(branches: Seq<Region>, count: int, last: Region) -> Seq<
    PreferenceWrite,
>
    decreases count,
{
    if count <= 0 {
        Seq::empty()
    } else {
        let branch = branches[count - 1];
        let shared = if branch.results@.len() <= last.results@.len() {
            branch.results@.len()
        } else {
            last.results@.len()
        };
        branch_result_writes(branches, count - 1, last) + Seq::new(
            shared,
            |port: int|
                replacing((branch.results@[port], branch.scope), (last.results@[port], last.scope)),
        )
    }
}

/// The writes for the match at node `id` of region `parent` on `condition`,
/// passing `arguments` into `branches`: every branch shares the argument
/// ports and results of the last branch, whose argument ports the arguments
/// prefer and whose results the outputs of the match prefer; a match with
/// other than two branches keeps its condition in a local.
pub open spec fn match_writes(
    parent: usize,
    id: u32,
    condition: Link,
    arguments: Seq<Link>,
    branches: Seq<Region>,
) -> Seq<PreferenceWrite> {
    if branches.len() == 0 {
        Seq::empty()
    } else {
        let last = branches.last();
        let count = arguments.len() as int;
        keep_ports(0, last.scope, count) + branch_argument_writes(
            branches,
            branches.len() - 1,
            count,
            last.scope,
        ) + Seq::new(
            arguments.len(),
            |port: int| replacing((arguments[port], parent), output(0, port, last.scope)),
        ) + Seq::new(
            last.results@.len(),
            |port: int| replacing(output(id, port, parent), (last.results@[port], last.scope)),
        ) + Seq::new(last.results@.len(), |port: int| keeping((last.results@[port], last.scope)))
            + branch_result_writes(branches, branches.len() - 1, last) + if branches.len() != 2 {
            seq![keeping((condition, parent))]
        } else {
            Seq::empty()
        }
    }
}

/// The write that makes `link` of region `scope` prefer state output
/// `state` of node `id`.
pub open spec fn state_write(link: Link, scope: usize, id: u32, state: int) -> PreferenceWrite {
    replacing((link, scope), output(id, state, scope))
}

/// The writes for node `id` of region `scope` of `nodes`.
pub open spec fn node_writes(nodes: Seq<RegionNode>, scope: usize, id: int) -> Seq<PreferenceWrite> {
    let node = nodes[id];
    let here = id as u32;
    let state = value_port_count(node);
    match node.operation {
        RegionOperation::Match { condition, arguments, branches, .. } => match_writes(
            scope,
            here,
            condition,
            arguments@,
            branches@,
        ),
        RegionOperation::Repeat { arguments, body, .. } => repeat_writes(
            scope,
            here,
            arguments@,
            body.scope,
            body.results@,
        ),
        RegionOperation::ModuleArguments { result_count } => keep_ports(
            here,
            scope,
            result_count as int,
        ),
        RegionOperation::Trap => seq![keeping(output(here, 0, scope))],
        RegionOperation::Identity { sources } | RegionOperation::Fence { sources } => pass_writes(
            scope,
            here,
            sources@,
        ),
        RegionOperation::GlobalGet { source }
        | RegionOperation::TableSize { source }
        | RegionOperation::TableDrop { source }
        | RegionOperation::MemorySize { source }
        | RegionOperation::MemoryDrop { source } => seq![state_write(source, scope, here, state)],
        RegionOperation::GlobalSet { destination, source } => seq![
            state_write(destination, scope, here, state),
        ] + state_writes(nodes, scope, source),
        RegionOperation::TableGet { source } | RegionOperation::MemoryLoad { source } => seq![
            state_write(source.reference, scope, here, state),
        ],
        RegionOperation::TableSet { destination }
        | RegionOperation::TableFill { destination }
        | RegionOperation::MemoryStore { destination }
        | RegionOperation::MemoryFill { destination } => seq![
            state_write(destination.reference, scope, here, state),
        ],
        RegionOperation::TableGrow { destination } | RegionOperation::MemoryGrow { destination } => seq![
            state_write(destination, scope, here, state),
        ],
        RegionOperation::TableCopy { destination, source }
        | RegionOperation::MemoryCopy { destination, source } => seq![
            state_write(destination.reference, scope, here, state),
            state_write(source.reference, scope, here, state + 1),
        ],
        _ => Seq::empty(),
    }
}

/// The writes for the first `count` nodes of region `scope` of `nodes`.
pub open spec fn own_writes(nodes: Seq<RegionNode>, scope: usize, count: int) -> Seq<PreferenceWrite>
    decreases count,
{
    if count <= 0 || count > nodes.len() {
        Seq::empty()
    } else {
        own_writes(nodes, scope, count - 1) + node_writes(nodes, scope, count - 1)
    }
}

/// The writes for the regions nested in the first `count` nodes of
/// `nodes`, in order.
pub open spec fn nested_writes(nodes: Seq<RegionNode>, count: int) -> Seq<PreferenceWrite>
    decreases nodes, 0int, count, 0int,
{
    if count <= 0 || count > nodes.len() {
        Seq::empty()
    } else {
        nested_writes(nodes, count - 1) + match nodes[count - 1].operation {
            RegionOperation::Match { branches, .. } => branch_region_writes(
                nodes,
                count - 1,
                branches@.len() as int,
            ),
            RegionOperation::Repeat { body, .. } => region_writes(body.nodes@, body.scope),
            _ => Seq::empty(),
        }
    }
}

/// The writes for the first `count` branches of the match at position `at`
/// of `nodes`.
pub open spec fn branch_region_writes(nodes: Seq<RegionNode>, at: int, count: int) -> Seq<
    PreferenceWrite,
>
    decreases nodes, 0int, at, count,
{
    if 0 <= at < nodes.len() {
        match nodes[at].operation {
            RegionOperation::Match { branches, .. } => if 0 < count <= branches@.len() {
                branch_region_writes(nodes, at, count - 1) + region_writes(
                    branches@[count - 1].nodes@,
                    branches@[count - 1].scope,
                )
            } else {
                Seq::empty()
            },
            _ => Seq::empty(),
        }
    } else {
        Seq::empty()
    }
}

/// The writes for region `scope` of `nodes`: those of its nodes, in order,
/// and then those of the regions nested in it.
pub open spec fn region_writes(nodes: Seq<RegionNode>, scope: usize) -> Seq<PreferenceWrite>
    decreases nodes, 1int, 0int, 0int,
{
    own_writes(nodes, scope, nodes.len() as int) + nested_writes(nodes, nodes.len() as int)
}

/// Whether the counts of `node` fit port numbers and the state it sets is
/// an output of its region of `count` nodes.
pub open spec fn node_fits(node: RegionNode, count: int) -> bool {
    &&& value_count_fits(node)
    &&& match node.operation {
        RegionOperation::Match { arguments, branches, .. } => {
            &&& arguments@.len() <= u16::MAX
            &&& forall|b: int|
                0 <= b < branches@.len() ==> #[trigger] branches@[b].results@.len() <= u16::MAX
        },
        RegionOperation::Repeat { arguments, body, .. } => {
            &&& arguments@.len() <= u16::MAX
            &&& body.results@.len() <= u16::MAX
        },
        RegionOperation::Identity { sources } | RegionOperation::Fence { sources } => sources@.len()
            <= u16::MAX,
        RegionOperation::GlobalSet { source, .. } => source.node < count,
        _ => true,
    }
}

/// Whether a region of `nodes` can be numbered by `u32` and each of its
/// nodes is as [`node_fits`] asks.
pub open spec fn nodes_fit(nodes: Seq<RegionNode>) -> bool {
    &&& nodes.len() <= u32::MAX
    &&& forall|k: int| 0 <= k < nodes.len() ==> #[trigger] node_fits(nodes[k], nodes.len() as int)
}

/// Whether the regions nested in the first `count` nodes of `nodes` are as
/// [`writes_fit`] asks.
pub open spec fn nested_fit(nodes: Seq<RegionNode>, count: int) -> bool
    decreases nodes, 0int, count, 0int,
{
    if count <= 0 || count > nodes.len() {
        true
    } else {
        &&& nested_fit(nodes, count - 1)
        &&& match nodes[count - 1].operation {
            RegionOperation::Match { branches, .. } => branches_fit(
                nodes,
                count - 1,
                branches@.len() as int,
            ),
            RegionOperation::Repeat { body, .. } => writes_fit(body.nodes@),
            _ => true,
        }
    }
}

/// Whether the first `count` branches of the match at position `at` of
/// `nodes` are as [`writes_fit`] asks.
pub open spec fn branches_fit(nodes: Seq<RegionNode>, at: int, count: int) -> bool
    decreases nodes, 0int, at, count,
{
    if 0 <= at < nodes.len() {
        match nodes[at].operation {
            RegionOperation::Match { branches, .. } => if 0 < count <= branches@.len() {
                &&& branches_fit(nodes, at, count - 1)
                &&& writes_fit(branches@[count - 1].nodes@)
            } else {
                true
            },
            _ => true,
        }
    } else {
        true
    }
}

/// Whether a region of `nodes` and every region nested in it are as
/// [`nodes_fit`] asks.
pub open spec fn writes_fit(nodes: Seq<RegionNode>) -> bool
    decreases nodes, 1int, 0int, 0int,
{
    nodes_fit(nodes) && nested_fit(nodes, nodes.len() as int)
}

proof fn lemma_writes_step(
    preferences: Map<ScopedLink, ScopedLink>,
    write: spec_fn(int) -> PreferenceWrite,
    count: nat,
)
    ensures
        apply_writes(preferences, Seq::new(count + 1, write)) == apply_write(
            apply_writes(preferences, Seq::new(count, write)),
            write(count as int),
        ),
{
    assert(Seq::new(count + 1, write).drop_last() =~= Seq::new(count, write));
}

fn add_state_assignment(assignments: &mut Preferences, nodes: &[RegionNode], scope: usize, link: Link)
    requires
        link.node < nodes@.len(),
        value_count_fits(nodes@[link.node as int]),
    ensures
        preferences_of(*final(assignments)) == apply_writes(
            preferences_of(*old(assignments)),
            state_writes(nodes@, scope, link),
        ),
{
    let ghost start = preferences_of(*assignments);
    if link.port >= value_port_count_of(&nodes[link.node as usize]) {
        assignments.try_insert((link, scope), (dangling(), 0));
        proof {
            let writes = seq![keeping((link, scope))];
            assert(writes.drop_last() =~= Seq::<PreferenceWrite>::empty());
            assert(apply_writes(start, writes.drop_last()) == start);
            assert(writes.last() == keeping((link, scope)));
        }
    } else {
        proof {
            assert(apply_writes(start, Seq::<PreferenceWrite>::empty()) == start);
        }
    }
}

fn keep_all_ports(assignments: &mut Preferences, id: u32, scope: usize, count: u16)
    ensures
        preferences_of(*final(assignments)) == apply_writes(
            preferences_of(*old(assignments)),
            keep_ports(id, scope, count as int),
        ),
{
    let ghost start = preferences_of(*assignments);
    let mut port: u16 = 0;
    while port < count
        invariant
            port <= count,
            preferences_of(*assignments) == apply_writes(start, keep_ports(id, scope, port as int)),
        decreases count - port,
    {
        assignments.try_insert((Link { node: id, port }, scope), (dangling(), 0));
        proof {
            lemma_writes_step(start, |p: int| keeping(output(id, p, scope)), port as nat);
        }
        port += 1;
    }
}

fn handle_repeat(
    assignments: &mut Preferences,
    parent_scope: usize,
    repeat_node_id: u32,
    arguments: &Vec<Link>,
    body: &Region,
)
    requires
        arguments@.len() <= u16::MAX,
        body.results@.len() <= u16::MAX,
    ensures
        preferences_of(*final(assignments)) == apply_writes(
            preferences_of(*old(assignments)),
            repeat_writes(parent_scope, repeat_node_id, arguments@, body.scope, body.results@),
        ),
{
    let ghost start = preferences_of(*assignments);
    let repeat_scope = body.scope;
    let argument_count = arguments.len() as u16;
    keep_all_ports(assignments, 0, repeat_scope, argument_count);
    let ghost first = keep_ports(0, repeat_scope, argument_count as int);
    let ghost after_first = preferences_of(*assignments);
    let ghost pass_in = |port: int| replacing((arguments@[port], parent_scope), output(0, port, repeat_scope));
    let mut offset: usize = 0;
    while offset < arguments.len()
        invariant
            offset <= arguments@.len() <= u16::MAX,
            pass_in == (|port: int| replacing((arguments@[port], parent_scope), output(0, port, repeat_scope))),
            preferences_of(*assignments) == apply_writes(after_first, Seq::new(offset as nat, pass_in)),
        decreases arguments@.len() - offset,
    {
        let port = offset as u16;
        assignments.insert((arguments[offset], parent_scope), (Link { node: 0, port }, repeat_scope));
        proof {
            lemma_writes_step(after_first, pass_in, offset as nat);
        }
        offset += 1;
    }
    let ghost after_second = preferences_of(*assignments);
    let ghost pass_out = |port: int| replacing((body.results@[port], repeat_scope), output(0, port, repeat_scope));
    let mut offset: usize = 0;
    while offset < body.results.len()
        invariant
            offset <= body.results@.len() <= u16::MAX,
            pass_out == (|port: int| replacing((body.results@[port], repeat_scope), output(0, port, repeat_scope))),
            preferences_of(*assignments) == apply_writes(after_second, Seq::new(offset as nat, pass_out)),
        decreases body.results@.len() - offset,
    {
        let port = offset as u16;
        assignments.insert((body.results[offset], repeat_scope), (Link { node: 0, port }, repeat_scope));
        proof {
            lemma_writes_step(after_second, pass_out, offset as nat);
        }
        offset += 1;
    }
    let ghost after_third = preferences_of(*assignments);
    let ghost outputs = |port: int| replacing(output(repeat_node_id, port, parent_scope), output(0, port, repeat_scope));
    let mut port: u16 = 0;
    while port < argument_count
        invariant
            port <= argument_count,
            outputs == (|p: int| replacing(output(repeat_node_id, p, parent_scope), output(0, p, repeat_scope))),
            preferences_of(*assignments) == apply_writes(after_third, Seq::new(port as nat, outputs)),
        decreases argument_count - port,
    {
        assignments.insert((Link { node: repeat_node_id, port }, parent_scope), (Link { node: 0, port }, repeat_scope));
        proof {
            lemma_writes_step(after_third, outputs, port as nat);
        }
        port += 1;
    }
    proof {
        let second = Seq::new(arguments@.len(), pass_in);
        let third = Seq::new(body.results@.len(), pass_out);
        let fourth = Seq::new(argument_count as nat, outputs);
        lemma_apply_writes_append(start, first, second);
        lemma_apply_writes_append(start, first + second, third);
        lemma_apply_writes_append(start, first + second + third, fourth);
        assert(first + second + third + fourth =~= repeat_writes(parent_scope, repeat_node_id, arguments@, body.scope, body.results@));
    }
}

fn handle_match(
    assignments: &mut Preferences,
    parent_scope: usize,
    match_node_id: u32,
    condition: Link,
    arguments: &Vec<Link>,
    branches: &Vec<Region>,
)
    requires
        arguments@.len() <= u16::MAX,
        forall|b: int| 0 <= b < branches@.len() ==> #[trigger] branches@[b].results@.len() <= u16::MAX,
    ensures
        preferences_of(*final(assignments)) == apply_writes(
            preferences_of(*old(assignments)),
            match_writes(parent_scope, match_node_id, condition, arguments@, branches@),
        ),
{
    let ghost start = preferences_of(*assignments);
    if branches.len() == 0 {
        proof {
            assert(apply_writes(start, Seq::<PreferenceWrite>::empty()) == start);
        }
        return ;
    }
    let last_branch = &branches[branches.len() - 1];
    let last_branch_scope = last_branch.scope;
    let argument_count = arguments.len() as u16;
    let others = branches.len() - 1;
    proof {
        assert(last_branch.results@.len() <= u16::MAX);
    }
    keep_all_ports(assignments, 0, last_branch_scope, argument_count);
    let ghost after_keep = preferences_of(*assignments);
    let mut b: usize = 0;
    while b < others
        invariant
            others == branches@.len() - 1,
            b <= others,
            argument_count == arguments@.len(),
            preferences_of(*assignments) == apply_writes(
                after_keep,
                branch_argument_writes(branches@, b as int, argument_count as int, last_branch_scope),
            ),
        decreases others - b,
    {
        let branch_scope = branches[b].scope;
        let ghost before = branch_argument_writes(branches@, b as int, argument_count as int, last_branch_scope);
        let ghost share = |port: int| replacing(output(0, port, branch_scope), output(0, port, last_branch_scope));
        let mut port: u16 = 0;
        while port < argument_count
            invariant
                port <= argument_count,
                share == (|p: int| replacing(output(0, p, branch_scope), output(0, p, last_branch_scope))),
                preferences_of(*assignments) == apply_writes(apply_writes(after_keep, before), Seq::new(port as nat, share)),
            decreases argument_count - port,
        {
            assignments.insert((Link { node: 0, port }, branch_scope), (Link { node: 0, port }, last_branch_scope));
            proof {
                lemma_writes_step(apply_writes(after_keep, before), share, port as nat);
            }
            port += 1;
        }
        proof {
            lemma_apply_writes_append(after_keep, before, Seq::new(argument_count as nat, share));
            assert(before + Seq::new(argument_count as nat, share) =~= branch_argument_writes(branches@, b + 1, argument_count as int, last_branch_scope));
        }
        b += 1;
    }
    let ghost after_branches = preferences_of(*assignments);
    let ghost pass_in = |port: int| replacing((arguments@[port], parent_scope), output(0, port, last_branch_scope));
    let mut offset: usize = 0;
    while offset < arguments.len()
        invariant
            offset <= arguments@.len() <= u16::MAX,
            pass_in == (|port: int| replacing((arguments@[port], parent_scope), output(0, port, last_branch_scope))),
            preferences_of(*assignments) == apply_writes(after_branches, Seq::new(offset as nat, pass_in)),
        decreases arguments@.len() - offset,
    {
        let port = offset as u16;
        assignments.insert((arguments[offset], parent_scope), (Link { node: 0, port }, last_branch_scope));
        proof {
            lemma_writes_step(after_branches, pass_in, offset as nat);
        }
        offset += 1;
    }
    // All branches write to the last branch's canonical result locals, so
    // the Match output reads from those shared locals.
    let ghost after_arguments = preferences_of(*assignments);
    let ghost outputs = |port: int| replacing(output(match_node_id, port, parent_scope), (last_branch.results@[port], last_branch_scope));
    let mut offset: usize = 0;
    while offset < last_branch.results.len()
        invariant
            offset <= last_branch.results@.len() <= u16::MAX,
            outputs == (|port: int| replacing(output(match_node_id, port, parent_scope), (last_branch.results@[port], last_branch_scope))),
            preferences_of(*assignments) == apply_writes(after_arguments, Seq::new(offset as nat, outputs)),
        decreases last_branch.results@.len() - offset,
    {
        let port = offset as u16;
        assignments.insert((Link { node: match_node_id, port }, parent_scope), (last_branch.results[offset], last_branch_scope));
        proof {
            lemma_writes_step(after_arguments, outputs, offset as nat);
        }
        offset += 1;
    }
    let ghost after_outputs = preferences_of(*assignments);
    let ghost kept = |port: int| keeping((last_branch.results@[port], last_branch_scope));
    let mut offset: usize = 0;
    while offset < last_branch.results.len()
        invariant
            offset <= last_branch.results@.len(),
            kept == (|port: int| keeping((last_branch.results@[port], last_branch_scope))),
            preferences_of(*assignments) == apply_writes(after_outputs, Seq::new(offset as nat, kept)),
        decreases last_branch.results@.len() - offset,
    {
        assignments.try_insert((last_branch.results[offset], last_branch_scope), (dangling(), 0));
        proof {
            lemma_writes_step(after_outputs, kept, offset as nat);
        }
        offset += 1;
    }
    let ghost after_kept = preferences_of(*assignments);
    let mut b: usize = 0;
    while b < others
        invariant
            others == branches@.len() - 1,
            b <= others,
            *last_branch == branches@.last(),
            last_branch_scope == last_branch.scope,
            preferences_of(*assignments) == apply_writes(after_kept, branch_result_writes(branches@, b as int, *last_branch)),
        decreases others - b,
    {
        let branch = &branches[b];
        let ghost before = branch_result_writes(branches@, b as int, *last_branch);
        let shared = if branch.results.len() <= last_branch.results.len() {
            branch.results.len()
        } else {
            last_branch.results.len()
        };
        let ghost share = |port: int| replacing((branch.results@[port], branch.scope), (last_branch.results@[port], last_branch.scope));
        let mut offset: usize = 0;
        while offset < shared
            invariant
                offset <= shared,
                shared <= branch.results@.len(),
                shared <= last_branch.results@.len(),
                last_branch_scope == last_branch.scope,
                share == (|port: int| replacing((branch.results@[port], branch.scope), (last_branch.results@[port], last_branch.scope))),
                preferences_of(*assignments) == apply_writes(apply_writes(after_kept, before), Seq::new(offset as nat, share)),
            decreases shared - offset,
        {
            assignments.insert((branch.results[offset], branch.scope), (last_branch.results[offset], last_branch_scope));
            proof {
                lemma_writes_step(apply_writes(after_kept, before), share, offset as nat);
            }
            offset += 1;
        }
        proof {
            lemma_apply_writes_append(after_kept, before, Seq::new(shared as nat, share));
            assert(before + Seq::new(shared as nat, share) =~= branch_result_writes(branches@, b + 1, *last_branch));
        }
        b += 1;
    }
    let ghost after_results = preferences_of(*assignments);
    // A two-branch match is an if/else whose condition is used directly; any
    // other shape needs a local to dispatch through.
    if branches.len() != 2 {
        assignments.try_insert((condition, parent_scope), (dangling(), 0));
    }
    proof {
        let last = seq![keeping((condition, parent_scope))];
        let tail: Seq<PreferenceWrite> = if branches@.len() != 2 { last } else { Seq::empty() };
        assert(last.drop_last() =~= Seq::<PreferenceWrite>::empty());
        assert(apply_writes(after_results, Seq::<PreferenceWrite>::empty()) == after_results);
        assert(apply_writes(after_results, tail) == preferences_of(*assignments));
        let first = keep_ports(0, last_branch_scope, argument_count as int);
        let second = branch_argument_writes(branches@, others as int, argument_count as int, last_branch_scope);
        let third = Seq::new(arguments@.len(), pass_in);
        let fourth = Seq::new(last_branch.results@.len(), outputs);
        let fifth = Seq::new(last_branch.results@.len(), kept);
        let sixth = branch_result_writes(branches@, others as int, *last_branch);
        lemma_apply_writes_append(start, first, second);
        lemma_apply_writes_append(start, first + second, third);
        lemma_apply_writes_append(start, first + second + third, fourth);
        lemma_apply_writes_append(start, first + second + third + fourth, fifth);
        lemma_apply_writes_append(start, first + second + third + fourth + fifth, sixth);
        lemma_apply_writes_append(start, first + second + third + fourth + fifth + sixth, tail);
        assert(first + second + third + fourth + fifth + sixth + tail =~= match_writes(parent_scope, match_node_id, condition, arguments@, branches@));
    }
}

fn handle_identity(assignments: &mut Preferences, scope: usize, id: u32, sources: &Vec<Link>)
    requires
        sources@.len() <= u16::MAX,
    ensures
        preferences_of(*final(assignments)) == apply_writes(
            preferences_of(*old(assignments)),
            pass_writes(scope, id, sources@),
        ),
{
    let ghost start = preferences_of(*assignments);
    let ghost pass = |port: int| replacing((sources@[port], scope), output(id, port, scope));
    let mut offset: usize = 0;
    while offset < sources.len()
        invariant
            offset <= sources@.len() <= u16::MAX,
            pass == (|port: int| replacing((sources@[port], scope), output(id, port, scope))),
            preferences_of(*assignments) == apply_writes(start, Seq::new(offset as nat, pass)),
        decreases sources@.len() - offset,
    {
        let port = offset as u16;
        assignments.insert((sources[offset], scope), (Link { node: id, port }, scope));
        proof {
            lemma_writes_step(start, pass, offset as nat);
        }
        offset += 1;
    }
    let ghost passed = preferences_of(*assignments);
    keep_all_ports(assignments, id, scope, sources.len() as u16);
    proof {
        lemma_apply_writes_append(start, Seq::new(sources@.len(), pass), keep_ports(id, scope, sources@.len() as int));
    }
}

fn set_state(assignments: &mut Preferences, link: Link, scope: usize, id: u32, state: u16)
    ensures
        preferences_of(*final(assignments)) == apply_writes(
            preferences_of(*old(assignments)),
            seq![state_write(link, scope, id, state as int)],
        ),
{
    let ghost start = preferences_of(*assignments);
    assignments.insert((link, scope), (Link { node: id, port: state }, scope));
    proof {
        let writes = seq![state_write(link, scope, id, state as int)];
        assert(writes.drop_last() =~= Seq::<PreferenceWrite>::empty());
        assert(apply_writes(start, writes.drop_last()) == start);
    }
}

fn handle_node(assignments: &mut Preferences, nodes: &[RegionNode], scope: usize, id: u32, node: &RegionNode)
    requires
        id < nodes@.len(),
        *node == nodes@[id as int],
        node_fits(*node, nodes@.len() as int),
        forall|k: int| 0 <= k < nodes@.len() ==> #[trigger] value_count_fits(nodes@[k]),
    ensures
        preferences_of(*final(assignments)) == apply_writes(
            preferences_of(*old(assignments)),
            node_writes(nodes@, scope, id as int),
        ),
{
    let ghost start = preferences_of(*assignments);
    let state = value_port_count_of(node);
    match &node.operation {
        RegionOperation::Match { condition, arguments, branches, .. } => handle_match(
            assignments,
            scope,
            id,
            *condition,
            arguments,
            branches,
        ),
        RegionOperation::Repeat { arguments, body, .. } => handle_repeat(
            assignments,
            scope,
            id,
            arguments,
            body,
        ),
        RegionOperation::ModuleArguments { result_count } => keep_all_ports(
            assignments,
            id,
            scope,
            *result_count,
        ),
        RegionOperation::Trap => {
            assignments.try_insert((Link { node: id, port: 0 }, scope), (dangling(), 0));
            proof {
                let writes = seq![keeping(output(id, 0, scope))];
                assert(writes.drop_last() =~= Seq::<PreferenceWrite>::empty());
                assert(apply_writes(start, writes.drop_last()) == start);
            }
        },
        RegionOperation::Identity { sources } | RegionOperation::Fence { sources } => handle_identity(
            assignments,
            scope,
            id,
            sources,
        ),
        RegionOperation::GlobalGet { source }
        | RegionOperation::TableSize { source }
        | RegionOperation::TableDrop { source }
        | RegionOperation::MemorySize { source }
        | RegionOperation::MemoryDrop { source } => set_state(assignments, *source, scope, id, state),
        RegionOperation::GlobalSet { destination, source } => {
            set_state(assignments, *destination, scope, id, state);
            let ghost middle = preferences_of(*assignments);
            proof {
                assert(value_count_fits(nodes@[source.node as int]));
            }
            add_state_assignment(assignments, nodes, scope, *source);
            proof {
                lemma_apply_writes_append(start, seq![state_write(*destination, scope, id, state as int)], state_writes(nodes@, scope, *source));
            }
        },
        RegionOperation::TableGet { source } | RegionOperation::MemoryLoad { source } => set_state(
            assignments,
            source.reference,
            scope,
            id,
            state,
        ),
        RegionOperation::TableSet { destination }
        | RegionOperation::TableFill { destination }
        | RegionOperation::MemoryStore { destination }
        | RegionOperation::MemoryFill { destination } => set_state(
            assignments,
            destination.reference,
            scope,
            id,
            state,
        ),
        RegionOperation::TableGrow { destination } | RegionOperation::MemoryGrow { destination } => set_state(
            assignments,
            *destination,
            scope,
            id,
            state,
        ),
        RegionOperation::TableCopy { destination, source }
        | RegionOperation::MemoryCopy { destination, source } => {
            set_state(assignments, destination.reference, scope, id, state);
            set_state(assignments, source.reference, scope, id, state + 1);
            proof {
                lemma_apply_writes_append(start, seq![state_write(destination.reference, scope, id, state as int)], seq![state_write(source.reference, scope, id, state + 1)]);
                assert(seq![state_write(destination.reference, scope, id, state as int)] + seq![state_write(source.reference, scope, id, state + 1)] =~= node_writes(nodes@, scope, id as int));
            }
        },
        _ => {
            proof {
                assert(apply_writes(start, Seq::<PreferenceWrite>::empty()) == start);
            }
        },
    }
}

pub(crate) proof fn lemma_nested_fit_prefix(nodes: Seq<RegionNode>, first: int, second: int)
    requires
        0 <= first <= second <= nodes.len(),
        nested_fit(nodes, second),
    ensures
        nested_fit(nodes, first),
    decreases second - first,
{
    if first < second {
        lemma_nested_fit_prefix(nodes, first, second - 1);
    }
}

pub(crate) proof fn lemma_branches_fit_prefix(nodes: Seq<RegionNode>, at: int, first: int, second: int)
    requires
        0 <= at < nodes.len(),
        nodes[at].operation matches RegionOperation::Match { branches, .. } && 0 <= first <= second
            <= branches@.len(),
        branches_fit(nodes, at, second),
    ensures
        branches_fit(nodes, at, first),
    decreases second - first,
{
    if first < second {
        lemma_branches_fit_prefix(nodes, at, first, second - 1);
    }
}

fn run_region(assignments: &mut Preferences, nodes: &[RegionNode], scope: usize)
    requires
        writes_fit(nodes@),
    ensures
        preferences_of(*final(assignments)) == apply_writes(
            preferences_of(*old(assignments)),
            region_writes(nodes@, scope),
        ),
    decreases nodes@,
{
    let ghost start = preferences_of(*assignments);
    let ghost count = nodes@.len() as int;
    proof {
        assert(apply_writes(start, Seq::<PreferenceWrite>::empty()) == start);
    }
    let mut k: usize = 0;
    while k < nodes.len()
        invariant
            k <= nodes@.len(),
            nodes_fit(nodes@),
            preferences_of(*assignments) == apply_writes(start, own_writes(nodes@, scope, k as int)),
        decreases nodes@.len() - k,
    {
        let node = &nodes[k];
        let ghost before = preferences_of(*assignments);
        proof {
            assert(node_fits(nodes@[k as int], nodes@.len() as int));
            assert forall|j: int| 0 <= j < nodes@.len() implies #[trigger] value_count_fits(nodes@[j]) by {
                assert(node_fits(nodes@[j], nodes@.len() as int));
            }
        }
        handle_node(assignments, nodes, scope, k as u32, node);
        proof {
            lemma_apply_writes_append(start, own_writes(nodes@, scope, k as int), node_writes(nodes@, scope, k as int));
        }
        k += 1;
    }
    // Recurse into nested control regions (not Functions).
    let ghost own = own_writes(nodes@, scope, count);
    let ghost after_own = preferences_of(*assignments);
    proof {
        assert(apply_writes(after_own, Seq::<PreferenceWrite>::empty()) == after_own);
    }
    let mut k: usize = 0;
    while k < nodes.len()
        invariant
            k <= nodes@.len(),
            count == nodes@.len(),
            nested_fit(nodes@, count),
            preferences_of(*assignments) == apply_writes(after_own, nested_writes(nodes@, k as int)),
        decreases nodes@.len() - k,
    {
        let node = &nodes[k];
        proof {
            lemma_nested_fit_prefix(nodes@, k + 1, count);
        }
        let ghost before = nested_writes(nodes@, k as int);
        match &node.operation {
            RegionOperation::Match { branches, .. } => {
                let ghost nb = branches@.len() as int;
                proof {
                    assert(branch_region_writes(nodes@, k as int, 0) =~= Seq::<PreferenceWrite>::empty());
                    assert(before + Seq::<PreferenceWrite>::empty() =~= before);
                }
                let mut b: usize = 0;
                while b < branches.len()
                    invariant
                        b <= branches@.len(),
                        nb == branches@.len(),
                        k < nodes@.len(),
                        count == nodes@.len(),
                        nodes@[k as int].operation matches RegionOperation::Match { branches: all, .. } && all == *branches,
                        branches_fit(nodes@, k as int, nb),
                        before == nested_writes(nodes@, k as int),
                        preferences_of(*assignments) == apply_writes(after_own, before + branch_region_writes(nodes@, k as int, b as int)),
                    decreases branches@.len() - b,
                {
                    let branch = &branches[b];
                    proof {
                        lemma_branches_fit_prefix(nodes@, k as int, b + 1, nb);
                    }
                    run_region(assignments, branch.nodes.as_slice(), branch.scope);
                    proof {
                        lemma_apply_writes_append(after_own, before + branch_region_writes(nodes@, k as int, b as int), region_writes(branch.nodes@, branch.scope));
                        assert(before + branch_region_writes(nodes@, k as int, b as int) + region_writes(branch.nodes@, branch.scope) =~= before + branch_region_writes(nodes@, k as int, b + 1));
                    }
                    b += 1;
                }
                proof {
                    assert(before + branch_region_writes(nodes@, k as int, nb) =~= nested_writes(nodes@, k + 1));
                }
            },
            RegionOperation::Repeat { body, .. } => {
                run_region(assignments, body.nodes.as_slice(), body.scope);
                proof {
                    lemma_apply_writes_append(after_own, before, region_writes(body.nodes@, body.scope));
                }
            },
            _ => {
                proof {
                    assert(before + Seq::<PreferenceWrite>::empty() =~= nested_writes(nodes@, k + 1));
                }
            },
        }
        k += 1;
    }
    proof {
        lemma_apply_writes_append(start, own, nested_writes(nodes@, count));
    }
}

/// Records in `assignments` which outputs of region `scope` of `nodes`,
/// and of the regions nested in it, should share a local, by applying the
/// writes of [`region_writes`] in order.
pub fn run(assignments: &mut Preferences, nodes: &[RegionNode], scope: usize)
    requires
        writes_fit(nodes@),
    ensures
        preferences_of(*final(assignments)) == apply_writes(
            preferences_of(*old(assignments)),
            region_writes(nodes@, scope),
        ),
{
    run_region(assignments, nodes, scope);
}

proof fn lemma_own_writes_prefix(nodes: Seq<RegionNode>, scope: usize, first: int, second: int)
    requires
        0 <= first <= second <= nodes.len(),
    ensures
        own_writes(nodes, scope, first).len() <= own_writes(nodes, scope, second).len(),
        own_writes(nodes, scope, second).subrange(0, own_writes(nodes, scope, first).len() as int)
            == own_writes(nodes, scope, first),
    decreases second - first,
{
    if first < second {
        lemma_own_writes_prefix(nodes, scope, first, second - 1);
        let shorter = own_writes(nodes, scope, second - 1);
        let longer = own_writes(nodes, scope, second);
        assert(longer.subrange(0, shorter.len() as int) =~= shorter);
        assert(longer.subrange(0, own_writes(nodes, scope, first).len() as int) =~= shorter.subrange(
            0,
            own_writes(nodes, scope, first).len() as int,
        ));
    } else {
        assert(own_writes(nodes, scope, first).subrange(0, own_writes(nodes, scope, first).len() as int)
            =~= own_writes(nodes, scope, first));
    }
}

/// A match with other than two branches dispatches through a local: after
/// the preferences of a region are found, the condition of each such match
/// of the region has an entry. A match with two branches is an if and an
/// else, whose condition is used where it is.
pub proof fn lemma_switch_conditions_get_entries(
    preferences: Map<ScopedLink, ScopedLink>,
    nodes: Seq<RegionNode>,
    scope: usize,
    k: int,
)
    requires
        0 <= k < nodes.len(),
        nodes[k].operation matches RegionOperation::Match { branches, .. } && branches@.len() > 0
            && branches@.len() != 2,
    ensures
        nodes[k].operation matches RegionOperation::Match { condition, .. } && apply_writes(
            preferences,
            region_writes(nodes, scope),
        ).contains_key((condition, scope)),
{
    let all = own_writes(nodes, scope, nodes.len() as int);
    let upto = own_writes(nodes, scope, k + 1);
    let before = own_writes(nodes, scope, k);
    lemma_own_writes_prefix(nodes, scope, k + 1, nodes.len() as int);
    match nodes[k].operation {
        RegionOperation::Match { condition, arguments, branches, .. } => {
            let mine = match_writes(scope, k as u32, condition, arguments@, branches@);
            assert(upto == before + mine);
            assert(mine.last() == keeping((condition, scope)));
            let at = upto.len() - 1;
            assert(upto[at] == mine.last());
            assert(all[at] == upto[at]);
            let writes = region_writes(nodes, scope);
            assert(writes[at] == all[at]);
            lemma_written_outputs_have_entries(preferences, writes, at);
        },
        _ => {},
    }
}

} // verus!
