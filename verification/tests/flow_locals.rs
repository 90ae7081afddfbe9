use spider::flow::{FlowNode, FlowOperation, Location};
use spider::ir::Link;
use spider::lifetime_finder::LifetimeFinder;
use spider::local_finder;
use spider::local_provider::{LinkLifetimes, LocalProvider};
use spider::reference_finder::{result_count_of, ReferenceFinder};

fn link(node: u32, port: u16) -> Link {
    Link { node, port }
}

fn node(operation: FlowOperation, inputs: Vec<Link>) -> FlowNode {
    FlowNode { operation, inputs }
}

// 0 and 1 are constants, 2 adds them, 3 ends the region with the sum.
fn sum_graph() -> Vec<FlowNode> {
    vec![
        node(FlowOperation::I32, vec![]),
        node(FlowOperation::I32, vec![]),
        node(FlowOperation::IntegerBinaryOperation, vec![link(0, 0), link(1, 0)]),
        node(FlowOperation::RegionOut { results: vec![link(2, 0)] }, vec![link(2, 0)]),
    ]
}

fn sum_readers() -> ReferenceFinder {
    let mut finder = ReferenceFinder::new();
    finder.run(vec![vec![0], vec![0], vec![0], vec![]]);
    finder
}

fn lifetimes_for(graph: &[FlowNode], locals: &[u32]) -> LinkLifetimes {
    let mut finder = LifetimeFinder::new();
    let mut lifetimes = LinkLifetimes::new();
    finder.run(&mut lifetimes, graph, locals);
    lifetimes
}

#[test]
fn result_counts_follow_the_operation() {
    assert_eq!(result_count_of(&node(FlowOperation::LambdaIn { parameter_count: 3 }, vec![])), 3);
    assert_eq!(result_count_of(&node(FlowOperation::I64, vec![])), 1);
    assert_eq!(result_count_of(&node(FlowOperation::Merge { states: vec![] }, vec![])), 0);
    let call = FlowOperation::Call {
        function: link(0, 0),
        arguments: vec![link(1, 0), link(2, 1)],
        results: 2,
        states: 1,
    };
    assert_eq!(result_count_of(&node(call, vec![])), 2);
}

#[test]
fn readers_are_counted_by_port() {
    let mut finder = ReferenceFinder::new();
    finder.run(vec![vec![1, 0, 3], vec![2], vec![]]);
    assert!(finder.has_result_at(0, 0));
    assert!(!finder.has_result_at(1, 1));
    assert!(finder.has_result_at(1, 2));
    assert!(!finder.has_result_at(2, 9));
    let call = node(
        FlowOperation::Call { function: link(0, 0), arguments: vec![], results: 2, states: 1 },
        vec![],
    );
    // Ports 1 and 0 are values of the call, port 3 is not.
    assert!(finder.has_many_uses(0, &call));
    assert!(finder.has_many_results(0, &call));
    let constant = node(FlowOperation::I32, vec![]);
    assert!(!finder.has_many_uses(0, &constant));
    assert!(!finder.has_many_results(0, &constant));
    assert!(!finder.has_many_results(1, &call));
}

#[test]
fn region_results_are_locals() {
    let graph = sum_graph();
    let mut locals = vec![7];
    local_finder::run(&mut locals, &graph, &sum_readers());
    assert_eq!(locals, vec![2]);
}

#[test]
fn out_of_order_reads_traps_and_states_are_locals() {
    let graph = vec![
        node(FlowOperation::GlobalNew, vec![]),
        node(FlowOperation::GlobalGet { source: link(0, 0) }, vec![link(0, 0)]),
        node(FlowOperation::I32, vec![]),
        node(FlowOperation::IntegerBinaryOperation, vec![link(2, 0), link(1, 0)]),
        node(FlowOperation::IntegerBinaryOperation, vec![link(3, 0), link(2, 0)]),
        node(FlowOperation::Trap, vec![]),
    ];
    let mut readers = ReferenceFinder::new();
    readers.run(vec![vec![0], vec![0], vec![0, 0], vec![0], vec![], vec![]]);
    let mut locals = Vec::new();
    local_finder::run(&mut locals, &graph, &readers);
    // 0 feeds a state, 1 and 2 are read out of order, 2 is also read
    // twice, and 5 traps.
    assert_eq!(locals, vec![0, 1, 2, 5]);
}

#[test]
fn a_local_lives_until_its_last_reader() {
    let graph = sum_graph();
    let lifetimes = lifetimes_for(&graph, &[2]);
    assert_eq!(lifetimes.get(link(2, 0)), Some(3));
    assert_eq!(lifetimes.get(link(0, 0)), None);
    assert_eq!(lifetimes.get(link(1, 0)), None);
}

#[test]
fn reads_pass_through_values_that_are_not_locals() {
    let graph = sum_graph();
    // The sum is computed again where the region ends, so the constant it
    // reads lives until there.
    let lifetimes = lifetimes_for(&graph, &[0]);
    assert_eq!(lifetimes.get(link(0, 0)), Some(3));
    assert_eq!(lifetimes.get(link(2, 0)), None);
    let both = lifetimes_for(&graph, &[0, 2]);
    assert_eq!(both.get(link(0, 0)), Some(2));
    assert_eq!(both.get(link(2, 0)), Some(3));
}

#[test]
fn stores_read_their_offsets_and_values() {
    let graph = vec![
        node(FlowOperation::MemoryNew, vec![]),
        node(FlowOperation::I32, vec![]),
        node(FlowOperation::I32, vec![]),
        node(
            FlowOperation::MemoryStore {
                destination: Location { reference: link(0, 0), offset: link(1, 0) },
                source: link(2, 0),
            },
            vec![link(0, 0), link(1, 0), link(2, 0)],
        ),
        node(
            FlowOperation::MemoryLoad {
                source: Location { reference: link(3, 0), offset: link(1, 0) },
            },
            vec![link(3, 0), link(1, 0)],
        ),
        node(
            FlowOperation::RegionOut { results: vec![link(4, 0), link(4, 1)] },
            vec![link(4, 0), link(4, 1)],
        ),
    ];
    let lifetimes = lifetimes_for(&graph, &[1, 2]);
    assert_eq!(lifetimes.get(link(1, 0)), Some(5));
    assert_eq!(lifetimes.get(link(2, 0)), Some(3));
    // The region end reads the load's value and state again: its offset,
    // and the memory's state through the store.
    assert_eq!(lifetimes.get(link(0, 0)), Some(5));
    assert_eq!(lifetimes.get(link(4, 0)), None);
}

#[test]
fn found_lifetimes_feed_the_local_provider() {
    let graph = sum_graph();
    let mut locals = Vec::new();
    local_finder::run(&mut locals, &graph, &sum_readers());
    let mut provider = LocalProvider::new();
    let mut finder = LifetimeFinder::new();
    finder.run(provider.lifetimes_mut(), &graph, &locals);
    assert_eq!(provider.lifetimes_mut().get(link(2, 0)), Some(3));
}
