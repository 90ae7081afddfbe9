use spider::ir::Link;
use spider::local_allocator::reference_finder;
use spider::local_allocator::scalar_finder::{value_port_count_of, ScalarFinder};
use spider::local_allocator::{
    dangling, Local, LocalAllocator, LocalAssignments, Preferences, StackSizes,
};
use spider::region::{Region, RegionNode, RegionOperation};

fn link(node: u32, port: u16) -> Link {
    Link { node, port }
}

fn node(operation: RegionOperation, inputs: Vec<Link>) -> RegionNode {
    RegionNode { operation, inputs }
}

fn empty_region(scope: usize) -> Region {
    Region { scope, nodes: vec![], results: vec![] }
}

#[test]
fn value_ports_follow_the_operation() {
    let identity = node(
        RegionOperation::Identity { sources: vec![link(0, 0), link(1, 0), link(2, 0)] },
        vec![],
    );
    assert_eq!(value_port_count_of(&identity), 3);
    let set = RegionOperation::GlobalSet { destination: link(0, 0), source: link(1, 0) };
    assert_eq!(value_port_count_of(&node(set, vec![])), 0);
    let function = RegionOperation::Function {
        body: empty_region(9),
        capture_count: 0,
        argument_count: 2,
    };
    assert_eq!(value_port_count_of(&node(function, vec![])), 1);
    assert_eq!(value_port_count_of(&node(RegionOperation::Apply { result_count: 4 }, vec![])), 4);
    let fence = RegionOperation::Fence { sources: vec![link(0, 1)] };
    assert_eq!(value_port_count_of(&node(fence, vec![])), 0);
}

#[test]
fn reused_later_and_effectful_outputs_need_locals() {
    let nodes = vec![
        // Read twice: needs a local.
        node(RegionOperation::I32, vec![]),
        node(RegionOperation::IntegerBinaryOperation, vec![link(0, 0), link(0, 0)]),
        // A call keeps its results for its effect.
        node(RegionOperation::Apply { result_count: 2 }, vec![]),
        // Read once, through the region's results: no local.
        node(RegionOperation::I32, vec![]),
        // A match whose second result is read.
        node(
            RegionOperation::Match {
                condition: link(3, 0),
                arguments: vec![],
                branches: vec![empty_region(20), empty_region(21)],
                result_count: 2,
            },
            vec![link(3, 0)],
        ),
        node(RegionOperation::Identity { sources: vec![link(4, 1)] }, vec![link(4, 1)]),
    ];
    let mut finder = ScalarFinder::new();
    let mut assignments = Preferences::new();
    finder.run(&mut assignments, &nodes, 1, &[link(1, 0), link(5, 0)]);
    let none = Some((dangling(), 0));
    assert_eq!(assignments.get((link(0, 0), 1)), none);
    assert_eq!(assignments.get((link(2, 0), 1)), none);
    assert_eq!(assignments.get((link(2, 1), 1)), none);
    assert_eq!(assignments.get((link(4, 0), 1)), none);
    assert_eq!(assignments.get((link(4, 1), 1)), none);
    assert!(!assignments.contains_key((link(1, 0), 1)));
    assert!(!assignments.contains_key((link(3, 0), 1)));
    assert!(!assignments.contains_key((link(5, 0), 1)));
    assert!(!assignments.contains_key((link(0, 0), 20)));
}

#[test]
fn nested_regions_are_searched_and_entries_are_kept() {
    let body = Region {
        scope: 77,
        nodes: vec![
            node(RegionOperation::I32, vec![]),
            node(RegionOperation::IntegerBinaryOperation, vec![link(0, 0), link(0, 0)]),
        ],
        results: vec![link(1, 0)],
    };
    let nodes = vec![
        node(RegionOperation::I32, vec![]),
        node(RegionOperation::Repeat { arguments: vec![], body, result_count: 1 }, vec![]),
        node(RegionOperation::Identity { sources: vec![link(0, 0)] }, vec![link(0, 0)]),
    ];
    let mut finder = ScalarFinder::new();
    let mut assignments = Preferences::new();
    let earlier = (link(5, 5), 9);
    assignments.insert((link(0, 0), 3), earlier);
    finder.run(&mut assignments, &nodes, 3, &[link(0, 0), link(1, 0)]);
    // The first constant is read twice, but its entry stays.
    assert_eq!(assignments.get((link(0, 0), 3)), Some(earlier));
    assert_eq!(assignments.get((link(0, 0), 77)), Some((dangling(), 0)));
    assert!(!assignments.contains_key((link(1, 0), 77)));
    assert!(!assignments.contains_key((link(1, 0), 3)));
    // Running again starts from no marks.
    let mut fresh = Preferences::new();
    finder.run(&mut fresh, &nodes, 3, &[link(1, 0)]);
    assert!(!fresh.contains_key((link(0, 0), 3)));
    assert_eq!(fresh.get((link(0, 0), 77)), Some((dangling(), 0)));
}

#[test]
fn states_pass_on_and_identities_share() {
    let nodes = vec![
        node(RegionOperation::GlobalNew, vec![]),
        node(RegionOperation::GlobalGet { source: link(0, 0) }, vec![link(0, 0)]),
        node(
            RegionOperation::GlobalSet { destination: link(1, 1), source: link(0, 0) },
            vec![link(1, 1), link(0, 0)],
        ),
        node(RegionOperation::Identity { sources: vec![link(0, 0)] }, vec![link(0, 0)]),
        node(RegionOperation::Trap, vec![]),
    ];
    let mut assignments = Preferences::new();
    reference_finder::run(&mut assignments, &nodes, 4);
    // The identity's write comes after the read's and replaces it.
    assert_eq!(assignments.get((link(0, 0), 4)), Some((link(3, 0), 4)));
    assert_eq!(assignments.get((link(1, 1), 4)), Some((link(2, 0), 4)));
    assert_eq!(assignments.get((link(3, 0), 4)), Some((dangling(), 0)));
    assert_eq!(assignments.get((link(4, 0), 4)), Some((dangling(), 0)));
    assert!(!assignments.contains_key((link(2, 0), 4)));
}

#[test]
fn repetitions_share_their_argument_ports() {
    let body = Region {
        scope: 50,
        nodes: vec![node(RegionOperation::RepeatArguments, vec![])],
        results: vec![link(0, 0)],
    };
    let nodes = vec![
        node(RegionOperation::I32, vec![]),
        node(
            RegionOperation::Repeat { arguments: vec![link(0, 0)], body, result_count: 1 },
            vec![link(0, 0)],
        ),
    ];
    let mut assignments = Preferences::new();
    reference_finder::run(&mut assignments, &nodes, 1);
    assert_eq!(assignments.get((link(0, 0), 1)), Some((link(0, 0), 50)));
    assert_eq!(assignments.get((link(1, 0), 1)), Some((link(0, 0), 50)));
    // The body's result is its argument port, which prefers itself.
    assert_eq!(assignments.get((link(0, 0), 50)), Some((link(0, 0), 50)));
}

#[test]
fn branches_share_the_last_branch() {
    let branches = vec![
        Region { scope: 60, nodes: vec![], results: vec![link(0, 0)] },
        Region { scope: 61, nodes: vec![], results: vec![link(1, 0)] },
    ];
    let nodes = vec![
        node(RegionOperation::I32, vec![]),
        node(
            RegionOperation::Match {
                condition: link(0, 0),
                arguments: vec![link(0, 0)],
                branches,
                result_count: 1,
            },
            vec![link(0, 0), link(0, 0)],
        ),
    ];
    let mut assignments = Preferences::new();
    reference_finder::run(&mut assignments, &nodes, 2);
    assert_eq!(assignments.get((link(0, 0), 2)), Some((link(0, 0), 61)));
    assert_eq!(assignments.get((link(1, 0), 2)), Some((link(1, 0), 61)));
    assert_eq!(assignments.get((link(0, 0), 61)), Some((dangling(), 0)));
    assert_eq!(assignments.get((link(1, 0), 61)), Some((dangling(), 0)));
    // The first branch's argument port is also its result, and the result
    // write comes last.
    assert_eq!(assignments.get((link(0, 0), 60)), Some((link(1, 0), 61)));
    // With two branches the condition needs no local.
    assert!(!assignments.contains_key((link(0, 0), 7)));
    let three = vec![
        Region { scope: 70, nodes: vec![], results: vec![] },
        Region { scope: 71, nodes: vec![], results: vec![] },
        Region { scope: 72, nodes: vec![], results: vec![] },
    ];
    let switch = vec![
        node(RegionOperation::I32, vec![]),
        node(
            RegionOperation::Match {
                condition: link(0, 0),
                arguments: vec![],
                branches: three,
                result_count: 0,
            },
            vec![link(0, 0)],
        ),
    ];
    let mut dispatch = Preferences::new();
    reference_finder::run(&mut dispatch, &switch, 3);
    assert_eq!(dispatch.get((link(0, 0), 3)), Some((dangling(), 0)));
}

#[test]
fn functions_get_stack_slots_of_their_own() {
    let body = Region {
        scope: 2,
        nodes: vec![
            node(RegionOperation::FunctionCaptures, vec![]),
            node(RegionOperation::FunctionArguments, vec![]),
            node(RegionOperation::I32, vec![]),
            node(RegionOperation::IntegerBinaryOperation, vec![link(2, 0), link(2, 0)]),
        ],
        results: vec![link(3, 0)],
    };
    let module = vec![
        node(RegionOperation::ModuleArguments { result_count: 1 }, vec![]),
        node(RegionOperation::Function { body, capture_count: 0, argument_count: 1 }, vec![]),
    ];
    let mut allocator = LocalAllocator::new();
    let mut stack_sizes = StackSizes::new();
    let mut assignments = LocalAssignments::new();
    allocator.run(&mut stack_sizes, &mut assignments, &module, 1, link(0, 0));
    assert_eq!(assignments.get((link(0, 0), 1)), Some(Local::Slow { offset: 0 }));
    assert_eq!(stack_sizes.get(1), Some(1));
    // The argument comes first, then the constant read twice.
    assert_eq!(assignments.get((link(1, 0), 2)), Some(Local::Slow { offset: 0 }));
    assert_eq!(assignments.get((link(2, 0), 2)), Some(Local::Slow { offset: 1 }));
    assert_eq!(assignments.get((link(3, 0), 2)), None);
    assert_eq!(assignments.get((link(0, 0), 2)), None);
    assert_eq!(stack_sizes.get(2), Some(2));
}

#[test]
fn repetition_outputs_share_the_locals_of_their_results() {
    let body = Region {
        scope: 8,
        nodes: vec![
            node(RegionOperation::RepeatArguments, vec![]),
            node(RegionOperation::I32, vec![]),
        ],
        results: vec![link(1, 0)],
    };
    let module = vec![
        node(RegionOperation::ModuleArguments { result_count: 0 }, vec![]),
        node(RegionOperation::Repeat { arguments: vec![], body, result_count: 1 }, vec![]),
    ];
    let mut allocator = LocalAllocator::new();
    let mut stack_sizes = StackSizes::new();
    let mut assignments = LocalAssignments::new();
    allocator.run(&mut stack_sizes, &mut assignments, &module, 7, link(0, 0));
    let shared = assignments.get((link(1, 0), 8));
    assert!(shared.is_some());
    assert_eq!(assignments.get((link(1, 0), 7)), shared);
    assert_eq!(stack_sizes.get(7), Some(1));
}
