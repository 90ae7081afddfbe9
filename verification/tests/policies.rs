use spider::ir::{IntegerBinaryOperator, IntegerType, Link, Node, Operation, StoreHint};
use spider::policy::{LuaJITPolicy, LuauPolicy, UseState, ALL_KINDS, PHYSICAL_REGISTERS};

fn link(node: u32, port: u16) -> Link {
    Link { node, port }
}

fn node(operation: Operation, inputs: Vec<Link>, address: usize) -> Node {
    Node { operation, inputs, reuse_hints: vec![None], address }
}

fn add() -> Operation {
    Operation::IntegerBinaryOperation { kind: IntegerType::I32, operator: IntegerBinaryOperator::Add }
}

fn function() -> Vec<Node> {
    vec![
        node(Operation::FunctionArguments, vec![], 10),
        node(Operation::I32 { value: 1 }, vec![], 11),
        node(add(), vec![link(1, 0), link(0, 0)], 12),
        node(Operation::FunctionResults, vec![link(2, 0)], 13),
    ]
}

#[test]
fn use_state_transitions() {
    let mut state = UseState::Unused;
    state.observe(0);
    assert!(state == UseState::Deferrable);
    state.observe(0);
    assert!(state == UseState::Blocked);
    let mut other = UseState::Unused;
    other.observe(1);
    assert!(other == UseState::Blocked);
    let mut blocked = UseState::Deferrable;
    blocked.block();
    assert!(blocked == UseState::Blocked);
}

#[test]
fn luau_policy_defers_single_use_values() {
    let nodes = function();
    let mut policy = LuauPolicy::new();
    policy.precompute(&nodes);
    assert!(policy.should_materialize(&nodes[0]));
    assert!(!policy.should_materialize(&nodes[1]));
    assert!(!policy.should_materialize(&nodes[2]));
    assert!(policy.should_materialize(&nodes[3]));
}

#[test]
fn luau_policy_pins_values_read_twice() {
    let mut nodes = function();
    nodes.push(node(add(), vec![link(1, 0), link(1, 0)], 14));
    let mut policy = LuauPolicy::new();
    policy.precompute(&nodes);
    assert!(policy.should_materialize(&nodes[1]));
    assert!(!policy.should_materialize(&nodes[2]));
}

#[test]
fn luau_policy_descends_into_regions_and_matches() {
    let branch = |address: usize| {
        vec![
            node(Operation::BranchArguments, vec![], address),
            node(Operation::I32 { value: 2 }, vec![], address + 1),
            node(Operation::BranchResults, vec![link(1, 0)], address + 2),
        ]
    };
    let two_way = Operation::Match {
        condition: link(1, 0),
        arguments: vec![link(0, 0)],
        branches: vec![branch(30), branch(40)],
    };
    let three_way = Operation::Match {
        condition: link(2, 0),
        arguments: vec![],
        branches: vec![branch(50), branch(60), branch(70)],
    };
    let nodes = vec![
        node(Operation::FunctionArguments, vec![], 20),
        node(Operation::I32 { value: 0 }, vec![], 21),
        node(Operation::I32 { value: 1 }, vec![], 22),
        node(two_way, vec![link(1, 0), link(0, 0)], 23),
        node(three_way, vec![link(2, 0)], 24),
    ];
    let mut policy = LuauPolicy::new();
    policy.precompute(&nodes);
    // A two-way match tests its condition once, so the condition is inlined;
    // a wider match reads it from a register.
    assert!(!policy.should_materialize(&nodes[1]));
    assert!(policy.should_materialize(&nodes[2]));
    // Branch results are not plain consumers, so the constants in the
    // branches get registers.
    let inner = branch(30);
    assert!(policy.should_materialize(&inner[1]));

    let mut luajit = LuaJITPolicy::new();
    luajit.precompute(&nodes);
    // Any read by a match pins its source in LuaJIT.
    assert!(luajit.should_materialize(&nodes[1]));
}

#[test]
fn store_hints_pin_the_reference() {
    let store = Operation::Foreign {
        identifier: "Buffer Store",
        store: Some(StoreHint { state_port: 0, reference: link(1, 0) }),
    };
    let nodes = vec![
        node(Operation::FunctionArguments, vec![], 1),
        node(Operation::Null, vec![], 2),
        node(store, vec![link(1, 0)], 3),
    ];
    let mut luau = LuauPolicy::new();
    luau.precompute(&nodes);
    assert!(luau.should_materialize(&nodes[1]));
    assert!(luau.reuse_hint(&nodes[2], 0) == Some(link(1, 0)));
    assert!(luau.reuse_hint(&nodes[2], 1).is_none());
    let mut luajit = LuaJITPolicy::new();
    luajit.precompute(&nodes);
    assert!(!luajit.should_materialize(&nodes[1]));
    assert!(luajit.reuse_hint(&nodes[2], 0).is_none());
}

#[test]
fn registers_take_every_kind() {
    let policy = LuauPolicy::new();
    let registers = policy.registers();
    assert_eq!(registers.len(), PHYSICAL_REGISTERS as usize);
    assert!(registers.iter().all(|&kind| kind == 0xFF));
    assert_eq!(policy.kind(&node(Operation::Null, vec![], 0), 0), ALL_KINDS);
    assert_eq!(LuaJITPolicy::new().registers().len(), 100);
}

#[test]
fn luajit_policy_pins_values_read_twice_hinted_or_by_regions() {
    let mut nodes = function();
    nodes.push(node(Operation::I32 { value: 2 }, vec![], 14));
    nodes.push(node(add(), vec![link(4, 0)], 15));
    nodes.push(node(add(), vec![link(4, 0)], 16));
    nodes.push(node(Operation::I32 { value: 3 }, vec![], 17));
    nodes.push(Node { operation: add(), inputs: vec![link(7, 0)], reuse_hints: vec![Some(link(7, 0))], address: 18 });
    let mut policy = LuaJITPolicy::new();
    policy.precompute(&nodes);
    assert!(!policy.should_materialize(&nodes[1]));
    assert!(policy.should_materialize(&nodes[4]));
    assert!(policy.should_materialize(&nodes[7]));
    let mut again = LuaJITPolicy::new();
    again.precompute(&function());
    again.precompute(&nodes);
    assert!(again.should_materialize(&nodes[4]));
    assert!(again.should_materialize(&nodes[5]));
    assert!(!again.should_materialize(&nodes[1]));
}

#[test]
fn names_round_trip_through_nested_scopes() {
    let mut names = spider::names::Names::new();
    names.enter_scope();
    let first = names.assign();
    names.enter_scope();
    names.assign();
    names.enter_scope();
    names.assign();
    names.leave_scope();
    names.assign();
    names.leave_scope();
    assert_eq!(names.resolve(0), first);
    assert_eq!(names.exit(), first);
    assert_eq!(names.assign(), first + 4);
}
