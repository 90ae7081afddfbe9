use spider::ir::{Link, StoreType};
use spider::luajit::{Local, Name};
use spider::luajit_data::{RegisterArena, DEFERRED};
use spider::luau_code::Statement;
use spider::luau_data::Expression;
use spider::luau_emit::LuauValue;
use spider::luau_emitter::{EmitNode, Emitter};
use spider::parallel_moves::sequence_moves;

fn fast(id: u32) -> Local {
    Local::Fast { name: Name { id } }
}

fn link(node: u32, port: u16) -> Link {
    Link { node, port }
}

// Runs moves on locals 0..8 holding their own numbers.
fn run(statements: &[Statement]) -> Vec<u32> {
    let mut values: Vec<u32> = (0..8).collect();
    let index = |local: &Local| match local {
        Local::Fast { name } => name.id as usize,
        Local::Slow { .. } => panic!("no slow locals here"),
    };
    for statement in statements {
        match statement {
            Statement::Assign { destination, source: Expression::Local(source) } => {
                values[index(destination)] = values[index(source)];
            }
            Statement::SwapAll { locals } => {
                let old: Vec<u32> = locals.iter().map(|l| values[index(l)]).collect();
                for (i, l) in locals.iter().enumerate() {
                    values[index(l)] = old[(i + 1) % old.len()];
                }
            }
            _ => panic!("not a move"),
        }
    }
    values
}

#[test]
fn parallel_moves_swap_cycles() {
    let statements = sequence_moves(vec![(fast(1), fast(2)), (fast(2), fast(1))]);
    let values = run(&statements);
    assert_eq!(values[1], 2);
    assert_eq!(values[2], 1);
    assert!(statements.iter().any(|s| matches!(s, Statement::SwapAll { .. })));
}

#[test]
fn parallel_moves_handle_chains_rotations_and_fanout() {
    let pairs = vec![
        (fast(1), fast(2)),
        (fast(2), fast(3)),
        (fast(3), fast(1)),
        (fast(4), fast(1)),
        (fast(5), fast(5)),
        (fast(6), fast(4)),
    ];
    let values = run(&sequence_moves(pairs));
    assert_eq!(values, vec![0, 2, 3, 1, 1, 5, 4, 7]);
    assert!(sequence_moves(vec![]).is_empty());
}

fn emitter(registers: Vec<Vec<u32>>) -> Emitter {
    let mut emitter = Emitter::new();
    emitter.start_function(RegisterArena::from_registers(vec![registers]));
    emitter
}

#[test]
fn value_nodes_are_assigned_or_deferred() {
    let nodes = vec![
        EmitNode::Value(LuauValue::I32 { value: 3 }),
        EmitNode::Value(LuauValue::IntegerWiden { source: link(0, 0) }),
    ];
    let mut emitter = emitter(vec![vec![DEFERRED], vec![4]]);
    emitter.handle_nodes(&nodes);
    let code = emitter.finish_scope();
    assert_eq!(code.statements.len(), 1);
    match &code.statements[0] {
        Statement::Assign { destination, source: Expression::Apply { name, arguments } } => {
            assert!(*destination == fast(4));
            assert_eq!(*name, "rt_widen_i32");
            assert!(matches!(arguments[0], Expression::I32(3)));
        }
        _ => panic!("not an assignment"),
    }
}

#[test]
fn state_nodes_bridge_their_reference() {
    // Node 1 stores through the memory held in node 0: its state port moves
    // the memory into its own local first.
    let nodes = vec![
        EmitNode::Boundary,
        EmitNode::MemoryStore { reference: link(0, 0), offset: link(0, 1), source: link(0, 2), kind: StoreType::I64I32 },
    ];
    let mut emitter = emitter(vec![vec![1, 2, 3], vec![5]]);
    emitter.handle_nodes(&nodes);
    let code = emitter.finish_scope();
    assert_eq!(code.statements.len(), 2);
    assert!(matches!(&code.statements[0], Statement::Assign { destination, source: Expression::Local(l) } if *destination == fast(5) && *l == fast(1)));
    match &code.statements[1] {
        Statement::Call { results, call: Expression::Apply { name, arguments } } => {
            assert!(results.is_empty());
            assert_eq!(*name, "rt_store_i64_into_i32");
            assert!(matches!(arguments[0], Expression::Local(l) if l == fast(5)));
        }
        _ => panic!("not a store call"),
    }
}

#[test]
fn calls_and_identities() {
    let nodes = vec![
        EmitNode::Boundary,
        EmitNode::Apply { function: link(0, 0), arguments: vec![link(0, 1)], result_count: 1 },
        EmitNode::Identity { sources: vec![link(0, 1), link(1, 0)] },
    ];
    let mut emitter = emitter(vec![vec![0, 1], vec![2], vec![2, 1]]);
    emitter.handle_nodes(&nodes);
    let code = emitter.finish_scope();
    match &code.statements[0] {
        Statement::Call { results, call: Expression::Call { arguments, .. } } => {
            assert!(results[0] == fast(2));
            assert_eq!(arguments.len(), 1);
        }
        _ => panic!("not a call"),
    }
    let values = run(&code.statements[1..]);
    assert_eq!(values[2], 1);
    assert_eq!(values[1], 2);
}

#[test]
fn functions_declare_their_locals() {
    let nodes = vec![EmitNode::Boundary, EmitNode::Value(LuauValue::Null)];
    let mut emitter = Emitter::new();
    let arena = RegisterArena::from_registers(vec![vec![vec![0], vec![3]]]);
    let function = emitter.emit_function(&nodes, &[link(1, 0)], 1, arena, 120);
    assert_eq!(function.arguments.len(), 1);
    assert_eq!(function.locals.len(), 99);
    assert_eq!(function.stack, 64);
    assert_eq!(function.code.statements.len(), 1);
    assert!(matches!(function.returned[0], Expression::Local(l) if l == fast(3)));
}

#[test]
fn repeat_results_close_the_loop_body() {
    let arena = || RegisterArena::from_registers(vec![vec![vec![1, 2], vec![3], vec![]]]);
    let mut emitter = Emitter::new();
    emitter.start_function(arena());
    emitter.start_function(arena());
    let nodes = vec![
        EmitNode::Boundary,
        EmitNode::Value(LuauValue::I32 { value: 9 }),
        EmitNode::RepeatResults { condition: link(1, 0), sources: vec![link(1, 0), link(0, 0)], arguments: 0 },
    ];
    emitter.handle_nodes(&nodes);
    let code = emitter.finish_scope();
    assert_eq!(code.statements.len(), 1);
    match &code.statements[0] {
        Statement::Repeat { code: body, condition, rotation } => {
            assert_eq!(body.statements.len(), 1);
            assert!(matches!(condition, Expression::Local(l) if *l == fast(3)));
            let values = run(&rotation.statements);
            assert_eq!(values[1], 3);
            assert_eq!(values[2], 1);
        }
        _ => panic!("not a loop"),
    }
}
