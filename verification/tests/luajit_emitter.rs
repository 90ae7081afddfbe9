use spider::ir::{IntegerBinaryOperator, IntegerType, Link};
use spider::luajit::{Local, Name};
use spider::luajit_data::{build_import, DataHandler, Expression, RegisterArena, DEFERRED};
use spider::luajit_emit::{emit_expression, emit_or_defer, expression_of, ValueOperation};

fn link(node: u32, port: u16) -> Link {
    Link { node, port }
}

fn handler() -> DataHandler {
    let mut data = DataHandler::new();
    let arena = RegisterArena::from_registers(vec![vec![vec![5], vec![DEFERRED], vec![150, 3]]]);
    data.install(arena);
    data
}

#[test]
fn load_reads_registers_and_takes_deferred_expressions() {
    let mut data = handler();
    assert_eq!(data.node_count(0), 3);
    assert!(!data.is_deferred(0, 0));
    assert!(data.is_deferred(0, 1));
    data.store(0, 1, Expression::I32(7));
    assert!(matches!(data.load(0, link(0, 0)), Expression::Local(Local::Fast { name: Name { id: 5 } })));
    assert!(matches!(data.load(0, link(1, 0)), Expression::I32(7)));
    assert!(data.local_of(0, link(2, 0)) == Local::Slow { offset: 50 });
    let locals = data.port_locals(0, 2, 2);
    assert!(locals[0] == Local::Slow { offset: 50 });
    assert!(locals[1] == Local::Fast { name: Name { id: 3 } });
}

#[test]
fn load_all_reads_in_order() {
    let mut data = handler();
    data.store(0, 1, Expression::Null);
    let read = data.load_all(0, &[link(1, 0), link(2, 1)]);
    assert_eq!(read.len(), 2);
    assert!(matches!(read[0], Expression::Null));
    assert!(matches!(read[1], Expression::Local(Local::Fast { name: Name { id: 3 } })));
}

#[test]
fn compare_becomes_an_integer() {
    let mut data = handler();
    let built = data.build_integer_compare_operation(
        0,
        link(0, 0),
        link(2, 1),
        IntegerType::I32,
        spider::ir::IntegerCompareOperator::LessThan { signed: true },
    );
    match built {
        Expression::BooleanToInteger { source } => match *source {
            Expression::IntegerCompareOperation { lhs, rhs, .. } => {
                assert!(matches!(*lhs, Expression::Local(Local::Fast { name: Name { id: 5 } })));
                assert!(matches!(*rhs, Expression::Local(Local::Fast { name: Name { id: 3 } })));
            }
            _ => panic!("not a comparison"),
        },
        _ => panic!("not an integer"),
    }
}

#[test]
fn import_calls_the_runtime() {
    match build_import("env".to_string(), "f".to_string()) {
        Expression::RuntimeCall { name, arguments } => {
            assert_eq!(name, "import");
            assert!(matches!(&arguments[0], Expression::String(s) if s == "env"));
            assert!(matches!(&arguments[1], Expression::String(s) if s == "f"));
        }
        _ => panic!("not a runtime call"),
    }
}

#[test]
fn deferred_nodes_wait_for_their_reader() {
    let mut data = handler();
    let operation = ValueOperation::IntegerBinaryOperation {
        lhs: link(0, 0),
        rhs: link(2, 1),
        kind: IntegerType::I64,
        operator: IntegerBinaryOperator::Add,
    };
    assert!(emit_expression(&mut data, 0, 1, &operation).is_none());
    match data.load(0, link(1, 0)) {
        Expression::IntegerBinaryOperation { lhs, .. } => {
            assert!(matches!(*lhs, Expression::Local(Local::Fast { name: Name { id: 5 } })));
        }
        _ => panic!("not the stored expression"),
    }
    let assign = emit_or_defer(&mut data, 0, 2, Expression::Trap).unwrap();
    assert!(assign.destination == Local::Slow { offset: 50 });
    assert!(matches!(assign.source, Expression::Trap));
    assert!(matches!(expression_of(&mut data, 0, &ValueOperation::I32 { value: -4 }), Expression::I32(-4)));
}
