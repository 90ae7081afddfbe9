use spider::ir::{IntegerBinaryOperator, IntegerCompareOperator, IntegerType, Link, LoadType};
use spider::luajit::{Local, Name};
use spider::luajit_data::{RegisterArena, DEFERRED};
use spider::luau_data::{DataHandler, Expression};
use spider::luau_code::{CodeHandler, Statement};
use spider::luau_emit::{build_foreign, emit_expression, emit_or_defer, expression_of, value_foreign, LuauForeign, LuauValue};

fn link(node: u32, port: u16) -> Link {
    Link { node, port }
}

fn handler() -> DataHandler {
    let mut data = DataHandler::new();
    data.install(RegisterArena::from_registers(vec![vec![vec![1], vec![DEFERRED], vec![101]]]));
    data
}

#[test]
fn luau_operations_call_the_runtime() {
    let mut data = handler();
    data.store(0, 1, Expression::I32(9));
    match data.build_integer_binary_operation(0, link(0, 0), link(1, 0), IntegerType::I64, IntegerBinaryOperator::Add) {
        Expression::Apply { name, arguments } => {
            assert_eq!(name, "rt_add_i64");
            assert!(matches!(arguments[0], Expression::Local(Local::Fast { name: Name { id: 1 } })));
            assert!(matches!(arguments[1], Expression::I32(9)));
        }
        _ => panic!("not a runtime call"),
    }
    assert!(!data.is_deferred(0, 2));
    assert!(data.local_of(0, link(2, 0)) == Local::Slow { offset: 1 });
}

#[test]
fn luau_comparisons_become_integers() {
    let mut data = handler();
    match data.build_integer_compare_operation(0, link(0, 0), link(2, 0), IntegerType::I32, IntegerCompareOperator::LessThan { signed: false }) {
        Expression::BooleanToInteger { source } => match *source {
            Expression::Apply { name, arguments } => {
                assert_eq!(name, "rt_less_than_u32");
                assert!(matches!(arguments[1], Expression::Local(Local::Slow { offset: 1 })));
            }
            _ => panic!("not a runtime call"),
        },
        _ => panic!("not an integer"),
    }
}

#[test]
fn luau_memory_and_vectors() {
    let mut data = handler();
    match data.build_memory_load(0, link(0, 0), link(2, 0), LoadType::I64U16) {
        Expression::Apply { name, .. } => assert_eq!(name, "rt_load_i64_from_u16"),
        _ => panic!("not a runtime call"),
    }
    match data.build_vector_create(0, link(0, 0)) {
        Expression::Apply { name, arguments } => {
            assert_eq!(name, "vector_create");
            assert_eq!(arguments.len(), 3);
            assert!(matches!(arguments[2], Expression::I32(0)));
        }
        _ => panic!("not a vector"),
    }
    data.store(0, 1, Expression::String("buffer".to_string()));
    match data.build_buffer_store(0, link(1, 0), "writeu8", link(0, 0), link(2, 0)) {
        Expression::Apply { name, arguments } => {
            assert_eq!(name, "writeu8");
            assert!(matches!(&arguments[0], Expression::Extract { index: 0, .. }));
        }
        _ => panic!("not a store"),
    }
}

#[test]
fn luau_foreign_operations_pick_their_forms() {
    let mut data = handler();
    match value_foreign(&mut data, 0, &LuauForeign::Bit32LRotate { lhs: link(0, 0), rhs: link(2, 0) }) {
        Expression::Apply { name, arguments } => {
            assert_eq!(name, "bit32_lrotate");
            assert_eq!(arguments.len(), 2);
        }
        _ => panic!("not a bit32 call"),
    }
    match value_foreign(&mut data, 0, &LuauForeign::LuauFloorDivide { lhs: link(0, 0), rhs: link(2, 0) }) {
        Expression::Infix { operator, .. } => assert_eq!(operator, "//"),
        _ => panic!("not an operator"),
    }
    match value_foreign(&mut data, 0, &LuauForeign::LuauNegate { source: link(0, 0) }) {
        Expression::Prefix { operator, .. } => assert_eq!(operator, "-"),
        _ => panic!("not a prefix"),
    }
    match value_foreign(&mut data, 0, &LuauForeign::TableLoad { reference: link(0, 0), offset: link(2, 0) }) {
        Expression::Index { .. } => {}
        _ => panic!("not an index"),
    }
    match build_foreign(&LuauForeign::TuringAsk) {
        Expression::Apply { name, arguments } => {
            assert_eq!(name, "rt_turing_ask");
            assert!(arguments.is_empty());
        }
        _ => panic!("not a runtime call"),
    }
    match build_foreign(&LuauForeign::Import { namespace: "env".to_string(), identifier: "g".to_string() }) {
        Expression::Apply { name, arguments } => {
            assert_eq!(name, "rt_import");
            assert!(matches!(&arguments[1], Expression::String(s) if s == "g"));
        }
        _ => panic!("not a runtime call"),
    }
}

#[test]
fn luau_values_become_runtime_calls_or_constants() {
    let mut data = handler();
    match expression_of(&mut data, 0, &LuauValue::IntegerNarrow { source: link(0, 0) }) {
        Expression::Apply { name, .. } => assert_eq!(name, "rt_narrow_i64"),
        _ => panic!("not a runtime call"),
    }
    assert!(matches!(expression_of(&mut data, 0, &LuauValue::I64 { value: 5 }), Expression::I64(5)));
    match expression_of(&mut data, 0, &LuauValue::Foreign(LuauForeign::MathFmod { lhs: link(0, 0), rhs: link(2, 0) })) {
        Expression::Apply { name, .. } => assert_eq!(name, "math_fmod"),
        _ => panic!("not a math call"),
    }
}

#[test]
fn luau_code_handler_keeps_scopes() {
    let mut code = CodeHandler::new();
    code.push_scope();
    code.emit_assign(Local::Fast { name: Name { id: 2 } }, Expression::Local(Local::Fast { name: Name { id: 2 } }));
    code.emit_assign(Local::Fast { name: Name { id: 2 } }, Expression::I32(3));
    code.push_scope();
    code.emit_runtime_call("rt_table_drop", vec![Expression::Null]);
    code.emit_repeat(Expression::I32(1), spider::luau_code::Sequence { statements: vec![] });
    let done = code.pop_scope();
    assert_eq!(done.statements.len(), 2);
    assert!(matches!(&done.statements[0], Statement::Assign { source: Expression::I32(3), .. }));
    match &done.statements[1] {
        Statement::Repeat { code: body, .. } => assert_eq!(body.statements.len(), 1),
        _ => panic!("not a loop"),
    }
}

#[test]
fn luau_values_are_assigned_or_deferred() {
    let mut data = handler();
    let mut code = CodeHandler::new();
    code.push_scope();
    emit_expression(&mut data, &mut code, 0, 1, &LuauValue::I32 { value: 6 });
    emit_expression(&mut data, &mut code, 0, 2, &LuauValue::IntegerWiden { source: link(1, 0) });
    emit_or_defer(&mut data, &mut code, 0, 0, Expression::Local(Local::Fast { name: Name { id: 1 } }));
    let done = code.pop_scope();
    assert_eq!(done.statements.len(), 1);
    match &done.statements[0] {
        Statement::Assign { destination, source: Expression::Apply { name, arguments } } => {
            assert!(*destination == Local::Slow { offset: 1 });
            assert_eq!(*name, "rt_widen_i32");
            assert!(matches!(arguments[0], Expression::I32(6)));
        }
        _ => panic!("not the widened value"),
    }
}
