use spider::color::Color;
use spider::interner::Interner;
use spider::ir::{
    ExtendType, IntegerBinaryOperator, IntegerCompareOperator, IntegerType, Link, Node,
    NumberType, NumberUnaryOperator, Operation,
};
use spider::json_printer::JsonPrinter;
use spider::json_text::{print_str, print_u32_list};
use spider::label::{get_static, NoDynamicName};

fn node(operation: Operation, inputs: Vec<Link>) -> Node {
    Node { operation, inputs, reuse_hints: Vec::new(), address: 0 }
}

fn link(node: u32, port: u16) -> Link {
    Link { node, port }
}

#[test]
fn color_codes() {
    assert_eq!(Color::Blue.as_string(), "#8BB1F9");
    assert_eq!(Color::Green.as_string(), "#A1FC8F");
    assert_eq!(Color::Red.as_string(), "#E07E7C");
    assert_eq!(Color::Brown.as_string(), "#A99D94");
    assert_eq!(Color::Yellow.as_string(), "#FFFF93");
}

#[test]
fn colors_follow_the_node_family() {
    let body = vec![node(Operation::FunctionArguments, vec![])];
    assert!(Color::from_reference(&node(Operation::Function { body }, vec![])) == Color::Blue);
    assert!(Color::from_reference(&node(Operation::BranchResults, vec![])) == Color::Green);
    assert!(Color::from_reference(&node(Operation::RepeatArguments, vec![])) == Color::Red);
    assert!(Color::from_reference(&node(Operation::ModuleResults, vec![])) == Color::Brown);
    assert!(Color::from_reference(&node(Operation::MemoryGrow, vec![])) == Color::Yellow);
}

#[test]
fn static_and_dynamic_labels() {
    assert_eq!(get_static(&node(Operation::RefIsNull, vec![])), Some("Ref Is Null"));
    assert_eq!(get_static(&node(Operation::Foreign { identifier: "Buffer Store", store: None }, vec![])), Some("Buffer Store"));
    assert_eq!(get_static(&node(Operation::I32 { value: 3 }, vec![])), None);
    assert_eq!(spider::label::write(&node(Operation::I32 { value: -5 }, vec![])), Ok("-5_i32".to_string()));
    assert_eq!(spider::label::write(&node(Operation::I64 { value: i64::MIN }, vec![])), Ok("-9223372036854775808_i64".to_string()));
    assert_eq!(spider::label::write(&node(Operation::F32 { text: "1.5e0".to_string() }, vec![])), Ok("1.5e0_f32".to_string()));
    let divide = Operation::IntegerBinaryOperation {
        kind: IntegerType::I64,
        operator: IntegerBinaryOperator::Divide { signed: true },
    };
    assert_eq!(spider::label::write(&node(divide, vec![])), Ok("I64 s/".to_string()));
    let compare = Operation::IntegerCompareOperation {
        kind: IntegerType::I32,
        operator: IntegerCompareOperator::LessThanEqual { signed: false },
    };
    assert_eq!(spider::label::write(&node(compare, vec![])), Ok("I32 u<=".to_string()));
    let extend = Operation::IntegerSignExtend { kind: ExtendType::I32S8 };
    assert_eq!(spider::label::write(&node(extend, vec![])), Ok("Sign Extend S8 to I32".to_string()));
    let nearest = Operation::NumberUnaryOperation { kind: NumberType::F64, operator: NumberUnaryOperator::Nearest };
    assert_eq!(spider::label::write(&node(nearest, vec![])), Ok("F64 Nearest".to_string()));
    assert!(spider::label::write(&node(Operation::Trap, vec![])) == Err(NoDynamicName));
}

#[test]
fn json_text_escapes_and_lists() {
    let mut text = String::new();
    print_str(&mut text, "a\"b\\c\n\t\u{1}é");
    assert_eq!(text, "\"a\\\"b\\\\c\\n\\t\\u0001é\"");
    let mut plain = String::new();
    print_str(&mut plain, "it's");
    print_str(&mut plain, "\u{1f}\u{7f}");
    assert_eq!(plain, "\"it's\"\"\\u001f\u{7f}\"");
    let mut list = String::new();
    print_u32_list(&mut list, &[]);
    print_u32_list(&mut list, &[7, 0, 4294967295]);
    assert_eq!(list, "[][7, 0, 4294967295]");
}

#[test]
fn interner_gives_first_positions() {
    let mut interner = Interner::new();
    assert_eq!(interner.resolve("a"), 0);
    assert_eq!(interner.resolve("b"), 1);
    assert_eq!(interner.resolve("a"), 0);
    assert_eq!(interner.strings().len(), 2);
    assert_eq!(interner.strings()[1], "b");
    interner.clear();
    assert_eq!(interner.resolve("b"), 0);
}

#[test]
fn json_printer_prints_a_module() {
    let module = vec![
        node(Operation::ModuleArguments, vec![]),
        node(Operation::I32 { value: 7 }, vec![]),
        node(Operation::ModuleResults, vec![link(1, 0)]),
    ];
    let mut printer = JsonPrinter::new();
    let text = printer.print(&module);
    assert_eq!(
        text,
        "{\"subgraphs\":[0, 1, 3],\"nodes\":[0, 0, 1, 1, 2, 1, 2, 3, 4, 3, 5, 1],\
         \"edges\":[2, 0, 3, 0],\"strings\":[\"Module\", \"#A99D94\", \"Module Arguments\", \
         \"7_i32\", \"#FFFF93\", \"Module Results\"]}"
    );
}

#[test]
fn json_printer_nests_regions_as_subgraphs() {
    let body = vec![
        node(Operation::FunctionArguments, vec![]),
        node(Operation::FunctionResults, vec![link(0, 0)]),
    ];
    let module = vec![
        node(Operation::ModuleArguments, vec![]),
        node(Operation::Function { body }, vec![]),
        node(Operation::ModuleResults, vec![link(1, 0), link(0, 1)]),
    ];
    let mut printer = JsonPrinter::default();
    let text = printer.print(&module);
    // Ids in pre-order: module 0, arguments 1, function 2, its nodes 3 and 4,
    // results 5. The function's subgraph is recorded first.
    assert_eq!(
        text,
        "{\"subgraphs\":[2, 3, 4, 0, 1, 5],\
         \"nodes\":[0, 0, 1, 3, 2, 3, 4, 4, 3, 1, 5, 1, 2, 6, 3, 5, 7, 1],\
         \"edges\":[3, 0, 4, 0, 2, 0, 5, 0, 1, 1, 5, 1],\
         \"strings\":[\"Module\", \"#A99D94\", \"Function Arguments\", \"#8BB1F9\", \
         \"Function Results\", \"Module Arguments\", \"Function\", \"Module Results\"]}"
    );
    // Printing again starts afresh.
    let again = printer.print(&module);
    assert_eq!(again, text);
}
