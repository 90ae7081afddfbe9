use spider::luajit::{
    collect_argument_names, fast_locals_for, fmt_locals, fmt_stack_enter, fmt_stack_leave,
    print_i32, print_i64, register_to_local, stack_size_class_for, LuaJITPrinter, Local, Name,
};
use spider::text::{push_decimal, push_signed_decimal};

#[test]
fn registers_map_to_locals_then_stack_slots() {
    assert!(register_to_local(0) == Local::Fast { name: Name { id: 0 } });
    assert!(register_to_local(99) == Local::Fast { name: Name { id: 99 } });
    assert!(register_to_local(100) == Local::Slow { offset: 0 });
    assert!(register_to_local(165) == Local::Slow { offset: 65 });
}

#[test]
fn fast_locals_skip_arguments_and_cap_at_registers() {
    let ids = |names: Vec<Name>| names.iter().map(|name| name.id).collect::<Vec<u32>>();
    assert_eq!(ids(fast_locals_for(5, 2)), vec![2, 3, 4]);
    assert_eq!(ids(fast_locals_for(2, 5)), Vec::<u32>::new());
    assert_eq!(fast_locals_for(500, 0).len(), 100);
    assert_eq!(ids(collect_argument_names(3)), vec![0, 1, 2]);
    assert!(collect_argument_names(0).is_empty());
}

#[test]
fn stack_size_classes() {
    assert_eq!(stack_size_class_for(0), 0);
    assert_eq!(stack_size_class_for(100), 0);
    assert_eq!(stack_size_class_for(101), 16);
    assert_eq!(stack_size_class_for(116), 16);
    assert_eq!(stack_size_class_for(117), 64);
    assert_eq!(stack_size_class_for(1124), 1024);
    assert_eq!(stack_size_class_for(16484), 16384);
}

#[test]
fn printer_text_for_locals_and_stack() {
    let mut printer = LuaJITPrinter::new();
    let mut text = String::new();
    printer.print_local(Local::Fast { name: Name { id: 7 } }, &mut text);
    text.push(' ');
    printer.print_local(Local::Slow { offset: 0 }, &mut text);
    assert_eq!(text, "loc_7_ stack[1]");
    assert!(printer.get_name(Name { id: 7 }).is_none());

    printer.indent();
    printer.indent();
    let mut block = String::new();
    fmt_stack_enter(16, &printer, &mut block);
    fmt_locals(&[Name { id: 2 }, Name { id: 3 }], &printer, &mut block);
    fmt_stack_leave(16, &printer, &mut block);
    fmt_stack_enter(0, &printer, &mut block);
    fmt_locals(&[], &printer, &mut block);
    assert_eq!(
        block,
        "\t\tlocal stack = stack_acquire(16)\n\t\tlocal loc_2_, loc_3_\n\t\tstack_release(16, stack)\n"
    );
    printer.outdent();
    let mut tab = String::new();
    printer.tab(&mut tab);
    assert_eq!(tab, "\t");
    let mut wrapped = LuaJITPrinter::default();
    wrapped.outdent();
    let mut none = String::new();
    wrapped.indent();
    wrapped.tab(&mut none);
    assert_eq!(none, "");
}

#[test]
fn integer_constants() {
    let mut text = String::new();
    print_i32(-12, &mut text);
    text.push(' ');
    print_i64(9_000_000_000, &mut text);
    assert_eq!(text, "-12 9000000000LL");
    let mut digits = String::new();
    push_decimal(&mut digits, u64::MAX);
    push_signed_decimal(&mut digits, 0);
    assert_eq!(digits, "184467440737095516150");
}
