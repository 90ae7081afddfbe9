use spider::function_provider::{FunctionProvider, MAX_LOCAL_VARIABLES};
use spider::place::{Local, Name, Place};
use spider::scoped_provider::ScopedProvider;
use spider::table_provider::TableProvider;
use spider::index_provider::IndexProvider;

#[test]
fn function_provider_spills_after_the_local_limit() {
    let mut provider = FunctionProvider::new();
    for id in 0..MAX_LOCAL_VARIABLES as u32 {
        assert!(provider.pull(10) == Place::Definition { name: Name { id } });
    }
    // The 200th value goes to slot 0 of a table held in local 199.
    let place = provider.pull(10);
    assert!(place == Place::Overflow { table: Name { id: 199 }, index: 0 });
    assert!(provider.pull(10) == Place::Overflow { table: Name { id: 199 }, index: 1 });
    assert!(place.into_local() == Local::Slow { table: Name { id: 199 }, index: 0 });
    provider.push_until(10);
    // Freed locals are reused, as assignments.
    let reused = provider.pull(11);
    assert!(reused == Place::Assignment { name: Name { id: 198 } });
    assert!(reused.into_local() == Local::Fast { name: Name { id: 198 } });
}

#[test]
fn function_provider_revives_places() {
    let mut provider = FunctionProvider::new();
    let first = provider.pull(3);
    assert!(first.into_definition() == Name { id: 0 });
    assert!(!provider.try_revive(first, 5));
    provider.push_until(3);
    assert!(provider.try_revive(first, 5));
    assert!(provider.pull(5) == Place::Definition { name: Name { id: 1 } });
}

#[test]
fn table_provider_creates_its_table_once() {
    let mut locals = IndexProvider::new();
    let mut table = TableProvider::Nothing;
    assert!(table.pull(4, &mut locals) == Place::Overflow { table: Name { id: 0 }, index: 0 });
    assert!(table.pull(4, &mut locals) == Place::Overflow { table: Name { id: 0 }, index: 1 });
    assert_eq!(locals.get_names(), 1);
    assert!(!table.try_revive(Name { id: 0 }, 0, 9));
    table.push_until(4);
    assert!(!table.try_revive(Name { id: 5 }, 0, 9));
    assert!(table.try_revive(Name { id: 0 }, 0, 9));
    let created = table.try_into_created();
    assert!(created == Some((Name { id: 0 }, 2)));
    assert!(TableProvider::Nothing.try_into_created().is_none());
}

#[test]
fn scoped_provider_continues_numbering_in_nested_functions() {
    let mut scoped = ScopedProvider::new();
    scoped.push_function_scope();
    assert!(scoped.pull(4) == Place::Definition { name: Name { id: 0 } });
    assert!(scoped.pull(4) == Place::Definition { name: Name { id: 1 } });
    scoped.push_function_scope();
    assert!(scoped.pull(2) == Place::Definition { name: Name { id: 2 } });
    assert!(scoped.pop_function_scope().is_none());
    // The outer function continues after the nested function's locals.
    assert!(scoped.pull(4) == Place::Definition { name: Name { id: 3 } });
}

#[test]
fn scoped_provider_block_scope_forgets_its_free_locals() {
    let mut scoped = ScopedProvider::new();
    scoped.push_function_scope();
    scoped.pull(9);
    scoped.push_local_scope();
    scoped.pull(2);
    scoped.push_until(2);
    scoped.pop_local_scope();
    // Local 1 was created inside the block and is forgotten with it.
    assert!(scoped.pull(9) == Place::Definition { name: Name { id: 2 } });
    assert!(scoped.try_revive(Place::Assignment { name: Name { id: 1 } }, 9) == false);
}
