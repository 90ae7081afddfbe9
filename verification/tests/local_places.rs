use spider::ir::Link;
use spider::local_provider::{LinkPlaces, LocalProvider};
use spider::place::{Name, Place};

fn link(node: u32, port: u16) -> Link {
    Link { node, port }
}

#[test]
fn outputs_keep_the_places_of_their_inputs() {
    let mut provider = LocalProvider::new();
    let mut locals = LinkPlaces::new();
    provider.push_function_scope();
    provider.pull_all_into(0..3, 5, &mut locals);
    assert!(locals.get(link(5, 0)) == Some(Place::Definition { name: Name { id: 0 } }));
    assert!(locals.get(link(5, 2)) == Some(Place::Definition { name: Name { id: 2 } }));
    // The outputs of node 5 live until just past it.
    provider.push_until(6);
    provider.revive_all_into(&[link(5, 1), link(5, 0), link(9, 0)], 7, &mut locals);
    assert!(locals.get(link(7, 0)) == Some(Place::Assignment { name: Name { id: 1 } }));
    assert!(locals.get(link(7, 1)) == Some(Place::Assignment { name: Name { id: 0 } }));
    // The third input has no place, so its output gets a free one.
    assert!(locals.get(link(7, 2)) == Some(Place::Assignment { name: Name { id: 2 } }));
    assert!(locals.contains_key(link(7, 2)));
    assert!(!locals.contains_key(link(7, 3)));
}

#[test]
fn recorded_lifetimes_hold_places_longer() {
    let mut provider = LocalProvider::new();
    let mut locals = LinkPlaces::new();
    provider.push_function_scope();
    provider.lifetimes_mut().insert(link(1, 0), 10);
    provider.pull_all_into(0..1, 1, &mut locals);
    provider.pull_all_into(0..1, 2, &mut locals);
    provider.push_until(3);
    // Only the value of node 2 is free at 3; node 1's is held until 10.
    provider.pull_all_into(0..1, 4, &mut locals);
    assert!(locals.get(link(4, 0)) == Some(Place::Assignment { name: Name { id: 1 } }));
    provider.push_local_scope();
    provider.pop_local_scope();
    assert!(provider.pop_function_scope().is_none());
}
