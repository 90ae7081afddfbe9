use spider::index_provider::IndexProvider;
use spider::names::Names;

#[test]
fn names_number_nodes_in_scopes() {
    let mut names = Names::new();
    names.enter_scope();
    assert_eq!(names.assign(), 0);
    assert_eq!(names.assign(), 1);
    names.enter_scope();
    assert_eq!(names.assign(), 2);
    assert_eq!(names.assign(), 3);
    assert_eq!(names.entry(), 2);
    assert_eq!(names.exit(), 3);
    assert_eq!(names.resolve(1), 3);
    names.leave_scope();
    // Leaving the inner scope restores the outer one; ids are not reused.
    assert_eq!(names.resolve(0), 0);
    assert_eq!(names.resolve(1), 1);
    assert_eq!(names.exit(), 1);
    assert_eq!(names.assign(), 4);
    assert_eq!(names.resolve(2), 4);
}

#[test]
fn names_clear_restarts_numbering() {
    let mut names = Names::new();
    names.enter_scope();
    names.assign();
    names.assign();
    names.clear();
    names.enter_scope();
    assert_eq!(names.assign(), 0);
    assert_eq!(names.entry(), 0);
}

#[test]
fn index_provider_creates_then_recycles() {
    let mut provider = IndexProvider::new();
    assert!(provider.should_create());
    assert_eq!(provider.pull(5), 0);
    assert_eq!(provider.pull(5), 1);
    assert_eq!(provider.pull(7), 2);
    assert_eq!(provider.get_names(), 3);
    // Nothing ends at 4; no hold is released.
    provider.push_until(4);
    assert!(provider.should_create());
    // Both holds ending at 5 are released.
    provider.push_until(5);
    assert!(!provider.should_create());
    // The largest free index comes first.
    assert_eq!(provider.pull(9), 1);
    assert_eq!(provider.pull(9), 0);
    assert_eq!(provider.pull(9), 3);
    assert_eq!(provider.get_names(), 4);
}

#[test]
fn index_provider_push_until_waits_for_earlier_holds() {
    let mut provider = IndexProvider::new();
    provider.pull(3);
    provider.pull(5);
    // A hold ends at 3, before 5: nothing is released at 5 yet.
    provider.push_until(5);
    assert!(provider.should_create());
    provider.push_until(3);
    assert!(!provider.should_create());
    assert_eq!(provider.pull(8), 0);
}

#[test]
fn index_provider_revives_only_free_indices() {
    let mut provider = IndexProvider::new();
    provider.pull(2);
    provider.pull(2);
    assert!(!provider.try_revive(0, 6));
    provider.push_until(2);
    assert!(provider.try_revive(0, 6));
    assert!(!provider.try_revive(0, 6));
    // Index 1 is still free and is handed out next.
    assert_eq!(provider.pull(6), 1);
    assert!(provider.should_create());
}

#[test]
fn index_provider_forgets_free_indices_above_a_scope() {
    let mut provider = IndexProvider::new();
    provider.pull(1);
    provider.pull(1);
    provider.pull(1);
    provider.push_until(1);
    provider.forget_free(1);
    assert_eq!(provider.pull(2), 0);
    assert!(provider.should_create());
    assert_eq!(provider.pull(2), 3);
}

#[test]
fn index_provider_should_exceed_counts_holds() {
    let mut provider = IndexProvider::new();
    assert!(provider.should_exceed(0));
    assert!(!provider.should_exceed(1));
    provider.pull(1);
    provider.pull(1);
    assert!(provider.should_exceed(2));
    assert!(!provider.should_exceed(3));
    provider.set_names(40);
    assert_eq!(provider.pull(1), 40);
}
