use comp_state::state_access::StateAccess;
use comp_state::state_functions::{
    clone_state_with_topo_id, purge_and_reset_unseen_ids, read_state_with_topo_id,
    remove_state_with_topo_id, reset_unseen_id_list, set_state_with_topo_id,
    state_exists_for_topo_id, update_state_with_topo_id, use_istate, use_lstate, use_state,
};
use comp_state::store::{StateMap, Store};

#[test]
fn set_then_clone_gives_the_value_back() {
    let mut store = Store::new();
    let mut strings: StateMap<String> = StateMap::new();
    set_state_with_topo_id(&mut store, &mut strings, "foo".to_string(), 7);
    assert_eq!(clone_state_with_topo_id(&mut store, &strings, 7), Some("foo".to_string()));
    assert!(state_exists_for_topo_id(&mut store, &strings, 7));
    assert!(!state_exists_for_topo_id(&mut store, &strings, 8));
    assert_eq!(clone_state_with_topo_id(&mut store, &strings, 8), None);
    set_state_with_topo_id(&mut store, &mut strings, "bar".to_string(), 7);
    assert_eq!(clone_state_with_topo_id(&mut store, &strings, 7), Some("bar".to_string()));
    assert_eq!(store.len(), 1);
}

#[test]
fn states_of_different_types_are_apart() {
    let mut store = Store::new();
    let mut numbers: StateMap<i32> = StateMap::new();
    let mut flags: StateMap<bool> = StateMap::new();
    set_state_with_topo_id(&mut store, &mut numbers, 3, 1);
    assert!(!state_exists_for_topo_id(&mut store, &flags, 1));
    set_state_with_topo_id(&mut store, &mut flags, true, 1);
    assert_eq!(clone_state_with_topo_id(&mut store, &numbers, 1), Some(3));
    assert_eq!(clone_state_with_topo_id(&mut store, &flags, 1), Some(true));
    assert_eq!(store.len(), 1);
}

#[test]
fn other_contexts_are_untouched_by_a_set() {
    let mut store = Store::new();
    let mut numbers: StateMap<i32> = StateMap::new();
    set_state_with_topo_id(&mut store, &mut numbers, 10, 1);
    set_state_with_topo_id(&mut store, &mut numbers, 20, 2);
    set_state_with_topo_id(&mut store, &mut numbers, 11, 1);
    assert_eq!(clone_state_with_topo_id(&mut store, &numbers, 2), Some(20));
    assert_eq!(clone_state_with_topo_id(&mut store, &numbers, 1), Some(11));
    assert_eq!(store.len(), 2);
}

#[test]
fn remove_takes_the_state_out() {
    let mut store = Store::new();
    let mut numbers: StateMap<i32> = StateMap::new();
    set_state_with_topo_id(&mut store, &mut numbers, 5, 3);
    assert_eq!(remove_state_with_topo_id(&mut store, &mut numbers, 3), Some(5));
    assert_eq!(remove_state_with_topo_id(&mut store, &mut numbers, 3), None);
    assert!(!state_exists_for_topo_id(&mut store, &numbers, 3));
    assert_eq!(remove_state_with_topo_id(&mut store, &mut numbers, 99), None);
}

#[test]
fn update_applies_the_function() {
    let mut store = Store::new();
    let mut lists: StateMap<Vec<String>> = StateMap::new();
    set_state_with_topo_id(&mut store, &mut lists, vec![], 4);
    update_state_with_topo_id(&mut store, &mut lists, 4, |mut v: Vec<String>| {
        v.push("foo".to_string());
        v
    });
    assert_eq!(clone_state_with_topo_id(&mut store, &lists, 4), Some(vec!["foo".to_string()]));
}

#[test]
fn read_gives_what_the_function_makes_and_keeps_the_state() {
    let mut store = Store::new();
    let mut numbers: StateMap<i32> = StateMap::new();
    set_state_with_topo_id(&mut store, &mut numbers, 21, 4);
    let doubled = read_state_with_topo_id(&mut store, &mut numbers, 4, |v: &i32| *v * 2);
    assert_eq!(doubled, 42);
    assert_eq!(clone_state_with_topo_id(&mut store, &numbers, 4), Some(21));
}

#[test]
fn purge_drops_exactly_the_untouched() {
    let mut store = Store::new();
    let mut numbers: StateMap<i32> = StateMap::new();
    set_state_with_topo_id(&mut store, &mut numbers, 1, 1);
    set_state_with_topo_id(&mut store, &mut numbers, 2, 2);
    set_state_with_topo_id(&mut store, &mut numbers, 3, 3);
    reset_unseen_id_list(&mut store);
    // touch 1 by reading and 3 by writing; 2 stays unseen
    assert!(state_exists_for_topo_id(&mut store, &numbers, 1));
    set_state_with_topo_id(&mut store, &mut numbers, 30, 3);
    purge_and_reset_unseen_ids(&mut store);
    assert_eq!(store.len(), 2);
    assert_eq!(clone_state_with_topo_id(&mut store, &numbers, 2), None);
    // the reads above touched 1 and 3 again
    assert_eq!(clone_state_with_topo_id(&mut store, &numbers, 1), Some(1));
    assert_eq!(clone_state_with_topo_id(&mut store, &numbers, 3), Some(30));
}

#[test]
fn remove_counts_as_a_touch() {
    let mut store = Store::new();
    let mut numbers: StateMap<i32> = StateMap::new();
    let mut flags: StateMap<bool> = StateMap::new();
    set_state_with_topo_id(&mut store, &mut numbers, 1, 1);
    set_state_with_topo_id(&mut store, &mut flags, true, 1);
    reset_unseen_id_list(&mut store);
    assert_eq!(remove_state_with_topo_id(&mut store, &mut numbers, 1), Some(1));
    purge_and_reset_unseen_ids(&mut store);
    assert_eq!(store.len(), 1);
    assert_eq!(clone_state_with_topo_id(&mut store, &flags, 1), Some(true));
    assert_eq!(clone_state_with_topo_id(&mut store, &numbers, 1), None);
}

#[test]
fn a_context_registered_after_a_purge_sees_nothing_left_behind() {
    let mut store = Store::new();
    let mut numbers: StateMap<i32> = StateMap::new();
    let mut flags: StateMap<bool> = StateMap::new();
    set_state_with_topo_id(&mut store, &mut numbers, 1, 5);
    set_state_with_topo_id(&mut store, &mut flags, true, 5);
    reset_unseen_id_list(&mut store);
    purge_and_reset_unseen_ids(&mut store);
    assert_eq!(store.len(), 0);
    for id in 6..12u64 {
        set_state_with_topo_id(&mut store, &mut numbers, 2, id);
        assert_eq!(clone_state_with_topo_id(&mut store, &flags, id), None);
        assert_eq!(clone_state_with_topo_id(&mut store, &numbers, id), Some(2));
    }
    assert_eq!(store.len(), 6);
}

#[test]
fn two_purges_without_touches_empty_the_store() {
    let mut store = Store::new();
    let mut numbers: StateMap<i32> = StateMap::new();
    set_state_with_topo_id(&mut store, &mut numbers, 1, 1);
    set_state_with_topo_id(&mut store, &mut numbers, 2, 2);
    purge_and_reset_unseen_ids(&mut store);
    assert_eq!(store.len(), 2);
    purge_and_reset_unseen_ids(&mut store);
    assert_eq!(store.len(), 0);
    assert!(!state_exists_for_topo_id(&mut store, &numbers, 1));
}

#[test]
fn a_purged_context_starts_afresh() {
    let mut store = Store::new();
    let mut numbers: StateMap<i32> = StateMap::new();
    let mut flags: StateMap<bool> = StateMap::new();
    set_state_with_topo_id(&mut store, &mut numbers, 1, 5);
    set_state_with_topo_id(&mut store, &mut flags, true, 5);
    reset_unseen_id_list(&mut store);
    purge_and_reset_unseen_ids(&mut store);
    set_state_with_topo_id(&mut store, &mut numbers, 2, 5);
    assert_eq!(clone_state_with_topo_id(&mut store, &numbers, 5), Some(2));
    assert_eq!(clone_state_with_topo_id(&mut store, &flags, 5), None);
}

#[test]
fn use_state_initialises_once() {
    let mut store = Store::new();
    let mut strings: StateMap<String> = StateMap::new();
    let first = use_state(&mut store, &mut strings, || "foo".to_string());
    assert_eq!(first.hard_clone(&mut store, &strings), "foo".to_string());
    first.set(&mut store, &mut strings, "bar".to_string());
    let mut called = false;
    let second = use_state(&mut store, &mut strings, || {
        called = true;
        "baz".to_string()
    });
    assert!(!called);
    assert_eq!(second.id, first.id);
    assert_eq!(second.hard_clone(&mut store, &strings), "bar".to_string());
}

#[test]
fn use_istate_gets_a_scope_of_its_own() {
    let mut store = Store::new();
    let mut numbers: StateMap<i32> = StateMap::new();
    let outer = use_state(&mut store, &mut numbers, || 1);
    let inner = use_istate(&mut store, &mut numbers, || 2);
    assert_ne!(outer.id, inner.id);
    assert_eq!(outer.hard_clone(&mut store, &numbers), 1);
    assert_eq!(inner.hard_clone(&mut store, &numbers), 2);
}

#[test]
fn use_lstate_makes_a_fresh_state_each_time() {
    let mut store = Store::new();
    let mut counters: StateMap<u64> = StateMap::new();
    let mut strings: StateMap<String> = StateMap::new();
    let a = use_lstate(&mut store, &mut counters, &mut strings, || "a".to_string());
    let b = use_lstate(&mut store, &mut counters, &mut strings, || "b".to_string());
    assert_ne!(a.id, b.id);
    assert_eq!(a.hard_clone(&mut store, &strings), "a".to_string());
    assert_eq!(b.hard_clone(&mut store, &strings), "b".to_string());
}

#[test]
fn accessor_methods_reach_their_context() {
    let mut store = Store::new();
    let mut numbers: StateMap<i32> = StateMap::new();
    let access: StateAccess<i32> = StateAccess::new(9);
    assert_eq!(access.clone_state(&mut store, &numbers), None);
    access.set(&mut store, &mut numbers, 4);
    let copy = access;
    copy.update(&mut store, &mut numbers, |v: i32| v + 1);
    assert_eq!(access.clone_state(&mut store, &numbers), Some(5));
    assert_eq!(access.remove(&mut store, &mut numbers), Some(5));
    assert_eq!(access.clone_state(&mut store, &numbers), None);
}

#[test]
fn one_call_identifier_has_one_handle() {
    let mut store = Store::new();
    let here = topo::CallId::current();
    let nested = topo::call(topo::CallId::current);
    let h1 = store.handle_of(here);
    let h2 = store.handle_of(nested);
    let h3 = store.handle_of(here);
    assert_eq!(h1, 0);
    assert_eq!(h2, 1);
    assert_eq!(h3, 0);
}

#[test]
fn store_methods_report_and_purge() {
    let mut store = Store::new();
    let mut numbers: StateMap<i32> = StateMap::new();
    store.set_state_with_topo_id(&mut numbers, 8, 2);
    assert_eq!(store.get_state_with_topo_id(&numbers, 2), Some(&8));
    assert_eq!(store.get_state_with_topo_id(&numbers, 3), None);
    store.reset_unseen_id_list();
    store.purge_unseen_ids();
    assert_eq!(store.len(), 0);
    assert_eq!(store.get_state_with_topo_id(&numbers, 2), None);
}

#[test]
fn state_changed_at_keeps_the_copy_in_the_given_context() {
    let mut store = Store::new();
    let mut numbers: StateMap<i32> = StateMap::new();
    let mut snapshots: StateMap<Option<i32>> = StateMap::new();
    let access: StateAccess<i32> = StateAccess::new(1);
    access.set(&mut store, &mut numbers, 5);
    let call = topo::call(topo::CallId::current);
    assert!(access.state_changed_at(&mut store, &numbers, &mut snapshots, call));
    assert!(!access.state_changed_at(&mut store, &numbers, &mut snapshots, call));
    let snapshot_handle = store.handle_of(call);
    assert_eq!(clone_state_with_topo_id(&mut store, &snapshots, snapshot_handle), Some(Some(5)));
    access.set(&mut store, &mut numbers, 6);
    assert!(access.state_changed_at(&mut store, &numbers, &mut snapshots, call));
    assert_eq!(clone_state_with_topo_id(&mut store, &snapshots, snapshot_handle), Some(Some(6)));
}

#[test]
fn use_lstate_counts_its_runs_in_the_current_scope() {
    let mut store = Store::new();
    let mut counters: StateMap<u64> = StateMap::new();
    let mut strings: StateMap<String> = StateMap::new();
    use_lstate(&mut store, &mut counters, &mut strings, || "a".to_string());
    use_lstate(&mut store, &mut counters, &mut strings, || "b".to_string());
    use_lstate(&mut store, &mut counters, &mut strings, || "c".to_string());
    let here = store.handle_of(topo::CallId::current());
    assert_eq!(clone_state_with_topo_id(&mut store, &counters, here), Some(3));
}

#[test]
fn do_once_runs_its_work_once() {
    let mut store = Store::new();
    let mut flags: StateMap<bool> = StateMap::new();
    let mut runs = 0;
    comp_state::state_functions::do_once(&mut store, &mut flags, || runs += 1);
    comp_state::state_functions::do_once(&mut store, &mut flags, || runs += 1);
    assert_eq!(runs, 1);
    let call = topo::call(topo::CallId::current);
    comp_state::state_functions::do_once_for_call(&mut store, &mut flags, call, || runs += 10);
    comp_state::state_functions::do_once_for_call(&mut store, &mut flags, call, || runs += 10);
    assert_eq!(runs, 11);
}

#[test]
fn looks_and_counted_states_use_scopes_apart() {
    let mut store = Store::new();
    let mut counters: StateMap<u64> = StateMap::new();
    let mut numbers: StateMap<i32> = StateMap::new();
    let mut snapshots: StateMap<Option<i32>> = StateMap::new();
    let counted = use_lstate(&mut store, &mut counters, &mut numbers, || 7);
    // handle 0 is this scope, handle 1 the scope that the count 1 names
    assert_eq!(counted.id, 1);
    let looked: StateAccess<i32> = StateAccess::new(1);
    assert!(looked.state_changed(&mut store, &numbers, &mut snapshots));
    assert!(!looked.state_changed(&mut store, &numbers, &mut snapshots));
    // the copy went to a scope of its own, not to the counted state's
    assert_eq!(clone_state_with_topo_id(&mut store, &snapshots, 1), None);
    assert_eq!(clone_state_with_topo_id(&mut store, &snapshots, 2), Some(Some(7)));
}

#[test]
fn room_is_counted_in_registrations() {
    let mut store = Store::new();
    let mut numbers: StateMap<i32> = StateMap::new();
    assert!(store.has_room_for(1));
    assert!(!store.has_room_for(u64::MAX));
    set_state_with_topo_id(&mut store, &mut numbers, 1, 1);
    assert!(store.has_room_for(2));
    assert!(!store.has_room_for(comp_state::slots::SLOT_CAPACITY));
    assert!(store.has_room_for(comp_state::slots::SLOT_CAPACITY - 1));
}

#[test]
fn retain_live_drops_what_a_purge_left_behind() {
    let mut store = Store::new();
    let mut numbers: StateMap<i32> = StateMap::new();
    let mut flags: StateMap<bool> = StateMap::new();
    set_state_with_topo_id(&mut store, &mut numbers, 1, 1);
    set_state_with_topo_id(&mut store, &mut numbers, 2, 2);
    set_state_with_topo_id(&mut store, &mut flags, true, 2);
    reset_unseen_id_list(&mut store);
    assert!(state_exists_for_topo_id(&mut store, &numbers, 1));
    purge_and_reset_unseen_ids(&mut store);
    numbers.retain_live(&store);
    flags.retain_live(&store);
    assert_eq!(clone_state_with_topo_id(&mut store, &numbers, 1), Some(1));
    assert_eq!(clone_state_with_topo_id(&mut store, &numbers, 2), None);
    assert_eq!(clone_state_with_topo_id(&mut store, &flags, 2), None);
    // context 2 registered anew starts empty in both tables
    set_state_with_topo_id(&mut store, &mut numbers, 3, 2);
    assert_eq!(clone_state_with_topo_id(&mut store, &flags, 2), None);
    assert_eq!(clone_state_with_topo_id(&mut store, &numbers, 2), Some(3));
}
