use comp_state::id_tree::{create_id_tree, IdTree};
use comp_state::store::{StateMap, Store};

fn sample() -> IdTree {
    // 1 ── 2 ── 4
    //  └── 3
    let mut t = IdTree::new();
    t.root_with(1);
    t.push_child(1, 2);
    t.push_child(1, 3);
    t.push_child(2, 4);
    t
}

#[test]
fn destroy_from_id_lists_the_branch_depth_first() {
    let t = sample();
    assert_eq!(t.destroy_from_id(1), vec![1, 2, 4, 3]);
    assert_eq!(t.destroy_from_id(2), vec![2, 4]);
    assert_eq!(t.destroy_from_id(3), vec![3]);
    assert_eq!(t.destroy_from_id(99), Vec::<u64>::new());
}

#[test]
fn destroy_all_names_every_node_once() {
    let t = sample();
    let mut ids = t.destroy_all();
    ids.sort();
    assert_eq!(ids, vec![1, 2, 3, 4]);
}

#[test]
fn a_known_child_is_not_added_again() {
    let mut t = sample();
    t.push_child(3, 4);
    assert_eq!(t.destroy_from_id(3), vec![3]);
    assert_eq!(t.destroy_all().len(), 4);
}

#[test]
fn branch_keys_follow_the_children() {
    let t = sample();
    let root = t.find_key_of(1).unwrap();
    let two = t.find_key_of(2).unwrap();
    let three = t.find_key_of(3).unwrap();
    let four = t.find_key_of(4).unwrap();
    let mut collected = vec![];
    t.get_branch_keys(root, &mut collected);
    assert_eq!(collected, vec![two, four, three]);
    let mut from_four = vec![77];
    t.get_branch_keys(four, &mut from_four);
    assert_eq!(from_four, vec![77]);
}

#[test]
fn the_tree_state_starts_with_its_root() {
    let mut store = Store::new();
    let mut trees: StateMap<IdTree> = StateMap::new();
    let access = create_id_tree(&mut store, &mut trees);
    access.add_id(&mut store, &mut trees, access.id, 50);
    access.add_id(&mut store, &mut trees, 50, 51);
    let ids = comp_state::state_functions::read_state_with_topo_id(&mut store, &mut trees, access.id, |t: &IdTree| {
        t.destroy_from_id(access.id)
    });
    assert_eq!(ids, vec![access.id, 50, 51]);
    let again = create_id_tree(&mut store, &mut trees);
    assert_eq!(again.id, access.id);
}

#[test]
fn a_default_tree_is_empty() {
    let mut t = IdTree::default();
    assert_eq!(t.len(), 0);
    assert_eq!(t.destroy_all(), Vec::<u64>::new());
    assert_eq!(t.find_key_of(1), None);
    t.root_with(1);
    t.root_with(1);
    assert_eq!(t.len(), 2);
    assert_eq!(t.destroy_all(), vec![1, 1]);
}

#[test]
fn destroy_all_follows_the_order_of_insertion() {
    let t = sample();
    assert_eq!(t.destroy_all(), vec![1, 2, 3, 4]);
}

#[test]
fn the_first_node_naming_the_parent_gets_the_child() {
    let mut t = IdTree::new();
    t.root_with(1);
    t.root_with(1);
    let first = t.find_key_of(1).unwrap();
    t.push_child(1, 2);
    let mut below_first = vec![];
    t.get_branch_keys(first, &mut below_first);
    assert_eq!(below_first, vec![t.find_key_of(2).unwrap()]);
    assert_eq!(t.destroy_from_id(1), vec![1, 2]);
    assert_eq!(t.destroy_all(), vec![1, 1, 2]);
}

#[test]
fn add_call_places_the_context_of_a_call() {
    let mut store = Store::new();
    let mut trees: StateMap<IdTree> = StateMap::new();
    let access = create_id_tree(&mut store, &mut trees);
    let call = topo::call(topo::CallId::current);
    access.add_call(&mut store, &mut trees, access.id, call);
    let child = store.handle_of(call);
    access.add_call(&mut store, &mut trees, 12345, call);
    let ids = comp_state::state_functions::read_state_with_topo_id(&mut store, &mut trees, access.id, |t: &IdTree| {
        t.destroy_from_id(access.id)
    });
    assert_eq!(ids, vec![access.id, child]);
}
