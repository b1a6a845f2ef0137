use comp_state::components::{parse_number, dispatch, smallest_entry, smallest_log_entry, ComponentMsg};
use comp_state::state_access::StateAccess;
use comp_state::state_functions::use_state;
use comp_state::store::{StateMap, Store};

#[test]
fn dispatch_moves_the_counter() {
    let mut store = Store::new();
    let mut counters: StateMap<i32> = StateMap::new();
    let val = use_state(&mut store, &mut counters, || 0);
    dispatch(&mut store, &mut counters, val, ComponentMsg::Increment);
    dispatch(&mut store, &mut counters, val, ComponentMsg::Increment);
    dispatch(&mut store, &mut counters, val, ComponentMsg::Decrement);
    assert_eq!(val.hard_clone(&mut store, &counters), 1);
}

#[test]
fn smallest_entries() {
    assert_eq!(smallest_entry(1, 2), "<li>A is the smallest</li>");
    assert_eq!(smallest_entry(2, 1), "<li>B is the smallest</li>");
    assert_eq!(smallest_entry(2, 2), "<li>Neither is the smallest</li>");
}

#[test]
fn smallest_log_entry_parses_both_numbers() {
    assert_eq!(smallest_log_entry("3", "5"), Some("<li>A is the smallest</li>"));
    assert_eq!(smallest_log_entry("+7", "-7"), Some("<li>B is the smallest</li>"));
    assert_eq!(smallest_log_entry("-0", "0"), Some("<li>Neither is the smallest</li>"));
    assert_eq!(smallest_log_entry("x", "1"), None);
    assert_eq!(smallest_log_entry("1", ""), None);
    assert_eq!(smallest_log_entry("2147483648", "1"), None);
    assert_eq!(smallest_log_entry("-2147483648", "2147483647"), Some("<li>A is the smallest</li>"));
    assert_eq!(smallest_log_entry(" 1", "2"), None);
}

#[test]
fn state_changed_notices_new_values() {
    let mut store = Store::new();
    let mut strings: StateMap<String> = StateMap::new();
    let mut snapshots: StateMap<Option<String>> = StateMap::new();
    let input: StateAccess<String> = use_state(&mut store, &mut strings, || "a".to_string());
    assert!(input.state_changed(&mut store, &strings, &mut snapshots));
    assert!(!input.state_changed(&mut store, &strings, &mut snapshots));
    input.set(&mut store, &mut strings, "b".to_string());
    assert!(input.state_changed(&mut store, &strings, &mut snapshots));
    assert!(!input.state_changed(&mut store, &strings, &mut snapshots));
}

#[test]
fn parse_number_reads_an_i32() {
    assert_eq!(parse_number("42"), Some(42));
    assert_eq!(parse_number("-7"), Some(-7));
    assert_eq!(parse_number("+7"), Some(7));
    assert_eq!(parse_number(""), None);
    assert_eq!(parse_number("4x"), None);
    assert_eq!(parse_number("2147483648"), None);
}
