//! Decisions the example components make: a counter driven by messages and
//! the comparison of two numbers typed by the user.

use vstd::prelude::*;

use crate::state_access::StateAccess;
use crate::store::{state_of, StateMap, Store};

verus! {

/// A message that a counter component handles.
pub enum ComponentMsg {
    Increment,
    Decrement,
}

/// The counter value after `msg`.
pub open spec fn counter_after(v: i32, msg: ComponentMsg) -> int {
    match msg {
        ComponentMsg::Increment => v + 1,
        ComponentMsg::Decrement => v - 1,
    }
}

/// Applies `msg` to the counter that `state` reaches, which must hold one
/// whose new value fits an `i32`.
pub fn dispatch(store: &mut Store, counters: &mut StateMap<i32>, state: StateAccess<i32>, msg: ComponentMsg)
    requires
        old(store).wf(),
        state_of(&*old(store), &*old(counters), state.id) is Some,
        i32::MIN <= counter_after(state_of(&*old(store), &*old(counters), state.id).unwrap(), msg) <= i32::MAX,
    ensures
        final(store).wf(),
        state_of(&*final(store), &*final(counters), state.id) matches Some(v) && v == counter_after(
            state_of(&*old(store), &*old(counters), state.id).unwrap(),
            msg,
        ),
        final(store).key_map() == old(store).key_map(),
        final(store).unseen() == old(store).unseen().remove(state.id),
        forall|other: u64| other != state.id ==> state_of(&*final(store), &*final(counters), other) == state_of(&*old(store), &*old(counters), other),
{
    match msg {
        ComponentMsg::Increment => state.update(
            store,
            counters,
            |v: i32| -> (r: i32) requires v < i32::MAX ensures r == v + 1 { v + 1 },
        ),
        ComponentMsg::Decrement => state.update(
            store,
            counters,
            |v: i32| -> (r: i32) requires v > i32::MIN ensures r == v - 1 { v - 1 },
        ),
    }
}

/// The log entry for two numbers: which of them is the smallest.
pub open spec fn smallest_entry_text(a: i32, b: i32) -> Seq<char> {
    if a < b {
        "<li>A is the smallest</li>"@
    } else if b < a {
        "<li>B is the smallest</li>"@
    } else {
        "<li>Neither is the smallest</li>"@
    }
}

/// The log entry that says which of `a` and `b` is the smallest.
pub fn smallest_entry(a: i32, b: i32) -> (entry: &'static str)
    ensures
        entry@ == smallest_entry_text(a, b),
{
    if a < b {
        "<li>A is the smallest</li>"
    } else if b < a {
        "<li>B is the smallest</li>"
    } else {
        "<li>Neither is the smallest</li>"
    }
}

/// Whether `s` is a non-empty run of decimal digits.
pub open spec fn is_digits(s: Seq<char>) -> bool {
    s.len() > 0 && forall|i: int| 0 <= i < s.len() ==> '0' <= #[trigger] s[i] <= '9'
}

/// The number that a run of decimal digits writes.
pub open spec fn decimal(s: Seq<char>) -> int
    decreases s.len(),
{
    if s.len() == 0 {
        0
    } else {
        decimal(s.drop_last()) * 10 + (s.last() as int - '0' as int)
    }
}

/// What `str::parse::<i32>` makes of `s`: an optional `+` or `-` followed
/// by one or more decimal digits, whose value fits an `i32`; anything else
/// is an error.
pub open spec fn parse_i32_spec(s: Seq<char>) -> Option<i32> {
    let negative = s.len() > 0 && s[0] == '-';
    let digits = if s.len() > 0 && (s[0] == '-' || s[0] == '+') {
        s.drop_first()
    } else {
        s
    };
    let value = if negative {
        -decimal(digits)
    } else {
        decimal(digits)
    };
    if is_digits(digits) && i32::MIN <= value <= i32::MAX {
        Some(value as i32)
    } else {
        None
    }
}

/// `str::parse::<i32>`, its error dropped.
#[verifier::external_body]
fn parse_i32(s: &str) -> (n: Option<i32>)
    ensures
        n == parse_i32_spec(s@),
{
    s.parse::<i32>().ok()
}

/// The number a text box holds, when its text is an `i32`.
pub fn parse_number(text: &str) -> (n: Option<i32>)
    ensures
        n == parse_i32_spec(text@),
{
    parse_i32(text)
}

/// The log entry for two typed numbers: which of them is the smallest, or
/// nothing when either text is not an `i32`.
pub fn smallest_log_entry(a: &str, b: &str) -> (entry: Option<&'static str>)
    ensures
        match (parse_i32_spec(a@), parse_i32_spec(b@)) {
            (Some(x), Some(y)) => entry matches Some(e) && e@ == smallest_entry_text(x, y),
            _ => entry is None,
        },
{
    let x = parse_i32(a);
    let y = parse_i32(b);
    match (x, y) {
        (Some(x), Some(y)) => Some(smallest_entry(x, y)),
        _ => None,
    }
}

} // verus!
