//! Properties of the store that span several operations.

use vstd::prelude::*;

use crate::changes::{look_relates, looked_from, recorded};
use topo::CallId;
use crate::store::{fits, keys_without, state_of, ScopeKey, StateMap, Store};
use crate::state_functions::{count_of, counted_run, nested_run};
use vstd::std_specs::cmp::PartialEqSpec;

verus! {

/// A context handle names one call identifier: two handles of the same
/// identifier are the same handle, so an accessor always reaches the context
/// it was made for.
pub proof fn law_handle_names_one_call(store: &Store, h1: u64, h2: u64)
    requires
        store.wf(),
        h1 < store.handles().len(),
        h2 < store.handles().len(),
        store.handles()[h1 as int] == store.handles()[h2 as int],
    ensures
        h1 == h2,
{
}

/// Two registered contexts never share a table key, so the states of one
/// never show through the other.
pub proof fn law_contexts_have_distinct_keys(store: &Store, a: u64, b: u64)
    requires
        store.wf(),
        store.key_map().contains_key(a),
        store.key_map().contains_key(b),
        a != b,
    ensures
        store.key_map()[a] != store.key_map()[b],
{
}

/// A context registered anew holds no state in any table that fitted the
/// store it was registered in: its table key is one that no entry of such a
/// table is kept under, whatever a purge left in the table before.
pub proof fn law_new_context_starts_empty<U>(before: &Store, after: &Store, table: &StateMap<U>, id: u64)
    requires
        fits(before, table),
        !before.key_map().contains_key(id),
        after.key_map().contains_key(id),
        after.key_map()[id] == before.next_key(),
    ensures
        state_of(after, table, id) is None,
{
}

/// Writing the state of one type for one context leaves the states of every
/// other table as they were, for every context; for the written context
/// itself when it was registered already, or when it was registered anew
/// under the next table key and the other table fits the store.
pub proof fn law_writes_stay_in_their_table<U>(before: &Store, after: &Store, other_table: &StateMap<U>, written: u64, ctx: u64)
    requires
        before.wf(),
        after.wf(),
        after.key_map().remove(written) == before.key_map().remove(written),
        before.key_map().contains_key(written) ==> after.key_map() == before.key_map(),
        !before.key_map().contains_key(written) ==> after.key_map()[written] == before.next_key(),
        after.key_map().contains_key(written),
        before.key_map().contains_key(ctx) || ctx != written || fits(before, other_table),
    ensures
        state_of(after, other_table, ctx) == state_of(before, other_table, ctx),
{
    if ctx == written && !before.key_map().contains_key(ctx) {
        law_new_context_starts_empty(before, after, other_table, ctx);
    }
    if ctx != written {
        let a = after.key_map();
        let b = before.key_map();
        assert(a.remove(written).dom() == a.dom().remove(written));
        assert(b.remove(written).dom() == b.dom().remove(written));
        assert(a.remove(written).dom().contains(ctx) == a.dom().contains(ctx));
        assert(b.remove(written).dom().contains(ctx) == b.dom().contains(ctx));
        assert(a.contains_key(ctx) == b.contains_key(ctx));
        if before.key_map().contains_key(ctx) {
            assert(a.remove(written)[ctx] == a[ctx]);
            assert(b.remove(written)[ctx] == b[ctx]);
            assert(after.key_map().remove(written)[ctx] == before.key_map().remove(written)[ctx]);
            assert(after.key_map()[ctx] == before.key_map()[ctx]);
        }
    }
}

/// A purge keeps the state of every context touched since the last reset
/// and drops the state of every context that was not.
pub proof fn law_purge_keeps_exactly_the_touched<T>(before: &Store, after: &Store, states: &StateMap<T>, id: u64)
    requires
        before.wf(),
        after.key_map() == keys_without(before.key_map(), before.unseen()),
    ensures
        !before.unseen().contains(id) ==> state_of(after, states, id) == state_of(before, states, id),
        before.unseen().contains(id) ==> state_of(after, states, id) is None,
{
}

/// Right after a reset every registered context is unseen, so a purge that
/// follows with nothing touched in between leaves no context registered.
pub proof fn law_reset_then_purge_empties(before: &Store, reset: &Store, purged: &Store)
    requires
        before.wf(),
        reset.key_map() == before.key_map(),
        reset.unseen() == before.key_map().dom(),
        purged.key_map() == keys_without(reset.key_map(), reset.unseen()),
    ensures
        purged.key_map() =~= Map::empty(),
{
}

/// A context touched once after a reset survives the following purge, with
/// the state it held after the touch.
pub proof fn law_touched_after_reset_survives<T>(
    reset: &Store,
    touched: &Store,
    purged: &Store,
    states: &StateMap<T>,
    id: u64,
)
    requires
        reset.wf(),
        touched.wf(),
        reset.unseen() == reset.key_map().dom(),
        touched.unseen() == reset.unseen().remove(id),
        touched.key_map().contains_key(id),
        purged.key_map() == keys_without(touched.key_map(), touched.unseen()),
    ensures
        state_of(purged, states, id) == state_of(touched, states, id),
        purged.key_map().contains_key(id),
{
}

/// One collection cycle: after a reset, the contexts in `touched_ids` are
/// touched (and others may be registered anew), then a purge runs. Every
/// context registered at the reset and not touched loses its state in every
/// table; every touched context and every context registered after the
/// reset keeps its table key and so its state; the purge leaves every
/// remaining context unseen again.
pub proof fn law_collection_cycle<T>(
    reset: &Store,
    touched: &Store,
    purged: &Store,
    touched_ids: Set<u64>,
    table: &StateMap<T>,
    id: u64,
)
    requires
        reset.wf(),
        touched.wf(),
        reset.unseen() == reset.key_map().dom(),
        touched.unseen() == reset.unseen().difference(touched_ids),
        forall|k: u64| #[trigger] reset.key_map().contains_key(k) ==> touched.key_map().contains_key(k)
            && touched.key_map()[k] == reset.key_map()[k],
        purged.key_map() == keys_without(touched.key_map(), touched.unseen()),
        purged.unseen() == purged.key_map().dom(),
    ensures
        reset.key_map().contains_key(id) && !touched_ids.contains(id) ==> state_of(purged, table, id) is None,
        touched.key_map().contains_key(id) && (touched_ids.contains(id) || !reset.key_map().contains_key(id))
            ==> state_of(purged, table, id) == state_of(touched, table, id),
        purged.key_map().contains_key(id) ==> purged.unseen().contains(id),
{
}

/// Two looks at a state that did not change in between, the copy being kept
/// in the same context: with a lawful `==` under which a clone equals what
/// it was cloned from, the second look reports no change, and a first look
/// that found no copy reports one.
pub proof fn law_second_look_sees_no_change<T: PartialEq + Clone>(
    s0: &Store,
    s1: &Store,
    s2: &Store,
    states: &StateMap<T>,
    snaps0: &StateMap<Option<T>>,
    snaps1: &StateMap<Option<T>>,
    snaps2: &StateMap<Option<T>>,
    id: u64,
    h: u64,
    first: bool,
    second: bool,
)
    requires
        T::obeys_eq_spec(),
        forall|a: T, b: T| cloned(a, b) ==> #[trigger] a.eq_spec(&b),
        look_relates(s0, s1, states, snaps0, snaps1, id, h, first),
        look_relates(s1, s2, states, snaps1, snaps2, id, h, second),
    ensures
        recorded(state_of(s0, snaps0, h)) is None ==> first,
        !second,
{
    let current = state_of(s0, states, id).unwrap();
    assert(state_of(s1, states, id).unwrap() == current);
    if first {
        let v = recorded(state_of(s1, snaps1, h)).unwrap();
        assert(cloned(current, v));
        assert(current.eq_spec(&v));
    }
}


/// Different counts below one context name different scopes: two contexts
/// whose scopes are counted below the same context with different counts
/// are different contexts.
pub proof fn law_counts_name_distinct_scopes(store: &Store, a: u64, b: u64, h: u64, n: u64, m: u64)
    requires
        a < store.handles().len(),
        b < store.handles().len(),
        store.handles()[a as int] == ScopeKey::Counted(h, n),
        store.handles()[b as int] == ScopeKey::Counted(h, m),
        n != m,
    ensures
        a != b,
{
}

/// Two runs of `use_lstate` one after the other that count in the same
/// context: the second counts one more than the first, and the accessor it
/// returns is not the first one's, so it reaches a state of its own.
pub proof fn law_counted_runs_are_apart(
    s0: &Store,
    s1: &Store,
    s2: &Store,
    c0: &StateMap<u64>,
    c1: &StateMap<u64>,
    c2: &StateMap<u64>,
    h: u64,
    a1: u64,
    a2: u64,
)
    requires
        counted_run(s0, s1, c0, c1, h, a1),
        counted_run(s1, s2, c1, c2, h, a2),
        s1.wf(),
        count_of(state_of(s1, c1, h)) < u64::MAX,
    ensures
        count_of(state_of(s2, c2, h)) == count_of(state_of(s1, c1, h)) + 1,
        a1 != a2,
{
    let n1 = count_of(state_of(s1, c1, h));
    assert(s1.key_map().contains_key(h));
    assert(s2.handles().subrange(0, s1.handles().len() as int)[a1 as int] == s1.handles()[a1 as int]);
    assert(s2.handles()[a1 as int] == ScopeKey::Counted(h, n1));
}

/// Looks made from one call scope keep one copy per context looked at: a
/// look at `a`, a look at another context `b`, and a look at `a` again with
/// nothing written in between keep their copies for `a` in one context and
/// for `b` in another, so the third look reports no change, whatever `b`
/// held (given a lawful `==` under which a clone equals what it was cloned
/// from).
pub proof fn law_looks_keep_a_copy_per_context<T: PartialEq + Clone>(
    s0: &Store,
    s1: &Store,
    s2: &Store,
    s3: &Store,
    states: &StateMap<T>,
    n0: &StateMap<Option<T>>,
    n1: &StateMap<Option<T>>,
    n2: &StateMap<Option<T>>,
    n3: &StateMap<Option<T>>,
    a: u64,
    b: u64,
    scope: CallId,
    h1: u64,
    h2: u64,
    h3: u64,
    first: bool,
    between: bool,
    again: bool,
)
    requires
        T::obeys_eq_spec(),
        forall|x: T, y: T| cloned(x, y) ==> #[trigger] x.eq_spec(&y),
        s3.wf(),
        a != b,
        looked_from(s0, s1, states, n0, n1, a, scope, h1, first),
        looked_from(s1, s2, states, n1, n2, b, scope, h2, between),
        looked_from(s2, s3, states, n2, n3, a, scope, h3, again),
    ensures
        h1 != h2,
        h3 == h1,
        !again,
{
    assert(s2.handles().subrange(0, s1.handles().len() as int)[h1 as int] == s1.handles()[h1 as int]);
    assert(s2.handles()[h1 as int] == ScopeKey::Look(scope, a));
    assert(s3.handles().subrange(0, s2.handles().len() as int)[h1 as int] == s2.handles()[h1 as int]);
    assert(s3.handles()[h1 as int] == ScopeKey::Look(scope, a));
    law_handle_names_one_call(s3, h1, h3);
    let current = state_of(s0, states, a).unwrap();
    assert(s1.key_map().contains_key(a));
    if a != h2 {
        crate::store::lemma_state_kept_elsewhere(s1, s2, states, h2, a);
    }
    assert(state_of(s2, states, a) == state_of(s1, states, a));
    assert(state_of(s2, n2, h1) == state_of(s1, n1, h1));
    if first {
        let v = recorded(state_of(s1, n1, h1)).unwrap();
        assert(cloned(current, v));
        assert(current.eq_spec(&v));
    }
}

/// Two runs of `use_istate` one after the other from the same call scope
/// open two nested calls with consecutive numbers and return different
/// accessors, so each keeps a state of its own.
pub proof fn law_nested_runs_are_apart(s0: &Store, s1: &Store, s2: &Store, scope: CallId, a1: u64, a2: u64)
    requires
        nested_run(s0, s1, scope, a1),
        nested_run(s1, s2, scope, a2),
        s1.nested_count(scope) < u64::MAX,
    ensures
        s2.nested_count(scope) == s1.nested_count(scope) + 1,
        a1 != a2,
{
    assert(s2.handles().subrange(0, s1.handles().len() as int)[a1 as int] == s1.handles()[a1 as int]);
    assert(s2.handles()[a1 as int] == ScopeKey::Nested(scope, s1.nested_count(scope)));
}

} // verus!
