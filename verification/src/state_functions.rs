//! The state functions: typed state kept per call-tree context, and the
//! collection of contexts that a render did not touch.

use vstd::prelude::*;

use crate::state_access::StateAccess;
use crate::store::{ScopeKey, fits, grown_by_at_most, has_room, handles_grow_by_at_most, keys_without, slots_without, state_of, StateMap, Store};
use crate::topo_ids::{current_call_id, in_nested_call, in_slot_call};
use crate::changes::{handle_for, handle_for_key};
use topo::CallId;

verus! {

/// The scope `key` was met before and its context is registered.
pub open spec fn key_registered(store: &Store, key: ScopeKey) -> bool {
    store.handles().contains(key) && store.key_map().contains_key(handle_for_key(store, key))
}

/// The context of `call` was met before and is registered.
pub open spec fn call_registered(store: &Store, call: CallId) -> bool {
    key_registered(store, ScopeKey::Call(call))
}

/// A store whose handles stayed or had `call` added keeps the old handles in
/// place.
proof fn lemma_push_keeps_prefix(before: &Store, after: &Store, key: ScopeKey)
    requires
        before.handles().contains(key) ==> after.handles() == before.handles(),
        !before.handles().contains(key) ==> after.handles() == before.handles().push(key),
    ensures
        handles_grow_by_at_most(before, after, 1),
{
    assert(before.handles().push(key).subrange(0, before.handles().len() as int) =~= before.handles());
    assert(before.handles().subrange(0, before.handles().len() as int) =~= before.handles());
}

/// The accessor for the state of type `T` kept for the scope `key`: when
/// that context holds no such state yet, `data_fn` makes it; otherwise
/// `data_fn` is not called.
pub fn use_state_for_key<T, F: FnOnce() -> T>(
    store: &mut Store,
    states: &mut StateMap<T>,
    key: ScopeKey,
    data_fn: F,
) -> (access: StateAccess<T>)
    requires
        old(store).wf(),
        has_room(&*old(store), 1) || key_registered(&*old(store), key),
        data_fn.requires(()),
    ensures
        final(store).nested_calls() == old(store).nested_calls(),
        final(store).wf(),
        access.id < final(store).handles().len(),
        final(store).handles()[access.id as int] == key,
        old(store).handles().contains(key) ==> final(store).handles() == old(store).handles(),
        !old(store).handles().contains(key) ==> final(store).handles() == old(store).handles().push(key),
        final(store).unseen() == old(store).unseen().remove(access.id),
        final(store).key_map().remove(access.id) == old(store).key_map().remove(access.id),
        grown_by_at_most(&*old(store), &*final(store), 1),
        old(store).key_map().contains_key(access.id) ==> final(store).key_map() == old(store).key_map(),
        !old(store).key_map().contains_key(access.id) ==> final(store).key_map()[access.id] == old(store).next_key(),
        fits(&*old(store), &*old(states)) ==> fits(&*final(store), &*final(states)),
        state_of(&*final(store), &*final(states), access.id) is Some,
        state_of(&*old(store), &*old(states), access.id) is Some ==> {
            &&& final(store).key_map() == old(store).key_map()
            &&& *final(states) == *old(states)
        },
        state_of(&*old(store), &*old(states), access.id) is None ==> data_fn.ensures(
            (),
            state_of(&*final(store), &*final(states), access.id).unwrap(),
        ),
        forall|other: u64| other != access.id ==> state_of(&*final(store), &*final(states), other) == state_of(&*old(store), &*old(states), other),
{
    let ghost s0 = *store;
    let id = store.handle_of_scope(key);
    proof {
        if key_registered(&s0, key) {
            crate::laws::law_handle_names_one_call(&*store, id, handle_for_key(&s0, key));
        }
    }
    if !state_exists_for_topo_id(store, states, id) {
        set_state_with_topo_id(store, states, data_fn(), id);
    }
    StateAccess::new(id)
}

/// The accessor for the state of type `T` kept for the context `call`: when
/// that context holds no such state yet, `data_fn` makes it; otherwise
/// `data_fn` is not called.
pub fn use_state_for_call<T, F: FnOnce() -> T>(
    store: &mut Store,
    states: &mut StateMap<T>,
    call: CallId,
    data_fn: F,
) -> (access: StateAccess<T>)
    requires
        old(store).wf(),
        has_room(&*old(store), 1) || call_registered(&*old(store), call),
        data_fn.requires(()),
    ensures
        final(store).wf(),
        access.id < final(store).handles().len(),
        final(store).handles()[access.id as int] == ScopeKey::Call(call),
        old(store).handles().contains(ScopeKey::Call(call)) ==> final(store).handles() == old(store).handles(),
        !old(store).handles().contains(ScopeKey::Call(call)) ==> final(store).handles() == old(store).handles().push(ScopeKey::Call(call)),
        final(store).unseen() == old(store).unseen().remove(access.id),
        final(store).key_map().remove(access.id) == old(store).key_map().remove(access.id),
        grown_by_at_most(&*old(store), &*final(store), 1),
        old(store).key_map().contains_key(access.id) ==> final(store).key_map() == old(store).key_map(),
        !old(store).key_map().contains_key(access.id) ==> final(store).key_map()[access.id] == old(store).next_key(),
        fits(&*old(store), &*old(states)) ==> fits(&*final(store), &*final(states)),
        state_of(&*final(store), &*final(states), access.id) is Some,
        state_of(&*old(store), &*old(states), access.id) is Some ==> {
            &&& final(store).key_map() == old(store).key_map()
            &&& *final(states) == *old(states)
        },
        state_of(&*old(store), &*old(states), access.id) is None ==> data_fn.ensures(
            (),
            state_of(&*final(store), &*final(states), access.id).unwrap(),
        ),
        forall|other: u64| other != access.id ==> state_of(&*final(store), &*final(states), other) == state_of(&*old(store), &*old(states), other),
{
    use_state_for_key(store, states, ScopeKey::Call(call), data_fn)
}

/// The accessor for the state of type `T` kept for the current call scope,
/// made by `data_fn` the first time.
pub fn use_state<T, F: FnOnce() -> T>(store: &mut Store, states: &mut StateMap<T>, data_fn: F) -> (access: StateAccess<T>)
    requires
        old(store).wf(),
        has_room(&*old(store), 1),
        data_fn.requires(()),
    ensures
        final(store).wf(),
        access.id < final(store).handles().len(),
        handles_grow_by_at_most(&*old(store), &*final(store), 1),
        grown_by_at_most(&*old(store), &*final(store), 1),
        final(store).unseen() == old(store).unseen().remove(access.id),
        final(store).key_map().remove(access.id) == old(store).key_map().remove(access.id),
        old(store).key_map().contains_key(access.id) ==> final(store).key_map() == old(store).key_map(),
        !old(store).key_map().contains_key(access.id) ==> final(store).key_map()[access.id] == old(store).next_key(),
        fits(&*old(store), &*old(states)) ==> fits(&*final(store), &*final(states)),
        state_of(&*final(store), &*final(states), access.id) is Some,
        state_of(&*old(store), &*old(states), access.id) is Some ==> {
            &&& *final(states) == *old(states)
            &&& state_of(&*final(store), &*final(states), access.id) == state_of(&*old(store), &*old(states), access.id)
        },
        state_of(&*old(store), &*old(states), access.id) is None ==> data_fn.ensures(
            (),
            state_of(&*final(store), &*final(states), access.id).unwrap(),
        ),
        forall|other: u64| other != access.id ==> state_of(&*final(store), &*final(states), other) == state_of(&*old(store), &*old(states), other),
{
    let ghost s0 = *store;
    let call = current_call_id();
    let access = use_state_for_call(store, states, call, data_fn);
    proof {
        lemma_push_keeps_prefix(&s0, &*store, ScopeKey::Call(call));
    }
    access
}

/// How a run of `use_istate` from the call scope `scope` relates the store
/// before and after it: it counts one more nested call from `scope`, and
/// the accessor reaches the scope that this call's number names below
/// `scope`.
pub open spec fn nested_run(before: &Store, after: &Store, scope: CallId, access: u64) -> bool {
    &&& handles_grow_by_at_most(before, after, 1)
    &&& access < after.handles().len()
    &&& after.nested_count(scope) == before.nested_count(scope).saturating_add(1)
    &&& after.handles()[access as int] == ScopeKey::Nested(scope, after.nested_count(scope))
}

/// Like `use_state`, for a scope of its own nested in the current one, so
/// that one scope can keep several states of the same type: the scope of
/// the nested call with the next number among those made from the current
/// scope since the last reset. `data_fn` runs in a `topo` nested call; a
/// caller that wants its own callsite to name the scope runs `use_state` in
/// a `topo` nested call.
pub fn use_istate<T: Clone, F: FnOnce() -> T>(store: &mut Store, states: &mut StateMap<T>, data_fn: F) -> (access: StateAccess<T>)
    requires
        old(store).wf(),
        has_room(&*old(store), 1),
        data_fn.requires(()),
    ensures
        final(store).wf(),
        access.id < final(store).handles().len(),
        handles_grow_by_at_most(&*old(store), &*final(store), 1),
        grown_by_at_most(&*old(store), &*final(store), 1),
        final(store).unseen() == old(store).unseen().remove(access.id),
        final(store).key_map().remove(access.id) == old(store).key_map().remove(access.id),
        old(store).key_map().contains_key(access.id) ==> final(store).key_map() == old(store).key_map(),
        !old(store).key_map().contains_key(access.id) ==> final(store).key_map()[access.id] == old(store).next_key(),
        fits(&*old(store), &*old(states)) ==> fits(&*final(store), &*final(states)),
        state_of(&*final(store), &*final(states), access.id) is Some,
        state_of(&*old(store), &*old(states), access.id) is Some ==> {
            &&& *final(states) == *old(states)
            &&& state_of(&*final(store), &*final(states), access.id) == state_of(&*old(store), &*old(states), access.id)
        },
        state_of(&*old(store), &*old(states), access.id) is None ==> data_fn.ensures(
            (),
            state_of(&*final(store), &*final(states), access.id).unwrap(),
        ),
        forall|other: u64| other != access.id ==> state_of(&*final(store), &*final(states), other) == state_of(&*old(store), &*old(states), other),
        exists|scope: CallId| nested_run(&*old(store), &*final(store), scope, access.id),
{
    let ghost s0 = *store;
    let scope = current_call_id();
    let k = store.count_nested_call(scope);
    let key = ScopeKey::Nested(scope, k);
    let access = use_state_for_key(
        store,
        states,
        key,
        move || -> (v: T)
            requires
                data_fn.requires(())
            ensures
                data_fn.ensures((), v)
            {
                in_nested_call(data_fn)
            },
    );
    proof {
        lemma_push_keeps_prefix(&s0, &*store, key);
        assert(nested_run(&s0, &*store, scope, access.id));
    }
    access
}

/// The run count a counter state stands for: no state counts as zero.
pub open spec fn count_of(counter: Option<u64>) -> u64 {
    match counter {
        Some(c) => c,
        None => 0,
    }
}

/// How a run of `use_lstate` that counts in the context `h` relates the
/// store and counter table before and after it: the counter of `h` holds the
/// new count, one more than it held when `h` was registered before, and the
/// accessor reaches the scope that the new count names below `h`.
pub open spec fn counted_run(
    before: &Store,
    after: &Store,
    counters_before: &StateMap<u64>,
    counters_after: &StateMap<u64>,
    h: u64,
    access: u64,
) -> bool {
    &&& handles_grow_by_at_most(before, after, 2)
    &&& h < after.handles().len()
    &&& access < after.handles().len()
    &&& state_of(after, counters_after, h) is Some
    &&& after.handles()[access as int] == ScopeKey::Counted(h, count_of(state_of(after, counters_after, h)))
    &&& before.key_map().contains_key(h) ==> state_of(after, counters_after, h) == Some(
        count_of(state_of(before, counters_before, h)).saturating_add(1),
    )
}

/// A fresh state each time it runs: the current scope counts its runs in
/// `counters`, and the state is kept in the scope that the new count names
/// below the current one's context; `data_fn` runs in the `topo` scope that
/// the count names. Run in a scope of its own, each call site gets a counter
/// of its own.
///
/// The clauses that leave out a context registered anew hold of any tables;
/// for tables that fit the store they hold without that exception.
pub fn use_lstate<T: Clone, F: FnOnce() -> T>(
    store: &mut Store,
    counters: &mut StateMap<u64>,
    states: &mut StateMap<T>,
    data_fn: F,
) -> (access: StateAccess<T>)
    requires
        old(store).wf(),
        has_room(&*old(store), 2),
        data_fn.requires(()),
    ensures
        final(store).wf(),
        access.id < final(store).handles().len(),
        handles_grow_by_at_most(&*old(store), &*final(store), 2),
        grown_by_at_most(&*old(store), &*final(store), 2),
        fits(&*old(store), &*old(counters)) ==> fits(&*final(store), &*final(counters)),
        fits(&*old(store), &*old(states)) ==> fits(&*final(store), &*final(states)),
        state_of(&*final(store), &*final(states), access.id) is Some,
        exists|h: u64| counted_run(&*old(store), &*final(store), &*old(counters), &*final(counters), h, access.id),
        exists|h: u64, c: u64| {
            &&& h < final(store).handles().len()
            &&& final(store).handles()[h as int] is Call
            &&& final(store).handles()[access.id as int] == ScopeKey::Counted(h, c.saturating_add(1))
            &&& state_of(&*final(store), &*final(counters), h) == Some(c.saturating_add(1))
            &&& old(store).key_map().contains_key(h) ==> c == count_of(state_of(&*old(store), &*old(counters), h))
            &&& forall|other: u64| other != h && (other != access.id || old(store).key_map().contains_key(other))
                ==> state_of(&*final(store), &*final(counters), other) == state_of(&*old(store), &*old(counters), other)
            &&& (access.id != h || old(store).key_map().contains_key(h)) && state_of(&*old(store), &*old(states), access.id) is None
                ==> data_fn.ensures((), state_of(&*final(store), &*final(states), access.id).unwrap())
            &&& forall|other: u64| other != access.id && (other != h || old(store).key_map().contains_key(other))
                ==> state_of(&*final(store), &*final(states), other) == state_of(&*old(store), &*old(states), other)
            &&& fits(&*old(store), &*old(counters)) && fits(&*old(store), &*old(states)) ==> {
                &&& c == count_of(state_of(&*old(store), &*old(counters), h))
                &&& forall|other: u64| other != h
                    ==> state_of(&*final(store), &*final(counters), other) == state_of(&*old(store), &*old(counters), other)
                &&& state_of(&*old(store), &*old(states), access.id) is None
                    ==> data_fn.ensures((), state_of(&*final(store), &*final(states), access.id).unwrap())
                &&& forall|other: u64| other != access.id
                    ==> state_of(&*final(store), &*final(states), other) == state_of(&*old(store), &*old(states), other)
            }
        },
{
    let ghost s0 = *store;
    let ghost states0 = *states;
    let ghost counters0 = *counters;
    let count_call = current_call_id();
    let count = use_state_for_call(store, counters, count_call, || -> (z: u64) ensures z == 0 { 0u64 });
    let ghost s1 = *store;
    let ghost counters1 = *counters;
    let h = count.id;
    count.update(store, counters, |c: u64| -> (n: u64) ensures n == c.saturating_add(1) { c.saturating_add(1) });
    let slot = count.hard_clone(store, counters);
    let ghost s2 = *store;
    let ghost counters2 = *counters;
    let access = use_state_for_key(
        store,
        states,
        ScopeKey::Counted(h, slot),
        move || -> (v: T)
            requires
                data_fn.requires(())
            ensures
                data_fn.ensures((), v)
            {
                in_slot_call(&slot, data_fn)
            },
    );
    proof {
        lemma_push_keeps_prefix(&s0, &s1, ScopeKey::Call(count_call));
        lemma_push_keeps_prefix(&s2, &*store, ScopeKey::Counted(h, slot));
        assert(store.handles().subrange(0, s0.handles().len() as int) =~= store.handles().subrange(0, s2.handles().len() as int).subrange(0, s0.handles().len() as int));
        let c = state_of(&s1, &counters1, h).unwrap();
        let a = access.id;
        // the counter of `h`
        if a != h {
            crate::store::lemma_state_kept_elsewhere(&s2, &*store, &counters2, a, h);
        }
        assert(state_of(&*store, &*counters, h) == state_of(&s2, &counters2, h));
        assert(state_of(&s2, &counters2, h) == Some(c.saturating_add(1)));
        if s0.key_map().contains_key(h) {
            if state_of(&s0, &counters0, h) is Some {
                assert(state_of(&s1, &counters1, h) == state_of(&s0, &counters0, h));
            }
        }
        // the other counters
        assert forall|other: u64| other != h && (other != a || s0.key_map().contains_key(other)) implies state_of(
            &*store,
            &*counters,
            other,
        ) == state_of(&s0, &counters0, other) by {
            crate::store::lemma_state_kept_elsewhere(&s0, &s1, &counters0, h, other);
            assert(state_of(&s1, &counters1, other) == state_of(&s0, &counters0, other));
            assert(state_of(&s2, &counters2, other) == state_of(&s1, &counters1, other));
            if other != a {
                crate::store::lemma_state_kept_elsewhere(&s2, &*store, &counters2, a, other);
            } else {
                assert(s1.key_map().contains_key(other));
                assert(s2.key_map().contains_key(a));
                assert(store.key_map() == s2.key_map());
            }
        }
        // the states table through the counting steps
        assert forall|other: u64| other != h || s0.key_map().contains_key(other) implies state_of(&s2, &states0, other)
            == state_of(&s0, &states0, other) by {
            if other != h {
                crate::store::lemma_state_kept_elsewhere(&s0, &s1, &states0, h, other);
            } else {
                assert(s1.key_map() == s0.key_map());
            }
            assert(s2.key_map() == s1.key_map());
        }
        assert(state_of(&s2, &states0, a) == state_of(&s0, &states0, a) || (a == h && !s0.key_map().contains_key(h)));
        // with tables that fit, a context registered here starts empty in
        // the other table
        if fits(&s0, &counters0) && fits(&s0, &states0) {
            if !s0.key_map().contains_key(h) {
                crate::laws::law_new_context_starts_empty(&s0, &s1, &states0, h);
                assert(state_of(&s2, &states0, h) is None);
            }
            if !s0.key_map().contains_key(a) && a != h {
                crate::store::lemma_state_kept_elsewhere(&s0, &s1, &counters0, h, a);
                assert(!s2.key_map().contains_key(a));
                crate::laws::law_new_context_starts_empty(&s2, &*store, &counters2, a);
                assert(state_of(&*store, &*counters, a) is None);
            }
        }
        assert(count_of(state_of(&*store, &*counters, h)) == slot);
        assert(counted_run(&s0, &*store, &counters0, &*counters, h, a));
    }
    access
}

/// Whether a run-once flag state says the work was done.
pub open spec fn done(flag: Option<bool>) -> bool {
    flag == Some(true)
}

/// How `do_once` relates the store and flag table before and after it, the
/// flag being kept for the context `h`: the flag is set; when it was set
/// already, the flag table is as it was; otherwise `func` ran; other contexts
/// keep their flags.
pub open spec fn once_relates<F: FnOnce()>(
    before: &Store,
    after: &Store,
    flags_before: &StateMap<bool>,
    flags_after: &StateMap<bool>,
    h: u64,
    func: F,
) -> bool {
    &&& state_of(after, flags_after, h) == Some(true)
    &&& done(state_of(before, flags_before, h)) ==> *flags_after == *flags_before
    &&& !done(state_of(before, flags_before, h)) ==> func.ensures((), ())
    &&& forall|other: u64| other != h ==> state_of(after, flags_after, other) == state_of(before, flags_before, other)
}

/// Runs `func` unless the flag kept for the context `call` says it ran
/// already, and sets that flag.
pub fn do_once_for_call<F: FnOnce()>(store: &mut Store, flags: &mut StateMap<bool>, call: CallId, func: F)
    requires
        old(store).wf(),
        has_room(&*old(store), 1) || call_registered(&*old(store), call),
        func.requires(()),
    ensures
        final(store).wf(),
        once_relates(&*old(store), &*final(store), &*old(flags), &*final(flags), handle_for(&*final(store), call), func),
        fits(&*old(store), &*old(flags)) ==> fits(&*final(store), &*final(flags)),
        call_registered(&*final(store), call),
        old(store).handles().contains(ScopeKey::Call(call)) ==> final(store).handles() == old(store).handles(),
        !old(store).handles().contains(ScopeKey::Call(call)) ==> final(store).handles() == old(store).handles().push(ScopeKey::Call(call)),
        grown_by_at_most(&*old(store), &*final(store), 1),
        final(store).key_map().remove(handle_for(&*final(store), call)) == old(store).key_map().remove(
            handle_for(&*final(store), call),
        ),
        final(store).unseen() == old(store).unseen().remove(handle_for(&*final(store), call)),
{
    let has_done = use_state_for_call(store, flags, call, || -> (f: bool) ensures !f { false });
    proof {
        crate::laws::law_handle_names_one_call(&*store, has_done.id, handle_for(&*store, call));
    }
    let already = has_done.hard_clone(store, flags);
    if !already {
        func();
        has_done.set(store, flags, true);
    }
}

/// Runs `func` the first time the current scope gets here, the flag being
/// kept for that scope.
pub fn do_once<F: FnOnce()>(store: &mut Store, flags: &mut StateMap<bool>, func: F)
    requires
        old(store).wf(),
        has_room(&*old(store), 1),
        func.requires(()),
    ensures
        final(store).wf(),
        handles_grow_by_at_most(&*old(store), &*final(store), 1),
        grown_by_at_most(&*old(store), &*final(store), 1),
        fits(&*old(store), &*old(flags)) ==> fits(&*final(store), &*final(flags)),
        exists|h: u64| {
            &&& once_relates(&*old(store), &*final(store), &*old(flags), &*final(flags), h, func)
            &&& h < final(store).handles().len()
            &&& final(store).key_map().contains_key(h)
            &&& final(store).key_map().remove(h) == old(store).key_map().remove(h)
            &&& final(store).unseen() == old(store).unseen().remove(h)
        },
{
    let ghost s0 = *store;
    let call = current_call_id();
    do_once_for_call(store, flags, call, func);
    proof {
        lemma_push_keeps_prefix(&s0, &*store, ScopeKey::Call(call));
    }
}

/// Stores `data` as the state of type `T` of `id`.
pub fn set_state_with_topo_id<T>(store: &mut Store, states: &mut StateMap<T>, data: T, id: u64)
    requires
        old(store).wf(),
        old(store).key_map().contains_key(id) || has_room(&*old(store), 1),
    ensures
        final(store).nested_calls() == old(store).nested_calls(),
        final(store).wf(),
        final(store).handles() == old(store).handles(),
        state_of(&*final(store), &*final(states), id) == Some(data),
        final(store).unseen() == old(store).unseen().remove(id),
        old(store).key_map().contains_key(id) ==> {
            &&& final(store).key_map() == old(store).key_map()
            &&& final(store).slot_map() == old(store).slot_map()
            &&& final(store).next_key() == old(store).next_key()
        },
        !old(store).key_map().contains_key(id) ==> final(store).key_map()[id] == old(store).next_key(),
        grown_by_at_most(&*old(store), &*final(store), 1),
        fits(&*old(store), &*old(states)) ==> fits(&*final(store), &*final(states)),
        final(store).key_map().remove(id) == old(store).key_map().remove(id),
        final(store).key_map().contains_key(id),
        forall|other: u64| other != id ==> state_of(&*final(store), &*final(states), other) == state_of(&*old(store), &*old(states), other),
{
    store.set_state_with_topo_id(states, data, id);
}

/// Whether `id` holds a state of type `T`; `id` counts as touched.
pub fn state_exists_for_topo_id<T>(store: &mut Store, states: &StateMap<T>, id: u64) -> (exists: bool)
    requires
        old(store).wf(),
    ensures
        final(store).nested_calls() == old(store).nested_calls(),
        final(store).wf(),
        final(store).handles() == old(store).handles(),
        final(store).key_map() == old(store).key_map(),
        final(store).next_key() == old(store).next_key(),
        final(store).slot_map() == old(store).slot_map(),
        final(store).unseen() == old(store).unseen().remove(id),
        exists == state_of(&*old(store), states, id) is Some,
{
    store.get_state_with_topo_id(states, id).is_some()
}

/// A clone of the state of type `T` of `id`; `id` counts as touched.
pub fn clone_state_with_topo_id<T: Clone>(store: &mut Store, states: &StateMap<T>, id: u64) -> (r: Option<T>)
    requires
        old(store).wf(),
    ensures
        final(store).wf(),
        final(store).handles() == old(store).handles(),
        final(store).key_map() == old(store).key_map(),
        final(store).next_key() == old(store).next_key(),
        final(store).slot_map() == old(store).slot_map(),
        final(store).unseen() == old(store).unseen().remove(id),
        match state_of(&*old(store), states, id) {
            Some(v) => r is Some && cloned(v, r.unwrap()),
            None => r is None,
        },
{
    match store.get_state_with_topo_id(states, id) {
        Some(v) => Some(v.clone()),
        None => None,
    }
}

/// Takes the state of type `T` out of `id`; `id` counts as touched.
pub fn remove_state_with_topo_id<T>(store: &mut Store, states: &mut StateMap<T>, id: u64) -> (r: Option<T>)
    requires
        old(store).wf(),
    ensures
        final(store).wf(),
        final(store).handles() == old(store).handles(),
        final(store).key_map() == old(store).key_map(),
        final(store).next_key() == old(store).next_key(),
        final(store).slot_map() == old(store).slot_map(),
        final(store).unseen() == old(store).unseen().remove(id),
        fits(&*old(store), &*old(states)) ==> fits(&*final(store), &*final(states)),
        r == state_of(&*old(store), &*old(states), id),
        state_of(&*final(store), &*final(states), id) is None,
        forall|other: u64| other != id ==> state_of(&*final(store), &*final(states), other) == state_of(&*old(store), &*old(states), other),
{
    store.remove_state_with_topo_id(states, id)
}

/// Replaces the state of type `T` of `id`, which must hold one, by what
/// `func` makes of it; `id` counts as touched.
pub fn update_state_with_topo_id<T, F: FnOnce(T) -> T>(store: &mut Store, states: &mut StateMap<T>, id: u64, func: F)
    requires
        old(store).wf(),
        state_of(&*old(store), &*old(states), id) is Some,
        func.requires((state_of(&*old(store), &*old(states), id).unwrap(),)),
    ensures
        final(store).wf(),
        final(store).handles() == old(store).handles(),
        state_of(&*final(store), &*final(states), id) is Some,
        func.ensures((state_of(&*old(store), &*old(states), id).unwrap(),), state_of(&*final(store), &*final(states), id).unwrap()),
        final(store).key_map() == old(store).key_map(),
        final(store).next_key() == old(store).next_key(),
        final(store).slot_map() == old(store).slot_map(),
        final(store).unseen() == old(store).unseen().remove(id),
        fits(&*old(store), &*old(states)) ==> fits(&*final(store), &*final(states)),
        forall|other: u64| other != id ==> state_of(&*final(store), &*final(states), other) == state_of(&*old(store), &*old(states), other),
{
    let item = remove_state_with_topo_id(store, states, id);
    let item = item.unwrap();
    let item = func(item);
    set_state_with_topo_id(store, states, item, id);
}

/// What `func` makes of the state of type `T` of `id`, which must hold
/// one; the state is kept and `id` counts as touched.
pub fn read_state_with_topo_id<T, R, F: FnOnce(&T) -> R>(store: &mut Store, states: &mut StateMap<T>, id: u64, func: F) -> (r: R)
    requires
        old(store).wf(),
        state_of(&*old(store), &*old(states), id) is Some,
        func.requires((&state_of(&*old(store), &*old(states), id).unwrap(),)),
    ensures
        final(store).wf(),
        final(store).handles() == old(store).handles(),
        func.ensures((&state_of(&*old(store), &*old(states), id).unwrap(),), r),
        final(store).key_map() == old(store).key_map(),
        final(store).next_key() == old(store).next_key(),
        final(store).unseen() == old(store).unseen().remove(id),
        fits(&*old(store), &*old(states)) ==> fits(&*final(store), &*final(states)),
        forall|other: u64| state_of(&*final(store), &*final(states), other) == state_of(&*old(store), &*old(states), other),
{
    let item = remove_state_with_topo_id(store, states, id);
    let item = item.unwrap();
    let read = func(&item);
    set_state_with_topo_id(store, states, item, id);
    read
}

/// Drops every context not touched since the last reset, then makes every
/// remaining context unseen.
pub fn purge_and_reset_unseen_ids(store: &mut Store)
    requires
        old(store).wf(),
    ensures
        final(store).wf(),
        final(store).handles() == old(store).handles(),
        final(store).key_map() == keys_without(old(store).key_map(), old(store).unseen()),
        final(store).next_key() == old(store).next_key(),
        final(store).slot_map() == slots_without(old(store).slot_map(), old(store).unseen()),
        final(store).unseen() == final(store).key_map().dom(),
{
    purge_unseen_ids(store);
    reset_unseen_id_list(store);
}

/// Makes every registered context unseen.
pub fn reset_unseen_id_list(store: &mut Store)
    requires
        old(store).wf(),
    ensures
        final(store).wf(),
        final(store).handles() == old(store).handles(),
        final(store).key_map() == old(store).key_map(),
        final(store).next_key() == old(store).next_key(),
        final(store).slot_map() == old(store).slot_map(),
        final(store).unseen() == old(store).key_map().dom(),
{
    store.reset_unseen_id_list();
}

/// Drops the registration of every unseen context.
fn purge_unseen_ids(store: &mut Store)
    requires
        old(store).wf(),
    ensures
        final(store).wf(),
        final(store).handles() == old(store).handles(),
        final(store).key_map() == keys_without(old(store).key_map(), old(store).unseen()),
        final(store).next_key() == old(store).next_key(),
        final(store).slot_map() == slots_without(old(store).slot_map(), old(store).unseen()),
        final(store).unseen() == old(store).unseen(),
{
    store.purge_unseen_ids();
}

} // verus!
