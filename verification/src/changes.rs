//! Noticing that a state changed since the last look.

use vstd::prelude::*;
use vstd::std_specs::cmp::PartialEqSpec;

use crate::state_access::StateAccess;
use crate::state_functions::{call_registered, key_registered, use_state_for_key};
use crate::store::{ScopeKey, fits, grown_by_at_most, has_room, handles_grow_by_at_most, state_of, StateMap, Store};
use crate::topo_ids::current_call_id;
use topo::CallId;

verus! {

/// The handle that `store` gives the scope `key`.
pub open spec fn handle_for_key(store: &Store, key: ScopeKey) -> u64 {
    choose|h: u64| h < store.handles().len() && store.handles()[h as int] == key
}

/// The handle that `store` gives the call identifier `call`.
pub open spec fn handle_for(store: &Store, call: CallId) -> u64 {
    handle_for_key(store, ScopeKey::Call(call))
}

/// The handle that `store.handle_of(call)` gives: the position of `call`
/// when it was met before, the next position otherwise.
pub open spec fn handle_given(store: &Store, call: CallId) -> u64 {
    if store.handles().contains(ScopeKey::Call(call)) {
        handle_for(store, call)
    } else {
        store.handles().len() as u64
    }
}

/// The value recorded in a snapshot state, if one was recorded.
pub open spec fn recorded<T>(snapshot: Option<Option<T>>) -> Option<T> {
    match snapshot {
        Some(Some(v)) => Some(v),
        _ => None,
    }
}

/// How a look at the state of `id` relates the stores and snapshot tables
/// before and after it, the copy being kept for the context `h`: the state
/// stays; with a lawful `==`, `changed` says that no copy was recorded or
/// that it differs; a change records a clone of the state, and no change
/// keeps the recorded copy.
pub open spec fn look_relates<T: PartialEq + Clone>(
    before: &Store,
    after: &Store,
    states: &StateMap<T>,
    snapshots_before: &StateMap<Option<T>>,
    snapshots_after: &StateMap<Option<T>>,
    id: u64,
    h: u64,
    changed: bool,
) -> bool {
    let current = state_of(before, states, id).unwrap();
    let prior = recorded(state_of(before, snapshots_before, h));
    &&& state_of(after, states, id) == Some(current)
    &&& T::obeys_eq_spec() ==> changed == !(prior matches Some(p) && current.eq_spec(&p))
    &&& changed ==> (recorded(state_of(after, snapshots_after, h)) matches Some(v) && cloned(current, v))
    &&& !changed ==> recorded(state_of(after, snapshots_after, h)) == prior
}

/// A look at the state of `id` that keeps its copy in the context `h`, the
/// scope of the copies that looks made from the call scope `scope` keep for
/// `id`: it relates the stores and snapshot tables as `look_relates` says,
/// registers `h` and changes no other context's copy, nor any other
/// registration.
pub open spec fn looked_from<T: PartialEq + Clone>(
    before: &Store,
    after: &Store,
    states: &StateMap<T>,
    snapshots_before: &StateMap<Option<T>>,
    snapshots_after: &StateMap<Option<T>>,
    id: u64,
    scope: CallId,
    h: u64,
    changed: bool,
) -> bool {
    &&& look_relates(before, after, states, snapshots_before, snapshots_after, id, h, changed)
    &&& h < after.handles().len()
    &&& after.handles()[h as int] == ScopeKey::Look(scope, id)
    &&& handles_grow_by_at_most(before, after, 1)
    &&& after.key_map().contains_key(h)
    &&& after.key_map().remove(h) == before.key_map().remove(h)
    &&& before.key_map().contains_key(h) ==> after.key_map() == before.key_map()
    &&& after.unseen() == before.unseen().remove(h).remove(id)
    &&& forall|other: u64| other != h ==> state_of(after, snapshots_after, other) == state_of(before, snapshots_before, other)
}

impl<T: Clone + PartialEq> StateAccess<T> {
    /// Whether the state this accessor reaches differs from the copy
    /// recorded in the context of the scope `key`; when it does, a clone of
    /// the state becomes the recorded copy.
    pub fn state_changed_in(
        self,
        store: &mut Store,
        states: &StateMap<T>,
        snapshots: &mut StateMap<Option<T>>,
        key: ScopeKey,
    ) -> (changed: bool)
        requires
            old(store).wf(),
            has_room(&*old(store), 1) || key_registered(&*old(store), key),
            state_of(&*old(store), states, self.id) is Some,
        ensures
            final(store).wf(),
            look_relates(
                &*old(store),
                &*final(store),
                states,
                &*old(snapshots),
                &*final(snapshots),
                self.id,
                handle_for_key(&*final(store), key),
                changed,
            ),
            key_registered(&*final(store), key),
            handle_for_key(&*final(store), key) < final(store).handles().len(),
            final(store).handles()[handle_for_key(&*final(store), key) as int] == key,
            fits(&*old(store), &*old(snapshots)) ==> fits(&*final(store), &*final(snapshots)),
            old(store).handles().contains(key) ==> final(store).handles() == old(store).handles(),
            !old(store).handles().contains(key) ==> final(store).handles() == old(store).handles().push(key),
            final(store).key_map().remove(handle_for_key(&*final(store), key)) == old(store).key_map().remove(
                handle_for_key(&*final(store), key),
            ),
            grown_by_at_most(&*old(store), &*final(store), 1),
            old(store).key_map().contains_key(handle_for_key(&*final(store), key)) ==> final(store).key_map() == old(store).key_map(),
            final(store).unseen() == old(store).unseen().remove(handle_for_key(&*final(store), key)).remove(self.id),
            forall|other: u64| other != handle_for_key(&*final(store), key) ==> state_of(&*final(store), &*final(snapshots), other) == state_of(&*old(store), &*old(snapshots), other),
    {
        let ghost s0 = *store;
        let snapshot = use_state_for_key(store, snapshots, key, || -> (r: Option<T>) ensures r is None { None });
        let h = snapshot.id;
        proof {
            let hh = handle_for_key(&*store, key);
            crate::laws::law_handle_names_one_call(&*store, h, hh);
            if self.id != h {
                assert(store.key_map().remove(h).contains_key(self.id));
                assert(store.key_map().remove(h)[self.id] == s0.key_map().remove(h)[self.id]);
            }
            assert(store.key_map().contains_key(self.id));
            assert(store.key_map()[self.id] == s0.key_map()[self.id]);
            assert(state_of(&*store, states, self.id) == state_of(&s0, states, self.id));
        }
        let current = store.get_state_with_topo_id(states, self.id);
        let current = current.unwrap();
        let prior = store.get_state_with_topo_id(&*snapshots, h);
        let same = match prior {
            Some(Some(p)) => *current == *p,
            _ => false,
        };
        if same {
            false
        } else {
            let copy = current.clone();
            snapshot.set(store, snapshots, Some(copy));
            true
        }
    }

    /// Whether the state this accessor reaches differs from the copy
    /// recorded in the context `snapshot_call`; when it does, a clone of the
    /// state becomes the recorded copy.
    pub fn state_changed_at(
        self,
        store: &mut Store,
        states: &StateMap<T>,
        snapshots: &mut StateMap<Option<T>>,
        snapshot_call: CallId,
    ) -> (changed: bool)
        requires
            old(store).wf(),
            has_room(&*old(store), 1) || call_registered(&*old(store), snapshot_call),
            state_of(&*old(store), states, self.id) is Some,
        ensures
            final(store).wf(),
            look_relates(
                &*old(store),
                &*final(store),
                states,
                &*old(snapshots),
                &*final(snapshots),
                self.id,
                handle_for(&*final(store), snapshot_call),
                changed,
            ),
            call_registered(&*final(store), snapshot_call),
            fits(&*old(store), &*old(snapshots)) ==> fits(&*final(store), &*final(snapshots)),
            old(store).handles().contains(ScopeKey::Call(snapshot_call)) ==> final(store).handles() == old(store).handles(),
            !old(store).handles().contains(ScopeKey::Call(snapshot_call)) ==> final(store).handles() == old(store).handles().push(ScopeKey::Call(snapshot_call)),
            final(store).key_map().remove(handle_for(&*final(store), snapshot_call)) == old(store).key_map().remove(
                handle_for(&*final(store), snapshot_call),
            ),
            grown_by_at_most(&*old(store), &*final(store), 1),
            final(store).unseen() == old(store).unseen().remove(handle_for(&*final(store), snapshot_call)).remove(self.id),
            forall|other: u64| other != handle_for(&*final(store), snapshot_call) ==> state_of(&*final(store), &*final(snapshots), other) == state_of(&*old(store), &*old(snapshots), other),
    {
        self.state_changed_in(store, states, snapshots, ScopeKey::Call(snapshot_call))
    }

    /// Whether the state this accessor reaches changed since the last look
    /// at it from the current call scope, the copy being kept in the scope
    /// that the current call scope and this accessor's handle name together.
    pub fn state_changed(self, store: &mut Store, states: &StateMap<T>, snapshots: &mut StateMap<Option<T>>) -> (changed: bool)
        requires
            old(store).wf(),
            has_room(&*old(store), 1),
            state_of(&*old(store), states, self.id) is Some,
        ensures
            final(store).wf(),
            handles_grow_by_at_most(&*old(store), &*final(store), 1),
            fits(&*old(store), &*old(snapshots)) ==> fits(&*final(store), &*final(snapshots)),
            grown_by_at_most(&*old(store), &*final(store), 1),
            exists|scope: CallId, h: u64| looked_from(&*old(store), &*final(store), states, &*old(snapshots), &*final(snapshots), self.id, scope, h, changed),
            exists|h: u64| {
                &&& look_relates(&*old(store), &*final(store), states, &*old(snapshots), &*final(snapshots), self.id, h, changed)
                &&& h < final(store).handles().len()
                &&& final(store).key_map().contains_key(h)
                &&& final(store).key_map().remove(h) == old(store).key_map().remove(h)
                &&& final(store).unseen() == old(store).unseen().remove(h).remove(self.id)
                &&& forall|other: u64| other != h ==> state_of(&*final(store), &*final(snapshots), other) == state_of(&*old(store), &*old(snapshots), other)
            },
    {
        let ghost s0 = *store;
        let scope = current_call_id();
        let key = ScopeKey::Look(scope, self.id);
        let changed = self.state_changed_in(store, states, snapshots, key);
        proof {
            assert(s0.handles().push(key).subrange(0, s0.handles().len() as int) =~= s0.handles());
            assert(s0.handles().subrange(0, s0.handles().len() as int) =~= s0.handles());
            let h = handle_for_key(&*store, key);
            assert(looked_from(&s0, &*store, states, &*old(snapshots), &*snapshots, self.id, scope, h, changed));
        }
        changed
    }
}

} // verus!
