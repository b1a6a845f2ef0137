//! The registry of contexts and the per-type state tables.

use std::collections::{HashMap, HashSet};
use vstd::prelude::*;
use vstd::std_specs::iter::IteratorSpec;

use crate::slots::{handle_slots, HandleSlots, SLOT_CAPACITY};
use crate::topo_ids::same_call_id;
use topo::CallId;

verus! {

broadcast use vstd::std_specs::hash::group_hash_axioms;

/// What a context handle stands for: a call scope that `topo` names, or a
/// scope that the library names below one, for the state functions that
/// keep several states per call scope.
pub enum ScopeKey {
    /// The call scope of a `topo` call identifier.
    Call(CallId),
    /// The scope that a run count names below the context of a handle
    /// (`use_lstate`).
    Counted(u64, u64),
    /// The scope in which looks made from a call scope keep their copy of
    /// the state of a context (`state_changed`).
    Look(CallId, u64),
    /// The scope of the nested call with the given number among those made
    /// from a call scope since the last reset (`use_istate`).
    Nested(CallId, u64),
}

/// Whether two scope keys are the same.
fn same_scope(a: &ScopeKey, b: &ScopeKey) -> (same: bool)
    ensures
        same == (*a == *b),
{
    match a {
        ScopeKey::Call(x) => match b {
            ScopeKey::Call(y) => same_call_id(x, y),
            _ => false,
        },
        ScopeKey::Counted(p, n) => match b {
            ScopeKey::Counted(q, m) => *p == *q && *n == *m,
            _ => false,
        },
        ScopeKey::Look(c, i) => match b {
            ScopeKey::Look(d, j) => same_call_id(c, d) && *i == *j,
            _ => false,
        },
        ScopeKey::Nested(c, i) => match b {
            ScopeKey::Nested(d, j) => same_call_id(c, d) && *i == *j,
            _ => false,
        },
    }
}

/// The registry that every state table shares: each context handle that
/// holds state has a slot key and a table key, and the handles not touched
/// since the last reset are kept for the next purge. A table key is given
/// out once: a context registered anew never meets an entry that a purged
/// context left in some table.
pub struct Store {
    call_ids: Vec<ScopeKey>,
    id_to_key_map: HashMap<u64, u64>,
    id_to_slot: HashMap<u64, u64>,
    primary_slotmap: HandleSlots,
    unseen_ids: HashSet<u64>,
    next_key: u64,
    key_owners: Ghost<Map<u64, u64>>,
    nested_counts: Vec<(CallId, u64)>,
}

/// Room for `n` more registrations: in the slot map, and among the table
/// keys not given out yet.
pub open spec fn has_room(store: &Store, n: nat) -> bool {
    &&& store.slot_map().len() + n <= SLOT_CAPACITY
    &&& store.next_key() + n <= u64::MAX
}

/// From `before` to `after` at most `n` contexts were registered: the slot
/// map grew by at most `n` and at most `n` table keys were given out.
pub open spec fn grown_by_at_most(before: &Store, after: &Store, n: nat) -> bool {
    &&& after.slot_map().len() <= before.slot_map().len() + n
    &&& before.next_key() <= after.next_key() <= before.next_key() + n
}

/// Every entry of `states` is kept under a table key that `store` gave out
/// already.
pub open spec fn fits<T>(store: &Store, states: &StateMap<T>) -> bool {
    forall|k: u64| #[trigger] states.contents().contains_key(k) ==> k < store.next_key()
}

/// Position `i` holds the first of the nested-call counts kept for `c`.
pub open spec fn first_count_at(calls: Seq<(CallId, u64)>, c: CallId, i: int) -> bool {
    &&& 0 <= i < calls.len()
    &&& calls[i].0 == c
    &&& forall|j: int| 0 <= j < i ==> calls[j].0 != c
}

/// The key map once the given handles are dropped from it.
pub open spec fn keys_without(keys: Map<u64, u64>, dropped: Set<u64>) -> Map<u64, u64> {
    keys.remove_keys(dropped)
}

/// The slot map once the slots made for the given handles are dropped.
pub open spec fn slots_without(slots: Map<u64, u64>, dropped: Set<u64>) -> Map<u64, u64> {
    slots.restrict(slots.dom().filter(|k: u64| !dropped.contains(slots[k])))
}

/// `after` keeps every handle of `before` in its place and adds at most `n`
/// handles after them.
pub open spec fn handles_grow_by_at_most(before: &Store, after: &Store, n: nat) -> bool {
    &&& before.handles().len() <= after.handles().len() <= before.handles().len() + n
    &&& after.handles().subrange(0, before.handles().len() as int) == before.handles()
}

/// The states of one value type, each kept under the table key of the
/// context it belongs to.
pub struct StateMap<T> {
    states: HashMap<u64, T>,
}

impl<T> StateMap<T> {
    /// Table key to stored value.
    pub closed spec fn contents(&self) -> Map<u64, T> {
        self.states@
    }

    pub fn new() -> (states: StateMap<T>)
        ensures
            states.contents() =~= Map::empty(),
    {
        StateMap { states: HashMap::new() }
    }

    /// Drops every entry that no context registered in `store` is kept
    /// under, as a purge leaves them; what any context reads stays the same.
    pub fn retain_live(&mut self, store: &Store)
        requires
            store.wf(),
        ensures
            final(self).contents() == old(self).contents().restrict(store.key_map().values()),
            forall|id: u64| state_of(store, &*final(self), id) == state_of(store, &*old(self), id),
            fits(store, &*old(self)) ==> fits(store, &*final(self)),
    {
        let ghost keys = store.id_to_key_map@;
        let ghost before = self.states@;
        let mut kept: HashMap<u64, T> = HashMap::new();
        assert(store.id_to_key_map.keys().remaining().unref().to_set() == keys.dom());
        for id in iter: store.id_to_key_map.keys()
            invariant
                store.wf(),
                keys == store.id_to_key_map@,
                before == old(self).states@,
                iter.seq().unref().to_set() == keys.dom(),
                kept@ == before.restrict(iter.seq().take(iter.index()).unref().to_set().map(|i: u64| keys[i])),
                self.states@ == before.remove_keys(iter.seq().take(iter.index()).unref().to_set().map(|i: u64| keys[i])),
                iter.index() == iter.seq().len() ==> iter.seq().take(iter.index()).unref().to_set() == keys.dom(),
        {
            let ghost i = iter.index();
            let ghost done = iter.seq().take(i).unref().to_set().map(|j: u64| keys[j]);
            let key = *store.id_to_key_map.get(id).unwrap();
            let taken = self.states.remove(&key);
            if let Some(v) = taken {
                kept.insert(key, v);
            }
            proof {
                broadcast use vstd::seq_lib::group_seq_properties;
                assert(iter.seq().take(i + 1).unref() =~= iter.seq().take(i).unref().push(*id));
                assert(iter.seq().take(i + 1).unref().to_set() =~= iter.seq().take(i).unref().to_set().insert(*id));
                let prior = iter.seq().take(i).unref().to_set();
                let key_of = |j: u64| keys[j];
                assert forall|x: u64| #[trigger] prior.insert(*id).map(key_of).contains(x) implies done.insert(key).contains(x) by {
                    let j = choose|j: u64| prior.insert(*id).contains(j) && key_of(j) == x;
                    if j != *id {
                        assert(prior.contains(j) && key_of(j) == x);
                    }
                }
                assert forall|x: u64| #[trigger] done.insert(key).contains(x) implies prior.insert(*id).map(key_of).contains(x) by {
                    if x == key {
                        assert(prior.insert(*id).contains(*id) && key_of(*id) == x);
                    } else {
                        let j = choose|j: u64| prior.contains(j) && key_of(j) == x;
                        assert(prior.insert(*id).contains(j) && key_of(j) == x);
                    }
                }
                assert(iter.seq().take(i + 1).unref().to_set().map(|j: u64| keys[j]) =~= done.insert(key));
                assert(kept@ =~= before.restrict(done.insert(key)));
                assert(self.states@ =~= before.remove_keys(done.insert(key)));
                assert(iter.seq().take(iter.seq().len() as int) =~= iter.seq());
            }
        }
        proof {
            assert(keys.dom().map(|j: u64| keys[j]) =~= keys.values());
        }
        self.states = kept;
    }
}

/// The value of type `T` that the context `id` holds, if any.
pub open spec fn state_of<T>(store: &Store, states: &StateMap<T>, id: u64) -> Option<T> {
    if store.key_map().contains_key(id) && states.contents().contains_key(store.key_map()[id]) {
        Some(states.contents()[store.key_map()[id]])
    } else {
        None
    }
}

/// Where two key maps differ at most at `changed`, every other context reads
/// the same state from any table.
pub proof fn lemma_state_kept_elsewhere<T>(before: &Store, after: &Store, table: &StateMap<T>, changed: u64, id: u64)
    requires
        after.key_map().remove(changed) == before.key_map().remove(changed),
        id != changed,
    ensures
        after.key_map().contains_key(id) == before.key_map().contains_key(id),
        before.key_map().contains_key(id) ==> after.key_map()[id] == before.key_map()[id],
        state_of(after, table, id) == state_of(before, table, id),
{
    let a = after.key_map();
    let b = before.key_map();
    assert(a.remove(changed).dom() == a.dom().remove(changed));
    assert(b.remove(changed).dom() == b.dom().remove(changed));
    assert(a.remove(changed).dom().contains(id) == a.dom().contains(id));
    assert(b.remove(changed).dom().contains(id) == b.dom().contains(id));
    if b.contains_key(id) {
        assert(a.remove(changed)[id] == a[id]);
        assert(b.remove(changed)[id] == b[id]);
    }
}

/// The count kept at the first position for `c` is the count of `c`.
proof fn lemma_nested_count_at(store: &Store, c: CallId, i: int)
    requires
        first_count_at(store.nested_calls(), c, i),
    ensures
        store.nested_count(c) == store.nested_calls()[i].1,
{
    let calls = store.nested_calls();
    let j = choose|j: int| first_count_at(calls, c, j);
    assert(first_count_at(calls, c, j));
    if j < i {
        assert(calls[j].0 != c);
    }
    if i < j {
        assert(calls[i].0 != c);
    }
}

/// A scope with no count kept has count zero.
proof fn lemma_nested_count_none(store: &Store, c: CallId)
    requires
        forall|j: int| 0 <= j < store.nested_calls().len() ==> store.nested_calls()[j].0 != c,
    ensures
        store.nested_count(c) == 0,
{
}

/// The first position for `d` among `calls`, if any.
proof fn lemma_first_position(calls: Seq<(CallId, u64)>, d: CallId) -> (i: int)
    requires
        exists|j: int| 0 <= j < calls.len() && calls[j].0 == d,
    ensures
        first_count_at(calls, d, i),
    decreases calls.len(),
{
    if calls.last().0 == d && !(exists|j: int| 0 <= j < calls.len() - 1 && calls[j].0 == d) {
        (calls.len() - 1) as int
    } else {
        let prefix = calls.drop_last();
        if !(exists|j: int| 0 <= j < prefix.len() && prefix[j].0 == d) {
            let j = choose|j: int| 0 <= j < calls.len() && calls[j].0 == d;
            if j < calls.len() - 1 {
                assert(prefix[j].0 == d);
            } else {
                assert(calls.last().0 == d);
            }
            assert forall|m: int| 0 <= m < calls.len() - 1 implies calls[m].0 != d by {
                assert(prefix[m] == calls[m]);
            }
            assert(false);
        }
        let i = lemma_first_position(prefix, d);
        assert forall|j: int| 0 <= j < i implies calls[j].0 != d by {
            assert(prefix[j].0 != d);
        }
        i
    }
}

impl Store {
    /// The scopes met so far; a context handle is a position here.
    pub closed spec fn handles(&self) -> Seq<ScopeKey> {
        self.call_ids@
    }

    /// Context handle to the table key its states are kept under.
    pub closed spec fn key_map(&self) -> Map<u64, u64> {
        self.id_to_key_map@
    }

    /// Context handle to the slot key of its registration.
    pub closed spec fn slot_keys(&self) -> Map<u64, u64> {
        self.id_to_slot@
    }

    /// The next table key to give out; every key given out is below it.
    pub closed spec fn next_key(&self) -> u64 {
        self.next_key
    }

    /// For each call scope that made nested calls since the last reset, the
    /// number of those calls.
    pub closed spec fn nested_calls(&self) -> Seq<(CallId, u64)> {
        self.nested_counts@
    }

    /// The number of nested calls made from the call scope `c` since the
    /// last reset.
    pub open spec fn nested_count(&self, c: CallId) -> u64 {
        if exists|i: int| first_count_at(self.nested_calls(), c, i) {
            self.nested_calls()[choose|i: int| first_count_at(self.nested_calls(), c, i)].1
        } else {
            0
        }
    }

    /// Table key to the context it was given to.
    pub closed spec fn key_owners(&self) -> Map<u64, u64> {
        self.key_owners@
    }

    /// Slot key to the context handle it was made for.
    pub closed spec fn slot_map(&self) -> Map<u64, u64> {
        handle_slots(self.primary_slotmap)
    }

    /// Handles not touched since the last reset.
    pub closed spec fn unseen(&self) -> Set<u64> {
        self.unseen_ids@
    }

    /// The slot keys and the slot map are inverse to each other; each
    /// registered context has a table key of its own, given out earlier.
    pub open spec fn wf(&self) -> bool {
        &&& self.handles().no_duplicates()
        &&& self.key_map().dom().finite()
        &&& self.slot_map().dom().finite()
        &&& self.unseen().finite()
        &&& self.slot_keys().dom() == self.key_map().dom()
        &&& forall|id: u64| #[trigger] self.key_map().contains_key(id) ==> {
            &&& self.slot_map().contains_key(self.slot_keys()[id])
            &&& self.slot_map()[self.slot_keys()[id]] == id
            &&& self.key_map()[id] < self.next_key()
            &&& self.key_owners()[self.key_map()[id]] == id
        }
        &&& forall|k: u64| #[trigger] self.slot_map().contains_key(k) ==> {
            &&& self.key_map().contains_key(self.slot_map()[k])
            &&& self.slot_keys()[self.slot_map()[k]] == k
        }
    }

    pub fn new() -> (store: Store)
        ensures
            store.wf(),
            store.key_map() =~= Map::empty(),
            store.slot_map() =~= Map::empty(),
            store.unseen() =~= Set::empty(),
            store.handles() =~= Seq::empty(),
            store.next_key() == 0,
    {
        Store {
            call_ids: Vec::new(),
            id_to_key_map: HashMap::new(),
            id_to_slot: HashMap::new(),
            primary_slotmap: HandleSlots::new(),
            unseen_ids: HashSet::new(),
            next_key: 0,
            key_owners: Ghost(Map::empty()),
            nested_counts: Vec::new(),
        }
    }

    /// Every registered handle becomes unseen.
    pub fn reset_unseen_id_list(&mut self)
        requires
            old(self).wf(),
        ensures
            forall|c: CallId| #[trigger] final(self).nested_count(c) == 0,
            final(self).wf(),
            final(self).handles() == old(self).handles(),
            final(self).next_key() == old(self).next_key(),
            final(self).key_map() == old(self).key_map(),
            final(self).slot_map() == old(self).slot_map(),
            final(self).unseen() == old(self).key_map().dom(),
    {
        self.unseen_ids = HashSet::new();
        self.nested_counts = Vec::new();
        let ghost keys = self.id_to_key_map@;
        assert(self.id_to_key_map.keys().remaining().unref().to_set() == keys.dom());
        for id in iter: self.id_to_key_map.keys()
            invariant
                self.id_to_key_map@ == keys,
                self.call_ids == old(self).call_ids,
                keys == old(self).id_to_key_map@,
                self.id_to_slot == old(self).id_to_slot,
                self.nested_counts@ == Seq::<(CallId, u64)>::empty(),
                self.next_key == old(self).next_key,
                self.key_owners == old(self).key_owners,
                self.primary_slotmap == old(self).primary_slotmap,
                iter.seq().unref().to_set() == keys.dom(),
                self.unseen_ids@ == iter.seq().take(iter.index()).unref().to_set(),
                iter.index() == iter.seq().len() ==> self.unseen_ids@ == keys.dom(),
        {
            let ghost i = iter.index();
            self.unseen_ids.insert(*id);
            proof {
                broadcast use vstd::seq_lib::group_seq_properties;
                assert(iter.seq().take(i + 1).unref() =~= iter.seq().take(i).unref().push(*id));
                assert(iter.seq().take(i + 1).unref().to_set() =~= iter.seq().take(i).unref().to_set().insert(*id));
                assert(iter.seq().take(iter.seq().len() as int) =~= iter.seq());
            }
        }
    }

    /// The handle of `call`: its position among the scopes met so far, its
    /// scope being added at the end when it is new.
    pub fn handle_of(&mut self, call: CallId) -> (h: u64)
        requires
            old(self).wf(),
        ensures
            final(self).nested_calls() == old(self).nested_calls(),
            final(self).wf(),
            final(self).key_map() == old(self).key_map(),
            final(self).slot_map() == old(self).slot_map(),
            final(self).unseen() == old(self).unseen(),
            final(self).next_key() == old(self).next_key(),
            old(self).handles().contains(ScopeKey::Call(call)) ==> final(self).handles() == old(self).handles(),
            !old(self).handles().contains(ScopeKey::Call(call)) ==> final(self).handles() == old(self).handles().push(ScopeKey::Call(call)),
            h < final(self).handles().len(),
            final(self).handles()[h as int] == ScopeKey::Call(call),
    {
        self.handle_of_scope(ScopeKey::Call(call))
    }

    /// The handle of the scope `key`: its position among the scopes met so
    /// far, `key` being added at the end when it is new.
    pub fn handle_of_scope(&mut self, key: ScopeKey) -> (h: u64)
        requires
            old(self).wf(),
        ensures
            final(self).nested_calls() == old(self).nested_calls(),
            final(self).wf(),
            final(self).key_map() == old(self).key_map(),
            final(self).slot_map() == old(self).slot_map(),
            final(self).unseen() == old(self).unseen(),
            final(self).next_key() == old(self).next_key(),
            old(self).handles().contains(key) ==> final(self).handles() == old(self).handles(),
            !old(self).handles().contains(key) ==> final(self).handles() == old(self).handles().push(key),
            h < final(self).handles().len(),
            final(self).handles()[h as int] == key,
    {
        let n = self.call_ids.len();
        for i in 0..n
            invariant
                n == self.call_ids.len(),
                *self == *old(self),
                old(self).wf(),
                forall|j: int| 0 <= j < i ==> self.call_ids@[j] != key,
        {
            if same_scope(&self.call_ids[i], &key) {
                return i as u64;
            }
        }
        self.call_ids.push(key);
        proof {
            assert(!old(self).handles().contains(key));
            assert forall|a: int, b: int| 0 <= a < b < self.call_ids@.len() implies self.call_ids@[a] != self.call_ids@[b] by {
                if b < n as int {
                    assert(old(self).handles()[a] != old(self).handles()[b]);
                }
            }
        }
        n as u64
    }

    /// Number of registered contexts.
    pub fn len(&self) -> (n: usize)
        requires
            self.wf(),
        ensures
            n == self.slot_map().len(),
    {
        self.primary_slotmap.len()
    }

    /// Whether `n` more contexts can be registered.
    pub fn has_room_for(&self, n: u64) -> (room: bool)
        requires
            self.wf(),
        ensures
            room == has_room(self, n as nat),
    {
        let len = self.primary_slotmap.len() as u64;
        n <= SLOT_CAPACITY && len <= SLOT_CAPACITY - n && self.next_key <= u64::MAX - n
    }

    /// Counts one more nested call made from the call scope `c` and gives
    /// its number: one more than the calls counted before (saturating).
    pub fn count_nested_call(&mut self, c: CallId) -> (k: u64)
        requires
            old(self).wf(),
        ensures
            final(self).wf(),
            final(self).handles() == old(self).handles(),
            final(self).key_map() == old(self).key_map(),
            final(self).slot_map() == old(self).slot_map(),
            final(self).unseen() == old(self).unseen(),
            final(self).next_key() == old(self).next_key(),
            k == old(self).nested_count(c).saturating_add(1),
            final(self).nested_count(c) == k,
            forall|d: CallId| d != c ==> #[trigger] final(self).nested_count(d) == old(self).nested_count(d),
    {
        let n = self.nested_counts.len();
        for i in 0..n
            invariant
                n == self.nested_counts.len(),
                *self == *old(self),
                old(self).wf(),
                forall|j: int| 0 <= j < i ==> self.nested_counts@[j].0 != c,
        {
            if same_call_id(&self.nested_counts[i].0, &c) {
                let k = self.nested_counts[i].1.saturating_add(1);
                let ghost before = self.nested_counts@;
                self.nested_counts.set(i, (c, k));
                proof {
                    lemma_nested_count_at(&*old(self), c, i as int);
                    lemma_nested_count_at(&*self, c, i as int);
                    assert forall|d: CallId| d != c implies #[trigger] self.nested_count(d) == old(self).nested_count(d) by {
                        if exists|j: int| 0 <= j < before.len() && before[j].0 == d {
                            let j = lemma_first_position(before, d);
                            lemma_nested_count_at(&*old(self), d, j);
                            assert(j != i as int);
                            assert forall|m: int| 0 <= m < j implies self.nested_calls()[m].0 != d by {
                                assert(before[m].0 != d);
                            }
                            lemma_nested_count_at(&*self, d, j);
                        } else {
                            assert forall|m: int| 0 <= m < self.nested_calls().len() implies self.nested_calls()[m].0 != d by {
                                if m != i as int {
                                    assert(self.nested_calls()[m] == before[m]);
                                }
                            }
                            lemma_nested_count_none(&*self, d);
                            lemma_nested_count_none(&*old(self), d);
                        }
                    }
                }
                return k;
            }
        }
        let ghost before = self.nested_counts@;
        self.nested_counts.push((c, 1));
        proof {
            lemma_nested_count_none(&*old(self), c);
            lemma_nested_count_at(&*self, c, n as int);
            assert forall|d: CallId| d != c implies #[trigger] self.nested_count(d) == old(self).nested_count(d) by {
                if exists|j: int| 0 <= j < before.len() && before[j].0 == d {
                    let j = lemma_first_position(before, d);
                    lemma_nested_count_at(&*old(self), d, j);
                    assert forall|m: int| 0 <= m < j implies self.nested_calls()[m].0 != d by {
                        assert(before[m].0 != d);
                    }
                    lemma_nested_count_at(&*self, d, j);
                } else {
                    assert forall|m: int| 0 <= m < self.nested_calls().len() implies self.nested_calls()[m].0 != d by {
                        if m < n {
                            assert(self.nested_calls()[m] == before[m]);
                        }
                    }
                    lemma_nested_count_none(&*self, d);
                    lemma_nested_count_none(&*old(self), d);
                }
            }
        }
        1
    }

    /// Records that `id` was touched since the last reset.
    fn mark_seen(&mut self, id: u64)
        requires
            old(self).wf(),
        ensures
            final(self).nested_calls() == old(self).nested_calls(),
            final(self).wf(),
            final(self).handles() == old(self).handles(),
            final(self).next_key() == old(self).next_key(),
            final(self).key_map() == old(self).key_map(),
            final(self).slot_map() == old(self).slot_map(),
            final(self).unseen() == old(self).unseen().remove(id),
    {
        self.unseen_ids.remove(&id);
    }

    /// The state of type `T` that `id` holds; `id` counts as touched.
    pub fn get_state_with_topo_id<'a, T>(&mut self, states: &'a StateMap<T>, id: u64) -> (r: Option<&'a T>)
        requires
            old(self).wf(),
        ensures
            final(self).nested_calls() == old(self).nested_calls(),
            final(self).wf(),
            final(self).handles() == old(self).handles(),
            final(self).next_key() == old(self).next_key(),
            final(self).key_map() == old(self).key_map(),
            final(self).slot_map() == old(self).slot_map(),
            final(self).unseen() == old(self).unseen().remove(id),
            match r {
                Some(v) => state_of(&*old(self), states, id) == Some(*v),
                None => state_of(&*old(self), states, id) is None,
            },
    {
        self.mark_seen(id);
        match self.id_to_key_map.get(&id) {
            Some(key) => states.states.get(key),
            None => None,
        }
    }

    /// Takes the state of type `T` out of `id`; the registration stays and
    /// `id` counts as touched.
    pub fn remove_state_with_topo_id<T>(&mut self, states: &mut StateMap<T>, id: u64) -> (r: Option<T>)
        requires
            old(self).wf(),
        ensures
            final(self).nested_calls() == old(self).nested_calls(),
            final(self).wf(),
            final(self).handles() == old(self).handles(),
            final(self).next_key() == old(self).next_key(),
            final(self).key_map() == old(self).key_map(),
            final(self).slot_map() == old(self).slot_map(),
            final(self).unseen() == old(self).unseen().remove(id),
            r == state_of(&*old(self), &*old(states), id),
            final(states).contents() == (if old(self).key_map().contains_key(id) {
                old(states).contents().remove(old(self).key_map()[id])
            } else {
                old(states).contents()
            }),
    {
        self.mark_seen(id);
        match self.id_to_key_map.get(&id) {
            Some(key) => states.states.remove(key),
            None => None,
        }
    }

    /// Stores `data` as the state of type `T` of `id`, registering `id`
    /// under a new slot key and the next table key when it has none; `id`
    /// counts as touched.
    pub fn set_state_with_topo_id<T>(&mut self, states: &mut StateMap<T>, data: T, id: u64)
        requires
            old(self).wf(),
            old(self).key_map().contains_key(id) || has_room(&*old(self), 1),
        ensures
            final(self).nested_calls() == old(self).nested_calls(),
            final(self).wf(),
            final(self).handles() == old(self).handles(),
            final(self).unseen() == old(self).unseen().remove(id),
            final(self).key_map().contains_key(id),
            old(self).key_map().contains_key(id) ==> {
                &&& final(self).key_map() == old(self).key_map()
                &&& final(self).slot_map() == old(self).slot_map()
                &&& final(self).next_key() == old(self).next_key()
            },
            !old(self).key_map().contains_key(id) ==> {
                &&& final(self).key_map()[id] == old(self).next_key()
                &&& final(self).next_key() == old(self).next_key() + 1
                &&& !old(self).slot_map().contains_key(final(self).slot_keys()[id])
                &&& final(self).slot_map() == old(self).slot_map().insert(final(self).slot_keys()[id], id)
            },
            final(self).key_map() == old(self).key_map().insert(id, final(self).key_map()[id]),
            final(states).contents() == old(states).contents().insert(final(self).key_map()[id], data),
    {
        self.mark_seen(id);
        let existing = self.id_to_key_map.get(&id);
        match existing {
            Some(key) => {
                let key = *key;
                states.states.insert(key, data);
            },
            None => {
                let slot = self.primary_slotmap.insert(id);
                let key = self.next_key;
                self.next_key = key + 1;
                self.id_to_key_map.insert(id, key);
                self.id_to_slot.insert(id, slot);
                proof {
                    self.key_owners@ = self.key_owners@.insert(key, id);
                }
                states.states.insert(key, data);
            },
        }
    }

    /// Drops every context not touched since the last reset, then makes every
    /// remaining context unseen.
    pub fn purge_and_reset_unseen_ids(&mut self)
        requires
            old(self).wf(),
        ensures
            final(self).wf(),
            final(self).handles() == old(self).handles(),
            final(self).next_key() == old(self).next_key(),
            final(self).key_map() == keys_without(old(self).key_map(), old(self).unseen()),
            final(self).slot_map() == slots_without(old(self).slot_map(), old(self).unseen()),
            final(self).unseen() == final(self).key_map().dom(),
    {
        self.purge_unseen_ids();
        self.reset_unseen_id_list();
    }

    /// Drops the registration of every unseen handle.
    pub fn purge_unseen_ids(&mut self)
        requires
            old(self).wf(),
        ensures
            final(self).nested_calls() == old(self).nested_calls(),
            final(self).wf(),
            final(self).handles() == old(self).handles(),
            final(self).next_key() == old(self).next_key(),
            final(self).key_map() == keys_without(old(self).key_map(), old(self).unseen()),
            final(self).slot_map() == slots_without(old(self).slot_map(), old(self).unseen()),
            final(self).unseen() == old(self).unseen(),
    {
        let ghost keys0 = self.id_to_key_map@;
        let ghost slot_keys0 = self.id_to_slot@;
        let ghost slots0 = handle_slots(self.primary_slotmap);
        let ghost unseen0 = self.unseen_ids@;
        assert(self.unseen_ids.iter().remaining().unref().to_set() == unseen0);
        for id in iter: self.unseen_ids.iter()
            invariant
                self.unseen_ids@ == unseen0,
                self.call_ids == old(self).call_ids,
                self.next_key == old(self).next_key,
                self.key_owners == old(self).key_owners,
                self.nested_counts == old(self).nested_counts,
                unseen0 == old(self).unseen_ids@,
                keys0 == old(self).id_to_key_map@,
                slot_keys0 == old(self).id_to_slot@,
                slots0 == handle_slots(old(self).primary_slotmap),
                old(self).wf(),
                self.wf(),
                iter.seq().unref().to_set() == unseen0,
                self.id_to_key_map@ == keys_without(keys0, iter.seq().take(iter.index()).unref().to_set()),
                self.id_to_slot@ == keys_without(slot_keys0, iter.seq().take(iter.index()).unref().to_set()),
                handle_slots(self.primary_slotmap) == slots_without(slots0, iter.seq().take(iter.index()).unref().to_set()),
                iter.index() == iter.seq().len() ==> {
                    &&& self.id_to_key_map@ == keys_without(keys0, unseen0)
                    &&& handle_slots(self.primary_slotmap) == slots_without(slots0, unseen0)
                },
        {
            let ghost i = iter.index();
            let ghost done = iter.seq().take(i).unref().to_set();
            self.id_to_key_map.remove(id);
            let removed = self.id_to_slot.remove(id);
            if let Some(slot) = removed {
                self.primary_slotmap.remove(slot);
            }
            proof {
                broadcast use vstd::seq_lib::group_seq_properties;
                assert(iter.seq().take(i + 1).unref() =~= iter.seq().take(i).unref().push(*id));
                assert(iter.seq().take(i + 1).unref().to_set() =~= done.insert(*id));
                assert(self.id_to_key_map@ =~= keys_without(keys0, done.insert(*id)));
                assert(self.id_to_slot@ =~= keys_without(slot_keys0, done.insert(*id)));
                assert(handle_slots(self.primary_slotmap) =~= slots_without(slots0, done.insert(*id)));
                assert(iter.seq().take(iter.seq().len() as int) =~= iter.seq());
            }
        }
    }
}

} // verus!
