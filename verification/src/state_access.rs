//! A typed accessor for the state one context holds.

use std::marker::PhantomData;
use vstd::prelude::*;

use crate::state_functions::{
    clone_state_with_topo_id, remove_state_with_topo_id, set_state_with_topo_id,
    update_state_with_topo_id,
};
use crate::store::{fits, grown_by_at_most, has_room, state_of, StateMap, Store};

verus! {

/// Accessor for the state of type `T` that the context `id` holds.
pub struct StateAccess<T> {
    pub id: u64,
    pub _phantom_data: PhantomData<T>,
}

impl<T> Copy for StateAccess<T> {}

impl<T> Clone for StateAccess<T> {
    fn clone(&self) -> (r: StateAccess<T>)
        ensures
            r.id == self.id,
    {
        StateAccess::<T> { id: self.id, _phantom_data: PhantomData }
    }
}

impl<T> StateAccess<T> {
    pub fn new(id: u64) -> (access: StateAccess<T>)
        ensures
            access.id == id,
    {
        StateAccess { id, _phantom_data: PhantomData }
    }

    /// Stores `value` as the state of this accessor's context.
    pub fn set(self, store: &mut Store, states: &mut StateMap<T>, value: T)
        requires
            old(store).wf(),
            old(store).key_map().contains_key(self.id) || has_room(&*old(store), 1),
        ensures
            final(store).wf(),
            state_of(&*final(store), &*final(states), self.id) == Some(value),
            final(store).unseen() == old(store).unseen().remove(self.id),
            final(store).key_map().remove(self.id) == old(store).key_map().remove(self.id),
            old(store).key_map().contains_key(self.id) ==> final(store).key_map() == old(store).key_map(),
            old(store).key_map().contains_key(self.id) ==> final(store).slot_map() == old(store).slot_map(),
            old(store).key_map().contains_key(self.id) ==> final(store).next_key() == old(store).next_key(),
            !old(store).key_map().contains_key(self.id) ==> final(store).key_map()[self.id] == old(store).next_key(),
            fits(&*old(store), &*old(states)) ==> fits(&*final(store), &*final(states)),
            grown_by_at_most(&*old(store), &*final(store), 1),
            final(store).handles() == old(store).handles(),
            forall|other: u64| other != self.id ==> state_of(&*final(store), &*final(states), other) == state_of(&*old(store), &*old(states), other),
    {
        set_state_with_topo_id(store, states, value, self.id);
    }

    /// Takes the state out of this accessor's context, which counts as
    /// touched.
    pub fn remove(self, store: &mut Store, states: &mut StateMap<T>) -> (r: Option<T>)
        requires
            old(store).wf(),
        ensures
            final(store).wf(),
            final(store).handles() == old(store).handles(),
            final(store).key_map() == old(store).key_map(),
            final(store).next_key() == old(store).next_key(),
            final(store).slot_map() == old(store).slot_map(),
            final(store).unseen() == old(store).unseen().remove(self.id),
            fits(&*old(store), &*old(states)) ==> fits(&*final(store), &*final(states)),
            r == state_of(&*old(store), &*old(states), self.id),
            state_of(&*final(store), &*final(states), self.id) is None,
            forall|other: u64| other != self.id ==> state_of(&*final(store), &*final(states), other) == state_of(&*old(store), &*old(states), other),
    {
        remove_state_with_topo_id(store, states, self.id)
    }

    /// Replaces the state of this accessor's context, which must hold one,
    /// by what `func` makes of it.
    pub fn update<F: FnOnce(T) -> T>(self, store: &mut Store, states: &mut StateMap<T>, func: F)
        requires
            old(store).wf(),
            state_of(&*old(store), &*old(states), self.id) is Some,
            func.requires((state_of(&*old(store), &*old(states), self.id).unwrap(),)),
        ensures
            final(store).wf(),
            state_of(&*final(store), &*final(states), self.id) is Some,
            func.ensures(
                (state_of(&*old(store), &*old(states), self.id).unwrap(),),
                state_of(&*final(store), &*final(states), self.id).unwrap(),
            ),
            final(store).key_map() == old(store).key_map(),
            final(store).next_key() == old(store).next_key(),
            final(store).slot_map() == old(store).slot_map(),
            final(store).handles() == old(store).handles(),
            final(store).unseen() == old(store).unseen().remove(self.id),
            fits(&*old(store), &*old(states)) ==> fits(&*final(store), &*final(states)),
            forall|other: u64| other != self.id ==> state_of(&*final(store), &*final(states), other) == state_of(&*old(store), &*old(states), other),
    {
        update_state_with_topo_id(store, states, self.id, func);
    }
}

impl<T: Clone> StateAccess<T> {
    /// A clone of the state of this accessor's context, if it holds one.
    pub fn clone_state(&self, store: &mut Store, states: &StateMap<T>) -> (r: Option<T>)
        requires
            old(store).wf(),
        ensures
            final(store).wf(),
            final(store).key_map() == old(store).key_map(),
            final(store).next_key() == old(store).next_key(),
            final(store).slot_map() == old(store).slot_map(),
            final(store).handles() == old(store).handles(),
            final(store).unseen() == old(store).unseen().remove(self.id),
            match state_of(&*old(store), states, self.id) {
                Some(v) => r is Some && cloned(v, r.unwrap()),
                None => r is None,
            },
    {
        clone_state_with_topo_id(store, states, self.id)
    }

    /// A clone of the state of this accessor's context, which must hold one.
    pub fn hard_clone(&self, store: &mut Store, states: &StateMap<T>) -> (r: T)
        requires
            old(store).wf(),
            state_of(&*old(store), states, self.id) is Some,
        ensures
            final(store).wf(),
            final(store).key_map() == old(store).key_map(),
            final(store).next_key() == old(store).next_key(),
            final(store).slot_map() == old(store).slot_map(),
            final(store).handles() == old(store).handles(),
            final(store).unseen() == old(store).unseen().remove(self.id),
            cloned(state_of(&*old(store), states, self.id).unwrap(), r),
    {
        clone_state_with_topo_id(store, states, self.id).unwrap()
    }
}

} // verus!
