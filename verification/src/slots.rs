//! Slot-map storage from the `slotmap` crate, seen through its contents.
//!
//! A slot-map key is handed around as the `u64` that `KeyData::as_ffi`
//! gives; `KeyData::from_ffi` turns such a value back into the same key.

use slotmap::{DefaultKey, DenseSlotMap, Key, KeyData};
use vstd::prelude::*;

use crate::id_tree::IdTreeNode;

verus! {

/// The largest number of entries a `DenseSlotMap` holds: inserting into a
/// map that holds this many panics ("DenseSlotMap is full").
pub const SLOT_CAPACITY: u64 = 4294967294;

/// A `DenseSlotMap` from keys to context handles (the registry's key
/// allocator: each live key names the context it was made for).
#[verifier::external_body]
pub struct HandleSlots {
    slots: DenseSlotMap<DefaultKey, u64>,
}

/// What a `HandleSlots` holds, each key given by its `as_ffi` value.
pub uninterp spec fn handle_slots(m: HandleSlots) -> Map<u64, u64>;

impl HandleSlots {
    /// `DenseSlotMap::new`: the new map holds nothing.
    #[verifier::external_body]
    pub(crate) fn new() -> (slots: HandleSlots)
        ensures
            handle_slots(slots) =~= Map::empty(),
    {
        HandleSlots { slots: DenseSlotMap::new() }
    }

    /// `DenseSlotMap::insert`: the value is stored under a key that the map
    /// did not hold before, and nothing else changes.
    #[verifier::external_body]
    pub(crate) fn insert(&mut self, value: u64) -> (key: u64)
        requires
            handle_slots(*old(self)).len() < SLOT_CAPACITY,
        ensures
            !handle_slots(*old(self)).contains_key(key),
            handle_slots(*final(self)) == handle_slots(*old(self)).insert(key, value),
    {
        self.slots.insert(value).data().as_ffi()
    }

    /// `DenseSlotMap::remove` on a key that the map holds: the entry is
    /// removed and its value handed back.
    #[verifier::external_body]
    pub(crate) fn remove(&mut self, key: u64) -> (value: Option<u64>)
        requires
            handle_slots(*old(self)).contains_key(key),
        ensures
            value == Some(handle_slots(*old(self))[key]),
            handle_slots(*final(self)) == handle_slots(*old(self)).remove(key),
    {
        self.slots.remove(DefaultKey::from(KeyData::from_ffi(key)))
    }

    /// `DenseSlotMap::len`: the number of entries.
    #[verifier::external_body]
    pub(crate) fn len(&self) -> (n: usize)
        ensures
            n == handle_slots(*self).len(),
    {
        self.slots.len()
    }
}

/// A `DenseSlotMap` from keys to the nodes of a context tree.
#[verifier::external_body]
pub struct NodeSlots {
    slots: DenseSlotMap<DefaultKey, IdTreeNode>,
}

/// What a `NodeSlots` holds, each key given by its `as_ffi` value.
pub uninterp spec fn node_slots(m: NodeSlots) -> Map<u64, IdTreeNode>;

/// The order in which a `NodeSlots` walks its keys (`keys`, `values` and
/// `iter` all walk its dense key vector), each key given by its `as_ffi`
/// value.
pub uninterp spec fn node_order(m: NodeSlots) -> Seq<u64>;

impl NodeSlots {
    /// `DenseSlotMap::new`: the new map holds nothing.
    #[verifier::external_body]
    pub(crate) fn new() -> (slots: NodeSlots)
        ensures
            node_slots(slots) =~= Map::empty(),
            node_order(slots) =~= Seq::empty(),
    {
        NodeSlots { slots: DenseSlotMap::new() }
    }

    /// `DenseSlotMap::insert_with_key`, the new node being a leaf that holds
    /// its own key and `id`: the key is one the map did not hold before, it
    /// comes last in the map's order, and nothing else changes.
    #[verifier::external_body]
    pub(crate) fn insert_leaf(&mut self, id: u64) -> (key: u64)
        requires
            node_slots(*old(self)).len() < SLOT_CAPACITY,
        ensures
            !node_slots(*old(self)).contains_key(key),
            node_slots(*final(self)) == node_slots(*old(self)).insert(key, node_slots(*final(self))[key]),
            node_slots(*final(self))[key].key == key,
            node_slots(*final(self))[key].id == id,
            node_slots(*final(self))[key].child_keys@ == Seq::<u64>::empty(),
            node_order(*final(self)) == node_order(*old(self)).push(key),
    {
        self.slots.insert_with_key(|k| IdTreeNode::leaf(k.data().as_ffi(), id)).data().as_ffi()
    }

    /// `DenseSlotMap::get` on a key that the map holds.
    #[verifier::external_body]
    pub(crate) fn get(&self, key: u64) -> (node: &IdTreeNode)
        requires
            node_slots(*self).contains_key(key),
        ensures
            *node == node_slots(*self)[key],
    {
        self.slots.get(DefaultKey::from(KeyData::from_ffi(key))).unwrap()
    }

    /// `DenseSlotMap::get_mut` on a key that the map holds, the node there
    /// being overwritten by `node`.
    #[verifier::external_body]
    pub(crate) fn replace(&mut self, key: u64, node: IdTreeNode)
        requires
            node_slots(*old(self)).contains_key(key),
        ensures
            node_slots(*final(self)) == node_slots(*old(self)).insert(key, node),
            node_order(*final(self)) == node_order(*old(self)),
    {
        *self.slots.get_mut(DefaultKey::from(KeyData::from_ffi(key))).unwrap() = node;
    }

    /// `DenseSlotMap::keys`: every key the map holds, once each, in the
    /// map's own order.
    #[verifier::external_body]
    pub(crate) fn keys(&self) -> (keys: Vec<u64>)
        ensures
            keys@ == node_order(*self),
            keys@.no_duplicates(),
            keys@.to_set() == node_slots(*self).dom(),
    {
        self.slots.keys().map(|k| k.data().as_ffi()).collect()
    }

    /// `DenseSlotMap::len`: the number of nodes.
    #[verifier::external_body]
    pub(crate) fn len(&self) -> (n: usize)
        ensures
            n == node_slots(*self).len(),
    {
        self.slots.len()
    }
}

} // verus!
