//! A tree of contexts: each node names a context and lists the keys of its
//! children, so that a context and everything below it can be found.

use vstd::prelude::*;

use crate::slots::{node_order, node_slots, NodeSlots, SLOT_CAPACITY};
use crate::state_access::StateAccess;
use crate::state_functions::{call_registered, use_state_for_call};
use crate::store::{ScopeKey, fits, grown_by_at_most, has_room, handles_grow_by_at_most, state_of, StateMap, Store};
use crate::changes::{handle_for, handle_given};
use crate::topo_ids::current_call_id;
use topo::CallId;

verus! {

/// One context in the tree, with the slot keys of its children.
pub struct IdTreeNode {
    pub key: u64,
    pub child_keys: Vec<u64>,
    pub id: u64,
}

impl IdTreeNode {
    /// A node with no children.
    pub fn leaf(key: u64, id: u64) -> (node: IdTreeNode)
        ensures
            node.key == key,
            node.id == id,
            node.child_keys@ == Seq::<u64>::empty(),
    {
        IdTreeNode { key, child_keys: Vec::new(), id }
    }
}

/// The keys below `key`, depth first, each child before its own children
/// and the children in the order they were added; `fuel` bounds the depth.
pub open spec fn branch(nodes: Map<u64, IdTreeNode>, key: u64, fuel: nat) -> Seq<u64>
    decreases fuel, 0nat, 0nat,
{
    if fuel == 0 {
        Seq::empty()
    } else {
        children_branch(nodes, nodes[key].child_keys@, (fuel - 1) as nat)
    }
}

/// Each key of `children`, followed by the keys below it.
pub open spec fn children_branch(nodes: Map<u64, IdTreeNode>, children: Seq<u64>, fuel: nat) -> Seq<u64>
    decreases fuel, 1nat, children.len(),
{
    if children.len() == 0 {
        Seq::empty()
    } else {
        children_branch(nodes, children.drop_last(), fuel) + seq![children.last()] + branch(
            nodes,
            children.last(),
            fuel,
        )
    }
}

/// Whether some node of `nodes` names the context `id`.
pub open spec fn has_id(nodes: Map<u64, IdTreeNode>, id: u64) -> bool {
    exists|k: u64| nodes.contains_key(k) && #[trigger] nodes[k].id == id
}

/// The contexts that the nodes under `keys` name, in the same order.
pub open spec fn ids_of(nodes: Map<u64, IdTreeNode>, keys: Seq<u64>) -> Seq<u64> {
    keys.map_values(|k: u64| nodes[k].id)
}

/// `k` is the first key in `order` whose node names `id`.
pub open spec fn first_with_id(nodes: Map<u64, IdTreeNode>, order: Seq<u64>, id: u64, k: u64) -> bool {
    exists|i: int| #[trigger] first_at(nodes, order, id, i) && order[i] == k
}

/// Position `i` of `order` holds the first key whose node names `id`.
pub open spec fn first_at(nodes: Map<u64, IdTreeNode>, order: Seq<u64>, id: u64, i: int) -> bool {
    &&& 0 <= i < order.len()
    &&& nodes[order[i]].id == id
    &&& forall|j: int| 0 <= j < i ==> nodes[#[trigger] order[j]].id != id
}

/// `after` is `before` with a node for `child_id` added below the first node,
/// in the map's order, that names `parent_id`, the new node coming last in
/// that order; unless a node of `before` names `child_id` already, in which
/// case nothing changed.
pub open spec fn child_pushed(before: IdTree, after: IdTree, parent_id: u64, child_id: u64) -> bool {
    &&& has_id(before.nodes(), child_id) ==> after.nodes() == before.nodes() && after.order() == before.order()
    &&& !has_id(before.nodes(), child_id) ==> exists|c: u64, p: u64| {
        &&& !before.nodes().contains_key(c)
        &&& first_with_id(before.nodes(), before.order(), parent_id, p)
        &&& after.order() == before.order().push(c)
        &&& after.nodes().dom() == before.nodes().dom().insert(c)
        &&& after.nodes()[c].key == c
        &&& after.nodes()[c].id == child_id
        &&& after.nodes()[c].child_keys@ == Seq::<u64>::empty()
        &&& after.nodes()[p].key == p
        &&& after.nodes()[p].id == parent_id
        &&& after.nodes()[p].child_keys@ == before.nodes()[p].child_keys@.push(c)
        &&& forall|k: u64| #[trigger] before.nodes().contains_key(k) && k != p ==> after.nodes()[k] == before.nodes()[k]
    }
}

/// The contexts of a tree, stored in a slot map.
pub struct IdTree {
    tree: NodeSlots,
    root_key: Option<u64>,
    depth: Ghost<Map<u64, nat>>,
}

impl Default for IdTree {
    fn default() -> (t: IdTree)
        ensures
            t.wf(),
            t.nodes() =~= Map::empty(),
            t.order() =~= Seq::empty(),
            t.root() is None,
    {
        IdTree::new()
    }
}

impl IdTree {
    /// Slot key to node.
    pub closed spec fn nodes(&self) -> Map<u64, IdTreeNode> {
        node_slots(self.tree)
    }

    /// The order in which the slot map walks the keys.
    pub closed spec fn order(&self) -> Seq<u64> {
        node_order(self.tree)
    }

    /// The key of the last root added.
    pub closed spec fn root(&self) -> Option<u64> {
        self.root_key
    }

    /// How far below a root a node stands.
    pub closed spec fn depth_of(&self, key: u64) -> nat {
        self.depth@[key]
    }

    /// Enough fuel for `branch` to reach every node below `key`.
    pub open spec fn fuel(&self, key: u64) -> nat {
        (self.nodes().len() - self.depth_of(key)) as nat
    }

    /// Every node holds its own key; children are nodes of the tree, one
    /// level deeper than their parent, and no node is deeper than the tree
    /// has nodes.
    pub closed spec fn wf(&self) -> bool {
        &&& self.nodes().dom().finite()
        &&& self.root_key matches Some(r) ==> self.nodes().contains_key(r)
        &&& forall|k: u64| #[trigger] self.nodes().contains_key(k) ==> {
            &&& self.nodes()[k].key == k
            &&& self.depth@.contains_key(k)
            &&& self.depth@[k] < self.nodes().len()
            &&& forall|i: int| 0 <= i < self.nodes()[k].child_keys@.len() ==> {
                &&& #[trigger] self.nodes().contains_key(self.nodes()[k].child_keys@[i])
                &&& self.depth@[self.nodes()[k].child_keys@[i]] == self.depth@[k] + 1
            }
        }
    }

    pub fn new() -> (t: IdTree)
        ensures
            t.wf(),
            t.nodes() =~= Map::empty(),
            t.order() =~= Seq::empty(),
            t.root() is None,
    {
        IdTree { tree: NodeSlots::new(), root_key: None, depth: Ghost(Map::empty()) }
    }

    /// Every key below a node of a well-formed tree, at any depth, is itself
    /// a node of the tree.
    pub proof fn law_branch_stays_in_tree(&self, key: u64, fuel: nat)
        requires
            self.wf(),
            self.nodes().contains_key(key),
        ensures
            forall|i: int| 0 <= i < branch(self.nodes(), key, fuel).len() ==> self.nodes().contains_key(
                #[trigger] branch(self.nodes(), key, fuel)[i],
            ),
        decreases fuel, 0nat, 0nat,
    {
        if fuel > 0 {
            let children = self.nodes()[key].child_keys@;
            assert(children.take(children.len() as int) =~= children);
            self.lemma_children_branch_in_tree(children, (fuel - 1) as nat, key);
            assert(branch(self.nodes(), key, fuel) == children_branch(self.nodes(), children, (fuel - 1) as nat));
        }
    }

    proof fn lemma_children_branch_in_tree(&self, children: Seq<u64>, fuel: nat, parent: u64)
        requires
            self.wf(),
            self.nodes().contains_key(parent),
            children.len() <= self.nodes()[parent].child_keys@.len(),
            children == self.nodes()[parent].child_keys@.take(children.len() as int),
        ensures
            forall|i: int| 0 <= i < children_branch(self.nodes(), children, fuel).len() ==> self.nodes().contains_key(
                #[trigger] children_branch(self.nodes(), children, fuel)[i],
            ),
        decreases fuel, 1nat, children.len(),
    {
        if children.len() > 0 {
            let last = children.last();
            assert(last == self.nodes()[parent].child_keys@[children.len() - 1]);
            assert(self.nodes().contains_key(last));
            assert(children.drop_last() =~= self.nodes()[parent].child_keys@.take(children.len() - 1));
            self.lemma_children_branch_in_tree(children.drop_last(), fuel, parent);
            self.law_branch_stays_in_tree(last, fuel);
            let a = children_branch(self.nodes(), children.drop_last(), fuel);
            let b = branch(self.nodes(), last, fuel);
            assert forall|i: int| 0 <= i < children_branch(self.nodes(), children, fuel).len() implies self.nodes().contains_key(
                #[trigger] children_branch(self.nodes(), children, fuel)[i],
            ) by {
                if i < a.len() {
                    assert(children_branch(self.nodes(), children, fuel)[i] == a[i]);
                } else if i > a.len() {
                    assert(children_branch(self.nodes(), children, fuel)[i] == b[i - a.len() - 1]);
                }
            }
        }
    }

    /// Fuel beyond `fuel(key)` finds nothing more below `key`: the branch
    /// that `fuel(key)` gives is the whole branch.
    pub proof fn law_branch_fuel_suffices(&self, key: u64, fuel: nat)
        requires
            self.wf(),
            self.nodes().contains_key(key),
            fuel >= self.fuel(key),
        ensures
            branch(self.nodes(), key, fuel) == branch(self.nodes(), key, self.fuel(key)),
        decreases fuel - self.fuel(key),
    {
        if fuel > self.fuel(key) {
            self.law_branch_fuel_suffices(key, (fuel - 1) as nat);
            self.lemma_fuel_step(key, (fuel - 1) as nat);
        }
    }

    proof fn lemma_fuel_step(&self, key: u64, fuel: nat)
        requires
            self.wf(),
            self.nodes().contains_key(key),
            fuel + self.depth_of(key) >= self.nodes().len(),
        ensures
            branch(self.nodes(), key, fuel + 1) == branch(self.nodes(), key, fuel),
        decreases fuel, 0nat, 0nat,
    {
        let children = self.nodes()[key].child_keys@;
        assert(children.take(children.len() as int) =~= children);
        self.lemma_children_fuel_step(children, (fuel - 1) as nat, key);
    }

    proof fn lemma_children_fuel_step(&self, children: Seq<u64>, fuel: nat, parent: u64)
        requires
            self.wf(),
            self.nodes().contains_key(parent),
            fuel + 1 + self.depth_of(parent) >= self.nodes().len(),
            children.len() <= self.nodes()[parent].child_keys@.len(),
            children == self.nodes()[parent].child_keys@.take(children.len() as int),
        ensures
            children_branch(self.nodes(), children, fuel + 1) == children_branch(self.nodes(), children, fuel),
        decreases fuel, 1nat, children.len(),
    {
        if children.len() > 0 {
            let last = children.last();
            assert(last == self.nodes()[parent].child_keys@[children.len() - 1]);
            assert(self.nodes().contains_key(last));
            assert(children.drop_last() =~= self.nodes()[parent].child_keys@.take(children.len() - 1));
            self.lemma_children_fuel_step(children.drop_last(), fuel, parent);
            self.lemma_fuel_step(last, fuel);
        }
    }

    /// The first key, in the map's own order, whose node names `id`.
    pub fn find_key_of(&self, id: u64) -> (found: Option<u64>)
        requires
            self.wf(),
        ensures
            found is None ==> !has_id(self.nodes(), id),
            found matches Some(k) ==> {
                &&& self.nodes().contains_key(k)
                &&& self.nodes()[k].id == id
                &&& first_with_id(self.nodes(), self.order(), id, k)
            },
    {
        let keys = self.tree.keys();
        let n = keys.len();
        for i in 0..n
            invariant
                n == keys@.len(),
                keys@ == self.order(),
                keys@.to_set() == self.nodes().dom(),
                forall|j: int| 0 <= j < i ==> self.nodes()[#[trigger] keys@[j]].id != id,
        {
            assert(keys@.to_set().contains(keys@[i as int]));
            if self.tree.get(keys[i]).id == id {
                assert(first_at(self.nodes(), self.order(), id, i as int));
                return Some(keys[i]);
            }
        }
        proof {
            if has_id(self.nodes(), id) {
                let k = choose|k: u64| self.nodes().contains_key(k) && #[trigger] self.nodes()[k].id == id;
                assert(keys@.to_set().contains(k));
                let j = choose|j: int| 0 <= j < keys@.len() && keys@[j] == k;
                assert(self.nodes()[keys@[j]].id != id);
            }
        }
        None
    }

    /// The contexts of all nodes, one per node, in the map's own order.
    pub fn destroy_all(&self) -> (ids: Vec<u64>)
        requires
            self.wf(),
        ensures
            ids@ == ids_of(self.nodes(), self.order()),
    {
        let keys = self.tree.keys();
        let n = keys.len();
        let mut ids: Vec<u64> = Vec::new();
        for i in 0..n
            invariant
                n == keys@.len(),
                keys@.to_set() == self.nodes().dom(),
                ids@ == ids_of(self.nodes(), keys@.take(i as int)),
        {
            assert(keys@.to_set().contains(keys@[i as int]));
            ids.push(self.tree.get(keys[i]).id);
            assert(ids_of(self.nodes(), keys@.take(i + 1)) =~= ids_of(self.nodes(), keys@.take(i as int)).push(self.nodes()[keys@[i as int]].id));
        }
        assert(keys@.take(n as int) =~= keys@);
        ids
    }

    /// The contexts of the first node that names `id` and of every node
    /// below it, that node first and the rest depth first; nothing when no
    /// node names `id`.
    pub fn destroy_from_id(&self, id: u64) -> (ids: Vec<u64>)
        requires
            self.wf(),
        ensures
            !has_id(self.nodes(), id) ==> ids@ == Seq::<u64>::empty(),
            has_id(self.nodes(), id) ==> exists|k: u64| {
                &&& self.nodes().contains_key(k)
                &&& self.nodes()[k].id == id
                &&& first_with_id(self.nodes(), self.order(), id, k)
                &&& ids@ == ids_of(self.nodes(), seq![k] + branch(self.nodes(), k, self.fuel(k)))
            },
    {
        let mut collected: Vec<u64> = Vec::new();
        let found = self.find_key_of(id);
        if let Some(k) = found {
            collected.push(self.tree.get(k).key);
            self.get_branch_keys(k, &mut collected);
            proof {
                self.law_branch_stays_in_tree(k, self.fuel(k));
            }
        }
        let n = collected.len();
        let mut ids: Vec<u64> = Vec::new();
        for i in 0..n
            invariant
                n == collected@.len(),
                forall|j: int| 0 <= j < n ==> self.nodes().contains_key(#[trigger] collected@[j]),
                ids@ == ids_of(self.nodes(), collected@.take(i as int)),
        {
            ids.push(self.tree.get(collected[i]).id);
            assert(ids_of(self.nodes(), collected@.take(i + 1)) =~= ids_of(self.nodes(), collected@.take(i as int)).push(self.nodes()[collected@[i as int]].id));
        }
        assert(collected@.take(n as int) =~= collected@);
        ids
    }

    /// Appends to `collected` the keys below `key`, depth first.
    pub fn get_branch_keys(&self, key: u64, collected: &mut Vec<u64>)
        requires
            self.wf(),
            self.nodes().contains_key(key),
        ensures
            final(collected)@ == old(collected)@ + branch(self.nodes(), key, self.fuel(key)),
        decreases self.fuel(key),
    {
        let node = self.tree.get(key);
        let children = &node.child_keys;
        let n = children.len();
        let ghost fuel = self.fuel(key);
        assert(fuel >= 1);
        assert(children@ == self.nodes()[key].child_keys@);
        for i in 0..n
            invariant
                self.wf(),
                self.nodes().contains_key(key),
                fuel == self.fuel(key),
                fuel >= 1,
                n == children@.len(),
                children@ == self.nodes()[key].child_keys@,
                collected@ == old(collected)@ + children_branch(self.nodes(), children@.take(i as int), (fuel - 1) as nat),
        {
            let child = children[i];
            assert(self.nodes().contains_key(child));
            assert(self.fuel(child) == fuel - 1);
            collected.push(child);
            self.get_branch_keys(child, collected);
            assert(children@.take(i + 1).drop_last() =~= children@.take(i as int));
            assert(children@.take(i + 1).last() == child);
        }
        assert(children@.take(n as int) =~= children@);
    }

    /// The number of nodes.
    pub fn len(&self) -> (n: usize)
        ensures
            n == self.nodes().len(),
    {
        self.tree.len()
    }

    /// Adds a node for `child_id` below the first node that names
    /// `parent_id`, unless some node names `child_id` already.
    pub fn push_child(&mut self, parent_id: u64, child_id: u64)
        requires
            old(self).wf(),
            has_id(old(self).nodes(), child_id) || has_id(old(self).nodes(), parent_id),
            old(self).nodes().len() < SLOT_CAPACITY,
        ensures
            final(self).wf(),
            final(self).root() == old(self).root(),
            child_pushed(*old(self), *final(self), parent_id, child_id),
    {
        if self.find_key_of(child_id).is_some() {
            return;
        }
        let ghost old_nodes = self.nodes();
        let found = self.find_key_of(parent_id);
        let parent_key = found.unwrap();
        let child_key = self.tree.insert_leaf(child_id);
        let parent = self.tree.get(parent_key);
        let mut children = parent.child_keys.clone();
        assert(children@ =~= old_nodes[parent_key].child_keys@);
        children.push(child_key);
        let new_parent = IdTreeNode { key: parent.key, child_keys: children, id: parent.id };
        self.tree.replace(parent_key, new_parent);
        self.depth = Ghost(self.depth@.insert(child_key, self.depth@[parent_key] + 1));
        proof {
            assert(parent_key != child_key);
            assert(self.nodes().len() == old_nodes.len() + 1);
            assert forall|k: u64| #[trigger] self.nodes().contains_key(k) implies {
                &&& self.nodes()[k].key == k
                &&& self.depth@.contains_key(k)
                &&& self.depth@[k] < self.nodes().len()
                &&& forall|i: int| 0 <= i < self.nodes()[k].child_keys@.len() ==> {
                    &&& #[trigger] self.nodes().contains_key(self.nodes()[k].child_keys@[i])
                    &&& self.depth@[self.nodes()[k].child_keys@[i]] == self.depth@[k] + 1
                }
            } by {
                if k != child_key {
                    assert(old_nodes.contains_key(k));
                    assert forall|i: int| 0 <= i < self.nodes()[k].child_keys@.len() implies {
                        &&& #[trigger] self.nodes().contains_key(self.nodes()[k].child_keys@[i])
                        &&& self.depth@[self.nodes()[k].child_keys@[i]] == self.depth@[k] + 1
                    } by {
                        if k == parent_key && i == self.nodes()[k].child_keys@.len() - 1 {
                        } else {
                            assert(old_nodes.contains_key(old_nodes[k].child_keys@[i]));
                            assert(self.nodes()[k].child_keys@[i] == old_nodes[k].child_keys@[i]);
                        }
                    }
                }
            }
            assert(self.nodes().dom() =~= old_nodes.dom().insert(child_key));
        }
    }

    /// Adds a root node for `id`.
    pub fn root_with(&mut self, id: u64)
        requires
            old(self).wf(),
            old(self).nodes().len() < SLOT_CAPACITY,
        ensures
            final(self).wf(),
            final(self).root() matches Some(r) && {
                &&& !old(self).nodes().contains_key(r)
                &&& final(self).nodes() == old(self).nodes().insert(r, final(self).nodes()[r])
                &&& final(self).nodes()[r].key == r
                &&& final(self).nodes()[r].id == id
                &&& final(self).nodes()[r].child_keys@ == Seq::<u64>::empty()
                &&& final(self).order() == old(self).order().push(r)
            },
    {
        let key = self.tree.insert_leaf(id);
        self.root_key = Some(key);
        self.depth = Ghost(self.depth@.insert(key, 0));
        proof {
            assert forall|k: u64| #[trigger] self.nodes().contains_key(k) implies {
                &&& self.nodes()[k].key == k
                &&& self.depth@.contains_key(k)
                &&& self.depth@[k] < self.nodes().len()
                &&& forall|i: int| 0 <= i < self.nodes()[k].child_keys@.len() ==> {
                    &&& #[trigger] self.nodes().contains_key(self.nodes()[k].child_keys@[i])
                    &&& self.depth@[self.nodes()[k].child_keys@[i]] == self.depth@[k] + 1
                }
            } by {
                if k != key {
                    assert(old(self).nodes().contains_key(k));
                    assert forall|i: int| 0 <= i < self.nodes()[k].child_keys@.len() implies
                        self.nodes()[k].child_keys@[i] != key by {
                        assert(old(self).nodes().contains_key(old(self).nodes()[k].child_keys@[i]));
                    }
                }
            }
        }
    }
}

/// A well-formed tree of one node, a root that names `root`.
pub open spec fn is_fresh_tree(t: IdTree, root: u64) -> bool {
    &&& t.wf()
    &&& t.nodes().len() == 1
    &&& t.root() matches Some(r) && {
        &&& t.nodes().contains_key(r)
        &&& t.nodes()[r].key == r
        &&& t.nodes()[r].id == root
        &&& t.nodes()[r].child_keys@ == Seq::<u64>::empty()
        &&& t.order() == seq![r]
    }
}

/// `push_child` may be called on `t` with these arguments.
pub open spec fn can_push_child(t: IdTree, parent_id: u64, child_id: u64) -> bool {
    &&& t.wf()
    &&& has_id(t.nodes(), child_id) || has_id(t.nodes(), parent_id)
    &&& t.nodes().len() < SLOT_CAPACITY
}

/// The tree kept for the context of `call`; the first time, a tree whose
/// root names that context.
pub fn create_id_tree_for_call(store: &mut Store, trees: &mut StateMap<IdTree>, call: CallId) -> (access: StateAccess<IdTree>)
    requires
        old(store).wf(),
        has_room(&*old(store), 1) || call_registered(&*old(store), call),
    ensures
        final(store).handles()[access.id as int] == ScopeKey::Call(call),
        access.id == handle_given(&*old(store), call),
        old(store).handles().contains(ScopeKey::Call(call)) ==> final(store).handles() == old(store).handles(),
        !old(store).handles().contains(ScopeKey::Call(call)) ==> final(store).handles() == old(store).handles().push(ScopeKey::Call(call)),
        final(store).wf(),
        access.id < final(store).handles().len(),
        handles_grow_by_at_most(&*old(store), &*final(store), 1),
        grown_by_at_most(&*old(store), &*final(store), 1),
        fits(&*old(store), &*old(trees)) ==> fits(&*final(store), &*final(trees)),
        !old(store).key_map().contains_key(access.id) ==> final(store).key_map()[access.id] == old(store).next_key(),
        final(store).unseen() == old(store).unseen().remove(access.id),
        final(store).key_map().remove(access.id) == old(store).key_map().remove(access.id),
        forall|other: u64| other != access.id ==> state_of(&*final(store), &*final(trees), other) == state_of(&*old(store), &*old(trees), other),
        state_of(&*final(store), &*final(trees), access.id) is Some,
        state_of(&*old(store), &*old(trees), access.id) is Some ==> *final(trees) == *old(trees),
        state_of(&*old(store), &*old(trees), access.id) is None ==> is_fresh_tree(
            state_of(&*final(store), &*final(trees), access.id).unwrap(),
            access.id,
        ),
{
    let ghost s0 = *store;
    let root = store.handle_of(call);
    proof {
        if s0.handles().contains(ScopeKey::Call(call)) {
            crate::laws::law_handle_names_one_call(&*store, root, handle_for(&s0, call));
        } else {
            crate::laws::law_handle_names_one_call(&*store, root, s0.handles().len() as u64);
        }
    }
    let access = use_state_for_call(
        store,
        trees,
        call,
        || -> (t: IdTree)
            ensures
                is_fresh_tree(t, root)
            {
                let mut t = IdTree::new();
                t.root_with(root);
                t
            },
    );
    proof {
        crate::laws::law_handle_names_one_call(&*store, root, access.id);
        assert(s0.handles().push(ScopeKey::Call(call)).subrange(0, s0.handles().len() as int) =~= s0.handles());
        assert(s0.handles().subrange(0, s0.handles().len() as int) =~= s0.handles());
    }
    access
}

/// The tree kept for the current call scope; the first time, a tree whose
/// root names that scope.
pub fn create_id_tree(store: &mut Store, trees: &mut StateMap<IdTree>) -> (access: StateAccess<IdTree>)
    requires
        old(store).wf(),
        has_room(&*old(store), 1),
    ensures
        final(store).wf(),
        final(store).handles()[access.id as int] is Call,
        access.id < final(store).handles().len(),
        handles_grow_by_at_most(&*old(store), &*final(store), 1),
        grown_by_at_most(&*old(store), &*final(store), 1),
        fits(&*old(store), &*old(trees)) ==> fits(&*final(store), &*final(trees)),
        !old(store).key_map().contains_key(access.id) ==> final(store).key_map()[access.id] == old(store).next_key(),
        final(store).unseen() == old(store).unseen().remove(access.id),
        final(store).key_map().remove(access.id) == old(store).key_map().remove(access.id),
        forall|other: u64| other != access.id ==> state_of(&*final(store), &*final(trees), other) == state_of(&*old(store), &*old(trees), other),
        state_of(&*final(store), &*final(trees), access.id) is Some,
        state_of(&*old(store), &*old(trees), access.id) is Some ==> *final(trees) == *old(trees),
        state_of(&*old(store), &*old(trees), access.id) is None ==> is_fresh_tree(
            state_of(&*final(store), &*final(trees), access.id).unwrap(),
            access.id,
        ),
{
    let call = current_call_id();
    create_id_tree_for_call(store, trees, call)
}

impl StateAccess<IdTree> {
    /// Adds the context `child_id` below the context `parent_id` in the
    /// tree this accessor reaches.
    pub fn add_id(self, store: &mut Store, trees: &mut StateMap<IdTree>, parent_id: u64, child_id: u64)
        requires
            old(store).wf(),
            state_of(&*old(store), &*old(trees), self.id) is Some,
            can_push_child(state_of(&*old(store), &*old(trees), self.id).unwrap(), parent_id, child_id),
        ensures
            final(store).wf(),
            final(store).handles() == old(store).handles(),
            final(store).key_map() == old(store).key_map(),
            final(store).next_key() == old(store).next_key(),
            final(store).slot_map() == old(store).slot_map(),
            final(store).unseen() == old(store).unseen().remove(self.id),
            fits(&*old(store), &*old(trees)) ==> fits(&*final(store), &*final(trees)),
            forall|other: u64| other != self.id ==> state_of(&*final(store), &*final(trees), other) == state_of(&*old(store), &*old(trees), other),
            state_of(&*final(store), &*final(trees), self.id) is Some,
            state_of(&*final(store), &*final(trees), self.id).unwrap().wf(),
            child_pushed(
                state_of(&*old(store), &*old(trees), self.id).unwrap(),
                state_of(&*final(store), &*final(trees), self.id).unwrap(),
                parent_id,
                child_id,
            ),
    {
        self.update(
            store,
            trees,
            |t: IdTree| -> (r: IdTree)
                requires
                    can_push_child(t, parent_id, child_id),
                ensures
                    r.wf(),
                    child_pushed(t, r, parent_id, child_id)
                {
                    let mut t = t;
                    t.push_child(parent_id, child_id);
                    t
                },
        );
    }

    /// Adds the context of `call` below the context `parent_id` in the tree
    /// this accessor reaches.
    pub fn add_call(self, store: &mut Store, trees: &mut StateMap<IdTree>, parent_id: u64, call: CallId)
        requires
            old(store).wf(),
            state_of(&*old(store), &*old(trees), self.id) is Some,
            can_push_child(state_of(&*old(store), &*old(trees), self.id).unwrap(), parent_id, handle_given(&*old(store), call)),
        ensures
            final(store).wf(),
            old(store).handles().contains(ScopeKey::Call(call)) ==> final(store).handles() == old(store).handles(),
            !old(store).handles().contains(ScopeKey::Call(call)) ==> final(store).handles() == old(store).handles().push(ScopeKey::Call(call)),
            final(store).key_map() == old(store).key_map(),
            final(store).next_key() == old(store).next_key(),
            final(store).slot_map() == old(store).slot_map(),
            final(store).unseen() == old(store).unseen().remove(self.id),
            fits(&*old(store), &*old(trees)) ==> fits(&*final(store), &*final(trees)),
            forall|other: u64| other != self.id ==> state_of(&*final(store), &*final(trees), other) == state_of(&*old(store), &*old(trees), other),
            state_of(&*final(store), &*final(trees), self.id) is Some,
            state_of(&*final(store), &*final(trees), self.id).unwrap().wf(),
            child_pushed(
                state_of(&*old(store), &*old(trees), self.id).unwrap(),
                state_of(&*final(store), &*final(trees), self.id).unwrap(),
                parent_id,
                handle_given(&*old(store), call),
            ),
    {
        let ghost s0 = *store;
        let child_id = store.handle_of(call);
        proof {
            if s0.handles().contains(ScopeKey::Call(call)) {
                let hh = handle_for(&s0, call);
                crate::laws::law_handle_names_one_call(&*store, child_id, hh);
            } else {
                assert(store.handles()[s0.handles().len() as int] == ScopeKey::Call(call));
                crate::laws::law_handle_names_one_call(&*store, child_id, s0.handles().len() as u64);
            }
            assert(child_id == handle_given(&s0, call));
        }
        self.add_id(store, trees, parent_id, child_id);
    }

    /// Adds the current call scope below the context `parent_id` in the tree
    /// this accessor reaches.
    pub fn add_current(self, store: &mut Store, trees: &mut StateMap<IdTree>, parent_id: u64)
        requires
            old(store).wf(),
            state_of(&*old(store), &*old(trees), self.id) is Some,
            state_of(&*old(store), &*old(trees), self.id).unwrap().wf(),
            has_id(state_of(&*old(store), &*old(trees), self.id).unwrap().nodes(), parent_id),
            state_of(&*old(store), &*old(trees), self.id).unwrap().nodes().len() < SLOT_CAPACITY,
        ensures
            final(store).wf(),
            handles_grow_by_at_most(&*old(store), &*final(store), 1),
            final(store).key_map() == old(store).key_map(),
            final(store).next_key() == old(store).next_key(),
            final(store).slot_map() == old(store).slot_map(),
            final(store).unseen() == old(store).unseen().remove(self.id),
            fits(&*old(store), &*old(trees)) ==> fits(&*final(store), &*final(trees)),
            forall|other: u64| other != self.id ==> state_of(&*final(store), &*final(trees), other) == state_of(&*old(store), &*old(trees), other),
            state_of(&*final(store), &*final(trees), self.id) is Some,
            state_of(&*final(store), &*final(trees), self.id).unwrap().wf(),
            exists|call: CallId| child_pushed(
                state_of(&*old(store), &*old(trees), self.id).unwrap(),
                state_of(&*final(store), &*final(trees), self.id).unwrap(),
                parent_id,
                handle_given(&*old(store), call),
            ),
    {
        let ghost s0 = *store;
        let call = current_call_id();
        self.add_call(store, trees, parent_id, call);
        proof {
            assert(s0.handles().push(ScopeKey::Call(call)).subrange(0, s0.handles().len() as int) =~= s0.handles());
            assert(s0.handles().subrange(0, s0.handles().len() as int) =~= s0.handles());
        }
    }
}

} // verus!
