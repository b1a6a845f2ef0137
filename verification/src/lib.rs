//! Component state that persists between renders, keyed by call-tree
//! identifiers, with a mark-and-sweep collection of state that was not
//! touched since the last sweep.

pub mod slots;
pub mod id_tree;
pub mod store;
pub mod topo_ids;
pub mod state_access;
pub mod state_functions;
pub mod laws;
pub mod components;
pub mod changes;
