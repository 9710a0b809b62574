//! Host-side bookkeeping for opaque resource values exchanged across a
//! narrow binary interface: per-module tables map small integer handles to
//! refcounted host resources, multiplexed behind a growable registry.

pub mod laws;
pub mod model;
pub mod registry;
pub mod slab;
pub mod tables;

pub use slab::Slab;
pub use tables::{IndexSlab, Resource, ResourceIndex, ResourceSlab};
pub use model::RemoveOutcome;
pub use registry::{
    Registry, can_clone, can_insert, encode_removal, handle_live, remove_entry, resource_clone,
    resource_get, resource_insert, resource_remove,
};
