//! The two per-module tables: a refcounted resource store, and a handle
//! indirection table giving each externally visible handle a lifetime
//! independent of the resource it points at.

use vstd::prelude::*;
use crate::slab::{Slab, SlabModel, slab_insert_model, slab_model_wf, slab_remove_model};

verus! {

/// Copyable locator into a [`ResourceSlab`]; carries no ownership by itself.
#[derive(Debug, Copy, Clone)]
pub struct ResourceIndex(pub u32);

/// A stored resource: the caller-opaque underlying value together with the
/// number of live handles currently pointing at it.
#[derive(Debug, Copy, Clone)]
pub struct Resource {
    pub wasm: u32,
    pub references: u32,
}

/// The reference count recorded in a resource slot, zero for a free slot.
pub open spec fn refs_of(s: Option<Resource>) -> nat {
    match s {
        Some(r) => r.references as nat,
        None => 0,
    }
}

/// Every occupied resource slot keeps a strictly positive reference count;
/// a count of zero coincides with the slot being reclaimed.
pub open spec fn refs_positive(slots: Seq<Option<Resource>>) -> bool {
    forall|i: int| 0 <= i < slots.len() ==> (#[trigger] slots[i] is Some ==> refs_of(slots[i]) >= 1)
}

/// The state and result of releasing one reference at `ri`: the count drops
/// by one, and on reaching zero the slot is reclaimed and the underlying
/// value handed back for finalization.
pub open spec fn resource_drop_model(m: SlabModel<Resource>, ri: int) -> (
    SlabModel<Resource>,
    Option<u32>,
) {
    if 0 <= ri < m.slots.len() && m.slots[ri] is Some {
        let r = m.slots[ri]->0;
        if r.references > 1 {
            (
                SlabModel {
                    slots: m.slots.update(
                        ri,
                        Some(Resource { wasm: r.wasm, references: (r.references - 1) as u32 }),
                    ),
                    frees: m.frees,
                },
                None,
            )
        } else {
            (slab_remove_model(m, ri).0, Some(r.wasm))
        }
    } else {
        (m, None)
    }
}

/// Thin specialization of [`Slab`] over [`ResourceIndex`] values: one entry
/// per externally visible handle.
pub struct IndexSlab {
    slab: Slab<ResourceIndex>,
}

impl View for IndexSlab {
    type V = SlabModel<ResourceIndex>;

    closed spec fn view(&self) -> SlabModel<ResourceIndex> {
        self.slab@
    }
}

impl IndexSlab {
    /// The underlying slab's representation invariant.
    pub closed spec fn wf(&self) -> bool {
        self.slab.wf()
    }

    /// A well-formed handle table has a well-formed model.
    pub proof fn lemma_wf_model(&self)
        requires
            self.wf(),
        ensures
            slab_model_wf(self@),
    {
        self.slab.lemma_wf_model();
    }

    /// Records a new handle entry for `resource` and returns the handle
    /// number it will be known by.
    pub fn insert(&mut self, resource: ResourceIndex) -> (h: u32)
        requires
            old(self).wf(),
            old(self)@.slots.len() < u32::MAX,
        ensures
            final(self).wf(),
            final(self)@ == slab_insert_model(old(self)@, resource).0,
            h as int == slab_insert_model(old(self)@, resource).1,
    {
        self.slab.insert(resource)
    }

    /// How many handle slots the table currently has, free ones included.
    pub fn len(&self) -> (n: usize)
        ensures
            n == self@.slots.len(),
    {
        self.slab.len()
    }

    /// Returns a copy of the locator stored under handle `slab_idx`, or
    /// nothing when that handle is not currently live.
    pub fn get(&self, slab_idx: u32) -> (r: Option<ResourceIndex>)
        ensures
            r == (if (slab_idx as int) < self@.slots.len() {
                self@.slots[slab_idx as int]
            } else {
                None
            }),
    {
        match self.slab.get(slab_idx) {
            Some(r) => Some(*r),
            None => None,
        }
    }

    /// Removes the handle entry `slab_idx`, returning the locator it held;
    /// a dead handle is left untouched and yields nothing.
    pub fn remove(&mut self, slab_idx: u32) -> (r: Option<ResourceIndex>)
        requires
            old(self).wf(),
        ensures
            final(self).wf(),
            final(self)@ == slab_remove_model(old(self)@, slab_idx as int).0,
            r == slab_remove_model(old(self)@, slab_idx as int).1,
    {
        self.slab.remove(slab_idx)
    }
}

impl Default for IndexSlab {
    /// An empty handle table.
    fn default() -> (r: IndexSlab)
        ensures
            r.wf(),
            r@.slots.len() == 0,
            r@.frees.len() == 0,
    {
        IndexSlab { slab: Default::default() }
    }
}

/// Refcounted resource store: specializes [`Slab`] to [`Resource`] records,
/// reclaiming a slot exactly when its reference count reaches zero.
pub struct ResourceSlab {
    slab: Slab<Resource>,
}

impl View for ResourceSlab {
    type V = SlabModel<Resource>;

    closed spec fn view(&self) -> SlabModel<Resource> {
        self.slab@
    }
}

impl ResourceSlab {
    /// The slab invariant, strengthened with positive reference counts.
    pub closed spec fn wf(&self) -> bool {
        &&& self.slab.wf()
        &&& refs_positive(self@.slots)
    }

    /// `idx` currently resolves to a stored resource.
    pub open spec fn valid(&self, idx: ResourceIndex) -> bool {
        &&& (idx.0 as int) < self@.slots.len()
        &&& self@.slots[idx.0 as int] is Some
    }

    /// A well-formed resource table has a well-formed model with positive
    /// reference counts.
    pub proof fn lemma_wf_model(&self)
        requires
            self.wf(),
        ensures
            slab_model_wf(self@),
            refs_positive(self@.slots),
    {
        self.slab.lemma_wf_model();
    }

    /// Stores `wasm` as a fresh resource with reference count one, and
    /// returns its locator.
    pub fn insert(&mut self, wasm: u32) -> (idx: ResourceIndex)
        requires
            old(self).wf(),
            old(self)@.slots.len() < u32::MAX,
        ensures
            final(self).wf(),
            final(self)@ == slab_insert_model(
                old(self)@,
                Resource { wasm, references: 1 },
            ).0,
            idx.0 as int == slab_insert_model(old(self)@, Resource { wasm, references: 1 }).1,
    {
        proof {
            self.slab.lemma_wf_model();
        }
        let idx = ResourceIndex(self.slab.insert(Resource { wasm, references: 1 }));
        proof {
            let pre = old(self)@;
            assert forall|i: int|
                0 <= i < self@.slots.len() && (#[trigger] self@.slots[i]) is Some implies refs_of(
                self@.slots[i],
            ) >= 1 by {
                if i != idx.0 as int {
                    assert(self@.slots[i] == pre.slots[i]);
                }
            }
        }
        idx
    }

    /// How many resource slots the table currently has, free ones included.
    pub fn len(&self) -> (n: usize)
        ensures
            n == self@.slots.len(),
    {
        self.slab.len()
    }

    /// The reference count currently recorded at `idx`.
    pub fn references(&self, idx: ResourceIndex) -> (n: u32)
        requires
            self.valid(idx),
        ensures
            n as nat == refs_of(self@.slots[idx.0 as int]),
    {
        match self.slab.get(idx.0) {
            Some(r) => r.references,
            None => vstd::pervasive::unreached(),
        }
    }

    /// Returns the underlying value stored at `idx`.
    pub fn get(&self, idx: ResourceIndex) -> (r: u32)
        requires
            self.valid(idx),
        ensures
            r == self@.slots[idx.0 as int]->0.wasm,
    {
        match self.slab.get(idx.0) {
            Some(r) => r.wasm,
            None => vstd::pervasive::unreached(),
        }
    }

    /// Increments the reference count at `idx` by one; nothing else changes.
    pub fn clone(&mut self, idx: ResourceIndex)
        requires
            old(self).wf(),
            old(self).valid(idx),
            refs_of(old(self)@.slots[idx.0 as int]) < u32::MAX,
        ensures
            final(self).wf(),
            final(self)@.slots =~= old(self)@.slots.update(
                idx.0 as int,
                Some(
                    Resource {
                        wasm: old(self)@.slots[idx.0 as int]->0.wasm,
                        references: (old(self)@.slots[idx.0 as int]->0.references + 1) as u32,
                    },
                ),
            ),
            final(self)@.frees == old(self)@.frees,
    {
        match self.slab.get_mut(idx.0) {
            Some(resource) => {
                resource.references = resource.references + 1;
            },
            None => {
                proof {
                    assert(false);
                }
            },
        }
    }

    /// Releases one reference at `idx`: reports nothing while other
    /// references remain, and hands back the underlying value once the
    /// count reaches zero and the slot is reclaimed.
    pub fn drop(&mut self, idx: ResourceIndex) -> (r: Option<u32>)
        requires
            old(self).wf(),
            old(self).valid(idx),
        ensures
            final(self).wf(),
            final(self)@ == resource_drop_model(old(self)@, idx.0 as int).0,
            r == resource_drop_model(old(self)@, idx.0 as int).1,
    {
        let remaining: u32;
        match self.slab.get_mut(idx.0) {
            Some(resource) => {
                assert(resource.references > 0);
                resource.references = resource.references - 1;
                remaining = resource.references;
            },
            None => {
                remaining = vstd::pervasive::unreached();
            },
        }
        if remaining != 0 {
            assert(self@.slots =~= resource_drop_model(old(self)@, idx.0 as int).0.slots);
            return None;
        }
        let released = match self.slab.remove(idx.0) {
            Some(resource) => Some(resource.wasm),
            None => vstd::pervasive::unreached(),
        };
        assert(self@.slots =~= resource_drop_model(old(self)@, idx.0 as int).0.slots);
        assert(self@.frees =~= resource_drop_model(old(self)@, idx.0 as int).0.frees);
        released
    }
}

impl Default for ResourceSlab {
    /// An empty resource table.
    fn default() -> (r: ResourceSlab)
        ensures
            r.wf(),
            r@.slots.len() == 0,
            r@.frees.len() == 0,
    {
        ResourceSlab { slab: Default::default() }
    }
}

} // verus!
