//! Mathematical model of one module's pair of tables, and the counting
//! argument tying a resource's reference count to the number of live handle
//! entries that point at it.

use vstd::prelude::*;
use crate::slab::{
    SlabModel, slab_free_head, slab_insert_model, slab_model_wf, slab_remove_model,
    lemma_slab_insert_model_wf, lemma_slab_remove_model_wf,
};
use crate::tables::{Resource, ResourceIndex, refs_of, refs_positive, resource_drop_model};

verus! {

/// Mathematical state of one module: its handle indirection table and its
/// resource table.
#[verifier::ext_equal]
pub ghost struct ModuleModel {
    pub handles: SlabModel<ResourceIndex>,
    pub resources: SlabModel<Resource>,
}

/// Whether one handle entry points at resource slot `r`, as a count of zero
/// or one.
pub open spec fn points_at(e: Option<ResourceIndex>, r: int) -> nat {
    if e matches Some(x) && x.0 as int == r {
        1nat
    } else {
        0nat
    }
}

/// How many live handle entries point at resource slot `r`.
pub open spec fn live_count(hs: Seq<Option<ResourceIndex>>, r: int) -> nat
    decreases hs.len(),
{
    if hs.len() == 0 {
        0nat
    } else {
        live_count(hs.drop_last(), r) + points_at(hs.last(), r)
    }
}

/// The reference count recorded at resource slot `r`, zero when `r` is out
/// of range or free.
pub open spec fn refs_at(slots: Seq<Option<Resource>>, r: int) -> nat {
    if 0 <= r < slots.len() {
        refs_of(slots[r])
    } else {
        0nat
    }
}

/// A module's invariant: both tables are well-formed allocator states, every
/// stored resource keeps a positive count, and each resource's reference
/// count equals the number of live handle entries pointing at its slot.
pub open spec fn module_wf(m: ModuleModel) -> bool {
    &&& slab_model_wf(m.handles)
    &&& slab_model_wf(m.resources)
    &&& refs_positive(m.resources.slots)
    &&& forall|r: int| #[trigger] live_count(m.handles.slots, r) == refs_at(m.resources.slots, r)
}

/// The state of a module that has never been touched: both tables empty.
pub open spec fn empty_module() -> ModuleModel {
    ModuleModel {
        handles: SlabModel { slots: Seq::empty(), frees: Seq::empty() },
        resources: SlabModel { slots: Seq::empty(), frees: Seq::empty() },
    }
}

/// The state of module `id` within a registry model: its entry when
/// covered, the untouched empty state otherwise.
pub open spec fn module_at(regv: Seq<ModuleModel>, id: int) -> ModuleModel {
    if 0 <= id < regv.len() {
        regv[id]
    } else {
        empty_module()
    }
}

/// Handle `h` currently resolves within module state `m`.
pub open spec fn module_handle_live(m: ModuleModel, h: int) -> bool {
    &&& 0 <= h < m.handles.slots.len()
    &&& m.handles.slots[h] is Some
}

/// The resource slot that live handle `h` points at.
pub open spec fn module_target(m: ModuleModel, h: int) -> int {
    (m.handles.slots[h]->0).0 as int
}

/// The underlying value a live handle resolves to.
pub open spec fn module_get(m: ModuleModel, h: int) -> u32 {
    (m.resources.slots[module_target(m, h)]->0).wasm
}

/// Inserting `res`: the resource table gains a record with count one, and a
/// fresh handle entry pointing at it is created and returned.
pub open spec fn module_insert(m: ModuleModel, res: u32) -> (ModuleModel, int) {
    let ri = slab_insert_model(m.resources, Resource { wasm: res, references: 1 }).1;
    let rm = slab_insert_model(m.resources, Resource { wasm: res, references: 1 }).0;
    let hm = slab_insert_model(m.handles, ResourceIndex(ri as u32)).0;
    let h = slab_insert_model(m.handles, ResourceIndex(ri as u32)).1;
    (ModuleModel { handles: hm, resources: rm }, h)
}

/// Cloning live handle `h`: the target's reference count rises by one and a
/// new handle entry for the same target is created and returned.
pub open spec fn module_clone(m: ModuleModel, h: int) -> (ModuleModel, int) {
    let ri = module_target(m, h);
    let res = m.resources.slots[ri]->0;
    let rm = SlabModel {
        slots: m.resources.slots.update(
            ri,
            Some(Resource { wasm: res.wasm, references: (res.references + 1) as u32 }),
        ),
        frees: m.resources.frees,
    };
    let hm = slab_insert_model(m.handles, ResourceIndex(ri as u32)).0;
    let h2 = slab_insert_model(m.handles, ResourceIndex(ri as u32)).1;
    (ModuleModel { handles: hm, resources: rm }, h2)
}

/// Outcome of removing a handle: either the resource outlived it, or it was
/// the last reference and the underlying value must now be finalized.
#[derive(Debug, Clone, Copy, PartialEq, Eq, Structural)]
pub enum RemoveOutcome {
    /// The last reference is gone; the carried value awaits finalization.
    Released(u32),
    /// Other handles still reference the resource; nothing to finalize.
    StillReferenced,
}

/// Removing live handle `h`: the handle entry dies, and one reference at
/// its target is released, reclaiming the resource slot if it was the last.
pub open spec fn module_remove(m: ModuleModel, h: int) -> (ModuleModel, RemoveOutcome) {
    let ri = module_target(m, h);
    let hm = slab_remove_model(m.handles, h).0;
    let rm = resource_drop_model(m.resources, ri).0;
    let out = match resource_drop_model(m.resources, ri).1 {
        Some(w) => RemoveOutcome::Released(w),
        None => RemoveOutcome::StillReferenced,
    };
    (ModuleModel { handles: hm, resources: rm }, out)
}

/// Appending one handle entry raises by one the live count of the slot it
/// points at, and no other.
pub proof fn lemma_live_count_push(hs: Seq<Option<ResourceIndex>>, x: Option<ResourceIndex>, r: int)
    ensures
        live_count(hs.push(x), r) == live_count(hs, r) + points_at(x, r),
{
    assert(hs.push(x).drop_last() =~= hs);
    assert(hs.push(x).last() == x);
}

/// Overwriting one handle entry exchanges its old contribution to a slot's
/// live count for the new entry's contribution.
pub proof fn lemma_live_count_update(
    hs: Seq<Option<ResourceIndex>>,
    k: int,
    x: Option<ResourceIndex>,
    r: int,
)
    requires
        0 <= k < hs.len(),
    ensures
        live_count(hs.update(k, x), r) + points_at(hs[k], r) == live_count(hs, r) + points_at(
            x,
            r,
        ),
    decreases hs.len(),
{
    let hs2 = hs.update(k, x);
    if k == hs.len() - 1 {
        assert(hs2.drop_last() =~= hs.drop_last());
        assert(hs2.last() == x);
    } else {
        assert(hs2.drop_last() =~= hs.drop_last().update(k, x));
        assert(hs2.last() == hs.last());
        lemma_live_count_update(hs.drop_last(), k, x, r);
    }
}

/// A slot some live handle points at has a live count of at least one.
pub proof fn lemma_live_count_at_least_one(hs: Seq<Option<ResourceIndex>>, h: int, r: int)
    requires
        0 <= h < hs.len(),
        hs[h] is Some,
        (hs[h]->0).0 as int == r,
    ensures
        live_count(hs, r) >= 1,
    decreases hs.len(),
{
    if h == hs.len() - 1 {
        assert(points_at(hs.last(), r) == 1);
    } else {
        assert(hs.drop_last()[h] == hs[h]);
        lemma_live_count_at_least_one(hs.drop_last(), h, r);
    }
}

/// A live handle's target is a stored resource: its slot is in range,
/// occupied, and positively referenced.
pub proof fn lemma_target_live(m: ModuleModel, h: int)
    requires
        module_wf(m),
        module_handle_live(m, h),
    ensures
        0 <= module_target(m, h) < m.resources.slots.len(),
        m.resources.slots[module_target(m, h)] is Some,
        refs_at(m.resources.slots, module_target(m, h)) >= 1,
        live_count(m.handles.slots, module_target(m, h)) >= 1,
{
    let ri = module_target(m, h);
    lemma_live_count_at_least_one(m.handles.slots, h, ri);
    assert(refs_at(m.resources.slots, ri) >= 1);
}

/// The untouched module state is well-formed.
pub proof fn lemma_empty_module_wf()
    ensures
        module_wf(empty_module()),
{
    let m = empty_module();
    assert forall|r: int| #[trigger] live_count(m.handles.slots, r) == refs_at(
        m.resources.slots,
        r,
    ) by {
        assert(live_count(m.handles.slots, r) == 0);
    }
}

/// Insertion preserves the module invariant; the handle it returns is
/// fresh, resolves to a resource holding the inserted value with a single
/// reference, and every other module entry is untouched.
pub proof fn lemma_module_insert_wf(m: ModuleModel, res: u32)
    requires
        module_wf(m),
        m.resources.slots.len() < u32::MAX,
    ensures
        ({
            let (m2, h) = module_insert(m, res);
            &&& module_wf(m2)
            &&& !module_handle_live(m, h)
            &&& module_handle_live(m2, h)
            &&& module_target(m2, h) == slab_free_head(m.resources)
            &&& module_get(m2, h) == res
            &&& refs_at(m2.resources.slots, module_target(m2, h)) == 1
            &&& forall|h2: int|
                module_handle_live(m, h2) ==> #[trigger] module_handle_live(m2, h2)
                    && module_target(m2, h2) == module_target(m, h2)
        }),
{
    let r1 = Resource { wasm: res, references: 1 };
    let ri = slab_insert_model(m.resources, r1).1;
    let rm = slab_insert_model(m.resources, r1).0;
    let (m2, h) = module_insert(m, res);
    lemma_slab_insert_model_wf(m.resources, r1);
    lemma_slab_insert_model_wf(m.handles, ResourceIndex(ri as u32));
    crate::slab::lemma_slab_insert_fresh_slot(m.resources, r1);
    crate::slab::lemma_slab_insert_fresh_slot(m.handles, ResourceIndex(ri as u32));
    assert(refs_at(m.resources.slots, ri) == 0);
    assert(live_count(m.handles.slots, ri) == 0);
    assert forall|r: int| #[trigger] live_count(m2.handles.slots, r) == refs_at(
        m2.resources.slots,
        r,
    ) by {
        if m.handles.frees.len() == 0 {
            lemma_live_count_push(m.handles.slots, Some(ResourceIndex(ri as u32)), r);
        } else {
            lemma_live_count_update(
                m.handles.slots,
                m.handles.frees[0],
                Some(ResourceIndex(ri as u32)),
                r,
            );
            assert(points_at(m.handles.slots[m.handles.frees[0]], r) == 0);
        }
        if r != ri {
            assert(refs_at(m2.resources.slots, r) == refs_at(m.resources.slots, r));
        }
    }
    assert forall|i: int|
        0 <= i < m2.resources.slots.len() && (#[trigger] m2.resources.slots[i]) is Some implies
        refs_of(m2.resources.slots[i]) >= 1 by {
        if i != ri {
            assert(m2.resources.slots[i] == m.resources.slots[i]);
        }
    }
}

/// Cloning preserves the module invariant: the new handle is distinct from
/// every live handle (the original included), both resolve to the same
/// target, the target's count rises by exactly one, and every other entry
/// of either table is untouched.
pub proof fn lemma_module_clone_wf(m: ModuleModel, h: int)
    requires
        module_wf(m),
        module_handle_live(m, h),
        refs_at(m.resources.slots, module_target(m, h)) < u32::MAX,
    ensures
        ({
            let (m2, h2) = module_clone(m, h);
            let ri = module_target(m, h);
            &&& module_wf(m2)
            &&& !module_handle_live(m, h2)
            &&& h2 != h
            &&& module_handle_live(m2, h2)
            &&& module_handle_live(m2, h)
            &&& module_target(m2, h2) == ri
            &&& module_target(m2, h) == ri
            &&& refs_at(m2.resources.slots, ri) == refs_at(m.resources.slots, ri) + 1
            &&& module_get(m2, h) == module_get(m, h)
            &&& module_get(m2, h2) == module_get(m, h)
            &&& forall|h3: int|
                module_handle_live(m, h3) ==> #[trigger] module_handle_live(m2, h3)
                    && module_target(m2, h3) == module_target(m, h3)
        }),
{
    let (m2, h2) = module_clone(m, h);
    let ri = module_target(m, h);
    lemma_target_live(m, h);
    lemma_slab_insert_model_wf(m.handles, ResourceIndex(ri as u32));
    crate::slab::lemma_slab_insert_fresh_slot(m.handles, ResourceIndex(ri as u32));
    assert forall|k: int| 0 <= k < m2.resources.frees.len() implies m2.resources.slots[
        #[trigger] m2.resources.frees[k]
    ] is None by {
        assert(m.resources.slots[m.resources.frees[k]] is None);
        assert(m.resources.frees[k] != ri);
    }
    assert forall|r: int| #[trigger] live_count(m2.handles.slots, r) == refs_at(
        m2.resources.slots,
        r,
    ) by {
        if m.handles.frees.len() == 0 {
            lemma_live_count_push(m.handles.slots, Some(ResourceIndex(ri as u32)), r);
        } else {
            lemma_live_count_update(
                m.handles.slots,
                m.handles.frees[0],
                Some(ResourceIndex(ri as u32)),
                r,
            );
            assert(points_at(m.handles.slots[m.handles.frees[0]], r) == 0);
        }
        if r != ri {
            assert(refs_at(m2.resources.slots, r) == refs_at(m.resources.slots, r));
        }
    }
    assert forall|i: int|
        0 <= i < m2.resources.slots.len() && (#[trigger] m2.resources.slots[i]) is Some implies
        refs_of(m2.resources.slots[i]) >= 1 by {
        if i != ri {
            assert(m2.resources.slots[i] == m.resources.slots[i]);
        }
    }
}

/// Removal preserves the module invariant. The outcome is `Released`,
/// carrying the stored underlying value, exactly when the removed handle
/// was the last one pointing at its target; otherwise it is
/// `StillReferenced` and the target's count drops by one. Every other live
/// handle survives with its target unchanged.
pub proof fn lemma_module_remove_wf(m: ModuleModel, h: int)
    requires
        module_wf(m),
        module_handle_live(m, h),
    ensures
        ({
            let (m2, out) = module_remove(m, h);
            let ri = module_target(m, h);
            &&& module_wf(m2)
            &&& !module_handle_live(m2, h)
            &&& out == (if live_count(m.handles.slots, ri) == 1 {
                RemoveOutcome::Released((m.resources.slots[ri]->0).wasm)
            } else {
                RemoveOutcome::StillReferenced
            })
            &&& (out is StillReferenced ==> refs_at(m2.resources.slots, ri) == refs_at(
                m.resources.slots,
                ri,
            ) - 1 && m2.resources.slots[ri] is Some && (m2.resources.slots[ri]->0).wasm == (
            m.resources.slots[ri]->0).wasm)
            &&& (out is Released ==> refs_at(m2.resources.slots, ri) == 0)
            &&& forall|h3: int|
                h3 != h && module_handle_live(m, h3) ==> #[trigger] module_handle_live(m2, h3)
                    && module_target(m2, h3) == module_target(m, h3)
        }),
{
    let (m2, out) = module_remove(m, h);
    let ri = module_target(m, h);
    lemma_target_live(m, h);
    lemma_slab_remove_model_wf(m.handles, h);
    lemma_slab_remove_model_wf(m.resources, ri);
    let refs = (m.resources.slots[ri]->0).references;
    assert(refs >= 1);
    lemma_live_count_update(m.handles.slots, h, None, ri);
    assert forall|r: int| #[trigger] live_count(m2.handles.slots, r) == refs_at(
        m2.resources.slots,
        r,
    ) by {
        lemma_live_count_update(m.handles.slots, h, None, r);
        if r != ri {
            assert(points_at(m.handles.slots[h], r) == 0);
            assert(refs_at(m2.resources.slots, r) == refs_at(m.resources.slots, r));
        }
    }
    if refs > 1 {
        assert forall|i: int|
            0 <= i < m2.resources.slots.len() && (#[trigger] m2.resources.slots[i]) is Some
            implies refs_of(m2.resources.slots[i]) >= 1 by {
            if i != ri {
                assert(m2.resources.slots[i] == m.resources.slots[i]);
            }
        }
        assert forall|k: int| 0 <= k < m2.resources.frees.len() implies m2.resources.slots[
            #[trigger] m2.resources.frees[k]
        ] is None by {
            assert(m.resources.slots[m.resources.frees[k]] is None);
            assert(m.resources.frees[k] != ri);
        }
    } else {
        assert forall|i: int|
            0 <= i < m2.resources.slots.len() && (#[trigger] m2.resources.slots[i]) is Some
            implies refs_of(m2.resources.slots[i]) >= 1 by {
            if i != ri {
                assert(m2.resources.slots[i] == m.resources.slots[i]);
            }
        }
    }
}

} // verus!
