//! Laws the registry obeys, stated over the mathematical model and proved
//! from the same definitions the executable operations are specified
//! against.

use vstd::prelude::*;
use crate::model::{
    ModuleModel, RemoveOutcome, empty_module, lemma_empty_module_wf, lemma_module_clone_wf,
    lemma_module_insert_wf, lemma_module_remove_wf, lemma_target_live, live_count, module_at,
    module_clone, module_handle_live, module_insert, module_remove, module_target, module_wf,
    refs_at,
};
use crate::registry::{
    reg_wf_model, spec_clone, spec_get, spec_grow, spec_handle_live, spec_insert, spec_remove,
};

verus! {

/// What an insertion does to the registry model, slot by slot: the covered
/// length grows to reach `id`, exactly module `id` changes (by its own
/// insertion step), and every other covered module keeps its prior state —
/// an uncovered one coming into existence empty.
pub proof fn lemma_spec_insert_shape(regv: Seq<ModuleModel>, id: int, res: u32)
    requires
        0 <= id,
    ensures
        ({
            let (r2, h) = spec_insert(regv, id, res);
            &&& r2.len() == (if regv.len() > id {
                regv.len() as int
            } else {
                id + 1
            })
            &&& r2[id] == module_insert(module_at(regv, id), res).0
            &&& h == module_insert(module_at(regv, id), res).1
            &&& forall|i: int| 0 <= i < r2.len() && i != id ==> r2[i] == module_at(regv, i)
        }),
{
    let g = spec_grow(regv, id);
    assert(g[id] == module_at(regv, id));
    assert forall|i: int|
        0 <= i < spec_insert(regv, id, res).0.len() && i != id implies spec_insert(
        regv,
        id,
        res,
    ).0[i] == module_at(regv, i) by {
        assert(spec_insert(regv, id, res).0[i] == g[i]);
    }
}

/// Inserting a value and immediately resolving the returned handle yields
/// that value unchanged, for any module id — including one past the current
/// registry size, which triggers growth.
pub proof fn lemma_insert_then_get(regv: Seq<ModuleModel>, id: int, res: u32)
    requires
        reg_wf_model(regv),
        0 <= id,
        id < regv.len() ==> regv[id].resources.slots.len() < u32::MAX,
    ensures
        ({
            let (r2, h) = spec_insert(regv, id, res);
            &&& reg_wf_model(r2)
            &&& spec_handle_live(r2, id, h)
            &&& spec_get(r2, id, h) == res
        }),
{
    let g = spec_grow(regv, id);
    if id >= regv.len() {
        lemma_empty_module_wf();
        assert(g[id] == empty_module());
    }
    lemma_module_insert_wf(g[id], res);
    let (r2, h) = spec_insert(regv, id, res);
    assert forall|i: int| 0 <= i < r2.len() implies module_wf(#[trigger] r2[i]) by {
        if i != id {
            assert(r2[i] == g[i]);
            if i >= regv.len() {
                lemma_empty_module_wf();
            }
        }
    }
}

/// Cloning a live handle raises its target's live reference count — and the
/// recorded reference count — by exactly one, and yields a handle distinct
/// from every handle live before, the original included; both resolve to
/// the same value.
pub proof fn lemma_clone_adds_one_reference(regv: Seq<ModuleModel>, id: int, h: int)
    requires
        reg_wf_model(regv),
        spec_handle_live(regv, id, h),
        refs_at(regv[id].resources.slots, module_target(regv[id], h)) < u32::MAX,
    ensures
        ({
            let (r2, h2) = spec_clone(regv, id, h);
            let ri = module_target(regv[id], h);
            &&& reg_wf_model(r2)
            &&& h2 != h
            &&& !module_handle_live(regv[id], h2)
            &&& spec_handle_live(r2, id, h2)
            &&& spec_handle_live(r2, id, h)
            &&& live_count(r2[id].handles.slots, ri) == live_count(regv[id].handles.slots, ri)
                + 1
            &&& refs_at(r2[id].resources.slots, ri) == refs_at(regv[id].resources.slots, ri) + 1
            &&& spec_get(r2, id, h) == spec_get(regv, id, h)
            &&& spec_get(r2, id, h2) == spec_get(regv, id, h)
        }),
{
    lemma_module_clone_wf(regv[id], h);
    lemma_target_live(regv[id], h);
    let (r2, h2) = spec_clone(regv, id, h);
    let m2 = module_clone(regv[id], h).0;
    assert(r2[id] == m2);
    assert forall|i: int| 0 <= i < r2.len() implies module_wf(#[trigger] r2[i]) by {
        if i != id {
            assert(r2[i] == regv[i]);
        }
    }
}

/// After a clone, removing either of the two handles — the original or the
/// clone — leaves the other live and still resolving to the same value:
/// the two lifetimes are independent, and the shared target survives with
/// its prior reference count restored.
pub proof fn lemma_clone_then_remove_either(regv: Seq<ModuleModel>, id: int, h: int, victim: int)
    requires
        reg_wf_model(regv),
        spec_handle_live(regv, id, h),
        refs_at(regv[id].resources.slots, module_target(regv[id], h)) < u32::MAX,
        victim == h || victim == spec_clone(regv, id, h).1,
    ensures
        ({
            let (r2, h2) = spec_clone(regv, id, h);
            let survivor = if victim == h {
                h2
            } else {
                h
            };
            let ri = module_target(regv[id], h);
            let (r3, out) = spec_remove(r2, id, victim);
            &&& out is StillReferenced
            &&& reg_wf_model(r3)
            &&& spec_handle_live(r3, id, survivor)
            &&& refs_at(r3[id].resources.slots, ri) == refs_at(regv[id].resources.slots, ri)
            &&& spec_get(r3, id, survivor) == spec_get(regv, id, h)
        }),
{
    lemma_clone_adds_one_reference(regv, id, h);
    lemma_target_live(regv[id], h);
    let (r2, h2) = spec_clone(regv, id, h);
    let ri = module_target(regv[id], h);
    lemma_module_remove_wf(r2[id], victim);
    lemma_target_live(r2[id], victim);
    let (r3, out) = spec_remove(r2, id, victim);
    assert(live_count(r2[id].handles.slots, ri) >= 2);
    assert(r3[id] == module_remove(r2[id], victim).0);
    assert forall|i: int| 0 <= i < r3.len() implies module_wf(#[trigger] r3[i]) by {
        if i != id {
            assert(r3[i] == r2[i]);
        }
    }
}

/// A removal reports `Released` — carrying the stored underlying value —
/// exactly when the removed handle was the last one outstanding for its
/// target; with earlier removals, while other handles remain, it reports
/// `StillReferenced` and the number of outstanding handles drops by one.
pub proof fn lemma_remove_released_iff_last(regv: Seq<ModuleModel>, id: int, h: int)
    requires
        reg_wf_model(regv),
        spec_handle_live(regv, id, h),
    ensures
        ({
            let (r2, out) = spec_remove(regv, id, h);
            let ri = module_target(regv[id], h);
            &&& reg_wf_model(r2)
            &&& (out is Released <==> live_count(regv[id].handles.slots, ri) == 1)
            &&& (out is Released ==> out == RemoveOutcome::Released(
                (regv[id].resources.slots[ri]->0).wasm,
            ))
            &&& (out is StillReferenced ==> live_count(r2[id].handles.slots, ri) == live_count(
                regv[id].handles.slots,
                ri,
            ) - 1)
        }),
{
    lemma_module_remove_wf(regv[id], h);
    lemma_target_live(regv[id], h);
    let (r2, out) = spec_remove(regv, id, h);
    assert(r2[id] == module_remove(regv[id], h).0);
    assert forall|i: int| 0 <= i < r2.len() implies module_wf(#[trigger] r2[i]) by {
        if i != id {
            assert(r2[i] == regv[i]);
        }
    }
}

/// Insertions into two different module ids commute: whichever order the
/// shared lock serializes them in, the resulting registry states are the
/// same and each caller is handed the same handle number, so neither
/// operation disturbs the other module's tables.
pub proof fn lemma_insert_commutes(
    regv: Seq<ModuleModel>,
    id1: int,
    res1: u32,
    id2: int,
    res2: u32,
)
    requires
        0 <= id1,
        0 <= id2,
        id1 != id2,
    ensures
        spec_insert(spec_insert(regv, id1, res1).0, id2, res2).0 == spec_insert(
            spec_insert(regv, id2, res2).0,
            id1,
            res1,
        ).0,
        spec_insert(spec_insert(regv, id2, res2).0, id1, res1).1 == spec_insert(
            regv,
            id1,
            res1,
        ).1,
        spec_insert(spec_insert(regv, id1, res1).0, id2, res2).1 == spec_insert(
            regv,
            id2,
            res2,
        ).1,
{
    let a1 = spec_insert(regv, id1, res1).0;
    let b1 = spec_insert(regv, id2, res2).0;
    let a2 = spec_insert(a1, id2, res2).0;
    let b2 = spec_insert(b1, id1, res1).0;
    lemma_spec_insert_shape(regv, id1, res1);
    lemma_spec_insert_shape(regv, id2, res2);
    lemma_spec_insert_shape(a1, id2, res2);
    lemma_spec_insert_shape(b1, id1, res1);
    assert(module_at(a1, id2) == module_at(regv, id2));
    assert(module_at(b1, id1) == module_at(regv, id1));
    assert forall|i: int| 0 <= i < a2.len() implies a2[i] == b2[i] by {
        if i == id1 {
            assert(a2[i] == module_at(a1, id1));
            assert(a2[i] == module_insert(module_at(regv, id1), res1).0);
        } else if i == id2 {
            assert(b2[i] == module_at(b1, id2));
            assert(b2[i] == module_insert(module_at(regv, id2), res2).0);
        } else {
            assert(a2[i] == module_at(a1, i));
            assert(module_at(a1, i) == module_at(regv, i));
            assert(b2[i] == module_at(b1, i));
            assert(module_at(b1, i) == module_at(regv, i));
        }
    }
    assert(a2 =~= b2);
}

} // verus!
