//! Process-wide registry of per-module table pairs, and the four boundary
//! operations that multiplex on a module id and encode their results into
//! fixed-width integers.

use vstd::prelude::*;
use crate::model::{
    ModuleModel, RemoveOutcome, empty_module, lemma_empty_module_wf, lemma_module_clone_wf,
    lemma_module_insert_wf, lemma_module_remove_wf, lemma_target_live, module_clone,
    module_get, module_handle_live, module_insert, module_remove, module_target, module_wf,
    refs_at,
};
use crate::tables::{IndexSlab, ResourceSlab};

verus! {

/// One module's private pair of tables: handle indirection entries in front
/// of the refcounted resource store.
pub struct ModuleTables {
    pub indexes: IndexSlab,
    pub resources: ResourceSlab,
}

impl View for ModuleTables {
    type V = ModuleModel;

    open spec fn view(&self) -> ModuleModel {
        ModuleModel { handles: self.indexes@, resources: self.resources@ }
    }
}

impl ModuleTables {
    /// Both tables satisfy their representation invariants and the module
    /// invariant ties their models together.
    pub open spec fn wf(&self) -> bool {
        &&& self.indexes.wf()
        &&& self.resources.wf()
        &&& module_wf(self@)
    }
}

impl Default for ModuleTables {
    /// A pair of empty tables, as created when the registry grows over a
    /// previously unseen module id.
    fn default() -> (r: ModuleTables)
        ensures
            r.wf(),
            r@ == empty_module(),
    {
        let r = ModuleTables { indexes: Default::default(), resources: Default::default() };
        proof {
            lemma_empty_module_wf();
            assert(r@.handles.slots =~= empty_module().handles.slots);
            assert(r@.handles.frees =~= empty_module().handles.frees);
            assert(r@.resources.slots =~= empty_module().resources.slots);
            assert(r@.resources.frees =~= empty_module().resources.frees);
        }
        r
    }
}

/// Every module pair the registry has grown to satisfies the module
/// invariant.
pub open spec fn reg_wf_model(regv: Seq<ModuleModel>) -> bool {
    forall|i: int| 0 <= i < regv.len() ==> module_wf(#[trigger] regv[i])
}

/// Growth to cover `id`: module ids up to and including `id` all exist
/// afterwards, any new ones starting out empty; ids already covered are
/// untouched, and growth to an already covered id is a no-op.
pub open spec fn spec_grow(regv: Seq<ModuleModel>, id: int) -> Seq<ModuleModel> {
    if regv.len() > id {
        regv
    } else {
        regv + Seq::new((id + 1 - regv.len()) as nat, |i: int| empty_module())
    }
}

/// The registry state and handle produced by inserting `res` for module
/// `id`: grow to cover `id`, then insert into that module's pair.
pub open spec fn spec_insert(regv: Seq<ModuleModel>, id: int, res: u32) -> (
    Seq<ModuleModel>,
    int,
) {
    let g = spec_grow(regv, id);
    let (m2, h) = module_insert(g[id], res);
    (g.update(id, m2), h)
}

/// Handle `h` of module `id` currently resolves.
pub open spec fn spec_handle_live(regv: Seq<ModuleModel>, id: int, h: int) -> bool {
    &&& 0 <= id < regv.len()
    &&& module_handle_live(regv[id], h)
}

/// The underlying value live handle `h` of module `id` resolves to.
pub open spec fn spec_get(regv: Seq<ModuleModel>, id: int, h: int) -> u32 {
    module_get(regv[id], h)
}

/// The registry state and new handle produced by cloning handle `h` of
/// module `id`.
pub open spec fn spec_clone(regv: Seq<ModuleModel>, id: int, h: int) -> (Seq<ModuleModel>, int) {
    let (m2, h2) = module_clone(regv[id], h);
    (regv.update(id, m2), h2)
}

/// The registry state and outcome produced by removing handle `h` of
/// module `id`.
pub open spec fn spec_remove(regv: Seq<ModuleModel>, id: int, h: int) -> (
    Seq<ModuleModel>,
    RemoveOutcome,
) {
    let (m2, out) = module_remove(regv[id], h);
    (regv.update(id, m2), out)
}

/// The double-width scalar encoding of a removal outcome demanded by the
/// boundary calling convention: a released value sits in the low half with
/// the high half clear; a still-referenced resource sets the flag bit in
/// the high half.
pub open spec fn spec_encode_remove(out: RemoveOutcome) -> u64 {
    match out {
        RemoveOutcome::Released(w) => w as u64,
        RemoveOutcome::StillReferenced => 0x1_0000_0000u64,
    }
}

/// Growable collection of per-module table pairs; module ids index it
/// directly, and entries, once created, persist.
pub struct Registry {
    pairs: Vec<ModuleTables>,
}

impl View for Registry {
    type V = Seq<ModuleModel>;

    closed spec fn view(&self) -> Seq<ModuleModel> {
        self.pairs@.map_values(|t: ModuleTables| t@)
    }
}

impl Registry {
    /// Every module pair is well-formed.
    pub closed spec fn wf(&self) -> bool {
        forall|i: int| 0 <= i < self.pairs@.len() ==> (#[trigger] self.pairs@[i]).wf()
    }

    /// A well-formed registry has a well-formed model.
    pub proof fn lemma_wf_model(&self)
        requires
            self.wf(),
        ensures
            reg_wf_model(self@),
    {
        assert forall|i: int| 0 <= i < self@.len() implies module_wf(#[trigger] self@[i]) by {
            assert(self@[i] == self.pairs@[i]@);
        }
    }

    /// An empty registry covering no module id yet.
    pub fn new() -> (r: Registry)
        ensures
            r.wf(),
            r@.len() == 0,
    {
        Registry { pairs: Vec::new() }
    }

    /// How many module ids the registry currently covers.
    pub fn module_count(&self) -> (n: usize)
        ensures
            n == self@.len(),
    {
        self.pairs.len()
    }

    /// Appends empty table pairs until module id `id` is covered; already
    /// covered ids are untouched.
    fn grow_to(&mut self, id: u32)
        requires
            old(self).wf(),
            id < u32::MAX,
        ensures
            final(self).wf(),
            final(self)@ == spec_grow(old(self)@, id as int),
    {
        let target: usize = id as usize + 1;
        while self.pairs.len() < target
            invariant
                target == id as usize + 1,
                forall|i: int| 0 <= i < self.pairs@.len() ==> (#[trigger] self.pairs@[i]).wf(),
                old(self)@.len() <= self.pairs@.len(),
                self.pairs@.len() <= (if old(self)@.len() >= target as int {
                    old(self)@.len() as int
                } else {
                    target as int
                }),
                forall|i: int|
                    0 <= i < old(self)@.len() ==> #[trigger] self.pairs@[i]@ == old(self)@[i],
                forall|i: int|
                    old(self)@.len() <= i < self.pairs@.len() ==> #[trigger] self.pairs@[i]@
                        == empty_module(),
            decreases target - self.pairs.len(),
        {
            self.pairs.push(Default::default());
        }
        proof {
            assert(self@ =~= spec_grow(old(self)@, id as int));
        }
    }
}

/// Whether handle `idx` of module `id` currently resolves. Resolution
/// failures are protocol faults on which the boundary operations are not
/// defined, so callers that cannot vouch for a handle test it here first.
pub fn handle_live(reg: &Registry, id: u32, idx: u32) -> (r: bool)
    ensures
        r == spec_handle_live(reg@, id as int, idx as int),
{
    proof {
        assert(reg@.len() == reg.pairs@.len());
    }
    if (id as usize) < reg.pairs.len() {
        proof {
            assert(reg@[id as int] == reg.pairs@[id as int]@);
        }
        match reg.pairs[id as usize].indexes.get(idx) {
            Some(_) => true,
            None => false,
        }
    } else {
        false
    }
}

/// Whether module `id` can accept another insertion without its id or its
/// tables outrunning the fixed-width handle space.
pub fn can_insert(reg: &Registry, id: u32) -> (r: bool)
    ensures
        r == (id < u32::MAX && ((id as int) < reg@.len() ==> reg@[id as int].handles.slots.len()
            < u32::MAX && reg@[id as int].resources.slots.len() < u32::MAX)),
{
    proof {
        assert(reg@.len() == reg.pairs@.len());
    }
    if id >= u32::MAX {
        return false;
    }
    if (id as usize) < reg.pairs.len() {
        proof {
            assert(reg@[id as int] == reg.pairs@[id as int]@);
        }
        let tables = &reg.pairs[id as usize];
        tables.indexes.len() < u32::MAX as usize && tables.resources.len() < u32::MAX as usize
    } else {
        true
    }
}

/// Whether handle `idx` of module `id` can be cloned: it resolves, its
/// target's reference count has room to grow, and the handle table has room
/// for the new entry.
pub fn can_clone(reg: &Registry, id: u32, idx: u32) -> (r: bool)
    requires
        reg.wf(),
    ensures
        r == (spec_handle_live(reg@, id as int, idx as int) && refs_at(
            reg@[id as int].resources.slots,
            module_target(reg@[id as int], idx as int),
        ) < u32::MAX && reg@[id as int].handles.slots.len() < u32::MAX),
{
    if !handle_live(reg, id, idx) {
        return false;
    }
    proof {
        assert(reg@[id as int] == reg.pairs@[id as int]@);
        assert(reg.pairs@[id as int].wf());
        lemma_target_live(reg.pairs@[id as int]@, idx as int);
    }
    let tables = &reg.pairs[id as usize];
    if tables.indexes.len() >= u32::MAX as usize {
        return false;
    }
    let ri = match tables.indexes.get(idx) {
        Some(ri) => ri,
        None => vstd::pervasive::unreached(),
    };
    tables.resources.references(ri) < u32::MAX
}

/// Stores `res` as a new resource of module `id`, growing the registry to
/// cover `id` if needed, and returns the dense handle number the module
/// will use to refer to it.
pub fn resource_insert(reg: &mut Registry, id: u32, res: u32) -> (handle: u32)
    requires
        old(reg).wf(),
        id < u32::MAX,
        (id as int) < old(reg)@.len() ==> old(reg)@[id as int].handles.slots.len() < u32::MAX
            && old(reg)@[id as int].resources.slots.len() < u32::MAX,
    ensures
        final(reg).wf(),
        final(reg)@ == spec_insert(old(reg)@, id as int, res).0,
        handle as int == spec_insert(old(reg)@, id as int, res).1,
{
    reg.grow_to(id);
    let ghost g = spec_grow(old(reg)@, id as int);
    let ghost gm = g[id as int];
    proof {
        assert(reg@ == g);
        assert(g.len() > id as int);
        assert(reg@.len() == reg.pairs@.len());
        assert(reg@[id as int] == reg.pairs@[id as int]@);
        assert(reg.pairs@[id as int].wf());
        lemma_module_insert_wf(gm, res);
    }
    let id_us = id as usize;
    let tables = &mut reg.pairs[id_us];
    let ri = tables.resources.insert(res);
    let handle = tables.indexes.insert(ri);
    proof {
        assert(reg.pairs@[id as int]@ == module_insert(gm, res).0);
        assert(reg@ =~= spec_insert(old(reg)@, id as int, res).0);
    }
    handle
}

/// Resolves handle `idx` of module `id` to its underlying resource value.
pub fn resource_get(reg: &Registry, id: u32, idx: u32) -> (res: u32)
    requires
        reg.wf(),
        spec_handle_live(reg@, id as int, idx as int),
    ensures
        res == spec_get(reg@, id as int, idx as int),
{
    proof {
        assert(reg.pairs@[id as int].wf());
        lemma_target_live(reg.pairs@[id as int]@, idx as int);
    }
    let tables = &reg.pairs[id as usize];
    let ri = match tables.indexes.get(idx) {
        Some(ri) => ri,
        None => vstd::pervasive::unreached(),
    };
    tables.resources.get(ri)
}

/// Clones handle `idx` of module `id`: the underlying resource gains one
/// reference, and a fresh, independently removable handle to it is
/// returned; the original handle stays valid.
pub fn resource_clone(reg: &mut Registry, id: u32, idx: u32) -> (handle: u32)
    requires
        old(reg).wf(),
        spec_handle_live(old(reg)@, id as int, idx as int),
        refs_at(
            old(reg)@[id as int].resources.slots,
            module_target(old(reg)@[id as int], idx as int),
        ) < u32::MAX,
        old(reg)@[id as int].handles.slots.len() < u32::MAX,
    ensures
        final(reg).wf(),
        final(reg)@ == spec_clone(old(reg)@, id as int, idx as int).0,
        handle as int == spec_clone(old(reg)@, id as int, idx as int).1,
{
    let ghost gm = old(reg)@[id as int];
    proof {
        assert(reg.pairs@[id as int]@ == gm);
        assert(reg.pairs@[id as int].wf());
        lemma_target_live(gm, idx as int);
        lemma_module_clone_wf(gm, idx as int);
    }
    let id_us = id as usize;
    let tables = &mut reg.pairs[id_us];
    let ri = match tables.indexes.get(idx) {
        Some(ri) => ri,
        None => vstd::pervasive::unreached(),
    };
    tables.resources.clone(ri);
    let handle = tables.indexes.insert(ri);
    proof {
        assert(reg.pairs@[id as int]@.handles == module_clone(gm, idx as int).0.handles);
        assert(reg.pairs@[id as int]@.resources.slots =~= module_clone(
            gm,
            idx as int,
        ).0.resources.slots);
        assert(reg.pairs@[id as int]@ == module_clone(gm, idx as int).0);
        assert(reg@ =~= spec_clone(old(reg)@, id as int, idx as int).0);
    }
    handle
}

/// Removes handle `idx` of module `id` and releases one reference to its
/// target, reporting whether the resource is now fully released (and must
/// be finalized by the caller) or still referenced by other handles.
pub fn remove_entry(reg: &mut Registry, id: u32, idx: u32) -> (outcome: RemoveOutcome)
    requires
        old(reg).wf(),
        spec_handle_live(old(reg)@, id as int, idx as int),
    ensures
        final(reg).wf(),
        final(reg)@ == spec_remove(old(reg)@, id as int, idx as int).0,
        outcome == spec_remove(old(reg)@, id as int, idx as int).1,
{
    let ghost gm = old(reg)@[id as int];
    proof {
        assert(reg.pairs@[id as int]@ == gm);
        assert(reg.pairs@[id as int].wf());
        lemma_target_live(gm, idx as int);
        lemma_module_remove_wf(gm, idx as int);
    }
    let id_us = id as usize;
    let tables = &mut reg.pairs[id_us];
    let ri = match tables.indexes.remove(idx) {
        Some(ri) => ri,
        None => vstd::pervasive::unreached(),
    };
    let outcome = match tables.resources.drop(ri) {
        Some(wasm) => RemoveOutcome::Released(wasm),
        None => RemoveOutcome::StillReferenced,
    };
    proof {
        assert(reg.pairs@[id as int]@ == module_remove(gm, idx as int).0);
        assert(reg@ =~= spec_remove(old(reg)@, id as int, idx as int).0);
    }
    outcome
}

/// Flattens a removal outcome to the boundary's double-width scalar: the
/// released value in the low half with the high half clear, or the
/// still-referenced flag bit in the high half.
pub fn encode_removal(outcome: RemoveOutcome) -> (r: u64)
    ensures
        r == spec_encode_remove(outcome),
{
    match outcome {
        RemoveOutcome::Released(wasm) => wasm as u64,
        RemoveOutcome::StillReferenced => 0x1_0000_0000u64,
    }
}

/// Removes handle `idx` of module `id`, encoding the outcome as the
/// boundary's double-width scalar return.
pub fn resource_remove(reg: &mut Registry, id: u32, idx: u32) -> (r: u64)
    requires
        old(reg).wf(),
        spec_handle_live(old(reg)@, id as int, idx as int),
    ensures
        final(reg).wf(),
        final(reg)@ == spec_remove(old(reg)@, id as int, idx as int).0,
        r == spec_encode_remove(spec_remove(old(reg)@, id as int, idx as int).1),
{
    let outcome = remove_entry(reg, id, idx);
    encode_removal(outcome)
}

} // verus!
