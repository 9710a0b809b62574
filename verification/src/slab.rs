//! Free-list slot allocator: a growable store that hands out dense, reusable
//! small integer indices in O(1), threading reclaimed slots through an
//! intrusive free list.

use vstd::prelude::*;

verus! {

/// One storage cell of a [`Slab`]: either occupied, or free and holding the
/// index of the next free slot (one past the end when none follows).
enum Entry<T> {
    Full(T),
    Empty { next: usize },
}

/// Mathematical state of a [`Slab`]: the contents of every slot, and the
/// order in which free slots will be handed out again.
#[verifier::ext_equal]
pub ghost struct SlabModel<T> {
    /// Slot `i` holds `Some(v)` when occupied by `v`, `None` when free.
    pub slots: Seq<Option<T>>,
    /// Indices of the free slots, in the order the allocator will reuse them.
    pub frees: Seq<int>,
}

/// What every reachable slab state satisfies at the model level: free-list
/// entries are in range, point at free slots, and are pairwise distinct.
pub open spec fn slab_model_wf<T>(m: SlabModel<T>) -> bool {
    &&& forall|i: int| 0 <= i < m.frees.len() ==> 0 <= #[trigger] m.frees[i] < m.slots.len()
    &&& forall|i: int| 0 <= i < m.frees.len() ==> m.slots[#[trigger] m.frees[i]] is None
    &&& forall|i: int, j: int| 0 <= i < j < m.frees.len() ==> m.frees[i] != m.frees[j]
}

/// The index the next insertion will occupy: the head of the free list, or
/// one past the end when no freed slot is available.
pub open spec fn slab_free_head<T>(m: SlabModel<T>) -> int {
    if m.frees.len() == 0 {
        m.slots.len() as int
    } else {
        m.frees[0]
    }
}

/// The state and index produced by inserting `item`: either a fresh slot is
/// appended, or the head of the free list is filled and popped.
pub open spec fn slab_insert_model<T>(m: SlabModel<T>, item: T) -> (SlabModel<T>, int) {
    if m.frees.len() == 0 {
        (SlabModel { slots: m.slots.push(Some(item)), frees: m.frees }, m.slots.len() as int)
    } else {
        (
            SlabModel {
                slots: m.slots.update(m.frees[0], Some(item)),
                frees: m.frees.drop_first(),
            },
            m.frees[0],
        )
    }
}

/// The state and value produced by removing `idx`: an occupied slot is
/// emptied, its index becoming the new free-list head; anything else is a
/// no-op yielding nothing.
pub open spec fn slab_remove_model<T>(m: SlabModel<T>, idx: int) -> (SlabModel<T>, Option<T>) {
    if 0 <= idx < m.slots.len() && m.slots[idx] is Some {
        (
            SlabModel { slots: m.slots.update(idx, None), frees: seq![idx] + m.frees },
            m.slots[idx],
        )
    } else {
        (m, None)
    }
}

/// Insertion keeps a well-formed model well-formed, fills exactly the free
/// head, and grows the store by one slot only when no freed slot remained.
pub proof fn lemma_slab_insert_model_wf<T>(m: SlabModel<T>, item: T)
    requires
        slab_model_wf(m),
    ensures
        ({
            let (m2, i) = slab_insert_model(m, item);
            &&& slab_model_wf(m2)
            &&& i == slab_free_head(m)
            &&& 0 <= i <= m.slots.len()
            &&& m2.slots.len() == (if m.frees.len() == 0 {
                m.slots.len() + 1
            } else {
                m.slots.len()
            })
        }),
{
    let (m2, i) = slab_insert_model(m, item);
    if m.frees.len() > 0 {
        assert forall|k: int| 0 <= k < m2.frees.len() implies m2.slots[#[trigger] m2.frees[k]]
            is None by {
            assert(m2.frees[k] == m.frees[k + 1]);
            assert(m.frees[k + 1] != m.frees[0]);
        }
    }
}

/// Removal keeps a well-formed model well-formed; a live index becomes the
/// new head of the free order, so it can be handed out again only after
/// this removal.
pub proof fn lemma_slab_remove_model_wf<T>(m: SlabModel<T>, idx: int)
    requires
        slab_model_wf(m),
    ensures
        slab_model_wf(slab_remove_model(m, idx).0),
        0 <= idx < m.slots.len() && m.slots[idx] is Some ==> slab_remove_model(m, idx).0.frees
            == seq![idx] + m.frees,
{
    let m2 = slab_remove_model(m, idx).0;
    if 0 <= idx < m.slots.len() && m.slots[idx] is Some {
        assert forall|k: int| 0 <= k < m2.frees.len() implies 0 <= #[trigger] m2.frees[k]
            < m2.slots.len() && m2.slots[m2.frees[k]] is None by {
            if k > 0 {
                assert(m2.frees[k] == m.frees[k - 1]);
                assert(m.slots[m.frees[k - 1]] is None);
            }
        }
        assert forall|k: int, l: int| 0 <= k < l < m2.frees.len() implies m2.frees[k]
            != m2.frees[l] by {
            assert(m2.frees[l] == m.frees[l - 1]);
            if k > 0 {
                assert(m2.frees[k] == m.frees[k - 1]);
            } else {
                assert(m.slots[m.frees[l - 1]] is None);
            }
        }
    }
}

/// No two concurrently live items ever share a slot index: an insertion
/// fills a slot that was free beforehand (or a brand-new one past the end),
/// stores exactly the given item there, and leaves every other slot as it
/// was.
pub proof fn lemma_slab_insert_fresh_slot<T>(m: SlabModel<T>, item: T)
    requires
        slab_model_wf(m),
    ensures
        ({
            let (m2, i) = slab_insert_model(m, item);
            &&& 0 <= i < m2.slots.len()
            &&& i < m.slots.len() ==> m.slots[i] is None
            &&& m2.slots[i] == Some(item)
            &&& forall|j: int| 0 <= j < m.slots.len() && j != i ==> m2.slots[j] == m.slots[j]
        }),
{
}

/// Free-list slot allocator assigning stable small integer indices to
/// inserted items, reclaiming freed slots lowest-recently-freed first.
pub struct Slab<T> {
    storage: Vec<Entry<T>>,
    next: usize,
    frees: Ghost<Seq<int>>,
}

impl<T> View for Slab<T> {
    type V = SlabModel<T>;

    closed spec fn view(&self) -> SlabModel<T> {
        SlabModel {
            slots: self.storage@.map_values(
                |e: Entry<T>|
                    match e {
                        Entry::Full(v) => Some(v),
                        Entry::Empty { .. } => None,
                    },
            ),
            frees: self.frees@,
        }
    }
}

impl<T> Slab<T> {
    /// The representation invariant: the recorded free order is threaded
    /// through the `Empty` slots, each pointing at its successor (or one past
    /// the end), and the cursor sits on the head of that chain.
    pub closed spec fn wf(&self) -> bool {
        let n = self.storage@.len() as int;
        let fr = self.frees@;
        &&& self.next as int == (if fr.len() == 0 {
            n
        } else {
            fr[0]
        })
        &&& forall|i: int| 0 <= i < fr.len() ==> 0 <= #[trigger] fr[i] < n
        &&& forall|i: int|
            0 <= i < fr.len() ==> ((#[trigger] self.storage@[fr[i]]) matches Entry::Empty { next }
                && next as int == (if i + 1 < fr.len() {
                fr[i + 1]
            } else {
                n
            }))
        &&& forall|i: int, j: int| 0 <= i < j < fr.len() ==> fr[i] != fr[j]
    }

    /// A well-formed slab has a well-formed model.
    pub proof fn lemma_wf_model(&self)
        requires
            self.wf(),
        ensures
            slab_model_wf(self@),
    {
        assert forall|i: int| 0 <= i < self@.frees.len() implies self@.slots[
            #[trigger] self@.frees[i]
        ] is None by {
            assert(self.storage@[self.frees@[i]] matches Entry::Empty { .. });
        }
    }

    /// Stores `item`, reusing the head of the free list if one exists and
    /// appending a slot otherwise; returns the index the item now occupies.
    pub fn insert(&mut self, item: T) -> (ret: u32)
        requires
            old(self).wf(),
            old(self)@.slots.len() < u32::MAX,
        ensures
            final(self).wf(),
            final(self)@ == slab_insert_model(old(self)@, item).0,
            ret as int == slab_insert_model(old(self)@, item).1,
            ret as int == slab_free_head(old(self)@),
    {
        if self.next == self.storage.len() {
            let n = self.next;
            self.storage.push(Entry::Empty { next: n + 1 });
            proof {
                self.frees@ = seq![n as int];
            }
        }
        let ret: usize = self.next;
        assert(self.storage@[ret as int] matches Entry::Empty { .. });
        let new_next: usize = match &self.storage[ret] {
            Entry::Empty { next } => *next,
            Entry::Full(_) => vstd::pervasive::unreached(),
        };
        self.storage[ret] = Entry::Full(item);
        self.next = new_next;
        proof {
            self.frees@ = self.frees@.drop_first();
        }
        assert(ret < u32::MAX as usize);
        assert(self@.slots =~= slab_insert_model(old(self)@, item).0.slots);
        ret as u32
    }

    /// How many slots the store currently has, free ones included.
    pub fn len(&self) -> (n: usize)
        ensures
            n == self@.slots.len(),
    {
        self.storage.len()
    }

    /// Returns the item at `idx`, or nothing when `idx` is out of range or
    /// names a free slot.
    pub fn get(&self, idx: u32) -> (r: Option<&T>)
        ensures
            match r {
                Some(v) => (idx as int) < self@.slots.len() && self@.slots[idx as int] == Some(*v),
                None => !((idx as int) < self@.slots.len() && self@.slots[idx as int] is Some),
            },
    {
        if (idx as usize) < self.storage.len() {
            match &self.storage[idx as usize] {
                Entry::Full(v) => Some(v),
                Entry::Empty { .. } => None,
            }
        } else {
            None
        }
    }

    /// Returns a mutable reference to the item at `idx`, or nothing when
    /// `idx` is out of range or names a free slot; writes through the
    /// reference change that slot's value and nothing else.
    pub fn get_mut(&mut self, idx: u32) -> (r: Option<&mut T>)
        ensures
            r is Some <==> ((idx as int) < old(self)@.slots.len() && old(self)@.slots[idx as int]
                is Some),
            r matches Some(p) ==> old(self)@.slots[idx as int] == Some(*p),
            r matches Some(p) ==> final(self)@.slots =~= old(self)@.slots.update(
                idx as int,
                Some(*final(p)),
            ),
            r matches Some(p) ==> final(self)@.frees == old(self)@.frees,
            old(self).wf() ==> final(self).wf(),
            r is None ==> final(self)@.slots =~= old(self)@.slots && final(self)@.frees == old(
                self,
            )@.frees,
    {
        if (idx as usize) < self.storage.len() {
            match &mut self.storage[idx as usize] {
                Entry::Full(p) => Some(p),
                Entry::Empty { .. } => None,
            }
        } else {
            None
        }
    }

    /// Empties the slot at `idx` and returns what it held, making `idx` the
    /// next index to be reused; an already-free or out-of-range index is
    /// left untouched and yields nothing.
    pub fn remove(&mut self, idx: u32) -> (r: Option<T>)
        requires
            old(self).wf(),
        ensures
            final(self).wf(),
            final(self)@ == slab_remove_model(old(self)@, idx as int).0,
            r == slab_remove_model(old(self)@, idx as int).1,
    {
        if (idx as usize) >= self.storage.len() {
            return None;
        }
        let mut taken = Entry::Empty { next: self.next };
        core::mem::swap(&mut taken, &mut self.storage[idx as usize]);
        match taken {
            Entry::Full(v) => {
                self.next = idx as usize;
                proof {
                    self.frees@ = seq![idx as int] + self.frees@;
                }
                assert(self@.slots =~= slab_remove_model(old(self)@, idx as int).0.slots);
                Some(v)
            },
            Entry::Empty { next } => {
                self.storage[idx as usize] = Entry::Empty { next };
                assert(self.storage@ =~= old(self).storage@);
                assert(self@.slots =~= old(self)@.slots);
                None
            },
        }
    }
}

impl<T> Default for Slab<T> {
    /// An empty slab: no slots, no free list.
    fn default() -> (r: Slab<T>)
        ensures
            r.wf(),
            r@.slots.len() == 0,
            r@.frees.len() == 0,
    {
        Slab { storage: Vec::new(), next: 0, frees: Ghost(Seq::empty()) }
    }
}

} // verus!
