//! A fixed-capacity block of slots managed as a LIFO intrusive free list.

use vstd::prelude::*;
use crate::rc_pool::model::{
    fresh_page, lemma_exists_free, lemma_fresh_page_empty, lemma_occupied_count_bounds,
    lemma_occupied_count_update, lemma_occupied_positive, occupied_count, page_has_space,
    spec_next_gen, SlotView,
};
use crate::rc_pool::slot::{next_gen, Slot, SlotState};

verus! {

/// A contiguous block of slots. Free slots form an intrusive singly linked
/// list threaded through the slots themselves; the most recently freed slot
/// is reused first.
pub struct Page<T> {
    slots: Vec<Slot<T>>,
    /// Index of the head of the free list, or `None` when the page is full.
    first_free: Option<usize>,
    /// Number of occupied slots.
    live: usize,
    /// The free list's indices, head first.
    free_list: Ghost<Seq<int>>,
}

/// The slots' abstract states, in slot order.
spec fn view_parts<T>(slots: Seq<Slot<T>>) -> Seq<SlotView<T>> {
    slots.map_values(|s: Slot<T>| s@)
}

/// The next link the free list's `k`-th slot must carry.
spec fn link_in(fl: Seq<int>, k: int) -> Option<usize> {
    if k + 1 < fl.len() {
        Some(fl[k + 1] as usize)
    } else {
        None
    }
}

/// The page invariant, over the page's parts: the live counter matches the
/// slots, and the free list threads exactly the free slots, each once.
spec fn wf_parts<T>(
    slots: Seq<Slot<T>>,
    first_free: Option<usize>,
    live: int,
    fl: Seq<int>,
) -> bool {
    let n = slots.len() as int;
    &&& live == occupied_count(view_parts(slots))
    &&& (if fl.len() == 0 {
        first_free is None
    } else {
        first_free == Some(fl[0] as usize)
    })
    &&& forall|k: int| 0 <= k < fl.len() ==> 0 <= #[trigger] fl[k] < n
    &&& forall|k: int|
        0 <= k < fl.len() ==> slots[#[trigger] fl[k]].state == (SlotState::Free::<T> {
            next_free: link_in(fl, k),
        })
    &&& forall|j: int| 0 <= j < n && (#[trigger] slots[j]).state is Free ==> fl.contains(j)
    &&& forall|k1: int, k2: int|
        0 <= k1 < k2 < fl.len() ==> #[trigger] fl[k1] != #[trigger] fl[k2]
    &&& forall|j: int|
        0 <= j < n && (#[trigger] slots[j]).state is Free ==> slots[j].count == 0
}

impl<T> View for Page<T> {
    type V = Seq<SlotView<T>>;

    closed spec fn view(&self) -> Seq<SlotView<T>> {
        view_parts(self.slots@)
    }
}

impl<T> Page<T> {
    /// The next link the free list's `k`-th slot must carry.
    spec fn link_of(&self, k: int) -> Option<usize> {
        link_in(self.free_list@, k)
    }

    /// The page's internal invariant.
    pub closed spec fn wf(&self) -> bool {
        wf_parts(self.slots@, self.first_free, self.live as int, self.free_list@)
    }

    /// A new page of `cap` slots, all free, chained in ascending order.
    pub fn new(cap: usize) -> (p: Page<T>)
        ensures
            p.wf(),
            p@ == fresh_page::<T>(cap as nat),
    {
        let mut slots: Vec<Slot<T>> = Vec::new();
        let mut i: usize = 0;
        while i < cap
            invariant
                i <= cap,
                slots@.len() == i,
                forall|j: int|
                    0 <= j < i ==> #[trigger] slots@[j] == (Slot::<T> {
                        state: SlotState::Free {
                            next_free: if j + 1 < cap {
                                Some((j + 1) as usize)
                            } else {
                                None
                            },
                        },
                        generation: 0u64,
                        count: 0u32,
                    }),
            decreases cap - i,
        {
            let next: Option<usize> = if i + 1 < cap {
                Some(i + 1)
            } else {
                None
            };
            slots.push(Slot { state: SlotState::Free { next_free: next }, generation: 0, count: 0 });
            i += 1;
        }
        let ghost fl = Seq::new(cap as nat, |k: int| k);
        let p = Page {
            slots,
            first_free: if cap > 0 {
                Some(0)
            } else {
                None
            },
            live: 0,
            free_list: Ghost(fl),
        };
        proof {
            assert(p@ =~= fresh_page::<T>(cap as nat));
            lemma_fresh_page_empty::<T>(cap as nat);
            assert forall|j: int|
                0 <= j < cap && (#[trigger] p.slots@[j]).state is Free implies fl.contains(
                j,
            ) by {
                assert(fl[j] == j);
            }
        }
        p
    }

    /// Total number of slots.
    pub fn capacity(&self) -> (c: usize)
        ensures
            c == self@.len(),
    {
        self.slots.len()
    }

    /// Number of occupied slots.
    pub fn len(&self) -> (l: usize)
        requires
            self.wf(),
        ensures
            l == occupied_count(self@),
    {
        self.live
    }

    /// Whether the page still has a free slot.
    pub fn has_space(&self) -> (b: bool)
        requires
            self.wf(),
        ensures
            b == page_has_space(self@),
    {
        proof {
            lemma_occupied_count_bounds(self@);
        }
        self.live < self.slots.len()
    }

    /// Writes a value into the free slot at the head of the free list and
    /// hands back that slot's index. The slot's generation advances and it
    /// starts out with one strong reference.
    pub fn insert(&mut self, value: T) -> (i: usize)
        requires
            old(self).wf(),
            page_has_space(old(self)@),
        ensures
            final(self).wf(),
            i < old(self)@.len(),
            old(self)@[i as int].is_free(),
            old(self)@[i as int].count == 0,
            final(self)@ == old(self)@.update(
                i as int,
                SlotView {
                    value: Some(value),
                    gen: spec_next_gen(old(self)@[i as int].gen),
                    count: 1,
                },
            ),
    {
        let n = self.slots.len();
        proof {
            lemma_space_nonempty_fl(
                self.slots@,
                self.first_free,
                self.live as int,
                self.free_list@,
            );
        }
        let h: usize = match self.first_free {
            Some(h) => h,
            None => vstd::pervasive::unreached(),
        };
        proof {
            assert(self.free_list@[0] == h as int);
            assert(self.slots@[h as int].state == (SlotState::Free::<T> {
                next_free: link_in(self.free_list@, 0),
            }));
        }
        let next: Option<usize> = match &self.slots[h].state {
            SlotState::Free { next_free } => *next_free,
            SlotState::Occupied { .. } => vstd::pervasive::unreached(),
        };
        let g = self.slots[h].generation;
        let ng = next_gen(g);
        self.slots[h] = Slot { state: SlotState::Occupied { value }, generation: ng, count: 1 };
        self.first_free = next;
        self.live = self.live + 1;
        let ghost ofl = self.free_list@;
        self.free_list = Ghost(ofl.drop_first());
        proof {
            lemma_pop_free(
                old(self).slots@,
                old(self).first_free,
                old(self).live as int,
                ofl,
                self.slots@[h as int],
            );
            assert(self.slots@ =~= old(self).slots@.update(h as int, self.slots@[h as int]));
            assert(self.slots@[h as int]@ == (SlotView {
                value: Some(value),
                gen: spec_next_gen(old(self)@[h as int].gen),
                count: 1,
            }));
        }
        h
    }

    /// Empties the occupied slot at `i`: the value comes out, the slot's
    /// generation advances, and the slot becomes the new free-list head.
    pub fn take(&mut self, i: usize) -> (v: T)
        requires
            old(self).wf(),
            i < old(self)@.len(),
            old(self)@[i as int].is_occupied(),
            old(self)@[i as int].count == 0,
        ensures
            final(self).wf(),
            v == old(self)@[i as int].value->0,
            final(self)@ == old(self)@.update(
                i as int,
                SlotView { value: None, gen: spec_next_gen(old(self)@[i as int].gen), count: 0 },
            ),
    {
        let g = self.slots[i].generation;
        let ng = next_gen(g);
        let mut tmp = Slot {
            state: SlotState::Free { next_free: self.first_free },
            generation: ng,
            count: 0,
        };
        let r = &mut self.slots[i];
        core::mem::swap(r, &mut tmp);
        self.first_free = Some(i);
        proof {
            lemma_occupied_positive(old(self)@, i as int);
        }
        self.live = self.live - 1;
        let ghost ofl = self.free_list@;
        self.free_list = Ghost(seq![i as int] + self.free_list@);
        proof {
            let fl = self.free_list@;
            assert(self@ =~= old(self)@.update(
                i as int,
                SlotView { value: None, gen: spec_next_gen(old(self)@[i as int].gen), count: 0 },
            ));
            lemma_occupied_count_update(
                old(self)@,
                i as int,
                SlotView { value: None, gen: spec_next_gen(old(self)@[i as int].gen), count: 0 },
            );
            // The freed slot was not on the old free list.
            assert forall|k: int| 0 <= k < ofl.len() implies #[trigger] ofl[k] != i as int by {
                assert(old(self).slots@[ofl[k]].state == (SlotState::Free::<T> {
                    next_free: old(self).link_of(k),
                }));
            }
            assert forall|k: int|
                0 <= k < fl.len() implies self.slots@[#[trigger] fl[k]].state
                == (SlotState::Free::<T> { next_free: self.link_of(k) }) by {
                if k == 0 {
                    assert(fl[0] == i as int);
                } else {
                    assert(fl[k] == ofl[k - 1]);
                    assert(old(self).slots@[ofl[k - 1]].state == (SlotState::Free::<T> {
                        next_free: old(self).link_of(k - 1),
                    }));
                }
            }
            assert forall|j: int|
                0 <= j < self.slots@.len() && (#[trigger] self.slots@[j]).state
                is Free implies fl.contains(j) by {
                if j == i as int {
                    assert(fl[0] == j);
                } else {
                    assert(ofl.contains(j));
                    let w = choose|w: int| 0 <= w < ofl.len() && ofl[w] == j;
                    assert(fl[w + 1] == j);
                }
            }
            assert forall|k1: int, k2: int|
                0 <= k1 < k2 < fl.len() implies #[trigger] fl[k1] != #[trigger] fl[k2] by {
                if k1 == 0 {
                    assert(fl[k2] == ofl[k2 - 1]);
                } else {
                    assert(fl[k1] == ofl[k1 - 1]);
                    assert(fl[k2] == ofl[k2 - 1]);
                }
            }
        }
        match tmp.state {
            SlotState::Occupied { value } => value,
            SlotState::Free { .. } => vstd::pervasive::unreached(),
        }
    }

    /// Whether the slot at `i` holds a value.
    pub fn is_occupied(&self, i: usize) -> (b: bool)
        requires
            i < self@.len(),
        ensures
            b == self@[i as int].is_occupied(),
    {
        match &self.slots[i].state {
            SlotState::Occupied { .. } => true,
            SlotState::Free { .. } => false,
        }
    }

    /// The generation counter of the slot at `i`.
    pub fn generation(&self, i: usize) -> (g: u64)
        requires
            i < self@.len(),
        ensures
            g == self@[i as int].gen,
    {
        self.slots[i].generation
    }

    /// The strong-reference count of the slot at `i`.
    pub fn count(&self, i: usize) -> (c: u32)
        requires
            i < self@.len(),
        ensures
            c == self@[i as int].count,
    {
        self.slots[i].count
    }

    /// A shared view of the value stored at `i`.
    pub fn value_ref(&self, i: usize) -> (r: &T)
        requires
            i < self@.len(),
            self@[i as int].is_occupied(),
        ensures
            *r == self@[i as int].value->0,
    {
        self.slots[i].value_ref()
    }

    /// An exclusive view of the value stored at `i`; the slot's generation
    /// and count stay as they were, whatever is written through the result.
    pub fn value_mut(&mut self, i: usize) -> (m: &mut T)
        requires
            old(self).wf(),
            i < old(self)@.len(),
            old(self)@[i as int].is_occupied(),
        ensures
            *m == old(self)@[i as int].value->0,
            final(self)@ == old(self)@.update(
                i as int,
                SlotView {
                    value: Some(*final(m)),
                    gen: old(self)@[i as int].gen,
                    count: old(self)@[i as int].count,
                },
            ),
            final(self).wf(),
    {
        proof {
            let slots0 = self.slots@;
            let ff = self.first_free;
            let live = self.live as int;
            let fl = self.free_list@;
            assert forall|sl: Slot<T>|
                sl.state is Occupied && sl.generation == slots0[i as int].generation implies
                wf_parts(#[trigger] slots0.update(i as int, sl), ff, live, fl) && view_parts(
                    slots0.update(i as int, sl),
                ) == view_parts(slots0).update(i as int, sl@) by {
                lemma_patch_occupied(slots0, ff, live, fl, i as int, sl);
            }
        }
        let s = &mut self.slots[i];
        s.value_mut()
    }

    /// Adds one to the strong-reference count of the occupied slot at `i`.
    pub fn incr_count(&mut self, i: usize)
        requires
            old(self).wf(),
            i < old(self)@.len(),
            old(self)@[i as int].is_occupied(),
            old(self)@[i as int].count < u32::MAX,
        ensures
            final(self).wf(),
            final(self)@ == old(self)@.update(
                i as int,
                SlotView {
                    value: old(self)@[i as int].value,
                    gen: old(self)@[i as int].gen,
                    count: (old(self)@[i as int].count + 1) as u32,
                },
            ),
    {
        let s = &mut self.slots[i];
        s.count = s.count + 1;
        proof {
            lemma_patch_occupied(
                old(self).slots@,
                old(self).first_free,
                old(self).live as int,
                old(self).free_list@,
                i as int,
                self.slots@[i as int],
            );
            assert(self.slots@ =~= old(self).slots@.update(i as int, self.slots@[i as int]));
        }
    }

    /// Removes one from the strong-reference count of the occupied slot at `i`.
    pub fn decr_count(&mut self, i: usize)
        requires
            old(self).wf(),
            i < old(self)@.len(),
            old(self)@[i as int].is_occupied(),
            old(self)@[i as int].count >= 1,
        ensures
            final(self).wf(),
            final(self)@ == old(self)@.update(
                i as int,
                SlotView {
                    value: old(self)@[i as int].value,
                    gen: old(self)@[i as int].gen,
                    count: (old(self)@[i as int].count - 1) as u32,
                },
            ),
    {
        let s = &mut self.slots[i];
        s.count = s.count - 1;
        proof {
            lemma_patch_occupied(
                old(self).slots@,
                old(self).first_free,
                old(self).live as int,
                old(self).free_list@,
                i as int,
                self.slots@[i as int],
            );
            assert(self.slots@ =~= old(self).slots@.update(i as int, self.slots@[i as int]));
        }
    }
}

/// A page with room has a non-empty free list, whose head is a free,
/// unreferenced slot.
proof fn lemma_space_nonempty_fl<T>(
    slots: Seq<Slot<T>>,
    first_free: Option<usize>,
    live: int,
    fl: Seq<int>,
)
    requires
        wf_parts(slots, first_free, live, fl),
        occupied_count(view_parts(slots)) < slots.len(),
    ensures
        fl.len() > 0,
        first_free == Some(fl[0] as usize),
        0 <= fl[0] < slots.len(),
{
    lemma_exists_free(view_parts(slots));
    let j = choose|j: int| 0 <= j < view_parts(slots).len() && view_parts(slots)[j].is_free();
    assert(slots[j].state is Free);
    assert(fl.contains(j));
}

/// Popping the free-list head and writing an occupied slot there keeps the
/// page invariant, with the head's link as the new list head and one more
/// live slot.
proof fn lemma_pop_free<T>(
    slots: Seq<Slot<T>>,
    first_free: Option<usize>,
    live: int,
    fl: Seq<int>,
    sl: Slot<T>,
)
    requires
        wf_parts(slots, first_free, live, fl),
        fl.len() > 0,
        sl.state is Occupied,
    ensures
        ({
            let h = fl[0];
            let cur = slots.update(h, sl);
            &&& 0 <= h < slots.len()
            &&& view_parts(slots)[h].is_free()
            &&& view_parts(slots)[h].count == 0
            &&& wf_parts(cur, link_in(fl, 0), live + 1, fl.drop_first())
            &&& view_parts(cur) == view_parts(slots).update(h, sl@)
        }),
{
    let h = fl[0];
    let cur = slots.update(h, sl);
    let nfl = fl.drop_first();
    assert(slots[h].state == (SlotState::Free::<T> { next_free: link_in(fl, 0) }));
    assert(view_parts(cur) =~= view_parts(slots).update(h, sl@));
    lemma_occupied_count_update(view_parts(slots), h, sl@);
    assert forall|k: int| 0 <= k < nfl.len() implies #[trigger] nfl[k] == fl[k + 1] && nfl[k]
        != h by {
        assert(fl[0] != fl[k + 1]);
    }
    assert forall|k: int|
        0 <= k < nfl.len() implies cur[#[trigger] nfl[k]].state == (SlotState::Free::<T> {
            next_free: link_in(nfl, k),
        }) by {
        assert(slots[fl[k + 1]].state == (SlotState::Free::<T> { next_free: link_in(fl, k + 1) }));
        if k + 1 < nfl.len() {
            assert(nfl[k + 1] == fl[k + 2]);
        }
    }
    assert forall|j: int|
        0 <= j < cur.len() && (#[trigger] cur[j]).state is Free implies nfl.contains(j) by {
        assert(slots[j].state is Free);
        assert(fl.contains(j));
        let w = choose|w: int| 0 <= w < fl.len() && fl[w] == j;
        assert(w != 0);
        assert(nfl[w - 1] == j);
    }
    assert forall|k1: int, k2: int|
        0 <= k1 < k2 < nfl.len() implies #[trigger] nfl[k1] != #[trigger] nfl[k2] by {
        assert(fl[k1 + 1] != fl[k2 + 1]);
    }
    assert forall|j: int|
        0 <= j < cur.len() && (#[trigger] cur[j]).state is Free implies cur[j].count == 0 by {
        assert(slots[j].state is Free);
    }
    if nfl.len() > 0 {
        assert(nfl[0] == fl[1]);
    }
}

/// Replacing an occupied slot's contents — same generation, still occupied —
/// keeps the page invariant and updates the slots' views pointwise.
proof fn lemma_patch_occupied<T>(
    slots: Seq<Slot<T>>,
    first_free: Option<usize>,
    live: int,
    fl: Seq<int>,
    i: int,
    sl: Slot<T>,
)
    requires
        wf_parts(slots, first_free, live, fl),
        0 <= i < slots.len(),
        slots[i].state is Occupied,
        sl.state is Occupied,
        sl.generation == slots[i].generation,
    ensures
        wf_parts(slots.update(i, sl), first_free, live, fl),
        view_parts(slots.update(i, sl)) == view_parts(slots).update(i, sl@),
{
    let cur = slots.update(i, sl);
    assert(view_parts(cur) =~= view_parts(slots).update(i, sl@));
    lemma_occupied_count_update(view_parts(slots), i, sl@);
    assert forall|k: int|
        0 <= k < fl.len() implies cur[#[trigger] fl[k]].state == (SlotState::Free::<T> {
            next_free: link_in(fl, k),
        }) by {
        assert(slots[fl[k]].state == (SlotState::Free::<T> { next_free: link_in(fl, k) }));
        assert(fl[k] != i);
    }
    assert forall|j: int|
        0 <= j < cur.len() && (#[trigger] cur[j]).state is Free implies fl.contains(j) by {
        assert(slots[j].state is Free);
    }
    assert forall|j: int|
        0 <= j < cur.len() && (#[trigger] cur[j]).state is Free implies cur[j].count == 0 by {
        assert(slots[j].state is Free);
    }
}

} // verus!
