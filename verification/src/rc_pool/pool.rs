//! The pool: a growable chain of pages presenting one flat, counted store.

use vstd::prelude::*;
use crate::either::Either;
use crate::rc_pool::model::{
    addr_ok, can_take_ref, caps_sum, cursor_le, cursor_lt, freed_at, fresh_page,
    grown_insert, inserted_at, lemma_caps_sum_nonneg, lemma_caps_sum_push,
    lemma_caps_sum_same_lens, lemma_fresh_page_empty, lemma_occupied_count_bounds,
    lemma_sums_prefix, lemma_sums_split, locate, no_live_between, page_has_space,
    pool_has_space, recounted_at, spec_next_gen, total_occupied, update_slot, weak_addr,
    weak_can_free, PoolView, RefView, SlotView,
};
use crate::rc_pool::page::Page;
use crate::rc_pool::strong_ref::StrongRef;
use crate::rc_pool::weak_ref::WeakRef;

verus! {

/// The pool's pages, as their slots' abstract states.
spec fn views<T>(pages: Seq<Page<T>>) -> PoolView<T> {
    pages.map_values(|pg: Page<T>| pg@)
}

/// The pool invariant, over its parts: at least one page, every page
/// well-formed, the free-space hint in range, a positive growth size, and
/// a total capacity that fits the machine.
spec fn pool_wf_parts<T>(pages: Seq<Page<T>>, free_hint: usize, page_len: usize) -> bool {
    &&& pages.len() >= 1
    &&& free_hint < pages.len()
    &&& page_len >= 1
    &&& caps_sum(views(pages)) <= usize::MAX
    &&& forall|p: int| 0 <= p < pages.len() ==> (#[trigger] pages[p]).wf()
}

/// A reference-counted object pool. Values are stored in generation-tagged
/// slots grouped into pages; the pool grows by whole pages of a
/// configurable size and never moves a stored value.
///
/// `MANUAL_DROP` selects the reclaim policy at construction time: with
/// `false` a slot is reclaimed the instant its strong count reaches zero;
/// with `true` the value stays until an explicit removal call.
pub struct RcPool<T, const MANUAL_DROP: bool> {
    pages: Vec<Page<T>>,
    /// The page tried first on insertion; re-pointed at any page that frees
    /// a slot, so a page that regains space becomes discoverable again.
    free_hint: usize,
    /// Capacity of pages allocated on growth.
    page_len: usize,
}

impl<T, const MANUAL_DROP: bool> View for RcPool<T, MANUAL_DROP> {
    type V = PoolView<T>;

    closed spec fn view(&self) -> PoolView<T> {
        views(self.pages@)
    }
}

impl<T, const MANUAL_DROP: bool> RcPool<T, MANUAL_DROP> {
    /// The pool's internal invariant.
    pub closed spec fn wf(&self) -> bool {
        pool_wf_parts(self.pages@, self.free_hint, self.page_len)
    }

    /// The capacity of pages the pool will allocate when it grows.
    pub closed spec fn spec_page_len(&self) -> usize {
        self.page_len
    }

    /// A new pool holding one page of `page_len` slots; pages allocated on
    /// growth get the same size until it is changed.
    pub fn new(page_len: usize) -> (pool: Self)
        requires
            page_len >= 1,
        ensures
            pool.wf(),
            pool@ == seq![fresh_page::<T>(page_len as nat)],
            pool.spec_page_len() == page_len,
            caps_sum(pool@) == page_len as int,
            total_occupied(pool@) == 0,
            pool_has_space(pool@),
    {
        let pg = Page::<T>::new(page_len);
        let mut pages: Vec<Page<T>> = Vec::new();
        pages.push(pg);
        let pool = RcPool { pages, free_hint: 0, page_len };
        proof {
            assert(pool@ =~= seq![fresh_page::<T>(page_len as nat)]);
            lemma_caps_sum_push(Seq::<Seq<SlotView<T>>>::empty(), pool@[0]);
            assert(views(pool.pages@).drop_last() =~= Seq::<Seq<SlotView<T>>>::empty());
            lemma_fresh_page_empty::<T>(page_len as nat);
            assert(page_has_space(pool@[0]));
        }
        pool
    }

    /// A new pool with one page of `cap` slots, growing by pages of the
    /// same size.
    pub fn new_vec(cap: usize) -> (pool: Self)
        requires
            cap >= 1,
        ensures
            pool.wf(),
            pool@ == seq![fresh_page::<T>(cap as nat)],
            pool.spec_page_len() == cap,
            caps_sum(pool@) == cap as int,
            total_occupied(pool@) == 0,
            pool_has_space(pool@),
    {
        Self::new(cap)
    }

    /// The capacity of pages allocated on growth.
    pub fn page_len(&self) -> (n: usize)
        ensures
            n == self.spec_page_len(),
    {
        self.page_len
    }

    /// Changes the capacity of pages allocated on growth; pages already
    /// allocated keep their size.
    pub fn set_page_len(&mut self, page_len: usize)
        requires
            old(self).wf(),
            page_len >= 1,
        ensures
            final(self).wf(),
            final(self)@ == old(self)@,
            final(self).spec_page_len() == page_len,
    {
        self.page_len = page_len;
    }

    /// Total number of slots, across all pages.
    pub fn capacity(&self) -> (c: usize)
        requires
            self.wf(),
        ensures
            c == caps_sum(self@),
    {
        let mut c: usize = 0;
        let mut p: usize = 0;
        proof {
            assert(self@.subrange(0, 0) =~= Seq::<Seq<SlotView<T>>>::empty());
        }
        while p < self.pages.len()
            invariant
                self.wf(),
                p <= self.pages.len(),
                c == caps_sum(self@.subrange(0, p as int)),
            decreases self.pages.len() - p,
        {
            proof {
                lemma_sums_prefix(self@, p as int);
                lemma_sums_split(self@, p + 1);
                lemma_caps_sum_nonneg(self@.subrange(p + 1, self@.len() as int));
            }
            c = c + self.pages[p].capacity();
            p = p + 1;
        }
        proof {
            assert(self@.subrange(0, self@.len() as int) =~= self@);
        }
        c
    }

    /// Number of stored values, across all pages.
    pub fn len(&self) -> (l: usize)
        requires
            self.wf(),
        ensures
            l == total_occupied(self@),
    {
        let mut l: usize = 0;
        let mut p: usize = 0;
        proof {
            assert(self@.subrange(0, 0) =~= Seq::<Seq<SlotView<T>>>::empty());
            lemma_caps_sum_nonneg(self@);
        }
        while p < self.pages.len()
            invariant
                self.wf(),
                p <= self.pages.len(),
                l == total_occupied(self@.subrange(0, p as int)),
                l <= caps_sum(self@.subrange(0, p as int)),
            decreases self.pages.len() - p,
        {
            proof {
                lemma_sums_prefix(self@, p as int);
                lemma_sums_split(self@, p + 1);
                lemma_caps_sum_nonneg(self@.subrange(p + 1, self@.len() as int));
                lemma_caps_sum_nonneg(self@.subrange(0, p as int));
                lemma_occupied_count_bounds(self@[p as int]);
            }
            l = l + self.pages[p].len();
            p = p + 1;
        }
        proof {
            assert(self@.subrange(0, self@.len() as int) =~= self@);
        }
        l
    }

    /// Whether the pool holds no value at all.
    pub fn is_empty(&self) -> (b: bool)
        requires
            self.wf(),
        ensures
            b == (total_occupied(self@) == 0),
    {
        self.len() == 0
    }

    // --------------------------------------------------------------
    // Slot primitives used by the reference handles.
    // --------------------------------------------------------------

    /// Whether coordinates point inside the pool.
    pub(crate) fn addr_in_bounds(&self, page: usize, idx: usize) -> (b: bool)
        requires
            self.wf(),
        ensures
            b == addr_ok(self@, RefView { page, idx }),
    {
        page < self.pages.len() && idx < self.pages[page].capacity()
    }

    /// The generation counter of one slot.
    pub(crate) fn gen_at(&self, page: usize, idx: usize) -> (g: u64)
        requires
            self.wf(),
            page < self@.len(),
            idx < self@[page as int].len(),
        ensures
            g == self@[page as int][idx as int].gen,
    {
        self.pages[page].generation(idx)
    }

    /// The strong-reference count of one slot.
    pub(crate) fn count_at(&self, page: usize, idx: usize) -> (c: u32)
        requires
            self.wf(),
            page < self@.len(),
            idx < self@[page as int].len(),
        ensures
            c == self@[page as int][idx as int].count,
    {
        self.pages[page].count(idx)
    }

    /// Whether one slot holds a value.
    pub(crate) fn occupied_at(&self, page: usize, idx: usize) -> (b: bool)
        requires
            self.wf(),
            page < self@.len(),
            idx < self@[page as int].len(),
        ensures
            b == self@[page as int][idx as int].is_occupied(),
    {
        self.pages[page].is_occupied(idx)
    }

    /// A shared view of one stored value.
    pub(crate) fn value_at(&self, page: usize, idx: usize) -> (r: &T)
        requires
            self.wf(),
            page < self@.len(),
            idx < self@[page as int].len(),
            self@[page as int][idx as int].is_occupied(),
        ensures
            *r == self@[page as int][idx as int].value->0,
    {
        self.pages[page].value_ref(idx)
    }

    /// Adds one to the count of an occupied slot.
    pub(crate) fn incr_at(&mut self, page: usize, idx: usize)
        requires
            old(self).wf(),
            page < old(self)@.len(),
            idx < old(self)@[page as int].len(),
            old(self)@[page as int][idx as int].is_occupied(),
            old(self)@[page as int][idx as int].count < u32::MAX,
        ensures
            final(self).wf(),
            final(self).spec_page_len() == old(self).spec_page_len(),
            recounted_at(old(self)@, final(self)@, RefView { page, idx }, 1),
    {
        let pg = &mut self.pages[page];
        pg.incr_count(idx);
        proof {
            self.lemma_page_patch(*old(self), page as int);
        }
    }

    /// Removes one from the count of an occupied slot.
    pub(crate) fn decr_at(&mut self, page: usize, idx: usize)
        requires
            old(self).wf(),
            page < old(self)@.len(),
            idx < old(self)@[page as int].len(),
            old(self)@[page as int][idx as int].is_occupied(),
            old(self)@[page as int][idx as int].count >= 1,
        ensures
            final(self).wf(),
            final(self).spec_page_len() == old(self).spec_page_len(),
            recounted_at(old(self)@, final(self)@, RefView { page, idx }, -1),
    {
        let pg = &mut self.pages[page];
        pg.decr_count(idx);
        proof {
            self.lemma_page_patch(*old(self), page as int);
        }
    }

    /// Empties an occupied, unreferenced slot and hands the value out; the
    /// freed page becomes the first insertion candidate again.
    pub(crate) fn take_at(&mut self, page: usize, idx: usize) -> (v: T)
        requires
            old(self).wf(),
            page < old(self)@.len(),
            idx < old(self)@[page as int].len(),
            old(self)@[page as int][idx as int].is_occupied(),
            old(self)@[page as int][idx as int].count == 0,
        ensures
            final(self).wf(),
            final(self).spec_page_len() == old(self).spec_page_len(),
            v == old(self)@[page as int][idx as int].value->0,
            freed_at(old(self)@, final(self)@, RefView { page, idx }),
    {
        let pg = &mut self.pages[page];
        let v = pg.take(idx);
        self.free_hint = page;
        proof {
            self.lemma_page_patch(*old(self), page as int);
        }
        v
    }

    /// An exclusive view of one stored value; the slot's generation and
    /// count stay as they were, whatever is written through the result.
    pub(crate) fn value_at_mut<'a>(&'a mut self, page: usize, idx: usize) -> (m: &'a mut T)
        requires
            old(self).wf(),
            page < old(self)@.len(),
            idx < old(self)@[page as int].len(),
            old(self)@[page as int][idx as int].is_occupied(),
        ensures
            *m == old(self)@[page as int][idx as int].value->0,
            final(self)@ == update_slot(
                old(self)@,
                RefView { page, idx },
                SlotView {
                    value: Some(*final(m)),
                    gen: old(self)@[page as int][idx as int].gen,
                    count: old(self)@[page as int][idx as int].count,
                },
            ),
            final(self).wf(),
            final(self).spec_page_len() == old(self).spec_page_len(),
    {
        proof {
            let pages0 = self.pages@;
            let hint = self.free_hint;
            let plen = self.page_len;
            assert forall|pgx: Page<T>|
                pgx.wf() && pgx@.len() == pages0[page as int]@.len() implies pool_wf_parts(
                #[trigger] pages0.update(page as int, pgx),
                hint,
                plen,
            ) && views(pages0.update(page as int, pgx)) == views(pages0).update(
                page as int,
                pgx@,
            ) by {
                assert(views(pages0.update(page as int, pgx)) =~= views(pages0).update(
                    page as int,
                    pgx@,
                ));
                lemma_caps_sum_same_lens(
                    views(pages0),
                    views(pages0.update(page as int, pgx)),
                );
            }
        }
        let pg = &mut self.pages[page];
        pg.value_mut(idx)
    }

    /// Inserts into a page known to have room; that page becomes the first
    /// insertion candidate for later calls.
    fn insert_in_page(&mut self, p: usize, value: T) -> (r: StrongRef)
        requires
            old(self).wf(),
            p < old(self)@.len(),
            page_has_space(old(self)@[p as int]),
        ensures
            final(self).wf(),
            final(self).spec_page_len() == old(self).spec_page_len(),
            inserted_at(old(self)@, final(self)@, r@, value),
            r@.page == p,
    {
        let pg = &mut self.pages[p];
        let i = pg.insert(value);
        self.free_hint = p;
        proof {
            self.lemma_page_patch(*old(self), p as int);
        }
        StrongRef::make(p, i)
    }

    /// Inserts a value if some page has room, without ever growing the
    /// pool; hands the value back when every slot is taken.
    pub fn try_insert(&mut self, value: T) -> (r: Either<StrongRef, T>)
        requires
            old(self).wf(),
        ensures
            final(self).wf(),
            final(self).spec_page_len() == old(self).spec_page_len(),
            (r is Left) == pool_has_space(old(self)@),
            r matches Either::Left(sr) ==> inserted_at(old(self)@, final(self)@, sr@, value),
            r matches Either::Right(v) ==> v == value && final(self)@ == old(self)@,
    {
        let hint = self.free_hint;
        if self.pages[hint].has_space() {
            proof {
                assert(page_has_space(self@[hint as int]));
                assert(pool_has_space(self@));
            }
            let r = self.insert_in_page(hint, value);
            return Either::Left(r);
        }
        let mut p: usize = 0;
        while p < self.pages.len()
            invariant
                self.wf(),
                self@ == old(self)@,
                self.spec_page_len() == old(self).spec_page_len(),
                self.pages@.len() == old(self).pages@.len(),
                p <= self.pages@.len(),
                forall|q: int| 0 <= q < p ==> !page_has_space(self@[q]),
            decreases self.pages@.len() - p,
        {
            if self.pages[p].has_space() {
                proof {
                    assert(page_has_space(self@[p as int]));
                    assert(pool_has_space(self@));
                }
                let r = self.insert_in_page(p, value);
                return Either::Left(r);
            }
            p = p + 1;
        }
        proof {
            assert forall|q: int| 0 <= q < self@.len() implies !page_has_space(self@[q]) by {}
            assert(!pool_has_space(self@));
        }
        Either::Right(value)
    }

    /// Inserts a value; when every slot is taken, first grows the pool by
    /// exactly one page of the configured growth size.
    pub fn insert(&mut self, value: T) -> (r: StrongRef)
        requires
            old(self).wf(),
            caps_sum(old(self)@) + old(self).spec_page_len() <= usize::MAX,
        ensures
            final(self).wf(),
            final(self).spec_page_len() == old(self).spec_page_len(),
            pool_has_space(old(self)@) ==> inserted_at(old(self)@, final(self)@, r@, value),
            !pool_has_space(old(self)@) ==> grown_insert(
                old(self)@,
                final(self)@,
                r@,
                value,
                old(self).spec_page_len() as nat,
            ),
    {
        let vv = match self.try_insert(value) {
            Either::Left(r) => {
                return r;
            },
            Either::Right(v) => v,
        };
        let n = self.page_len;
        let newp = self.add_page(n);
        let r = self.insert_in_page(newp, vv);
        proof {
            assert(spec_next_gen(0) == 1);
            assert(self@ =~= old(self)@.push(
                fresh_page::<T>(n as nat).update(
                    r@.idx as int,
                    SlotView { value: Some(vv), gen: 1, count: 1 },
                ),
            ));
        }
        r
    }

    /// Appends one fresh page of `page_size` slots to the page chain and
    /// hands back its position.
    fn add_page(&mut self, page_size: usize) -> (p: usize)
        requires
            old(self).wf(),
            page_size >= 1,
            caps_sum(old(self)@) + page_size <= usize::MAX,
        ensures
            final(self).wf(),
            final(self).spec_page_len() == old(self).spec_page_len(),
            final(self)@ == old(self)@.push(fresh_page::<T>(page_size as nat)),
            p == old(self)@.len(),
            page_has_space(final(self)@[p as int]),
    {
        let pg = Page::<T>::new(page_size);
        self.pages.push(pg);
        proof {
            assert(self@ =~= old(self)@.push(fresh_page::<T>(page_size as nat)));
            lemma_caps_sum_push(old(self)@, fresh_page::<T>(page_size as nat));
            lemma_fresh_page_empty::<T>(page_size as nat);
        }
        self.pages.len() - 1
    }

    /// Looks up a slot by pool-wide linear index, counting slots page by
    /// page in page order; hands out a strong reference when the slot
    /// holds a value.
    pub fn get(&mut self, index: usize) -> (r: Option<StrongRef>)
        requires
            old(self).wf(),
        ensures
            final(self).wf(),
            final(self).spec_page_len() == old(self).spec_page_len(),
            ({
                match locate(old(self)@, index as int) {
                    Some(a) => {
                        if can_take_ref(old(self)@[a.0][a.1]) {
                            &&& r matches Some(sr)
                            &&& sr@.page == a.0
                            &&& sr@.idx == a.1
                            &&& recounted_at(
                                old(self)@,
                                final(self)@,
                                RefView { page: sr@.page, idx: sr@.idx },
                                1,
                            )
                        } else {
                            r is None && final(self)@ == old(self)@
                        }
                    },
                    None => r is None && final(self)@ == old(self)@,
                }
            }),
    {
        let mut p: usize = 0;
        let mut rem: usize = index;
        proof {
            assert(self@.subrange(0, self@.len() as int) =~= self@);
        }
        while p < self.pages.len()
            invariant
                self.wf(),
                self@ == old(self)@,
                self.spec_page_len() == old(self).spec_page_len(),
                self.pages@.len() == old(self).pages@.len(),
                p <= self.pages@.len(),
                ({
                    match locate(self@.subrange(p as int, self@.len() as int), rem as int) {
                        Some(a) => locate(self@, index as int) matches Some(b) && b.0 == a.0
                            + p && b.1 == a.1,
                        None => locate(self@, index as int) is None,
                    }
                }),
            decreases self.pages@.len() - p,
        {
            let ghost tail = self@.subrange(p as int, self@.len() as int);
            let cap = self.pages[p].capacity();
            proof {
                assert(tail[0] == self@[p as int]);
                assert(tail.subrange(1, tail.len() as int) =~= self@.subrange(
                    p + 1,
                    self@.len() as int,
                ));
            }
            if rem < cap {
                proof {
                    assert(locate(tail, rem as int) == Some((0int, rem as int)));
                    assert(locate(self@, index as int) == Some((p as int, rem as int)));
                }
                let pg = &self.pages[p];
                if pg.is_occupied(rem) && pg.count(rem) < u32::MAX {
                    self.incr_at(p, rem);
                    return Some(StrongRef::make(p, rem));
                } else {
                    return None;
                }
            }
            rem = rem - cap;
            p = p + 1;
        }
        proof {
            assert(self@.subrange(p as int, self@.len() as int).len() == 0);
        }
        None
    }

    /// Reclaims the slot a weak reference names, when the handle is still
    /// valid and no strong reference is outstanding; otherwise does
    /// nothing. The value is dropped; the slot's generation advances.
    pub fn remove(&mut self, w: &WeakRef)
        requires
            old(self).wf(),
        ensures
            final(self).wf(),
            final(self).spec_page_len() == old(self).spec_page_len(),
            weak_can_free(old(self)@, w@) ==> freed_at(
                old(self)@,
                final(self)@,
                weak_addr(w@),
            ),
            !weak_can_free(old(self)@, w@) ==> final(self)@ == old(self)@,
    {
        let p = w.page_of();
        let i = w.idx_of();
        if self.addr_in_bounds(p, i) {
            if self.occupied_at(p, i) && self.gen_at(p, i) == w.gen_of() && self.count_at(p, i)
                == 0 {
                let _ = self.take_at(p, i);
            }
        }
    }

    /// Number of pages.
    pub(crate) fn page_count(&self) -> (n: usize)
        ensures
            n == self@.len(),
    {
        self.pages.len()
    }

    /// Capacity of one page.
    pub(crate) fn page_cap(&self, p: usize) -> (c: usize)
        requires
            p < self@.len(),
        ensures
            c == self@[p as int].len(),
    {
        self.pages[p].capacity()
    }

    /// A cursor over the pool's slots, oldest page first and slots in
    /// index order within each page, starting at the first slot. The order
    /// is stable: growth only ever appends pages.
    pub fn iter(&self) -> (it: RcPoolIterator)
        ensures
            it@ == (0int, 0int),
    {
        RcPoolIterator { page: 0, idx: 0 }
    }

    /// After exactly one page changed without changing its length, the pool
    /// invariant holds again and the view changed only in that page.
    proof fn lemma_page_patch(&self, prev: Self, p: int)
        requires
            prev.wf(),
            0 <= p < prev.pages@.len(),
            self.pages@ == prev.pages@.update(p, self.pages@[p]),
            self.pages@[p].wf(),
            self.pages@[p]@.len() == prev.pages@[p]@.len(),
            self.free_hint < self.pages@.len(),
            self.page_len == prev.page_len,
        ensures
            self.wf(),
            self@ == prev@.update(p, self.pages@[p]@),
    {
        assert(self@ =~= prev@.update(p, self.pages@[p]@));
        lemma_caps_sum_same_lens(prev@, self@);
    }
}

/// Walks the pool's slots oldest page first, skipping free slots; each
/// slot it yields hands out one strong reference. A fresh call to `iter`
/// always restarts from the beginning.
pub struct RcPoolIterator {
    pub(crate) page: usize,
    pub(crate) idx: usize,
}

impl View for RcPoolIterator {
    type V = (int, int);

    closed spec fn view(&self) -> (int, int) {
        (self.page as int, self.idx as int)
    }
}

impl RcPoolIterator {
    /// The next occupied slot at or after the cursor, as a strong
    /// reference; `None` once the cursor has passed the last page.
    pub fn next<T, const MANUAL_DROP: bool>(
        &mut self,
        pool: &mut RcPool<T, MANUAL_DROP>,
    ) -> (r: Option<StrongRef>)
        requires
            old(pool).wf(),
        ensures
            final(pool).wf(),
            final(pool).spec_page_len() == old(pool).spec_page_len(),
            r matches Some(s) ==> {
                &&& s@.page < old(pool)@.len()
                &&& s@.idx < old(pool)@[s@.page as int].len()
                &&& can_take_ref(
                    old(pool)@[s@.page as int][s@.idx as int],
                )
                &&& cursor_le(
                    old(self)@,
                    (s@.page as int, s@.idx as int),
                )
                &&& no_live_between(
                    old(pool)@,
                    old(self)@,
                    (s@.page as int, s@.idx as int),
                )
                &&& recounted_at(
                    old(pool)@,
                    final(pool)@,
                    RefView { page: s@.page, idx: s@.idx },
                    1,
                )
                &&& final(self)@ == (s@.page as int, s@.idx as int + 1)
            },
            r is None ==> {
                &&& final(pool)@ == old(pool)@
                &&& no_live_between(
                    old(pool)@,
                    old(self)@,
                    (old(pool)@.len() as int, 0int),
                )
            },
    {
        let n = pool.page_count();
        while self.page < n
            invariant
                pool.wf(),
                pool@ == old(pool)@,
                pool.spec_page_len() == old(pool).spec_page_len(),
                n == pool@.len(),
                cursor_le(old(self)@, self@),
                no_live_between(old(pool)@, old(self)@, self@),
            decreases n - self.page, pool@[self.page as int].len() - self.idx,
        {
            let cap = pool.page_cap(self.page);
            if self.idx >= cap {
                proof {
                    let cur = self@;
                    let to = ((self.page + 1) as int, 0int);
                    assert forall|p: int, i: int|
                        0 <= p < pool@.len() && 0 <= i < pool@[p].len()
                            && cursor_le(old(self)@, (p, i))
                            && cursor_lt(
                            (p, i),
                            to,
                        ) implies !can_take_ref(
                        #[trigger] pool@[p][i],
                    ) by {
                        if cursor_lt((p, i), cur) {
                        } else {
                            assert(p == self.page as int && i >= self.idx);
                            assert(i < cap);
                            assert(false);
                        }
                    }
                }
                self.page = self.page + 1;
                self.idx = 0;
            } else if pool.occupied_at(self.page, self.idx) && pool.count_at(
                self.page,
                self.idx,
            ) < u32::MAX {
                let p = self.page;
                let i = self.idx;
                pool.incr_at(p, i);
                self.idx = i + 1;
                return Some(StrongRef::make(p, i));
            } else {
                proof {
                    let cur = self@;
                    let to = (self.page as int, self.idx as int + 1);
                    assert forall|p: int, i: int|
                        0 <= p < pool@.len() && 0 <= i < pool@[p].len()
                            && cursor_le(old(self)@, (p, i))
                            && cursor_lt(
                            (p, i),
                            to,
                        ) implies !can_take_ref(
                        #[trigger] pool@[p][i],
                    ) by {
                        if cursor_lt((p, i), cur) {
                        } else {
                            assert(p == self.page as int && i == self.idx as int);
                        }
                    }
                }
                self.idx = self.idx + 1;
            }
        }
        proof {
            assert forall|p: int, i: int|
                0 <= p < pool@.len() && 0 <= i < pool@[p].len()
                    && cursor_le(old(self)@, (p, i))
                    && cursor_lt(
                    (p, i),
                    (pool@.len() as int, 0int),
                ) implies !can_take_ref(#[trigger] pool@[p][i]) by {
                assert(cursor_lt((p, i), self@));
            }
        }
        None
    }
}

} // verus!
