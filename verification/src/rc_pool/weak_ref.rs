//! The uncounted, generation-checked handle to a slot.

use vstd::prelude::*;
use crate::rc_pool::model::{
    freed_at, recounted_at, slot_at, weak_addr, weak_can_free, weak_is_valid, weak_upgradable,
    WeakView,
};
use crate::rc_pool::pool::RcPool;
use crate::rc_pool::strong_ref::StrongRef;

verus! {

/// A weak reference: slot coordinates plus the generation the handle was
/// captured against. It never keeps a value alive; before every use it is
/// re-checked against the slot's current generation, so a handle to a
/// removed value reports invalid even if the slot has been reused since.
#[derive(Debug, Clone, Copy, PartialEq, Eq, Hash)]
pub struct WeakRef {
    page: usize,
    idx: usize,
    gen: u64,
}

impl View for WeakRef {
    type V = WeakView;

    closed spec fn view(&self) -> WeakView {
        WeakView { page: self.page, idx: self.idx, gen: self.gen }
    }
}

impl WeakRef {
    pub(crate) fn make(page: usize, idx: usize, gen: u64) -> (w: WeakRef)
        ensures
            w@ == (WeakView { page, idx, gen }),
    {
        WeakRef { page, idx, gen }
    }

    pub(crate) fn page_of(&self) -> (p: usize)
        ensures
            p == self@.page,
    {
        self.page
    }

    pub(crate) fn idx_of(&self) -> (i: usize)
        ensures
            i == self@.idx,
    {
        self.idx
    }

    pub(crate) fn gen_of(&self) -> (g: u64)
        ensures
            g == self@.gen,
    {
        self.gen
    }

    /// Whether the handle is still good: the slot holds a value under the
    /// very generation the handle was captured against.
    pub fn is_valid<T, const MANUAL_DROP: bool>(&self, pool: &RcPool<T, MANUAL_DROP>) -> (b:
        bool)
        requires
            pool.wf(),
        ensures
            b == weak_is_valid(pool@, self@),
    {
        let p = self.page_of();
        let i = self.idx_of();
        pool.addr_in_bounds(p, i) && pool.occupied_at(p, i) && pool.gen_at(p, i) == self.gen_of()
    }

    /// Reconstitutes a strong reference, when the handle is still valid
    /// and the slot's count has room; the count grows by one.
    pub fn strong<T, const MANUAL_DROP: bool>(&self, pool: &mut RcPool<T, MANUAL_DROP>) -> (r:
        Option<StrongRef>)
        requires
            old(pool).wf(),
        ensures
            final(pool).wf(),
            final(pool).spec_page_len() == old(pool).spec_page_len(),
            (r is Some) == weak_upgradable(old(pool)@, self@),
            r matches Some(s) ==> s@ == weak_addr(self@) && recounted_at(
                old(pool)@,
                final(pool)@,
                weak_addr(self@),
                1,
            ),
            r is None ==> final(pool)@ == old(pool)@,
    {
        let p = self.page_of();
        let i = self.idx_of();
        if pool.addr_in_bounds(p, i) {
            if pool.occupied_at(p, i) && pool.gen_at(p, i) == self.gen_of() && pool.count_at(
                p,
                i,
            ) < u32::MAX {
                pool.incr_at(p, i);
                return Some(StrongRef::make(p, i));
            }
        }
        None
    }

    /// Moves the value out, when the handle is valid and no strong
    /// reference is outstanding; the slot is freed and its generation
    /// advances.
    pub fn try_take_item<T, const MANUAL_DROP: bool>(
        &self,
        pool: &mut RcPool<T, MANUAL_DROP>,
    ) -> (r: Option<T>)
        requires
            old(pool).wf(),
        ensures
            final(pool).wf(),
            final(pool).spec_page_len() == old(pool).spec_page_len(),
            (r is Some) == weak_can_free(old(pool)@, self@),
            r matches Some(v) ==> v == slot_at(old(pool)@, weak_addr(self@)).value->0 && freed_at(
                old(pool)@,
                final(pool)@,
                weak_addr(self@),
            ),
            r is None ==> final(pool)@ == old(pool)@,
    {
        let p = self.page_of();
        let i = self.idx_of();
        if pool.addr_in_bounds(p, i) {
            if pool.occupied_at(p, i) && pool.gen_at(p, i) == self.gen_of() && pool.count_at(
                p,
                i,
            ) == 0 {
                return Some(pool.take_at(p, i));
            }
        }
        None
    }

    /// Moves the value out of a handle known to be valid with no strong
    /// reference outstanding.
    pub fn take_item<T, const MANUAL_DROP: bool>(&self, pool: &mut RcPool<T, MANUAL_DROP>) -> (v:
        T)
        requires
            old(pool).wf(),
            weak_can_free(old(pool)@, self@),
        ensures
            final(pool).wf(),
            final(pool).spec_page_len() == old(pool).spec_page_len(),
            v == slot_at(old(pool)@, weak_addr(self@)).value->0,
            freed_at(old(pool)@, final(pool)@, weak_addr(self@)),
    {
        pool.take_at(self.page_of(), self.idx_of())
    }

    /// Drops the value, when the handle is valid and no strong reference
    /// is outstanding; reports whether it did.
    pub fn try_drop_item<T, const MANUAL_DROP: bool>(
        &self,
        pool: &mut RcPool<T, MANUAL_DROP>,
    ) -> (b: bool)
        requires
            old(pool).wf(),
        ensures
            final(pool).wf(),
            final(pool).spec_page_len() == old(pool).spec_page_len(),
            b == weak_can_free(old(pool)@, self@),
            b ==> freed_at(old(pool)@, final(pool)@, weak_addr(self@)),
            !b ==> final(pool)@ == old(pool)@,
    {
        match self.try_take_item(pool) {
            Some(_) => true,
            None => false,
        }
    }

    /// Drops the value of a handle known to be valid with no strong
    /// reference outstanding.
    pub fn drop_item<T, const MANUAL_DROP: bool>(&self, pool: &mut RcPool<T, MANUAL_DROP>)
        requires
            old(pool).wf(),
            weak_can_free(old(pool)@, self@),
        ensures
            final(pool).wf(),
            final(pool).spec_page_len() == old(pool).spec_page_len(),
            freed_at(old(pool)@, final(pool)@, weak_addr(self@)),
    {
        let _ = self.take_item(pool);
    }
}

} // verus!
