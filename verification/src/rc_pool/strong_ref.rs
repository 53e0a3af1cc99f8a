//! The counted handle to a stored value.

use vstd::prelude::*;
use crate::either::Either;
use crate::rc_pool::model::{
    freed_at, recounted_at, slot_at, update_slot, valid_strong, RefView, SlotView, WeakView,
};
use crate::rc_pool::pool::RcPool;
use crate::rc_pool::weak_ref::WeakRef;

verus! {

/// A strong reference: a counted handle to one occupied slot of a pool.
/// It names the slot by its page and slot coordinates; every operation on
/// it goes through the pool that issued it. While at least one strong
/// reference to a slot is outstanding, the slot's value stays reachable.
#[derive(Debug, PartialEq, Eq, Hash)]
pub struct StrongRef {
    page: usize,
    idx: usize,
}

impl View for StrongRef {
    type V = RefView;

    closed spec fn view(&self) -> RefView {
        RefView { page: self.page, idx: self.idx }
    }
}

impl StrongRef {
    pub(crate) fn make(page: usize, idx: usize) -> (r: StrongRef)
        ensures
            r@ == (RefView { page, idx }),
    {
        StrongRef { page, idx }
    }

    pub(crate) fn page_of(&self) -> (p: usize)
        ensures
            p == self@.page,
    {
        self.page
    }

    pub(crate) fn idx_of(&self) -> (i: usize)
        ensures
            i == self@.idx,
    {
        self.idx
    }

    /// A shared view of the referenced value.
    pub fn get<'a, T, const MANUAL_DROP: bool>(&self, pool: &'a RcPool<T, MANUAL_DROP>) -> (r:
        &'a T)
        requires
            pool.wf(),
            valid_strong(pool@, self@),
        ensures
            *r == slot_at(pool@, self@).value->0,
    {
        pool.value_at(self.page_of(), self.idx_of())
    }

    /// Captures a weak reference to the same slot, against the slot's
    /// current generation; the strong count is untouched.
    pub fn weak<T, const MANUAL_DROP: bool>(&self, pool: &RcPool<T, MANUAL_DROP>) -> (w: WeakRef)
        requires
            pool.wf(),
            valid_strong(pool@, self@),
        ensures
            w@ == (WeakView {
                page: self@.page,
                idx: self@.idx,
                gen: slot_at(pool@, self@).gen,
            }),
    {
        let g = pool.gen_at(self.page_of(), self.idx_of());
        WeakRef::make(self.page_of(), self.idx_of(), g)
    }

    /// The number of strong references outstanding against the slot.
    pub fn strong_count<T, const MANUAL_DROP: bool>(
        &self,
        pool: &RcPool<T, MANUAL_DROP>,
    ) -> (c: usize)
        requires
            pool.wf(),
            valid_strong(pool@, self@),
        ensures
            c == slot_at(pool@, self@).count as usize,
    {
        pool.count_at(self.page_of(), self.idx_of()) as usize
    }

    /// A second strong reference to the same value; the slot's count grows
    /// by one.
    pub fn clone_ref<T, const MANUAL_DROP: bool>(
        &self,
        pool: &mut RcPool<T, MANUAL_DROP>,
    ) -> (r: StrongRef)
        requires
            old(pool).wf(),
            valid_strong(old(pool)@, self@),
            slot_at(old(pool)@, self@).count < u32::MAX,
        ensures
            final(pool).wf(),
            final(pool).spec_page_len() == old(pool).spec_page_len(),
            r@ == self@,
            recounted_at(old(pool)@, final(pool)@, self@, 1),
    {
        pool.incr_at(self.page_of(), self.idx_of());
        StrongRef::make(self.page_of(), self.idx_of())
    }

    /// Gives the reference up: the slot's count drops by one. In automatic
    /// mode a count that reaches zero reclaims the slot on the spot — the
    /// value is dropped and the generation advances; in manual mode the
    /// value stays until an explicit removal call.
    pub fn release<T, const MANUAL_DROP: bool>(self, pool: &mut RcPool<T, MANUAL_DROP>)
        requires
            old(pool).wf(),
            valid_strong(old(pool)@, self@),
        ensures
            final(pool).wf(),
            final(pool).spec_page_len() == old(pool).spec_page_len(),
            (!MANUAL_DROP && slot_at(old(pool)@, self@).count == 1) ==> freed_at(
                old(pool)@,
                final(pool)@,
                self@,
            ),
            (MANUAL_DROP || slot_at(old(pool)@, self@).count > 1) ==> recounted_at(
                old(pool)@,
                final(pool)@,
                self@,
                -1,
            ),
    {
        let p = self.page_of();
        let i = self.idx_of();
        pool.decr_at(p, i);
        if !MANUAL_DROP {
            if pool.count_at(p, i) == 0 {
                let _ = pool.take_at(p, i);
                proof {
                    assert(pool@ =~~= update_slot(
                        old(pool)@,
                        self@,
                        SlotView {
                            value: None,
                            gen: crate::rc_pool::model::spec_next_gen(
                                slot_at(old(pool)@, self@).gen,
                            ),
                            count: 0,
                        },
                    ));
                }
            }
        }
    }

    /// An exclusive view of the referenced value, for a reference known to
    /// be the only one. Exclusivity is then a fact of the borrow: while
    /// the result lives, the pool — and so every other handle — is
    /// inaccessible.
    pub fn get_mut<'a, T, const MANUAL_DROP: bool>(
        &self,
        pool: &'a mut RcPool<T, MANUAL_DROP>,
    ) -> (m: &'a mut T)
        requires
            old(pool).wf(),
            valid_strong(old(pool)@, self@),
            slot_at(old(pool)@, self@).count == 1,
        ensures
            *m == slot_at(old(pool)@, self@).value->0,
            final(pool)@ == update_slot(
                old(pool)@,
                self@,
                SlotView {
                    value: Some(*final(m)),
                    gen: slot_at(old(pool)@, self@).gen,
                    count: 1,
                },
            ),
            final(pool).wf(),
            final(pool).spec_page_len() == old(pool).spec_page_len(),
    {
        pool.value_at_mut(self.page_of(), self.idx_of())
    }

    /// Same as `get_mut`.
    pub fn borrow_mut<'a, T, const MANUAL_DROP: bool>(
        &self,
        pool: &'a mut RcPool<T, MANUAL_DROP>,
    ) -> (m: &'a mut T)
        requires
            old(pool).wf(),
            valid_strong(old(pool)@, self@),
            slot_at(old(pool)@, self@).count == 1,
        ensures
            *m == slot_at(old(pool)@, self@).value->0,
            final(pool)@ == update_slot(
                old(pool)@,
                self@,
                SlotView {
                    value: Some(*final(m)),
                    gen: slot_at(old(pool)@, self@).gen,
                    count: 1,
                },
            ),
            final(pool).wf(),
            final(pool).spec_page_len() == old(pool).spec_page_len(),
    {
        pool.value_at_mut(self.page_of(), self.idx_of())
    }

    /// An exclusive view of the referenced value, checked at run time:
    /// succeeds exactly when this reference is the only one.
    pub fn try_get_mut<'a, T, const MANUAL_DROP: bool>(
        &self,
        pool: &'a mut RcPool<T, MANUAL_DROP>,
    ) -> (m: Option<&'a mut T>)
        requires
            old(pool).wf(),
            valid_strong(old(pool)@, self@),
        ensures
            (m is Some) == (slot_at(old(pool)@, self@).count == 1),
            m is Some ==> *m.unwrap() == slot_at(old(pool)@, self@).value->0 && final(pool)@
                == update_slot(
                old(pool)@,
                self@,
                SlotView {
                    value: Some(*final(m.unwrap())),
                    gen: slot_at(old(pool)@, self@).gen,
                    count: 1,
                },
            ),
            m is None ==> final(pool)@ == old(pool)@,
            final(pool).wf(),
            final(pool).spec_page_len() == old(pool).spec_page_len(),
    {
        if pool.count_at(self.page_of(), self.idx_of()) == 1 {
            Some(pool.value_at_mut(self.page_of(), self.idx_of()))
        } else {
            None
        }
    }

    /// Same as `try_get_mut`.
    pub fn try_borrow_mut<'a, T, const MANUAL_DROP: bool>(
        &self,
        pool: &'a mut RcPool<T, MANUAL_DROP>,
    ) -> (m: Option<&'a mut T>)
        requires
            old(pool).wf(),
            valid_strong(old(pool)@, self@),
        ensures
            (m is Some) == (slot_at(old(pool)@, self@).count == 1),
            m is Some ==> *m.unwrap() == slot_at(old(pool)@, self@).value->0 && final(pool)@
                == update_slot(
                old(pool)@,
                self@,
                SlotView {
                    value: Some(*final(m.unwrap())),
                    gen: slot_at(old(pool)@, self@).gen,
                    count: 1,
                },
            ),
            m is None ==> final(pool)@ == old(pool)@,
            final(pool).wf(),
            final(pool).spec_page_len() == old(pool).spec_page_len(),
    {
        self.try_get_mut(pool)
    }

    /// Consumes the last strong reference and moves the value out; the
    /// slot is freed and its generation advances.
    pub fn take_item<T, const MANUAL_DROP: bool>(self, pool: &mut RcPool<T, MANUAL_DROP>) -> (v:
        T)
        requires
            old(pool).wf(),
            valid_strong(old(pool)@, self@),
            slot_at(old(pool)@, self@).count == 1,
        ensures
            final(pool).wf(),
            final(pool).spec_page_len() == old(pool).spec_page_len(),
            v == slot_at(old(pool)@, self@).value->0,
            freed_at(old(pool)@, final(pool)@, self@),
    {
        let p = self.page_of();
        let i = self.idx_of();
        pool.decr_at(p, i);
        let v = pool.take_at(p, i);
        proof {
            assert(pool@ =~~= update_slot(
                old(pool)@,
                self@,
                SlotView {
                    value: None,
                    gen: crate::rc_pool::model::spec_next_gen(slot_at(old(pool)@, self@).gen),
                    count: 0,
                },
            ));
        }
        v
    }

    /// Moves the value out when this is the only strong reference; hands
    /// the reference back otherwise.
    pub fn try_take_item<T, const MANUAL_DROP: bool>(
        self,
        pool: &mut RcPool<T, MANUAL_DROP>,
    ) -> (r: Either<T, StrongRef>)
        requires
            old(pool).wf(),
            valid_strong(old(pool)@, self@),
        ensures
            final(pool).wf(),
            final(pool).spec_page_len() == old(pool).spec_page_len(),
            (r is Left) == (slot_at(old(pool)@, self@).count == 1),
            r matches Either::Left(v) ==> v == slot_at(old(pool)@, self@).value->0 && freed_at(
                old(pool)@,
                final(pool)@,
                self@,
            ),
            r matches Either::Right(s) ==> s == self && final(pool)@ == old(pool)@,
    {
        if pool.count_at(self.page_of(), self.idx_of()) == 1 {
            Either::Left(self.take_item(pool))
        } else {
            Either::Right(self)
        }
    }

    /// Consumes the last strong reference and drops the value; the slot is
    /// freed and its generation advances.
    pub fn drop_item<T, const MANUAL_DROP: bool>(self, pool: &mut RcPool<T, MANUAL_DROP>)
        requires
            old(pool).wf(),
            valid_strong(old(pool)@, self@),
            slot_at(old(pool)@, self@).count == 1,
        ensures
            final(pool).wf(),
            final(pool).spec_page_len() == old(pool).spec_page_len(),
            freed_at(old(pool)@, final(pool)@, self@),
    {
        let _ = self.take_item(pool);
    }

    /// Drops the value when this is the only strong reference; hands the
    /// reference back otherwise.
    pub fn try_drop_item<T, const MANUAL_DROP: bool>(
        self,
        pool: &mut RcPool<T, MANUAL_DROP>,
    ) -> (r: Option<StrongRef>)
        requires
            old(pool).wf(),
            valid_strong(old(pool)@, self@),
        ensures
            final(pool).wf(),
            final(pool).spec_page_len() == old(pool).spec_page_len(),
            (r is None) == (slot_at(old(pool)@, self@).count == 1),
            r is None ==> freed_at(old(pool)@, final(pool)@, self@),
            r matches Some(s) ==> s == self && final(pool)@ == old(pool)@,
    {
        match self.try_take_item(pool) {
            Either::Left(_) => None,
            Either::Right(s) => Some(s),
        }
    }
}

} // verus!
