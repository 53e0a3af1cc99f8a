//! The insertion interface a pool offers.

use vstd::prelude::*;
use crate::rc_pool::{caps_sum, RcPool, StrongRef};

verus! {

/// Anything that stores values and hands out a reference per insertion.
pub trait Pool: Sized {
    type Item;

    type Ref;

    /// The implementor's internal invariant.
    spec fn pool_inv(&self) -> bool;

    /// When an insertion may be asked for.
    spec fn may_insert(&self) -> bool;

    /// Stores a value and hands out a reference to it.
    fn insert(&mut self, value: Self::Item) -> (r: Self::Ref)
        requires
            old(self).pool_inv(),
            old(self).may_insert(),
        ensures
            final(self).pool_inv(),
    ;
}

impl<T, const MANUAL_DROP: bool> Pool for RcPool<T, MANUAL_DROP> {
    type Item = T;

    type Ref = StrongRef;

    open spec fn pool_inv(&self) -> bool {
        self.wf()
    }

    open spec fn may_insert(&self) -> bool {
        caps_sum(self@) + self.spec_page_len() <= usize::MAX
    }

    fn insert(&mut self, value: T) -> (r: StrongRef) {
        self.insert(value)
    }
}

} // verus!
