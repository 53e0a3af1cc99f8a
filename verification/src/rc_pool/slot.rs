//! One storage cell of a page.

use vstd::prelude::*;
use crate::rc_pool::model::{spec_next_gen, SlotView};

verus! {

/// A slot is either free — then it carries the page-local index of the next
/// free slot, forming the page's intrusive free list — or occupied, holding
/// one value.
pub enum SlotState<T> {
    Free { next_free: Option<usize> },
    Occupied { value: T },
}

/// One storage cell: an empty-or-occupied value, a generation counter that
/// advances on every free/occupied transition, and the number of strong
/// references outstanding against the stored value.
pub struct Slot<T> {
    pub state: SlotState<T>,
    pub generation: u64,
    pub count: u32,
}

impl<T> View for Slot<T> {
    type V = SlotView<T>;

    open spec fn view(&self) -> SlotView<T> {
        SlotView {
            value: match self.state {
                SlotState::Free { .. } => None,
                SlotState::Occupied { value } => Some(value),
            },
            gen: self.generation,
            count: self.count,
        }
    }
}

impl<T> Default for Slot<T> {
    /// A fresh slot: free, unlinked, with the generation at its start.
    fn default() -> (s: Slot<T>)
        ensures
            s@ == (SlotView::<T> { value: None, gen: 0, count: 0 }),
    {
        Slot { state: SlotState::Free { next_free: None }, generation: 0, count: 0 }
    }
}

/// The generation counter after one free/occupied transition.
pub fn next_gen(g: u64) -> (r: u64)
    ensures
        r == spec_next_gen(g),
{
    if g == u64::MAX {
        0
    } else {
        g + 1
    }
}

impl<T> Slot<T> {
    /// Whether the slot currently holds no value.
    pub fn is_free(&self) -> (r: bool)
        ensures
            r == self@.is_free(),
    {
        match &self.state {
            SlotState::Free { .. } => true,
            SlotState::Occupied { .. } => false,
        }
    }

    /// A shared view of the stored value.
    pub fn value_ref(&self) -> (r: &T)
        requires
            self@.is_occupied(),
        ensures
            *r == self@.value->0,
    {
        match &self.state {
            SlotState::Occupied { value } => value,
            SlotState::Free { .. } => vstd::pervasive::unreached(),
        }
    }

    /// An exclusive view of the stored value; everything else about the slot
    /// stays as it was.
    pub fn value_mut(&mut self) -> (m: &mut T)
        requires
            old(self)@.is_occupied(),
        ensures
            *m == old(self)@.value->0,
            final(self)@ == (SlotView { value: Some(*final(m)), ..old(self)@ }),
    {
        match &mut self.state {
            SlotState::Occupied { value } => value,
            SlotState::Free { .. } => vstd::pervasive::unreached(),
        }
    }
}

} // verus!
