//! The pool storage engine: pages of generation-tagged slots, and the
//! strong/weak reference protocol over them.

mod laws;
mod model;
mod page;
mod pool;
mod slot;
mod strong_ref;
mod weak_ref;

pub use crate::rc_pool::model::{
    addr_ok, can_take_ref, cursor_le, cursor_lt, caps_sum, freed_at, fresh_page, grown_insert, inserted_at, locate, no_live_between,
    occupied_count, page_has_space, pool_has_space, recounted_at, slot_at, spec_next_gen,
    total_occupied, update_slot, valid_strong, weak_addr, weak_can_free, weak_is_valid,
    weak_upgradable, PoolView, RefView, SlotView, WeakView,
};
pub use crate::rc_pool::laws::{
    count_cloned, count_released, lemma_clone_then_release, lemma_exclusive_restores,
    lemma_generation_aba, lemma_growth_preserves, lemma_insert_preserves, lemma_manual_persistence,
    lemma_next_gen_moves, lemma_refcount_accounting, lemma_release_to_zero, lemma_round_trip,
    lemma_round_trip_grown, lemma_remove_advances_generation, ref_step, RefOp,
};
pub use crate::rc_pool::page::Page;
pub use crate::rc_pool::pool::{RcPool, RcPoolIterator};
pub use crate::rc_pool::slot::{next_gen, Slot, SlotState};
pub use crate::rc_pool::strong_ref::StrongRef;
pub use crate::rc_pool::weak_ref::WeakRef;
