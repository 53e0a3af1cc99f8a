//! A fixed-identity, generational object pool.
//!
//! The pool hands out stable, counted handles — strong and weak references —
//! to values it owns, instead of memory addresses. Slots are recycled under
//! generation counters, so a stale weak handle can never be mistaken for a
//! live one, and storage grows page by page without moving existing values.

mod either;
mod pool_trait;
mod rc_pool;

pub use crate::either::Either;
pub use crate::pool_trait::Pool;
pub use crate::rc_pool::{
    addr_ok, can_take_ref, caps_sum, count_cloned, count_released, cursor_le, cursor_lt,
    freed_at, fresh_page, grown_insert, inserted_at, lemma_clone_then_release,
    lemma_exclusive_restores, lemma_generation_aba, lemma_growth_preserves,
    lemma_insert_preserves, lemma_manual_persistence, lemma_next_gen_moves, lemma_refcount_accounting,
    lemma_release_to_zero, lemma_remove_advances_generation, lemma_round_trip,
    lemma_round_trip_grown, locate, next_gen, no_live_between, occupied_count,
    page_has_space, pool_has_space, recounted_at, ref_step, slot_at, spec_next_gen, total_occupied,
    update_slot, valid_strong, weak_addr, weak_can_free, weak_is_valid, weak_upgradable, Page,
    PoolView, RcPool, RcPoolIterator, RefOp, RefView, Slot, SlotState, SlotView, StrongRef,
    WeakRef, WeakView,
};
