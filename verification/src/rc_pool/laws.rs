//! The guarantees the pool gives its callers, stated and proved over the
//! same model predicates that the operations' contracts use.

use vstd::prelude::*;
use crate::rc_pool::model::{
    addr_ok, can_take_ref, caps_sum, freed_at, fresh_page, grown_insert, inserted_at,
    lemma_caps_sum_push, lemma_caps_sum_update_slot, lemma_free_means_space, page_has_space,
    pool_has_space, recounted_at, slot_at, spec_next_gen, update_slot, valid_strong, weak_addr,
    weak_is_valid, weak_upgradable, PoolView, RefView, SlotView, WeakView,
};

verus! {

/// One step of reference bookkeeping on a slot.
pub enum RefOp {
    Cloned,
    Released,
}

/// One step of bookkeeping as the contracts state it: a clone adds one to
/// the slot's count, a release removes one.
pub open spec fn ref_step<T>(v0: PoolView<T>, v1: PoolView<T>, a: RefView, op: RefOp) -> bool {
    recounted_at(
        v0,
        v1,
        a,
        if op is Cloned {
            1int
        } else {
            -1int
        },
    )
}

/// How many of the steps are clones.
pub open spec fn count_cloned(ops: Seq<RefOp>) -> int
    decreases ops.len(),
{
    if ops.len() == 0 {
        0
    } else {
        count_cloned(ops.drop_last()) + if ops.last() is Cloned {
            1int
        } else {
            0int
        }
    }
}

/// How many of the steps are releases.
pub open spec fn count_released(ops: Seq<RefOp>) -> int
    decreases ops.len(),
{
    if ops.len() == 0 {
        0
    } else {
        count_released(ops.drop_last()) + if ops.last() is Released {
            1int
        } else {
            0int
        }
    }
}

/// Refcount accounting: across any sequence of clone and release steps on
/// one slot — each step being exactly what `clone_ref` and `release`
/// promise — the slot's count moves by the net number of outstanding
/// clones, while its value and generation stay untouched.
pub proof fn lemma_refcount_accounting<T>(states: Seq<PoolView<T>>, ops: Seq<RefOp>, a: RefView)
    requires
        states.len() == ops.len() + 1,
        forall|i: int|
            0 <= i < ops.len() ==> ref_step(#[trigger] states[i], states[i + 1], a, ops[i]),
    ensures
        slot_at(states.last(), a).count == slot_at(states[0], a).count + count_cloned(ops)
            - count_released(ops),
        slot_at(states.last(), a).value == slot_at(states[0], a).value,
        slot_at(states.last(), a).gen == slot_at(states[0], a).gen,
    decreases ops.len(),
{
    if ops.len() > 0 {
        assert forall|i: int|
            0 <= i < ops.drop_last().len() implies ref_step(
                #[trigger] states.drop_last()[i],
                states.drop_last()[i + 1],
                a,
                ops.drop_last()[i],
            ) by {}
        lemma_refcount_accounting(states.drop_last(), ops.drop_last(), a);
        assert(ref_step(
            states[states.len() - 2],
            states[states.len() - 1],
            a,
            ops[ops.len() - 1],
        ));
    }
}

/// A clone followed by a release leaves the pool exactly as it was.
pub proof fn lemma_clone_then_release<T>(
    v0: PoolView<T>,
    v1: PoolView<T>,
    v2: PoolView<T>,
    a: RefView,
)
    requires
        recounted_at(v0, v1, a, 1),
        recounted_at(v1, v2, a, -1),
    ensures
        v2 == v0,
{
    assert(v2 =~~= v0);
}

/// Round trip: the slot an insertion filled holds exactly the inserted
/// value, with one strong reference against it, so dereferencing the
/// returned reference reads that value back.
pub proof fn lemma_round_trip<T>(v0: PoolView<T>, v1: PoolView<T>, a: RefView, x: T)
    requires
        inserted_at(v0, v1, a, x),
    ensures
        valid_strong(v1, a),
        slot_at(v1, a).value == Some(x),
        slot_at(v1, a).count == 1,
{
}

/// Round trip after growth: the same, when the insertion had to add a
/// page first.
pub proof fn lemma_round_trip_grown<T>(v0: PoolView<T>, v1: PoolView<T>, a: RefView, x: T, n: nat)
    requires
        grown_insert(v0, v1, a, x, n),
    ensures
        valid_strong(v1, a),
        slot_at(v1, a).value == Some(x),
        slot_at(v1, a).count == 1,
{
}

/// The generation counter moves on every transition, and does not return
/// to its old value across a free-and-reuse cycle.
pub proof fn lemma_next_gen_moves(g: u64)
    ensures
        spec_next_gen(g) != g,
        spec_next_gen(spec_next_gen(g)) != g,
{
}

/// An insertion touches nothing but the slot it fills: every other slot —
/// and so every value already stored — keeps its value, generation and
/// count.
pub proof fn lemma_insert_preserves<T>(v0: PoolView<T>, v1: PoolView<T>, a: RefView, x: T)
    requires
        inserted_at(v0, v1, a, x),
    ensures
        v1.len() == v0.len(),
        caps_sum(v1) == caps_sum(v0),
        forall|b: RefView|
            #[trigger] addr_ok(v0, b) && b != a ==> slot_at(v1, b)
                == slot_at(v0, b),
        forall|w: WeakView|
            weak_addr(w) != a && weak_is_valid(v0, w) ==> #[trigger] weak_is_valid(v1, w),
{
    lemma_caps_sum_update_slot(
        v0,
        a,
        SlotView { value: Some(x), gen: spec_next_gen(slot_at(v0, a).gen), count: 1 },
    );
}

/// Generation safety: a weak handle captured against a value, once that
/// value has been fully removed, reports invalid even after the slot has
/// been reused for a new value — it can never be upgraded into a handle
/// to the newcomer.
pub proof fn lemma_generation_aba<T>(
    v0: PoolView<T>,
    v1: PoolView<T>,
    v2: PoolView<T>,
    a: RefView,
    x: T,
    w: WeakView,
)
    requires
        weak_addr(w) == a,
        w.gen == slot_at(v0, a).gen,
        freed_at(v0, v1, a),
        inserted_at(v1, v2, a, x),
    ensures
        slot_at(v2, a).value == Some(x),
        !weak_is_valid(v2, w),
        !weak_upgradable(v2, w),
{
    lemma_next_gen_moves(slot_at(v0, a).gen);
}

/// When the last strong reference goes in automatic mode the slot is
/// freed: it holds no value, and any weak handle captured against the old
/// generation reports invalid and cannot be upgraded.
pub proof fn lemma_release_to_zero<T>(v0: PoolView<T>, v1: PoolView<T>, a: RefView, w: WeakView)
    requires
        freed_at(v0, v1, a),
        weak_addr(w) == a,
        w.gen == slot_at(v0, a).gen,
    ensures
        slot_at(v1, a).is_free(),
        slot_at(v1, a).count == 0,
        !can_take_ref(slot_at(v1, a)),
        !weak_is_valid(v1, w),
        !weak_upgradable(v1, w),
        pool_has_space(v1),
        caps_sum(v1) == caps_sum(v0),
{
    lemma_next_gen_moves(slot_at(v0, a).gen);
    lemma_freed_gives_space(v0, v1, a);
    lemma_caps_sum_update_slot(
        v0,
        a,
        SlotView { value: None, gen: spec_next_gen(slot_at(v0, a).gen), count: 0 },
    );
}

/// Exclusivity: however the value was rewritten through an exclusive
/// view, the slot afterwards holds exactly one strong reference — the one
/// the view was taken from — under an unchanged generation, so earlier
/// weak handles stay valid and cloning resumes.
pub proof fn lemma_exclusive_restores<T>(v0: PoolView<T>, v1: PoolView<T>, a: RefView, y: T)
    requires
        valid_strong(v0, a),
        slot_at(v0, a).count == 1,
        v1 == update_slot(
            v0,
            a,
            SlotView { value: Some(y), gen: slot_at(v0, a).gen, count: 1 },
        ),
    ensures
        valid_strong(v1, a),
        slot_at(v1, a).count == 1,
        can_take_ref(slot_at(v1, a)),
        forall|w: WeakView| weak_addr(w) == a && weak_is_valid(v0, w) ==> weak_is_valid(v1, w),
{
}

/// Growth: when the pool grows it grows by exactly one page of the
/// configured size, and every slot that existed before — and so every
/// value already stored — is untouched and stays retrievable where it
/// was.
pub proof fn lemma_growth_preserves<T>(v0: PoolView<T>, v1: PoolView<T>, a: RefView, x: T, n: nat)
    requires
        grown_insert(v0, v1, a, x, n),
    ensures
        v1.len() == v0.len() + 1,
        forall|p: int| 0 <= p < v0.len() ==> v1[p] == v0[p],
        caps_sum(v1) == caps_sum(v0) + n,
        forall|b: RefView| #[trigger] addr_ok(v0, b) ==> slot_at(v1, b)
            == slot_at(v0, b),
{
    lemma_caps_sum_push(
        v0,
        fresh_page::<T>(n).update(a.idx as int, SlotView { value: Some(x), gen: 1, count: 1 }),
    );
}

/// Manual-mode persistence: a count change alone — which is all that
/// releasing a strong reference does in manual mode — never touches the
/// stored value or the generation: the slot stays occupied and every weak
/// handle against it stays valid.
pub proof fn lemma_manual_persistence<T>(v0: PoolView<T>, v1: PoolView<T>, a: RefView, delta: int)
    requires
        recounted_at(v0, v1, a, delta),
        slot_at(v0, a).is_occupied(),
    ensures
        slot_at(v1, a).value == slot_at(v0, a).value,
        slot_at(v1, a).gen == slot_at(v0, a).gen,
        slot_at(v1, a).is_occupied(),
        delta < 0 ==> can_take_ref(slot_at(v1, a)),
        caps_sum(v1) == caps_sum(v0),
        forall|w: WeakView| weak_addr(w) == a && weak_is_valid(v0, w) ==> weak_is_valid(v1, w),
        forall|b: RefView|
            #[trigger] addr_ok(v0, b) && b != a ==> slot_at(v1, b)
                == slot_at(v0, b),
{
    lemma_caps_sum_update_slot(
        v0,
        a,
        SlotView {
            value: slot_at(v0, a).value,
            gen: slot_at(v0, a).gen,
            count: (slot_at(v0, a).count + delta) as u32,
        },
    );
}

/// An explicit removal frees the slot and advances its generation, so the
/// slot no longer shows up as occupied anywhere.
pub proof fn lemma_remove_advances_generation<T>(v0: PoolView<T>, v1: PoolView<T>, a: RefView)
    requires
        freed_at(v0, v1, a),
    ensures
        slot_at(v1, a).is_free(),
        slot_at(v1, a).gen == spec_next_gen(slot_at(v0, a).gen),
        slot_at(v1, a).gen != slot_at(v0, a).gen,
        !can_take_ref(slot_at(v1, a)),
        pool_has_space(v1),
        caps_sum(v1) == caps_sum(v0),
        forall|b: RefView|
            #[trigger] addr_ok(v0, b) && b != a ==> slot_at(v1, b)
                == slot_at(v0, b),
{
    lemma_next_gen_moves(slot_at(v0, a).gen);
    lemma_freed_gives_space(v0, v1, a);
    lemma_caps_sum_update_slot(
        v0,
        a,
        SlotView { value: None, gen: spec_next_gen(slot_at(v0, a).gen), count: 0 },
    );
}

/// A pool that just freed a slot has room again.
proof fn lemma_freed_gives_space<T>(v0: PoolView<T>, v1: PoolView<T>, a: RefView)
    requires
        freed_at(v0, v1, a),
    ensures
        pool_has_space(v1),
{
    lemma_free_means_space(v1[a.page as int], a.idx as int);
    assert(page_has_space(v1[a.page as int]));
}

} // verus!
