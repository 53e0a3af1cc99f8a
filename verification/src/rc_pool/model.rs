//! The mathematical model of the pool: what a slot, a page and the whole
//! pool look like from outside, and the transitions the operations perform.

use vstd::prelude::*;

verus! {

/// Abstract state of one slot: the stored value (if any), the generation
/// counter, and the number of outstanding strong references.
pub struct SlotView<T> {
    pub value: Option<T>,
    pub gen: u64,
    pub count: u32,
}

/// The coordinates of a slot: which page, and which slot within that page.
pub struct RefView {
    pub page: usize,
    pub idx: usize,
}

/// What a weak reference remembers: slot coordinates plus the generation
/// the handle was captured against.
pub struct WeakView {
    pub page: usize,
    pub idx: usize,
    pub gen: u64,
}

/// The whole pool, as the pages' slots in page order.
pub type PoolView<T> = Seq<Seq<SlotView<T>>>;

impl<T> SlotView<T> {
    /// The slot holds no value.
    pub open spec fn is_free(self) -> bool {
        self.value is None
    }

    /// The slot holds a value.
    pub open spec fn is_occupied(self) -> bool {
        self.value is Some
    }
}

/// The generation counter after one free/occupied transition: it advances
/// by one, wrapping only at the very end of the 64-bit range.
pub open spec fn spec_next_gen(g: u64) -> u64 {
    if g == u64::MAX {
        0
    } else {
        (g + 1) as u64
    }
}

/// How many slots of a page hold a value.
pub open spec fn occupied_count<T>(s: Seq<SlotView<T>>) -> int
    decreases s.len(),
{
    if s.len() == 0 {
        0
    } else {
        occupied_count(s.drop_last()) + if s.last().is_occupied() {
            1int
        } else {
            0int
        }
    }
}

/// A page with at least one free slot.
pub open spec fn page_has_space<T>(s: Seq<SlotView<T>>) -> bool {
    occupied_count(s) < s.len()
}

/// Some page of the pool has a free slot.
pub open spec fn pool_has_space<T>(v: PoolView<T>) -> bool {
    exists|p: int| 0 <= p < v.len() && page_has_space(v[p])
}

/// The coordinates point inside the pool.
pub open spec fn addr_ok<T>(v: PoolView<T>, a: RefView) -> bool {
    a.page < v.len() && a.idx < v[a.page as int].len()
}

/// The slot at the given coordinates.
pub open spec fn slot_at<T>(v: PoolView<T>, a: RefView) -> SlotView<T> {
    v[a.page as int][a.idx as int]
}

/// The pool with one slot replaced.
pub open spec fn update_slot<T>(v: PoolView<T>, a: RefView, s: SlotView<T>) -> PoolView<T> {
    v.update(a.page as int, v[a.page as int].update(a.idx as int, s))
}

/// A strong reference is good for this pool state: it points at an occupied
/// slot that has at least one outstanding strong reference.
pub open spec fn valid_strong<T>(v: PoolView<T>, a: RefView) -> bool {
    &&& addr_ok(v, a)
    &&& slot_at(v, a).is_occupied()
    &&& slot_at(v, a).count >= 1
}

/// Total number of slots of the pool.
pub open spec fn caps_sum<T>(v: PoolView<T>) -> int
    decreases v.len(),
{
    if v.len() == 0 {
        0
    } else {
        caps_sum(v.drop_last()) + v.last().len()
    }
}

/// Total number of occupied slots of the pool.
pub open spec fn total_occupied<T>(v: PoolView<T>) -> int
    decreases v.len(),
{
    if v.len() == 0 {
        0
    } else {
        total_occupied(v.drop_last()) + occupied_count(v.last())
    }
}

/// A page of `n` slots, all free, with every generation at its initial value.
pub open spec fn fresh_page<T>(n: nat) -> Seq<SlotView<T>> {
    Seq::new(n, |i: int| SlotView { value: None, gen: 0, count: 0 })
}

/// The slot a pool-wide linear index denotes: pages are laid end to end in
/// page order, oldest page first.
pub open spec fn locate<T>(v: PoolView<T>, i: int) -> Option<(int, int)>
    decreases v.len(),
{
    if v.len() == 0 || i < 0 {
        None
    } else if i < v[0].len() {
        Some((0int, i))
    } else {
        match locate(v.subrange(1, v.len() as int), i - v[0].len()) {
            Some(a) => Some((a.0 + 1, a.1)),
            None => None,
        }
    }
}

/// What `locate` finds is a real slot.
pub proof fn lemma_locate_ok<T>(v: PoolView<T>, i: int)
    ensures
        match locate(v, i) {
            Some(a) => 0 <= a.0 < v.len() && 0 <= a.1 < v[a.0].len(),
            None => true,
        },
    decreases v.len(),
{
    if v.len() == 0 || i < 0 {
    } else if i < v[0].len() {
    } else {
        lemma_locate_ok(v.subrange(1, v.len() as int), i - v[0].len());
    }
}

/// One value was written into a free, unreferenced slot: that slot now holds
/// the value with one strong reference and an advanced generation, and every
/// other slot is untouched.
pub open spec fn inserted_at<T>(v0: PoolView<T>, v1: PoolView<T>, a: RefView, x: T) -> bool {
    &&& addr_ok(v0, a)
    &&& slot_at(v0, a).is_free()
    &&& slot_at(v0, a).count == 0
    &&& v1 == update_slot(
        v0,
        a,
        SlotView { value: Some(x), gen: spec_next_gen(slot_at(v0, a).gen), count: 1 },
    )
}

/// The pool grew by exactly one fresh page of `n` slots and the value went
/// into that page's first slot; every pre-existing slot is untouched.
pub open spec fn grown_insert<T>(v0: PoolView<T>, v1: PoolView<T>, a: RefView, x: T, n: nat) -> bool {
    &&& a.page == v0.len()
    &&& a.idx < n
    &&& v1 == v0.push(
        fresh_page::<T>(n).update(a.idx as int, SlotView { value: Some(x), gen: 1, count: 1 }),
    )
}

/// An occupied slot was emptied: its value is gone, its generation advanced,
/// its count is zero, and every other slot is untouched.
pub open spec fn freed_at<T>(v0: PoolView<T>, v1: PoolView<T>, a: RefView) -> bool {
    &&& addr_ok(v0, a)
    &&& slot_at(v0, a).is_occupied()
    &&& v1 == update_slot(
        v0,
        a,
        SlotView { value: None, gen: spec_next_gen(slot_at(v0, a).gen), count: 0 },
    )
}

/// The strong-reference count of one slot changed by the given amount, and
/// everything else is untouched.
pub open spec fn recounted_at<T>(v0: PoolView<T>, v1: PoolView<T>, a: RefView, delta: int) -> bool {
    &&& addr_ok(v0, a)
    &&& 0 <= slot_at(v0, a).count + delta <= u32::MAX
    &&& v1 == update_slot(
        v0,
        a,
        SlotView {
            value: slot_at(v0, a).value,
            gen: slot_at(v0, a).gen,
            count: (slot_at(v0, a).count + delta) as u32,
        },
    )
}

/// A slot can hand out one more strong reference: it is occupied and its
/// count has room to grow.
pub open spec fn can_take_ref<T>(s: SlotView<T>) -> bool {
    s.is_occupied() && s.count < u32::MAX
}

/// The slot coordinates a weak reference remembers.
pub open spec fn weak_addr(w: WeakView) -> RefView {
    RefView { page: w.page, idx: w.idx }
}

/// A weak reference is valid: its slot still holds a value under the very
/// generation the handle was captured against.
pub open spec fn weak_is_valid<T>(v: PoolView<T>, w: WeakView) -> bool {
    &&& addr_ok(v, weak_addr(w))
    &&& slot_at(v, weak_addr(w)).is_occupied()
    &&& slot_at(v, weak_addr(w)).gen == w.gen
}

/// A weak reference can be turned back into a strong one: it is valid and
/// the slot's count has room to grow.
pub open spec fn weak_upgradable<T>(v: PoolView<T>, w: WeakView) -> bool {
    weak_is_valid(v, w) && slot_at(v, weak_addr(w)).count < u32::MAX
}

/// The slot a weak reference names may be reclaimed: the handle is valid
/// and no strong reference to the value is outstanding.
pub open spec fn weak_can_free<T>(v: PoolView<T>, w: WeakView) -> bool {
    weak_is_valid(v, w) && slot_at(v, weak_addr(w)).count == 0
}

/// Iteration order over slots: page by page, slots in index order.
pub open spec fn cursor_le(a: (int, int), b: (int, int)) -> bool {
    a.0 < b.0 || (a.0 == b.0 && a.1 <= b.1)
}

/// Strictly earlier in iteration order.
pub open spec fn cursor_lt(a: (int, int), b: (int, int)) -> bool {
    a.0 < b.0 || (a.0 == b.0 && a.1 < b.1)
}

/// No slot between the two cursors — `from` included, `to` excluded — can
/// hand out a strong reference.
pub open spec fn no_live_between<T>(v: PoolView<T>, from: (int, int), to: (int, int)) -> bool {
    forall|p: int, i: int|
        0 <= p < v.len() && 0 <= i < v[p].len() && cursor_le(from, (p, i)) && cursor_lt(
            (p, i),
            to,
        ) ==> !can_take_ref(#[trigger] v[p][i])
}

// ------------------------------------------------------------------
// Facts about the model that the implementation and its callers rely on.
// ------------------------------------------------------------------

pub proof fn lemma_occupied_count_bounds<T>(s: Seq<SlotView<T>>)
    ensures
        0 <= occupied_count(s) <= s.len(),
    decreases s.len(),
{
    if s.len() > 0 {
        lemma_occupied_count_bounds(s.drop_last());
    }
}

pub proof fn lemma_occupied_count_update<T>(s: Seq<SlotView<T>>, i: int, x: SlotView<T>)
    requires
        0 <= i < s.len(),
    ensures
        occupied_count(s.update(i, x)) == occupied_count(s) + (if x.is_occupied() {
            1int
        } else {
            0int
        }) - (if s[i].is_occupied() {
            1int
        } else {
            0int
        }),
    decreases s.len(),
{
    if i == s.len() - 1 {
        assert(s.update(i, x).drop_last() =~= s.drop_last());
    } else {
        assert(s.update(i, x).drop_last() =~= s.drop_last().update(i, x));
        lemma_occupied_count_update(s.drop_last(), i, x);
    }
}

/// A page with an occupied slot holds at least one value.
pub proof fn lemma_occupied_positive<T>(s: Seq<SlotView<T>>, i: int)
    requires
        0 <= i < s.len(),
        s[i].is_occupied(),
    ensures
        occupied_count(s) >= 1,
    decreases s.len(),
{
    lemma_occupied_count_bounds(s.drop_last());
    if i < s.len() - 1 {
        lemma_occupied_positive(s.drop_last(), i);
    }
}

/// A page with a free slot is not full.
pub proof fn lemma_free_means_space<T>(s: Seq<SlotView<T>>, i: int)
    requires
        0 <= i < s.len(),
        s[i].is_free(),
    ensures
        occupied_count(s) < s.len(),
    decreases s.len(),
{
    lemma_occupied_count_bounds(s.drop_last());
    if i < s.len() - 1 {
        lemma_free_means_space(s.drop_last(), i);
    }
}

/// A page that is not full has a free slot somewhere.
pub proof fn lemma_exists_free<T>(s: Seq<SlotView<T>>)
    requires
        occupied_count(s) < s.len(),
    ensures
        exists|j: int| 0 <= j < s.len() && s[j].is_free(),
    decreases s.len(),
{
    if s.last().is_free() {
        assert(s[s.len() - 1].is_free());
    } else {
        lemma_occupied_count_bounds(s.drop_last());
        lemma_exists_free(s.drop_last());
        let j = choose|j: int| 0 <= j < s.drop_last().len() && s.drop_last()[j].is_free();
        assert(s[j].is_free());
    }
}

/// Sums over pages depend only on each page, so extending by one page adds
/// that page's contribution.
pub proof fn lemma_caps_sum_push<T>(v: PoolView<T>, p: Seq<SlotView<T>>)
    ensures
        caps_sum(v.push(p)) == caps_sum(v) + p.len(),
        total_occupied(v.push(p)) == total_occupied(v) + occupied_count(p),
{
    assert(v.push(p).drop_last() =~= v);
}

pub proof fn lemma_caps_sum_nonneg<T>(v: PoolView<T>)
    ensures
        0 <= caps_sum(v),
        0 <= total_occupied(v) <= caps_sum(v),
    decreases v.len(),
{
    if v.len() > 0 {
        lemma_caps_sum_nonneg(v.drop_last());
        lemma_occupied_count_bounds(v.last());
    }
}

/// Replacing one slot leaves every page length unchanged, so the pool's
/// total number of slots is unchanged.
pub proof fn lemma_caps_sum_update_slot<T>(v: PoolView<T>, a: RefView, s: SlotView<T>)
    requires
        addr_ok(v, a),
    ensures
        caps_sum(update_slot(v, a, s)) == caps_sum(v),
{
    lemma_caps_sum_same_lens(v, update_slot(v, a, s));
}

pub proof fn lemma_caps_sum_same_lens<T>(v1: PoolView<T>, v2: PoolView<T>)
    requires
        v1.len() == v2.len(),
        forall|p: int| 0 <= p < v1.len() ==> v1[p].len() == v2[p].len(),
    ensures
        caps_sum(v1) == caps_sum(v2),
    decreases v1.len(),
{
    if v1.len() > 0 {
        lemma_caps_sum_same_lens(v1.drop_last(), v2.drop_last());
    }
}

/// Replacing one slot changes the pool's occupied total exactly by that
/// slot's own change.
pub proof fn lemma_total_occupied_update_slot<T>(v: PoolView<T>, a: RefView, s: SlotView<T>)
    requires
        addr_ok(v, a),
    ensures
        total_occupied(update_slot(v, a, s)) == total_occupied(v) + (if s.is_occupied() {
            1int
        } else {
            0int
        }) - (if slot_at(v, a).is_occupied() {
            1int
        } else {
            0int
        }),
{
    lemma_occupied_count_update(v[a.page as int], a.idx as int, s);
    lemma_total_occupied_update_page(v, a.page as int, v[a.page as int].update(a.idx as int, s));
}

pub proof fn lemma_total_occupied_update_page<T>(v: PoolView<T>, p: int, pg: Seq<SlotView<T>>)
    requires
        0 <= p < v.len(),
    ensures
        total_occupied(v.update(p, pg)) == total_occupied(v) + occupied_count(pg) - occupied_count(
            v[p],
        ),
    decreases v.len(),
{
    if p == v.len() - 1 {
        assert(v.update(p, pg).drop_last() =~= v.drop_last());
    } else {
        assert(v.update(p, pg).drop_last() =~= v.drop_last().update(p, pg));
        lemma_total_occupied_update_page(v.drop_last(), p, pg);
    }
}

/// A prefix sum grows by one page's contribution at a time.
pub proof fn lemma_sums_prefix<T>(v: PoolView<T>, k: int)
    requires
        0 <= k < v.len(),
    ensures
        caps_sum(v.subrange(0, k + 1)) == caps_sum(v.subrange(0, k)) + v[k].len(),
        total_occupied(v.subrange(0, k + 1)) == total_occupied(v.subrange(0, k))
            + occupied_count(v[k]),
{
    assert(v.subrange(0, k + 1).drop_last() =~= v.subrange(0, k));
}

/// The pool's sums split at any page boundary.
pub proof fn lemma_sums_split<T>(v: PoolView<T>, k: int)
    requires
        0 <= k <= v.len(),
    ensures
        caps_sum(v) == caps_sum(v.subrange(0, k)) + caps_sum(v.subrange(k, v.len() as int)),
        total_occupied(v) == total_occupied(v.subrange(0, k)) + total_occupied(
            v.subrange(k, v.len() as int),
        ),
    decreases v.len() - k,
{
    if k == v.len() {
        assert(v.subrange(0, k) =~= v);
        assert(v.subrange(k, v.len() as int) =~= Seq::<Seq<SlotView<T>>>::empty());
    } else {
        lemma_sums_split(v, k + 1);
        lemma_sums_prefix(v, k);
        assert(v.subrange(k, v.len() as int).drop_first() =~= v.subrange(k + 1, v.len() as int));
        assert(v.subrange(k, v.len() as int) =~= seq![v[k]] + v.subrange(k + 1, v.len() as int));
        lemma_sums_cons(v[k], v.subrange(k + 1, v.len() as int));
    }
}

/// Prepending one page adds that page's contribution.
pub proof fn lemma_sums_cons<T>(p: Seq<SlotView<T>>, v: PoolView<T>)
    ensures
        caps_sum(seq![p] + v) == p.len() + caps_sum(v),
        total_occupied(seq![p] + v) == occupied_count(p) + total_occupied(v),
    decreases v.len(),
{
    let w = seq![p] + v;
    assert(w.len() == 1 + v.len());
    if v.len() == 0 {
        assert(w.drop_last() =~= Seq::<Seq<SlotView<T>>>::empty());
        assert(w.last() == p);
        assert(caps_sum(w) == caps_sum(w.drop_last()) + w.last().len());
        assert(caps_sum(Seq::<Seq<SlotView<T>>>::empty()) == 0);
        assert(total_occupied(Seq::<Seq<SlotView<T>>>::empty()) == 0);
    } else {
        assert(w.drop_last() =~= seq![p] + v.drop_last());
        assert(w.last() == v.last());
        lemma_sums_cons(p, v.drop_last());
        assert(caps_sum(w) == caps_sum(w.drop_last()) + w.last().len());
        assert(total_occupied(w) == total_occupied(w.drop_last()) + occupied_count(w.last()));
        assert(caps_sum(v) == caps_sum(v.drop_last()) + v.last().len());
        assert(total_occupied(v) == total_occupied(v.drop_last()) + occupied_count(v.last()));
    }
}

/// A fresh page holds nothing.
pub proof fn lemma_fresh_page_empty<T>(n: nat)
    ensures
        occupied_count(fresh_page::<T>(n)) == 0,
    decreases n,
{
    if n > 0 {
        assert(fresh_page::<T>(n).drop_last() =~= fresh_page::<T>((n - 1) as nat));
        lemma_fresh_page_empty::<T>((n - 1) as nat);
    }
}

} // verus!
