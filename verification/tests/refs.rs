use rc_pool::{Either, RcPool};

#[test]
fn refcount_accounting() {
    let mut pool = RcPool::<u32, true>::new(4);
    let r = pool.insert(1);
    assert_eq!(r.strong_count(&pool), 1);
    let a = r.clone_ref(&mut pool);
    let b = r.clone_ref(&mut pool);
    let c = r.clone_ref(&mut pool);
    assert_eq!(r.strong_count(&pool), 4);
    a.release(&mut pool);
    b.release(&mut pool);
    assert_eq!(r.strong_count(&pool), 2);
    c.release(&mut pool);
    assert_eq!(r.strong_count(&pool), 1);
}

#[test]
fn auto_mode_zero_count_reclaims() {
    let mut pool = RcPool::<u32, false>::new(4);
    let r = pool.insert(9);
    let w = r.weak(&pool);
    assert!(w.is_valid(&pool));
    r.release(&mut pool);
    assert_eq!(pool.len(), 0);
    assert!(!w.is_valid(&pool));
    assert!(w.strong(&mut pool).is_none());
    assert!(pool.get(0).is_none());
}

#[test]
fn generation_safety_on_reuse() {
    let mut pool = RcPool::<u32, true>::new(1);
    let r1 = pool.insert(1);
    let w = r1.weak(&pool);
    r1.release(&mut pool);
    assert!(w.is_valid(&pool));
    pool.remove(&w);
    assert!(!w.is_valid(&pool));
    let r2 = pool.insert(2);
    assert_eq!(*r2.get(&pool), 2);
    assert!(!w.is_valid(&pool));
    assert!(w.strong(&mut pool).is_none());
    let w2 = r2.weak(&pool);
    assert!(w2.is_valid(&pool));
}

#[test]
fn exclusive_access() {
    let mut pool = RcPool::<u32, true>::new(2);
    let r = pool.insert(5);
    {
        let m = r.try_get_mut(&mut pool).expect("a unique reference gives an exclusive view");
        *m = 6;
    }
    assert_eq!(*r.get(&pool), 6);
    assert_eq!(r.strong_count(&pool), 1);
    let d = r.clone_ref(&mut pool);
    assert!(r.try_get_mut(&mut pool).is_none());
    d.release(&mut pool);
    assert_eq!(r.strong_count(&pool), 1);
    let m = r.get_mut(&mut pool);
    *m = 7;
    assert_eq!(*r.get(&pool), 7);
    let m2 = r.borrow_mut(&mut pool);
    *m2 = 8;
    assert_eq!(*r.get(&pool), 8);
    assert!(r.try_borrow_mut(&mut pool).is_some());
}

#[test]
fn weak_upgrade_counts() {
    let mut pool = RcPool::<u32, true>::new(2);
    let r = pool.insert(3);
    let w = r.weak(&pool);
    let s = w.strong(&mut pool).expect("a valid weak handle upgrades");
    assert_eq!(r.strong_count(&pool), 2);
    assert_eq!(*s.get(&pool), 3);
    s.release(&mut pool);
    assert_eq!(r.strong_count(&pool), 1);
}

#[test]
fn take_item_returns_value() {
    let mut pool = RcPool::<String, true>::new(2);
    let r = pool.insert(String::from("v"));
    let w = r.weak(&pool);
    let v = r.take_item(&mut pool);
    assert_eq!(v, "v");
    assert_eq!(pool.len(), 0);
    assert!(!w.is_valid(&pool));
}

#[test]
fn try_take_item_refuses_shared() {
    let mut pool = RcPool::<u32, true>::new(2);
    let r = pool.insert(4);
    let r2 = r.clone_ref(&mut pool);
    match r.try_take_item(&mut pool) {
        Either::Right(r_back) => {
            assert_eq!(r_back.strong_count(&pool), 2);
            r_back.release(&mut pool);
        }
        Either::Left(_) => panic!("a shared value must not be taken"),
    }
    assert_eq!(r2.strong_count(&pool), 1);
    match r2.try_take_item(&mut pool) {
        Either::Left(v) => assert_eq!(v, 4),
        Either::Right(_) => panic!("a unique reference takes the value"),
    }
    assert_eq!(pool.len(), 0);
}

#[test]
fn strong_drop_item_variants() {
    let mut pool = RcPool::<u32, true>::new(2);
    let r = pool.insert(1);
    r.drop_item(&mut pool);
    assert_eq!(pool.len(), 0);
    let r = pool.insert(2);
    let d = r.clone_ref(&mut pool);
    let back = r.try_drop_item(&mut pool).expect("shared: the reference comes back");
    back.release(&mut pool);
    assert!(d.try_drop_item(&mut pool).is_none());
    assert_eq!(pool.len(), 0);
}

#[test]
fn weak_take_and_drop() {
    let mut pool = RcPool::<u32, true>::new(2);
    let r = pool.insert(4);
    let w = r.weak(&pool);
    assert!(w.try_take_item(&mut pool).is_none());
    r.release(&mut pool);
    assert_eq!(w.try_take_item(&mut pool), Some(4));
    assert!(!w.try_drop_item(&mut pool));

    let r2 = pool.insert(5);
    let w2 = r2.weak(&pool);
    r2.release(&mut pool);
    assert!(w2.try_drop_item(&mut pool));
    assert_eq!(pool.len(), 0);

    let r3 = pool.insert(6);
    let w3 = r3.weak(&pool);
    r3.release(&mut pool);
    w3.drop_item(&mut pool);
    assert_eq!(pool.len(), 0);

    let r4 = pool.insert(7);
    let w4 = r4.weak(&pool);
    r4.release(&mut pool);
    assert_eq!(w4.take_item(&mut pool), 7);
}

#[test]
fn remove_ignores_stale_and_referenced() {
    let mut pool = RcPool::<u32, true>::new(2);
    let r = pool.insert(1);
    let w = r.weak(&pool);
    pool.remove(&w); // a strong reference is outstanding: no-op
    assert_eq!(pool.len(), 1);
    assert_eq!(*r.get(&pool), 1);
    r.release(&mut pool);
    pool.remove(&w); // now it frees the slot
    assert_eq!(pool.len(), 0);
    pool.remove(&w); // stale: no-op
    assert_eq!(pool.len(), 0);
}
