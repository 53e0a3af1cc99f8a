use rc_pool::{Either, Pool, RcPool};

#[test]
fn round_trip_insert_then_get() {
    let mut pool = RcPool::<u32, false>::new(4);
    let r = pool.insert(7);
    assert_eq!(*r.get(&pool), 7);

    let mut pool2 = RcPool::<String, true>::new(2);
    let r2 = pool2.insert(String::from("hello"));
    assert_eq!(r2.get(&pool2).as_str(), "hello");
}

#[test]
fn new_vec_and_empty() {
    let mut pool = RcPool::<u32, false>::new_vec(3);
    assert!(pool.is_empty());
    assert_eq!(pool.capacity(), 3);
    assert_eq!(pool.len(), 0);
    assert_eq!(pool.page_len(), 3);
    let r = pool.insert(1);
    assert!(!pool.is_empty());
    assert_eq!(pool.len(), 1);
    r.release(&mut pool);
    assert!(pool.is_empty());
}

#[test]
fn try_insert_full_returns_value() {
    let mut pool = RcPool::<u32, true>::new(1);
    let _r = pool.insert(1);
    match pool.try_insert(2) {
        Either::Right(v) => assert_eq!(v, 2),
        Either::Left(_) => panic!("a full pool must hand the value back"),
    }
    assert_eq!(pool.capacity(), 1);
    let r2 = pool.insert(3);
    assert_eq!(pool.capacity(), 2);
    assert_eq!(*r2.get(&pool), 3);
}

#[test]
fn growth_adds_exactly_one_page() {
    let mut pool = RcPool::<u32, true>::new(3);
    assert_eq!(pool.capacity(), 3);
    let mut refs = Vec::new();
    for i in 0..4u32 {
        refs.push(pool.insert(i));
    }
    assert_eq!(pool.capacity(), 6);
    assert_eq!(pool.len(), 4);
    for (i, r) in refs.iter().enumerate() {
        assert_eq!(*r.get(&pool), i as u32);
    }
}

#[test]
fn set_page_len_affects_future_pages() {
    let mut pool = RcPool::<u32, true>::new(1);
    let _a = pool.insert(1);
    pool.set_page_len(5);
    assert_eq!(pool.page_len(), 5);
    let _b = pool.insert(2);
    assert_eq!(pool.capacity(), 6);
}

#[test]
fn get_by_linear_index() {
    let mut pool = RcPool::<u32, true>::new(2);
    let a = pool.insert(10);
    let _b = pool.insert(11);
    let _c = pool.insert(12);
    let g0 = pool.get(0).expect("slot 0 holds a value");
    assert_eq!(*g0.get(&pool), 10);
    assert_eq!(a.strong_count(&pool), 2);
    g0.release(&mut pool);
    let g2 = pool.get(2).expect("slot 2 holds a value");
    assert_eq!(*g2.get(&pool), 12);
    g2.release(&mut pool);
    assert!(pool.get(3).is_none());
    assert!(pool.get(100).is_none());
}

#[test]
fn get_skips_freed_slot() {
    let mut pool = RcPool::<u32, false>::new(2);
    let a = pool.insert(1);
    let _b = pool.insert(2);
    a.release(&mut pool);
    assert!(pool.get(0).is_none());
    let g1 = pool.get(1).expect("slot 1 still holds a value");
    assert_eq!(*g1.get(&pool), 2);
}

#[test]
fn pool_trait_insert() {
    let mut pool = RcPool::<u32, true>::new(2);
    let r = Pool::insert(&mut pool, 41);
    assert_eq!(*r.get(&pool), 41);
}
