use rc_pool::{Either, RcPool};

fn collect<const MANUAL_DROP: bool>(pool: &mut RcPool<String, MANUAL_DROP>) -> Vec<String> {
    let mut out = Vec::new();
    let mut it = pool.iter();
    while let Some(r) = it.next(pool) {
        out.push(r.get(pool).clone());
        r.release(pool);
    }
    out
}

#[test]
fn manual_mode_persists_values() {
    let mut pool = RcPool::<String, true>::new(2);
    let r = pool.insert(String::from("kept"));
    let w = r.weak(&pool);
    r.release(&mut pool);
    assert_eq!(pool.len(), 1);
    assert!(w.is_valid(&pool));
    assert_eq!(collect(&mut pool), vec![String::from("kept")]);
    pool.remove(&w);
    assert_eq!(pool.len(), 0);
    assert!(!w.is_valid(&pool));
    assert_eq!(collect(&mut pool), Vec::<String>::new());
}

#[test]
fn end_to_end_automatic() {
    let mut pool = RcPool::<String, false>::new(2);
    let _a = pool.insert(String::from("A"));
    let b = pool.insert(String::from("B"));
    let _c = pool.insert(String::from("C"));
    assert_eq!(pool.capacity(), 4);
    b.release(&mut pool);
    assert_eq!(collect(&mut pool), vec![String::from("A"), String::from("C")]);
}

#[test]
fn end_to_end_manual() {
    let mut pool = RcPool::<String, true>::new(2);
    let a = pool.insert(String::from("A"));
    let b = pool.insert(String::from("B"));
    let c = pool.insert(String::from("C"));
    assert_eq!(pool.capacity(), 4);
    let wb = b.weak(&pool);
    a.release(&mut pool);
    b.release(&mut pool);
    c.release(&mut pool);
    assert_eq!(
        collect(&mut pool),
        vec![String::from("A"), String::from("B"), String::from("C")],
    );
    pool.remove(&wb);
    assert_eq!(collect(&mut pool), vec![String::from("A"), String::from("C")]);
}

#[test]
fn freed_slot_is_reused_before_growth() {
    let mut pool = RcPool::<u32, true>::new(2);
    let a = pool.insert(1);
    let _b = pool.insert(2);
    a.take_item(&mut pool);
    let _c = pool.insert(3);
    assert_eq!(pool.capacity(), 2);
    assert_eq!(pool.len(), 2);
}

#[test]
fn either_accessors() {
    let l: Either<u32, &str> = Either::Left(5);
    assert_eq!(l.left(), Some(&5));
    assert!(l.right().is_none());
    assert_eq!(l.take_left(), Some(5));
    let l2: Either<u32, &str> = Either::Left(5);
    assert!(l2.take_right().is_none());
    let r: Either<u32, &str> = Either::Right("x");
    assert!(r.left().is_none());
    assert_eq!(r.right(), Some(&"x"));
    assert_eq!(r.take_right(), Some("x"));
    let r2: Either<u32, &str> = Either::Right("x");
    assert!(r2.take_left().is_none());
}

#[test]
fn iterator_skips_freed_slot_mid_page() {
    let mut pool = RcPool::<u32, true>::new(3);
    let _a = pool.insert(1);
    let b = pool.insert(2);
    let _c = pool.insert(3);
    let _d = pool.insert(4);
    b.take_item(&mut pool);
    let mut seen = Vec::new();
    let mut it = pool.iter();
    while let Some(r) = it.next(&mut pool) {
        seen.push(*r.get(&pool));
        r.release(&mut pool);
    }
    assert_eq!(seen, vec![1, 3, 4]);
}

#[test]
fn repeated_growth_page_size_one() {
    let mut pool = RcPool::<u32, true>::new(1);
    let _a = pool.insert(1);
    let _b = pool.insert(2);
    let _c = pool.insert(3);
    assert_eq!(pool.capacity(), 3);
    assert_eq!(pool.len(), 3);
}
