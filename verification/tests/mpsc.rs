use hft_demos::queue::mpsc::MpscQueue;

#[test]
fn mpsc_new_returns_producer_and_consumer() {
    let (prod, cons) = MpscQueue::<i32>::new(16);
    assert_eq!(prod.capacity(), 16);
    assert_eq!(cons.capacity(), 16);
    assert!(cons.is_empty());
}

#[test]
fn mpsc_try_push_try_pop_roundtrip() {
    let (prod, mut cons) = MpscQueue::<i32>::new(4);
    assert!(prod.try_push(1).is_ok());
    assert!(prod.try_push(2).is_ok());
    assert_eq!(cons.try_pop(), Some(1));
    assert_eq!(cons.try_pop(), Some(2));
    assert_eq!(cons.try_pop(), None);
}

#[test]
fn mpsc_producer_is_cloneable() {
    let (prod1, mut cons) = MpscQueue::<i32>::new(8);
    let prod2 = prod1.clone();
    let _ = prod1.try_push(1);
    let _ = prod2.try_push(2);
    let a = cons.try_pop();
    let b = cons.try_pop();
    assert!(matches!((a, b), (Some(1), Some(2)) | (Some(2), Some(1))));
}

#[test]
fn mpsc_multiple_producers_contribute_to_same_queue() {
    let (p1, mut cons) = MpscQueue::<i32>::new(32);
    let p2 = p1.clone();
    let p3 = p1.clone();
    let _ = p1.try_push(1);
    let _ = p2.try_push(2);
    let _ = p3.try_push(3);
    let mut seen = [cons.try_pop(), cons.try_pop(), cons.try_pop()];
    seen.sort();
    assert_eq!(seen, [Some(1), Some(2), Some(3)]);
    assert_eq!(cons.try_pop(), None);
}

#[test]
fn mpsc_try_push_full_returns_err() {
    let (prod, _cons) = MpscQueue::<i32>::new(2);
    let _ = prod.try_push(10);
    let _ = prod.try_push(20);
    let res = prod.try_push(30);
    assert!(res.is_err());
    if let Err(v) = res {
        assert_eq!(v, 30);
    }
}

#[test]
fn mpsc_try_pop_empty_returns_none() {
    let (_prod, mut cons) = MpscQueue::<i32>::new(4);
    assert_eq!(cons.try_pop(), None);
}

#[test]
fn mpsc_push_pop_roundtrip() {
    let (prod, mut cons) = MpscQueue::<i32>::new(4);
    let _ = prod.push(42);
    assert_eq!(cons.pop(), Some(42));
}

#[test]
fn mpsc_is_empty_and_is_full() {
    let (prod, mut cons) = MpscQueue::<i32>::new(2);
    assert!(cons.is_empty());
    let _ = prod.try_push(1);
    assert!(!cons.is_empty());
    let _ = prod.try_push(2);
    assert!(prod.is_full());
    let _ = cons.try_pop();
    assert!(!prod.is_full());
}

#[test]
fn mpsc_pop_on_empty_queue_returns_none() {
    let (_prod, mut cons) = MpscQueue::<u8>::new(1);
    assert_eq!(cons.pop(), None);
}
