use dustline::history::HistoryBuffer;

#[test]
fn warm_up_grows_without_eviction() {
    let mut h = HistoryBuffer::new(3);
    assert_eq!(h.len(), 0);
    assert_eq!(h.capacity(), 3);
    assert!(!h.full());
    h.push_grow(10);
    h.push_grow(-20);
    assert_eq!(h.len(), 2);
    assert!(!h.full());
    assert_eq!(h.read(0), 10);
    assert_eq!(h.read(1), -20);
    h.push_grow(30);
    assert!(h.full());
    assert_eq!(h.len(), 3);
}

#[test]
fn push_evict_is_strict_fifo() {
    let mut h = HistoryBuffer::new(3);
    h.push_grow(1);
    h.push_grow(2);
    h.push_grow(3);
    let e = h.push_evict(4);
    assert_eq!(e, 1);
    assert_eq!(h.len(), 3);
    assert_eq!(h.read(0), 2);
    assert_eq!(h.read(1), 3);
    assert_eq!(h.read(2), 4);
    let e = h.push_evict(5);
    assert_eq!(e, 2);
    let e = h.push_evict(6);
    assert_eq!(e, 3);
    let e = h.push_evict(7);
    assert_eq!(e, 4);
    assert_eq!(h.read(0), 5);
    assert_eq!(h.read(1), 6);
    assert_eq!(h.read(2), 7);
}
