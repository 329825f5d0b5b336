use rtsp_core::ports::{PortAllocator, SessionIdGen};

#[test]
fn allocations_are_disjoint() {
    let mut a = PortAllocator::new(6000, 4);
    let (k1, rtp1, rtcp1) = a.allocate().expect("pool must not be empty");
    let (k2, rtp2, rtcp2) = a.allocate().expect("pool must not be empty");
    assert_ne!(k1, k2);
    let p1 = [rtp1, rtcp1];
    let p2 = [rtp2, rtcp2];
    for x in p1 {
        for y in p2 {
            assert_ne!(x, y);
        }
    }
    assert_eq!(rtcp1, rtp1 + 1);
    assert_eq!(rtcp2, rtp2 + 1);
}

#[test]
fn lowest_pair_first() {
    let mut a = PortAllocator::new(6000, 4);
    let (_, rtp, rtcp) = a.allocate().expect("pool must not be empty");
    assert_eq!((rtp, rtcp), (6000, 6001));
    let (_, rtp, rtcp) = a.allocate().expect("pool must not be empty");
    assert_eq!((rtp, rtcp), (6002, 6003));
}

#[test]
fn exhaustion_yields_none() {
    let mut a = PortAllocator::new(6000, 1);
    assert!(a.allocate().is_some());
    assert!(a.allocate().is_none());
    assert!(a.allocate().is_none());
}

#[test]
fn released_pair_is_reallocated() {
    let mut a = PortAllocator::new(6000, 3);
    let (k1, rtp1, rtcp1) = a.allocate().expect("pool must not be empty");
    a.release(k1);
    let (k2, rtp2, rtcp2) = a.allocate().expect("pool must not be empty");
    assert_eq!(k1, k2);
    assert_eq!((rtp1, rtcp1), (rtp2, rtcp2));
}

#[test]
fn releasing_a_free_pair_changes_nothing() {
    let mut a = PortAllocator::new(6000, 2);
    let (k1, _, _) = a.allocate().expect("pool must not be empty");
    a.release(k1);
    a.release(k1);
    a.release(9);
    let (x, _, _) = a.allocate().expect("pool must not be empty");
    let (y, _, _) = a.allocate().expect("pool must not be empty");
    assert_ne!(x, y);
    assert!(a.allocate().is_none());
}

#[test]
fn identifiers_never_repeat() {
    let mut g = SessionIdGen::new();
    let a = g.fresh();
    let b = g.fresh();
    let c = g.fresh();
    assert_ne!(a, b);
    assert_ne!(a, c);
    assert_ne!(b, c);
    assert!(a < b && b < c);
}
