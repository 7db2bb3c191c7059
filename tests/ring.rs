use chat::ring::Ring;

fn items<const CAP: usize>(r: &Ring<u32, CAP>) -> Vec<u32> {
    (0..r.len()).map(|i| *r.get(i)).collect()
}

#[test]
fn ring_keeps_the_last_items_in_order() {
    let mut r: Ring<u32, 3> = Ring::new();
    assert_eq!(r.len(), 0);
    assert!(!r.is_full());
    r.push(1);
    r.push(2);
    assert_eq!(items(&r), vec![1, 2]);
    r.push(3);
    assert!(r.is_full());
    assert_eq!(items(&r), vec![1, 2, 3]);
    r.push(4);
    assert_eq!(items(&r), vec![2, 3, 4]);
    r.push(5);
    r.push(6);
    r.push(7);
    assert_eq!(r.len(), 3);
    assert_eq!(items(&r), vec![5, 6, 7]);
}

#[test]
fn ring_clear_empties() {
    let mut r: Ring<u32, 2> = Ring::new();
    r.push(1);
    r.push(2);
    r.push(3);
    r.clear();
    assert_eq!(r.len(), 0);
    r.push(9);
    assert_eq!(items(&r), vec![9]);
}

#[test]
fn ring_of_one() {
    let mut r: Ring<u32, 1> = Ring::new();
    r.push(1);
    r.push(2);
    assert!(r.is_full());
    assert_eq!(items(&r), vec![2]);
}
