use frame_graph::ElementHandle;
use frame_graph::SparseSet;

#[test]
fn test_push() {
    let size: usize = 100;
    let mut set: SparseSet<usize> = SparseSet::new(size);
    for i in 0..size {
        set.push(ElementHandle(i), 2 * i);
        assert_eq!(set.dense_handle_at(i), ElementHandle(i));
        assert_eq!(*set.dense_object_at(i), 2 * i);
    }
}

#[test]
fn test_remove() {
    let size: usize = 100;
    let mut set: SparseSet<usize> = SparseSet::new(size);
    for i in 0..size {
        set.push(ElementHandle(i), i);
    }

    for i in (size / 2)..size {
        assert_eq!(set.remove(ElementHandle(i)), (ElementHandle(i), Some(i)));
    }

    assert_eq!(set.len(), size / 2);
    assert_eq!(set.remove(ElementHandle(size + 1)), (set.tombstone(), None));
}

#[test]
fn test_contains() {
    let size: usize = 100;
    let mut set: SparseSet<usize> = SparseSet::new(size);
    for i in 0..size / 2 {
        set.push(ElementHandle(2 * i), 4 * i);
    }

    assert_eq!(set.contains(ElementHandle(1)), false);
    assert_eq!(set.contains(ElementHandle(98)), true);
    assert_eq!(set.contains(ElementHandle(size + 1)), false);
}

#[test]
fn test_get() {
    let size: usize = 100;
    let mut set: SparseSet<usize> = SparseSet::new(size);
    for i in 0..size {
        set.push(ElementHandle(i), 3 * i);
    }

    for i in 0..size {
        assert_eq!(*set.get(ElementHandle(i)).unwrap(), 3 * i);
    }

    for i in 0..size {
        *set.get_mut(ElementHandle(i)) *= 2;
    }

    for i in 0..size {
        assert_eq!(*set.get(ElementHandle(i)).unwrap(), i * 6);
    }
}

#[test]
fn test_contains_iff_inserted_and_not_removed() {
    let mut set: SparseSet<u32> = SparseSet::new(10);
    set.push(ElementHandle(3), 30);
    set.push(ElementHandle(5), 50);
    set.push(ElementHandle(7), 70);
    set.remove(ElementHandle(5));
    set.push(ElementHandle(5), 51);
    set.remove(ElementHandle(3));

    assert!(!set.contains(ElementHandle(3)));
    assert!(set.contains(ElementHandle(5)));
    assert!(set.contains(ElementHandle(7)));
    assert_eq!(set.len(), 2);
    assert_eq!(*set.get(ElementHandle(5)).unwrap(), 51);
}

#[test]
fn test_push_is_idempotent() {
    let mut set: SparseSet<u32> = SparseSet::new(4);
    set.push(ElementHandle(2), 20);
    set.push(ElementHandle(2), 99);
    assert_eq!(set.len(), 1);
    assert_eq!(*set.get(ElementHandle(2)).unwrap(), 20);
}

#[test]
fn test_clear_and_enumerate() {
    let mut set: SparseSet<u32> = SparseSet::new(8);
    set.push(ElementHandle(1), 10);
    set.push(ElementHandle(4), 40);
    let all = set.get_all_elements();
    assert_eq!(all.len(), 2);
    assert!(all.contains(&ElementHandle(1)));
    assert!(all.contains(&ElementHandle(4)));
    set.clear();
    assert_eq!(set.len(), 0);
    assert!(!set.contains(ElementHandle(1)));
    assert!(!set.contains(ElementHandle(4)));
}
