use utilities::cache::priority_set::PrioritySet;

// Data keys stand for the names the entries describe.
const K1: u64 = 1;
const K2: u64 = 2;
const K3: u64 = 3;

#[test]
fn test_insert_delete_and_iteration() {
    let mut ps = PrioritySet::new();

    let k1 = K1;
    let k2 = K2;
    ps.insert(k1, 20);
    ps.insert(k2, 10);

    let entries: Vec<_> = ps.iter().into_iter().collect();
    assert_eq!(entries.len(), 2);
    assert_eq!(*entries[0].0, k2);
    assert_eq!(*entries[1].0, k1);

    ps.delete(&k1);

    let entries: Vec<_> = ps.iter().into_iter().collect();
    assert_eq!(entries.len(), 1);
    assert_eq!(*entries[0].0, k2);

    ps.delete(&k2);
    let entries: Vec<_> = ps.iter().into_iter().collect();
    assert_eq!(entries.len(), 0);
}

#[test]
fn test_update() {
    let mut ps = PrioritySet::new();
    let k1 = K1;
    let k2 = K2;
    ps.insert(k1, 20);
    assert_eq!(ps.priority(&k1).unwrap(), 20);
    ps.insert(k1, 40);
    assert_eq!(ps.priority(&k1).unwrap(), 40);

    ps.insert(k2, 10);
    assert_eq!(ps.priority(&k2).unwrap(), 10);
    ps.insert(k2, 20);
    assert_eq!(ps.priority(&k2).unwrap(), 20);

    let entries: Vec<_> = ps.iter().into_iter().collect();
    assert_eq!(entries.len(), 2);
    assert_eq!(*entries[0].1, 20);
}

#[test]
fn test_clear() {
    let mut ps = PrioritySet::new();

    ps.insert(K1, 100);
    ps.insert(K2, 50);

    ps.clear();

    assert_eq!(ps.len(), 0);
    assert!(ps.is_empty());
    assert!(ps.iter().into_iter().next().is_none());
    assert!(ps.top().is_none());
}

#[test]
fn test_retain() {
    let names = ["", "key1", "k2", "k3"];
    let mut ps = PrioritySet::new();

    ps.insert(1, 10);
    ps.insert(2, 5);
    ps.insert(3, 1);

    ps.retain(|key| names[*key as usize].starts_with("key"));

    assert_eq!(ps.len(), 1);
    assert!(!ps.has(&2));
    assert!(!ps.has(&3));
    assert!(ps.has(&1));

    // Verify iteration order
    let entries: Vec<_> = ps.iter().into_iter().collect();
    assert_eq!(entries.len(), 1);
    assert_eq!(names[*entries[0].0 as usize], "key1");
}

#[test]
fn test_reconcile() {
    let mut ps = PrioritySet::new();

    let k1 = K1;
    let k2 = K2;
    ps.insert(k1, 100);
    ps.insert(k2, 50);

    let k3 = K3;
    ps.reconcile(&[k1, k3], 20);

    let entries: Vec<_> = ps.iter().into_iter().collect();
    assert_eq!(entries.len(), 2);
    assert!(entries.iter().any(|e| *e.0 == k1 && *e.1 == 100));
    assert!(entries.iter().any(|e| *e.0 == k3 && *e.1 == 20));
}

#[test]
fn top_and_pop_follow_priority_then_data() {
    let mut ps = PrioritySet::new();
    ps.insert(7, 5);
    ps.insert(3, 5);
    ps.insert(9, 1);
    assert_eq!(ps.top().map(|(d, p)| (*d, *p)), Some((9, 1)));
    assert_eq!(ps.pop(), Some((9, 1)));
    // Equal priorities: the smaller data comes first.
    assert_eq!(ps.pop(), Some((3, 5)));
    assert_eq!(ps.pop(), Some((7, 5)));
    assert_eq!(ps.pop(), None);
    assert!(ps.is_empty());
}

#[test]
fn delete_reports_presence() {
    let mut ps = PrioritySet::new();
    ps.insert(4, 40);
    assert!(ps.delete(&4));
    assert!(!ps.delete(&4));
    assert_eq!(ps.priority(&4), None);
}

#[test]
fn insert_overwrites_and_reorders() {
    let mut ps = PrioritySet::new();
    ps.insert(1, 10);
    ps.insert(2, 20);
    ps.insert(1, 30);
    assert_eq!(ps.len(), 2);
    let order: Vec<(u64, u64)> = ps.iter().into_iter().map(|(d, p)| (*d, *p)).collect();
    assert_eq!(order, vec![(2, 20), (1, 30)]);
}

#[test]
fn reconcile_ignores_repeated_keys() {
    let mut ps = PrioritySet::new();
    ps.insert(1, 10);
    ps.reconcile(&[2, 2, 1], 7);
    let order: Vec<(u64, u64)> = ps.iter().into_iter().map(|(d, p)| (*d, *p)).collect();
    assert_eq!(order, vec![(2, 7), (1, 10)]);
}

#[test]
fn reconcile_twice_changes_nothing_more() {
    let mut ps = PrioritySet::new();
    ps.insert(1, 10);
    ps.insert(5, 50);
    ps.reconcile(&[1, 2], 3);
    let once: Vec<(u64, u64)> = ps.iter().into_iter().map(|(d, p)| (*d, *p)).collect();
    ps.reconcile(&[1, 2], 3);
    let twice: Vec<(u64, u64)> = ps.iter().into_iter().map(|(d, p)| (*d, *p)).collect();
    assert_eq!(once, vec![(2, 3), (1, 10)]);
    assert_eq!(once, twice);
}

#[test]
fn top_is_head_of_iteration() {
    let mut ps = PrioritySet::new();
    for (d, p) in [(10u64, 3u64), (4, 3), (8, 1), (6, 9)] {
        ps.insert(d, p);
    }
    let first = ps.iter().into_iter().next().map(|(d, p)| (*d, *p));
    assert_eq!(ps.top().map(|(d, p)| (*d, *p)), first);
    assert_eq!(first, Some((8, 1)));
}
