use frame_graph::ElementHandle;
use frame_graph::ResourceLifetime;
use frame_graph::ResourceReferenceManager;

#[test]
fn reference_count_is_activations_minus_deactivations() {
    let mut cache = ResourceReferenceManager::new(16, 10);
    let h = ElementHandle(1);
    cache.create(h, ResourceLifetime::Medium);
    assert_eq!(cache.reference_count(h), Some(1));
    cache.activate(h);
    cache.activate(h);
    cache.activate(h);
    assert_eq!(cache.reference_count(h), Some(4));
    cache.deactivate(h, 0);
    cache.deactivate(h, 0);
    assert_eq!(cache.reference_count(h), Some(2));
}

#[test]
fn reaching_zero_schedules_eviction_at_now_plus_delay() {
    let mut cache = ResourceReferenceManager::new(16, 10);
    let h = ElementHandle(2);
    cache.create(h, ResourceLifetime::Medium);
    cache.deactivate(h, 5);
    // The deadline is 5 + 60; one tick earlier nothing is destroyable.
    assert_eq!(cache.upkeep(64), Vec::<ElementHandle>::new());
    assert!(cache.is_registered(h));
    let destroyed = cache.upkeep(65);
    assert_eq!(destroyed, vec![h]);
    assert!(!cache.is_registered(h));
}

#[test]
fn forever_resources_are_never_auto_evicted() {
    let mut cache = ResourceReferenceManager::new(16, 10);
    let h = ElementHandle(3);
    cache.create(h, ResourceLifetime::Forever);
    cache.deactivate(h, 0);
    assert_eq!(cache.upkeep(u64::MAX), Vec::<ElementHandle>::new());
    assert!(cache.is_registered(h));
}

#[test]
fn immediate_resources_are_destroyable_at_once() {
    let mut cache = ResourceReferenceManager::new(16, 10);
    let h = ElementHandle(4);
    cache.create(h, ResourceLifetime::Immediate);
    cache.deactivate(h, 7);
    assert_eq!(cache.upkeep(7), vec![h]);
}

#[test]
fn reactivation_prevents_destruction() {
    let mut cache = ResourceReferenceManager::new(16, 10);
    let h = ElementHandle(5);
    cache.create(h, ResourceLifetime::Short);
    cache.deactivate(h, 0);
    // Re-acquired before its deadline (0 + 3) elapsed.
    cache.activate(h);
    let destroyed = cache.upkeep(100);
    assert!(!destroyed.contains(&h));
    assert!(cache.is_registered(h));
    assert_eq!(cache.reference_count(h), Some(1));
}

#[test]
fn upkeep_destroys_at_most_the_quota_per_call() {
    let mut cache = ResourceReferenceManager::new(16, 2);
    for i in 1..6usize {
        let h = ElementHandle(i);
        cache.create(h, ResourceLifetime::Immediate);
        cache.deactivate(h, 0);
    }
    let first = cache.upkeep(10);
    assert_eq!(first.len(), 2);
    let second = cache.upkeep(10);
    assert_eq!(second.len(), 2);
    let third = cache.upkeep(10);
    assert_eq!(third.len(), 1);
    let fourth = cache.upkeep(10);
    assert_eq!(fourth.len(), 0);

    let mut all: Vec<usize> = Vec::new();
    for h in first.iter().chain(second.iter()).chain(third.iter()) {
        all.push(h.0);
    }
    all.sort();
    assert_eq!(all, vec![1, 2, 3, 4, 5]);
}

#[test]
fn queue_is_drained_in_deadline_order() {
    let mut cache = ResourceReferenceManager::new(16, 10);
    let short = ElementHandle(1);
    let long = ElementHandle(2);
    cache.create(long, ResourceLifetime::Long);
    cache.create(short, ResourceLifetime::Short);
    cache.deactivate(long, 0);
    cache.deactivate(short, 0);
    // Only the short-lived resource's deadline (3) has elapsed at tick 10.
    assert_eq!(cache.upkeep(10), vec![short]);
    // The long-lived one (deadline 300) goes at tick 300.
    assert_eq!(cache.upkeep(300), vec![long]);
}
