use remote_mux::idmap::EntityIdMap;
use remote_mux::ids::IdAllocator;
use remote_mux::rpc::{PendingCalls, Resolution};
use remote_mux::spawn_queue::{DrainPolicy, SpawnQueue};

#[test]
fn drain_of_empty_queue_is_idle() {
    let mut q: SpawnQueue<u32> = SpawnQueue::new();
    for policy in [DrainPolicy::One, DrainPolicy::All] {
        let (items, more) = q.run(policy);
        assert!(items.is_empty());
        assert!(!more);
        assert!(!q.has_any_queued());
    }
}

#[test]
fn single_item_passes_run_each_item_once_in_order() {
    let mut q: SpawnQueue<u32> = SpawnQueue::new();
    q.spawn_with_priority(100, false);
    q.spawn(1);
    q.spawn(2);
    q.spawn_with_priority(200, false);
    let mut seen = Vec::new();
    let mut more = true;
    let mut passes = 0;
    while more {
        let (items, m) = q.run(DrainPolicy::One);
        assert!(items.len() <= 1);
        seen.extend(items);
        more = m;
        passes += 1;
    }
    assert_eq!(seen, vec![1, 2, 100, 200]);
    assert_eq!(passes, 4);
    let (items, more) = q.run(DrainPolicy::One);
    assert!(items.is_empty() && !more);
}

#[test]
fn drain_all_runs_normal_before_low() {
    let mut q: SpawnQueue<&str> = SpawnQueue::new();
    q.spawn_with_priority("low-a", false);
    q.spawn("hi-a");
    q.spawn_with_priority("low-b", false);
    q.spawn("hi-b");
    let (items, more) = q.run(DrainPolicy::All);
    assert_eq!(items, vec!["hi-a", "hi-b", "low-a", "low-b"]);
    assert!(!more);
}

#[test]
fn queued_closures_run_on_the_owner() {
    let mut q: SpawnQueue<Box<dyn FnOnce() -> u32>> = SpawnQueue::new();
    q.spawn(Box::new(|| 3));
    q.spawn(Box::new(|| 4));
    let (items, more) = q.run(DrainPolicy::One);
    assert!(more);
    let results: Vec<u32> = items.into_iter().map(|f| f()).collect();
    assert_eq!(results, vec![3]);
}

#[test]
fn allocator_issues_increasing_ids() {
    let mut a = IdAllocator::new();
    let x = a.allocate();
    let y = a.allocate();
    let z = a.allocate();
    assert!(x < y && y < z);
    assert_eq!((x, y, z), (0, 1, 2));
    assert!(a.can_allocate());
}

#[test]
fn id_map_record_and_lookups() {
    let mut m = EntityIdMap::new();
    assert_eq!(m.lookup_local(7), None);
    assert_eq!(m.lookup_remote(1), None);
    m.record(7, 1);
    m.record(8, 2);
    assert_eq!(m.lookup_local(7), Some(1));
    assert_eq!(m.lookup_remote(2), Some(8));
    m.record(9, 1);
    assert_eq!(m.lookup_remote(1), Some(9));
    m.record(7, 3);
    assert_eq!(m.lookup_local(7), Some(3));
    assert_eq!(m.lookup_remote(1), Some(9));
    assert_eq!(m.lookup_remote(3), Some(7));
    assert_eq!(m.len(), 3);
    m.record(7, 3);
    assert_eq!(m.len(), 3);
    m.clear();
    assert_eq!(m.lookup_local(8), None);
}

#[test]
fn connection_failure_resolves_each_pending_call_once() {
    let mut calls = PendingCalls::new();
    let a = calls.register();
    let b = calls.register();
    let c = calls.register();
    assert_eq!((a, b, c), (0, 1, 2));
    assert!(calls.resolve(b));
    assert!(!calls.resolve(b));
    let failed = calls.fail_all();
    assert_eq!(failed, vec![(a, Resolution::ConnectionFailed), (c, Resolution::ConnectionFailed)]);
    assert!(!calls.resolve(a));
    assert!(!calls.resolve(c));
    assert!(calls.fail_all().is_empty());
}
