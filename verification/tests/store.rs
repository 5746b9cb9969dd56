use rambudget::{
    BudgetStore, Clock, Cost, Duration, InsertOutcome, Instant,
};
use std::sync::{Arc, Mutex};

struct ByteCost;

impl Cost<String, Vec<u8>> for ByteCost {
    fn entry_cost(key: &String, value: &Vec<u8>) -> usize {
        key.len() + value.len()
    }
}

fn store(cap: usize) -> BudgetStore<String, Vec<u8>, ByteCost> {
    BudgetStore::new(cap)
}

fn entry(k: &str, n: usize) -> (String, Vec<u8>) {
    (k.to_string(), vec![7u8; n])
}

#[test]
fn admits_until_full_then_denies_without_state_change() {
    let mut s = store(10);
    let (k, v) = entry("a", 4); // cost 5
    assert_eq!(s.put(k, v), Ok(InsertOutcome::Stored { charged: 5 }));

    let (k, v) = entry("bb", 8); // cost 10 -> 15 > 10 -> denied
    let d = s.put(k.clone(), v.clone()).unwrap_err();
    assert_eq!(d.key(), &k);
    assert_eq!(d.required(), 10);
    assert_eq!(d.into_pair(), (k, v));
    assert_eq!(s.reserved(), 5);
    assert_eq!(s.len(), 1);
    assert_eq!(s.denials(), 1);
}

#[test]
fn zero_capacity_admits_nothing() {
    let mut s = store(0);
    let (k, v) = entry("a", 1);
    assert!(s.put(k, v).is_err());
    assert_eq!(s.reserved(), 0);
    assert!(s.is_empty());
}

#[test]
fn replace_grow_charges_delta_only() {
    let mut s = store(10);
    let (k, v) = entry("k", 2); // cost 3
    s.put(k.clone(), v).unwrap();

    let (k, v) = entry("k", 7); // cost 8, delta 5, total 8 <= 10
    assert_eq!(
        s.put(k, v),
        Ok(InsertOutcome::Replaced {
            freed: 3,
            charged: 8
        })
    );
    assert_eq!(s.reserved(), 8);
    assert_eq!(s.len(), 1);
}

#[test]
fn replace_denied_keeps_old_entry_intact() {
    let mut s = store(10);
    let (k, v) = entry("k", 2); // cost 3
    s.put(k.clone(), v).unwrap();

    let (k2, v2) = entry("k", 20); // cost 21, delta 18 -> denied
    let d = s.put(k2.clone(), v2.clone()).unwrap_err();
    assert_eq!(d.into_pair(), (k2, v2));
    assert_eq!(s.reserved(), 3);
    assert_eq!(s.get(&k).unwrap().len(), 2);
}

#[test]
fn replace_shrink_refunds() {
    let mut s = store(10);
    let (k, v) = entry("k", 8); // cost 9
    s.put(k.clone(), v).unwrap();

    let (k, v) = entry("k", 1); // cost 2
    assert_eq!(
        s.put(k, v),
        Ok(InsertOutcome::Replaced {
            freed: 9,
            charged: 2
        })
    );
    assert_eq!(s.reserved(), 2);
}

#[test]
fn replace_same_cost_touches_no_gate() {
    let mut s = store(5);
    let (k, v) = entry("a", 4); // cost 5, exactly fills store
    s.put(k.clone(), v).unwrap();

    let (k, v) = entry("a", 4); // same cost replacement
    assert_eq!(
        s.put(k, v),
        Ok(InsertOutcome::Replaced {
            freed: 5,
            charged: 5
        })
    );
    assert_eq!(s.reserved(), 5);
    assert_eq!(s.denials(), 0);
}

#[test]
fn get_with_reads_without_clone() {
    let mut s = store(100);
    s.put(entry("k", 3).0, entry("k", 3).1).unwrap();
    let sum = s.get_with(&"k".to_string(), |v| v.iter().sum::<u8>());
    assert_eq!(sum, Some(21));
    assert!(s.get_with(&"missing".to_string(), |_| 0).is_none());
}

#[test]
fn remove_refunds_exactly() {
    let mut s = store(10);
    let (k, v) = entry("x", 5); // cost 6
    s.put(k.clone(), v).unwrap();
    assert_eq!(s.remove(&k).unwrap().len(), 5);
    assert_eq!(s.reserved(), 0);
    assert!(s.remove(&k).is_none());
}

#[test]
fn shrink_capacity_refuses_admission_not_evicts() {
    let mut s = store(100);
    let (k, v) = entry("a", 50); // cost 51
    s.put(k, v).unwrap();

    s.set_capacity(30);
    assert_eq!(s.len(), 1);
    let (k, v) = entry("b", 1);
    assert!(s.put(k, v).is_err());
    let p = s.pressure();
    assert!(p.numerator as f64 / p.denominator as f64 > 1.0);
}

#[test]
fn evict_is_fifo_and_refunds() {
    let mut s = store(12);
    s.put(entry("a", 3).0, entry("a", 3).1).unwrap(); // cost 4
    s.put(entry("b", 3).0, entry("b", 3).1).unwrap(); // cost 4
    s.put(entry("c", 3).0, entry("c", 3).1).unwrap(); // cost 4, full

    let (k, v) = entry("d", 3);
    assert!(s.put(k.clone(), v.clone()).is_err());

    let reclaimed = s.evict(1);
    assert_eq!(reclaimed, 4);
    assert_eq!(s.reserved(), 8);
    assert!(s.contains_key(&"b".to_string()));
    assert!(!s.contains_key(&"a".to_string()));

    s.put(k, v).unwrap();
}

#[test]
fn evict_skips_stale_queue_entries_via_generations() {
    let mut s = store(100);
    for i in 0..10 {
        let (k, v) = entry(&format!("k{i}"), 3);
        s.put(k, v).unwrap();
    }

    s.remove(&"k2".to_string());
    s.remove(&"k7".to_string());
    assert_eq!(s.reserved(), 40);

    let reclaimed = s.evict(3);
    assert_eq!(reclaimed, 15);
    assert_eq!(s.reserved(), 25);
    assert_eq!(s.len(), 5);
    assert!(!s.contains_key(&"k3".to_string()));
    assert!(s.contains_key(&"k4".to_string()));
}

#[test]
fn replace_preserves_fifo_position() {
    let mut s = store(100);
    s.put(entry("a", 3).0, entry("a", 3).1).unwrap();
    s.put(entry("b", 3).0, entry("b", 3).1).unwrap();

    let (k, v) = entry("a", 9);
    s.put(k, v).unwrap();

    assert_eq!(s.queue_lock().len(), 2);
    assert_eq!(s.evict(1), 10);
    assert_eq!(s.len(), 1);
    assert!(s.contains_key(&"b".to_string()));
}

#[test]
fn queue_compaction_prevents_unbounded_leak() {
    let mut s = store(50_000);
    for i in 0..2000 {
        let k = format!("zombie_{i}");
        s.put(k.clone(), vec![0u8; 2]).unwrap();
        s.remove(&k);
    }
    assert_eq!(s.len(), 0);

    for i in 0..2000 {
        s.put(format!("live_{i}"), vec![0u8; 2]).unwrap();
    }

    let q_len = s.queue_lock().len();
    let map_len = s.len();
    assert!(
        q_len <= map_len * 2 + 10,
        "queue leaked: q={q_len} map={map_len}"
    );
}

#[derive(Clone)]
struct FakeClock(Arc<Mutex<Instant>>);

impl FakeClock {
    fn start() -> (Self, Arc<Mutex<Instant>>) {
        let t = Arc::new(Mutex::new(Instant { nanos: 5_000_000_000 }));
        (Self(t.clone()), t)
    }
}

impl Clock for FakeClock {
    fn now(&self) -> Instant {
        *self.0.lock().unwrap()
    }
}

type FakeTime = Arc<Mutex<Instant>>;

fn fake_store(cap: usize) -> (BudgetStore<String, Vec<u8>, ByteCost, FakeClock>, FakeTime) {
    let (clk, t) = FakeClock::start();
    (BudgetStore::with_clock(cap, clk), t)
}

fn advance(t: &FakeTime, d: Duration) {
    t.lock().unwrap().nanos += d.as_nanos();
}

#[test]
fn expired_reads_as_absent_but_holds_budget() {
    let (mut s, t) = fake_store(100);
    let k = "a".to_string();
    s.put_with_ttl(k.clone(), vec![0u8; 9], Some(Duration::from_secs(10)))
        .unwrap();
    assert_eq!(s.ttl_count(), 1);

    advance(&t, Duration::from_secs(11));
    assert!(s.get(&k).is_none());
    assert!(!s.contains_key(&k));
    assert_eq!(s.reserved(), 10);

    let (n, bytes) = s.evict_expired();
    assert_eq!((n, bytes), (1, 10));
    assert_eq!(s.reserved(), 0);
    assert_eq!(s.ttl_count(), 0);
}

#[test]
fn evict_expired_does_not_kill_overwritten_key() {
    let (mut s, t) = fake_store(100);
    let k = "key".to_string();
    s.put_with_ttl(k.clone(), vec![0u8; 4], Some(Duration::from_secs(5)))
        .unwrap();

    advance(&t, Duration::from_secs(6));
    s.put(k.clone(), vec![0u8; 4]).unwrap();

    let (n, bytes) = s.evict_expired();
    assert_eq!((n, bytes), (0, 0));
    assert!(s.contains_key(&k));
}

#[test]
fn pin_cannot_resurrect_already_expired_entry() {
    let (mut s, t) = fake_store(100);
    let k = "k".to_string();
    s.put_with_ttl(k.clone(), vec![0u8; 4], Some(Duration::from_secs(5)))
        .unwrap();

    advance(&t, Duration::from_secs(10));
    assert!(!s.pin(&k));
    assert!(s.get(&k).is_none());
}
