use rambudget::clock::deadline_micros;
use rambudget::dash::DashTable;
use rambudget::slot::Slot;
use rambudget::table::SlotTable;
use rambudget::{
    BudgetStore, Clock, Cost, Duration, InsertOutcome, Instant, Pressure, QueueEntry, Stats,
    SystemClock,
};
use std::collections::VecDeque;
use std::sync::{Arc, Mutex};

struct ByteCost;

impl Cost<String, Vec<u8>> for ByteCost {
    fn entry_cost(key: &String, value: &Vec<u8>) -> usize {
        key.len() + value.len()
    }
}

struct CapacityCost;

impl Cost<String, Vec<u8>> for CapacityCost {
    fn entry_cost(k: &String, v: &Vec<u8>) -> usize {
        k.len() + v.capacity()
    }
}

struct NoCost;

impl Cost<String, Vec<u8>> for NoCost {
    fn entry_cost(_key: &String, _value: &Vec<u8>) -> usize {
        0
    }
}

#[derive(Clone)]
struct HandClock(Arc<Mutex<Instant>>);

impl Clock for HandClock {
    fn now(&self) -> Instant {
        *self.0.lock().unwrap()
    }
}

type HandStore = BudgetStore<String, Vec<u8>, ByteCost, HandClock>;

const START: u128 = 1_000_000_000;

fn hand_store<C: Cost<String, Vec<u8>>>(
    cap: usize,
) -> (
    BudgetStore<String, Vec<u8>, C, HandClock>,
    Arc<Mutex<Instant>>,
) {
    let t = Arc::new(Mutex::new(Instant { nanos: START }));
    (BudgetStore::with_clock(cap, HandClock(t.clone())), t)
}

fn set(t: &Arc<Mutex<Instant>>, nanos_after_start: u128) {
    t.lock().unwrap().nanos = START + nanos_after_start;
}

fn key(k: &str) -> String {
    k.to_string()
}

fn at(nanos: u128) -> Instant {
    Instant {
        nanos: START + nanos,
    }
}

fn nanos(n: u32) -> Duration {
    Duration {
        secs: 0,
        subsec_nanos: n,
    }
}

#[test]
fn quick_start_charges_key_and_capacity() {
    let payload = vec![0u8; 128];
    let mut store: BudgetStore<String, Vec<u8>, CapacityCost> = BudgetStore::new(1 << 30);
    match store.put("session:42".into(), payload.clone()) {
        Ok(InsertOutcome::Stored { charged }) => {
            assert_eq!(charged, "session:42".len() + 128);
        }
        Ok(InsertOutcome::Replaced { .. }) => panic!("nothing to replace"),
        Err(denied) => {
            let (key, value) = denied.into_pair();
            panic!("denied {} of {} bytes", key, value.len());
        }
    }
    assert_eq!(store.get(&key("session:42")), Some(payload));
}

#[test]
fn inline_cost_is_the_size_of_the_pair() {
    let mut s: BudgetStore<String, Vec<u8>> = BudgetStore::new(1000);
    let size = std::mem::size_of::<(String, Vec<u8>)>();
    assert_eq!(
        s.put(key("a"), vec![1; 500]),
        Ok(InsertOutcome::Stored { charged: size })
    );
    assert_eq!(s.reserved(), size);
}

#[test]
fn denial_reports_key_value_and_reason() {
    let (mut s, _t) = hand_store::<ByteCost>(12);
    s.put(key("a"), vec![0; 4]).unwrap();
    let d = s.put(key("bb"), vec![9; 8]).unwrap_err();
    assert_eq!(d.key(), "bb");
    assert_eq!(d.value(), &vec![9; 8]);
    assert_eq!(d.required(), 10);
    assert_eq!(d.available(), 7);
    assert_eq!(
        d.message("\"bb\""),
        "budget denied insert for key \"bb\": required 10 bytes, available 7"
    );
    assert_eq!(s.total_inserts(), 1);
    assert_eq!(s.get(&key("a")), Some(vec![0; 4]));
}

#[test]
fn denial_message_writes_zero_and_large_numbers() {
    let (mut s, _t) = hand_store::<ByteCost>(0);
    let d = s.put(key("k"), vec![0; 1_234_566]).unwrap_err();
    assert_eq!(
        d.message("k"),
        "budget denied insert for key k: required 1234567 bytes, available 0"
    );
}

#[test]
fn available_is_zero_above_the_cap() {
    let (mut s, _t) = hand_store::<ByteCost>(100);
    s.put(key("a"), vec![0; 50]).unwrap();
    assert_eq!(s.available(), 49);
    s.set_capacity(30);
    assert_eq!(s.capacity(), 30);
    assert_eq!(s.available(), 0);
    assert_eq!(
        s.pressure(),
        Pressure {
            numerator: 51,
            denominator: 30
        }
    );
    // growing is denied, shrinking is not, however full the store is
    assert!(s.put(key("a"), vec![0; 51]).is_err());
    assert_eq!(
        s.put(key("a"), vec![0; 49]),
        Ok(InsertOutcome::Replaced {
            freed: 51,
            charged: 50
        })
    );
    assert_eq!(s.reserved(), 50);
}

#[test]
fn free_entries_are_refused_above_the_cap() {
    let (mut s, _t) = hand_store::<NoCost>(0);
    assert_eq!(
        s.put(key("a"), vec![]),
        Ok(InsertOutcome::Stored { charged: 0 })
    );
    let (mut s, _t) = hand_store::<ByteCost>(10);
    s.put(key("a"), vec![0; 4]).unwrap();
    s.set_capacity(4);
    assert!(s.put(key(""), vec![]).is_err());
    s.set_capacity(5);
    assert!(s.put(key(""), vec![]).is_ok());
}

#[test]
fn pressure_without_capacity_is_zero() {
    let (s, _t) = hand_store::<ByteCost>(0);
    assert_eq!(
        s.pressure(),
        Pressure {
            numerator: 0,
            denominator: 1
        }
    );
}

#[test]
fn cap_lowered_to_zero_is_visible() {
    let mut s: BudgetStore<String, Vec<u8>, ByteCost> = BudgetStore::new(10);
    s.put(key("a"), vec![7u8; 4]).unwrap();
    assert_eq!(
        s.pressure(),
        Pressure {
            numerator: 5,
            denominator: 10
        }
    );
    s.set_capacity(0);
    let p = s.pressure();
    assert_eq!(
        p,
        Pressure {
            numerator: 5,
            denominator: 0
        }
    );
    assert!(p.numerator as f64 / p.denominator as f64 > 1.0);
}

#[test]
fn entry_as_old_as_the_window_stays() {
    let (mut s, t) = hand_store::<ByteCost>(100);
    s.put(key("a"), vec![7u8; 3]).unwrap();
    set(&t, 5_000_000_000);
    assert_eq!(s.evict_older_than(Duration::from_secs(5)), (0, 0));
    assert!(s.contains_key(&key("a")));
    assert_eq!(s.reserved(), 4);
    set(&t, 5_000_000_001);
    assert_eq!(s.evict_older_than(Duration::from_secs(5)), (1, 4));
}

#[test]
fn removed_entry_leaves_the_reclaim_order_as_it_was() {
    let (mut s, _t) = hand_store::<ByteCost>(100);
    s.put(key("a"), vec![0; 1]).unwrap();
    s.put(key("b"), vec![0; 2]).unwrap();
    s.put(key("c"), vec![0; 9]).unwrap();
    s.remove(&key("c"));
    assert_eq!((s.evict(1), s.evict(1), s.evict(1)), (2, 3, 0));
}

#[test]
fn stats_and_counters_agree() {
    let (mut s, _t) = hand_store::<ByteCost>(20);
    s.put(key("a"), vec![0; 4]).unwrap();
    s.put_with_ttl(key("b"), vec![0; 6], Some(Duration::from_secs(1)))
        .unwrap();
    s.put(key("a"), vec![0; 5]).unwrap();
    assert!(s.put(key("c"), vec![0; 30]).is_err());
    assert_eq!(
        s.stats(),
        Stats {
            capacity: 20,
            reserved: 13,
            len: 2,
            ttl_count: 1,
            denials: 1
        }
    );
    assert_eq!(s.total_inserts(), 3);
}

#[test]
fn ttl_count_follows_replace_remove_pin_and_evict() {
    let (mut s, t) = hand_store::<ByteCost>(1000);
    let ttl = Some(Duration::from_secs(1));
    for k in ["a", "b", "c", "d", "e"] {
        s.put_with_ttl(key(k), vec![0; 3], ttl).unwrap();
    }
    assert_eq!(s.ttl_count(), 5);
    s.put(key("a"), vec![0; 3]).unwrap();
    assert_eq!(s.ttl_count(), 4);
    s.put_with_ttl(key("a"), vec![0; 3], ttl).unwrap();
    s.put_with_ttl(key("a"), vec![0; 4], ttl).unwrap();
    assert_eq!(s.ttl_count(), 5);
    assert!(s.remove(&key("b")).is_some());
    assert_eq!(s.ttl_count(), 4);
    assert!(s.pin(&key("c")));
    assert!(!s.pin(&key("c")));
    assert!(!s.pin(&key("missing")));
    assert_eq!(s.ttl_count(), 3);
    assert_eq!(s.evict(1), 5);
    assert_eq!(s.ttl_count(), 2);
    set(&t, 2_000_000_000);
    assert_eq!(s.evict_expired(), (2, 8));
    assert_eq!(s.ttl_count(), 0);
    assert_eq!(s.evict_expired(), (0, 0));
    assert!(s.contains_key(&key("c")));
    assert_eq!(s.len(), 1);
}

#[test]
fn sweep_of_free_entries_is_counted() {
    let (mut s, t) = hand_store::<NoCost>(10);
    s.put_with_ttl(key("a"), vec![], Some(nanos(1))).unwrap();
    s.put_with_ttl(key("b"), vec![], Some(nanos(1))).unwrap();
    s.put(key("c"), vec![]).unwrap();
    assert_eq!(s.ttl_count(), 2);
    set(&t, 5_000);
    assert_eq!(s.evict_expired(), (2, 0));
    assert_eq!(s.ttl_count(), 0);
    assert_eq!(s.len(), 1);
}

#[test]
fn pinned_entry_outlives_its_expiry() {
    let (mut s, t) = hand_store::<ByteCost>(100);
    s.put_with_ttl(key("k"), vec![1, 2, 3], Some(Duration::from_secs(5)))
        .unwrap();
    set(&t, 4_000_000_000);
    assert!(s.pin(&key("k")));
    assert_eq!(s.reserved(), 4);
    set(&t, 60_000_000_000);
    assert_eq!(s.get(&key("k")), Some(vec![1, 2, 3]));
    assert_eq!(s.evict_expired(), (0, 0));
}

#[test]
fn expiry_counts_whole_microseconds() {
    let (mut s, _t) = hand_store::<ByteCost>(100);
    s.put_with_ttl(key("k"), vec![0], Some(nanos(2_500))).unwrap();
    assert!(s.contains_key_at(&key("k"), at(1_999)));
    assert!(!s.contains_key_at(&key("k"), at(2_000)));
    assert!(!s.contains_key_at(&key("k"), at(2_500)));
    assert_eq!(s.get_with_at(&key("k"), at(0), |v| v.len()), Some(1));
    assert_eq!(s.get_with_at(&key("k"), at(2_000), |v| v.len()), None);
    // a time to live of nothing has passed at once
    s.put_with_ttl(key("z"), vec![0], Some(nanos(0))).unwrap();
    assert!(!s.contains_key(&key("z")));
    assert_eq!(s.ttl_count(), 2);
}

#[test]
fn enormous_ttl_comes_on_time() {
    let (mut s, _t) = hand_store::<ByteCost>(100);
    let forever = Duration {
        secs: u64::MAX,
        subsec_nanos: 999_999_999,
    };
    s.put_with_ttl(key("k"), vec![0], Some(forever)).unwrap();
    assert_eq!(s.ttl_count(), 1);
    let end = START + forever.as_nanos();
    assert!(s.contains_key_at(&key("k"), Instant { nanos: end - 1_000 }));
    assert_eq!(s.evict_expired_at(Instant { nanos: end - 1_000 }), (0, 0));
    assert_eq!(s.evict_expired_at(Instant { nanos: end }), (1, 2));
}

#[test]
fn clock_before_origin_counts_as_origin() {
    let (mut s, _t) = hand_store::<ByteCost>(100);
    s.put_with_ttl(key("k"), vec![0], Some(nanos(1_000))).unwrap();
    assert!(s.contains_key_at(&key("k"), Instant { nanos: 0 }));
    assert!(!s.contains_key_at(&key("k"), at(1_000)));
}

#[test]
fn put_at_takes_cost_and_time() {
    let (mut s, _t) = hand_store::<ByteCost>(100);
    assert_eq!(
        s.put_at(key("k"), vec![0; 9], 60, None, at(0)),
        Ok(InsertOutcome::Stored { charged: 60 })
    );
    let d = s
        .put_at(key("l"), vec![0; 9], 41, None, at(0))
        .unwrap_err();
    assert_eq!((d.required(), d.available()), (41, 40));
    let d = s
        .put_at(key("l"), vec![], usize::MAX, None, at(0))
        .unwrap_err();
    assert_eq!((d.required(), d.available()), (usize::MAX, 40));
    assert_eq!(
        s.put_at(key("l"), vec![0; 9], 40, None, at(0)),
        Ok(InsertOutcome::Stored { charged: 40 })
    );
    assert_eq!(s.available(), 0);
}

#[test]
fn age_eviction_stops_at_the_first_young_entry() {
    let (mut s, t) = hand_store::<ByteCost>(1000);
    for (i, k) in ["a", "b", "c", "d"].iter().enumerate() {
        set(&t, i as u128 * 1_000_000_000);
        s.put(key(k), vec![0; 9]).unwrap();
    }
    s.put_with_ttl(key("b"), vec![0; 4], Some(Duration::from_secs(60)))
        .unwrap();
    s.remove(&key("a"));
    set(&t, 4_000_000_000);
    // a is gone, b is three seconds old, c two: not older than the window
    assert_eq!(s.evict_older_than(Duration::from_secs(2)), (1, 5));
    assert!(s.contains_key(&key("c")));
    set(&t, 4_000_000_001);
    assert_eq!(s.evict_older_than(Duration::from_secs(2)), (1, 10));
    assert_eq!(s.ttl_count(), 0);
    assert!(s.contains_key(&key("d")));
    assert_eq!(s.len(), 1);
    assert_eq!(s.queue_lock().len(), 1);
    assert_eq!(s.evict_older_than_at(nanos(1), at(3_000_000_000)), (0, 0));
    assert_eq!(s.evict_older_than_at(nanos(0), at(3_000_000_000)), (0, 0));
    assert_eq!(s.evict_older_than_at(nanos(1), at(3_000_000_001)), (0, 0));
    assert_eq!(s.evict_older_than_at(nanos(0), at(3_000_000_001)), (1, 10));
    assert_eq!(s.reserved(), 0);
}

#[test]
fn age_window_beyond_the_clock_evicts_nothing() {
    let (mut s, _t) = hand_store::<ByteCost>(1000);
    s.put(key("a"), vec![0; 9]).unwrap();
    assert_eq!(s.evict_older_than(Duration::from_secs(u64::MAX)), (0, 0));
    assert_eq!(s.len(), 1);
}

#[test]
fn readmitted_key_is_not_evicted_by_its_stale_node() {
    let (mut s, _t) = hand_store::<ByteCost>(1000);
    s.put(key("first"), vec![]).unwrap();
    s.put(key("a"), vec![0; 2]).unwrap();
    s.remove(&key("a"));
    s.put(key("b"), vec![0; 3]).unwrap();
    s.put(key("a"), vec![0; 4]).unwrap();
    assert_eq!(s.queue_lock().len(), 4);
    // first, then the stale node of a is passed over, then b
    assert_eq!(s.evict(2), 5 + 4);
    assert!(s.contains_key(&key("a")));
    assert_eq!(s.queue_lock().len(), 1);
    assert_eq!(s.evict(7), 5);
    assert!(s.is_empty());
    assert_eq!(s.evict(1), 0);
}

#[test]
fn evict_nothing_leaves_the_queue_alone() {
    let (mut s, _t) = hand_store::<ByteCost>(1000);
    s.put(key("a"), vec![0; 2]).unwrap();
    s.put(key("b"), vec![0; 2]).unwrap();
    s.remove(&key("a"));
    assert_eq!(s.evict(0), 0);
    assert_eq!(s.queue_lock().len(), 2);
}

#[test]
fn admission_trims_at_most_eight_stale_nodes() {
    let (mut s, _t) = hand_store::<ByteCost>(100_000);
    for i in 0..20 {
        s.put(format!("k{i}"), vec![0; 2]).unwrap();
    }
    for i in 0..19 {
        s.remove(&format!("k{i}"));
    }
    assert_eq!(s.queue_lock().len(), 20);
    s.put(key("x"), vec![]).unwrap();
    assert_eq!(s.queue_lock().len(), 13);
    s.put(key("y"), vec![]).unwrap();
    assert_eq!(s.queue_lock().len(), 6);
    s.put(key("z"), vec![]).unwrap();
    assert_eq!(s.queue_lock().len(), 4);
    // a replacement does no upkeep
    s.put(key("z"), vec![1]).unwrap();
    assert_eq!(s.queue_lock().len(), 4);
}

#[test]
fn long_stale_queue_is_compacted() {
    let (mut s, _t) = hand_store::<ByteCost>(1_000_000);
    s.put(key("head"), vec![]).unwrap();
    for i in 0..1030 {
        s.put(format!("k{i}"), vec![0; 2]).unwrap();
    }
    for i in 0..1000 {
        s.remove(&format!("k{i}"));
    }
    assert_eq!(s.queue_lock().len(), 1031);
    s.put(key("tail"), vec![0; 9]).unwrap();
    assert_eq!(s.queue_lock().len(), 32);
    assert_eq!(s.len(), 32);
    // the order survives: the head goes first, the tail last
    assert_eq!(s.evict(1), 4);
    assert_eq!(s.evict(30), 30 * 7);
    assert!(s.contains_key(&key("tail")));
    assert_eq!(s.evict(1), 13);
}

#[test]
fn clear_keeps_lifetime_counters() {
    let (mut s, _t) = hand_store::<ByteCost>(10);
    s.put_with_ttl(key("a"), vec![0; 4], Some(nanos(9))).unwrap();
    assert!(s.put(key("b"), vec![0; 40]).is_err());
    s.clear();
    assert!(s.is_empty());
    assert_eq!((s.reserved(), s.ttl_count(), s.len()), (0, 0, 0));
    assert_eq!((s.denials(), s.total_inserts(), s.capacity()), (1, 1, 10));
    assert_eq!(s.queue_lock().len(), 0);
    assert_eq!(
        s.put(key("a"), vec![0; 9]),
        Ok(InsertOutcome::Stored { charged: 10 })
    );
}

#[test]
fn default_store_has_no_room() {
    let mut s: BudgetStore<String, Vec<u8>, ByteCost> = BudgetStore::default();
    assert_eq!(s.capacity(), 0);
    assert!(s.put(key("a"), vec![]).is_err());
}

#[test]
fn system_clock_moves_forward() {
    let clock = SystemClock::start();
    let a = clock.now();
    let mut b = clock.now();
    while b.nanos == a.nanos {
        b = clock.now();
    }
    assert!(b.nanos > a.nanos);
    let mut s: BudgetStore<String, Vec<u8>, ByteCost> = BudgetStore::with_clock(100, clock);
    s.put_with_ttl(key("long"), vec![], Some(Duration::from_secs(3600)))
        .unwrap();
    s.put_with_ttl(key("now"), vec![], Some(nanos(0))).unwrap();
    assert!(s.contains_key(&key("long")));
    assert!(!s.contains_key(&key("now")));
    assert_eq!(s.evict_expired(), (1, 3));
}

#[test]
fn time_goes_on_after_a_million_years() {
    let (mut s, t) = hand_store::<ByteCost>(100);
    s.put(key("old"), vec![0; 4]).unwrap();
    s.put_with_ttl(key("short"), vec![0; 4], Some(Duration::from_secs(10)))
        .unwrap();
    let age = Duration::from_secs(1_000_000 * 31_536_000);
    set(&t, age.as_nanos());
    assert!(!s.contains_key(&key("short")));
    s.put_with_ttl(key("k"), vec![0; 4], Some(Duration::from_secs(10)))
        .unwrap();
    assert!(s.contains_key(&key("k")));
    assert_eq!(s.evict_older_than(age), (0, 0));
    set(&t, age.as_nanos() + 9_999_999_999);
    assert!(s.contains_key(&key("k")));
    assert_eq!(s.evict_expired(), (1, 9));
    assert_eq!(s.evict_older_than(age), (1, 7));
    set(&t, age.as_nanos() + 10_000_000_000);
    assert!(!s.contains_key(&key("k")));
    assert_eq!(s.evict_expired(), (1, 5));
}

#[test]
fn deadline_may_lie_beyond_the_last_point() {
    let last = Instant { nanos: u128::MAX };
    let t = Arc::new(Mutex::new(last));
    let mut s: HandStore = BudgetStore::with_clock(100, HandClock(t));
    s.put_with_ttl(key("k"), vec![0; 4], Some(nanos(1_000)))
        .unwrap();
    assert!(s.contains_key(&key("k")));
    assert_eq!(deadline_micros(last, last, Some(nanos(1_999))), 2);
    assert_eq!(deadline_micros(at(0), at(1_500), Some(nanos(1_500))), 4);
    assert_eq!(deadline_micros(at(5_000), at(0), Some(nanos(7_000))), 3);
    assert_eq!(deadline_micros(at(5_000), at(0), Some(nanos(4_000))), 1);
    assert_eq!(deadline_micros(at(0), at(0), None), 0);
}

#[test]
fn denial_prints_key_and_reason_without_the_value() {
    let (mut s, _t) = hand_store::<ByteCost>(12);
    let d = s.put(key("bb"), vec![9; 12]).unwrap_err();
    assert_eq!(
        format!("{:?}", d),
        "Denied { key: \"bb\", required: 14, available: 12 }"
    );
    assert_eq!(
        format!("{:#?}", d),
        "Denied {\n    key: \"bb\",\n    required: 14,\n    available: 12,\n}"
    );
}

#[test]
fn store_prints_its_counters() {
    let mut s: BudgetStore<String, Vec<u8>, ByteCost> = BudgetStore::new(20);
    s.put(key("a"), vec![0; 4]).unwrap();
    s.put_with_ttl(key("b"), vec![0; 6], Some(Duration::from_secs(3600)))
        .unwrap();
    assert!(s.put(key("c"), vec![0; 30]).is_err());
    assert_eq!(
        format!("{:?}", s),
        "BudgetStore { capacity: 20, reserved: 12, denials: 1, ttl_count: 1, len: 2 }"
    );
}

fn queue_of(nodes: &[(&str, u64)]) -> VecDeque<QueueEntry<String>> {
    nodes
        .iter()
        .map(|&(k, generation)| QueueEntry::new(key(k), at(0), generation))
        .collect()
}

fn table_of(nodes: &[(&str, u64)]) -> DashTable<String, Vec<u8>> {
    let mut table: DashTable<String, Vec<u8>> = SlotTable::empty();
    for &(k, generation) in nodes {
        let slot = Slot {
            value: vec![],
            cost: 0,
            expires_at_micros: 0,
            generation,
        };
        table.insert(key(k), slot);
    }
    table
}

fn generations(queue: &VecDeque<QueueEntry<String>>) -> Vec<u64> {
    queue.iter().map(|node| node.generation()).collect()
}

#[test]
fn compaction_keeps_live_nodes_in_order() {
    let table = table_of(&[("a", 5), ("c", 3), ("d", 6)]);
    let mut q = queue_of(&[("a", 1), ("b", 2), ("c", 3), ("e", 4), ("a", 5), ("d", 6)]);
    HandStore::compact_queue_locked(&table, &mut q);
    assert_eq!(generations(&q), vec![3, 5, 6]);
    HandStore::compact_queue_locked(&table, &mut q);
    assert_eq!(generations(&q), vec![3, 5, 6]);
    assert_eq!(table.len(), 3);
}

#[test]
fn trimming_stops_at_the_first_live_node() {
    let table = table_of(&[("c", 3)]);
    let mut q = queue_of(&[("a", 1), ("b", 2), ("c", 3), ("d", 4)]);
    HandStore::trim_stale_head(&table, &mut q);
    assert_eq!(generations(&q), vec![3, 4]);
    HandStore::trim_stale_head(&table, &mut q);
    assert_eq!(generations(&q), vec![3, 4]);
}

#[test]
fn many_writers_in_turn_never_break_the_cap() {
    let (mut s, _t) = hand_store::<ByteCost>(100);
    for i in 0..50 {
        for t in 0..8 {
            let _ = s.put(format!("k{t}_{i}"), vec![0u8; 3]);
            assert!(s.reserved() <= 100);
        }
    }
    assert_eq!(s.reserved(), 14 * 7);
    assert_eq!(s.len(), 14);
    assert_eq!(s.denials(), 400 - 14);
}

#[test]
fn same_key_is_charged_once() {
    let (mut s, _t) = hand_store::<ByteCost>(100);
    for _ in 0..8 {
        let _ = s.put(key("hot"), vec![0u8; 4]);
    }
    assert_eq!(s.len(), 1);
    assert_eq!(s.reserved(), 7);
}

#[test]
fn remove_undoes_put() {
    let (mut s, _t) = hand_store::<ByteCost>(100);
    s.put(key("a"), vec![1; 4]).unwrap();
    let before = s.stats();
    s.put_with_ttl(key("b"), vec![2; 9], Some(nanos(7))).unwrap();
    assert_ne!(s.stats(), before);
    assert_eq!(s.remove(&key("b")), Some(vec![2; 9]));
    assert_eq!(s.stats(), before);
}
