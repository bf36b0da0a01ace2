use vssard::client::{next_vehicle_speed, on_sub_applied, Metadata as Cache, SubscriptionGate};
use vssard::metadata::Metadata;

fn snapshot(pairs: &[(&str, u32)]) -> Vec<Metadata> {
    pairs
        .iter()
        .map(|(p, id)| {
            Metadata::new(
                String::from(*p),
                String::new(),
                String::new(),
                String::from("float"),
                *id,
            )
        })
        .collect()
}

#[test]
fn gate_is_closed_before_a_snapshot() {
    let gate = SubscriptionGate::new();
    assert!(!gate.is_ready());
    assert_eq!(gate.resolve(&String::from("Vehicle.Speed")), None);
}

#[test]
fn snapshot_opens_gate_and_fills_cache() {
    let mut gate = SubscriptionGate::new();
    on_sub_applied(&mut gate, &snapshot(&[("B", 1), ("A", 0), ("C", 2)]));
    assert!(gate.is_ready());
    assert_eq!(gate.resolve(&String::from("A")), Some(0));
    assert_eq!(gate.resolve(&String::from("B")), Some(1));
    assert_eq!(gate.resolve(&String::from("C")), Some(2));
}

#[test]
fn absent_path_is_not_found() {
    let mut gate = SubscriptionGate::new();
    on_sub_applied(&mut gate, &snapshot(&[("A", 0)]));
    assert_eq!(gate.resolve(&String::from("Z")), None);
}

#[test]
fn later_snapshot_drops_stale_ids() {
    let mut gate = SubscriptionGate::new();
    on_sub_applied(&mut gate, &snapshot(&[("Old", 5)]));
    on_sub_applied(&mut gate, &snapshot(&[("New", 0)]));
    assert_eq!(gate.resolve(&String::from("Old")), None);
    assert_eq!(gate.resolve(&String::from("New")), Some(0));
}

#[test]
fn empty_snapshot_still_opens_gate() {
    let mut gate = SubscriptionGate::new();
    on_sub_applied(&mut gate, &Vec::new());
    assert!(gate.is_ready());
    assert_eq!(gate.resolve(&String::from("A")), None);
}

#[test]
fn cache_add_replaces_earlier_id() {
    let mut cache = Cache::new();
    assert_eq!(cache.get(&String::from("P")), None);
    cache.add(String::from("P"), 1);
    cache.add(String::from("Q"), 2);
    cache.add(String::from("P"), 3);
    assert_eq!(cache.get(&String::from("P")), Some(3));
    assert_eq!(cache.get(&String::from("Q")), Some(2));
}

#[test]
fn speed_is_a_sawtooth() {
    assert_eq!(next_vehicle_speed(0), 1);
    assert_eq!(next_vehicle_speed(249), 250);
    assert_eq!(next_vehicle_speed(250), 0);
    assert_eq!(next_vehicle_speed(u32::MAX), 0);
    let mut v = 0u32;
    for _ in 0..251 {
        v = next_vehicle_speed(v);
    }
    assert_eq!(v, 0);
}
