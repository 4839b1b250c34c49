use netstat_registry::counters::{Counters, NetworkData};
use netstat_registry::registry::{Networks, Observation};

fn reading(bytes_in: u64, bytes_out: u64) -> Counters {
    Counters { bytes_in, bytes_out, packets_in: 7, packets_out: 9, errors_in: 1, errors_out: 2 }
}

fn seen(name: &str, id: u64, r: Counters) -> Observation {
    Observation { name: name.to_string(), id, reading: r }
}

fn lookup(n: &Networks, name: &str) -> Option<NetworkData> {
    n.get(&name.to_string())
}

#[test]
fn first_sight_has_zero_deltas_and_totals() {
    let mut n = Networks::new();
    n.refresh_networks_list(&vec![seen("en0", 4, reading(100, 50))]);
    let d = lookup(&n, "en0").unwrap();
    assert_eq!(d.get_total_received(), 100);
    assert_eq!(d.get_total_transmitted(), 50);
    assert_eq!(d.get_total_packets_received(), 7);
    assert_eq!(d.get_total_packets_transmitted(), 9);
    assert_eq!(d.get_total_errors_on_received(), 1);
    assert_eq!(d.get_total_errors_on_transmitted(), 2);
    assert_eq!(d.get_received(), 0);
    assert_eq!(d.get_transmitted(), 0);
    assert_eq!(d.get_packets_received(), 0);
    assert_eq!(d.get_packets_transmitted(), 0);
    assert_eq!(d.get_errors_on_received(), 0);
    assert_eq!(d.get_errors_on_transmitted(), 0);
    assert_eq!(d.handle(), 4);
}

#[test]
fn second_sight_reports_growth() {
    let mut n = Networks::new();
    n.refresh_networks_list(&vec![seen("en0", 4, reading(100, 50))]);
    let next = Counters { bytes_in: 130, bytes_out: 80, packets_in: 10, packets_out: 9, errors_in: 4, errors_out: 2 };
    n.refresh_networks_list(&vec![seen("en0", 99, next)]);
    let d = lookup(&n, "en0").unwrap();
    assert_eq!(d.get_received(), 30);
    assert_eq!(d.get_transmitted(), 30);
    assert_eq!(d.get_packets_received(), 3);
    assert_eq!(d.get_packets_transmitted(), 0);
    assert_eq!(d.get_errors_on_received(), 3);
    assert_eq!(d.get_errors_on_transmitted(), 0);
    assert_eq!(d.get_total_received(), 130);
    assert_eq!(d.handle(), 4);
}

#[test]
fn counter_reset_clamps_delta_to_zero() {
    let mut n = Networks::new();
    n.refresh_networks_list(&vec![seen("en0", 0, reading(1000, 500))]);
    n.refresh_networks_list(&vec![seen("en0", 0, reading(10, 600))]);
    let d = lookup(&n, "en0").unwrap();
    assert_eq!(d.get_received(), 0);
    assert_eq!(d.get_total_received(), 10);
    assert_eq!(d.get_transmitted(), 100);
}

#[test]
fn largest_counter_drop_does_not_underflow() {
    let mut n = Networks::new();
    n.refresh_networks_list(&vec![seen("en0", 0, reading(u64::MAX, 0))]);
    n.refresh_networks_list(&vec![seen("en0", 0, reading(0, u64::MAX))]);
    let d = lookup(&n, "en0").unwrap();
    assert_eq!(d.get_received(), 0);
    assert_eq!(d.get_transmitted(), u64::MAX);
}

#[test]
fn unreported_interface_is_evicted() {
    let mut n = Networks::new();
    n.refresh_networks_list(&vec![seen("en0", 1, reading(1, 1)), seen("en1", 2, reading(2, 2))]);
    assert_eq!(n.iter().len(), 2);
    n.refresh_networks_list(&vec![seen("en0", 1, reading(3, 3))]);
    assert_eq!(n.iter().len(), 1);
    assert!(lookup(&n, "en1").is_none());
    assert_eq!(n.iter()[0].0, "en0");
    assert_eq!(n.iter()[0].1.get_received(), 2);
}

#[test]
fn empty_rescan_evicts_everything() {
    let mut n = Networks::new();
    n.refresh_networks_list(&vec![seen("en0", 1, reading(1, 1))]);
    n.refresh_networks_list(&vec![]);
    assert!(n.iter().is_empty());
}

#[test]
fn repeated_name_in_one_rescan_rotates_twice() {
    let mut n = Networks::new();
    n.refresh_networks_list(&vec![seen("en0", 1, reading(10, 0)), seen("en0", 1, reading(25, 0))]);
    assert_eq!(n.iter().len(), 1);
    let d = lookup(&n, "en0").unwrap();
    assert_eq!(d.get_received(), 15);
    assert_eq!(d.get_total_received(), 25);
}

#[test]
fn refresh_keeps_membership() {
    let mut n = Networks::new();
    n.refresh_networks_list(&vec![seen("en0", 1, reading(10, 10)), seen("en1", 2, reading(20, 20))]);
    n.refresh(&vec![seen("en0", 1, reading(15, 12)), seen("wlan9", 3, reading(5, 5))]);
    assert_eq!(n.iter().len(), 2);
    assert!(lookup(&n, "wlan9").is_none());
    let d0 = lookup(&n, "en0").unwrap();
    assert_eq!(d0.get_received(), 5);
    assert_eq!(d0.get_transmitted(), 2);
    let d1 = lookup(&n, "en1").unwrap();
    assert_eq!(d1.get_received(), 0);
    assert_eq!(d1.get_total_received(), 20);
}

#[test]
fn refresh_of_empty_registry_adds_nothing() {
    let mut n = Networks::new();
    n.refresh(&vec![seen("en0", 1, reading(15, 12))]);
    assert!(n.iter().is_empty());
}
