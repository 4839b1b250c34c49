use netstat_registry::registry::Networks;
use netstat_registry::table::{
    alias_units, count_group, keeps_row, row_counters, row_observation, same_group, table_observations, IfRow,
    MEDIA_CONNECT_STATE_DISCONNECTED,
};

fn alias(name: &str) -> Vec<u16> {
    let mut a: Vec<u16> = name.encode_utf16().collect();
    a.resize(257, 0);
    a
}

fn row(luid: u64, name: &str, group: u16) -> IfRow {
    IfRow {
        luid,
        guid_data2: group,
        guid_data3: 0x11d1,
        guid_data4: [1, 2, 3, 4, 5, 6, 7, 8],
        transmit_link_speed: 1_000_000_000,
        receive_link_speed: 1_000_000_000,
        media_connect_state: 1,
        physical_address_length: 6,
        alias: alias(name),
        in_octets: 100,
        out_octets: 50,
        in_ucast_pkts: 10,
        in_nucast_pkts: 3,
        out_ucast_pkts: 20,
        out_nucast_pkts: 4,
        in_errors: 1,
        out_errors: 2,
    }
}

#[test]
fn shared_group_rows_are_dropped() {
    let rows = vec![row(1, "Ethernet", 7), row(2, "Ethernet alias", 7), row(3, "Wi-Fi", 8)];
    assert!(!keeps_row(&rows, 0));
    assert!(!keeps_row(&rows, 1));
    assert!(keeps_row(&rows, 2));
    assert_eq!(count_group(&rows, &rows[0]), 2);
    let obs = table_observations(&rows);
    assert_eq!(obs.len(), 1);
    assert_eq!(obs[0].name, "Wi-Fi");
    assert_eq!(obs[0].id, 3);
}

#[test]
fn unique_row_that_fails_checks_is_dropped_too() {
    let mut rows = vec![row(1, "a", 7), row(2, "b", 7), row(3, "c", 8)];
    rows[2].physical_address_length = 0;
    assert!(table_observations(&rows).is_empty());
}

#[test]
fn group_counts_the_whole_table() {
    let mut rows = vec![row(1, "a", 7), row(2, "b", 7)];
    rows[1].media_connect_state = MEDIA_CONNECT_STATE_DISCONNECTED;
    assert!(!keeps_row(&rows, 0));
}

#[test]
fn zero_link_speed_row_is_excluded() {
    let mut r = row(1, "Ethernet", 7);
    r.transmit_link_speed = 0;
    r.receive_link_speed = 0;
    let rows = vec![r];
    assert!(!keeps_row(&rows, 0));
    assert!(table_observations(&rows).is_empty());
}

#[test]
fn one_link_speed_is_enough() {
    let mut r = row(1, "Ethernet", 7);
    r.transmit_link_speed = 0;
    assert!(keeps_row(&vec![r], 0));
}

#[test]
fn disconnected_row_is_excluded() {
    let mut r = row(1, "Ethernet", 7);
    r.media_connect_state = MEDIA_CONNECT_STATE_DISCONNECTED;
    assert!(!keeps_row(&vec![r], 0));
}

#[test]
fn row_without_physical_address_is_excluded() {
    let mut r = row(1, "Ethernet", 7);
    r.physical_address_length = 0;
    assert!(!keeps_row(&vec![r], 0));
}

#[test]
fn guid_tail_decides_the_group() {
    let a = row(1, "a", 7);
    let mut b = row(2, "b", 7);
    assert!(same_group(&a, &b));
    b.guid_data4[7] = 9;
    assert!(!same_group(&a, &b));
    assert!(keeps_row(&vec![a, b], 0));
}

#[test]
fn packets_sum_unicast_and_non_unicast() {
    let c = row_counters(&row(1, "a", 7));
    assert_eq!(c.packets_in, 13);
    assert_eq!(c.packets_out, 24);
    assert_eq!(c.bytes_in, 100);
    assert_eq!(c.bytes_out, 50);
    assert_eq!(c.errors_in, 1);
    assert_eq!(c.errors_out, 2);
}

#[test]
fn packet_sum_wraps() {
    let mut r = row(1, "a", 7);
    r.in_ucast_pkts = u64::MAX;
    r.in_nucast_pkts = 2;
    assert_eq!(row_counters(&r).packets_in, 1);
}

#[test]
fn alias_stops_at_first_nul() {
    let r = row(1, "Wi-Fi", 7);
    assert_eq!(alias_units(&r), &"Wi-Fi".encode_utf16().collect::<Vec<u16>>()[..]);
    let mut full = row(1, "", 7);
    full.alias = vec![0x41, 0x42];
    assert_eq!(alias_units(&full), &[0x41, 0x42]);
    let mut empty = row(1, "", 7);
    empty.alias = vec![];
    assert!(alias_units(&empty).is_empty());
}

#[test]
fn non_ascii_alias_decodes() {
    let rows = vec![row(5, "Ethernet \u{e9}\u{1F600}", 7)];
    let obs = table_observations(&rows);
    assert_eq!(obs.len(), 1);
    assert_eq!(obs[0].name, "Ethernet \u{e9}\u{1F600}");
}

#[test]
fn invalid_alias_is_skipped() {
    let mut r = row(1, "x", 7);
    r.alias[0] = 0xD800;
    r.alias[1] = 0x41;
    let rows = vec![r, row(2, "ok", 8)];
    let obs = table_observations(&rows);
    assert_eq!(obs.len(), 1);
    assert_eq!(obs[0].name, "ok");
}

#[test]
fn row_observation_carries_handle_and_counters() {
    let o = row_observation(&row(42, "a", 7), "Local Area".to_string());
    assert_eq!(o.name, "Local Area");
    assert_eq!(o.id, 42);
    assert_eq!(o.reading.packets_in, 13);
}

#[test]
fn table_scan_feeds_registry() {
    let mut n = Networks::new();
    n.refresh_networks_list(&table_observations(&vec![row(9, "Ethernet", 7)]));
    let mut later = row(10, "Ethernet", 7);
    later.in_octets = 160;
    n.refresh_networks_list(&table_observations(&vec![later]));
    let d = n.get(&"Ethernet".to_string()).unwrap();
    assert_eq!(d.get_received(), 60);
    assert_eq!(d.handle(), 9);
}
