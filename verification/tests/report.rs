//! Configuration, ranking and packet-decoding behaviour.

use netspy::config::{App, ConfigError};
use netspy::driver::{get_index, process_packet, step};
use netspy::window::WindowBuffer;

fn addr(s: &str) -> String {
    s.to_string()
}

fn obs(s: &str) -> Option<String> {
    Some(s.to_string())
}

/// A minimal Ethernet II frame carrying an IPv4 header from 10.0.0.1.
fn ipv4_frame() -> Vec<u8> {
    vec![
        0, 0, 0, 0, 0, 0, // destination mac
        0, 0, 0, 0, 0, 0, // source mac
        0x08, 0x00, // ethertype: IPv4
        0x45, 0x00, // version 4, header length 20, dscp
        0x00, 0x14, // total length 20
        0x00, 0x00, // identification
        0x00, 0x00, // flags, fragment offset
        0x40, // time to live
        0x3b, // protocol: none
        0x66, 0xad, // header checksum
        10, 0, 0, 1, // source address
        10, 0, 0, 2, // destination address
    ]
}

#[test]
fn config_zero_window_rejected() {
    let r = App::new(0, None, String::new());
    assert!(matches!(r, Err(ConfigError::ZeroWindow)));
}

#[test]
fn config_positive_window_accepted() {
    let app = App::new(10, Some(addr("eth0")), addr("ip")).unwrap();
    assert_eq!(app.window, 10);
    assert_eq!(app.interface, Some(addr("eth0")));
    assert_eq!(app.filter, addr("ip"));
}

#[test]
fn rank_descends_by_count() {
    let mut buf = WindowBuffer::new(1).unwrap();
    step(&mut buf, obs("x"), 0);
    step(&mut buf, obs("y"), 0);
    step(&mut buf, obs("y"), 0);
    step(&mut buf, obs("z"), 0);
    step(&mut buf, obs("z"), 0);
    let report = step(&mut buf, obs("z"), 0).unwrap();
    assert_eq!(
        report,
        vec![(addr("z"), 3u128), (addr("y"), 2u128), (addr("x"), 1u128)]
    );
}

#[test]
fn rank_ties_break_lexically_regardless_of_insertion_order() {
    // Equal counts are ordered by ascending address, however the addresses
    // arrived.
    let mut first = WindowBuffer::new(1).unwrap();
    step(&mut first, obs("b"), 0);
    let r1 = step(&mut first, obs("a"), 0).unwrap();

    let mut second = WindowBuffer::new(1).unwrap();
    step(&mut second, obs("a"), 0);
    let r2 = step(&mut second, obs("b"), 0).unwrap();

    assert_eq!(r1, vec![(addr("a"), 1u128), (addr("b"), 1u128)]);
    assert_eq!(r1, r2);
}

#[test]
fn ipv4_source_address_is_counted() {
    // A well-formed frame decodes to its IPv4 source address, which the
    // driver records and reports.
    let mut buf = WindowBuffer::new(2).unwrap();
    let report = process_packet(&mut buf, &ipv4_frame(), 0).unwrap();
    assert_eq!(report, vec![(addr("10.0.0.1"), 1u128)]);
    assert_eq!(buf.count_at(0, &addr("10.0.0.1")), 1);
}

#[test]
fn malformed_frame_is_skipped() {
    // Bytes that do not decode to an IP packet change nothing and produce
    // no report.
    let mut buf = WindowBuffer::new(2).unwrap();
    process_packet(&mut buf, &ipv4_frame(), 0);
    let r = process_packet(&mut buf, &[0x00, 0x01, 0x02], 0);
    assert!(r.is_none());
    assert_eq!(buf.snapshot().count_of(&addr("10.0.0.1")), 1);
}

#[test]
fn get_index_stays_in_window() {
    let i = get_index(1);
    assert_eq!(i, 0);
    let j = get_index(7);
    assert!(j < 7);
}
