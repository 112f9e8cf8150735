use netwatch::decode::{ethertype, ipv4_fields, trace, Ipv4Fields, Trace};
use netwatch::screen::screen_text;
use netwatch::session::{Control, ControlEvent, FrameOutcome, Mode, Session};
use netwatch::stats::{IpCounters, StatsTable};

fn ip(a: u8, b: u8, c: u8, d: u8) -> u32 {
    u32::from_be_bytes([a, b, c, d])
}

fn ethernet(ethertype: u16, payload: &[u8]) -> Vec<u8> {
    let mut f = vec![0x02, 0, 0, 0, 0, 0x02, 0x02, 0, 0, 0, 0, 0x01];
    f.extend_from_slice(&ethertype.to_be_bytes());
    f.extend_from_slice(payload);
    f
}

fn ipv4(src: u32, dst: u32, protocol: u8, payload: &[u8]) -> Vec<u8> {
    let mut h = vec![0x45, 0, 0, 0, 0, 0, 0, 0, 64, protocol, 0, 0];
    h.extend_from_slice(&src.to_be_bytes());
    h.extend_from_slice(&dst.to_be_bytes());
    h.extend_from_slice(payload);
    h
}

fn tcp(src_port: u16, dst_port: u16, seq: u32, ack: u32) -> Vec<u8> {
    let mut t = Vec::new();
    t.extend_from_slice(&src_port.to_be_bytes());
    t.extend_from_slice(&dst_port.to_be_bytes());
    t.extend_from_slice(&seq.to_be_bytes());
    t.extend_from_slice(&ack.to_be_bytes());
    t.extend_from_slice(&[0x50, 0x10, 0, 0, 0, 0, 0, 0]);
    t
}

fn udp(src_port: u16, dst_port: u16, length: u16) -> Vec<u8> {
    let mut u = Vec::new();
    u.extend_from_slice(&src_port.to_be_bytes());
    u.extend_from_slice(&dst_port.to_be_bytes());
    u.extend_from_slice(&length.to_be_bytes());
    u.extend_from_slice(&[0, 0]);
    u
}

fn tcp_frame(src: u32, dst: u32) -> Vec<u8> {
    ethernet(0x0800, &ipv4(src, dst, 6, &tcp(443, 51000, 7, 9)))
}

fn udp_frame(src: u32, dst: u32) -> Vec<u8> {
    ethernet(0x0800, &ipv4(src, dst, 17, &udp(53, 40000, 12)))
}

fn arp_frame() -> Vec<u8> {
    ethernet(0x0806, &[0u8; 28])
}

#[test]
fn table_sums_lengths_by_role() {
    let a = ip(10, 0, 0, 1);
    let b = ip(10, 0, 0, 2);
    let c = ip(10, 0, 0, 3);
    let mut t = StatsTable::new();
    t.record(a, b, 100);
    let _ = t.snapshot();
    t.record(b, a, 40);
    t.record(a, c, 60);
    let _ = t.get(a);
    assert_eq!(t.get(a), IpCounters { sent: 160, received: 40 });
    assert_eq!(t.get(b), IpCounters { sent: 40, received: 100 });
    assert_eq!(t.get(c), IpCounters { sent: 0, received: 60 });
    assert_eq!(t.get(ip(1, 1, 1, 1)), IpCounters { sent: 0, received: 0 });
    assert_eq!(t.len(), 3);
}

#[test]
fn table_keeps_first_sighting_order() {
    let mut t = StatsTable::new();
    t.record(ip(1, 0, 0, 9), ip(1, 0, 0, 2), 5);
    t.record(ip(1, 0, 0, 2), ip(1, 0, 0, 3), 7);
    let rows: Vec<u32> = t.snapshot().iter().map(|e| e.0).collect();
    assert_eq!(rows, vec![ip(1, 0, 0, 9), ip(1, 0, 0, 2), ip(1, 0, 0, 3)]);
}

#[test]
fn table_counts_self_traffic_both_ways() {
    let a = ip(127, 0, 0, 1);
    let mut t = StatsTable::new();
    t.record(a, a, 30);
    assert_eq!(t.get(a), IpCounters { sent: 30, received: 30 });
    assert_eq!(t.len(), 1);
}

#[test]
fn table_counter_grows_past_u32() {
    let a = ip(9, 9, 9, 9);
    let mut t = StatsTable::new();
    t.update(a, true, u32::MAX);
    for _ in 0..3 {
        t.update(a, true, u32::MAX);
    }
    assert_eq!(t.get(a).sent, 4 * u32::MAX as u64);
    assert_eq!(t.get(a).received, 0);
}

#[test]
fn decode_reads_header_fields() {
    let f = tcp_frame(ip(10, 0, 0, 5), ip(192, 168, 1, 20));
    assert_eq!(ethertype(&f), Some(0x0800));
    assert_eq!(
        ipv4_fields(&f),
        Some(Ipv4Fields { src: ip(10, 0, 0, 5), dst: ip(192, 168, 1, 20), protocol: 6 })
    );
    assert_eq!(
        trace(&f),
        Some(Trace::Tcp {
            src_mac: 0x0200_0000_0001,
            src_port: 443,
            dst_mac: 0x0200_0000_0002,
            dst_port: 51000,
            seq: 7,
            ack: 9,
        })
    );
    let u = udp_frame(ip(10, 0, 0, 5), ip(8, 8, 8, 8));
    assert_eq!(
        trace(&u),
        Some(Trace::Udp {
            src_mac: 0x0200_0000_0001,
            src_port: 53,
            dst_mac: 0x0200_0000_0002,
            dst_port: 40000,
            length: 12,
        })
    );
}

#[test]
fn decode_rejects_short_frames() {
    assert_eq!(ethertype(&[0u8; 13]), None);
    let f = tcp_frame(ip(1, 2, 3, 4), ip(5, 6, 7, 8));
    assert_eq!(ipv4_fields(&f[..33]), None);
    assert_eq!(trace(&f[..40]), None);
    let mut bad_ihl = f.clone();
    bad_ihl[14] = 0x44;
    assert_eq!(trace(&bad_ihl), None);
}

#[test]
fn detailed_session_logs_alert_count() {
    let alert = ip(10, 0, 0, 5);
    let other = ip(10, 0, 0, 9);
    let mut s = Session::new(Mode::Detailed, alert);
    for _ in 0..3 {
        assert_eq!(s.poll(None), Control::Proceed);
        let o = s.on_frame(&tcp_frame(alert, other), 60);
        assert!(o.alert);
        assert!(matches!(o.trace, Some(Trace::Tcp { .. })));
    }
    for _ in 0..2 {
        let o = s.on_frame(&udp_frame(alert, other), 70);
        assert!(o.alert);
        assert!(matches!(o.trace, Some(Trace::Udp { .. })));
    }
    let o = s.on_frame(&tcp_frame(other, alert), 80);
    assert!(!o.alert);
    assert_eq!(s.alerts(), 5);
    assert_eq!(s.log_record(), None);
    assert_eq!(s.poll(Some(ControlEvent::Stop)), Control::Finish);
    let log = String::from_utf8(s.log_record().unwrap()).unwrap();
    assert_eq!(log, "Traffic from ip 10.0.0.5 has been registered 5 times.");
    assert_eq!(s.counters(alert).sent, 320);
    assert_eq!(s.counters(alert).received, 80);
}

#[test]
fn summary_session_alerts_without_count() {
    let alert = ip(10, 0, 0, 5);
    let mut s = Session::new(Mode::Summary, alert);
    let o = s.on_frame(&tcp_frame(alert, ip(1, 1, 1, 1)), 60);
    assert_eq!(o, FrameOutcome { alert: true, trace: None });
    assert_eq!(s.alerts(), 0);
    assert_eq!(s.poll(Some(ControlEvent::Stop)), Control::Finish);
    assert_eq!(s.log_record(), None);
}

#[test]
fn stopped_session_finishes_at_next_poll() {
    let mut s = Session::new(Mode::Detailed, ip(10, 0, 0, 5));
    assert_eq!(s.poll(Some(ControlEvent::Stop)), Control::Finish);
    assert!(s.is_cancelled());
    assert_eq!(s.poll(None), Control::Finish);
    assert_eq!(s.poll(Some(ControlEvent::ForceQuit)), Control::Finish);
    assert!(s.is_cancelled());
}

#[test]
fn force_quit_aborts_without_stopping() {
    let mut s = Session::new(Mode::Detailed, ip(10, 0, 0, 5));
    assert_eq!(s.poll(Some(ControlEvent::ForceQuit)), Control::Abort);
    assert!(!s.is_cancelled());
    assert_eq!(s.log_record(), None);
}

#[test]
fn arp_frame_changes_nothing() {
    let alert = ip(10, 0, 0, 5);
    let mut s = Session::new(Mode::Detailed, alert);
    s.on_frame(&tcp_frame(alert, ip(1, 1, 1, 1)), 60);
    let before = s.snapshot();
    let o = s.on_frame(&arp_frame(), 42);
    assert_eq!(o, FrameOutcome { alert: false, trace: None });
    assert_eq!(s.snapshot(), before);
    assert_eq!(s.alerts(), 1);
    let o = s.on_frame(&[1u8, 2, 3], 3);
    assert_eq!(o, FrameOutcome { alert: false, trace: None });
    assert_eq!(s.snapshot(), before);
}

#[test]
fn redraw_without_updates_is_identical() {
    let mut s = Session::new(Mode::Summary, ip(10, 0, 0, 5));
    s.on_frame(&tcp_frame(ip(10, 0, 0, 5), ip(192, 168, 1, 20)), 1500);
    let first = screen_text(&s.snapshot());
    assert_eq!(s.poll(None), Control::Proceed);
    let second = screen_text(&s.snapshot());
    assert_eq!(first, second);
}

#[test]
fn screen_text_has_columns() {
    let mut t = StatsTable::new();
    t.record(ip(10, 0, 0, 5), ip(192, 168, 1, 20), 1500);
    let text = String::from_utf8(screen_text(&t.snapshot())).unwrap();
    let expected = format!(
        "{}{}{}{}",
        "IP Address        | Packets Sent | Packets Received\n",
        "------------------+--------------+-----------------\n",
        "10.0.0.5           | 1500         | 0\n",
        "192.168.1.20       | 0            | 1500\n"
    );
    assert_eq!(text, expected);
}

#[test]
fn screen_text_of_empty_table() {
    let text = String::from_utf8(screen_text(&Vec::new())).unwrap();
    assert_eq!(
        text,
        "IP Address        | Packets Sent | Packets Received\n------------------+--------------+-----------------\n"
    );
}
