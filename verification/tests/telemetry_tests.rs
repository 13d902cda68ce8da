use speed_meter::accumulator::{AccTotals, Accumulator};
use speed_meter::telemetry::{
    advance_tick, battery_reading, credit_traffic, flush_due, interface_octets, screen_seconds,
    InterfaceRow, NicMeter, NicReading, PowerStatus, RealtimeStats,
};
use speed_meter::tracking::{plausible_entry_count, EstatsTracker, NameCache};
use speed_meter::traffic::{
    bytes_per_second, key_code, scale_to_nic, tcp_traffic, ConnTable, PidDelta, TcpConnKey,
    TcpConnSnapshot, MAX_REALISTIC_BPS,
};

fn key(n: u32) -> TcpConnKey {
    TcpConnKey { local_addr: 0x0100007f, local_port: n, remote_addr: 0x01010101, remote_port: 443 }
}

fn snap(n: u32, pid: u32, bytes_in: u64, bytes_out: u64) -> TcpConnSnapshot {
    TcpConnSnapshot { key: key(n), pid, bytes_in, bytes_out }
}

#[test]
fn rates_over_elapsed_time() {
    assert_eq!(bytes_per_second(1000, 1_000_000_000), 1000);
    assert_eq!(bytes_per_second(1000, 2_000_000_000), 500);
    assert_eq!(bytes_per_second(1000, 0), 1_000_000);
    assert_eq!(bytes_per_second(u64::MAX, 1), u64::MAX);
}

#[test]
fn nic_meter_readings() {
    let mut m = NicMeter::new(1000, 500);
    assert_eq!(
        m.observe(3000, 1500, 1_000_000_000),
        NicReading::Traffic { rx_bytes: 2000, tx_bytes: 1000, download_speed: 2000, upload_speed: 1000 }
    );
    assert_eq!(m.observe(10, 1600, 1_000_000_000), NicReading::CounterReset);
    assert_eq!((m.last_rx, m.last_tx), (10, 1600));
    assert_eq!(m.observe(10 + 2_000_000_000, 1600, 1_000_000_000), NicReading::Spike);
    assert_eq!(m.last_rx, 2_000_000_010);
    assert_eq!(
        m.observe(2_000_000_010 + MAX_REALISTIC_BPS, 1600, 1_000_000_000),
        NicReading::Traffic { rx_bytes: MAX_REALISTIC_BPS, tx_bytes: 0, download_speed: MAX_REALISTIC_BPS, upload_speed: 0 }
    );
}

#[test]
fn tcp_traffic_per_process() {
    let prev = ConnTable::from_rows(vec![snap(1, 10, 100, 50), snap(2, 20, 1000, 0), snap(3, 10, 5, 5)]);
    let cur = ConnTable::from_rows(vec![
        snap(1, 10, 300, 60),       // +200 / +10 for pid 10
        snap(2, 20, 900, 0),        // counter went back: 0
        snap(3, 10, 5 + u64::MAX / 2, 5), // capped at MAX_REALISTIC_BPS
        snap(4, 30, 999, 999),      // new connection: no delta yet
    ]);
    let t = tcp_traffic(&prev, &cur);
    assert_eq!(t.entries, vec![PidDelta { pid: 10, rx: 200 + MAX_REALISTIC_BPS, tx: 10 }]);
    assert_eq!(t.total_rx, 200 + MAX_REALISTIC_BPS);
    assert_eq!(t.total_tx, 10);
}

#[test]
fn later_rows_replace_earlier_ones() {
    let table = ConnTable::from_rows(vec![snap(1, 10, 1, 1), snap(1, 11, 2, 2)]);
    assert_eq!(table.len(), 1);
    let row = table.find(key(1)).unwrap();
    assert_eq!((row.pid, row.bytes_in), (11, 2));
    assert!(table.find(key(2)).is_none());
}

#[test]
fn scaling_to_adapter_count() {
    let prev = ConnTable::from_rows(vec![snap(1, 1, 0, 0), snap(2, 2, 0, 0)]);
    let cur = ConnTable::from_rows(vec![snap(1, 1, 300, 0), snap(2, 2, 100, 1)]);
    let t = tcp_traffic(&prev, &cur);
    // the adapter saw only 200 received bytes: scale 300/100 down to 150/50
    let s = scale_to_nic(&t, 200, 10);
    assert_eq!(s, vec![PidDelta { pid: 1, rx: 150, tx: 0 }, PidDelta { pid: 2, rx: 50, tx: 1 }]);
    // no scaling when the adapter saw more
    let s2 = scale_to_nic(&t, 1000, 10);
    assert_eq!(s2, vec![PidDelta { pid: 1, rx: 300, tx: 0 }, PidDelta { pid: 2, rx: 100, tx: 1 }]);
    // a process scaled down to nothing is dropped
    let s3 = scale_to_nic(&t, 2, 0);
    assert_eq!(s3, vec![PidDelta { pid: 1, rx: 1, tx: 0 }]);
}

#[test]
fn crediting_a_tick() {
    let mut acc = Accumulator::new();
    let shares = vec![PidDelta { pid: 1, rx: 600, tx: 100 }, PidDelta { pid: 2, rx: 200, tx: 0 }];
    let names = vec!["chrome.exe".to_string(), "chrome.exe".to_string()];
    let speeds = credit_traffic(&mut acc, &shares, &names, 1000, 100, 2_000_000_000).unwrap();
    assert_eq!(speeds.len(), 3);
    assert_eq!(speeds[0].name, "chrome.exe");
    assert_eq!((speeds[0].download_speed, speeds[0].upload_speed), (300, 50));
    assert_eq!((speeds[1].download_speed, speeds[1].upload_speed), (100, 0));
    assert_eq!(speeds[2].name, "System");
    assert_eq!((speeds[2].download_speed, speeds[2].upload_speed), (100, 0));
    assert_eq!(acc.totals_of("chrome.exe"), AccTotals { bytes_downloaded: 800, bytes_uploaded: 100, screen_time_seconds: 0 });
    assert_eq!(acc.totals_of("System"), AccTotals { bytes_downloaded: 200, bytes_uploaded: 0, screen_time_seconds: 0 });
    assert_eq!(acc.len(), 2);
}

#[test]
fn small_remainder_is_credited_without_a_row() {
    let mut acc = Accumulator::new();
    // 1 byte in 1.02 s is no whole byte per second, but it is still counted
    let speeds = credit_traffic(&mut acc, &vec![], &vec![], 1, 0, 1_020_000_000).unwrap();
    assert!(speeds.is_empty());
    assert_eq!(acc.len(), 1);
    assert_eq!(acc.totals_of("System"), AccTotals { bytes_downloaded: 1, bytes_uploaded: 0, screen_time_seconds: 0 });
}

#[test]
fn a_tick_credits_every_counted_byte() {
    let prev = ConnTable::from_rows(vec![snap(1, 1, 0, 0), snap(2, 2, 0, 0)]);
    let cur = ConnTable::from_rows(vec![snap(1, 1, 333, 7), snap(2, 2, 101, 0)]);
    let t = tcp_traffic(&prev, &cur);
    for (rx_nic, tx_nic) in [(200u64, 10u64), (1000, 3), (434, 7), (1, 0)] {
        let shares = scale_to_nic(&t, rx_nic, tx_nic);
        let names: Vec<String> = shares.iter().map(|s| format!("p{}", s.pid)).collect();
        let mut acc = Accumulator::new();
        credit_traffic(&mut acc, &shares, &names, rx_nic, tx_nic, 1_000_000_000).unwrap();
        let out = acc.drain();
        let dl: u64 = out.iter().map(|e| e.totals.bytes_downloaded).sum();
        let ul: u64 = out.iter().map(|e| e.totals.bytes_uploaded).sum();
        assert_eq!((dl, ul), (rx_nic, tx_nic));
    }
}

#[test]
fn accumulator_overflow_and_drain() {
    let mut acc = Accumulator::new();
    acc.credit_bytes("a.exe", u64::MAX - 5, 0);
    let shares = vec![PidDelta { pid: 3, rx: 6, tx: 0 }];
    let names = vec!["a.exe".to_string()];
    assert!(credit_traffic(&mut acc, &shares, &names, 6, 0, 1_000_000_000).is_none());
    let mut acc2 = Accumulator::new();
    acc2.credit_bytes("a.exe", u64::MAX - 5, 0);
    let fits = vec![PidDelta { pid: 3, rx: 5, tx: 0 }];
    assert!(credit_traffic(&mut acc2, &fits, &names, 5, 0, 1_000_000_000).is_some());
    assert_eq!(acc2.totals_of("a.exe").bytes_downloaded, u64::MAX);
    // the remainder overflows System's total
    let mut acc3 = Accumulator::new();
    acc3.credit_bytes("System", u64::MAX, 0);
    assert!(credit_traffic(&mut acc3, &vec![], &vec![], 10, 0, 1_000_000_000).is_none());
    acc.credit_screen_time("a.exe", 1);
    acc.credit_screen_time("Idle", 0);
    let out = acc.drain();
    assert_eq!(out.len(), 2);
    assert_eq!(out[0].name, "a.exe");
    assert_eq!(out[0].totals.screen_time_seconds, 1);
    assert_eq!(out[1].name, "Idle");
    assert_eq!(out[1].totals, AccTotals { bytes_downloaded: 0, bytes_uploaded: 0, screen_time_seconds: 0 });
    assert_eq!(acc.len(), 0);
}

#[test]
fn screen_time_rules() {
    assert_eq!(screen_seconds("code.exe", 1000), 1);
    assert_eq!(screen_seconds("code.exe", 300_000), 1);
    assert_eq!(screen_seconds("code.exe", 300_001), 0);
    assert_eq!(screen_seconds("Idle", 0), 0);
}

#[test]
fn ping_every_fifth_tick() {
    let mut tick = 0u32;
    let mut due = Vec::new();
    for _ in 0..11 {
        let (t, d) = advance_tick(tick);
        tick = t;
        due.push(d);
    }
    assert_eq!(due, vec![true, false, false, false, false, true, false, false, false, false, true]);
    assert_eq!(advance_tick(u32::MAX), (0, false));
}

#[test]
fn flush_once_a_minute() {
    assert!(!flush_due(59_999_999_999));
    assert!(flush_due(60_000_000_000));
}

#[test]
fn interface_selection() {
    let rows = vec![
        InterfaceRow { index: 1, oper_status: 1, if_type: 24, in_octets: 5, out_octets: 5 },
        InterfaceRow { index: 7, oper_status: 1, if_type: 71, in_octets: 100, out_octets: 40 },
        InterfaceRow { index: 9, oper_status: 2, if_type: 6, in_octets: 1000, out_octets: 400 },
        InterfaceRow { index: 11, oper_status: 1, if_type: 6, in_octets: 10, out_octets: 4 },
    ];
    assert_eq!(interface_octets(&rows, Some(9)), Some((1000, 400)));
    assert_eq!(interface_octets(&rows, Some(3)), Some((0, 0)));
    assert_eq!(interface_octets(&rows, None), Some((110, 44)));
    let big = vec![
        InterfaceRow { index: 1, oper_status: 1, if_type: 6, in_octets: u64::MAX, out_octets: 0 },
        InterfaceRow { index: 2, oper_status: 1, if_type: 6, in_octets: 1, out_octets: 0 },
    ];
    assert_eq!(interface_octets(&big, None), None);
}

#[test]
fn battery_rules() {
    assert_eq!(battery_reading(None), (100, true));
    assert_eq!(battery_reading(Some(PowerStatus { ac_line_status: 0, battery_flag: 0, battery_life_percent: 255 })), (100, false));
    assert_eq!(battery_reading(Some(PowerStatus { ac_line_status: 0, battery_flag: 8, battery_life_percent: 42 })), (42, true));
    assert_eq!(battery_reading(Some(PowerStatus { ac_line_status: 1, battery_flag: 1, battery_life_percent: 80 })), (80, true));
}

#[test]
fn initial_stats() {
    let s = RealtimeStats::initial();
    assert_eq!(s.battery_percentage, 100);
    assert!(s.is_charging);
    assert_eq!(s.active_app, "System");
    assert!(s.process_speeds.is_empty());
}

#[test]
fn name_cache() {
    let mut c = NameCache::new();
    assert_eq!(c.lookup(4), None);
    c.remember(4, "svchost.exe".to_string());
    c.remember(8, "chrome.exe".to_string());
    c.remember(4, "other.exe".to_string());
    assert_eq!(c.lookup(4), Some("other.exe".to_string()));
    assert_eq!(c.lookup(8), Some("chrome.exe".to_string()));
    c.clear();
    assert_eq!(c.lookup(8), None);
}

#[test]
fn estats_tracking() {
    let mut t = EstatsTracker::new();
    assert!(t.needs_arming(key(1)));
    t.mark_armed(key(1));
    t.mark_armed(key(2));
    t.mark_armed(key(1));
    assert!(!t.needs_arming(key(1)));
    let live = ConnTable::from_rows(vec![snap(2, 5, 0, 0)]);
    t.retain_live(&live);
    assert!(t.needs_arming(key(1)));
    assert!(!t.needs_arming(key(2)));
    t.clear();
    assert!(t.needs_arming(key(2)));
    assert!(plausible_entry_count(1));
    assert!(plausible_entry_count(65_536));
    assert!(!plausible_entry_count(0));
    assert!(!plausible_entry_count(65_537));
}

#[test]
fn connections_differing_in_one_field_are_kept_apart() {
    let a = TcpConnKey { local_addr: 1, local_port: 2, remote_addr: 3, remote_port: 4 };
    let b = TcpConnKey { local_addr: 1, local_port: 2, remote_addr: 3, remote_port: 5 };
    let c = TcpConnKey { local_addr: 2, local_port: 2, remote_addr: 3, remote_port: 4 };
    assert_ne!(key_code(a), key_code(b));
    assert_ne!(key_code(a), key_code(c));
    assert_eq!(key_code(a), (1u128 << 96) | (2u128 << 64) | (3u128 << 32) | 4);
    let table = ConnTable::from_rows(vec![
        TcpConnSnapshot { key: a, pid: 1, bytes_in: 10, bytes_out: 0 },
        TcpConnSnapshot { key: b, pid: 2, bytes_in: 20, bytes_out: 0 },
        TcpConnSnapshot { key: a, pid: 1, bytes_in: 30, bytes_out: 0 },
    ]);
    assert_eq!(table.len(), 2);
    assert_eq!(table.find(a).unwrap().bytes_in, 30);
    assert_eq!(table.find(b).unwrap().bytes_in, 20);
    assert!(!table.contains(c));
    let mut t = EstatsTracker::new();
    t.mark_armed(a);
    assert!(!t.needs_arming(a));
    assert!(t.needs_arming(b));
    assert!(t.needs_arming(c));
}

#[test]
fn a_full_connection_table_is_handled_quickly() {
    let prev: Vec<TcpConnSnapshot> = (0..65_536u32).map(|n| snap(n, n % 500, 0, 0)).collect();
    let cur: Vec<TcpConnSnapshot> = (0..65_536u32).map(|n| snap(n, n % 500, 10, 1)).collect();
    let prev = ConnTable::from_rows(prev);
    let cur = ConnTable::from_rows(cur);
    let mut armed = EstatsTracker::new();
    for i in 0..cur.len() {
        armed.mark_armed(cur.row(i).key);
    }
    armed.retain_live(&cur);
    let traffic = tcp_traffic(&prev, &cur);
    assert_eq!(traffic.entries.len(), 500);
    assert_eq!((traffic.total_rx, traffic.total_tx), (655_360, 65_536));
}
