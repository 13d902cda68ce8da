use speed_meter::accumulator::AccTotals;
use speed_meter::telemetry::NicReading;
use speed_meter::tick::TickState;
use speed_meter::traffic::{ConnTable, TcpConnKey, TcpConnSnapshot};

fn conn(port: u32, pid: u32, bytes_in: u64, bytes_out: u64) -> TcpConnSnapshot {
    TcpConnSnapshot {
        key: TcpConnKey { local_addr: 0x0100007f, local_port: port, remote_addr: 0x01010101, remote_port: 443 },
        pid,
        bytes_in,
        bytes_out,
    }
}

#[test]
fn counter_reset_drops_connection_state_and_skips() {
    let mut s = TickState::new(5_000, 5_000);
    s.attribute(ConnTable::from_rows(vec![conn(1, 7, 10, 10)]), 0, 0);
    assert_eq!(s.last_tcp.len(), 1);
    assert_eq!(s.read_adapter(4_000, 6_000, 1_000_000_000), NicReading::CounterReset);
    assert_eq!(s.last_tcp.len(), 0);
    assert_eq!(s.accumulator.len(), 0);
    assert_eq!((s.meter.last_rx, s.meter.last_tx), (4_000, 6_000));
}

#[test]
fn spike_is_skipped() {
    let mut s = TickState::new(0, 0);
    assert_eq!(s.read_adapter(3_000_000_000, 0, 1_000_000_000), NicReading::Spike);
    assert_eq!(s.accumulator.len(), 0);
}

#[test]
fn a_whole_tick_gathers_every_counted_byte() {
    let mut s = TickState::new(1_000, 2_000);
    // first snapshot: the connection is seen for the first time, nothing attributed
    let first = s.attribute(ConnTable::from_rows(vec![conn(1, 7, 100, 10)]), 0, 0);
    assert!(first.is_empty());

    let reading = s.read_adapter(2_000, 2_100, 1_000_000_000);
    assert_eq!(
        reading,
        NicReading::Traffic { rx_bytes: 1_000, tx_bytes: 100, download_speed: 1_000, upload_speed: 100 }
    );
    let shares = s.attribute(ConnTable::from_rows(vec![conn(1, 7, 600, 60)]), 1_000, 100);
    assert_eq!(shares.len(), 1);
    assert_eq!((shares[0].pid, shares[0].rx, shares[0].tx), (7, 500, 50));

    let names = vec!["browser.exe".to_string()];
    let speeds = s
        .gather(&shares, &names, 1_000, 100, 1_000_000_000, "editor.exe", 0)
        .unwrap();
    assert_eq!(speeds.len(), 2);
    assert_eq!((speeds[0].name.as_str(), speeds[0].download_speed, speeds[0].upload_speed), ("browser.exe", 500, 50));
    assert_eq!((speeds[1].name.as_str(), speeds[1].download_speed, speeds[1].upload_speed), ("System", 500, 50));
    assert_eq!(
        s.accumulator.totals_of("browser.exe"),
        AccTotals { bytes_downloaded: 500, bytes_uploaded: 50, screen_time_seconds: 0 }
    );
    assert_eq!(
        s.accumulator.totals_of("System"),
        AccTotals { bytes_downloaded: 500, bytes_uploaded: 50, screen_time_seconds: 0 }
    );
    assert_eq!(s.accumulator.totals_of("editor.exe").screen_time_seconds, 1);

    let end = s.end_tick(60_000_000_000);
    assert!(end.ping_due);
    assert!(end.flush_due);
    assert_eq!(s.tick_count, 1);
    let out = s.take_gathered();
    let down: u64 = out.iter().map(|e| e.totals.bytes_downloaded).sum();
    let up: u64 = out.iter().map(|e| e.totals.bytes_uploaded).sum();
    assert_eq!((down, up), (1_000, 100));
    assert_eq!(s.accumulator.len(), 0);
}

#[test]
fn one_byte_in_a_slow_tick_is_still_gathered() {
    let mut s = TickState::new(0, 0);
    let reading = s.read_adapter(1, 0, 1_020_000_000);
    assert_eq!(
        reading,
        NicReading::Traffic { rx_bytes: 1, tx_bytes: 0, download_speed: 0, upload_speed: 0 }
    );
    let shares = s.attribute(ConnTable::new(), 1, 0);
    let speeds = s.gather(&shares, &vec![], 1, 0, 1_020_000_000, "Idle", 0).unwrap();
    assert!(speeds.is_empty());
    assert_eq!(s.accumulator.totals_of("System").bytes_downloaded, 1);
}

#[test]
fn idle_user_earns_no_screen_time_and_no_flush_before_a_minute() {
    let mut s = TickState::new(0, 0);
    s.gather(&vec![], &vec![], 0, 0, 1_000_000_000, "game.exe", 400_000).unwrap();
    assert_eq!(s.accumulator.totals_of("game.exe").screen_time_seconds, 0);
    let end = s.end_tick(59_000_000_000);
    assert!(!end.flush_due);
    assert!(end.ping_due);
    let second = s.end_tick(1_000_000_000);
    assert!(!second.ping_due);
    assert_eq!(s.tick_count, 2);
}

#[test]
fn lost_snapshot_starts_tracking_over() {
    let mut s = TickState::new(0, 0);
    s.attribute(ConnTable::from_rows(vec![conn(1, 7, 10, 10), conn(2, 8, 5, 5)]), 0, 0);
    assert_eq!(s.last_tcp.len(), 2);
    s.forget_connections();
    assert_eq!(s.last_tcp.len(), 0);
}
