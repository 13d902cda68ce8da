use speed_meter::speedtest::{
    average_latency, dns_targets, download_progress_percent, speed_test_gate, summarize_dns_pings,
    upload_progress_percent, DnsPingResult, SpeedTestProgress, ThroughputSampler,
};

#[test]
fn targets() {
    let t = dns_targets();
    let names: Vec<&str> = t.iter().map(|x| x.name.as_str()).collect();
    assert_eq!(names, vec!["Cloudflare", "Google DNS", "Quad9 DNS", "OpenDNS"]);
    assert_eq!(t[3].ip, "208.67.222.222");
    assert!(t.iter().all(|x| x.port == 53));
}

#[test]
fn latency_mean() {
    assert_eq!(average_latency(&vec![]), 999);
    assert_eq!(average_latency(&vec![10, 20, 31]), 20);
    assert_eq!(average_latency(&vec![5_000_000_000]), (5_000_000_000u64) as u32);
}

#[test]
fn ping_summary() {
    let (results, avg) = summarize_dns_pings(&vec![12, 999, 30, 1500]);
    assert_eq!(results.len(), 4);
    assert_eq!(results[0], DnsPingResult { name: "Cloudflare".to_string(), ip: "1.1.1.1".to_string(), latency_ms: 12 });
    assert_eq!(results[1].latency_ms, 999);
    assert_eq!(avg, 21);
    let (_, none) = summarize_dns_pings(&vec![999, 999, 999, 999]);
    assert_eq!(none, 0);
}

#[test]
fn progress_mapping_matches_float_scaling() {
    for pct in 0u32..=100 {
        assert_eq!(download_progress_percent(pct), 20 + ((pct as f32 / 100.0) * 40.0) as u32);
        assert_eq!(upload_progress_percent(pct), 60 + ((pct as f32 / 100.0) * 35.0) as u32);
    }
    assert_eq!(download_progress_percent(100), 60);
    assert_eq!(upload_progress_percent(100), 95);
}

#[test]
fn gate() {
    assert_eq!(speed_test_gate(false), Ok(()));
    assert_eq!(speed_test_gate(true), Err("Speed test is already running".to_string()));
}

#[test]
fn sampler() {
    let mut s = ThroughputSampler::new();
    assert_eq!(s.take_sample(1000), 1000);
    assert_eq!(s.take_sample(1500), 500);
    assert_eq!(s.take_sample(1200), 0);
    s.record(700, false);
    s.record(0, true);
    for v in [100, 200, 300] {
        s.record(v, true);
    }
    assert_eq!(s.final_speed(), Some(200));
    let mut big = ThroughputSampler::new();
    big.record(u64::MAX, true);
    big.record(1, true);
    assert_eq!(big.final_speed(), None);
}

#[test]
fn sampler_drops_a_huge_burst_before_summing() {
    let mut s = ThroughputSampler::new();
    for _ in 0..6 {
        s.record(1, true);
    }
    s.record(u64::MAX, true);
    assert_eq!(s.final_speed(), Some(1));
}

#[test]
fn warm_up_readings_never_count() {
    let mut s = ThroughputSampler::new();
    s.record(9_000, false);
    s.record(8_000, false);
    assert_eq!(s.final_speed(), Some(0));
    s.record(40, true);
    s.record(60, true);
    assert_eq!(s.final_speed(), Some(50));
}

#[test]
fn stage_reports() {
    let mut p = SpeedTestProgress::starting();
    assert_eq!((p.stage.as_str(), p.progress_percent, p.message.as_str()), ("ping", 5, "Testing DNS latency..."));
    let (pings, avg) = summarize_dns_pings(&vec![10, 20, 30, 40]);
    p.pings_measured(pings.clone(), avg);
    assert_eq!(p.message, "DNS Latency: 25 ms. Starting Download Speed Test...");
    assert_eq!(p.progress_percent, 20);
    p.begin_download();
    assert_eq!(p.stage, "download");
    let t = p.download_tick(12345, 50);
    assert_eq!((t.pings.clone(), t.average_ping, t.upload_speed), (pings.clone(), avg, 0));
    assert_eq!((t.progress_percent, t.download_speed, t.current_speed), (40, 12345, 12345));
    p.download_finished(9000);
    assert_eq!((p.download_speed, p.progress_percent), (9000, 60));
    p.begin_upload();
    let u = p.upload_tick(777, 100);
    assert_eq!((u.pings.clone(), u.average_ping), (pings.clone(), avg));
    assert_eq!((u.stage.as_str(), u.progress_percent, u.upload_speed, u.download_speed), ("upload", 95, 777, 9000));
    p.complete(800);
    assert_eq!((p.stage.as_str(), p.progress_percent, p.current_speed, p.upload_speed), ("complete", 100, 0, 800));
    assert_eq!(p.message, "Speed Test Completed Successfully!");
    assert_eq!(p.pings, pings);
}
