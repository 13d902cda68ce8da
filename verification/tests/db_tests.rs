use speed_meter::db::{
    db_info_from, parse_history_request, parse_stats_period, retention_cutoff, retention_days,
    retention_setting_text, DbInfo, HistoryRequest, StatsPeriod, HOURLY_RETENTION_DEFAULT_DAYS,
    RAW_RETENTION_DEFAULT_DAYS,
};

#[test]
fn fixed_period_names() {
    assert_eq!(parse_stats_period("this_hour"), StatsPeriod::ThisHour);
    assert_eq!(parse_stats_period("hourly"), StatsPeriod::Hourly);
    assert_eq!(parse_stats_period("daily"), StatsPeriod::Daily);
    assert_eq!(parse_stats_period("weekly"), StatsPeriod::Weekly);
    assert_eq!(parse_stats_period("monthly"), StatsPeriod::Monthly);
    assert_eq!(parse_stats_period("yearly"), StatsPeriod::Yearly);
}

#[test]
fn month_period_strips_every_prefix() {
    assert_eq!(parse_stats_period("month_2024-05"), StatsPeriod::Month("2024-05".to_string()));
    assert_eq!(parse_stats_period("month_month_2024-05"), StatsPeriod::Month("2024-05".to_string()));
    assert_eq!(parse_stats_period("month_"), StatsPeriod::Month(String::new()));
}

#[test]
fn unknown_period_is_today() {
    assert_eq!(parse_stats_period("Daily"), StatsPeriod::Today);
    assert_eq!(parse_stats_period(""), StatsPeriod::Today);
    assert_eq!(parse_stats_period("month"), StatsPeriod::Today);
}

#[test]
fn clear_request() {
    assert_eq!(parse_history_request("clear"), HistoryRequest::Clear);
    assert_eq!(parse_history_request("weekly"), HistoryRequest::Stats(StatsPeriod::Weekly));
    assert_eq!(parse_history_request("clear "), HistoryRequest::Stats(StatsPeriod::Today));
}

#[test]
fn retention_defaults_and_parsing() {
    assert_eq!(retention_days(None, RAW_RETENTION_DEFAULT_DAYS), 7);
    assert_eq!(retention_days(Some("30".to_string()), 7), 30);
    assert_eq!(retention_days(Some("thirty".to_string()), 90), 90);
    assert_eq!(retention_days(Some(" 30".to_string()), 90), 90);
}

#[test]
fn retention_written_is_read_back() {
    for d in [0i64, 7, 90, 365, -3, i64::MAX] {
        assert_eq!(retention_days(Some(retention_setting_text(d)), 11), d);
    }
    assert_eq!(retention_setting_text(-14), "-14");
}

#[test]
fn cutoffs() {
    assert_eq!(retention_cutoff(1_700_000_000, 7), Some(1_700_000_000 - 7 * 86400));
    assert_eq!(retention_cutoff(100, -1), Some(86500));
    assert_eq!(retention_cutoff(0, i64::MAX / 24 + 1), None);
    assert_eq!(retention_cutoff(0, i64::MAX / 86400 + 1), None);
    assert_eq!(retention_cutoff(i64::MIN, 1), None);
}

#[test]
fn db_info_defaults() {
    let info = db_info_from(None, Some(5), None, Some(2), None, Some("120".to_string()));
    assert_eq!(
        info,
        DbInfo {
            total_size_bytes: 0,
            raw_rows: 5,
            hourly_rows: 0,
            daily_rows: 2,
            raw_retention_days: RAW_RETENTION_DEFAULT_DAYS,
            hourly_retention_days: 120,
        }
    );
    assert_eq!(HOURLY_RETENTION_DEFAULT_DAYS, 90);
}
