use speed_meter::alerts::{limit_is_set, AlertLedger, LimitScope};
use speed_meter::clock::{current_interval_timestamp, hour_start, interval_start};
use speed_meter::db::rollup_clock;
use speed_meter::ui::{menu_action, toggle_action, MenuAction, WindowAction};

#[test]
fn alerts_fire_once_per_period() {
    let mut l = AlertLedger::new();
    assert_eq!(l.evaluate(LimitScope::Daily, 79, "2024-05-01"), None);
    assert_eq!(
        l.evaluate(LimitScope::Daily, 85, "2024-05-01"),
        Some("You have used 80% of your daily data limit.".to_string())
    );
    assert_eq!(l.evaluate(LimitScope::Daily, 90, "2024-05-01"), None);
    assert_eq!(
        l.evaluate(LimitScope::Daily, 120, "2024-05-01"),
        Some("You have reached your daily data limit.".to_string())
    );
    assert_eq!(l.evaluate(LimitScope::Daily, 150, "2024-05-01"), None);
    assert!(l.contains("daily_100_2024-05-01"));
    assert!(l.contains("daily_80_2024-05-01"));
    // a new day starts over
    assert_eq!(
        l.evaluate(LimitScope::Daily, 100, "2024-05-02"),
        Some("You have reached your daily data limit.".to_string())
    );
    // after the 100% alert, a later check still announces 80%
    assert_eq!(
        l.evaluate(LimitScope::Daily, 100, "2024-05-02"),
        Some("You have used 80% of your daily data limit.".to_string())
    );
}

#[test]
fn monthly_alerts() {
    let mut l = AlertLedger::new();
    assert_eq!(
        l.evaluate(LimitScope::Monthly, 100, "2024-05"),
        Some("You have reached your monthly data limit.".to_string())
    );
    assert!(l.contains("monthly_100_2024-05"));
    assert!(!l.contains("daily_100_2024-05"));
}

#[test]
fn clock_based_checks() {
    let mut l = AlertLedger::new();
    assert!(l.check_daily(50).is_none());
    assert!(l.check_daily(100).is_some());
    assert!(l.check_monthly(81).is_some());
    assert!(l.check_monthly(81).is_none());
}

#[test]
fn time_buckets() {
    assert_eq!(interval_start(1_700_000_123), 1_700_000_100);
    assert_eq!(interval_start(-1), 0);
    assert_eq!(interval_start(-301), -300);
    assert_eq!(hour_start(7_199), 3_600);
    let t = current_interval_timestamp();
    assert_eq!(t % 300, 0);
    assert!(t > 1_600_000_000);
    let c = rollup_clock();
    assert_eq!(c.current_hour % 3600, 0);
    assert!(c.current_hour <= c.now && c.now - c.current_hour < 3600);
    assert!(c.now > 1_600_000_000);
}

#[test]
fn window_and_menu() {
    assert_eq!(toggle_action(true), WindowAction::Hide);
    assert_eq!(toggle_action(false), WindowAction::ShowAndFocus);
    assert_eq!(menu_action("toggle_widget"), MenuAction::ToggleWidget);
    assert_eq!(menu_action("open_dashboard"), MenuAction::OpenDashboard);
    assert_eq!(menu_action("open_settings"), MenuAction::OpenSettings);
    assert_eq!(menu_action("quit"), MenuAction::Quit);
    assert_eq!(menu_action("other"), MenuAction::Ignore);
}

#[test]
fn a_zero_limit_is_not_checked() {
    assert!(!limit_is_set(0));
    assert!(limit_is_set(1));
    assert!(limit_is_set(10_000_000_000));
}
