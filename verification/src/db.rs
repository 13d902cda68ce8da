//! The decisions around the usage database: which report a period names, how
//! retention settings are written and read back, and where the purge cutoffs fall.
//! The SQL itself runs outside the library.
use vstd::prelude::*;
use crate::clock::{hour_start, hour_start_spec, local_timestamp};
use crate::decimal::{format_i64, lemma_parse_signed_text, parse_i64, parse_i64_spec, signed_text};
use crate::text::{starts_with, strip_prefix_repeatedly, text_equals, trim_start_matches};

verus! {

/// Usage of one process over a reporting period.
#[derive(Clone, Debug, PartialEq, Eq)]
pub struct ProcessStat {
    pub process_name: String,
    pub bytes_downloaded: u64,
    pub bytes_uploaded: u64,
    pub screen_time_seconds: u64,
}

/// Size of the database, its row counts and its retention settings.
#[derive(Clone, Debug, PartialEq, Eq)]
pub struct DbInfo {
    pub total_size_bytes: u64,
    pub raw_rows: u64,
    pub hourly_rows: u64,
    pub daily_rows: u64,
    pub raw_retention_days: i64,
    pub hourly_retention_days: i64,
}

/// The report that a period name asks for.
#[derive(Clone, Debug, PartialEq, Eq)]
pub enum StatsPeriod {
    /// The current clock hour, from raw telemetry.
    ThisHour,
    /// The last 24 hours, from raw telemetry.
    Hourly,
    /// Today, from raw telemetry, without processes that used nothing.
    Daily,
    /// The last 7 days of daily totals plus today.
    Weekly,
    /// The last 30 days of daily totals plus today.
    Monthly,
    /// The last 365 days of daily totals plus today.
    Yearly,
    /// One calendar month, given as `YYYY-MM`.
    Month(String),
    /// Today, from raw telemetry, every process included.
    Today,
}

/// What a request for historical statistics asks for.
#[derive(Clone, Debug, PartialEq, Eq)]
pub enum HistoryRequest {
    /// Delete all stored telemetry.
    Clear,
    /// Report usage over a period.
    Stats(StatsPeriod),
}

/// The periods named by a fixed word; `None` for any other text.
pub open spec fn named_period(t: Seq<char>) -> Option<StatsPeriod> {
    if t == "this_hour"@ {
        Some(StatsPeriod::ThisHour)
    } else if t == "hourly"@ {
        Some(StatsPeriod::Hourly)
    } else if t == "daily"@ {
        Some(StatsPeriod::Daily)
    } else if t == "weekly"@ {
        Some(StatsPeriod::Weekly)
    } else if t == "monthly"@ {
        Some(StatsPeriod::Monthly)
    } else if t == "yearly"@ {
        Some(StatsPeriod::Yearly)
    } else {
        None
    }
}

/// The period that `text` names: one of the fixed words, `month_` followed by a
/// month (every leading `month_` is removed), and today for anything else.
pub open spec fn period_matches(text: Seq<char>, p: StatsPeriod) -> bool {
    match named_period(text) {
        Some(q) => p == q,
        None => if "month_"@.is_prefix_of(text) {
            p matches StatsPeriod::Month(m) && m@ == strip_prefix_repeatedly(text, "month_"@)
        } else {
            p == StatsPeriod::Today
        },
    }
}

/// Reads a period name.
pub fn parse_stats_period(period: &str) -> (r: StatsPeriod)
    ensures
        period_matches(period@, r),
{
    if text_equals(period, "this_hour") {
        StatsPeriod::ThisHour
    } else if text_equals(period, "hourly") {
        StatsPeriod::Hourly
    } else if text_equals(period, "daily") {
        StatsPeriod::Daily
    } else if text_equals(period, "weekly") {
        StatsPeriod::Weekly
    } else if text_equals(period, "monthly") {
        StatsPeriod::Monthly
    } else if text_equals(period, "yearly") {
        StatsPeriod::Yearly
    } else if starts_with(period, "month_") {
        StatsPeriod::Month(trim_start_matches(period, "month_"))
    } else {
        StatsPeriod::Today
    }
}

/// Reads a request for historical statistics: `clear`, or a period name.
pub fn parse_history_request(period: &str) -> (r: HistoryRequest)
    ensures
        period@ == "clear"@ ==> r == HistoryRequest::Clear,
        period@ != "clear"@ ==> (r matches HistoryRequest::Stats(p) && period_matches(period@, p)),
{
    if text_equals(period, "clear") {
        HistoryRequest::Clear
    } else {
        HistoryRequest::Stats(parse_stats_period(period))
    }
}

/// Days of raw five-minute telemetry kept when no setting is stored.
pub const RAW_RETENTION_DEFAULT_DAYS: i64 = 7;

/// Days of hourly statistics kept when no setting is stored.
pub const HOURLY_RETENTION_DEFAULT_DAYS: i64 = 90;

/// The text of a stored setting, if one was read.
pub open spec fn stored_text(stored: Option<String>) -> Option<Seq<char>> {
    match stored {
        Some(s) => Some(s@),
        None => None,
    }
}

/// A retention setting as it is read: the stored text parsed as an integer,
/// or `default` where nothing was read or the text is no integer.
pub open spec fn retention_days_spec(stored: Option<Seq<char>>, default: i64) -> i64 {
    match stored {
        Some(t) => match parse_i64_spec(t) {
            Some(d) => d,
            None => default,
        },
        None => default,
    }
}

/// The value of a retention setting read from the settings table.
pub fn retention_days(stored: Option<String>, default: i64) -> (r: i64)
    ensures
        r == retention_days_spec(stored_text(stored), default),
{
    match stored {
        Some(text) => match parse_i64(text.as_str()) {
            Some(d) => d,
            None => default,
        },
        None => default,
    }
}

/// The text under which a retention setting of `days` is stored.
pub fn retention_setting_text(days: i64) -> (s: String)
    ensures
        s@ == signed_text(days as int),
{
    format_i64(days)
}

/// A retention setting that was written is read back unchanged, whatever the default.
pub proof fn lemma_retention_round_trip(days: i64, default: i64)
    ensures
        retention_days_spec(Some(signed_text(days as int)), default) == days,
{
    lemma_parse_signed_text(days);
}

/// The moment at which stored telemetry is rolled up.
pub struct RollupClock {
    /// The current Unix timestamp, in seconds.
    pub now: i64,
    /// Start of the current clock hour: raw rows before it are rolled into hours.
    pub current_hour: i64,
}

/// Reads the clock for a roll-up of stored telemetry.
pub fn rollup_clock() -> (c: RollupClock)
    ensures
        c.current_hour == hour_start_spec(c.now as int),
{
    let now = local_timestamp();
    RollupClock { now, current_hour: hour_start(now) }
}

/// Whether `now - days * 86400` can be computed in `i64`, step by step.
pub open spec fn cutoff_in_range(now: int, days: int) -> bool {
    &&& i64::MIN <= days * 24 <= i64::MAX
    &&& i64::MIN <= days * 86400 <= i64::MAX
    &&& i64::MIN <= now - days * 86400 <= i64::MAX
}

/// The timestamp before which rows older than `days` days are purged:
/// `now - days * 24 * 3600`, or `None` where that overflows an `i64`.
pub fn retention_cutoff(now: i64, days: i64) -> (r: Option<i64>)
    ensures
        r is Some <==> cutoff_in_range(now as int, days as int),
        r matches Some(c) ==> c == now - days * 86400,
{
    match days.checked_mul(24) {
        None => None,
        Some(per_hour) => match per_hour.checked_mul(3600) {
            None => None,
            Some(secs) => now.checked_sub(secs),
        },
    }
}

/// Assembles the database report from what was read; a failed reading counts as 0,
/// and a retention setting that could not be read is its default.
pub fn db_info_from(
    total_size_bytes: Option<u64>,
    raw_rows: Option<u64>,
    hourly_rows: Option<u64>,
    daily_rows: Option<u64>,
    raw_setting: Option<String>,
    hourly_setting: Option<String>,
) -> (info: DbInfo)
    ensures
        info.total_size_bytes == (match total_size_bytes { Some(v) => v, None => 0 }),
        info.raw_rows == (match raw_rows { Some(v) => v, None => 0 }),
        info.hourly_rows == (match hourly_rows { Some(v) => v, None => 0 }),
        info.daily_rows == (match daily_rows { Some(v) => v, None => 0 }),
        info.raw_retention_days == retention_days_spec(stored_text(raw_setting), RAW_RETENTION_DEFAULT_DAYS),
        info.hourly_retention_days == retention_days_spec(
            stored_text(hourly_setting),
            HOURLY_RETENTION_DEFAULT_DAYS,
        ),
{
    DbInfo {
        total_size_bytes: match total_size_bytes { Some(v) => v, None => 0 },
        raw_rows: match raw_rows { Some(v) => v, None => 0 },
        hourly_rows: match hourly_rows { Some(v) => v, None => 0 },
        daily_rows: match daily_rows { Some(v) => v, None => 0 },
        raw_retention_days: retention_days(raw_setting, RAW_RETENTION_DEFAULT_DAYS),
        hourly_retention_days: retention_days(hourly_setting, HOURLY_RETENTION_DEFAULT_DAYS),
    }
}

} // verus!
