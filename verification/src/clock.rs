//! Wall-clock readings and the time buckets that telemetry rows are filed under.
use vstd::prelude::*;

verus! {

/// Integer division as Rust's `/` computes it on signed values: rounded toward zero.
pub open spec fn trunc_div(a: int, b: int) -> int {
    if a >= 0 {
        a / b
    } else {
        -((-a) / b)
    }
}

/// Length of a raw telemetry bucket, in seconds.
pub const INTERVAL_SECS: i64 = 300;

/// Length of an hourly bucket, in seconds.
pub const HOUR_SECS: i64 = 3600;

/// Start of the five-minute bucket of timestamp `t`.
pub open spec fn interval_start_spec(t: int) -> int {
    trunc_div(t, 300) * 300
}

/// Start of the clock hour of timestamp `t`.
pub open spec fn hour_start_spec(t: int) -> int {
    trunc_div(t, 3600) * 3600
}

/// Whether `c` is an ASCII digit.
pub open spec fn is_digit(c: char) -> bool {
    '0' <= c <= '9'
}

/// The shape of a `%Y-%m-%d` date: it ends in four year digits, `-`, two month
/// digits, `-` and two day digits.
pub open spec fn is_date_label(s: Seq<char>) -> bool {
    let n = s.len() as int;
    &&& n >= 10
    &&& is_digit(s[n - 10]) && is_digit(s[n - 9]) && is_digit(s[n - 8]) && is_digit(s[n - 7])
    &&& s[n - 6] == '-'
    &&& is_digit(s[n - 5]) && is_digit(s[n - 4])
    &&& s[n - 3] == '-'
    &&& is_digit(s[n - 2]) && is_digit(s[n - 1])
}

/// The shape of a `%Y-%m` month: it ends in four year digits, `-` and two
/// month digits.
pub open spec fn is_month_label(s: Seq<char>) -> bool {
    let n = s.len() as int;
    &&& n >= 7
    &&& is_digit(s[n - 7]) && is_digit(s[n - 6]) && is_digit(s[n - 5]) && is_digit(s[n - 4])
    &&& s[n - 3] == '-'
    &&& is_digit(s[n - 2]) && is_digit(s[n - 1])
}

/// A day's label is never a month's label: the day's has `-` where the
/// month's has a year digit.
pub proof fn lemma_date_label_is_not_month_label(s: Seq<char>)
    ensures
        !(is_date_label(s) && is_month_label(s)),
{
}

/// Reads the current time as a Unix timestamp, in seconds:
/// `chrono::Local::now().timestamp()`. The value depends on the system clock,
/// so nothing is stated of it; chrono panics where the clock reads before 1970,
/// which no argument can rule out.
#[verifier::external_body]
pub(crate) fn local_timestamp() -> (t: i64) {
    chrono::Local::now().timestamp()
}

/// Today's date in the local time zone as chrono formats it with `%Y-%m-%d`:
/// `chrono::Local::now().format("%Y-%m-%d").to_string()`. Which date it is
/// depends on the system clock and time zone and is not stated; its shape is:
/// chrono writes the year with at least four digits (a sign before it outside
/// 0 to 9999), then `-`, the month and the day each as two zero-padded digits.
#[verifier::external_body]
pub(crate) fn local_date_label() -> (s: String)
    ensures
        is_date_label(s@),
{
    chrono::Local::now().format("%Y-%m-%d").to_string()
}

/// The current month in the local time zone as chrono formats it with `%Y-%m`:
/// `chrono::Local::now().format("%Y-%m").to_string()`. Which month it is
/// depends on the system clock and time zone and is not stated; its shape is
/// the year with at least four digits, `-`, and the month as two digits.
#[verifier::external_body]
pub(crate) fn local_month_label() -> (s: String)
    ensures
        is_month_label(s@),
{
    chrono::Local::now().format("%Y-%m").to_string()
}

/// Start of the five-minute bucket that holds timestamp `t`.
pub fn interval_start(t: i64) -> (r: i64)
    ensures
        r == interval_start_spec(t as int),
{
    (t / INTERVAL_SECS) * INTERVAL_SECS
}

/// Start of the clock hour that holds timestamp `t`.
pub fn hour_start(t: i64) -> (r: i64)
    ensures
        r == hour_start_spec(t as int),
{
    (t / HOUR_SECS) * HOUR_SECS
}

/// The five-minute bucket that a flush made now files its rows under.
pub fn current_interval_timestamp() -> (r: i64)
    ensures
        exists|t: i64| r == interval_start_spec(t as int),
{
    let t = local_timestamp();
    interval_start(t)
}

} // verus!
