use speed_meter::decimal::{format_i64, format_u64, parse_i64};

#[test]
fn formats_like_to_string() {
    for x in [0i64, 7, -7, 10, 90, -365, i64::MAX, i64::MIN] {
        assert_eq!(format_i64(x), x.to_string());
    }
    for x in [0u64, 9, 10, 1234567890, u64::MAX] {
        assert_eq!(format_u64(x), x.to_string());
    }
}

#[test]
fn parses_like_str_parse() {
    for t in ["0", "7", "+7", "-7", "007", "-0", "9223372036854775807", "-9223372036854775808",
              "9223372036854775808", "-9223372036854775809", "", "+", "-", "12a", " 5", "5 ", "+-5", "1_000", "٣"] {
        assert_eq!(parse_i64(t), t.parse::<i64>().ok(), "text {:?}", t);
    }
}

#[test]
fn round_trip() {
    for x in [0i64, 1, -1, 90, 7, i64::MAX, i64::MIN, -123456789] {
        assert_eq!(parse_i64(&format_i64(x)), Some(x));
    }
}
