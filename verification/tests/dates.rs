use hotline_protocol::dates::{decode_date_field, decode_hotline_date};

#[test]
fn file_dates_support_both_encodings_and_unknown_values() {
    let modern = [0x07, 0xEA, 0, 0, 0, 0, 0, 0];
    assert_eq!(decode_date_field(&modern).as_deref(), Some("1/1/2026 12:00 AM"));
    let mut legacy = vec![0x07, 0x70, 0, 0];
    legacy.extend_from_slice(&3_850_070_400u32.to_be_bytes());
    assert_eq!(decode_date_field(&legacy), decode_date_field(&modern));
    assert_eq!(decode_date_field(&[0; 8]), None);
    assert_eq!(decode_date_field(&[0; 4]), None);
    assert_eq!(decode_hotline_date(2026, 400 * 86400), None);
    assert_eq!(decode_hotline_date(1904, 0).as_deref(), Some("1/1/1904 12:00 AM"));
}

#[test]
fn dates_format_afternoon_leap_days_and_minutes() {
    // 2024 is a leap year: day 59 (0-based) is February 29.
    assert_eq!(decode_hotline_date(2024, 59 * 86400 + 13 * 3600 + 5 * 60).as_deref(), Some("2/29/2024 1:05 PM"));
    assert_eq!(decode_hotline_date(2023, 59 * 86400).as_deref(), Some("3/1/2023 12:00 AM"));
    assert_eq!(decode_hotline_date(2023, 364 * 86400 + 12 * 3600 + 59 * 60 + 59).as_deref(), Some("12/31/2023 12:59 PM"));
    assert_eq!(decode_hotline_date(2023, 365 * 86400), None);
    assert_eq!(decode_hotline_date(0, 5), None);
}

#[test]
fn mac_epoch_form_matches_modern_form() {
    // 1904-01-01 + 1 year (366 days, 1904 is a leap year) + 31 days + 10 hours.
    let secs = 366 * 86400 + 31 * 86400 + 10 * 3600;
    assert_eq!(decode_hotline_date(1904, secs).as_deref(), Some("2/1/1905 10:00 AM"));
    assert_eq!(decode_hotline_date(1904, secs), decode_hotline_date(1905, 31 * 86400 + 10 * 3600));
    assert_eq!(decode_hotline_date(1904, u32::MAX).as_deref(), Some("2/6/2040 6:28 AM"));
}
