use scenter::date::{
    civil_from_days, days_from_civil, epoch_to_date, format_utc_timestamp, rfc3339_epoch,
    rfc_in_range,
};

#[test]
fn civil_day_numbers() {
    assert_eq!(days_from_civil(1970, 1, 1), Some(0));
    assert_eq!(days_from_civil(2000, 3, 1), Some(11017));
    assert_eq!(days_from_civil(2026, 13, 1), None);
    assert_eq!(days_from_civil(2026, 2, 0), None);
    assert_eq!(civil_from_days(0), Some((1970, 1, 1)));
    assert_eq!(civil_from_days(-1), Some((1969, 12, 31)));
    assert_eq!(civil_from_days(11017), Some((2000, 3, 1)));
    for z in [-800_000i64, -1, 0, 59, 60, 365, 19_000, 2_000_000] {
        let (y, m, d) = civil_from_days(z).unwrap();
        assert_eq!(days_from_civil(y, m, d), Some(z));
    }
}

#[test]
fn rfc3339_seconds() {
    assert_eq!(rfc3339_epoch("1970-01-01T00:00:00Z"), Some(0));
    assert_eq!(rfc3339_epoch("2026-02-01T10:00:00.123Z"), Some(1_769_940_000));
    assert_eq!(rfc3339_epoch("2026-02-01"), None);
    assert_eq!(rfc3339_epoch("2026-02-01T10:00"), None);
    assert!(rfc_in_range("2026-02-01T10:00:00Z"));
    assert!(!rfc_in_range("9223372036854775807-01-01T00:00:00Z"));
}

#[test]
fn timestamps_and_dates() {
    assert_eq!(format_utc_timestamp(0), "1970-01-01T00:00:00Z");
    assert_eq!(format_utc_timestamp(1_769_940_000), "2026-02-01T10:00:00Z");
    assert_eq!(format_utc_timestamp(951_782_400), "2000-02-29T00:00:00Z");
    assert_eq!(epoch_to_date(1_769_940_000), Some("2026-02-01".to_string()));
    assert_eq!(epoch_to_date(-1), Some("1969-12-31".to_string()));
    let t = format_utc_timestamp(1_234_567_890);
    assert_eq!(rfc3339_epoch(&t), Some(1_234_567_890));
}

#[test]
fn civil_from_days_steps_to_the_next_calendar_day() {
    let feb28 = days_from_civil(2024, 2, 28).unwrap();
    assert_eq!(civil_from_days(feb28 + 1), Some((2024, 2, 29)));
    assert_eq!(civil_from_days(feb28 + 2), Some((2024, 3, 1)));
    let dec31 = days_from_civil(1999, 12, 31).unwrap();
    assert_eq!(civil_from_days(dec31 + 1), Some((2000, 1, 1)));
    let feb28_2100 = days_from_civil(2100, 2, 28).unwrap();
    assert_eq!(civil_from_days(feb28_2100 + 1), Some((2100, 3, 1)));
}

#[test]
fn timestamps_have_twenty_characters_up_to_year_9999() {
    assert_eq!(format_utc_timestamp(951_868_800), "2000-03-01T00:00:00Z");
    for s in [0u64, 59, 86_399, 951_868_800, 253_402_300_799] {
        assert_eq!(format_utc_timestamp(s).len(), 20);
    }
    assert_eq!(format_utc_timestamp(253_402_300_799), "9999-12-31T23:59:59Z");
}
