use lightning_manager::dates::{chrono_now_string, days_to_date, timestamp_name};

#[test]
fn epoch_is_first_of_january_1970() {
    assert_eq!(days_to_date(0), (1970, 1, 1));
}

#[test]
fn new_year_2024() {
    assert_eq!(days_to_date(19723), (2024, 1, 1));
}

#[test]
fn leap_day_2000() {
    assert_eq!(days_to_date(11016), (2000, 2, 29));
    assert_eq!(days_to_date(11017), (2000, 3, 1));
}

#[test]
fn day_before_epoch() {
    assert_eq!(days_to_date(-1), (1969, 12, 31));
}

#[test]
fn end_of_february_in_common_year() {
    // 2023-02-28 and 2023-03-01
    assert_eq!(days_to_date(19416), (2023, 2, 28));
    assert_eq!(days_to_date(19417), (2023, 3, 1));
}

#[test]
fn century_without_leap_day() {
    // 2100-03-01 follows 2100-02-28
    assert_eq!(days_to_date(47540), (2100, 2, 28));
    assert_eq!(days_to_date(47541), (2100, 3, 1));
}

#[test]
fn consecutive_days_are_consecutive_dates() {
    let mut prev = days_to_date(0);
    for d in 1..2000i64 {
        let cur = days_to_date(d);
        let next_day = (prev.0, prev.1, prev.2 + 1);
        let next_month = if prev.1 == 12 { (prev.0 + 1, 1, 1) } else { (prev.0, prev.1 + 1, 1) };
        assert!(cur == next_day || cur == next_month, "day {d}: {prev:?} -> {cur:?}");
        prev = cur;
    }
}

#[test]
fn timestamp_of_epoch() {
    assert_eq!(timestamp_name(0), "1970-01-01_00-00-00");
}

#[test]
fn timestamp_pads_fields() {
    assert_eq!(timestamp_name(1704067200 + 3661), "2024-01-01_01-01-01");
    assert_eq!(timestamp_name(1704067200 + 86399), "2024-01-01_23-59-59");
}

#[test]
fn now_string_has_backup_folder_shape() {
    let s = chrono_now_string();
    let b = s.as_bytes();
    assert_eq!(b.len(), 19);
    for (i, c) in b.iter().enumerate() {
        match i {
            4 | 7 | 13 | 16 => assert_eq!(*c, b'-'),
            10 => assert_eq!(*c, b'_'),
            _ => assert!(c.is_ascii_digit()),
        }
    }
    assert!(s.as_str() >= "2024");
}
