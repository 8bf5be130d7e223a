use mouse_capture::date::{days_in_month, is_leap_year, parse_date, Date};
use mouse_capture::naming::{chunk_file_name, day_dir_components, day_prefix, lex_lt_bytes, name_matches};

fn day(y: u32, m: u32, d: u32) -> Date {
    Date::new(y, m, d).unwrap()
}

#[test]
fn chunk_name_exact() {
    let name = chunk_file_name(&day(2024, 1, 15), 1);
    assert_eq!(name, b"2024-01-15-00001.bin".to_vec());
}

#[test]
fn chunk_name_pads_each_field() {
    let name = chunk_file_name(&day(987, 11, 3), 42);
    assert_eq!(name, b"0987-11-03-00042.bin".to_vec());
}

#[test]
fn day_prefix_exact() {
    assert_eq!(day_prefix(&day(2024, 1, 15)), b"2024-01-15-".to_vec());
}

#[test]
fn dir_components_use_unpadded_year() {
    let (y, m, d) = day_dir_components(&day(2024, 1, 5));
    assert_eq!(y, b"2024".to_vec());
    assert_eq!(m, b"01".to_vec());
    assert_eq!(d, b"05".to_vec());
}

#[test]
fn lexicographic_order_equals_write_order() {
    // write order: ascending date, then ascending index
    let written = vec![
        chunk_file_name(&day(2023, 12, 31), 1),
        chunk_file_name(&day(2023, 12, 31), 2),
        chunk_file_name(&day(2024, 1, 1), 1),
        chunk_file_name(&day(2024, 1, 1), 10),
        chunk_file_name(&day(2024, 1, 1), 99999),
        chunk_file_name(&day(2024, 1, 2), 1),
        chunk_file_name(&day(2024, 2, 1), 1),
        chunk_file_name(&day(2025, 1, 1), 1),
    ];
    let mut sorted = written.clone();
    sorted.sort();
    assert_eq!(sorted, written);
    for i in 0..written.len() - 1 {
        assert!(lex_lt_bytes(&written[i], &written[i + 1]));
        assert!(!lex_lt_bytes(&written[i + 1], &written[i]));
    }
}

#[test]
fn name_matches_same_day_only() {
    let d = day(2024, 1, 15);
    assert!(name_matches(&b"2024-01-15-00001.bin".to_vec(), &d));
    assert!(name_matches(&b"2024-01-15-00123.bin".to_vec(), &d));
    assert!(!name_matches(&b"2024-01-16-00001.bin".to_vec(), &d));
    assert!(!name_matches(&b"2024-01-15-00001.txt".to_vec(), &d));
    assert!(!name_matches(&b"2024-01-15".to_vec(), &d));
    assert!(!name_matches(&b"notes".to_vec(), &d));
}

#[test]
fn parse_date_accepts_valid_days() {
    assert_eq!(parse_date(&b"2024-01-15".to_vec()), Some(day(2024, 1, 15)));
    assert_eq!(parse_date(&b"2024-02-29".to_vec()), Some(day(2024, 2, 29)));
    assert_eq!(parse_date(&b"2000-02-29".to_vec()), Some(day(2000, 2, 29)));
}

#[test]
fn parse_date_rejects_bad_input() {
    assert_eq!(parse_date(&b"2023-02-29".to_vec()), None);
    assert_eq!(parse_date(&b"1900-02-29".to_vec()), None);
    assert_eq!(parse_date(&b"2024-13-01".to_vec()), None);
    assert_eq!(parse_date(&b"2024-00-10".to_vec()), None);
    assert_eq!(parse_date(&b"2024-01-00".to_vec()), None);
    assert_eq!(parse_date(&b"2024-01-32".to_vec()), None);
    assert_eq!(parse_date(&b"2024/01/15".to_vec()), None);
    assert_eq!(parse_date(&b"24-01-15".to_vec()), None);
    assert_eq!(parse_date(&b"2024-01-15x".to_vec()), None);
    assert_eq!(parse_date(&b"".to_vec()), None);
}

#[test]
fn calendar_rules() {
    assert!(is_leap_year(2024));
    assert!(!is_leap_year(2023));
    assert!(!is_leap_year(1900));
    assert!(is_leap_year(2000));
    assert_eq!(days_in_month(2024, 2), 29);
    assert_eq!(days_in_month(2023, 2), 28);
    assert_eq!(days_in_month(2024, 4), 30);
    assert_eq!(days_in_month(2024, 12), 31);
}

#[test]
fn date_construction_bounds() {
    assert!(Date::new(2024, 0, 1).is_none());
    assert!(Date::new(2024, 13, 1).is_none());
    assert!(Date::new(2024, 1, 0).is_none());
    assert!(Date::new(2024, 4, 31).is_none());
    assert!(Date::new(2024, 4, 30).is_some());
    assert!(Date::new(2024, 1, 31).is_some());
}

#[test]
fn date_ordering_is_chronological() {
    let a = day(2023, 12, 31);
    let b = day(2024, 1, 1);
    let c = day(2024, 1, 2);
    assert!(a.lt(&b));
    assert!(b.lt(&c));
    assert!(!b.lt(&a));
    assert!(a.le(&a));
    assert!(!a.lt(&a));
}
