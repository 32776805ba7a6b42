use stellaris::date::Date;

#[test]
fn from_ymd_checks_the_calendar() {
    assert!(Date::from_ymd(2024, 2, 29).is_some());
    assert!(Date::from_ymd(2023, 2, 29).is_none());
    assert!(Date::from_ymd(1900, 2, 29).is_none());
    assert!(Date::from_ymd(2000, 2, 29).is_some());
    assert!(Date::from_ymd(2024, 4, 31).is_none());
    assert!(Date::from_ymd(2024, 13, 1).is_none());
    assert!(Date::from_ymd(2024, 0, 1).is_none());
    assert!(Date::from_ymd(-4, 2, 29).is_some());
    assert!(Date::from_ymd(262143, 1, 1).is_none());
}

#[test]
fn from_ymd_agrees_with_chrono() {
    for y in [-400, -101, -100, -4, -1, 0, 1, 4, 100, 400, 1900, 2000, 2023, 2024, 262142, -262143] {
        for m in 0..14u32 {
            for d in 0..33u32 {
                let ours = Date::from_ymd(y, m, d).is_some();
                let theirs = chrono::NaiveDate::from_ymd_opt(y, m, d).is_some();
                assert_eq!(ours, theirs, "{}-{}-{}", y, m, d);
            }
        }
    }
}

#[test]
fn format_ymd_pads_like_chrono() {
    for (y, m, d) in [(2024, 1, 1), (5, 3, 9), (0, 12, 31), (9999, 7, 4), (10000, 1, 1), (-1, 1, 1), (-12345, 6, 7), (262142, 12, 31)] {
        let date = Date::from_ymd(y, m, d).unwrap();
        let nd = chrono::NaiveDate::from_ymd_opt(y, m, d).unwrap();
        assert_eq!(date.format_ymd(), nd.format("%Y-%m-%d").to_string());
        assert_eq!(date.format_ymd(), nd.to_string());
    }
    assert_eq!(Date::from_ymd(5, 3, 9).unwrap().format_ymd(), "0005-03-09");
    assert_eq!(Date::from_ymd(-1, 1, 1).unwrap().format_ymd(), "-0001-01-01");
    assert_eq!(Date::from_ymd(10000, 1, 1).unwrap().format_ymd(), "+10000-01-01");
}

#[test]
fn later_dates() {
    let a = Date::from_ymd(2024, 1, 2).unwrap();
    let b = Date::from_ymd(2023, 12, 31).unwrap();
    assert!(a.is_later_than(&b));
    assert!(!b.is_later_than(&a));
    assert!(!a.is_later_than(&a));
}
