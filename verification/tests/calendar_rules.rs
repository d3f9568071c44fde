use lsd::calendar::{following_day, leap_year, month_length};

#[test]
fn leap_years_follow_the_gregorian_rule() {
    assert!(leap_year(2024));
    assert!(!leap_year(2023));
    assert!(!leap_year(1900));
    assert!(leap_year(2000));
    assert!(leap_year(-4));
    assert!(!leap_year(-100));
    assert!(leap_year(-400));
    assert!(leap_year(0));
}

#[test]
fn month_lengths() {
    assert_eq!(month_length(2024, 2), 29);
    assert_eq!(month_length(2023, 2), 28);
    assert_eq!(month_length(2023, 4), 30);
    assert_eq!(month_length(2023, 12), 31);
}

#[test]
fn following_day_rolls_over_months_and_years() {
    assert_eq!(following_day(2024, 5, 6), Some((2024, 5, 7)));
    assert_eq!(following_day(2024, 2, 28), Some((2024, 2, 29)));
    assert_eq!(following_day(2024, 2, 29), Some((2024, 3, 1)));
    assert_eq!(following_day(2023, 2, 28), Some((2023, 3, 1)));
    assert_eq!(following_day(2023, 4, 30), Some((2023, 5, 1)));
    assert_eq!(following_day(2023, 12, 31), Some((2024, 1, 1)));
    assert_eq!(following_day(i32::MAX, 12, 31), None);
    assert_eq!(following_day(i32::MAX, 12, 30), Some((i32::MAX, 12, 31)));
}
