use protohackers::speed::{
    average_speed, day_key, is_speeding, miles_between, seconds_between, SECONDS_PER_DAY,
};

#[test]
fn day_keys() {
    assert_eq!(SECONDS_PER_DAY, 86400);
    assert_eq!(day_key(0), 0);
    assert_eq!(day_key(86399), 0);
    assert_eq!(day_key(86400), 1);
    assert_eq!(day_key(172799), 1);
    assert_eq!(day_key(u32::MAX), 49710);
}

#[test]
fn distances_do_not_depend_on_order() {
    assert_eq!(miles_between(8, 9), 1);
    assert_eq!(miles_between(9, 8), 1);
    assert_eq!(miles_between(0, u16::MAX), u16::MAX);
    assert_eq!(miles_between(7, 7), 0);
    assert_eq!(seconds_between(0, 45), 45);
    assert_eq!(seconds_between(45, 0), 45);
    assert_eq!(seconds_between(u32::MAX, 0), u32::MAX);
}

#[test]
fn sixty_miles_in_fifty_minutes_is_seventy_two() {
    assert_eq!(average_speed(0, 0, 60, 3000), Some(7200));
    assert_eq!(average_speed(60, 3000, 0, 0), Some(7200));
}

#[test]
fn one_mile_in_forty_five_seconds_is_eighty() {
    assert_eq!(average_speed(8, 0, 9, 45), Some(8000));
    assert_eq!(average_speed(9, 45, 8, 0), Some(8000));
}

#[test]
fn speeds_are_rounded_to_the_nearest_hundredth() {
    // 1 mile in 7 seconds: 514.2857... mph
    assert_eq!(average_speed(0, 0, 1, 7), Some(51429));
    // 1 mile in 3601 seconds: 0.99972... mph
    assert_eq!(average_speed(0, 0, 1, 3601), Some(100));
    // 1 mile in 23 seconds: 156.5217... mph
    assert_eq!(average_speed(10, 100, 11, 123), Some(15652));
    // 1 mile in 2880000 seconds: 0.00125 mph
    assert_eq!(average_speed(0, 0, 1, 2_880_000), Some(0));
    // 3 miles in 2160000 seconds: 0.005 mph, a half rounds up
    assert_eq!(average_speed(0, 0, 3, 2_160_000), Some(1));
    assert_eq!(average_speed(5, 10, 5, 20), Some(0));
}

#[test]
fn no_speed_without_time() {
    assert_eq!(average_speed(0, 100, 60, 100), None);
    assert_eq!(average_speed(3, 0, 3, 0), None);
    assert!(!is_speeding(0, 100, 60, 100, 0));
}

#[test]
fn largest_speed_fits() {
    assert_eq!(average_speed(0, 0, u16::MAX, 1), Some(65535 * 360000));
    assert_eq!(average_speed(0, 0, u16::MAX, u32::MAX), Some(5));
    assert!(is_speeding(0, 0, u16::MAX, 1, u16::MAX));
    assert!(!is_speeding(0, 0, 1, u32::MAX, u16::MAX));
}

#[test]
fn tolerance_is_half_a_mile_per_hour() {
    // 60 miles in 3600 seconds is 60 mph
    assert!(!is_speeding(0, 0, 60, 3600, 60));
    assert!(is_speeding(0, 0, 60, 3600, 59));
    // 121 miles in 7200 seconds is 60.5 mph: not more than half over
    assert!(!is_speeding(0, 0, 121, 7200, 60));
    // 121 miles in 7199 seconds is a little more
    assert!(is_speeding(0, 0, 121, 7199, 60));
    assert!(is_speeding(121, 7199, 0, 0, 60));
    // 72 mph against a limit of 60
    assert!(is_speeding(0, 0, 60, 3000, 60));
    assert!(!is_speeding(0, 0, 60, 3000, 72));
    assert!(is_speeding(0, 0, 60, 3000, 71));
}
