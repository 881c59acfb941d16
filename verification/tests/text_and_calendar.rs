use jafgen::calendar::format_stamp;
use jafgen::simulation::time::{epoch, Day, Season};
use jafgen::text::{int_to_text, millionths_to_text, padded_to_text, uint_to_text};

#[test]
fn integers_print_as_rust_prints_them() {
    assert_eq!(int_to_text(0), "0");
    assert_eq!(int_to_text(7), "7");
    assert_eq!(int_to_text(1100), "1100");
    assert_eq!(int_to_text(-45), "-45");
    assert_eq!(int_to_text(i64::MIN), i64::MIN.to_string());
    assert_eq!(int_to_text(i64::MAX), i64::MAX.to_string());
    assert_eq!(uint_to_text(1234), "1234");
}

#[test]
fn padded_digits_keep_the_width() {
    assert_eq!(padded_to_text(5, 3), "005");
    assert_eq!(padded_to_text(42, 3), "042");
    assert_eq!(padded_to_text(1234, 3), "234");
    assert_eq!(padded_to_text(9, 0), "");
}

#[test]
fn tax_rates_print_as_floats_print() {
    assert_eq!(millionths_to_text(60_000), "0.06");
    assert_eq!(millionths_to_text(62_500), "0.0625");
    assert_eq!(millionths_to_text(75_000), "0.075");
    assert_eq!(millionths_to_text(0), "0");
    assert_eq!(millionths_to_text(1_000_000), "1");
    assert_eq!(millionths_to_text(1_250_000), "1.25");
    assert_eq!(millionths_to_text(1), "0.000001");
    for ppm in [40_000u32, 60_000, 62_500, 75_000, 80_000, 123_456, 5] {
        assert_eq!(millionths_to_text(ppm), (ppm as f64 / 1_000_000.0).to_string());
    }
}

#[test]
fn the_epoch_is_september_first_2023() {
    let e = epoch();
    assert_eq!(e, 738_764);
    let day = Day::new(0, 0, e);
    assert_eq!((day.year(), day.month(), day.day(), day.day_of_year()), (2023, 9, 1, 244));
    assert_eq!(day.day_of_week(), 4);
    assert_eq!(format_stamp(e as i64 * 1440), "2023-09-01T00:00:00");
}

#[test]
fn day_one_is_a_monday_of_year_one() {
    let first = Day::new(0, 0, 1);
    assert_eq!((first.year(), first.month(), first.day(), first.day_of_year()), (1, 1, 1, 1));
    assert_eq!(first.day_of_week(), 0);
    assert_eq!(Day::new(-1, 0, 1).day_of_week(), 6);
    assert_eq!(Day::new(-2, 0, 1).day_of_week(), 5);
    let before = Day::new(-1, 0, 1);
    assert_eq!((before.year(), before.month(), before.day()), (0, 12, 31));
}

#[test]
fn weekdays_follow_the_day_number() {
    for d in [-1000i64, -7, 0, 1, 2, 100, 738_764, 738_765, 738_766, 750_000] {
        assert_eq!(Day::new(d, 0, 0).day_of_week() as i64, (d - 1).rem_euclid(7));
    }
}

#[test]
fn leap_years_have_a_february_twenty_ninth() {
    let feb28_2024 = Day::new(180, 0, epoch());
    assert_eq!((feb28_2024.month(), feb28_2024.day()), (2, 28));
    let next = Day::new(181, 0, epoch());
    assert_eq!((next.month(), next.day()), (2, 29));
    let feb28_2023 = Day::new(-185, 0, epoch());
    assert_eq!((feb28_2023.year(), feb28_2023.month(), feb28_2023.day()), (2023, 2, 28));
    let after = Day::new(-184, 0, epoch());
    assert_eq!((after.month(), after.day()), (3, 1));
    assert_eq!(Day::new(366, 0, epoch()).year(), 2024);
    assert_eq!(Day::new(366, 0, epoch()).day_of_year(), 245);
}

#[test]
fn moments_print_with_date_and_time() {
    assert_eq!(format_stamp(738_764 * 1440 + 425), "2023-09-01T07:05:00");
    assert_eq!(format_stamp(738_764 * 1440 + 1439), "2023-09-01T23:59:00");
    assert_eq!(format_stamp(738_765 * 1440), "2023-09-02T00:00:00");
    assert_eq!(format_stamp(1440), "0001-01-01T00:00:00");
}

#[test]
fn days_know_their_calendar() {
    let day = Day::new(0, 30, epoch());
    assert_eq!(day.date(), 738_764);
    assert_eq!(day.date_index(), 0);
    assert_eq!(day.minutes(), 30);
    assert_eq!(day.year(), 2023);
    assert_eq!(day.month(), 9);
    assert_eq!(day.day(), 1);
    assert_eq!(day.day_of_year(), 244);
    assert_eq!(day.day_of_week(), 4);
    assert!(!day.is_weekend());
    let saturday = Day::new(1, 0, epoch());
    assert!(saturday.is_weekend());
    assert_eq!(saturday.day_of_week(), 5);
    let monday = Day::new(3, 0, epoch());
    assert!(!monday.is_weekend());
}

#[test]
fn seasons_turn_on_the_twenty_first() {
    assert_eq!(Day::new(0, 0, epoch()).season(), Season::Summer);
    assert_eq!(Day::new(19, 0, epoch()).season(), Season::Summer);
    assert_eq!(Day::new(20, 0, epoch()).season(), Season::Fall);
    let dec20 = epoch() + 110;
    assert_eq!(Day::new(0, 0, dec20).season(), Season::Fall);
    assert_eq!(Day::new(1, 0, dec20).season(), Season::Winter);
    let mar21 = epoch() + 202;
    assert_eq!(Day::new(-1, 0, mar21).season(), Season::Winter);
    assert_eq!(Day::new(0, 0, mar21).season(), Season::Spring);
    let jun21 = epoch() + 294;
    assert_eq!(Day::new(0, 0, jun21).season(), Season::Summer);
    assert_eq!(Day::new(-1, 0, jun21).season(), Season::Spring);
    let jan5 = epoch() + 126;
    assert_eq!(Day::new(0, 0, jan5).season(), Season::Winter);
}

#[test]
fn two_weekend_days_in_every_week() {
    for start in 0..14i64 {
        let weekend_days = (0..7).filter(|k| Day::new(start + k, 0, epoch()).is_weekend()).count();
        assert_eq!(weekend_days, 2);
    }
}

#[test]
fn years_outside_four_digits_carry_a_sign() {
    assert_eq!(format_stamp(0), "0000-12-31T00:00:00");
    assert_eq!(format_stamp(-366 * 1440 + 61), "-0001-12-31T01:01:00");
    assert_eq!(format_stamp(3_652_059 * 1440), "9999-12-31T00:00:00");
    assert_eq!(format_stamp(3_652_060 * 1440), "+10000-01-01T00:00:00");
    assert_eq!(format_stamp(-3_652_425 * 1440), "-10000-12-31T00:00:00");
    let last = Day::new(95_745_399, 0, 0);
    assert_eq!((last.year(), last.month(), last.day(), last.day_of_year()), (262_142, 12, 31, 365));
    let first = Day::new(-95_746_129, 0, 0);
    assert_eq!((first.year(), first.month(), first.day(), first.day_of_year()), (-262_143, 1, 1, 1));
}
