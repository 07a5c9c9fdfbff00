use chrono::Datelike;
use dinner_planner::date::Date;
use dinner_planner::week::{weeks_in_year, Week};

#[test]
fn date_roundtrip_samples() {
    let samples = [
        (1, 1, 1),
        (2000, 2, 29),
        (2020, 12, 31),
        (2021, 1, 4),
        (2024, 3, 11),
        (9998, 12, 28),
    ];
    for (y, m, d) in samples {
        let date = Date::from_ymd(y, m, d).unwrap();
        assert_eq!(date.to_ymd(), (y, m, d));
    }
    assert!(Date::from_ymd(2023, 2, 29).is_none());
    assert!(Date::from_ymd(2024, 2, 30).is_none());
    assert!(Date::from_ymd(2024, 0, 1).is_none());
    assert!(Date::from_ymd(2024, 13, 1).is_none());
    assert!(Date::from_ymd(0, 1, 1).is_none());
}

#[test]
fn weekday_of_known_dates() {
    // 2024-03-11 was a Monday, 2024-03-17 a Sunday.
    assert_eq!(Date::from_ymd(2024, 3, 11).unwrap().weekday(), 0);
    assert_eq!(Date::from_ymd(2024, 3, 17).unwrap().weekday(), 6);
    // Day 0 of the calendar, 0001-01-01, is a Monday.
    assert_eq!(Date::from_ymd(1, 1, 1).unwrap().weekday(), 0);
}

#[test]
fn weeks_in_year_known_values() {
    assert_eq!(weeks_in_year(2020), 53);
    assert_eq!(weeks_in_year(2021), 52);
    assert_eq!(weeks_in_year(2015), 53);
    assert_eq!(weeks_in_year(2024), 52);
    assert_eq!(weeks_in_year(2026), 53);
}

#[test]
fn dates_for_iso_week_matches_input() {
    // The week after a 53-week year: week 1 of 2021 runs Jan 4..=10.
    let week = Week::new(1, 2021);
    let dates = week.dates();
    assert_eq!(dates.len(), 7);
    for (j, date) in dates.iter().enumerate() {
        let (y, m, d) = date.to_ymd();
        assert_eq!((y, m), (2021, 1));
        assert_eq!(d, 4 + j as u32);
        assert_eq!(date.weekday(), j as u32);
        let wy = Week::of_date(*date);
        assert_eq!((wy.week, wy.year), (1, 2021));
    }
    // An invalid week yields no dates.
    assert_eq!(Week::new(53, 2021).dates().len(), 0);
    assert_eq!(Week::new(0, 2021).dates().len(), 0);
}

#[test]
fn week_53_straddles_year_boundary() {
    let week = Week::new(53, 2020);
    let dates = week.dates();
    assert_eq!(dates.len(), 7);
    let (y0, m0, d0) = dates[0].to_ymd();
    assert_eq!((y0, m0, d0), (2020, 12, 28));
    let (y6, m6, d6) = dates[6].to_ymd();
    assert_eq!((y6, m6, d6), (2021, 1, 3));
    for date in dates.iter() {
        let wy = Week::of_date(*date);
        assert_eq!((wy.week, wy.year), (53, 2020));
    }
}

#[test]
fn next_week_zero_is_identity() {
    for (w, y) in [(1u32, 2021), (53, 2020), (26, 2024), (52, 2021)] {
        let next = Week::new(w, y).next(0);
        assert_eq!((next.week, next.year), (w, y));
    }
}

#[test]
fn next_week_wraps_year_boundaries() {
    let next = Week::new(1, 2021).next(-1);
    assert_eq!((next.week, next.year), (53, 2020));
    let back = next.next(1);
    assert_eq!((back.week, back.year), (1, 2021));
    let far = Week::new(1, 2021).next(-53);
    assert_eq!((far.week, far.year), (1, 2020));
    let ahead = Week::new(52, 2021).next(1);
    assert_eq!((ahead.week, ahead.year), (1, 2022));
}

#[test]
fn next_week_inverse_across_years() {
    for d in [-120i32, -53, -27, -1, 0, 1, 26, 52, 53, 104, 311] {
        let start = Week::new(7, 2022);
        let there = start.next(d);
        let back = there.next(-d);
        assert_eq!((back.week, back.year), (start.week, start.year));
    }
}

#[test]
fn week_math_agrees_with_reference_calendar() {
    // Walk a spread of dates and hold the library's calendar and ISO
    // week arithmetic against chrono's.
    let mut n = chrono::NaiveDate::from_ymd_opt(1995, 1, 1).unwrap();
    for _ in 0..150 {
        let date = Date::from_ymd(n.year(), n.month(), n.day()).unwrap();
        assert_eq!(date.to_ymd(), (n.year(), n.month(), n.day()));
        let wy = Week::of_date(date);
        assert_eq!(wy.week, n.iso_week().week());
        assert_eq!(wy.year, n.iso_week().year());
        assert_eq!(date.weekday(), n.weekday().num_days_from_monday());
        n = n.checked_add_days(chrono::Days::new(97)).unwrap();
    }
}

#[test]
fn current_week_is_valid_and_matches_clock() {
    let week = Week::current();
    assert!(1 <= week.week && week.week <= 53);
    let now = chrono::Local::now().date_naive();
    assert_eq!(week.week, now.iso_week().week());
    assert_eq!(week.year, now.iso_week().year());
}

#[test]
fn next_week_clamps_at_range_ends() {
    // The supported range ends at ISO years 1 and 9998; stepping past
    // either end lands on the first or last supported week.
    let low = Week::new(1, 1).next(-5);
    assert_eq!((low.week, low.year), (1, 1));
    let high = Week::new(1, 9998).next(60);
    assert_eq!(high.year, 9998);
    assert_eq!(high.week, weeks_in_year(9998));
}
