use omnidl::schedule::{add_minutes, describe, describe_unix, next_at, next_full_hour, Moment, Preset};

fn date(year: i32, month: u32, day: u32, hour: u32, minute: u32) -> Moment {
    Moment { year, month, day, hour, minute }
}

#[test]
fn descriptions_read_naturally() {
    let now = date(2026, 9, 23, 21, 15);
    assert_eq!(describe(date(2026, 9, 23, 23, 5), now), "heute um 23:05");
    assert_eq!(describe(date(2026, 9, 24, 2, 0), now), "morgen um 2:00");
    assert_eq!(describe(date(2026, 9, 26, 8, 15), now), "am 26.09. um 8:15");
    assert_eq!(describe(date(2030, 1, 1, 1, 0), now), "am 01.01.2030 um 1:00");
    let silvester = date(2026, 12, 31, 22, 0);
    assert_eq!(describe(date(2027, 1, 1, 2, 0), silvester), "morgen um 2:00", "Jahreswechsel");
}

#[test]
fn preset_labels() {
    assert_eq!(Preset::Tonight.label(), "Heute Nacht um 2:00");
    assert_eq!(next_full_hour(date(2026, 9, 23, 21, 15)), 22);
    assert_eq!(next_full_hour(date(2026, 9, 23, 23, 59)), 0);
}

#[test]
fn unix_times_read_as_local_clock_times() {
    let t = describe_unix(0);
    assert!(t.contains(" um "), "{t}");
}

#[test]
fn next_at_rolls_over_to_tomorrow() {
    let evening = date(2026, 9, 23, 21, 15);
    assert_eq!(next_at(evening, 2, 0), date(2026, 9, 24, 2, 0));
    assert_eq!(next_at(evening, 22, 30), date(2026, 9, 23, 22, 30));
    // exactly now is not in the future
    assert_eq!(next_at(evening, 21, 15), date(2026, 9, 24, 21, 15));
    let small_hours = date(2026, 9, 23, 0, 40);
    assert_eq!(next_at(small_hours, 2, 0), date(2026, 9, 23, 2, 0), "nach Mitternacht: noch heute");
}

#[test]
fn presets() {
    let now = date(2026, 12, 31, 23, 45);
    assert_eq!(Preset::In30Min.start(now), date(2027, 1, 1, 0, 15));
    assert_eq!(Preset::In1Hour.start(now), date(2027, 1, 1, 0, 45));
    assert_eq!(Preset::Tonight.start(now), date(2027, 1, 1, 2, 0));
    assert_eq!(Preset::Tonight.label(), "Heute Nacht um 2:00");
}

#[test]
fn months_and_leap_years_roll_over() {
    assert_eq!(add_minutes(date(2028, 2, 28, 23, 50), 30), date(2028, 2, 29, 0, 20));
    assert_eq!(add_minutes(date(2027, 2, 28, 23, 50), 30), date(2027, 3, 1, 0, 20));
    assert_eq!(add_minutes(date(2100, 2, 28, 23, 0), 60), date(2100, 3, 1, 0, 0));
    assert_eq!(add_minutes(date(2026, 4, 30, 12, 0), 60), date(2026, 4, 30, 13, 0));
    assert_eq!(next_at(date(2026, 4, 30, 23, 0), 25, 70), date(2026, 4, 30, 23, 59));
}
