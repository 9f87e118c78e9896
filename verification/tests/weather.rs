use pogoda::types::{Date, Stamp};
use pogoda::weather::{
    aggregate_monthly, days_kept, hours_on, is_daylight, keep_from_day, solar_day, sun_times,
    unique_dates, SolarDay,
};

fn date(year: i32, month: u32, day: u32) -> Date {
    Date { year, month, day }
}

fn at(d: Date, hour: u32, minute: u32) -> Stamp {
    Stamp { date: d, hour, minute }
}

#[test]
fn aggregate_monthly_groups_correctly() {
    let days = vec![date(2024, 1, 1), date(2024, 1, 2), date(2024, 2, 1)];
    let monthly = aggregate_monthly(&days);
    assert_eq!(monthly.len(), 2);

    let jan = &monthly[0];
    assert_eq!((jan.year, jan.month), (2024, 1));
    assert_eq!(jan.days, vec![0, 1]);

    let feb = &monthly[1];
    assert_eq!(feb.month, 2);
    assert_eq!(feb.days, vec![2]);
}

#[test]
fn aggregate_monthly_sorts_and_merges_months() {
    let days = vec![
        date(2024, 3, 1),
        date(2023, 12, 31),
        date(2024, 3, 2),
        date(2024, 1, 5),
        date(2023, 12, 30),
    ];
    let monthly = aggregate_monthly(&days);
    let keys: Vec<(i32, u32)> = monthly.iter().map(|m| (m.year, m.month)).collect();
    assert_eq!(keys, vec![(2023, 12), (2024, 1), (2024, 3)]);
    assert_eq!(monthly[0].days, vec![1, 4]);
    assert_eq!(monthly[1].days, vec![3]);
    assert_eq!(monthly[2].days, vec![0, 2]);
    assert!(aggregate_monthly(&vec![]).is_empty());
}

#[test]
fn each_day_in_exactly_one_bucket() {
    let days = vec![date(2022, 5, 1), date(2022, 6, 1), date(2022, 5, 2), date(2021, 6, 3)];
    let monthly = aggregate_monthly(&days);
    for (i, d) in days.iter().enumerate() {
        let holders: Vec<_> = monthly.iter().filter(|m| m.days.contains(&i)).collect();
        assert_eq!(holders.len(), 1);
        assert_eq!((holders[0].year, holders[0].month), (d.year, d.month));
    }
}

#[test]
fn hours_on_selects_the_day() {
    let d1 = date(2024, 6, 1);
    let d2 = date(2024, 6, 2);
    let dates = vec![d1, d1, d1, d2];
    assert_eq!(hours_on(&dates, d1), vec![0, 1, 2]);
    assert_eq!(hours_on(&dates, d2), vec![3]);
    assert_eq!(hours_on(&dates, date(2024, 6, 3)), Vec::<usize>::new());
}

#[test]
fn day_summary_solar_lookup() {
    let d1 = date(2024, 6, 1);
    let d2 = date(2024, 6, 2);
    let solar = vec![
        SolarDay { date: d1, sunrise: at(d1, 5, 0), sunset: at(d1, 21, 0) },
        SolarDay { date: d2, sunrise: at(d2, 5, 1), sunset: at(d2, 21, 1) },
    ];
    assert_eq!(sun_times(&solar, d1), (at(d1, 5, 0), at(d1, 21, 0)));
    assert_eq!(sun_times(&solar, d2), (at(d2, 5, 1), at(d2, 21, 1)));
}

#[test]
fn day_summary_fallback_solar() {
    let d = date(2024, 1, 1);
    assert_eq!(sun_times(&vec![], d), (at(d, 6, 0), at(d, 20, 0)));
}

#[test]
fn solar_day_fallbacks() {
    let d = date(2024, 7, 1);
    let s = solar_day(d, None, Some(at(d, 21, 5)));
    assert_eq!(s.sunrise, at(d, 6, 0));
    assert_eq!(s.sunset, at(d, 21, 5));
    let s = solar_day(d, Some(at(d, 5, 10)), None);
    assert_eq!(s.sunrise, at(d, 5, 10));
    assert_eq!(s.sunset, at(d, 20, 0));
}

#[test]
fn daylight_is_half_open() {
    let d = date(2024, 7, 1);
    let rise = at(d, 5, 10);
    let set = at(d, 21, 5);
    assert!(!is_daylight(at(d, 5, 0), rise, set));
    assert!(is_daylight(at(d, 5, 10), rise, set));
    assert!(is_daylight(at(d, 21, 0), rise, set));
    assert!(!is_daylight(at(d, 21, 5), rise, set));
    assert!(!is_daylight(at(date(2024, 7, 2), 12, 0), rise, set));
}

#[test]
fn unique_dates_collapse_runs() {
    let a = date(2024, 1, 1);
    let b = date(2024, 1, 2);
    assert_eq!(unique_dates(&vec![a, a, b, b, b, a]), vec![a, b, a]);
    assert_eq!(unique_dates(&vec![]), Vec::<Date>::new());
}

#[test]
fn keep_from_day_drops_leading_days() {
    let ds: Vec<Date> = (1..=5).map(|d| date(2024, 1, d)).collect();
    assert_eq!(keep_from_day(&ds, 1), ds);
    assert_eq!(keep_from_day(&ds, 3), ds[2..].to_vec());
    assert_eq!(keep_from_day(&ds, 6), Vec::<Date>::new());
    assert_eq!(keep_from_day(&ds, 9), Vec::<Date>::new());
    assert_eq!(days_kept(&vec![date(2024, 1, 4), date(2024, 2, 4)], &ds), vec![true, false]);
}

#[test]
fn days_kept_marks_records_of_kept_days() {
    let keep = vec![date(2024, 1, 3), date(-5, 12, 31)];
    let records = vec![
        date(2024, 1, 2),
        date(2024, 1, 3),
        date(2024, 1, 3),
        date(-5, 12, 31),
        date(2024, 3, 1),
        date(-5, 12, 30),
    ];
    assert_eq!(days_kept(&records, &keep), vec![false, true, true, true, false, false]);
    assert_eq!(days_kept(&records, &vec![]), vec![false; 6]);
}
