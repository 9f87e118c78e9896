use pogoda::calendar::day_name;
use pogoda::cli::{delorean_dates, historical_mode, ArgError, HistMode};
use pogoda::types::{Date, Units, VERSION};

fn date(year: i32, month: u32, day: u32) -> Date {
    Date { year, month, day }
}

#[test]
fn version_is_current() {
    assert_eq!(VERSION, "0.2");
}

#[test]
fn day_name_known_dates() {
    assert_eq!(day_name(date(2026, 3, 20)), "Friday");
    assert_eq!(day_name(date(2026, 3, 21)), "Saturday");
    assert_eq!(day_name(date(2026, 3, 22)), "Sunday");
    assert_eq!(day_name(date(2026, 3, 23)), "Monday");
}

#[test]
fn day_name_other_dates() {
    assert_eq!(day_name(date(1970, 1, 1)), "Thursday");
    assert_eq!(day_name(date(2000, 2, 29)), "Tuesday");
    assert_eq!(day_name(date(2024, 6, 5)), "Wednesday");
}

#[test]
fn unit_switches_and_labels() {
    assert!(Units::Imperial.use_fahrenheit() && Units::Imperial.use_mph());
    assert!(Units::Imperial.use_inches() && Units::Imperial.use_inhg());
    assert!(!Units::British.use_fahrenheit() && Units::British.use_mph());
    assert!(!Units::British.use_inches() && !Units::British.use_inhg());
    assert!(!Units::Metric.use_fahrenheit() && !Units::Metric.use_mph());
    assert_eq!(Units::Imperial.temp_label(), "F");
    assert_eq!(Units::British.temp_label(), "C");
    assert_eq!(Units::British.wind_label(), "mph");
    assert_eq!(Units::Metric.wind_label(), "km/h");
    assert_eq!(Units::Imperial.rain_label(), "in");
    assert_eq!(Units::Metric.rain_label(), "mm");
    assert_eq!(Units::Imperial.pressure_label(), "inHg");
    assert_eq!(Units::British.pressure_label(), "hPa");
}

fn args(words: &[&str]) -> Vec<String> {
    words.iter().map(|w| w.to_string()).collect()
}

#[test]
fn delorean_reads_two_dates() {
    let a = args(&["pogoda", "Berlin", "--delorean", "01.02.2020", "15.02.2020"]);
    assert_eq!(delorean_dates(&a), Ok(Some((date(2020, 2, 1), date(2020, 2, 15)))));
    let none = args(&["pogoda", "Berlin"]);
    assert_eq!(delorean_dates(&none), Ok(None));
}

#[test]
fn delorean_rejects_bad_or_missing_dates() {
    let missing = args(&["pogoda", "Berlin", "--delorean", "01.02.2020"]);
    assert_eq!(delorean_dates(&missing), Err(ArgError::InvalidDates));
    let bad = args(&["pogoda", "Berlin", "--delorean", "31.02.2020", "01.03.2020"]);
    assert_eq!(delorean_dates(&bad), Err(ArgError::InvalidDates));
    let word = args(&["pogoda", "--delorean", "Berlin", "01.03.2020"]);
    assert_eq!(delorean_dates(&word), Err(ArgError::InvalidDates));
}

#[test]
fn historical_mode_by_span() {
    assert_eq!(historical_mode(date(2024, 1, 1), date(2024, 1, 1)), Ok(HistMode::Hourly));
    assert_eq!(historical_mode(date(2024, 1, 1), date(2024, 1, 31)), Ok(HistMode::Hourly));
    assert_eq!(historical_mode(date(2024, 1, 1), date(2024, 2, 1)), Ok(HistMode::Daily));
    // 2024 is a leap year: 366 days from Jan 1 to Dec 31
    assert_eq!(historical_mode(date(2023, 1, 1), date(2023, 12, 31)), Ok(HistMode::Daily));
    assert_eq!(historical_mode(date(2024, 1, 1), date(2024, 12, 31)), Ok(HistMode::Monthly));
    assert_eq!(historical_mode(date(2024, 1, 2), date(2024, 1, 1)), Err(ArgError::EndBeforeStart));
}

#[test]
fn historical_range_refused_only_when_reversed() {
    // across a leap day, a month end and a year end, in both directions
    let pairs = [
        (date(2024, 2, 29), date(2024, 3, 1)),
        (date(2023, 12, 31), date(2024, 1, 1)),
        (date(2000, 2, 28), date(2000, 2, 29)),
        (date(1999, 12, 31), date(2000, 3, 1)),
    ];
    for (a, b) in pairs {
        assert!(historical_mode(a, b).is_ok());
        assert_eq!(historical_mode(b, a), Err(ArgError::EndBeforeStart));
    }
}
