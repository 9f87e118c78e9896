use pogoda::cli::{days_caption, DaysCaption};
use pogoda::cli::{
    chart_height, flag_value, has_flag, lang_from_arg, parse_request, select_theme, select_units, strip_flags,
    units_from_arg, ArgError, Place,
};
use pogoda::geo::DaysError;
use pogoda::types::{Theme, Units};

fn args(words: &[&str]) -> Vec<String> {
    words.iter().map(|w| w.to_string()).collect()
}

fn text(v: &[char]) -> String {
    v.iter().collect()
}

#[test]
fn flags_and_values() {
    let a = args(&["pogoda", "Paris", "--units", "british", "--lang", "fr-fr", "--no-table"]);
    assert!(has_flag(&a, "--no-table"));
    assert!(!has_flag(&a, "--no-charts"));
    assert_eq!(flag_value(&a, "--units").map(|s| s.as_str()), Some("british"));
    assert_eq!(flag_value(&a, "--lang").map(|s| s.as_str()), Some("fr-fr"));
    assert_eq!(flag_value(&a, "--delorean"), None);
    let end = args(&["pogoda", "--units"]);
    assert_eq!(flag_value(&end, "--units"), None);
}

#[test]
fn units_and_lang_values() {
    assert_eq!(units_from_arg("imperial"), Some(Units::Imperial));
    assert_eq!(units_from_arg("british"), Some(Units::British));
    assert_eq!(units_from_arg("metric"), Some(Units::Metric));
    assert_eq!(units_from_arg("Metric"), None);
    assert_eq!(lang_from_arg("es-419"), Some("es-419"));
    assert_eq!(lang_from_arg("uk"), Some("uk"));
    assert_eq!(lang_from_arg("ja"), None);
}

#[test]
fn theme_and_height() {
    assert_eq!(select_theme(false, false, false, false), Theme::Warm);
    assert_eq!(select_theme(true, true, false, false), Theme::Blue);
    assert_eq!(select_theme(false, true, true, true), Theme::Rainbow);
    assert_eq!(select_theme(false, false, true, true), Theme::Classic);
    assert_eq!(select_theme(false, false, false, true), Theme::Rainforest);
    assert_eq!(chart_height(true), 24);
    assert_eq!(chart_height(false), 4);
}

#[test]
fn strip_flags_keeps_positionals() {
    let a = args(&[
        "pogoda", "New", "--units", "imperial", "York", "--i-am-blue", "--delorean", "01.01.2020",
        "02.01.2020", "5", "--lang", "de",
    ]);
    assert_eq!(strip_flags(&a), args(&["pogoda", "New", "York", "5"]));
    let flags_only = args(&["pogoda", "--no-table", "--tabular-bells"]);
    assert_eq!(strip_flags(&flags_only), args(&["pogoda"]));
}

#[test]
fn request_with_comma_coordinates() {
    let a = args(&["pogoda", "51.10,17.00", "14"]);
    let r = parse_request(&a, false).unwrap();
    assert_eq!(r.days, Ok((1, 14)));
    assert_eq!(text(&r.days_arg), "14");
    match r.place {
        Place::Coordinates { lat, lng } => {
            assert_eq!(text(&lat), "51.10");
            assert_eq!(text(&lng), "17.00");
        }
        _ => panic!("expected coordinates"),
    }
}

#[test]
fn request_with_separate_coordinates() {
    let a = args(&["pogoda", "52.52", "13.41"]);
    let r = parse_request(&a, true).unwrap();
    assert_eq!(r.days, Ok((1, 7)));
    assert!(r.days_arg.is_empty());
    match r.place {
        Place::Coordinates { lat, lng } => {
            assert_eq!(text(&lat), "52.52");
            assert_eq!(text(&lng), "13.41");
        }
        _ => panic!("expected coordinates"),
    }
    let short = args(&["pogoda", "52.52"]);
    assert_eq!(parse_request(&short, true).unwrap_err(), ArgError::Usage);
}

#[test]
fn request_with_city_and_days() {
    let a = args(&["pogoda", "New", "York", "3-5"]);
    let r = parse_request(&a, false).unwrap();
    assert_eq!(r.days, Ok((3, 5)));
    assert_eq!(text(&r.days_arg), "3-5");
    match r.place {
        Place::City { name } => assert_eq!(text(&name), "New York"),
        _ => panic!("expected a city"),
    }
    let plain = args(&["pogoda", "Wrocław"]);
    let r = parse_request(&plain, false).unwrap();
    assert_eq!(r.days, Ok((1, 7)));
    match r.place {
        Place::City { name } => assert_eq!(text(&name), "Wrocław"),
        _ => panic!("expected a city"),
    }
}

#[test]
fn request_errors() {
    assert_eq!(parse_request(&args(&["pogoda"]), false).unwrap_err(), ArgError::Usage);
    let r = parse_request(&args(&["pogoda", "Paris", "20"]), false).unwrap();
    assert_eq!(r.days, Err(DaysError::DaysOutOfBounds));
    assert_eq!(text(&r.days_arg), "20");
    let r = parse_request(&args(&["pogoda", "1,2", "x"]), false).unwrap();
    assert_eq!(r.days, Err(DaysError::InvalidNumber));
}

#[test]
fn request_keeps_coordinates_beside_a_bad_day_argument() {
    // the coordinate texts come back with the day error, so a bad coordinate can be
    // reported first
    let r = parse_request(&args(&["pogoda", "abc,1", "99"]), false).unwrap();
    assert_eq!(r.days, Err(DaysError::DaysOutOfBounds));
    match r.place {
        Place::Coordinates { lat, lng } => {
            assert_eq!(text(&lat), "abc");
            assert_eq!(text(&lng), "1");
        }
        _ => panic!("expected coordinates"),
    }
    let r = parse_request(&args(&["pogoda", "52.5", "abc", "99"]), true).unwrap();
    assert_eq!(r.days, Err(DaysError::DaysOutOfBounds));
    assert_eq!(text(&r.days_arg), "99");
    match r.place {
        Place::Coordinates { lat, lng } => {
            assert_eq!(text(&lat), "52.5");
            assert_eq!(text(&lng), "abc");
        }
        _ => panic!("expected coordinates"),
    }
}

#[test]
fn units_flags() {
    assert_eq!(select_units(None, true, false, Some(Units::Metric)), Units::Imperial);
    assert_eq!(select_units(None, false, true, None), Units::British);
    assert_eq!(select_units(None, true, true, None), Units::Imperial);
    assert_eq!(select_units(Some(Units::Metric), true, true, None), Units::Metric);
    assert_eq!(select_units(None, false, false, Some(Units::British)), Units::British);
    assert_eq!(select_units(None, false, false, None), Units::Metric);
    let a = args(&["pogoda", "London", "7", "--yes-sir"]);
    assert_eq!(strip_flags(&a), args(&["pogoda", "London", "7"]));
    let a = args(&["pogoda", "--strange-units", "New", "York", "5"]);
    assert_eq!(strip_flags(&a), args(&["pogoda", "New", "York", "5"]));
}

#[test]
fn days_caption_cases() {
    assert_eq!(days_caption(1, 7), DaysCaption::Days { n: 7 });
    assert_eq!(days_caption(1, 1), DaysCaption::OneDay);
    assert_eq!(days_caption(3, 5), DaysCaption::Range { from: 3, to: 5 });
    assert_eq!(days_caption(2, 2), DaysCaption::Range { from: 2, to: 2 });
}
