use pogoda::geo::{looks_like_days, parse_days, parse_days_str, settlement_name, DaysError};

#[test]
fn looks_like_days_plain_number() {
    assert!(looks_like_days("7"));
}

#[test]
fn looks_like_days_range() {
    assert!(looks_like_days("3-7"));
}

#[test]
fn looks_like_days_city_name() {
    assert!(!looks_like_days("Berlin"));
}

#[test]
fn looks_like_days_float() {
    assert!(!looks_like_days("3.14"));
}

#[test]
fn parse_days_none_returns_default() {
    assert_eq!(parse_days(None), Ok((1, 7)));
}

#[test]
fn parse_days_str_plain() {
    assert_eq!(parse_days_str("7"), Ok((1, 7)));
}

#[test]
fn parse_days_str_plain_one() {
    assert_eq!(parse_days_str("1"), Ok((1, 1)));
}

#[test]
fn parse_days_str_range() {
    assert_eq!(parse_days_str("3-7"), Ok((3, 7)));
}

#[test]
fn parse_days_str_range_full() {
    assert_eq!(parse_days_str("1-16"), Ok((1, 16)));
}

#[test]
fn parse_days_some_argument() {
    let arg = String::from("5-9");
    assert_eq!(parse_days(Some(&arg)), Ok((5, 9)));
}

#[test]
fn parse_days_str_errors() {
    assert_eq!(parse_days_str("x-7"), Err(DaysError::InvalidRange));
    assert_eq!(parse_days_str("3-"), Err(DaysError::InvalidRange));
    assert_eq!(parse_days_str("8-3"), Err(DaysError::RangeOutOfBounds));
    assert_eq!(parse_days_str("0-3"), Err(DaysError::RangeOutOfBounds));
    assert_eq!(parse_days_str("3-17"), Err(DaysError::RangeOutOfBounds));
    assert_eq!(parse_days_str("seven"), Err(DaysError::InvalidNumber));
    assert_eq!(parse_days_str(""), Err(DaysError::InvalidNumber));
    assert_eq!(parse_days_str("0"), Err(DaysError::DaysOutOfBounds));
    assert_eq!(parse_days_str("17"), Err(DaysError::DaysOutOfBounds));
}

#[test]
fn parse_days_str_number_forms() {
    // a leading plus and leading zeros are accepted, as by `str::parse::<u32>`
    assert_eq!(parse_days_str("+5"), Ok((1, 5)));
    assert_eq!(parse_days_str("007"), Ok((1, 7)));
    assert_eq!(parse_days_str("+2-+4"), Ok((2, 4)));
    assert_eq!(parse_days_str("+"), Err(DaysError::InvalidNumber));
    assert_eq!(parse_days_str("4294967296"), Err(DaysError::InvalidNumber));
    assert_eq!(parse_days_str("99999999999-3"), Err(DaysError::InvalidRange));
}

#[test]
fn looks_like_days_edge_cases() {
    assert!(looks_like_days("99"));
    assert!(looks_like_days("+3"));
    assert!(!looks_like_days("-3"));
    assert!(!looks_like_days("3-7-9"));
    assert!(!looks_like_days(""));
    assert!(!looks_like_days("4294967296"));
    assert!(looks_like_days("4294967295"));
}

#[test]
fn accepted_day_arguments_look_like_days() {
    for s in ["1", "16", "3-7", "+4", "1-16"] {
        assert!(parse_days_str(s).is_ok());
        assert!(looks_like_days(s));
    }
    for s in ["Berlin", "3.5", "New", "-", "a-b"] {
        assert!(!looks_like_days(s));
        assert!(parse_days_str(s).is_err());
    }
}

#[test]
fn settlement_name_prefers_city_then_town_then_village() {
    let s = |x: &str| Some(String::from(x));
    assert_eq!(settlement_name(s("Wrocław"), s("T"), s("V")), s("Wrocław"));
    assert_eq!(settlement_name(None, s("T"), s("V")), s("T"));
    assert_eq!(settlement_name(None, None, s("V")), s("V"));
    assert_eq!(settlement_name(None, None, None), None);
}
