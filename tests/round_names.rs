use round_profile::{parse_round_name, round_timestamp, RoundTime, TimestampFormatError};

#[test]
fn parses_date_and_time_from_name() {
    let t = parse_round_name(b"2021-03-01 10-05-07-ingame.json").unwrap();
    assert_eq!(
        t,
        RoundTime { year: 2021, month: 3, day: 1, hour: 10, minute: 5, second: 7 }
    );
}

#[test]
fn name_without_extension_parses() {
    assert!(parse_round_name(b"2021-03-01 10-05-07-ingame").is_ok());
}

#[test]
fn only_last_extension_is_removed() {
    assert_eq!(
        parse_round_name(b"2021-03-01 10-05-07-ingame.json.bak"),
        Err(TimestampFormatError::MissingToken)
    );
}

#[test]
fn name_without_token_is_rejected() {
    assert_eq!(
        parse_round_name(b"2021-03-01 10-05-07.json"),
        Err(TimestampFormatError::MissingToken)
    );
    assert_eq!(
        round_timestamp(b"Round 10-00-00-ingame.json"),
        Err(TimestampFormatError::MissingToken)
    );
    assert_eq!(round_timestamp(b""), Err(TimestampFormatError::MissingToken));
}

#[test]
fn name_with_non_digit_is_rejected() {
    assert_eq!(
        parse_round_name(b"2021-03-01 1x-05-07-ingame.json"),
        Err(TimestampFormatError::MissingToken)
    );
}

#[test]
fn impossible_dates_are_rejected() {
    assert_eq!(
        parse_round_name(b"2021-02-29 10-00-00-ingame.json"),
        Err(TimestampFormatError::InvalidDateTime)
    );
    assert_eq!(
        parse_round_name(b"1900-02-29 10-00-00-ingame.json"),
        Err(TimestampFormatError::InvalidDateTime)
    );
    assert_eq!(
        parse_round_name(b"2021-13-01 10-00-00-ingame.json"),
        Err(TimestampFormatError::InvalidDateTime)
    );
    assert_eq!(
        round_timestamp(b"2021-03-01 24-00-00-ingame.json"),
        Err(TimestampFormatError::InvalidDateTime)
    );
    assert_eq!(
        round_timestamp(b"2021-03-01 10-00-60-ingame.json"),
        Err(TimestampFormatError::InvalidDateTime)
    );
}

#[test]
fn leap_days_are_accepted() {
    assert!(parse_round_name(b"2020-02-29 10-00-00-ingame.json").is_ok());
    assert!(parse_round_name(b"2000-02-29 10-00-00-ingame.json").is_ok());
}

#[test]
fn timestamp_is_in_fixed_zone_west_of_utc() {
    assert_eq!(round_timestamp(b"2021-03-01 10-00-00-ingame.json"), Ok(1614610800));
    assert_eq!(round_timestamp(b"2021-03-01 10-05-00-ingame.json"), Ok(1614611100));
    assert_eq!(round_timestamp(b"1970-01-01 00-00-00-ingame.json"), Ok(18000));
}

#[test]
fn timestamp_extraction_is_deterministic() {
    let a = round_timestamp(b"2022-07-15 23-59-59-ingame.json");
    let b = round_timestamp(b"2022-07-15 23-59-59-ingame.json");
    assert_eq!(a, b);
    assert!(a.is_ok());
}
