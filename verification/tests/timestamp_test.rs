use springql_core::timestamp::parse_rfc3339;

#[test]
fn test_epoch_is_zero() {
    assert_eq!(parse_rfc3339("1970-01-01T00:00:00Z"), Some(0));
    assert_eq!(parse_rfc3339("1970-01-01t00:00:00z"), Some(0));
    assert_eq!(parse_rfc3339("1970-01-01 00:00:00Z"), Some(0));
}

#[test]
fn test_fraction_of_a_second() {
    assert_eq!(parse_rfc3339("1970-01-01T00:00:01.5Z"), Some(1_500_000_000));
    assert_eq!(parse_rfc3339("1970-01-01T00:00:00.000000001Z"), Some(1));
    assert_eq!(parse_rfc3339("1970-01-01T00:00:00.001Z"), Some(1_000_000));
    assert_eq!(parse_rfc3339("1970-01-01T00:00:00.1234567899999Z"), Some(123_456_789));
    assert_eq!(parse_rfc3339("1970-01-01T00:00:00.Z"), None);
}

#[test]
fn test_offsets_shift_the_instant() {
    assert_eq!(parse_rfc3339("1970-01-01T09:00:00+09:00"), Some(0));
    assert_eq!(parse_rfc3339("1969-12-31T19:00:00-05:00"), Some(0));
    assert_eq!(parse_rfc3339("1970-01-01T00:00:00+00:30"), Some(-1_800_000_000_000));
    assert_eq!(parse_rfc3339("1970-01-01T00:00:00+24:00"), None);
    assert_eq!(parse_rfc3339("1970-01-01T00:00:00+0900"), None);
}

#[test]
fn test_known_dates() {
    assert_eq!(parse_rfc3339("2000-03-01T00:00:00Z"), Some(951_868_800_000_000_000));
    assert_eq!(parse_rfc3339("2020-02-29T12:34:56Z"), Some(1_582_979_696_000_000_000));
    assert_eq!(parse_rfc3339("1969-12-31T23:59:59Z"), Some(-1_000_000_000));
    assert_eq!(parse_rfc3339("2262-04-11T23:47:16Z"), Some(9_223_372_036_000_000_000));
}

#[test]
fn test_days_that_do_not_exist_are_refused() {
    assert_eq!(parse_rfc3339("2021-02-29T00:00:00Z"), None);
    assert_eq!(parse_rfc3339("1900-02-29T00:00:00Z"), None);
    assert_eq!(parse_rfc3339("2021-04-31T00:00:00Z"), None);
    assert_eq!(parse_rfc3339("2021-13-01T00:00:00Z"), None);
    assert_eq!(parse_rfc3339("2021-00-10T00:00:00Z"), None);
    assert_eq!(parse_rfc3339("2021-01-00T00:00:00Z"), None);
}

#[test]
fn test_times_out_of_range_are_refused() {
    assert_eq!(parse_rfc3339("2021-01-01T24:00:00Z"), None);
    assert_eq!(parse_rfc3339("2021-01-01T00:60:00Z"), None);
    assert_eq!(parse_rfc3339("2021-01-01T00:00:60Z"), None);
}

#[test]
fn test_instants_beyond_64_bits_are_refused() {
    assert_eq!(parse_rfc3339("2262-04-12T00:00:00Z"), None);
    assert_eq!(parse_rfc3339("9999-12-31T23:59:59Z"), None);
    assert_eq!(parse_rfc3339("0000-01-01T00:00:00Z"), None);
    assert_eq!(parse_rfc3339("1677-09-21T00:12:44Z"), Some(-9_223_372_036_000_000_000));
    assert_eq!(parse_rfc3339("1677-09-21T00:12:43Z"), None);
}

#[test]
fn test_malformed_texts_are_refused() {
    assert_eq!(parse_rfc3339(""), None);
    assert_eq!(parse_rfc3339("1970-01-01"), None);
    assert_eq!(parse_rfc3339("1970-01-01T00:00:00"), None);
    assert_eq!(parse_rfc3339("1970/01/01T00:00:00Z"), None);
    assert_eq!(parse_rfc3339("197a-01-01T00:00:00Z"), None);
    assert_eq!(parse_rfc3339("1970-01-01T00:00:00Zjunk"), None);
    assert_eq!(parse_rfc3339("1970-01-01T00:00:00.5"), None);
}
