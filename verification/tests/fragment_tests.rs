use mass_fragment_index::fragment::{Fragment, FragmentName, FragmentSeries,
    FragmentSeriesParsingError};

#[test]
fn parse_simple_name() {
    assert_eq!(FragmentName::parse("b2"), Ok(FragmentName(FragmentSeries::b, 2)));
    assert_eq!(FragmentName::parse("y12"), Ok(FragmentName(FragmentSeries::y, 12)));
    assert_eq!(FragmentName::parse("x65535"), Ok(FragmentName(FragmentSeries::x, 65535)));
}

#[test]
fn parse_empty_name_fails() {
    assert_eq!(FragmentName::parse(""), Err(FragmentSeriesParsingError::Empty));
}

#[test]
fn parse_unknown_series_fails() {
    assert_eq!(
        FragmentName::parse("q5"),
        Err(FragmentSeriesParsingError::UnknownSeries("q".to_string()))
    );
}

#[test]
fn parse_missing_ordinal_fails() {
    assert_eq!(
        FragmentName::parse("b"),
        Err(FragmentSeriesParsingError::InvalidOrdinal("".to_string()))
    );
}

#[test]
fn parse_bad_ordinal_fails() {
    assert_eq!(
        FragmentName::parse("b2x"),
        Err(FragmentSeriesParsingError::InvalidOrdinal("2x".to_string()))
    );
    // 70000 does not fit the 16-bit ordinal
    assert_eq!(
        FragmentName::parse("b70000"),
        Err(FragmentSeriesParsingError::InvalidOrdinal("70000".to_string()))
    );
}

#[test]
fn error_messages_name_the_offending_text() {
    assert_eq!(
        FragmentSeriesParsingError::Empty.message(),
        "Fragment name cannot be an empty string"
    );
    assert_eq!(
        FragmentSeriesParsingError::UnknownSeries("q".to_string()).message(),
        "Unknown series label \"q\""
    );
    assert_eq!(
        FragmentSeriesParsingError::InvalidOrdinal("2x".to_string()).message(),
        "Invalid ordinal value \"2x\", should be an integer"
    );
}

#[test]
fn fragment_new_sets_fields() {
    let f = Fragment::new(1_500_000, 3, FragmentSeries::z, 7);
    assert_eq!(f.mass, 1_500_000);
    assert_eq!(f.parent_id, 3);
    assert_eq!(f.series, FragmentSeries::z);
    assert_eq!(f.ordinal, 7);
    assert_eq!(FragmentSeries::default(), FragmentSeries::Unknown);
    assert_eq!(Fragment::default().series, FragmentSeries::Unknown);
}

#[test]
fn parse_through_from_str() {
    let name: FragmentName = "c3".parse().unwrap();
    assert_eq!(name, FragmentName(FragmentSeries::c, 3));
}
