use filestore::coerce::{convert_filter_type, BoundParam, CoerceOutcome};

fn param(s: &str) -> CoerceOutcome {
    convert_filter_type(s)
}

#[test]
fn uuid_literal_becomes_uuid_parameter() {
    let got = param("550e8400-e29b-41d4-a716-446655440000");
    assert_eq!(
        got,
        CoerceOutcome::Param(BoundParam::Uuid(
            "550e8400-e29b-41d4-a716-446655440000".to_string()
        ))
    );
}

#[test]
fn simple_form_uuid_is_not_a_string() {
    let got = param("550e8400e29b41d4a716446655440000");
    assert!(matches!(got, CoerceOutcome::Param(BoundParam::Uuid(_))));
}

#[test]
fn integer_literal_becomes_int() {
    assert_eq!(param("42"), CoerceOutcome::Param(BoundParam::Int(42)));
    assert_eq!(param("-7"), CoerceOutcome::Param(BoundParam::Int(-7)));
    assert_eq!(param("+7"), CoerceOutcome::Param(BoundParam::Int(7)));
}

#[test]
fn integer_bounds_parse_exactly() {
    assert_eq!(
        param("9223372036854775807"),
        CoerceOutcome::Param(BoundParam::Int(i64::MAX))
    );
    assert_eq!(
        param("-9223372036854775808"),
        CoerceOutcome::Param(BoundParam::Int(i64::MIN))
    );
}

#[test]
fn integer_overflow_falls_to_float() {
    assert_eq!(
        param("9223372036854775808"),
        CoerceOutcome::Param(BoundParam::Real("9223372036854775808".to_string()))
    );
}

#[test]
fn float_literal_becomes_real() {
    assert_eq!(
        param("3.14"),
        CoerceOutcome::Param(BoundParam::Real("3.14".to_string()))
    );
    assert_eq!(
        param("1e3"),
        CoerceOutcome::Param(BoundParam::Real("1e3".to_string()))
    );
    assert_eq!(
        param("inf"),
        CoerceOutcome::Param(BoundParam::Real("inf".to_string()))
    );
}

#[test]
fn boolean_literals_become_bool() {
    assert_eq!(param("true"), CoerceOutcome::Param(BoundParam::Bool(true)));
    assert_eq!(param("false"), CoerceOutcome::Param(BoundParam::Bool(false)));
}

#[test]
fn json_null_omits_the_parameter() {
    assert_eq!(param("null"), CoerceOutcome::Omit);
}

#[test]
fn quoted_string_is_unwrapped_and_recoerced() {
    assert_eq!(
        param("\"hello\""),
        CoerceOutcome::Param(BoundParam::Str("hello".to_string()))
    );
    // The unwrapped content runs the whole chain again.
    assert_eq!(param("\"42\""), CoerceOutcome::Param(BoundParam::Int(42)));
}

#[test]
fn timestamp_literal_becomes_timestamp() {
    assert_eq!(
        param("2024-01-01T00:00:00Z"),
        CoerceOutcome::Param(BoundParam::Timestamp("2024-01-01T00:00:00Z".to_string()))
    );
}

#[test]
fn date_only_text_is_a_raw_string() {
    assert_eq!(
        param("2024-01-01"),
        CoerceOutcome::Param(BoundParam::Str("2024-01-01".to_string()))
    );
}

#[test]
fn unparseable_text_falls_back_to_string() {
    assert_eq!(
        param("hello world"),
        CoerceOutcome::Param(BoundParam::Str("hello world".to_string()))
    );
}

#[test]
fn uuid_array_is_coerced_elementwise() {
    let got = param(
        "[\"550e8400-e29b-41d4-a716-446655440000\",\"650e8400-e29b-41d4-a716-446655440000\"]",
    );
    assert_eq!(
        got,
        CoerceOutcome::Param(BoundParam::UuidArr(vec![
            "550e8400-e29b-41d4-a716-446655440000".to_string(),
            "650e8400-e29b-41d4-a716-446655440000".to_string(),
        ]))
    );
}

#[test]
fn mixed_uuid_array_is_rejected() {
    let got = param("[\"550e8400-e29b-41d4-a716-446655440000\",\"nope\"]");
    assert_eq!(got, CoerceOutcome::Reject);
}

#[test]
fn uuid_array_with_non_string_element_is_rejected() {
    let got = param("[\"550e8400-e29b-41d4-a716-446655440000\",5]");
    assert_eq!(got, CoerceOutcome::Reject);
}

#[test]
fn quoted_integer_array_becomes_int_array() {
    assert_eq!(
        param("[\"1\",\"2\"]"),
        CoerceOutcome::Param(BoundParam::IntArr(vec![1, 2]))
    );
}

#[test]
fn string_array_strips_quotes() {
    assert_eq!(
        param("[\"a\",\"b\"]"),
        CoerceOutcome::Param(BoundParam::StrArr(vec!["a".to_string(), "b".to_string()]))
    );
}

#[test]
fn bare_number_array_stays_raw() {
    assert_eq!(
        param("[1,2]"),
        CoerceOutcome::Param(BoundParam::RawArr("[1,2]".to_string()))
    );
}

#[test]
fn empty_array_stays_raw() {
    assert_eq!(
        param("[]"),
        CoerceOutcome::Param(BoundParam::RawArr("[]".to_string()))
    );
}

#[test]
fn json_object_passes_through_as_scalar() {
    assert_eq!(
        param("{\"a\":1}"),
        CoerceOutcome::Param(BoundParam::JsonScalar("{\"a\":1}".to_string()))
    );
}
