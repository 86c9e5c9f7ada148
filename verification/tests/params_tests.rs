//! Parameter parsing and validation behavior.

use cosq::num::Number;
use cosq::params::{ParamDef, ParamType, StoredQueryError, parse_param_value_public};
use cosq::values::{JsonValue, val_eq};

fn param(name: &str, t: ParamType) -> ParamDef {
    ParamDef {
        name: name.to_string(),
        param_type: t,
        description: None,
        default: None,
        choices: None,
        required: None,
        min: None,
        max: None,
        pattern: None,
    }
}

#[test]
fn test_parse_bool_param() {
    let value = parse_param_value_public("active", &ParamType::Bool, "true").unwrap();
    assert!(val_eq(&value, &JsonValue::Bool(true)));

    let value = parse_param_value_public("active", &ParamType::Bool, "false").unwrap();
    assert!(val_eq(&value, &JsonValue::Bool(false)));

    let value = parse_param_value_public("active", &ParamType::Bool, "yes").unwrap();
    assert!(val_eq(&value, &JsonValue::Bool(true)));
}

#[test]
fn test_parse_number_int_and_decimal() {
    let v = parse_param_value_public("n", &ParamType::Number, "42").unwrap();
    assert!(val_eq(&v, &JsonValue::Num(Number::Int(42))));

    let v = parse_param_value_public("n", &ParamType::Number, "-7").unwrap();
    assert!(val_eq(&v, &JsonValue::Num(Number::Int(-7))));

    let v = parse_param_value_public("n", &ParamType::Number, "1.5").unwrap();
    assert!(val_eq(&v, &JsonValue::Num(Number::dec(15, 1))));

    let v = parse_param_value_public("n", &ParamType::Number, "2.50").unwrap();
    assert!(val_eq(&v, &JsonValue::Num(Number::dec(25, 1))));

    let v = parse_param_value_public("n", &ParamType::Number, "2e3").unwrap();
    assert!(val_eq(&v, &JsonValue::Num(Number::dec(2000, 0))));

    assert!(parse_param_value_public("n", &ParamType::Number, "abc").is_err());
    assert!(parse_param_value_public("n", &ParamType::Number, "").is_err());
}

#[test]
fn test_validate_type_mismatch_names_number() {
    let p = param("limit", ParamType::Number);
    let err = p.validate(&JsonValue::Str("abc".to_string())).unwrap_err();
    match &err {
        StoredQueryError::InvalidParamType { name, expected, value } => {
            assert_eq!(name, "limit");
            assert_eq!(expected, "number");
            assert_eq!(value, "\"abc\"");
        }
        other => panic!("unexpected error: {:?}", other),
    }
    let msg = err.message();
    assert!(msg.contains("expected number"));
}

#[test]
fn test_validate_above_max_carries_bounds() {
    let mut p = param("limit", ParamType::Number);
    p.min = Some(Number::Int(1));
    p.max = Some(Number::Int(1000));
    let err = p.validate(&JsonValue::Num(Number::Int(5000))).unwrap_err();
    match &err {
        StoredQueryError::AboveMax { name, value, max } => {
            assert_eq!(name, "limit");
            assert_eq!(*value, Number::Int(5000));
            assert_eq!(*max, Number::Int(1000));
        }
        other => panic!("unexpected error: {:?}", other),
    }
    assert!(err.message().contains("exceeds maximum"));
}

#[test]
fn test_validate_below_min() {
    let mut p = param("limit", ParamType::Number);
    p.min = Some(Number::Int(1));
    p.max = Some(Number::Int(1000));
    let err = p.validate(&JsonValue::Num(Number::Int(0))).unwrap_err();
    assert!(matches!(err, StoredQueryError::BelowMin { .. }));
    assert!(err.message().contains("below minimum"));
}

#[test]
fn test_validate_fractional_bounds() {
    let mut p = param("rate", ParamType::Number);
    p.min = Some(Number::dec(5, 1)); // 0.5
    assert!(p.validate(&JsonValue::Num(Number::dec(75, 2))).is_ok()); // 0.75
    assert!(p.validate(&JsonValue::Num(Number::dec(25, 2))).is_err()); // 0.25
}

#[test]
fn test_validate_choices_membership_is_exact() {
    let mut p = param("status", ParamType::String);
    p.choices = Some(vec![
        JsonValue::Str("pending".to_string()),
        JsonValue::Str("shipped".to_string()),
    ]);
    assert!(p.validate(&JsonValue::Str("pending".to_string())).is_ok());
    let err = p.validate(&JsonValue::Str("done".to_string())).unwrap_err();
    match &err {
        StoredQueryError::InvalidChoice { value, choices, .. } => {
            assert_eq!(value, "done");
            assert_eq!(choices, "pending, shipped");
        }
        other => panic!("unexpected error: {:?}", other),
    }
}

#[test]
fn test_validate_pattern() {
    let mut p = param("email", ParamType::String);
    p.pattern = Some("^[^@]+@[^@]+$".to_string());
    assert!(p.validate(&JsonValue::Str("user@example.com".to_string())).is_ok());
    let err = p.validate(&JsonValue::Str("not-an-email".to_string())).unwrap_err();
    assert!(matches!(err, StoredQueryError::PatternMismatch { .. }));
    assert!(err.message().contains("does not match pattern"));
}

#[test]
fn test_is_required_inference() {
    let p = param("id", ParamType::String);
    assert!(p.is_required());

    let mut with_default = param("days", ParamType::Number);
    with_default.default = Some(JsonValue::Num(Number::Int(30)));
    assert!(!with_default.is_required());

    let mut explicit = param("flag", ParamType::Bool);
    explicit.required = Some(false);
    assert!(!explicit.is_required());

    let mut forced = param("flag", ParamType::Bool);
    forced.default = Some(JsonValue::Bool(true));
    forced.required = Some(true);
    assert!(forced.is_required());
}

#[test]
fn test_parse_bool_rejects_other_literals() {
    assert!(parse_param_value_public("active", &ParamType::Bool, "maybe").is_err());
    assert!(parse_param_value_public("active", &ParamType::Bool, "").is_err());
    let v = parse_param_value_public("active", &ParamType::Bool, "TRUE").unwrap();
    assert!(val_eq(&v, &JsonValue::Bool(true)));
    let v = parse_param_value_public("active", &ParamType::Bool, "No").unwrap();
    assert!(val_eq(&v, &JsonValue::Bool(false)));
}

#[test]
fn test_validate_checks_run_in_fixed_order() {
    // The value violates both the minimum and the choices list; only the
    // range check, which runs first, is reported.
    let mut p = param("n", ParamType::Number);
    p.min = Some(Number::Int(10));
    p.choices = Some(vec![JsonValue::Num(Number::Int(10))]);
    let err = p.validate(&JsonValue::Num(Number::Int(1))).unwrap_err();
    assert!(matches!(err, StoredQueryError::BelowMin { .. }));
}

#[test]
fn test_integer_and_fraction_forms_stay_distinct() {
    // A choices list holding the integer 30 does not admit the fractional
    // literal 30.0: the two keep distinct representations, though they are
    // numerically equal for range checks.
    let mut p = param("n", ParamType::Number);
    p.choices = Some(vec![JsonValue::Num(Number::Int(30))]);
    let frac = parse_param_value_public("n", &ParamType::Number, "30.0").unwrap();
    assert!(p.validate(&frac).is_err());
    let int = parse_param_value_public("n", &ParamType::Number, "30").unwrap();
    assert!(p.validate(&int).is_ok());
}

#[test]
fn test_signed_number_literals() {
    let v = parse_param_value_public("n", &ParamType::Number, "+5").unwrap();
    assert!(val_eq(&v, &JsonValue::Num(Number::Int(5))));
    let v = parse_param_value_public("n", &ParamType::Number, "-0.5").unwrap();
    assert!(val_eq(&v, &JsonValue::Num(Number::dec(-5, 1))));
}
