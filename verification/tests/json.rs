use fast_mvt::json::{value_from_json_kind, value_to_json_form, JsonForm, JsonKind};
use fast_mvt::{MvtJsonValueError, MvtValue};
use serde_json::Value;

/// A property value as a `serde_json` value, built from its JSON form.
fn to_json(value: MvtValue) -> Result<Value, MvtJsonValueError> {
    let number = |v: f64| {
        serde_json::Number::from_f64(v)
            .map(Value::Number)
            .ok_or(MvtJsonValueError::NonFiniteFloat)
    };
    match value_to_json_form(value)? {
        JsonForm::Null => Ok(Value::Null),
        JsonForm::Bool(v) => Ok(Value::Bool(v)),
        JsonForm::I64(v) => Ok(v.into()),
        JsonForm::U64(v) => Ok(v.into()),
        JsonForm::F32Bits(b) => number(f64::from(f32::from_bits(b))),
        JsonForm::F64Bits(b) => number(f64::from_bits(b)),
        JsonForm::String(v) => Ok(Value::String(v)),
    }
}

/// A `serde_json` value as a property value.
fn from_json(value: Value) -> Result<MvtValue, MvtJsonValueError> {
    let kind = match value {
        Value::Null => JsonKind::Null,
        Value::Bool(v) => JsonKind::Bool(v),
        Value::Number(n) => JsonKind::Number {
            as_i64: n.as_i64(),
            as_u64: n.as_u64(),
            f64_bits: n.as_f64().map(f64::to_bits),
        },
        Value::String(v) => JsonKind::String(v),
        Value::Array(_) => JsonKind::Array,
        Value::Object(_) => JsonKind::Object,
    };
    value_from_json_kind(kind)
}

fn number(v: f64) -> Value {
    Value::Number(serde_json::Number::from_f64(v).unwrap())
}

#[test]
fn mvt_values_convert_to_json_values() {
    assert_eq!(to_json(MvtValue::String("name".into())), Ok(Value::String("name".into())));
    assert_eq!(to_json(MvtValue::Int(-3)), Ok(Value::from(-3i64)));
    assert_eq!(to_json(MvtValue::UInt(4)), Ok(Value::from(4u64)));
    assert_eq!(to_json(MvtValue::Double(1.5f64.to_bits())), Ok(number(1.5)));
    assert_eq!(to_json(MvtValue::Bool(true)), Ok(Value::Bool(true)));
    assert_eq!(to_json(MvtValue::Null), Ok(Value::Null));
    assert_eq!(
        to_json(MvtValue::Double(f64::NAN.to_bits())),
        Err(MvtJsonValueError::NonFiniteFloat)
    );
}

#[test]
fn json_values_convert_to_mvt_values() {
    assert_eq!(from_json(Value::String("name".into())), Ok(MvtValue::String("name".into())));
    assert_eq!(from_json(Value::from(-3i64)), Ok(MvtValue::Int(-3)));
    assert_eq!(from_json(number(1.5)), Ok(MvtValue::Double(1.5f64.to_bits())));
    assert_eq!(from_json(Value::Bool(true)), Ok(MvtValue::Bool(true)));
    assert_eq!(from_json(Value::Null), Ok(MvtValue::Null));
    assert_eq!(from_json(Value::Array(vec![])), Err(MvtJsonValueError::UnsupportedJsonArray));
    assert_eq!(
        from_json(Value::Object(serde_json::Map::new())),
        Err(MvtJsonValueError::UnsupportedJsonObject)
    );
}

#[test]
fn json_numbers_become_ints_then_uints_then_doubles() {
    assert_eq!(from_json(Value::from(4u64)), Ok(MvtValue::Int(4)));
    assert_eq!(from_json(Value::from(u64::MAX)), Ok(MvtValue::UInt(u64::MAX)));
    let none = JsonKind::Number { as_i64: None, as_u64: None, f64_bits: None };
    assert_eq!(value_from_json_kind(none), Err(MvtJsonValueError::InvalidJsonNumber));
    let all = JsonKind::Number { as_i64: Some(7), as_u64: Some(7), f64_bits: Some(7.0f64.to_bits()) };
    assert_eq!(value_from_json_kind(all), Ok(MvtValue::Int(7)));
}

#[test]
fn only_finite_floats_have_a_json_form() {
    assert!(matches!(value_to_json_form(MvtValue::Double(1.5f64.to_bits())), Ok(JsonForm::F64Bits(_))));
    assert!(matches!(value_to_json_form(MvtValue::Float(1.5f32.to_bits())), Ok(JsonForm::F32Bits(_))));
    assert!(value_to_json_form(MvtValue::Double(f64::MAX.to_bits())).is_ok());
    assert!(value_to_json_form(MvtValue::Float(f32::MIN_POSITIVE.to_bits())).is_ok());
    for bits in [f64::NAN.to_bits(), f64::INFINITY.to_bits(), f64::NEG_INFINITY.to_bits()] {
        assert!(matches!(
            value_to_json_form(MvtValue::Double(bits)),
            Err(MvtJsonValueError::NonFiniteFloat)
        ));
    }
    for bits in [f32::NAN.to_bits(), f32::INFINITY.to_bits(), f32::NEG_INFINITY.to_bits()] {
        assert!(matches!(
            value_to_json_form(MvtValue::Float(bits)),
            Err(MvtJsonValueError::NonFiniteFloat)
        ));
    }
}

#[test]
fn values_come_back_from_json_normalized() {
    let trip = |v: MvtValue| from_json(to_json(v).unwrap());
    assert_eq!(trip(MvtValue::SInt(-5)), Ok(MvtValue::Int(-5)));
    assert_eq!(trip(MvtValue::UInt(9)), Ok(MvtValue::Int(9)));
    assert_eq!(trip(MvtValue::UInt(u64::MAX)), Ok(MvtValue::UInt(u64::MAX)));
    assert_eq!(trip(MvtValue::Double(2.0f64.to_bits())), Ok(MvtValue::Double(2.0f64.to_bits())));
    assert_eq!(trip(MvtValue::Float(0.5f32.to_bits())), Ok(MvtValue::Double(0.5f64.to_bits())));
    assert_eq!(trip(MvtValue::String("s".into())), Ok(MvtValue::String("s".into())));
}
