//! The decisions behind a property value's JSON form: which values have one
//! and what it is built from, which property value each kind of JSON value
//! becomes, and what a value comes back as after a trip through JSON.
use vstd::prelude::*;

use crate::error::MvtJsonValueError;
use crate::types::{f32_bits_finite, f64_bits_finite, MvtValue, ValueKind};

verus! {

/// A JSON value as seen by the conversion to a property value: its kind,
/// and for a number what it reads as (an `i64`, a `u64`, the bits of an
/// `f64`; each `None` where it is not one).
#[derive(Debug)]
pub enum JsonKind {
    Null,
    Bool(bool),
    Number { as_i64: Option<i64>, as_u64: Option<u64>, f64_bits: Option<u64> },
    String(String),
    Array,
    Object,
}

/// What a property value's JSON form is built from: a number is given by
/// the integer or the float bits it comes from.
#[derive(Debug)]
pub enum JsonForm {
    Null,
    Bool(bool),
    I64(i64),
    U64(u64),
    F32Bits(u32),
    F64Bits(u64),
    String(String),
}

/// Whether a property value has a JSON form: every value but an infinite or
/// not-a-number float or double.
pub open spec fn has_json_form(v: ValueKind) -> bool {
    match v {
        ValueKind::Float(b) => f32_bits_finite(b),
        ValueKind::Double(b) => f64_bits_finite(b),
        _ => true,
    }
}

/// Whether `f` is the JSON form of `v`: strings, booleans and null as
/// themselves, `int` and `sint` from their `i64`, `uint` from its `u64`,
/// finite floats and doubles from their bits.
pub open spec fn is_json_form(v: ValueKind, f: JsonForm) -> bool {
    match (v, f) {
        (ValueKind::String(s), JsonForm::String(t)) => t@ == s,
        (ValueKind::Float(b), JsonForm::F32Bits(c)) => b == c && f32_bits_finite(b),
        (ValueKind::Double(b), JsonForm::F64Bits(c)) => b == c && f64_bits_finite(b),
        (ValueKind::Int(x), JsonForm::I64(y)) => x == y,
        (ValueKind::SInt(x), JsonForm::I64(y)) => x == y,
        (ValueKind::UInt(x), JsonForm::U64(y)) => x == y,
        (ValueKind::Bool(x), JsonForm::Bool(y)) => x == y,
        (ValueKind::Null, JsonForm::Null) => true,
        _ => false,
    }
}

/// The JSON form of a property value; a float or a double that is infinite
/// or not a number has none.
pub fn value_to_json_form(value: MvtValue) -> (r: Result<JsonForm, MvtJsonValueError>)
    ensures
        match r {
            Ok(f) => is_json_form(value@, f),
            Err(e) => !has_json_form(value@) && e == MvtJsonValueError::NonFiniteFloat,
        },
        has_json_form(value@) ==> r is Ok,
{
    match value {
        MvtValue::String(s) => Ok(JsonForm::String(s)),
        MvtValue::Float(b) => if (b / 0x80_0000) % 0x100 != 0xff {
            Ok(JsonForm::F32Bits(b))
        } else {
            Err(MvtJsonValueError::NonFiniteFloat)
        },
        MvtValue::Double(b) => if (b / 0x10_0000_0000_0000) % 0x800 != 0x7ff {
            Ok(JsonForm::F64Bits(b))
        } else {
            Err(MvtJsonValueError::NonFiniteFloat)
        },
        MvtValue::Int(v) => Ok(JsonForm::I64(v)),
        MvtValue::SInt(v) => Ok(JsonForm::I64(v)),
        MvtValue::UInt(v) => Ok(JsonForm::U64(v)),
        MvtValue::Bool(v) => Ok(JsonForm::Bool(v)),
        MvtValue::Null => Ok(JsonForm::Null),
    }
}

/// The property value of a JSON number, given what the number reads as: an
/// `int` when it is an `i64`, else a `uint` when it is a `u64`, else a
/// `double` with the bits of its `f64`; a number that is none of them is an
/// invalid JSON number.
pub open spec fn json_number_value(as_i64: Option<i64>, as_u64: Option<u64>, f64_bits: Option<u64>) -> Result<ValueKind, MvtJsonValueError> {
    match (as_i64, as_u64, f64_bits) {
        (Some(v), _, _) => Ok(ValueKind::Int(v)),
        (None, Some(v), _) => Ok(ValueKind::UInt(v)),
        (None, None, Some(b)) => Ok(ValueKind::Double(b)),
        (None, None, None) => Err(MvtJsonValueError::InvalidJsonNumber),
    }
}

/// The property value of a JSON value: null, booleans and strings as
/// themselves, numbers as [`json_number_value`] says; arrays and objects
/// have none.
pub open spec fn json_kind_value(j: JsonKind) -> Result<ValueKind, MvtJsonValueError> {
    match j {
        JsonKind::Null => Ok(ValueKind::Null),
        JsonKind::Bool(b) => Ok(ValueKind::Bool(b)),
        JsonKind::Number { as_i64, as_u64, f64_bits } => json_number_value(as_i64, as_u64, f64_bits),
        JsonKind::String(s) => Ok(ValueKind::String(s@)),
        JsonKind::Array => Err(MvtJsonValueError::UnsupportedJsonArray),
        JsonKind::Object => Err(MvtJsonValueError::UnsupportedJsonObject),
    }
}

/// The property value of a JSON value, as [`json_kind_value`] gives it.
pub fn value_from_json_kind(j: JsonKind) -> (r: Result<MvtValue, MvtJsonValueError>)
    ensures
        match (r, json_kind_value(j)) {
            (Ok(v), Ok(k)) => v@ == k,
            (Err(e), Err(f)) => e == f,
            _ => false,
        },
{
    match j {
        JsonKind::Null => Ok(MvtValue::Null),
        JsonKind::Bool(b) => Ok(MvtValue::Bool(b)),
        JsonKind::Number { as_i64, as_u64, f64_bits } => match (as_i64, as_u64, f64_bits) {
            (Some(v), _, _) => Ok(MvtValue::Int(v)),
            (None, Some(v), _) => Ok(MvtValue::UInt(v)),
            (None, None, Some(b)) => Ok(MvtValue::Double(b)),
            (None, None, None) => Err(MvtJsonValueError::InvalidJsonNumber),
        },
        JsonKind::String(s) => Ok(MvtValue::String(s)),
        JsonKind::Array => Err(MvtJsonValueError::UnsupportedJsonArray),
        JsonKind::Object => Err(MvtJsonValueError::UnsupportedJsonObject),
    }
}

/// Whether `j` is what the JSON value built from `f` reads as: the same
/// null, boolean or string; a number from an `i64` reads as that `i64`; one
/// from a `u64` reads as that `u64`, and as an `i64` exactly when it is one;
/// one from float bits reads as no integer, and from `f64` bits as those
/// bits.
pub open spec fn reads_back(f: JsonForm, j: JsonKind) -> bool {
    match (f, j) {
        (JsonForm::Null, JsonKind::Null) => true,
        (JsonForm::Bool(x), JsonKind::Bool(y)) => x == y,
        (JsonForm::String(x), JsonKind::String(y)) => x@ == y@,
        (JsonForm::I64(x), JsonKind::Number { as_i64, .. }) => as_i64 == Some(x),
        (JsonForm::U64(x), JsonKind::Number { as_i64, as_u64, .. }) => as_u64 == Some(x) && as_i64
            == (if x <= i64::MAX {
            Some(x as i64)
        } else {
            None
        }),
        (JsonForm::F32Bits(_), JsonKind::Number { as_i64, as_u64, f64_bits }) => as_i64 is None
            && as_u64 is None && f64_bits is Some,
        (JsonForm::F64Bits(b), JsonKind::Number { as_i64, as_u64, f64_bits }) => as_i64 is None
            && as_u64 is None && f64_bits == Some(b),
        _ => false,
    }
}

/// A value after a trip through JSON, as far as its form decides it: `sint`
/// becomes `int`, a `uint` that fits in an `i64` becomes an `int`, and the
/// rest stays as it was.
pub open spec fn json_normal(v: ValueKind) -> ValueKind {
    match v {
        ValueKind::SInt(x) => ValueKind::Int(x),
        ValueKind::UInt(x) => if x <= i64::MAX {
            ValueKind::Int(x as i64)
        } else {
            ValueKind::UInt(x)
        },
        _ => v,
    }
}

/// A property value that goes to JSON and back comes back as
/// [`json_normal`] gives it, a float as a double: when `f` is the value's
/// JSON form and `j` is what the JSON value built from it reads as.
pub proof fn lemma_json_round_trip(v: ValueKind, f: JsonForm, j: JsonKind)
    requires
        is_json_form(v, f),
        reads_back(f, j),
    ensures
        v is Float ==> json_kind_value(j) matches Ok(ValueKind::Double(_)),
        !(v is Float) ==> json_kind_value(j) == Ok::<ValueKind, MvtJsonValueError>(json_normal(v)),
{
}

} // verus!
