//! The errors that reading and writing tiles can report, and their messages.
use vstd::prelude::*;
use vstd::string::StringExecFns;

verus! {

/// What went wrong while reading or writing a tile.
#[derive(Debug, Clone, PartialEq)]
pub enum MvtError {
    /// The bytes are not a well-formed vector tile message.
    Decode,
    /// A layer has an empty name.
    MissingLayerName,
    /// A layer declares a version other than 1, 2 or 3.
    UnsupportedVersion { layer: String, version: u32 },
    /// A layer declares an extent of zero.
    InvalidExtent,
    /// A geometry command stream does not describe a geometry of its type,
    /// or a geometry cannot be written as one.
    InvalidGeometry,
    /// A feature's tags do not come in key/value pairs.
    InvalidTagsLength(usize),
    /// A tag refers to a key that the layer does not have.
    InvalidKeyIndex(u32),
    /// A tag refers to a value that the layer does not have.
    InvalidValueIndex(u32),
    /// A layer has more distinct keys or values than a tag can refer to.
    IndexOverflow(usize),
}

/// The result of reading or writing a tile.
pub type MvtResult<T> = Result<T, MvtError>;

/// The character of a decimal digit.
pub open spec fn digit_char(d: nat) -> char {
    (48 + d) as char
}

/// The decimal digits of a number, most significant first, without leading
/// zeros.
pub open spec fn decimal(n: nat) -> Seq<char>
    decreases n,
{
    if n < 10 {
        seq![digit_char(n)]
    } else {
        decimal(n / 10).push(digit_char(n % 10))
    }
}

/// The message of an error, as it is displayed.
pub open spec fn error_message(e: MvtError) -> Seq<char> {
    match e {
        MvtError::Decode => "failed to decode vector tile"@,
        MvtError::MissingLayerName => "layer has no name"@,
        MvtError::UnsupportedVersion { layer, version } => "unsupported version "@ + decimal(
            version as nat,
        ) + " of layer "@ + layer@,
        MvtError::InvalidExtent => "invalid layer extent: 0"@,
        MvtError::InvalidGeometry => "invalid geometry"@,
        MvtError::InvalidTagsLength(n) => "invalid feature tags length: "@ + decimal(n as nat),
        MvtError::InvalidKeyIndex(i) => "invalid key index "@ + decimal(i as nat),
        MvtError::InvalidValueIndex(i) => "invalid value index "@ + decimal(i as nat),
        MvtError::IndexOverflow(n) => "index does not fit in 32 bits: "@ + decimal(n as nat),
    }
}

/// The text of one decimal digit.
fn digit_str(d: u64) -> (r: &'static str)
    requires
        d < 10,
    ensures
        r@ == seq![digit_char(d as nat)],
{
    proof {
        reveal_strlit("0");
        reveal_strlit("1");
        reveal_strlit("2");
        reveal_strlit("3");
        reveal_strlit("4");
        reveal_strlit("5");
        reveal_strlit("6");
        reveal_strlit("7");
        reveal_strlit("8");
        reveal_strlit("9");
    }
    let r = if d == 0 {
        "0"
    } else if d == 1 {
        "1"
    } else if d == 2 {
        "2"
    } else if d == 3 {
        "3"
    } else if d == 4 {
        "4"
    } else if d == 5 {
        "5"
    } else if d == 6 {
        "6"
    } else if d == 7 {
        "7"
    } else if d == 8 {
        "8"
    } else {
        "9"
    };
    assert(r@ =~= seq![digit_char(d as nat)]);
    r
}

/// Appends the decimal digits of `n`.
pub fn push_decimal(out: &mut String, n: u64)
    ensures
        final(out)@ == old(out)@ + decimal(n as nat),
    decreases n,
{
    if n >= 10 {
        push_decimal(out, n / 10);
    }
    out.append(digit_str(n % 10));
    proof {
        if n >= 10 {
            assert(old(out)@ + decimal(n as nat) =~= old(out)@ + decimal((n / 10) as nat) + seq![
                digit_char((n % 10) as nat),
            ]);
        } else {
            assert(decimal(n as nat) =~= seq![digit_char((n % 10) as nat)]);
        }
    }
}

impl MvtError {
    /// The error's message.
    pub fn message(&self) -> (r: String)
        ensures
            r@ == error_message(*self),
    {
        match self {
            MvtError::Decode => String::from_str("failed to decode vector tile"),
            MvtError::MissingLayerName => String::from_str("layer has no name"),
            MvtError::UnsupportedVersion { layer, version } => {
                let mut s = String::from_str("unsupported version ");
                push_decimal(&mut s, *version as u64);
                s.append(" of layer ");
                s.append(layer.as_str());
                s
            },
            MvtError::InvalidExtent => String::from_str("invalid layer extent: 0"),
            MvtError::InvalidGeometry => String::from_str("invalid geometry"),
            MvtError::InvalidTagsLength(n) => {
                let mut s = String::from_str("invalid feature tags length: ");
                push_decimal(&mut s, *n as u64);
                s
            },
            MvtError::InvalidKeyIndex(i) => {
                let mut s = String::from_str("invalid key index ");
                push_decimal(&mut s, *i as u64);
                s
            },
            MvtError::InvalidValueIndex(i) => {
                let mut s = String::from_str("invalid value index ");
                push_decimal(&mut s, *i as u64);
                s
            },
            MvtError::IndexOverflow(n) => {
                let mut s = String::from_str("index does not fit in 32 bits: ");
                push_decimal(&mut s, *n as u64);
                s
            },
        }
    }
}

/// Why a property value and a JSON value cannot be turned into each other.
#[derive(Debug, Clone, Copy, PartialEq, Eq)]
#[non_exhaustive]
pub enum MvtJsonValueError {
    /// A float that is infinite or not a number has no JSON form.
    NonFiniteFloat,
    /// A JSON number that is neither an integer nor a float.
    InvalidJsonNumber,
    /// JSON arrays have no property value form.
    UnsupportedJsonArray,
    /// JSON objects have no property value form.
    UnsupportedJsonObject,
}

/// The message of a JSON conversion error, as it is displayed.
pub open spec fn json_error_message(e: MvtJsonValueError) -> Seq<char> {
    match e {
        MvtJsonValueError::NonFiniteFloat => "non-finite float cannot be represented as JSON"@,
        MvtJsonValueError::InvalidJsonNumber => "invalid JSON number"@,
        MvtJsonValueError::UnsupportedJsonArray => "JSON array cannot be represented as an MVT value"@,
        MvtJsonValueError::UnsupportedJsonObject => "JSON object cannot be represented as an MVT value"@,
    }
}

impl MvtJsonValueError {
    /// The error's message.
    pub fn message(self) -> (r: &'static str)
        ensures
            r@ == json_error_message(self),
    {
        match self {
            MvtJsonValueError::NonFiniteFloat => "non-finite float cannot be represented as JSON",
            MvtJsonValueError::InvalidJsonNumber => "invalid JSON number",
            MvtJsonValueError::UnsupportedJsonArray => "JSON array cannot be represented as an MVT value",
            MvtJsonValueError::UnsupportedJsonObject => "JSON object cannot be represented as an MVT value",
        }
    }
}

} // verus!
