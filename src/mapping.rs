use vstd::prelude::*;

use crate::text::{
    chars_of, contains, has_infix, has_prefix, lowercase_of, same_text, starts_with, to_lower,
};

verus! {

/// Widest string the host stores inline; wider strings go to the long-string type.
pub const MAX_INLINE_STRING: usize = 2045;

/// The host's storage types.
#[derive(Copy, Clone, Debug, PartialEq, Eq, Structural)]
pub enum StataType {
    Byte,
    Int,
    Long,
    Float,
    Double,
    Date,
    Time,
    DateTime,
    String,
    Strl,
}

/// Resolution of an engine datetime column.
#[derive(Copy, Clone, Debug, PartialEq, Eq, Structural)]
pub enum TimeUnit {
    Nanoseconds,
    Microseconds,
    Milliseconds,
}

/// The engine column types that the exchange layer distinguishes.
#[derive(Copy, Clone, Debug, PartialEq, Eq, Structural)]
pub enum EngineType {
    Boolean,
    Int8,
    Int16,
    Int32,
    Int64,
    UInt8,
    UInt16,
    UInt32,
    UInt64,
    Float32,
    Float64,
    Date,
    Time,
    Datetime(TimeUnit),
    String,
    /// Dictionary-encoded text, transferred as its string values.
    Categorical,
    Binary,
    /// Lists, arrays and structs.
    Nested,
}

/// An engine type that has no host counterpart.
#[derive(Copy, Clone, Debug, PartialEq, Eq, Structural)]
pub enum MappingError {
    Unsupported(EngineType),
}

impl StataType {
    /// The host's name of the type.
    pub open spec fn name_spec(self) -> Seq<char> {
        match self {
            StataType::Byte => "byte"@,
            StataType::Int => "int"@,
            StataType::Long => "long"@,
            StataType::Float => "float"@,
            StataType::Double => "double"@,
            StataType::Date => "date"@,
            StataType::Time => "time"@,
            StataType::DateTime => "datetime"@,
            StataType::String => "string"@,
            StataType::Strl => "strl"@,
        }
    }

    /// The host's name of the type.
    pub fn to_string(&self) -> (r: &'static str)
        ensures
            r@ == self.name_spec(),
    {
        match self {
            StataType::Byte => "byte",
            StataType::Int => "int",
            StataType::Long => "long",
            StataType::Float => "float",
            StataType::Double => "double",
            StataType::Date => "date",
            StataType::Time => "time",
            StataType::DateTime => "datetime",
            StataType::String => "string",
            StataType::Strl => "strl",
        }
    }
}

/// Host type of an engine column whose strings are at most `width` wide:
/// booleans and integers of at most 16 bits take the narrowest host integer
/// type that holds every value of their type, wider integers take doubles.
pub open spec fn host_type_of(dtype: EngineType, width: int) -> Option<StataType> {
    match dtype {
        EngineType::Boolean => Some(StataType::Byte),
        EngineType::Int8 | EngineType::UInt8 => Some(StataType::Int),
        EngineType::Int16 | EngineType::UInt16 => Some(StataType::Long),
        EngineType::Int32 | EngineType::UInt32 | EngineType::Int64 | EngineType::UInt64 => Some(
            StataType::Double,
        ),
        EngineType::Float32 => Some(StataType::Float),
        EngineType::Float64 => Some(StataType::Double),
        EngineType::Date => Some(StataType::Date),
        EngineType::Time => Some(StataType::Time),
        EngineType::Datetime(_) => Some(StataType::DateTime),
        EngineType::String | EngineType::Categorical => if width > MAX_INLINE_STRING {
            Some(StataType::Strl)
        } else {
            Some(StataType::String)
        },
        EngineType::Binary | EngineType::Nested => None,
    }
}

/// Engine type that a host column of type `t` is exported as.
pub open spec fn engine_type_of(t: StataType) -> EngineType {
    match t {
        StataType::Byte => EngineType::Int8,
        StataType::Int => EngineType::Int16,
        StataType::Long => EngineType::Int32,
        StataType::Float => EngineType::Float32,
        StataType::Double => EngineType::Float64,
        StataType::Date => EngineType::Date,
        StataType::Time => EngineType::Time,
        StataType::DateTime => EngineType::Datetime(TimeUnit::Milliseconds),
        StataType::String | StataType::Strl => EngineType::String,
    }
}

/// Host type for an engine column whose longest string is `str_length` wide.
pub fn map_polars_to_stata(dtype: &EngineType, str_length: usize) -> (r: Result<
    StataType,
    MappingError,
>)
    ensures
        match host_type_of(*dtype, str_length as int) {
            Some(t) => r == Ok::<StataType, MappingError>(t),
            None => r == Err::<StataType, MappingError>(MappingError::Unsupported(*dtype)),
        },
{
    match dtype {
        EngineType::Boolean => Ok(StataType::Byte),
        EngineType::Int8 | EngineType::UInt8 => Ok(StataType::Int),
        EngineType::Int16 | EngineType::UInt16 => Ok(StataType::Long),
        EngineType::Int32 | EngineType::UInt32 | EngineType::Int64 | EngineType::UInt64 => Ok(
            StataType::Double,
        ),
        EngineType::Float32 => Ok(StataType::Float),
        EngineType::Float64 => Ok(StataType::Double),
        EngineType::Date => Ok(StataType::Date),
        EngineType::Time => Ok(StataType::Time),
        EngineType::Datetime(_) => Ok(StataType::DateTime),
        EngineType::String | EngineType::Categorical => {
            if str_length > MAX_INLINE_STRING {
                Ok(StataType::Strl)
            } else {
                Ok(StataType::String)
            }
        },
        EngineType::Binary | EngineType::Nested => Err(MappingError::Unsupported(*dtype)),
    }
}

/// Engine type that a host column of type `stata_type` is exported as.
pub fn map_stata_to_polars(stata_type: &StataType) -> (r: EngineType)
    ensures
        r == engine_type_of(*stata_type),
{
    match stata_type {
        StataType::Byte => EngineType::Int8,
        StataType::Int => EngineType::Int16,
        StataType::Long => EngineType::Int32,
        StataType::Float => EngineType::Float32,
        StataType::Double => EngineType::Float64,
        StataType::Date => EngineType::Date,
        StataType::Time => EngineType::Time,
        StataType::DateTime => EngineType::Datetime(TimeUnit::Milliseconds),
        StataType::String | StataType::Strl => EngineType::String,
    }
}

/// An observed string width that selects the host type `t` for string data.
pub open spec fn width_fits(t: StataType, width: int) -> bool {
    match t {
        StataType::String => width <= MAX_INLINE_STRING,
        StataType::Strl => width > MAX_INLINE_STRING,
        _ => true,
    }
}

/// Mapping a host type to the engine and back gives the same host type, for
/// every width of string data that the host type stands for.  The host's
/// integer types are left out: each is exported as the engine integer type of
/// its width, whose range it does not hold, so that type maps to a wider one.
pub proof fn lemma_type_round_trip(t: StataType, width: int)
    requires
        width_fits(t, width),
        t != StataType::Byte && t != StataType::Int && t != StataType::Long,
    ensures
        host_type_of(engine_type_of(t), width) == Some(t),
{
}

/// Smallest and largest value that a host integer type holds.
pub open spec fn host_int_range(t: StataType) -> Option<(int, int)> {
    match t {
        StataType::Byte => Some((-127, 100)),
        StataType::Int => Some((-32767, 32740)),
        StataType::Long => Some((-2147483647, 2147483620)),
        _ => None,
    }
}

/// Smallest and largest value of an engine integer type (booleans as 0 and 1).
pub open spec fn engine_int_range(d: EngineType) -> Option<(int, int)> {
    match d {
        EngineType::Boolean => Some((0, 1)),
        EngineType::Int8 => Some((-128, 127)),
        EngineType::UInt8 => Some((0, 255)),
        EngineType::Int16 => Some((-32768, 32767)),
        EngineType::UInt16 => Some((0, 65535)),
        EngineType::Int32 => Some((-2147483648, 2147483647)),
        EngineType::UInt32 => Some((0, 4294967295)),
        EngineType::Int64 => Some((-9223372036854775808, 9223372036854775807)),
        EngineType::UInt64 => Some((0, 18446744073709551615)),
        _ => None,
    }
}

/// `t` is a host integer type that holds every value from `lo` to `hi`.
pub open spec fn holds(t: StataType, lo: int, hi: int) -> bool {
    match host_int_range(t) {
        Some((a, b)) => a <= lo && hi <= b,
        None => false,
    }
}

/// Booleans and integers of at most 16 bits go to the narrowest host integer
/// type that holds every value of their type; wider integers, which no host
/// integer type holds, go to doubles.
pub proof fn lemma_integers_fit(d: EngineType, width: int)
    requires
        engine_int_range(d) is Some,
    ensures
        ({
            let (lo, hi) = engine_int_range(d)->0;
            match host_type_of(d, width) {
                Some(StataType::Double) => !holds(StataType::Long, lo, hi) && !holds(StataType::Int, lo, hi)
                    && !holds(StataType::Byte, lo, hi),
                Some(StataType::Long) => holds(StataType::Long, lo, hi) && !holds(StataType::Int, lo, hi)
                    && !holds(StataType::Byte, lo, hi),
                Some(StataType::Int) => holds(StataType::Int, lo, hi) && !holds(StataType::Byte, lo, hi),
                Some(StataType::Byte) => holds(StataType::Byte, lo, hi),
                _ => false,
            }
        }),
{
}

/// Temporal kind that a host display format announces, the format already in
/// lower case.
pub open spec fn format_kind(f: Seq<char>) -> Option<StataType> {
    if contains(f, "hh:mm:ss"@) || contains(f, "hh:mm"@) {
        Some(StataType::Time)
    } else if starts_with(f, "%tc"@) || starts_with(f, "%c"@) || starts_with(f, "%tn"@)
        || starts_with(f, "%n"@) || starts_with(f, "%tu"@) || starts_with(f, "%u"@) {
        Some(StataType::DateTime)
    } else if starts_with(f, "%td"@) || starts_with(f, "%d"@) || starts_with(f, "%tw"@)
        || starts_with(f, "%tm"@) || starts_with(f, "%tq"@) || starts_with(f, "%th"@)
        || starts_with(f, "%ty"@) || starts_with(f, "%tb"@) {
        Some(StataType::Date)
    } else {
        None
    }
}

/// Temporal kind of a host display format, compared without regard to case.
pub fn match_var_format_stata(format_str: &str) -> (r: Option<StataType>)
    ensures
        r == format_kind(lowercase_of(format_str@)),
{
    let lower = to_lower(format_str);
    format_kind_of(lower.as_str())
}

/// Temporal kind of a display format that is already in lower case.
pub fn format_kind_of(lowered: &str) -> (r: Option<StataType>)
    ensures
        r == format_kind(lowered@),
{
    let f = chars_of(lowered);
    if has_infix(&f, "hh:mm:ss") || has_infix(&f, "hh:mm") {
        return Some(StataType::Time);
    }
    if has_prefix(&f, "%tc") || has_prefix(&f, "%c") || has_prefix(&f, "%tn") || has_prefix(
        &f,
        "%n",
    ) || has_prefix(&f, "%tu") || has_prefix(&f, "%u") {
        return Some(StataType::DateTime);
    }
    if has_prefix(&f, "%td") || has_prefix(&f, "%d") || has_prefix(&f, "%tw") || has_prefix(
        &f,
        "%tm",
    ) || has_prefix(&f, "%tq") || has_prefix(&f, "%th") || has_prefix(&f, "%ty") || has_prefix(
        &f,
        "%tb",
    ) {
        return Some(StataType::Date);
    }
    None
}

} // verus!
