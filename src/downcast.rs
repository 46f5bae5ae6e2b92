use vstd::prelude::*;

use crate::mapping::EngineType;
use crate::text::same_text;

verus! {

/// The narrowest engine integer type that holds every value from `min_val` to
/// `max_val` within the host's ranges (byte -127..=100, int -32767..=32740,
/// long -2147483647..=2147483620); 0/1 data becomes boolean unless
/// `not_boolean`.
pub open spec fn optimal_integer_type(min_val: int, max_val: int, not_boolean: bool) -> EngineType {
    if min_val >= 0 && max_val <= 1 && !not_boolean {
        EngineType::Boolean
    } else if min_val >= -127 && max_val <= 100 {
        EngineType::Int8
    } else if min_val >= -32767 && max_val <= 32740 {
        EngineType::Int16
    } else if min_val >= -2147483647 && max_val <= 2147483620 {
        EngineType::Int32
    } else {
        EngineType::Int64
    }
}

/// The narrowest integer type for the values from `min_val` to `max_val`.
pub fn find_optimal_integer_type(min_val: i64, max_val: i64, not_boolean: bool) -> (r: EngineType)
    ensures
        r == optimal_integer_type(min_val as int, max_val as int, not_boolean),
{
    if min_val >= 0 && max_val <= 1 && !not_boolean {
        EngineType::Boolean
    } else if min_val >= -127 && max_val <= 100 {
        EngineType::Int8
    } else if min_val >= -32767 && max_val <= 32740 {
        EngineType::Int16
    } else if min_val >= -2147483647 && max_val <= 2147483620 {
        EngineType::Int32
    } else {
        EngineType::Int64
    }
}

/// Bits of an integer type; every other type counts as the widest.
pub open spec fn type_bits(t: EngineType) -> int {
    match t {
        EngineType::Boolean => 1,
        EngineType::Int8 | EngineType::UInt8 => 8,
        EngineType::Int16 | EngineType::UInt16 => 16,
        EngineType::Int32 | EngineType::UInt32 => 32,
        _ => 64,
    }
}

fn bits_of(t: EngineType) -> (r: u8)
    ensures
        r == type_bits(t),
{
    match t {
        EngineType::Boolean => 1,
        EngineType::Int8 | EngineType::UInt8 => 8,
        EngineType::Int16 | EngineType::UInt16 => 16,
        EngineType::Int32 | EngineType::UInt32 => 32,
        _ => 64,
    }
}

/// Whether `new_type` is narrower than `current_type`.
pub fn is_better_type(new_type: &EngineType, current_type: &EngineType) -> (r: bool)
    ensures
        r == (type_bits(*new_type) < type_bits(*current_type)),
{
    bits_of(*new_type) < bits_of(*current_type)
}

/// The engine type that a cast mapping names.
pub open spec fn cast_target(s: Seq<char>) -> Option<EngineType> {
    if s == "boolean"@ {
        Some(EngineType::Boolean)
    } else if s == "uint8"@ {
        Some(EngineType::UInt8)
    } else if s == "uint16"@ {
        Some(EngineType::UInt16)
    } else if s == "uint32"@ {
        Some(EngineType::UInt32)
    } else if s == "uint64"@ {
        Some(EngineType::UInt64)
    } else if s == "int8"@ {
        Some(EngineType::Int8)
    } else if s == "int16"@ {
        Some(EngineType::Int16)
    } else if s == "int32"@ {
        Some(EngineType::Int32)
    } else if s == "int64"@ {
        Some(EngineType::Int64)
    } else if s == "float32"@ {
        Some(EngineType::Float32)
    } else if s == "float64"@ {
        Some(EngineType::Float64)
    } else if s == "string"@ {
        Some(EngineType::String)
    } else {
        None
    }
}

/// The engine type that a cast mapping names; `None` for an unknown name.
pub fn parse_data_type(type_str: &str) -> (r: Option<EngineType>)
    ensures
        r == cast_target(type_str@),
{
    if same_text(type_str, "boolean") {
        Some(EngineType::Boolean)
    } else if same_text(type_str, "uint8") {
        Some(EngineType::UInt8)
    } else if same_text(type_str, "uint16") {
        Some(EngineType::UInt16)
    } else if same_text(type_str, "uint32") {
        Some(EngineType::UInt32)
    } else if same_text(type_str, "uint64") {
        Some(EngineType::UInt64)
    } else if same_text(type_str, "int8") {
        Some(EngineType::Int8)
    } else if same_text(type_str, "int16") {
        Some(EngineType::Int16)
    } else if same_text(type_str, "int32") {
        Some(EngineType::Int32)
    } else if same_text(type_str, "int64") {
        Some(EngineType::Int64)
    } else if same_text(type_str, "float32") {
        Some(EngineType::Float32)
    } else if same_text(type_str, "float64") {
        Some(EngineType::Float64)
    } else if same_text(type_str, "string") {
        Some(EngineType::String)
    } else {
        None
    }
}

/// The type to which an integer column of type `current` with values from
/// `min_val` to `max_val` is shrunk, where a narrower one holds them.
pub fn shrink_target(current: EngineType, min_val: i64, max_val: i64, not_boolean: bool) -> (r: Option<EngineType>)
    ensures
        ({
            let t = optimal_integer_type(min_val as int, max_val as int, not_boolean);
            if t != current && type_bits(t) < type_bits(current) {
                r == Some(t)
            } else {
                r is None
            }
        }),
{
    let t = find_optimal_integer_type(min_val, max_val, not_boolean);
    if t != current && is_better_type(&t, &current) {
        Some(t)
    } else {
        None
    }
}

} // verus!
