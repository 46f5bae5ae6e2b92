use vstd::prelude::*;

use crate::mapping::{EngineType, TimeUnit};
use crate::utilities::{
    DAY_SHIFT_SAS_STATA, SEC_MICROSECOND, SEC_MILLISECOND, SEC_NANOSECOND, SEC_SHIFT_SAS_STATA,
};

verus! {

/// One engine cell, as the exchange layer sees it.
#[derive(Clone, Debug, PartialEq, Eq)]
pub enum EngineValue {
    Null,
    Boolean(bool),
    /// A signed integer of any width.
    Int(i64),
    /// An unsigned integer of any width.
    UInt(u64),
    /// The IEEE-754 bit pattern of a floating-point value, widened to double.
    Double(u64),
    /// Days since the engine's epoch.
    Date(i32),
    /// Time of day in the engine's ticks.
    Time(i64),
    /// Ticks since the engine's epoch, in the column's time unit.
    Datetime(i64),
    Text(String),
}

/// One host cell to be stored.
#[derive(Clone, Debug, PartialEq, Eq)]
pub enum HostValue {
    /// The host's missing value.
    Missing,
    /// The number `numerator / denominator`, stored as a double.
    Number { numerator: i128, denominator: u32 },
    /// The IEEE-754 bit pattern of a double, stored as it is.
    Double(u64),
    Text(String),
}

impl EngineValue {
    /// A copy of the value.
    pub fn copied(&self) -> (r: EngineValue)
        ensures
            r == *self,
    {
        match self {
            EngineValue::Null => EngineValue::Null,
            EngineValue::Boolean(b) => EngineValue::Boolean(*b),
            EngineValue::Int(x) => EngineValue::Int(*x),
            EngineValue::UInt(x) => EngineValue::UInt(*x),
            EngineValue::Double(bits) => EngineValue::Double(*bits),
            EngineValue::Date(d) => EngineValue::Date(*d),
            EngineValue::Time(t) => EngineValue::Time(*t),
            EngineValue::Datetime(t) => EngineValue::Datetime(*t),
            EngineValue::Text(s) => EngineValue::Text(s.clone()),
        }
    }
}

/// A copy of every value of `v`.
pub fn copy_values(v: &Vec<EngineValue>) -> (r: Vec<EngineValue>)
    ensures
        r@ == v@,
{
    let mut r: Vec<EngineValue> = Vec::new();
    let mut i: usize = 0;
    while i < v.len()
        invariant
            i <= v.len(),
            r@ == v@.take(i as int),
        decreases v.len() - i,
    {
        r.push(v[i].copied());
        i += 1;
        assert(v@.take(i as int) == v@.take(i - 1).push(v@[i - 1]));
    }
    assert(v@.take(v.len() as int) == v@);
    r
}

impl HostValue {
    /// A copy of the value.
    pub fn copied(&self) -> (r: HostValue)
        ensures
            r == *self,
    {
        match self {
            HostValue::Missing => HostValue::Missing,
            HostValue::Number { numerator, denominator } => HostValue::Number {
                numerator: *numerator,
                denominator: *denominator,
            },
            HostValue::Double(bits) => HostValue::Double(*bits),
            HostValue::Text(s) => HostValue::Text(s.clone()),
        }
    }
}

/// Rust's integer division, which rounds toward zero.
pub open spec fn trunc_div(a: int, b: int) -> int {
    if a >= 0 {
        a / b
    } else {
        -((-a) / b)
    }
}

/// Engine ticks in one host millisecond.
pub open spec fn ticks_per_ms(u: TimeUnit) -> int {
    match u {
        TimeUnit::Nanoseconds => 1_000_000,
        TimeUnit::Microseconds => 1_000,
        TimeUnit::Milliseconds => 1,
    }
}

/// Host day number of engine day `days`.
pub open spec fn date_to_host_spec(days: int) -> int {
    days + DAY_SHIFT_SAS_STATA
}

/// Host time-of-day of engine time `ticks`.
pub open spec fn time_to_host_spec(ticks: int) -> int {
    trunc_div(ticks, SEC_MICROSECOND as int)
}

/// Host milliseconds of engine datetime `ticks`, scaled by `scale`: the host
/// value is the result divided by `scale`.
pub open spec fn datetime_to_host_scaled(ticks: int, scale: int) -> int {
    ticks + SEC_SHIFT_SAS_STATA * SEC_MILLISECOND * scale
}

/// Host day number of engine day `days`.
pub fn date_to_host(days: i32) -> (r: i64)
    ensures
        r == date_to_host_spec(days as int),
{
    days as i64 + DAY_SHIFT_SAS_STATA as i64
}

/// Engine day of host day number `host_days`, where it fits an engine date.
pub fn date_from_host(host_days: i64) -> (r: Option<i32>)
    ensures
        match r {
            Some(d) => d == host_days - DAY_SHIFT_SAS_STATA,
            None => host_days - DAY_SHIFT_SAS_STATA < i32::MIN || host_days - DAY_SHIFT_SAS_STATA
                > i32::MAX,
        },
{
    if host_days < i32::MIN as i64 + DAY_SHIFT_SAS_STATA as i64 || host_days > i32::MAX as i64
        + DAY_SHIFT_SAS_STATA as i64 {
        None
    } else {
        Some((host_days - DAY_SHIFT_SAS_STATA as i64) as i32)
    }
}

/// Host time of day of engine time `ticks`.
pub fn time_to_host(ticks: i64) -> (r: i64)
    ensures
        r == time_to_host_spec(ticks as int),
{
    ticks / SEC_MICROSECOND
}

/// Engine time of host time of day `host_time`, where it fits.
pub fn time_from_host(host_time: i64) -> (r: Option<i64>)
    ensures
        match r {
            Some(t) => t == host_time * SEC_MICROSECOND,
            None => host_time * SEC_MICROSECOND < i64::MIN || host_time * SEC_MICROSECOND
                > i64::MAX,
        },
{
    host_time.checked_mul(SEC_MICROSECOND)
}

/// Engine ticks per host millisecond, in unit `u`.
pub fn ms_scale(u: TimeUnit) -> (r: i64)
    ensures
        r == ticks_per_ms(u),
{
    match u {
        TimeUnit::Nanoseconds => SEC_NANOSECOND / SEC_MILLISECOND,
        TimeUnit::Microseconds => SEC_MICROSECOND / SEC_MILLISECOND,
        TimeUnit::Milliseconds => 1,
    }
}

/// Host datetime of engine datetime `ticks` in unit `u`, as the exact fraction
/// `numerator / ticks_per_ms(u)` of host milliseconds.
pub fn datetime_to_host(ticks: i64, u: TimeUnit) -> (r: HostValue)
    ensures
        r == (HostValue::Number {
            numerator: datetime_to_host_scaled(ticks as int, ticks_per_ms(u)) as i128,
            denominator: ticks_per_ms(u) as u32,
        }),
{
    let scale = ms_scale(u);
    assert(1 <= scale <= 1_000_000);
    assert(SEC_SHIFT_SAS_STATA == 315619200 && SEC_MILLISECOND == 1000);
    assert(315619200 * 1000 * scale <= 315619200 * 1000 * 1_000_000) by (nonlinear_arith)
        requires 1 <= scale <= 1_000_000;
    let shift = SEC_SHIFT_SAS_STATA as i128 * SEC_MILLISECOND as i128 * scale as i128;
    HostValue::Number { numerator: ticks as i128 + shift, denominator: scale as u32 }
}

/// Engine datetime, in milliseconds, of host datetime `host_ms`, where it fits.
pub fn datetime_from_host(host_ms: i64) -> (r: Option<i64>)
    ensures
        match r {
            Some(t) => t == host_ms - SEC_SHIFT_SAS_STATA * SEC_MILLISECOND,
            None => host_ms - SEC_SHIFT_SAS_STATA * SEC_MILLISECOND < i64::MIN,
        },
{
    host_ms.checked_sub(SEC_SHIFT_SAS_STATA * SEC_MILLISECOND)
}

/// A whole number as a host value.
pub open spec fn whole(n: int) -> HostValue {
    HostValue::Number { numerator: n as i128, denominator: 1 }
}

/// The host value stored for engine value `v` of a column of type `dtype`;
/// a null, or a value that does not belong to the column's type, is missing.
pub open spec fn host_value_of(dtype: EngineType, v: EngineValue) -> HostValue {
    match v {
        EngineValue::Boolean(b) => if dtype == EngineType::Boolean {
            whole(if b { 1 } else { 0 })
        } else {
            HostValue::Missing
        },
        EngineValue::Int(x) => match dtype {
            EngineType::Int8 | EngineType::Int16 | EngineType::Int32 | EngineType::Int64 => whole(
                x as int,
            ),
            _ => HostValue::Missing,
        },
        EngineValue::UInt(x) => match dtype {
            EngineType::UInt8 | EngineType::UInt16 | EngineType::UInt32 | EngineType::UInt64 => whole(
                x as int,
            ),
            _ => HostValue::Missing,
        },
        EngineValue::Double(bits) => match dtype {
            EngineType::Float32 | EngineType::Float64 => HostValue::Double(bits),
            _ => HostValue::Missing,
        },
        EngineValue::Date(d) => if dtype == EngineType::Date {
            whole(date_to_host_spec(d as int))
        } else {
            HostValue::Missing
        },
        EngineValue::Time(t) => if dtype == EngineType::Time {
            whole(time_to_host_spec(t as int))
        } else {
            HostValue::Missing
        },
        EngineValue::Datetime(t) => match dtype {
            EngineType::Datetime(u) => HostValue::Number {
                numerator: datetime_to_host_scaled(t as int, ticks_per_ms(u)) as i128,
                denominator: ticks_per_ms(u) as u32,
            },
            _ => HostValue::Missing,
        },
        EngineValue::Text(s) => match dtype {
            EngineType::String | EngineType::Categorical => HostValue::Text(s),
            _ => HostValue::Missing,
        },
        EngineValue::Null => HostValue::Missing,
    }
}

/// The host value stored for engine value `v` of a column of type `dtype`.
pub fn to_host_value(dtype: EngineType, v: &EngineValue) -> (r: HostValue)
    ensures
        r == host_value_of(dtype, *v),
{
    match v {
        EngineValue::Boolean(b) => {
            if dtype == EngineType::Boolean {
                HostValue::Number { numerator: if *b { 1 } else { 0 }, denominator: 1 }
            } else {
                HostValue::Missing
            }
        },
        EngineValue::Int(x) => match dtype {
            EngineType::Int8 | EngineType::Int16 | EngineType::Int32 | EngineType::Int64 => {
                HostValue::Number { numerator: *x as i128, denominator: 1 }
            },
            _ => HostValue::Missing,
        },
        EngineValue::UInt(x) => match dtype {
            EngineType::UInt8 | EngineType::UInt16 | EngineType::UInt32 | EngineType::UInt64 => {
                HostValue::Number { numerator: *x as i128, denominator: 1 }
            },
            _ => HostValue::Missing,
        },
        EngineValue::Double(bits) => match dtype {
            EngineType::Float32 | EngineType::Float64 => HostValue::Double(*bits),
            _ => HostValue::Missing,
        },
        EngineValue::Date(d) => {
            if dtype == EngineType::Date {
                HostValue::Number { numerator: date_to_host(*d) as i128, denominator: 1 }
            } else {
                HostValue::Missing
            }
        },
        EngineValue::Time(t) => {
            if dtype == EngineType::Time {
                HostValue::Number { numerator: time_to_host(*t) as i128, denominator: 1 }
            } else {
                HostValue::Missing
            }
        },
        EngineValue::Datetime(t) => match dtype {
            EngineType::Datetime(u) => datetime_to_host(*t, u),
            _ => HostValue::Missing,
        },
        EngineValue::Text(s) => match dtype {
            EngineType::String | EngineType::Categorical => HostValue::Text(s.clone()),
            _ => HostValue::Missing,
        },
        EngineValue::Null => HostValue::Missing,
    }
}

/// Dates, whole-second times of day and millisecond datetimes survive a trip
/// from the host to the engine and back; engine dates and millisecond
/// datetimes survive the trip the other way.
pub proof fn lemma_epoch_round_trip(days: int, ms: int, secs: int)
    ensures
        date_to_host_spec(days) - DAY_SHIFT_SAS_STATA as int == days,
        date_to_host_spec(days - DAY_SHIFT_SAS_STATA as int) == days,
        time_to_host_spec(secs * SEC_MICROSECOND as int) == secs,
        datetime_to_host_scaled(ms, 1) - SEC_SHIFT_SAS_STATA as int * SEC_MILLISECOND as int
            == ms,
        datetime_to_host_scaled(ms - SEC_SHIFT_SAS_STATA as int * SEC_MILLISECOND as int, 1)
            == ms,
{
    let m = SEC_MICROSECOND as int;
    assert(m == 1_000_000);
    if secs >= 0 {
        assert((secs * m) / m == secs) by (nonlinear_arith)
            requires m == 1_000_000;
    } else {
        assert((-(secs * m)) / m == -secs) by (nonlinear_arith)
            requires m == 1_000_000, secs < 0;
    }
}

/// A datetime of whole host milliseconds, in any engine time unit, goes to
/// the host as its milliseconds after the host's epoch, and comes back as the
/// same number of milliseconds: the conversion is exact at millisecond
/// resolution.
#[verifier::rlimit(50)]
pub proof fn lemma_datetime_round_trip(ticks: int, u: TimeUnit)
    requires
        ticks % ticks_per_ms(u) == 0,
    ensures
        datetime_to_host_scaled(ticks, ticks_per_ms(u)) % ticks_per_ms(u) == 0,
        datetime_to_host_scaled(ticks, ticks_per_ms(u)) / ticks_per_ms(u) - SEC_SHIFT_SAS_STATA as int
            * SEC_MILLISECOND as int == ticks / ticks_per_ms(u),
{
    let s = ticks_per_ms(u);
    let k = SEC_SHIFT_SAS_STATA as int * SEC_MILLISECOND as int;
    let q = ticks / s;
    assert(s > 0);
    vstd::arithmetic::div_mod::lemma_fundamental_div_mod(ticks, s);
    assert(ticks == s * q);
    assert(datetime_to_host_scaled(ticks, s) == s * (q + k)) by (nonlinear_arith)
        requires ticks == s * q, k == SEC_SHIFT_SAS_STATA as int * SEC_MILLISECOND as int;
    vstd::arithmetic::div_mod::lemma_div_multiples_vanish(q + k, s);
    vstd::arithmetic::div_mod::lemma_mod_multiples_basic(q + k, s);
}

} // verus!
