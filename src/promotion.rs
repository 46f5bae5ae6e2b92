use vstd::prelude::*;

use crate::convert::{host_value_of, to_host_value, EngineValue, HostValue};
use crate::mapping::EngineType;
use crate::mapping::StataType;
use crate::text::push_char;

verus! {

/// The host's integer codes for its storage types.
#[derive(Copy, Clone, Debug, PartialEq, Eq, Structural)]
pub struct StataDataType {
    pub type_byte: i32,
    pub type_int: i32,
    pub type_long: i32,
    pub type_float: i32,
    pub type_double: i32,
    pub type_str: i32,
    pub type_strl: i32,
}

/// The seven codes are pairwise distinct.
pub open spec fn codes_distinct(a: i32, b: i32, c: i32, d: i32, e: i32, f: i32, g: i32) -> bool {
    &&& a != b && a != c && a != d && a != e && a != f && a != g
    &&& b != c && b != d && b != e && b != f && b != g
    &&& c != d && c != e && c != f && c != g
    &&& d != e && d != f && d != g
    &&& e != f && e != g
    &&& f != g
}

/// Two storage types that the host reported under one code.
#[derive(Copy, Clone, Debug, PartialEq, Eq, Structural)]
pub struct AmbiguousTypeCodes;

impl StataDataType {
    pub open spec fn wf(self) -> bool {
        codes_distinct(
            self.type_byte,
            self.type_int,
            self.type_long,
            self.type_float,
            self.type_double,
            self.type_str,
            self.type_strl,
        )
    }

    /// Takes the host's type codes, in the order byte, int, long, float,
    /// double, str, strL; they must be pairwise distinct to tell types apart.
    pub fn load(
        type_byte: i32,
        type_int: i32,
        type_long: i32,
        type_float: i32,
        type_double: i32,
        type_str: i32,
        type_strl: i32,
    ) -> (r: Result<Self, AmbiguousTypeCodes>)
        ensures
            codes_distinct(type_byte, type_int, type_long, type_float, type_double, type_str, type_strl)
                ==> r == Ok::<Self, AmbiguousTypeCodes>(
                StataDataType {
                    type_byte,
                    type_int,
                    type_long,
                    type_float,
                    type_double,
                    type_str,
                    type_strl,
                },
            ),
            !codes_distinct(type_byte, type_int, type_long, type_float, type_double, type_str, type_strl)
                ==> r == Err::<Self, AmbiguousTypeCodes>(AmbiguousTypeCodes),
    {
        let codes: [i32; 7] = [type_byte, type_int, type_long, type_float, type_double, type_str, type_strl];
        let mut i: usize = 0;
        while i < 7
            invariant
                0 <= i <= 7,
                codes@ == seq![type_byte, type_int, type_long, type_float, type_double, type_str, type_strl],
                forall|a: int, b: int| 0 <= a < i && a < b < 7 ==> codes@[a] != codes@[b],
            decreases 7 - i,
        {
            let mut j: usize = i + 1;
            while j < 7
                invariant
                    0 <= i < 7,
                    i < j <= 7,
                    codes@ == seq![type_byte, type_int, type_long, type_float, type_double, type_str, type_strl],
                    forall|a: int, b: int| 0 <= a < i && a < b < 7 ==> codes@[a] != codes@[b],
                    forall|b: int| i < b < j ==> codes@[i as int] != codes@[b],
                decreases 7 - j,
            {
                if codes[i] == codes[j] {
                    return Err(AmbiguousTypeCodes);
                }
                j += 1;
            }
            i += 1;
        }
        Ok(StataDataType { type_byte, type_int, type_long, type_float, type_double, type_str, type_strl })
    }

    /// The code of storage type `t`; the temporal types are stored as doubles.
    pub open spec fn code_spec(self, t: StataType) -> i32 {
        match t {
            StataType::Byte => self.type_byte,
            StataType::Int => self.type_int,
            StataType::Long => self.type_long,
            StataType::Float => self.type_float,
            StataType::Double | StataType::Date | StataType::Time | StataType::DateTime => self.type_double,
            StataType::String => self.type_str,
            StataType::Strl => self.type_strl,
        }
    }

    /// The code of storage type `t`.
    pub fn code_of(&self, t: StataType) -> (r: i32)
        ensures
            r == self.code_spec(t),
    {
        match t {
            StataType::Byte => self.type_byte,
            StataType::Int => self.type_int,
            StataType::Long => self.type_long,
            StataType::Float => self.type_float,
            StataType::Double | StataType::Date | StataType::Time | StataType::DateTime => self.type_double,
            StataType::String => self.type_str,
            StataType::Strl => self.type_strl,
        }
    }

    /// The storage type that `code` stands for.
    pub fn type_of(&self, code: i32) -> (r: Option<StataType>)
        requires
            self.wf(),
        ensures
            match r {
                Some(t) => self.code_spec(t) == code && t != StataType::Date && t != StataType::Time
                    && t != StataType::DateTime,
                None => forall|t: StataType| #[trigger] self.code_spec(t) != code,
            },
    {
        if code == self.type_byte {
            Some(StataType::Byte)
        } else if code == self.type_int {
            Some(StataType::Int)
        } else if code == self.type_long {
            Some(StataType::Long)
        } else if code == self.type_float {
            Some(StataType::Float)
        } else if code == self.type_double {
            Some(StataType::Double)
        } else if code == self.type_str {
            Some(StataType::String)
        } else if code == self.type_strl {
            Some(StataType::Strl)
        } else {
            None
        }
    }
}

/// Position of a numeric storage type in the order of widths; `None` for text.
pub open spec fn numeric_rank(t: StataType) -> Option<int> {
    match t {
        StataType::Byte => Some(0),
        StataType::Int => Some(1),
        StataType::Long => Some(2),
        StataType::Float => Some(3),
        StataType::Double | StataType::Date | StataType::Time | StataType::DateTime => Some(4),
        StataType::String | StataType::Strl => None,
    }
}

/// `best` is a numeric type strictly wider than the numeric type `current`.
pub open spec fn strictly_wider(best: StataType, current: StataType) -> bool {
    match (numeric_rank(best), numeric_rank(current)) {
        (Some(b), Some(c)) => b > c,
        _ => false,
    }
}

fn rank_of(t: StataType) -> (r: Option<u8>)
    ensures
        match (r, numeric_rank(t)) {
            (Some(x), Some(y)) => x == y,
            (None, None) => true,
            _ => false,
        },
{
    match t {
        StataType::Byte => Some(0),
        StataType::Int => Some(1),
        StataType::Long => Some(2),
        StataType::Float => Some(3),
        StataType::Double | StataType::Date | StataType::Time | StataType::DateTime => Some(4),
        StataType::String | StataType::Strl => None,
    }
}

/// Whether a numeric host column of type `current` must be widened to hold a
/// batch for which the host names `best` as the narrowest fitting type.
pub fn needs_numeric_promotion(current: StataType, best: StataType) -> (r: bool)
    ensures
        r == strictly_wider(best, current),
{
    match (rank_of(best), rank_of(current)) {
        (Some(b), Some(c)) => b > c,
        _ => false,
    }
}

/// Whether a string host column `existing_width` wide must be widened to hold
/// strings `new_width` wide.
pub fn needs_string_promotion(existing_width: i32, new_width: i32) -> (r: bool)
    ensures
        r == (new_width > existing_width),
{
    new_width > existing_width
}

/// The dummy string of `width` characters stored to widen a string column.
pub fn string_probe(width: usize) -> (r: String)
    ensures
        r@ == Seq::new(width as nat, |i: int| 'a'),
{
    let mut r = String::new();
    let mut i: usize = 0;
    while i < width
        invariant
            i <= width,
            r@ == Seq::new(i as nat, |k: int| 'a'),
        decreases width - i,
    {
        push_char(&mut r, 'a');
        i += 1;
        assert(r@ == Seq::new(i as nat, |k: int| 'a'));
    }
    r
}

/// UTF-8 length of a text, as `str::len` gives it.
pub open spec fn byte_len(s: Seq<char>) -> int {
    (vstd::utf8::encode_utf8(s).len() as usize) as int
}

/// Byte length of the widest text among `values`; zero where there is none.
pub fn widest_text(values: &Vec<HostValue>) -> (r: usize)
    ensures
        forall|i: int|
            0 <= i < values@.len() ==> match #[trigger] values@[i] {
                HostValue::Text(s) => byte_len(s@) <= r,
                _ => true,
            },
        r == 0 || exists|i: int|
            0 <= i < values@.len() && match #[trigger] values@[i] {
                HostValue::Text(s) => byte_len(s@) == r,
                _ => false,
            },
{
    let mut r: usize = 0;
    let mut i: usize = 0;
    while i < values.len()
        invariant
            i <= values.len(),
            forall|k: int|
                0 <= k < i ==> match #[trigger] values@[k] {
                    HostValue::Text(s) => byte_len(s@) <= r,
                    _ => true,
                },
            r == 0 || exists|k: int|
                0 <= k < i && match #[trigger] values@[k] {
                    HostValue::Text(s) => byte_len(s@) == r,
                    _ => false,
                },
        decreases values.len() - i,
    {
        if let HostValue::Text(s) = &values[i] {
            let n = s.as_str().len();
            assert(n as int == byte_len(s@));
            let ghost old_r = r;
            if n > r {
                r = n;
            }
            proof {
                assert forall|k: int|
                    0 <= k < i + 1 implies match #[trigger] values@[k] {
                        HostValue::Text(s) => byte_len(s@) <= r,
                        _ => true,
                    } by {}
                if r != old_r {
                    assert(match values@[i as int] {
                        HostValue::Text(s) => byte_len(s@) == r,
                        _ => false,
                    });
                }
            }
        }
        i += 1;
    }
    r
}

/// `a` is at most as large in magnitude as `b`, both whole or fractional
/// numbers with positive denominators.
pub open spec fn magnitude_le(a: HostValue, b: HostValue) -> bool {
    match (a, b) {
        (
            HostValue::Number { numerator: n1, denominator: d1 },
            HostValue::Number { numerator: n2, denominator: d2 },
        ) => abs(n1 as int) * d2 <= abs(n2 as int) * d1,
        _ => false,
    }
}

pub open spec fn abs(x: int) -> int {
    if x < 0 { -x } else { x }
}

/// Bit pattern of the magnitude of the double with bits `bits`.
pub open spec fn magnitude_bits(bits: u64) -> int {
    bits as int % 0x8000_0000_0000_0000
}

/// The double with bits `bits` is a number, not a NaN.
pub open spec fn is_number_bits(bits: u64) -> bool {
    magnitude_bits(bits) <= 0x7FF0_0000_0000_0000
}

/// Largest magnitude of a number that `largest_magnitude` compares.
pub const MAX_COMPARED_MAGNITUDE: u128 = 0x1_0000_0000_0000_0000_0000_0000;

proof fn lemma_fraction_order(a: int, da: int, b: int, db: int, c: int, dc: int)
    requires
        da > 0,
        db > 0,
        dc > 0,
        a * db <= b * da,
        b * dc < c * db,
    ensures
        a * dc <= c * da,
{
    assert(a * db * dc <= b * da * dc) by (nonlinear_arith)
        requires a * db <= b * da, dc > 0;
    assert(b * dc * da < c * db * da) by (nonlinear_arith)
        requires b * dc < c * db, da > 0;
    assert(a * dc * db <= c * da * db) by (nonlinear_arith)
        requires a * db * dc <= b * da * dc, b * dc * da < c * db * da;
    assert(a * dc <= c * da) by (nonlinear_arith)
        requires a * dc * db <= c * da * db, db > 0;
}

/// Whether `n1 / d1` exceeds `n2 / d2`.
fn larger_fraction(n1: u128, d1: u32, n2: u128, d2: u32) -> (r: bool)
    requires
        n1 <= MAX_COMPARED_MAGNITUDE,
        n2 <= MAX_COMPARED_MAGNITUDE,
    ensures
        r == (n1 * d2 > n2 * d1),
{
    proof {
        assert(n1 * d2 <= MAX_COMPARED_MAGNITUDE * 0xFFFF_FFFF) by (nonlinear_arith)
            requires n1 <= MAX_COMPARED_MAGNITUDE, d2 <= 0xFFFF_FFFF;
        assert(n2 * d1 <= MAX_COMPARED_MAGNITUDE * 0xFFFF_FFFF) by (nonlinear_arith)
            requires n2 <= MAX_COMPARED_MAGNITUDE, d1 <= 0xFFFF_FFFF;
    }
    n1 * (d2 as u128) > n2 * (d1 as u128)
}

/// `a` is a whole or fractional number within the compared range.
pub open spec fn comparable(a: HostValue) -> bool {
    match a {
        HostValue::Number { numerator, denominator } => denominator > 0 && abs(numerator as int)
            <= MAX_COMPARED_MAGNITUDE,
        _ => true,
    }
}

/// The value of largest magnitude among `values`, as a non-negative value: over
/// the whole and fractional numbers where there are any, else over the doubles
/// other than NaN (whose magnitudes order as their bit patterns do), else
/// missing.
pub fn largest_magnitude(values: &Vec<HostValue>) -> (r: HostValue)
    requires
        forall|i: int| 0 <= i < values@.len() ==> comparable(#[trigger] values@[i]),
    ensures
        (exists|i: int| 0 <= i < values@.len() && #[trigger] values@[i] is Number) ==> {
            &&& r is Number
            &&& r->numerator >= 0
            &&& forall|i: int|
                0 <= i < values@.len() && #[trigger] values@[i] is Number ==> magnitude_le(
                    values@[i],
                    r,
                )
            &&& exists|i: int|
                0 <= i < values@.len() && #[trigger] values@[i] is Number && values@[i]->denominator
                    == r->denominator && abs(values@[i]->numerator as int) == r->numerator
        },
        !(exists|i: int| 0 <= i < values@.len() && #[trigger] values@[i] is Number) ==> {
            &&& (exists|i: int|
                0 <= i < values@.len() && #[trigger] values@[i] is Double && is_number_bits(
                    values@[i]->Double_0,
                )) ==> {
                &&& r is Double
                &&& forall|i: int|
                    0 <= i < values@.len() && #[trigger] values@[i] is Double && is_number_bits(
                        values@[i]->Double_0,
                    ) ==> magnitude_bits(values@[i]->Double_0) <= r->Double_0
                &&& exists|i: int|
                    0 <= i < values@.len() && #[trigger] values@[i] is Double && is_number_bits(
                        values@[i]->Double_0,
                    ) && magnitude_bits(values@[i]->Double_0) == r->Double_0
            }
            &&& !(exists|i: int|
                0 <= i < values@.len() && #[trigger] values@[i] is Double && is_number_bits(
                    values@[i]->Double_0,
                )) ==> r == HostValue::Missing
        },
{
    let mut best_n: Option<(u128, u32)> = None;
    let mut best_d: Option<u64> = None;
    let mut i: usize = 0;
    while i < values.len()
        invariant
            i <= values.len(),
            forall|k: int| 0 <= k < values@.len() ==> comparable(#[trigger] values@[k]),
            best_n is None <==> !(exists|k: int| 0 <= k < i && #[trigger] values@[k] is Number),
            best_n matches Some((n, d)) ==> {
                &&& n <= MAX_COMPARED_MAGNITUDE
                &&& d > 0
                &&& forall|k: int|
                    0 <= k < i && #[trigger] values@[k] is Number ==> magnitude_le(
                        values@[k],
                        HostValue::Number { numerator: n as i128, denominator: d },
                    )
                &&& exists|k: int|
                    0 <= k < i && #[trigger] values@[k] is Number && values@[k]->denominator == d
                        && abs(values@[k]->numerator as int) == n
            },
            best_d is None <==> !(exists|k: int|
                0 <= k < i && #[trigger] values@[k] is Double && is_number_bits(
                    values@[k]->Double_0,
                )),
            best_d matches Some(m) ==> {
                &&& forall|k: int|
                    0 <= k < i && #[trigger] values@[k] is Double && is_number_bits(
                        values@[k]->Double_0,
                    ) ==> magnitude_bits(values@[k]->Double_0) <= m
                &&& exists|k: int|
                    0 <= k < i && #[trigger] values@[k] is Double && is_number_bits(
                        values@[k]->Double_0,
                    ) && magnitude_bits(values@[k]->Double_0) == m
            },
        decreases values.len() - i,
    {
        match &values[i] {
            HostValue::Number { numerator, denominator } => {
                assert(comparable(values@[i as int]));
                let n: u128 = if *numerator < 0 {
                    (0 - *numerator) as u128
                } else {
                    *numerator as u128
                };
                assert(n == abs(*numerator as int));
                match best_n {
                    None => {
                        best_n = Some((n, *denominator));
                        proof {
                            assert forall|k: int|
                                0 <= k < i + 1 && #[trigger] values@[k] is Number implies magnitude_le(
                                values@[k],
                                HostValue::Number { numerator: n as i128, denominator: *denominator },
                            ) by {
                                if k < i {
                                    assert(!(values@[k] is Number));
                                }
                            }
                        }
                    },
                    Some((bn, bd)) => {
                        if larger_fraction(n, *denominator, bn, bd) {
                            best_n = Some((n, *denominator));
                            proof {
                                assert forall|k: int|
                                    0 <= k < i + 1 && #[trigger] values@[k] is Number implies magnitude_le(
                                    values@[k],
                                    HostValue::Number { numerator: n as i128, denominator: *denominator },
                                ) by {
                                    if k < i {
                                        assert(magnitude_le(values@[k], HostValue::Number { numerator: bn as i128, denominator: bd }));
                                        assert(comparable(values@[k]));
                                        lemma_fraction_order(
                                            abs(values@[k]->numerator as int),
                                            values@[k]->denominator as int,
                                            bn as int,
                                            bd as int,
                                            n as int,
                                            *denominator as int,
                                        );
                                    }
                                }
                            }
                        }
                    },
                }
            },
            HostValue::Double(bits) => {
                let m: u64 = if *bits >= 0x8000_0000_0000_0000 {
                    *bits - 0x8000_0000_0000_0000
                } else {
                    *bits
                };
                if m <= 0x7FF0_0000_0000_0000 {
                    match best_d {
                        None => {
                            best_d = Some(m);
                        },
                        Some(bm) => {
                            if m > bm {
                                best_d = Some(m);
                            }
                        },
                    }
                }
            },
            _ => {},
        }
        i += 1;
    }
    match best_n {
        Some((n, d)) => HostValue::Number { numerator: n as i128, denominator: d },
        None => match best_d {
            Some(m) => HostValue::Double(m),
            None => HostValue::Missing,
        },
    }
}

/// Where the probe of one column stands.
#[derive(Copy, Clone, Debug, PartialEq, Eq, Structural)]
pub enum ProbeStep {
    ReadOriginal,
    StoreProbe,
    QueryType,
    RestoreOriginal,
    Finished,
    Aborted,
}

/// What the host answered to the last call that the probe asked for.
#[derive(Clone, Debug, PartialEq, Eq)]
pub enum HostAnswer {
    /// The value read from a cell.
    Value(HostValue),
    /// The return code of a store call; zero is success.
    Status(i32),
    /// The column's storage type.
    Type(StataType),
}

/// The next host call of a probe.
#[derive(Clone, Debug, PartialEq, Eq)]
pub enum ProbeAction {
    /// Read host row 1 of the column.
    Read { column: usize },
    /// Store `value` at host row 1 with the type-checking store call.
    Store { column: usize, value: HostValue },
    /// Ask for the column's storage type.
    QueryType { column: usize },
    /// Store `value` at host row 1 with the store call that checks no type.
    StoreFast { column: usize, value: HostValue },
    /// The probe is over; the column now has this storage type.
    Done(StataType),
    /// The host refused a call; the batch must be given up.
    Abort,
}

/// The probe-and-restore protocol that widens one host column (counted from
/// one) by storing `probe` at host row 1, then restoring what was there.
#[derive(Clone, Debug, PartialEq, Eq)]
pub struct TypeProbe {
    pub column: usize,
    pub probe: HostValue,
    pub saved: HostValue,
    pub widened: StataType,
    pub step: ProbeStep,
}

impl TypeProbe {
    /// A probe of host column `column`, of storage type `current`, with `probe`.
    pub fn new(column: usize, probe: HostValue, current: StataType) -> (r: Self)
        ensures
            r == (TypeProbe {
                column,
                probe,
                saved: HostValue::Missing,
                widened: current,
                step: ProbeStep::ReadOriginal,
            }),
    {
        TypeProbe { column, probe, saved: HostValue::Missing, widened: current, step: ProbeStep::ReadOriginal }
    }

    pub open spec fn action_spec(self) -> ProbeAction {
        match self.step {
            ProbeStep::ReadOriginal => ProbeAction::Read { column: self.column },
            ProbeStep::StoreProbe => ProbeAction::Store { column: self.column, value: self.probe },
            ProbeStep::QueryType => ProbeAction::QueryType { column: self.column },
            ProbeStep::RestoreOriginal => ProbeAction::StoreFast { column: self.column, value: self.saved },
            ProbeStep::Finished => ProbeAction::Done(self.widened),
            ProbeStep::Aborted => ProbeAction::Abort,
        }
    }

    pub open spec fn receive_spec(self, answer: HostAnswer) -> Self {
        match (self.step, answer) {
            (ProbeStep::ReadOriginal, HostAnswer::Value(v)) => TypeProbe { saved: v, step: ProbeStep::StoreProbe, ..self },
            (ProbeStep::StoreProbe, HostAnswer::Status(s)) => if s == 0 {
                TypeProbe { step: ProbeStep::QueryType, ..self }
            } else {
                TypeProbe { step: ProbeStep::Aborted, ..self }
            },
            (ProbeStep::QueryType, HostAnswer::Type(t)) => TypeProbe { widened: t, step: ProbeStep::RestoreOriginal, ..self },
            (ProbeStep::RestoreOriginal, HostAnswer::Status(s)) => if s == 0 {
                TypeProbe { step: ProbeStep::Finished, ..self }
            } else {
                TypeProbe { step: ProbeStep::Aborted, ..self }
            },
            (ProbeStep::Finished, _) => self,
            _ => TypeProbe { step: ProbeStep::Aborted, ..self },
        }
    }

    /// The host call that the probe needs next.
    pub fn next_action(&self) -> (r: ProbeAction)
        ensures
            r == self.action_spec(),
    {
        match self.step {
            ProbeStep::ReadOriginal => ProbeAction::Read { column: self.column },
            ProbeStep::StoreProbe => ProbeAction::Store { column: self.column, value: self.probe.copied() },
            ProbeStep::QueryType => ProbeAction::QueryType { column: self.column },
            ProbeStep::RestoreOriginal => ProbeAction::StoreFast { column: self.column, value: self.saved.copied() },
            ProbeStep::Finished => ProbeAction::Done(self.widened),
            ProbeStep::Aborted => ProbeAction::Abort,
        }
    }

    /// Takes the host's answer to the call of `next_action`.
    pub fn receive(&mut self, answer: HostAnswer)
        ensures
            *final(self) == old(self).receive_spec(answer),
    {
        match (self.step, answer) {
            (ProbeStep::ReadOriginal, HostAnswer::Value(v)) => {
                self.saved = v;
                self.step = ProbeStep::StoreProbe;
            },
            (ProbeStep::StoreProbe, HostAnswer::Status(s)) => {
                self.step = if s == 0 { ProbeStep::QueryType } else { ProbeStep::Aborted };
            },
            (ProbeStep::QueryType, HostAnswer::Type(t)) => {
                self.widened = t;
                self.step = ProbeStep::RestoreOriginal;
            },
            (ProbeStep::RestoreOriginal, HostAnswer::Status(s)) => {
                self.step = if s == 0 { ProbeStep::Finished } else { ProbeStep::Aborted };
            },
            (ProbeStep::Finished, _) => {},
            _ => {
                self.step = ProbeStep::Aborted;
            },
        }
    }
}

/// What an import does with the host variable of one batch column, before
/// the batch is stored.
#[derive(Copy, Clone, Debug, PartialEq, Eq, Structural)]
pub enum VariableAction {
    /// The variable does not exist yet: create it.
    Create,
    /// The variable (counted from one) needs no check.
    Keep { column: usize },
    /// Check whether the string variable must be widened for the batch.
    CheckString { column: usize },
    /// Check whether the numeric variable of type `current` must be widened.
    CheckNumeric { column: usize, current: StataType },
}

/// What to do with the variable that the host reports at `var_index` (zero or
/// less, or past `n_vars`, where there is none), of storage type `current`.
pub fn plan_variable(var_index: i32, n_vars: i32, current: Option<StataType>) -> (r: VariableAction)
    ensures
        !(0 < var_index <= n_vars) ==> r == VariableAction::Create,
        0 < var_index <= n_vars ==> r == (match current {
            Some(StataType::String) => VariableAction::CheckString { column: var_index as usize },
            Some(StataType::Strl) | None => VariableAction::Keep { column: var_index as usize },
            Some(t) => VariableAction::CheckNumeric { column: var_index as usize, current: t },
        }),
{
    if var_index <= 0 || var_index > n_vars {
        return VariableAction::Create;
    }
    let column = var_index as usize;
    match current {
        Some(StataType::String) => VariableAction::CheckString { column },
        Some(StataType::Strl) | None => VariableAction::Keep { column },
        Some(t) => VariableAction::CheckNumeric { column, current: t },
    }
}

/// The host values of a column of engine type `dtype`.
pub fn column_host_values(dtype: EngineType, values: &Vec<EngineValue>) -> (r: Vec<HostValue>)
    ensures
        r@.len() == values@.len(),
        forall|i: int| 0 <= i < values@.len() ==> #[trigger] r@[i] == host_value_of(dtype, values@[i]),
{
    let mut r: Vec<HostValue> = Vec::new();
    let mut i: usize = 0;
    while i < values.len()
        invariant
            i <= values.len(),
            r@.len() == i,
            forall|k: int| 0 <= k < i ==> #[trigger] r@[k] == host_value_of(dtype, values@[k]),
        decreases values.len() - i,
    {
        r.push(to_host_value(dtype, &values[i]));
        i += 1;
    }
    r
}

/// The probe that widens an existing numeric host column (counted from one)
/// of type `current`, for which the host names `best` as the narrowest type
/// that holds `extreme`, the batch's value of largest magnitude; `None` where
/// the column is wide enough.
pub fn plan_numeric_widening(
    column: usize,
    current: StataType,
    best: StataType,
    extreme: HostValue,
) -> (r: Option<TypeProbe>)
    ensures
        strictly_wider(best, current) ==> r == Some(
            TypeProbe {
                column,
                probe: extreme,
                saved: HostValue::Missing,
                widened: current,
                step: ProbeStep::ReadOriginal,
            },
        ),
        !strictly_wider(best, current) ==> r is None,
{
    if needs_numeric_promotion(current, best) {
        Some(TypeProbe::new(column, extreme, current))
    } else {
        None
    }
}

/// The probe that widens an existing string host column (counted from one)
/// of type `current` and `existing_width` bytes to the widest text among
/// `values`; `None` where the column is wide enough.
pub fn plan_string_widening(
    column: usize,
    current: StataType,
    existing_width: usize,
    values: &Vec<HostValue>,
) -> (r: Option<TypeProbe>)
    ensures
        match r {
            Some(p) => {
                &&& p.column == column
                &&& p.widened == current
                &&& p.step == ProbeStep::ReadOriginal
                &&& p.saved == HostValue::Missing
                &&& p.probe is Text
                &&& p.probe->Text_0@.len() > existing_width
                &&& exists|i: int|
                    0 <= i < values@.len() && (#[trigger] values@[i] matches HostValue::Text(s)
                        && byte_len(s@) == p.probe->Text_0@.len())
                &&& forall|i: int|
                    0 <= i < values@.len() ==> match #[trigger] values@[i] {
                        HostValue::Text(s) => byte_len(s@) <= p.probe->Text_0@.len(),
                        _ => true,
                    }
                &&& forall|k: int| 0 <= k < p.probe->Text_0@.len() ==> p.probe->Text_0@[k] == 'a'
            },
            None => forall|i: int| 0 <= i < values@.len() ==> match #[trigger] values@[i] {
                HostValue::Text(s) => byte_len(s@) <= existing_width,
                _ => true,
            },
        },
{
    let widest = widest_text(values);
    if widest > existing_width {
        let probe = string_probe(widest);
        Some(TypeProbe::new(column, HostValue::Text(probe), current))
    } else {
        None
    }
}

/// A host column as the probe sees it: the value at host row 1, the storage
/// type and, for strings, the width in bytes.  On a type-checking store the
/// host widens the type to one that holds the value (`best` names the
/// narrowest type for a value) and a string column to the text's width; the
/// store that checks no type leaves both as they are.
pub struct HostColumnModel {
    pub row_one: HostValue,
    pub stype: StataType,
    pub width: int,
}

/// The string width after a type-checking store of `v` into a column `w` wide.
pub open spec fn width_after(w: int, v: HostValue) -> int {
    match v {
        HostValue::Text(t) => if byte_len(t@) > w {
            byte_len(t@)
        } else {
            w
        },
        _ => w,
    }
}

/// The storage type after a type-checking store of `v` into a column of type `t`.
pub open spec fn widened_by(t: StataType, v: HostValue, best: spec_fn(HostValue) -> StataType) -> StataType {
    if strictly_wider(best(v), t) {
        best(v)
    } else {
        t
    }
}

/// The host's answer to `action` and the column afterwards.
pub open spec fn host_step(
    m: HostColumnModel,
    action: ProbeAction,
    best: spec_fn(HostValue) -> StataType,
) -> (HostAnswer, HostColumnModel) {
    match action {
        ProbeAction::Read { .. } => (HostAnswer::Value(m.row_one), m),
        ProbeAction::Store { value, .. } => (
            HostAnswer::Status(0),
            HostColumnModel {
                row_one: value,
                stype: widened_by(m.stype, value, best),
                width: width_after(m.width, value),
            },
        ),
        ProbeAction::QueryType { .. } => (HostAnswer::Type(m.stype), m),
        ProbeAction::StoreFast { value, .. } => (
            HostAnswer::Status(0),
            HostColumnModel { row_one: value, stype: m.stype, width: m.width },
        ),
        _ => (HostAnswer::Status(0), m),
    }
}

/// The probe and the column after `n` rounds of call and answer.
pub open spec fn run_probe(
    p: TypeProbe,
    m: HostColumnModel,
    best: spec_fn(HostValue) -> StataType,
    n: nat,
) -> (TypeProbe, HostColumnModel)
    decreases n,
{
    if n == 0 {
        (p, m)
    } else {
        let (answer, m2) = host_step(m, p.action_spec(), best);
        run_probe(p.receive_spec(answer), m2, best, (n - 1) as nat)
    }
}

/// Against a host that accepts the stores, the probe finishes in four rounds;
/// host row 1 then holds the value it held before, the column has the type
/// that the probe reports, and that type stays for later stores that check
/// no type.  Where the probe value needs a wider type, that is the wider type;
/// a string probe leaves the column at least as wide as the probe text.
pub proof fn lemma_probe_restores(
    column: usize,
    probe: HostValue,
    original: HostValue,
    current: StataType,
    best: spec_fn(HostValue) -> StataType,
    later: HostValue,
    width: int,
)
    ensures
        ({
            let p0 = TypeProbe { column, probe, saved: HostValue::Missing, widened: current, step: ProbeStep::ReadOriginal };
            let (p, m) = run_probe(p0, HostColumnModel { row_one: original, stype: current, width }, best, 4);
            &&& p.step == ProbeStep::Finished
            &&& p.action_spec() == ProbeAction::Done(p.widened)
            &&& m.row_one == original
            &&& m.stype == p.widened
            &&& p.widened == widened_by(current, probe, best)
            &&& strictly_wider(best(probe), current) ==> p.widened == best(probe)
            &&& host_step(m, ProbeAction::StoreFast { column, value: later }, best).1.stype == p.widened
            &&& m.width >= width
            &&& (probe matches HostValue::Text(t) ==> m.width >= byte_len(t@))
            &&& host_step(m, ProbeAction::StoreFast { column, value: later }, best).1.width == m.width
        }),
{
    let p0 = TypeProbe { column, probe, saved: HostValue::Missing, widened: current, step: ProbeStep::ReadOriginal };
    let m0 = HostColumnModel { row_one: original, stype: current, width };
    reveal_with_fuel(run_probe, 5);
    let (a1, m1) = host_step(m0, p0.action_spec(), best);
    let p1 = p0.receive_spec(a1);
    assert(p1.saved == original && p1.step == ProbeStep::StoreProbe);
    let (a2, m2) = host_step(m1, p1.action_spec(), best);
    let p2 = p1.receive_spec(a2);
    assert(p2.step == ProbeStep::QueryType);
    assert(m2.stype == widened_by(current, probe, best));
    assert(m2.width == width_after(width, probe));
    let (a3, m3) = host_step(m2, p2.action_spec(), best);
    let p3 = p2.receive_spec(a3);
    assert(p3.widened == widened_by(current, probe, best));
    let (a4, m4) = host_step(m3, p3.action_spec(), best);
    let p4 = p3.receive_spec(a4);
    assert(m4.row_one == original);
    assert(run_probe(p0, m0, best, 4) == (p4, m4));
}

} // verus!
