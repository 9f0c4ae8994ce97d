//! Floating-point values as the bit patterns that carry them.
//!
//! A value is held by its IEEE 754 encoding, so everything that reads a number without
//! computing a new one (comparing, ordering, picking, moving over the wire) is plain integer
//! logic.  Arithmetic that makes new numbers is supplied by the caller, see [`crate::arith`].

use core::cmp::Ordering;
use vstd::prelude::*;

verus! {

/// A single-precision number, by its encoding.
#[derive(Clone, Copy, Debug)]
pub struct F32 {
    pub bits: u32,
}

/// A double-precision number, by its encoding.
#[derive(Clone, Copy, Debug)]
pub struct F64 {
    pub bits: u64,
}

/// Encoding of the single-precision `1.0`.
pub const ONE_BITS_32: u32 = 0x3f80_0000;

/// Encoding of the single-precision negative zero, from which sums start.
pub const NEGATIVE_ZERO_BITS_32: u32 = 0x8000_0000;

/// Encoding of the single-precision negative infinity.
pub const NEGATIVE_INFINITY_BITS_32: u32 = 0xff80_0000;

/// Encoding of the double-precision `1.0`.
pub const ONE_BITS_64: u64 = 0x3ff0_0000_0000_0000;

/// Encoding of the double-precision negative zero, from which sums start.
pub const NEGATIVE_ZERO_BITS_64: u64 = 0x8000_0000_0000_0000;

impl F32 {
    /// The value with the sign removed, as an integer that grows with the magnitude.
    pub open spec fn magnitude(self) -> int {
        self.bits as int % 0x8000_0000
    }

    pub open spec fn is_negative(self) -> bool {
        self.bits >= 0x8000_0000
    }

    pub open spec fn is_not_a_number(self) -> bool {
        self.magnitude() > 0x7f80_0000
    }

    /// The place of the value on the number line: both zeros are at 0, and a number is below
    /// another exactly when its place is.
    pub open spec fn place(self) -> int {
        if self.is_negative() {
            -self.magnitude()
        } else {
            self.magnitude()
        }
    }

    /// `self < other`, which no not-a-number takes part in.
    pub open spec fn below(self, other: F32) -> bool {
        &&& !self.is_not_a_number()
        &&& !other.is_not_a_number()
        &&& self.place() < other.place()
    }

    /// `self == other`: both zeros are equal, a not-a-number equals nothing.
    pub open spec fn same_number(self, other: F32) -> bool {
        &&& !self.is_not_a_number()
        &&& !other.is_not_a_number()
        &&& self.place() == other.place()
    }

    /// The value if it is above zero, else zero: negative numbers and not-a-numbers are cut off.
    pub open spec fn clipped(self) -> F32 {
        if zero_32().below(self) {
            self
        } else {
            zero_32()
        }
    }

    pub fn from_bits(bits: u32) -> (r: F32)
        ensures
            r == (F32 { bits }),
    {
        F32 { bits }
    }

    pub fn to_bits(self) -> (r: u32)
        ensures
            r == self.bits,
    {
        self.bits
    }

    pub fn is_nan(self) -> (r: bool)
        ensures
            r == self.is_not_a_number(),
    {
        self.bits % 0x8000_0000 > 0x7f80_0000
    }

    /// The place of the value on the number line.
    pub fn line_place(self) -> (r: i64)
        ensures
            r == self.place(),
            -0x8000_0000 < r < 0x8000_0000,
    {
        let magnitude: i64 = (self.bits % 0x8000_0000) as i64;
        if self.bits >= 0x8000_0000 {
            -magnitude
        } else {
            magnitude
        }
    }

    pub fn is_below(self, other: F32) -> (r: bool)
        ensures
            r == self.below(other),
    {
        !self.is_nan() && !other.is_nan() && self.line_place() < other.line_place()
    }

    /// Cuts off what is not above zero.
    pub fn clip(self) -> (r: F32)
        ensures
            r == self.clipped(),
    {
        let zero = F32 { bits: 0 };
        if zero.is_below(self) {
            self
        } else {
            zero
        }
    }
}

impl F64 {
    /// The value with the sign removed, as an integer that grows with the magnitude.
    pub open spec fn magnitude(self) -> int {
        self.bits as int % 0x8000_0000_0000_0000
    }

    pub open spec fn is_negative(self) -> bool {
        self.bits >= 0x8000_0000_0000_0000
    }

    pub open spec fn is_not_a_number(self) -> bool {
        self.magnitude() > 0x7ff0_0000_0000_0000
    }

    /// The place of the value on the number line: both zeros are at 0, and a number is below
    /// another exactly when its place is.
    pub open spec fn place(self) -> int {
        if self.is_negative() {
            -self.magnitude()
        } else {
            self.magnitude()
        }
    }

    /// `self < other`, which no not-a-number takes part in.
    pub open spec fn below(self, other: F64) -> bool {
        &&& !self.is_not_a_number()
        &&& !other.is_not_a_number()
        &&& self.place() < other.place()
    }

    /// `self == other`: both zeros are equal, a not-a-number equals nothing.
    pub open spec fn same_number(self, other: F64) -> bool {
        &&& !self.is_not_a_number()
        &&& !other.is_not_a_number()
        &&& self.place() == other.place()
    }

    /// The value if it is above zero, else zero: negative numbers and not-a-numbers are cut off.
    pub open spec fn clipped(self) -> F64 {
        if zero_64().below(self) {
            self
        } else {
            zero_64()
        }
    }

    pub fn from_bits(bits: u64) -> (r: F64)
        ensures
            r == (F64 { bits }),
    {
        F64 { bits }
    }

    pub fn to_bits(self) -> (r: u64)
        ensures
            r == self.bits,
    {
        self.bits
    }

    pub fn is_nan(self) -> (r: bool)
        ensures
            r == self.is_not_a_number(),
    {
        self.bits % 0x8000_0000_0000_0000 > 0x7ff0_0000_0000_0000
    }

    /// The place of the value on the number line.
    pub fn line_place(self) -> (r: i64)
        ensures
            r == self.place(),
            -0x8000_0000_0000_0000 < r < 0x8000_0000_0000_0000,
    {
        let magnitude: i64 = (self.bits % 0x8000_0000_0000_0000) as i64;
        if self.bits >= 0x8000_0000_0000_0000 {
            -magnitude
        } else {
            magnitude
        }
    }

    pub fn is_below(self, other: F64) -> (r: bool)
        ensures
            r == self.below(other),
    {
        !self.is_nan() && !other.is_nan() && self.line_place() < other.line_place()
    }

    /// Cuts off what is not above zero.
    pub fn clip(self) -> (r: F64)
        ensures
            r == self.clipped(),
    {
        let zero = F64 { bits: 0 };
        if zero.is_below(self) {
            self
        } else {
            zero
        }
    }

    /// The larger of an accumulated maximum and the next value, where a not-a-number never wins.
    pub fn at_least(self, other: F64) -> (r: F64)
        ensures
            r == (if self.below(other) {
                other
            } else {
                self
            }),
    {
        if self.is_below(other) {
            other
        } else {
            self
        }
    }
}

pub open spec fn zero_32() -> F32 {
    F32 { bits: 0 }
}

pub open spec fn one_32() -> F32 {
    F32 { bits: ONE_BITS_32 }
}

pub open spec fn negative_zero_32() -> F32 {
    F32 { bits: NEGATIVE_ZERO_BITS_32 }
}

pub open spec fn negative_infinity_32() -> F32 {
    F32 { bits: NEGATIVE_INFINITY_BITS_32 }
}

pub open spec fn zero_64() -> F64 {
    F64 { bits: 0 }
}

pub open spec fn one_64() -> F64 {
    F64 { bits: ONE_BITS_64 }
}

pub open spec fn negative_zero_64() -> F64 {
    F64 { bits: NEGATIVE_ZERO_BITS_64 }
}

/// How two places on the number line compare.
pub open spec fn place_order(a: int, b: int) -> Ordering {
    if a < b {
        Ordering::Less
    } else if a == b {
        Ordering::Equal
    } else {
        Ordering::Greater
    }
}

impl PartialEq for F32 {
    fn eq(&self, other: &F32) -> (r: bool) {
        !self.is_nan() && !other.is_nan() && self.line_place() == other.line_place()
    }
}

impl vstd::std_specs::cmp::PartialEqSpecImpl for F32 {
    open spec fn obeys_eq_spec() -> bool {
        true
    }

    open spec fn eq_spec(&self, other: &F32) -> bool {
        self.same_number(*other)
    }
}

impl PartialEq for F64 {
    fn eq(&self, other: &F64) -> (r: bool) {
        !self.is_nan() && !other.is_nan() && self.line_place() == other.line_place()
    }
}

impl vstd::std_specs::cmp::PartialEqSpecImpl for F64 {
    open spec fn obeys_eq_spec() -> bool {
        true
    }

    open spec fn eq_spec(&self, other: &F64) -> bool {
        self.same_number(*other)
    }
}

impl PartialOrd for F32 {
    fn partial_cmp(&self, other: &F32) -> (r: Option<Ordering>) {
        if self.is_nan() || other.is_nan() {
            None
        } else if self.line_place() < other.line_place() {
            Some(Ordering::Less)
        } else if self.line_place() == other.line_place() {
            Some(Ordering::Equal)
        } else {
            Some(Ordering::Greater)
        }
    }
}

impl vstd::std_specs::cmp::PartialOrdSpecImpl for F32 {
    open spec fn obeys_partial_cmp_spec() -> bool {
        true
    }

    open spec fn partial_cmp_spec(&self, other: &F32) -> Option<Ordering> {
        if self.is_not_a_number() || other.is_not_a_number() {
            None
        } else {
            Some(place_order(self.place(), other.place()))
        }
    }
}

impl PartialOrd for F64 {
    fn partial_cmp(&self, other: &F64) -> (r: Option<Ordering>) {
        if self.is_nan() || other.is_nan() {
            None
        } else if self.line_place() < other.line_place() {
            Some(Ordering::Less)
        } else if self.line_place() == other.line_place() {
            Some(Ordering::Equal)
        } else {
            Some(Ordering::Greater)
        }
    }
}

impl vstd::std_specs::cmp::PartialOrdSpecImpl for F64 {
    open spec fn obeys_partial_cmp_spec() -> bool {
        true
    }

    open spec fn partial_cmp_spec(&self, other: &F64) -> Option<Ordering> {
        if self.is_not_a_number() || other.is_not_a_number() {
            None
        } else {
            Some(place_order(self.place(), other.place()))
        }
    }
}

/// Numbers are ordered like their places: `below` is irreflexive and transitive, and any two
/// values that are numbers are in one of the two orders or equal.
pub proof fn law_numbers_are_totally_ordered(a: F32, b: F32, c: F32)
    requires
        !a.is_not_a_number(),
        !b.is_not_a_number(),
    ensures
        !a.below(a),
        a.below(b) && b.below(c) ==> a.below(c),
        a.below(b) || b.below(a) || a.same_number(b),
        !(a.below(b) && b.below(a)),
{
}

} // verus!
