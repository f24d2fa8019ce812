//! Floating-point values, carried as the 64 bits of an IEEE-754 double.
//!
//! Comparison, equality, negation and the zero test are plain functions of
//! the bits and are written and proved here. Arithmetic, decimal parsing and
//! decimal printing are left to the host through [`Host`].

use vstd::prelude::*;

verus! {

/// The sign bit of a double.
pub const SIGN_BIT: u64 = 0x8000_0000_0000_0000;

/// All bits but the sign bit.
pub const MAGNITUDE_MASK: u64 = 0x7fff_ffff_ffff_ffff;

/// The exponent field, all ones.
pub const EXP_MASK: u64 = 0x7ff0_0000_0000_0000;

/// The mantissa field.
pub const MANT_MASK: u64 = 0x000f_ffff_ffff_ffff;

/// The arithmetic that the language does on floats.
#[derive(Debug, Clone, Copy, PartialEq, Eq, Structural)]
pub enum FloatBinOp {
    Add,
    Sub,
    Mul,
    Div,
    Rem,
}

/// What the program's host supplies: floating-point arithmetic, decimal
/// conversion of doubles, and lines of input. Doubles are passed as their
/// IEEE-754 bits. Every contract in this crate holds whatever these methods
/// return.
pub trait Host {
    /// The bits of the double written by a decimal literal `digits.digits`.
    fn parse_literal(&self, text: &str) -> u64;

    /// The bits of `a op b`.
    fn binary(&self, op: FloatBinOp, a: u64, b: u64) -> u64;

    /// The text that `print` shows for the double `a`.
    fn display(&self, a: u64) -> String;

    /// The next line of input, as `input()` reads it (its line ending may
    /// still be attached); empty at the end of input.
    fn read_line(&mut self) -> String;
}

/// Whether the bits are a NaN.
pub open spec fn spec_is_nan(a: u64) -> bool {
    (a & EXP_MASK) == EXP_MASK && (a & MANT_MASK) != 0
}

/// Whether the bits are +0.0 or -0.0.
pub open spec fn spec_is_zero(a: u64) -> bool {
    (a & MAGNITUDE_MASK) == 0
}

/// IEEE-754 equality: NaN equals nothing, and the two zeros are equal.
pub open spec fn spec_float_eq(a: u64, b: u64) -> bool {
    !spec_is_nan(a) && !spec_is_nan(b) && (a == b || (spec_is_zero(a) && spec_is_zero(b)))
}

/// A number that orders non-NaN doubles as their values are ordered.
pub open spec fn float_key(a: u64) -> int {
    if (a & SIGN_BIT) == 0 {
        (a & MAGNITUDE_MASK) as int
    } else {
        -((a & MAGNITUDE_MASK) as int)
    }
}

/// Three-way comparison of two doubles: -1, 0 or 1; `None` when either is NaN.
pub open spec fn spec_float_order(a: u64, b: u64) -> Option<i8> {
    if spec_is_nan(a) || spec_is_nan(b) {
        None
    } else if float_key(a) < float_key(b) {
        Some(-1i8)
    } else if float_key(a) == float_key(b) {
        Some(0i8)
    } else {
        Some(1i8)
    }
}

/// Negation flips the sign bit.
pub open spec fn spec_float_neg(a: u64) -> u64 {
    a ^ SIGN_BIT
}

pub fn is_nan(a: u64) -> (r: bool)
    ensures
        r == spec_is_nan(a),
{
    (a & EXP_MASK) == EXP_MASK && (a & MANT_MASK) != 0
}

pub fn is_zero(a: u64) -> (r: bool)
    ensures
        r == spec_is_zero(a),
{
    (a & MAGNITUDE_MASK) == 0
}

/// `a == b` on doubles.
pub fn float_eq(a: u64, b: u64) -> (r: bool)
    ensures
        r == spec_float_eq(a, b),
{
    !is_nan(a) && !is_nan(b) && (a == b || (is_zero(a) && is_zero(b)))
}

/// `a.partial_cmp(b)` on doubles, as -1, 0 or 1.
pub fn float_order(a: u64, b: u64) -> (r: Option<i8>)
    ensures
        r == spec_float_order(a, b),
{
    if is_nan(a) || is_nan(b) {
        return None;
    }
    let ma: u64 = a & MAGNITUDE_MASK;
    let mb: u64 = b & MAGNITUDE_MASK;
    let na: bool = (a & SIGN_BIT) != 0;
    let nb: bool = (b & SIGN_BIT) != 0;
    // keys: non-negative sign gives the magnitude, negative sign its negation
    if !na && !nb {
        if ma < mb { Some(-1i8) } else if ma == mb { Some(0i8) } else { Some(1i8) }
    } else if na && nb {
        if mb < ma { Some(-1i8) } else if ma == mb { Some(0i8) } else { Some(1i8) }
    } else if na {
        // -ma against mb
        if ma == 0 && mb == 0 { Some(0i8) } else { Some(-1i8) }
    } else {
        if ma == 0 && mb == 0 { Some(0i8) } else { Some(1i8) }
    }
}

/// `-a` on doubles.
pub fn float_neg(a: u64) -> (r: u64)
    ensures
        r == spec_float_neg(a),
{
    a ^ SIGN_BIT
}

} // verus!
