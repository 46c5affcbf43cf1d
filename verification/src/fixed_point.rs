use fixed::types::I80F48;
use vstd::prelude::*;

verus! {

/// The raw bits of the number one: two to the power 48.
pub const ONE_BITS: i128 = 0x1_0000_0000_0000;

/// A signed binary fixed-point number with 80 integer and 48 fractional
/// bits, held by its raw bits: the number stands for `bits / 2^48`.
#[derive(Clone, Copy, Debug, PartialEq, Eq, Structural)]
pub struct Fixed {
    pub bits: i128,
}

/// The quotient of two integers rounded towards zero; `y` is not zero.
pub open spec fn truncated_quotient(x: int, y: int) -> int {
    if x >= 0 && y > 0 {
        x / y
    } else if x >= 0 {
        -(x / (-y))
    } else if y > 0 {
        -((-x) / y)
    } else {
        (-x) / (-y)
    }
}

/// The raw bits of the product of two numbers given by their raw bits: the
/// exact product rounded towards minus infinity, or `None` where that does
/// not fit.
pub open spec fn i80f48_mul(a: i128, b: i128) -> Option<i128> {
    let product = (a * b) / (ONE_BITS as int);
    if i128::MIN <= product <= i128::MAX {
        Some(product as i128)
    } else {
        None
    }
}

/// The raw bits of the quotient of two numbers given by their raw bits: the
/// exact quotient rounded towards zero, or `None` where the divisor is zero
/// or the quotient does not fit.
pub open spec fn i80f48_div(a: i128, b: i128) -> Option<i128> {
    if b == 0 {
        None
    } else {
        let quotient = truncated_quotient(a * ONE_BITS, b as int);
        if i128::MIN <= quotient <= i128::MAX {
            Some(quotient as i128)
        } else {
            None
        }
    }
}

/// The largest integer not above the number with raw bits `bits`.
pub open spec fn floor_of(bits: i128) -> int {
    bits as int / ONE_BITS as int
}

/// `fixed::types::I80F48::checked_mul`, on raw bits: the 256-bit product is
/// shifted right by the 48 fractional bits, which rounds towards minus
/// infinity, and the outcome is `None` exactly where the result does not fit.
#[verifier::external_body]
fn raw_checked_mul(a: i128, b: i128) -> (r: Option<i128>)
    ensures
        r == i80f48_mul(a, b),
{
    match I80F48::from_bits(a).checked_mul(I80F48::from_bits(b)) {
        Some(p) => Some(p.to_bits()),
        None => None,
    }
}

/// `fixed::types::I80F48::checked_div`, on raw bits: the dividend is widened
/// by the 48 fractional bits and divided by sign and magnitude, which rounds
/// towards zero; the outcome is `None` exactly where the divisor is zero or
/// the result does not fit.
#[verifier::external_body]
fn raw_checked_div(a: i128, b: i128) -> (r: Option<i128>)
    ensures
        r == i80f48_div(a, b),
{
    match I80F48::from_bits(a).checked_div(I80F48::from_bits(b)) {
        Some(q) => Some(q.to_bits()),
        None => None,
    }
}

/// `fixed::types::I80F48::checked_to_num::<i64>`, on raw bits: the fractional
/// bits are discarded, which rounds towards minus infinity, and the outcome is
/// `None` exactly where the rounded number does not fit an `i64`.
#[verifier::external_body]
fn raw_checked_floor(bits: i128) -> (r: Option<i64>)
    ensures
        r == (if i64::MIN <= floor_of(bits) <= i64::MAX {
            Some(floor_of(bits) as i64)
        } else {
            None
        }),
{
    I80F48::from_bits(bits).checked_to_num::<i64>()
}

/// Lifts an optional raw result to an optional number.
pub open spec fn lift(raw: Option<i128>) -> Option<Fixed> {
    match raw {
        Some(bits) => Some(Fixed { bits }),
        None => None,
    }
}

impl Fixed {
    /// The absolute value of the raw bits, as a mathematical integer.
    pub open spec fn magnitude(self) -> int {
        if self.bits >= 0 {
            self.bits as int
        } else {
            -(self.bits as int)
        }
    }

    /// The number zero.
    pub fn zero() -> (r: Fixed)
        ensures
            r.bits == 0,
    {
        Fixed { bits: 0 }
    }

    /// The whole number `n`.
    pub fn from_int(n: i64) -> (r: Fixed)
        ensures
            r.bits == n * ONE_BITS,
    {
        Fixed { bits: (n as i128) * ONE_BITS }
    }

    pub fn is_zero(self) -> (r: bool)
        ensures
            r == (self.bits == 0),
    {
        self.bits == 0
    }

    pub fn is_positive(self) -> (r: bool)
        ensures
            r == (self.bits > 0),
    {
        self.bits > 0
    }

    pub fn is_negative(self) -> (r: bool)
        ensures
            r == (self.bits < 0),
    {
        self.bits < 0
    }

    /// The absolute value of the raw bits. Unlike a signed absolute value it
    /// has no exception at the most negative number.
    pub fn abs_bits(self) -> (r: u128)
        ensures
            r == self.magnitude(),
    {
        if self.bits >= 0 {
            self.bits as u128
        } else {
            let above: i128 = self.bits + 1;
            let below: u128 = (-above) as u128;
            below + 1
        }
    }

    /// The product, rounded towards minus infinity, or `None` where it does
    /// not fit.
    pub fn checked_mul(self, rhs: Fixed) -> (r: Option<Fixed>)
        ensures
            r == lift(i80f48_mul(self.bits, rhs.bits)),
    {
        match raw_checked_mul(self.bits, rhs.bits) {
            Some(bits) => Some(Fixed { bits }),
            None => None,
        }
    }

    /// The quotient, rounded towards zero, or `None` where the divisor is
    /// zero or the quotient does not fit.
    pub fn checked_div(self, rhs: Fixed) -> (r: Option<Fixed>)
        ensures
            r == lift(i80f48_div(self.bits, rhs.bits)),
            rhs.bits == 0 ==> r.is_none(),
    {
        match raw_checked_div(self.bits, rhs.bits) {
            Some(bits) => Some(Fixed { bits }),
            None => None,
        }
    }

    /// The largest whole number not above this one, or `None` where it does
    /// not fit an `i64`.
    pub fn checked_floor(self) -> (r: Option<i64>)
        ensures
            r == (if i64::MIN <= floor_of(self.bits) <= i64::MAX {
                Some(floor_of(self.bits) as i64)
            } else {
                None
            }),
    {
        raw_checked_floor(self.bits)
    }
}

} // verus!
