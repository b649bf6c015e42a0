//! Fixed-point counter values.
//!
//! A [`Value`] is a signed binary fixed-point number with 65 integer bits and
//! 63 fractional bits: the number it stands for is `bits / 2^63`. Counters are
//! 64-bit quantities; the extra integer bit holds the sign of a difference of
//! two of them, and the fractional bits hold what a division leaves.
//!
//! The arithmetic itself is done by the `fixed` crate, on its `I65F63` type.
//! Each operation is reached through one small function of this module whose
//! contract states, over the raw bits, what the operation returns.

use fixed::types::I65F63;
use vstd::prelude::*;

verus! {

/// The raw bits of the number one: `2^63`.
pub open spec fn one() -> int {
    0x8000_0000_0000_0000
}

/// Whether an integer can be the raw bits of a [`Value`].
pub open spec fn fits(bits: int) -> bool {
    i128::MIN <= bits <= i128::MAX
}

/// The quotient of `a` by `b`, rounded toward zero.
pub open spec fn trunc_div(a: int, b: int) -> int
    recommends
        b != 0,
{
    if a >= 0 {
        if b > 0 {
            a / b
        } else {
            -(a / (-b))
        }
    } else {
        if b > 0 {
            -((-a) / b)
        } else {
            (-a) / (-b)
        }
    }
}

/// The absolute value of an integer.
pub open spec fn magnitude(a: int) -> int {
    if a >= 0 {
        a
    } else {
        -a
    }
}

/// A signed fixed-point number: `bits / 2^63`.
#[derive(Clone, Copy, Debug, PartialEq, Eq, Structural)]
pub struct Value {
    pub bits: i128,
}

impl Value {
    /// Whether the number is zero.
    pub fn is_zero(&self) -> (r: bool)
        ensures
            r == (self.bits == 0),
    {
        self.bits == 0
    }
}

/// `I65F63::from_num` on a `u64`: every `u64` can be represented, and the raw
/// bits of the result are the integer times `2^63`.
#[verifier::external_body]
pub(crate) fn fixed_from_u64(v: u64) -> (r: Value)
    ensures
        r.bits == v * one(),
{
    Value { bits: I65F63::from_num(v).to_bits() }
}

/// `I65F63`'s `Sub`: the raw bits of the difference are the difference of
/// the raw bits. The operation overflows where that is out of range, which
/// `requires` leaves out.
#[verifier::external_body]
pub(crate) fn fixed_sub(a: Value, b: Value) -> (r: Value)
    requires
        fits(a.bits - b.bits),
    ensures
        r.bits == a.bits - b.bits,
{
    Value { bits: (I65F63::from_bits(a.bits) - I65F63::from_bits(b.bits)).to_bits() }
}

/// `I65F63`'s `Mul<i128>`: the raw bits are multiplied by the integer. The
/// operation overflows where the product is out of range, which `requires`
/// leaves out.
#[verifier::external_body]
pub(crate) fn fixed_mul_int(a: Value, k: i128) -> (r: Value)
    requires
        fits(a.bits * k),
    ensures
        r.bits == a.bits * k,
{
    Value { bits: (I65F63::from_bits(a.bits) * k).to_bits() }
}

/// `I65F63`'s `Div<i128>`: the raw bits are divided by the integer, and the
/// quotient is rounded toward zero. A zero divisor panics and the least value
/// divided by `-1` overflows; `requires` leaves both out.
#[verifier::external_body]
pub(crate) fn fixed_div_int(a: Value, k: i128) -> (r: Value)
    requires
        k != 0,
        !(a.bits == i128::MIN && k == -1),
    ensures
        r.bits == trunc_div(a.bits as int, k as int),
{
    Value { bits: (I65F63::from_bits(a.bits) / k).to_bits() }
}

/// `I65F63`'s `Div`: the raw bits of the quotient are `a.bits * 2^63`
/// divided by `b.bits`, rounded toward zero. A zero divisor panics and a
/// quotient out of range overflows; `requires` leaves both out.
#[verifier::external_body]
pub(crate) fn fixed_div(a: Value, b: Value) -> (r: Value)
    requires
        b.bits != 0,
        fits(trunc_div(a.bits * one(), b.bits as int)),
    ensures
        r.bits == trunc_div(a.bits * one(), b.bits as int),
{
    Value { bits: (I65F63::from_bits(a.bits) / I65F63::from_bits(b.bits)).to_bits() }
}

/// `I65F63::abs`: the raw bits of the result are the absolute value of the
/// raw bits. The least value has no absolute value in range, which
/// `requires` leaves out.
#[verifier::external_body]
pub(crate) fn fixed_abs(a: Value) -> (r: Value)
    requires
        a.bits > i128::MIN,
    ensures
        r.bits == magnitude(a.bits as int),
{
    Value { bits: I65F63::from_bits(a.bits).abs().to_bits() }
}

/// The decimal text that `I65F63`'s `Display` writes for the number with raw
/// bits `bits` when asked for `places` digits after the decimal point.
pub uninterp spec fn decimal_text(bits: int, places: nat) -> Seq<char>;

/// `I65F63`'s `Display` with a precision: the text depends on the number and
/// on the precision alone. The formatter refuses precisions beyond what it
/// can hold; `requires` admits the few that the library asks for.
#[verifier::external_body]
pub(crate) fn fixed_to_decimal(a: Value, places: usize) -> (r: String)
    requires
        places <= 2,
    ensures
        r@ == decimal_text(a.bits as int, places as nat),
{
    format!("{:.*}", places, I65F63::from_bits(a.bits))
}

} // verus!
