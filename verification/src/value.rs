//! Runtime values.
//!
//! A number is an IEEE-754 double held as its 64-bit pattern: one sign bit,
//! eleven exponent bits, fifty-two fraction bits. Comparison and negation
//! are defined on the pattern; arithmetic is supplied by the host.

use crate::object::LoxObject;
use std::rc::Rc;
use vstd::prelude::*;

verus! {

/// The sign bit of a double.
pub const SIGN_BIT: u64 = 0x8000_0000_0000_0000;

/// Every bit of a double but the sign.
pub const MAGNITUDE_MASK: u64 = 0x7fff_ffff_ffff_ffff;

/// The pattern of positive infinity: all exponent bits, no fraction bit.
pub const INFINITY_BITS: u64 = 0x7ff0_0000_0000_0000;

/// The pattern without its sign bit.
pub open spec fn magnitude(bits: u64) -> u64 {
    bits & MAGNITUDE_MASK
}

/// The pattern stands for no number: all exponent bits set and a fraction
/// that is not zero.
pub open spec fn is_nan(bits: u64) -> bool {
    magnitude(bits) > INFINITY_BITS
}

/// The sign bit is set.
pub open spec fn is_negative(bits: u64) -> bool {
    bits >= SIGN_BIT
}

/// An integer that orders the patterns as the doubles they stand for are
/// ordered; both zeros get 0.
pub open spec fn order_key(bits: u64) -> int {
    if is_negative(bits) {
        -(magnitude(bits) as int)
    } else {
        magnitude(bits) as int
    }
}

/// IEEE-754 `==`: false where either side is NaN, and the two zeros are equal.
pub open spec fn number_equal(left: u64, right: u64) -> bool {
    !is_nan(left) && !is_nan(right) && order_key(left) == order_key(right)
}

/// IEEE-754 `<`: false where either side is NaN.
pub open spec fn number_less(left: u64, right: u64) -> bool {
    !is_nan(left) && !is_nan(right) && order_key(left) < order_key(right)
}

/// IEEE-754 negation: the same pattern with the sign bit flipped.
pub open spec fn number_negated(bits: u64) -> u64 {
    bits ^ SIGN_BIT
}

proof fn lemma_magnitude(bits: u64)
    ensures
        magnitude(bits) <= MAGNITUDE_MASK,
        bits < SIGN_BIT ==> magnitude(bits) == bits,
        bits >= SIGN_BIT ==> magnitude(bits) == bits - SIGN_BIT,
{
    assert(bits & 0x7fff_ffff_ffff_ffff <= 0x7fff_ffff_ffff_ffff) by (bit_vector);
    assert(bits < 0x8000_0000_0000_0000 ==> bits & 0x7fff_ffff_ffff_ffff == bits)
        by (bit_vector);
    assert(bits >= 0x8000_0000_0000_0000 ==> bits & 0x7fff_ffff_ffff_ffff == (bits
        - 0x8000_0000_0000_0000) as u64) by (bit_vector);
}

/// Negating twice gives the pattern back, and negation mirrors the order.
pub proof fn lemma_negation(bits: u64)
    ensures
        number_negated(number_negated(bits)) == bits,
        magnitude(number_negated(bits)) == magnitude(bits),
        is_negative(number_negated(bits)) == !is_negative(bits),
        is_nan(number_negated(bits)) == is_nan(bits),
        order_key(number_negated(bits)) == -order_key(bits),
{
    assert((bits ^ 0x8000_0000_0000_0000) ^ 0x8000_0000_0000_0000 == bits) by (bit_vector);
    assert((bits ^ 0x8000_0000_0000_0000) & 0x7fff_ffff_ffff_ffff == bits
        & 0x7fff_ffff_ffff_ffff) by (bit_vector);
    assert(((bits ^ 0x8000_0000_0000_0000) >= 0x8000_0000_0000_0000) == !(bits
        >= 0x8000_0000_0000_0000)) by (bit_vector);
}

/// Tells whether the pattern is a NaN.
pub fn bits_are_nan(bits: u64) -> (nan: bool)
    ensures
        nan == is_nan(bits),
{
    (bits & MAGNITUDE_MASK) > INFINITY_BITS
}

/// Compares two doubles given by their patterns with IEEE-754 `==`.
pub fn numbers_equal(left: u64, right: u64) -> (equal: bool)
    ensures
        equal == number_equal(left, right),
{
    proof {
        lemma_magnitude(left);
        lemma_magnitude(right);
    }
    if bits_are_nan(left) || bits_are_nan(right) {
        return false;
    }
    let left_magnitude = left & MAGNITUDE_MASK;
    let right_magnitude = right & MAGNITUDE_MASK;
    left == right || (left_magnitude == 0 && right_magnitude == 0)
}

/// Compares two doubles given by their patterns with IEEE-754 `<`.
pub fn numbers_less(left: u64, right: u64) -> (less: bool)
    ensures
        less == number_less(left, right),
{
    proof {
        lemma_magnitude(left);
        lemma_magnitude(right);
    }
    if bits_are_nan(left) || bits_are_nan(right) {
        return false;
    }
    let left_magnitude = left & MAGNITUDE_MASK;
    let right_magnitude = right & MAGNITUDE_MASK;
    if left >= SIGN_BIT {
        if right >= SIGN_BIT {
            left_magnitude > right_magnitude
        } else {
            left_magnitude != 0 || right_magnitude != 0
        }
    } else {
        right < SIGN_BIT && left_magnitude < right_magnitude
    }
}

/// Negates a double given by its pattern.
pub fn negate_number(bits: u64) -> (negated: u64)
    ensures
        negated == number_negated(bits),
{
    bits ^ SIGN_BIT
}

/// Another handle to the same object, by `Rc::clone`.
#[verifier::external_body]
fn share_object(object: &Rc<LoxObject>) -> (shared: Rc<LoxObject>)
    ensures
        shared == *object,
{
    Rc::clone(object)
}

#[derive(Debug, Clone)]
pub enum Value {
    NilValue,
    BoolValue(bool),
    /// An IEEE-754 double, held as its bit pattern.
    NumberValue(u64),
    ObjValue(Rc<LoxObject>),
}

impl Value {
    pub fn nil() -> (value: Value)
        ensures
            value == Value::NilValue,
    {
        Value::NilValue
    }

    pub fn bool(val: bool) -> (value: Value)
        ensures
            value == Value::BoolValue(val),
    {
        Value::BoolValue(val)
    }

    /// The number with the bit pattern `bits`.
    pub fn number(bits: u64) -> (value: Value)
        ensures
            value == Value::NumberValue(bits),
    {
        Value::NumberValue(bits)
    }

    /// A string object holding `contents`.
    pub fn string(contents: String) -> (value: Value)
        ensures
            value == Value::ObjValue(Rc::new(LoxObject::String(contents))),
    {
        Value::ObjValue(Rc::new(LoxObject::String(contents)))
    }

    /// The bit pattern of a number.
    pub fn as_number(&self) -> (bits: u64)
        requires
            self is NumberValue,
        ensures
            *self == Value::NumberValue(bits),
    {
        match self {
            Value::NumberValue(val) => *val,
            _ => 0,
        }
    }

    pub fn is_number(&self) -> (number: bool)
        ensures
            number == (self is NumberValue),
    {
        match self {
            Value::NumberValue(_) => true,
            _ => false,
        }
    }

    pub fn is_string(&self) -> (string: bool)
        ensures
            string == (self is ObjValue),
    {
        match self {
            Value::ObjValue(obj) => {
                match **obj {
                    LoxObject::String(_) => true,
                }
            },
            _ => false,
        }
    }

    /// A copy of the value; an object is shared, not copied.
    pub fn duplicate(&self) -> (copy: Value)
        ensures
            copy == *self,
    {
        match self {
            Value::NilValue => Value::NilValue,
            Value::BoolValue(val) => Value::BoolValue(*val),
            Value::NumberValue(val) => Value::NumberValue(*val),
            Value::ObjValue(obj) => Value::ObjValue(share_object(obj)),
        }
    }
}

} // verus!
