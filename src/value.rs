//! Runtime values. A number is held as its IEEE 754 binary64 encoding; the
//! operations that need no rounding (negation, comparison, equality, the zero
//! test) are computed here on the bits, exactly as IEEE 754 defines them.
use vstd::prelude::*;

verus! {

pub const SIGN_BIT: u64 = 0x8000_0000_0000_0000;

pub const MAGNITUDE_MASK: u64 = 0x7FFF_FFFF_FFFF_FFFF;

pub const INFINITY_BITS: u64 = 0x7FF0_0000_0000_0000;

/// A 64-bit floating-point number, as its bit pattern.
#[derive(Debug, Clone, Copy, PartialEq, Eq, Structural)]
pub struct Number {
    pub bits: u64,
}

pub open spec fn magnitude(b: u64) -> u64 {
    b & MAGNITUDE_MASK
}

pub open spec fn is_negative(b: u64) -> bool {
    b & SIGN_BIT != 0
}

pub open spec fn is_nan(b: u64) -> bool {
    magnitude(b) > INFINITY_BITS
}

pub open spec fn is_zero(b: u64) -> bool {
    magnitude(b) == 0
}

/// Where the number stands on the number line: the order of binary64
/// values that are not NaN is the order of their signed magnitudes.
pub open spec fn order_key(b: u64) -> int {
    if is_negative(b) {
        -(magnitude(b) as int)
    } else {
        magnitude(b) as int
    }
}

pub open spec fn float_eq(a: u64, b: u64) -> bool {
    !is_nan(a) && !is_nan(b) && order_key(a) == order_key(b)
}

pub open spec fn float_lt(a: u64, b: u64) -> bool {
    !is_nan(a) && !is_nan(b) && order_key(a) < order_key(b)
}

pub open spec fn float_le(a: u64, b: u64) -> bool {
    !is_nan(a) && !is_nan(b) && order_key(a) <= order_key(b)
}

pub open spec fn float_neg(b: u64) -> u64 {
    b ^ SIGN_BIT
}

proof fn lemma_bits(b: u64)
    ensures
        (b & SIGN_BIT != 0) == (b >= SIGN_BIT),
        b & MAGNITUDE_MASK == (if b >= SIGN_BIT { (b - SIGN_BIT) as u64 } else { b }),
{
    assert((b & 0x8000_0000_0000_0000u64 != 0) == (b >= 0x8000_0000_0000_0000u64)) by (bit_vector);
    assert(b & 0x7FFF_FFFF_FFFF_FFFFu64 == (if b >= 0x8000_0000_0000_0000u64 {
        (b - 0x8000_0000_0000_0000u64) as u64
    } else {
        b
    })) by (bit_vector);
}

impl Number {
    pub fn is_nan(&self) -> (r: bool)
        ensures
            r == is_nan(self.bits),
    {
        (self.bits & MAGNITUDE_MASK) > INFINITY_BITS
    }

    pub fn is_zero(&self) -> (r: bool)
        ensures
            r == is_zero(self.bits),
    {
        (self.bits & MAGNITUDE_MASK) == 0
    }

    /// The number with the opposite sign.
    pub fn negate(&self) -> (r: Number)
        ensures
            r.bits == float_neg(self.bits),
    {
        Number { bits: self.bits ^ SIGN_BIT }
    }

    /// IEEE equality: NaN equals nothing, the two zeros are equal.
    pub fn equals(&self, other: &Number) -> (r: bool)
        ensures
            r == float_eq(self.bits, other.bits),
    {
        proof {
            lemma_bits(self.bits);
            lemma_bits(other.bits);
        }
        if self.is_nan() || other.is_nan() {
            false
        } else if self.is_zero() && other.is_zero() {
            true
        } else {
            self.bits == other.bits
        }
    }

    /// IEEE `<`.
    pub fn less(&self, other: &Number) -> (r: bool)
        ensures
            r == float_lt(self.bits, other.bits),
    {
        proof {
            lemma_bits(self.bits);
            lemma_bits(other.bits);
        }
        if self.is_nan() || other.is_nan() {
            return false;
        }
        let a = self.bits & MAGNITUDE_MASK;
        let b = other.bits & MAGNITUDE_MASK;
        let na = (self.bits & SIGN_BIT) != 0;
        let nb = (other.bits & SIGN_BIT) != 0;
        if !na && !nb {
            a < b
        } else if na && nb {
            b < a
        } else if na {
            !(a == 0 && b == 0)
        } else {
            false
        }
    }

    /// IEEE `<=`.
    pub fn less_equal(&self, other: &Number) -> (r: bool)
        ensures
            r == float_le(self.bits, other.bits),
    {
        if self.is_nan() || other.is_nan() {
            false
        } else {
            !other.less(self)
        }
    }
}

/// A runtime value, as mathematics sees it.
pub enum Val {
    Str(Seq<char>),
    Num(u64),
    Bool(bool),
    Nil,
}

/// A runtime value.
#[derive(Debug, Clone, PartialEq)]
pub enum LiteralValue {
    StringLiteral(String),
    NumberLiteral(Number),
    BooleanLiteral(bool),
    Nil,
}

/// Only nil and false are falsy.
pub open spec fn truthy(v: Val) -> bool {
    match v {
        Val::Nil => false,
        Val::Bool(b) => b,
        _ => true,
    }
}

/// Equality by type: values of different types are never equal; numbers
/// compare as IEEE numbers.
pub open spec fn values_equal(a: Val, b: Val) -> bool {
    match (a, b) {
        (Val::Str(x), Val::Str(y)) => x == y,
        (Val::Num(x), Val::Num(y)) => float_eq(x, y),
        (Val::Bool(x), Val::Bool(y)) => x == y,
        (Val::Nil, Val::Nil) => true,
        _ => false,
    }
}

impl LiteralValue {
    pub open spec fn view(&self) -> Val {
        match self {
            LiteralValue::StringLiteral(s) => Val::Str(s@),
            LiteralValue::NumberLiteral(n) => Val::Num(n.bits),
            LiteralValue::BooleanLiteral(b) => Val::Bool(*b),
            LiteralValue::Nil => Val::Nil,
        }
    }

    /// A copy equal to this value.
    pub fn duplicate(&self) -> (r: LiteralValue)
        ensures
            r == *self,
    {
        match self {
            LiteralValue::StringLiteral(s) => LiteralValue::StringLiteral(s.clone()),
            LiteralValue::NumberLiteral(n) => LiteralValue::NumberLiteral(*n),
            LiteralValue::BooleanLiteral(b) => LiteralValue::BooleanLiteral(*b),
            LiteralValue::Nil => LiteralValue::Nil,
        }
    }

    pub fn is_truthy(&self) -> (r: bool)
        ensures
            r == truthy(self@),
    {
        match self {
            LiteralValue::Nil => false,
            LiteralValue::BooleanLiteral(b) => *b,
            _ => true,
        }
    }

    pub fn equals(&self, other: &LiteralValue) -> (r: bool)
        ensures
            r == values_equal(self@, other@),
    {
        match (self, other) {
            (LiteralValue::StringLiteral(x), LiteralValue::StringLiteral(y)) => x.eq(y),
            (LiteralValue::NumberLiteral(x), LiteralValue::NumberLiteral(y)) => x.equals(y),
            (LiteralValue::BooleanLiteral(x), LiteralValue::BooleanLiteral(y)) => *x == *y,
            (LiteralValue::Nil, LiteralValue::Nil) => true,
            _ => false,
        }
    }
}

/// The two values are of one type.
pub open spec fn same_type(a: Val, b: Val) -> bool {
    match (a, b) {
        (Val::Str(_), Val::Str(_)) => true,
        (Val::Num(_), Val::Num(_)) => true,
        (Val::Bool(_), Val::Bool(_)) => true,
        (Val::Nil, Val::Nil) => true,
        _ => false,
    }
}

/// Only nil and false are falsy: every number (zero too) and every string
/// (the empty one, and the text `false`, too) is truthy.
pub proof fn lemma_truthiness(v: Val)
    ensures
        truthy(v) <==> !(v == Val::Nil || v == Val::Bool(false)),
        v matches Val::Num(_) ==> truthy(v),
        v matches Val::Str(_) ==> truthy(v),
{
}

/// Equality is type-aware: values of different types are never equal, and
/// equal values are of one type.
pub proof fn lemma_equality_type_aware(a: Val, b: Val)
    ensures
        !same_type(a, b) ==> !values_equal(a, b),
        values_equal(a, b) ==> same_type(a, b),
{
}

} // verus!
