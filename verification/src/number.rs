//! JSON numbers as a closed union of three disjoint shapes.
//!
//! Floating-point values are carried as their IEEE 754 binary64 bit pattern, so
//! that every operation on a number is integer arithmetic on plain values.
use crate::binary64::nearest_binary64;
use crate::binary64::nearest_binary64_signed;
use crate::binary64::widen_signed;
use crate::binary64::widen_unsigned;
use core::hash::Hash;
use core::hash::Hasher;
use vstd::prelude::*;
use vstd::std_specs::cmp::PartialEqSpecImpl;
use vstd::std_specs::convert::FromSpecImpl;

verus! {

/// Mask of the eleven exponent bits of a binary64 pattern.
pub const EXPONENT_MASK: u64 = 0x7ff0_0000_0000_0000;

/// Mask of everything but the sign bit of a binary64 pattern.
pub const MAGNITUDE_MASK: u64 = 0x7fff_ffff_ffff_ffff;

/// Mask of the sign bit of a binary64 pattern.
pub const SIGN_MASK: u64 = 0x8000_0000_0000_0000;

/// The mathematical content of a [`Number`].
pub enum NumberView {
    /// A non-negative integer.
    PosInt(u64),
    /// An integer; well-formed numbers hold only strictly negative ones here.
    NegInt(i64),
    /// A binary64 bit pattern; well-formed numbers hold only finite ones here.
    Float(u64),
}

/// The pattern denotes neither an infinity nor a NaN.
pub open spec fn bits_finite(bits: u64) -> bool {
    bits & EXPONENT_MASK != EXPONENT_MASK
}

/// The pattern denotes a NaN: all exponent bits set and a non-zero fraction.
pub open spec fn bits_nan(bits: u64) -> bool {
    bits & MAGNITUDE_MASK > EXPONENT_MASK
}

/// The pattern denotes positive or negative zero.
pub open spec fn bits_zero(bits: u64) -> bool {
    bits & MAGNITUDE_MASK == 0
}

/// Equality of two binary64 patterns as floating-point values: a NaN equals
/// nothing, the two zeros equal each other, and every other value equals only
/// its own pattern.
pub open spec fn bits_equal(a: u64, b: u64) -> bool {
    &&& !bits_nan(a)
    &&& !bits_nan(b)
    &&& (a == b || (bits_zero(a) && bits_zero(b)))
}

/// The pattern with both zeros collapsed onto positive zero.
pub open spec fn canonical_bits(bits: u64) -> u64 {
    if bits_zero(bits) {
        0
    } else {
        bits
    }
}

impl NumberView {
    /// The invariant of a number: negative integers are strictly negative and
    /// floats are finite.
    pub open spec fn wf(self) -> bool {
        match self {
            NumberView::PosInt(_) => true,
            NumberView::NegInt(v) => v < 0,
            NumberView::Float(bits) => bits_finite(bits),
        }
    }

    /// Variant-exact equality: numbers of different shapes are never equal,
    /// integers are equal when their values are, floats when they compare
    /// equal as floating-point values.
    pub open spec fn equal(self, other: NumberView) -> bool {
        match (self, other) {
            (NumberView::PosInt(a), NumberView::PosInt(b)) => a == b,
            (NumberView::NegInt(a), NumberView::NegInt(b)) => a == b,
            (NumberView::Float(a), NumberView::Float(b)) => bits_equal(a, b),
            _ => false,
        }
    }

    /// The integer that the number denotes, where it is one of the integral
    /// shapes.
    pub open spec fn integer(self) -> Option<int> {
        match self {
            NumberView::PosInt(v) => Some(v as int),
            NumberView::NegInt(v) => Some(v as int),
            NumberView::Float(_) => None,
        }
    }

    /// Whether the number is an integer in the range of a signed 64-bit
    /// integer.
    pub open spec fn is_i64(self) -> bool {
        match self {
            NumberView::PosInt(v) => v <= i64::MAX,
            NumberView::NegInt(_) => true,
            NumberView::Float(_) => false,
        }
    }

    /// The number as a signed 64-bit integer, where it is an integer in that
    /// range.
    pub open spec fn as_i64(self) -> Option<i64> {
        match self {
            NumberView::PosInt(v) => if v <= i64::MAX {
                Some(v as i64)
            } else {
                None
            },
            NumberView::NegInt(v) => Some(v),
            NumberView::Float(_) => None,
        }
    }

    /// The number as an unsigned 64-bit integer, where it is of the
    /// non-negative shape.
    pub open spec fn as_u64(self) -> Option<u64> {
        match self {
            NumberView::PosInt(v) => Some(v),
            _ => None,
        }
    }

    /// The number as a floating-point value, given as its binary64 bit
    /// pattern: a float as it is, an integer as the pattern of the nearest
    /// floating-point value.
    pub open spec fn as_f64(self) -> u64 {
        match self {
            NumberView::PosInt(v) => nearest_binary64(v as nat) as u64,
            NumberView::NegInt(v) => nearest_binary64_signed(v as int) as u64,
            NumberView::Float(bits) => bits,
        }
    }

    /// The 64-bit word that stands for the number when it is hashed.
    pub open spec fn hash_word(self) -> u64 {
        match self {
            NumberView::PosInt(v) => v,
            NumberView::NegInt(v) => v as u64,
            NumberView::Float(bits) => canonical_bits(bits),
        }
    }
}

#[derive(Clone, Copy)]
enum N {
    PosInt(u64),
    /// Always less than zero.
    NegInt(i64),
    /// Always finite; the binary64 bit pattern.
    Float(u64),
}

/// Represents a JSON number, whether integer or floating point.
#[derive(Clone, Copy)]
pub struct Number {
    n: N,
}

impl View for Number {
    type V = NumberView;

    closed spec fn view(&self) -> NumberView {
        match self.n {
            N::PosInt(v) => NumberView::PosInt(v),
            N::NegInt(v) => NumberView::NegInt(v),
            N::Float(bits) => NumberView::Float(bits),
        }
    }
}

impl Number {
    /// The number's invariant; see [`NumberView::wf`].
    pub open spec fn wf(&self) -> bool {
        self@.wf()
    }

    /// A float from its binary64 bit pattern. The pattern must be finite for
    /// the number to be well formed; the pattern is stored as given.
    pub fn from_f64_bits(bits: u64) -> (number: Number)
        ensures
            number@ == NumberView::Float(bits),
    {
        Number { n: N::Float(bits) }
    }

    /// If the `Number` is a non-negative integer, returns it.
    pub fn as_u64(&self) -> (value: Option<u64>)
        ensures
            value == self@.as_u64(),
    {
        match self.n {
            N::PosInt(v) => Some(v),
            _ => None,
        }
    }

    /// If the `Number` is an integer that fits a signed 64-bit integer,
    /// returns it.
    pub fn as_i64(&self) -> (value: Option<i64>)
        ensures
            value == self@.as_i64(),
    {
        match self.n {
            N::PosInt(n) => {
                if n <= 0x7fff_ffff_ffff_ffff {
                    Some(n as i64)
                } else {
                    None
                }
            },
            N::NegInt(v) => Some(v),
            _ => None,
        }
    }

    /// Represents the number as a floating-point value, given as its binary64
    /// bit pattern. Always `Some`: a float is returned as it is, an integer is
    /// widened to the nearest floating-point value, which loses precision for
    /// large magnitudes.
    pub fn as_f64(&self) -> (value: Option<u64>)
        ensures
            value == Some(self@.as_f64()),
    {
        match self.n {
            N::PosInt(n) => Some(widen_unsigned(n)),
            N::NegInt(n) => Some(widen_signed(n)),
            N::Float(bits) => Some(bits),
        }
    }

    /// If the `Number` is a float, returns its binary64 bit pattern.
    pub fn float_bits(&self) -> (value: Option<u64>)
        ensures
            value == match self@ {
                NumberView::Float(bits) => Some(bits),
                _ => None::<u64>,
            },
    {
        match self.n {
            N::Float(bits) => Some(bits),
            _ => None,
        }
    }

    /// Returns true if the `Number` is a float.
    pub fn is_f64(&self) -> (b: bool)
        ensures
            b == (self@ is Float),
    {
        matches!(self.n, N::Float(_))
    }

    /// Returns true if the `Number` is a non-negative integer.
    pub fn is_u64(&self) -> (b: bool)
        ensures
            b == (self@ is PosInt),
    {
        matches!(self.n, N::PosInt(_))
    }

    /// Returns true if the `Number` is an integer between `i64::MIN` and
    /// `i64::MAX`.
    pub fn is_i64(&self) -> (b: bool)
        ensures
            b == self@.is_i64(),
    {
        match self.n {
            N::PosInt(v) => v <= 0x7fff_ffff_ffff_ffff,
            N::NegInt(_) => true,
            N::Float(_) => false,
        }
    }
}

/// Whether two binary64 patterns compare equal as floating-point values.
pub fn float_bits_equal(a: u64, b: u64) -> (equal: bool)
    ensures
        equal == bits_equal(a, b),
{
    let magnitude_a: u64 = a & MAGNITUDE_MASK;
    let magnitude_b: u64 = b & MAGNITUDE_MASK;
    if magnitude_a > EXPONENT_MASK || magnitude_b > EXPONENT_MASK {
        false
    } else {
        a == b || (magnitude_a == 0 && magnitude_b == 0)
    }
}

impl Number {
    /// The 64-bit word that is fed to a hasher for this number. Both zeros of
    /// the floating-point shape give the word of positive zero, so that
    /// numbers that compare equal hash alike.
    pub fn hash_word(&self) -> (word: u64)
        ensures
            word == self@.hash_word(),
    {
        match self.n {
            N::PosInt(v) => v,
            N::NegInt(v) => #[verifier::truncate]
            (v as u64),
            N::Float(bits) => {
                if bits & MAGNITUDE_MASK == 0 {
                    0
                } else {
                    bits
                }
            },
        }
    }
}

impl PartialEq for Number {
    fn eq(&self, other: &Number) -> (equal: bool) {
        match (self.n, other.n) {
            (N::PosInt(a), N::PosInt(b)) => a == b,
            (N::NegInt(a), N::NegInt(b)) => a == b,
            (N::Float(a), N::Float(b)) => float_bits_equal(a, b),
            _ => false,
        }
    }
}

impl PartialEqSpecImpl for Number {
    open spec fn obeys_eq_spec() -> bool {
        true
    }

    open spec fn eq_spec(&self, other: &Number) -> bool {
        self@.equal(other@)
    }
}

// Sound because well-formed numbers hold no NaN.
impl Eq for Number {

}

/// `u64::hash` feeds the value to the hasher; nothing is claimed of the
/// hasher's state afterwards.
pub assume_specification<H: Hasher>[ <u64 as Hash>::hash::<H> ](value: &u64, state: &mut H)
;

/// `i64::hash` feeds the value to the hasher; nothing is claimed of the
/// hasher's state afterwards.
pub assume_specification<H: Hasher>[ <i64 as Hash>::hash::<H> ](value: &i64, state: &mut H)
;

impl Hash for Number {
    /// Feeds the number to the hasher: an integer as it is, a float as its
    /// bit pattern with both zeros taken as positive zero.
    fn hash<H: Hasher>(&self, state: &mut H) {
        match self.n {
            N::NegInt(i) => i.hash(state),
            _ => {
                let word = self.hash_word();
                word.hash(state)
            },
        }
    }
}

impl From<u64> for Number {
    /// The non-negative integer `val`.
    fn from(val: u64) -> (number: Number)
        ensures
            number@ == NumberView::PosInt(val),
    {
        Number { n: N::PosInt(val) }
    }
}

impl FromSpecImpl<u64> for Number {
    open spec fn obeys_from_spec() -> bool {
        true
    }

    closed spec fn from_spec(val: u64) -> Number {
        Number { n: N::PosInt(val) }
    }
}

impl From<i64> for Number {
    /// The negative integer `val`. The value has to be below zero for the
    /// number to be well formed; it is stored as given and never corrected.
    fn from(val: i64) -> (number: Number)
        ensures
            number@ == NumberView::NegInt(val),
    {
        Number { n: N::NegInt(val) }
    }
}

impl FromSpecImpl<i64> for Number {
    open spec fn obeys_from_spec() -> bool {
        true
    }

    closed spec fn from_spec(val: i64) -> Number {
        Number { n: N::NegInt(val) }
    }
}

/// A number has exactly one of the three shapes, and `is_i64` holds exactly of
/// the integral shapes whose integer lies in the range of a signed 64-bit
/// integer.
pub proof fn lemma_shapes_disjoint(n: NumberView)
    ensures
        (n is PosInt) || (n is NegInt) || (n is Float),
        !(n is PosInt && n is NegInt),
        !(n is PosInt && n is Float),
        !(n is NegInt && n is Float),
        n.is_i64() <==> (n.integer() matches Some(i) && i64::MIN <= i <= i64::MAX),
        n.is_i64() <==> n.as_i64() is Some,
        n.as_i64() matches Some(v) ==> n.integer() == Some(v as int),
        n.as_u64() matches Some(v) ==> n.integer() == Some(v as int),
{
}

/// Negating a floating-point value flips the sign bit of its pattern and
/// nothing else. A zero and its negation are equal numbers and hash to the
/// same word, that of positive zero.
pub proof fn lemma_zero_hash(bits: u64)
    requires
        bits_zero(bits),
    ensures
        bits_zero(bits ^ SIGN_MASK),
        NumberView::Float(bits).equal(NumberView::Float(bits ^ SIGN_MASK)),
        NumberView::Float(bits).hash_word() == NumberView::Float(bits ^ SIGN_MASK).hash_word(),
        NumberView::Float(bits).hash_word() == 0,
{
    assert(bits & MAGNITUDE_MASK == 0 ==> (bits ^ SIGN_MASK) & MAGNITUDE_MASK == 0) by (bit_vector)
        requires
            MAGNITUDE_MASK == 0x7fff_ffff_ffff_ffffu64,
            SIGN_MASK == 0x8000_0000_0000_0000u64,
    ;
}

/// Numbers that are equal hash to the same word.
pub proof fn lemma_equal_hash(a: NumberView, b: NumberView)
    requires
        a.equal(b),
    ensures
        a.hash_word() == b.hash_word(),
{
}

/// On well-formed numbers equality is an equivalence relation.
pub proof fn lemma_equal_equivalence(a: NumberView, b: NumberView, c: NumberView)
    requires
        a.wf(),
    ensures
        a.equal(a),
        a.equal(b) ==> b.equal(a),
        a.equal(b) && b.equal(c) ==> a.equal(c),
{
    if let NumberView::Float(bits) = a {
        assert(bits & EXPONENT_MASK != EXPONENT_MASK ==> !(bits & MAGNITUDE_MASK
            > EXPONENT_MASK)) by (bit_vector)
            requires
                MAGNITUDE_MASK == 0x7fff_ffff_ffff_ffffu64,
                EXPONENT_MASK == 0x7ff0_0000_0000_0000u64,
        ;
    }
}

} // verus!
