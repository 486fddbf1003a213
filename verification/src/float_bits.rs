//! IEEE-754 binary64 values carried by their bit patterns.
//!
//! The analytics inputs and outputs hold double-precision numbers. The
//! library keeps each one as the 64-bit pattern that `f64::to_bits` gives and
//! decides every comparison the analytics make (`<`, `<=`, `>`, `>=`, `==`,
//! `is_finite`, `is_nan`, `abs`, `clamp`) on that pattern, exactly as the
//! hardware comparison does.
//!
//! The model: a pattern is a sign bit and a 63-bit magnitude. Magnitudes above
//! the infinity pattern are NaN; among non-NaN values, the order is the order
//! of the signed magnitude (`-m` for a set sign bit, `m` otherwise), so that
//! `+0.0` and `-0.0` compare equal and both infinities sit at the ends.
use vstd::prelude::*;

verus! {

/// The sign bit of a binary64 pattern.
pub const SIGN_BIT: u64 = 0x8000_0000_0000_0000u64;

/// The magnitude bits of positive infinity.
pub const INFINITY_MAGNITUDE: u64 = 0x7ff0_0000_0000_0000u64;

/// A binary64 number held by its bit pattern (`f64::to_bits`).
///
/// `==` on this type compares patterns; the numeric equality of the
/// analytics is [`FloatBits::num_eq`].
#[derive(Debug, Clone, Copy, PartialEq, Eq, Structural)]
pub struct FloatBits {
    pub bits: u64,
}

impl FloatBits {
    /// The magnitude of the pattern: the pattern without its sign bit.
    pub open spec fn magnitude(self) -> int {
        if self.bits >= SIGN_BIT {
            self.bits - SIGN_BIT
        } else {
            self.bits as int
        }
    }

    /// Whether the sign bit is set.
    pub open spec fn sign_set(self) -> bool {
        self.bits >= SIGN_BIT
    }

    /// NaN: the exponent is all ones and the mantissa is not zero.
    pub open spec fn spec_nan(self) -> bool {
        self.magnitude() > INFINITY_MAGNITUDE
    }

    /// Finite: the exponent is not all ones.
    pub open spec fn spec_finite(self) -> bool {
        self.magnitude() < INFINITY_MAGNITUDE
    }

    /// The position of a non-NaN value on the number line, as an integer that
    /// orders exactly as the value does.
    pub open spec fn order_key(self) -> int {
        if self.sign_set() {
            -self.magnitude()
        } else {
            self.magnitude()
        }
    }

    /// `self < other` for binary64 numbers.
    pub open spec fn spec_lt(self, other: FloatBits) -> bool {
        !self.spec_nan() && !other.spec_nan() && self.order_key() < other.order_key()
    }

    /// `self <= other` for binary64 numbers.
    pub open spec fn spec_le(self, other: FloatBits) -> bool {
        !self.spec_nan() && !other.spec_nan() && self.order_key() <= other.order_key()
    }

    /// `self == other` for binary64 numbers (NaN equals nothing, `-0.0 == 0.0`).
    pub open spec fn spec_num_eq(self, other: FloatBits) -> bool {
        !self.spec_nan() && !other.spec_nan() && self.order_key() == other.order_key()
    }

    /// `(lo..=hi).contains(&self)` for binary64 numbers.
    pub open spec fn spec_within(self, lo: FloatBits, hi: FloatBits) -> bool {
        lo.spec_le(self) && self.spec_le(hi)
    }

    /// Builds the value from its bit pattern.
    pub fn from_bits(bits: u64) -> (r: FloatBits)
        ensures
            r.bits == bits,
    {
        FloatBits { bits }
    }

    /// `+0.0`.
    pub fn zero() -> (r: FloatBits)
        ensures
            r.bits == 0,
            r.order_key() == 0,
    {
        FloatBits { bits: 0 }
    }

    /// `1.0`.
    pub fn one() -> (r: FloatBits)
        ensures
            r.bits == 0x3ff0_0000_0000_0000u64,
    {
        FloatBits { bits: 0x3ff0_0000_0000_0000u64 }
    }

    fn magnitude_of(&self) -> (m: u64)
        ensures
            m == self.magnitude(),
    {
        if self.bits >= SIGN_BIT {
            self.bits - SIGN_BIT
        } else {
            self.bits
        }
    }

    /// `f64::is_nan`.
    pub fn is_nan(&self) -> (r: bool)
        ensures
            r == self.spec_nan(),
    {
        self.magnitude_of() > INFINITY_MAGNITUDE
    }

    /// `f64::is_finite`.
    pub fn is_finite(&self) -> (r: bool)
        ensures
            r == self.spec_finite(),
    {
        self.magnitude_of() < INFINITY_MAGNITUDE
    }

    /// `self < other`.
    pub fn lt(&self, other: &FloatBits) -> (r: bool)
        ensures
            r == self.spec_lt(*other),
    {
        if self.is_nan() || other.is_nan() {
            return false;
        }
        let a = self.magnitude_of();
        let b = other.magnitude_of();
        let sa = self.bits >= SIGN_BIT;
        let sb = other.bits >= SIGN_BIT;
        if sa && sb {
            b < a
        } else if sa && !sb {
            !(a == 0 && b == 0)
        } else if !sa && sb {
            false
        } else {
            a < b
        }
    }

    /// `self <= other`.
    pub fn le(&self, other: &FloatBits) -> (r: bool)
        ensures
            r == self.spec_le(*other),
    {
        if self.is_nan() || other.is_nan() {
            return false;
        }
        let a = self.magnitude_of();
        let b = other.magnitude_of();
        let sa = self.bits >= SIGN_BIT;
        let sb = other.bits >= SIGN_BIT;
        if sa && sb {
            b <= a
        } else if sa && !sb {
            true
        } else if !sa && sb {
            a == 0 && b == 0
        } else {
            a <= b
        }
    }

    /// `self > other`.
    pub fn gt(&self, other: &FloatBits) -> (r: bool)
        ensures
            r == other.spec_lt(*self),
    {
        other.lt(self)
    }

    /// `self >= other`.
    pub fn ge(&self, other: &FloatBits) -> (r: bool)
        ensures
            r == other.spec_le(*self),
    {
        other.le(self)
    }

    /// Numeric `self == other`.
    pub fn num_eq(&self, other: &FloatBits) -> (r: bool)
        ensures
            r == self.spec_num_eq(*other),
    {
        self.le(other) && other.le(self)
    }

    /// `(lo..=hi).contains(&self)`.
    pub fn within(&self, lo: &FloatBits, hi: &FloatBits) -> (r: bool)
        ensures
            r == self.spec_within(*lo, *hi),
    {
        lo.le(self) && self.le(hi)
    }

    /// `-self`: the pattern with its sign bit flipped.
    pub open spec fn spec_neg(self) -> FloatBits {
        if self.sign_set() {
            FloatBits { bits: (self.bits - SIGN_BIT) as u64 }
        } else {
            FloatBits { bits: (self.bits + SIGN_BIT) as u64 }
        }
    }

    /// `-self` (`f64::neg`): flips the sign bit, so a number goes to its
    /// opposite and a NaN stays a NaN.
    pub fn neg(&self) -> (r: FloatBits)
        ensures
            r == self.spec_neg(),
            r.magnitude() == self.magnitude(),
            r.spec_nan() == self.spec_nan(),
            !self.spec_nan() ==> r.order_key() == -self.order_key(),
    {
        if self.bits >= SIGN_BIT {
            FloatBits { bits: self.bits - SIGN_BIT }
        } else {
            FloatBits { bits: self.bits + SIGN_BIT }
        }
    }

    /// `f64::abs`: clears the sign bit.
    pub fn abs(&self) -> (r: FloatBits)
        ensures
            r.bits == self.magnitude(),
            r.magnitude() == self.magnitude(),
            !r.sign_set(),
    {
        FloatBits { bits: self.magnitude_of() }
    }

    /// `f64::clamp(self, lo, hi)` for `lo <= hi`: `lo` below the range, `hi`
    /// above it, and the value itself otherwise (NaN stays NaN).
    pub fn clamp(&self, lo: &FloatBits, hi: &FloatBits) -> (r: FloatBits)
        requires
            lo.spec_le(*hi),
        ensures
            self.spec_lt(*lo) ==> r == *lo,
            hi.spec_lt(*self) ==> r == *hi,
            !self.spec_lt(*lo) && !hi.spec_lt(*self) ==> r == *self,
    {
        if self.lt(lo) {
            *lo
        } else if hi.lt(self) {
            *hi
        } else {
            *self
        }
    }
}

/// `<` on binary64 numbers is transitive.
pub proof fn lemma_lt_transitive(a: FloatBits, b: FloatBits, c: FloatBits)
    requires
        a.spec_lt(b),
        b.spec_lt(c),
    ensures
        a.spec_lt(c),
{
}

/// `<=` on binary64 numbers is total on the non-NaN values: of any two, one
/// is at most the other.
pub proof fn lemma_le_total(a: FloatBits, b: FloatBits)
    requires
        !a.spec_nan(),
        !b.spec_nan(),
    ensures
        a.spec_le(b) || b.spec_le(a),
{
}

/// A NaN compares false with everything.
pub proof fn lemma_nan_unordered(a: FloatBits, b: FloatBits)
    requires
        a.spec_nan(),
    ensures
        !a.spec_lt(b),
        !b.spec_lt(a),
        !a.spec_le(b),
        !b.spec_le(a),
        !a.spec_num_eq(b),
{
}

/// The position that `max_by` with `partial_cmp` (unordered values taken as
/// equal) picks among the first `n` values: the running choice keeps the
/// earlier value only when it is greater than the later one, so of equal or
/// unordered values the later is chosen.
pub open spec fn max_by_position(values: Seq<FloatBits>, n: nat) -> Option<nat>
    decreases n,
{
    if n == 0 {
        None
    } else {
        match max_by_position(values, (n - 1) as nat) {
            None => Some((n - 1) as nat),
            Some(t) => if values[n - 1].spec_lt(values[t as int]) {
                Some(t)
            } else {
                Some((n - 1) as nat)
            },
        }
    }
}

/// `max_by_position` names a position below `n`, and one exactly when `n > 0`.
pub proof fn lemma_max_by_position_in_range(values: Seq<FloatBits>, n: nat)
    ensures
        max_by_position(values, n) matches Some(t) ==> t < n,
        max_by_position(values, n) is Some <==> n > 0,
    decreases n,
{
    if n > 0 {
        lemma_max_by_position_in_range(values, (n - 1) as nat);
    }
}

/// The position of the greatest value, the last of equal or unordered ones,
/// as `max_by` with `partial_cmp` picks it; `None` for no values.
pub fn last_maximum(values: &Vec<FloatBits>) -> (r: Option<usize>)
    ensures
        r matches Some(t) ==> t < values@.len() && max_by_position(values@, values@.len()) == Some(t as nat),
        r is None <==> values@.len() == 0,
{
    let n = values.len();
    let mut top: Option<usize> = None;
    let mut i: usize = 0;
    while i < n
        invariant
            n == values@.len(),
            i <= n,
            top matches Some(t) ==> t < i && max_by_position(values@, i as nat) == Some(t as nat),
            top is None <==> i == 0,
        decreases n - i,
    {
        proof {
            lemma_max_by_position_in_range(values@, i as nat);
        }
        top = match top {
            None => Some(i),
            Some(t) => if values[i].lt(&values[t]) {
                Some(t)
            } else {
                Some(i)
            },
        };
        i = i + 1;
    }
    top
}

} // verus!
