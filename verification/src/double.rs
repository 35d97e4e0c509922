//! Double-precision numbers, known by their bits: what the rules need of them is
//! only how they compare.
use vstd::arithmetic::power2::{
    lemma_pow2_pos, lemma_pow2_strictly_increases, lemma_pow2_unfold, pow2,
};
use vstd::prelude::*;

verus! {

/// The bit that says that a number is negative.
pub const SIGN_BIT: u64 = 0x8000_0000_0000_0000;

/// The bits of positive infinity, the largest number.
pub const INFINITY_BITS: u64 = 0x7ff0_0000_0000_0000;

/// The bits of one.
pub const ONE_BITS: u64 = 0x3ff0_0000_0000_0000;

/// A double-precision number in its IEEE 754 encoding.
#[derive(Clone, Copy, Debug)]
pub struct Double {
    pub bits: u64,
}

impl Double {
    /// The encoding without its sign.
    pub open spec fn magnitude(self) -> int {
        if self.bits >= SIGN_BIT {
            self.bits - SIGN_BIT
        } else {
            self.bits as int
        }
    }

    pub open spec fn is_nan(self) -> bool {
        self.magnitude() > INFINITY_BITS
    }

    /// The place of a number among the numbers: the encoding orders numbers of one
    /// sign by their size, and both zeros have one place.
    pub open spec fn rank(self) -> int {
        if self.bits >= SIGN_BIT {
            -self.magnitude()
        } else {
            self.magnitude()
        }
    }

    /// `self < other`; nothing is less or greater than what is no number.
    pub open spec fn is_less(self, other: Double) -> bool {
        !self.is_nan() && !other.is_nan() && self.rank() < other.rank()
    }

    /// `self == other`; what is no number equals nothing, itself included.
    pub open spec fn is_same(self, other: Double) -> bool {
        !self.is_nan() && !other.is_nan() && self.rank() == other.rank()
    }

    pub open spec fn is_positive(self) -> bool {
        0 < self.bits <= INFINITY_BITS
    }

    /// Zero.
    pub fn zero() -> (r: Double)
        ensures
            r.bits == 0,
    {
        Double { bits: 0 }
    }

    fn split(&self) -> (parts: (bool, u64))
        ensures
            parts.0 == (self.bits >= SIGN_BIT),
            parts.1 == self.magnitude(),
    {
        if self.bits >= SIGN_BIT {
            (true, self.bits - SIGN_BIT)
        } else {
            (false, self.bits)
        }
    }

    /// Whether the number is greater than zero.
    pub fn positive(&self) -> (yes: bool)
        ensures
            yes == self.is_positive(),
    {
        0 < self.bits && self.bits <= INFINITY_BITS
    }

    /// Whether `self` is less than `other`.
    pub fn less(&self, other: &Double) -> (yes: bool)
        ensures
            yes == self.is_less(*other),
    {
        let (neg, size) = self.split();
        let (other_neg, other_size) = other.split();
        if size > INFINITY_BITS || other_size > INFINITY_BITS {
            false
        } else if neg {
            if other_neg {
                size > other_size
            } else {
                size > 0 || other_size > 0
            }
        } else {
            !other_neg && size < other_size
        }
    }

    /// Whether `self` equals `other`.
    pub fn same(&self, other: &Double) -> (yes: bool)
        ensures
            yes == self.is_same(*other),
    {
        let (neg, size) = self.split();
        let (other_neg, other_size) = other.split();
        size <= INFINITY_BITS && size == other_size && (neg == other_neg || size == 0)
    }
}

/// A number is positive exactly when zero is less than it.
pub proof fn positive_is_above_zero(x: Double, zero: Double)
    requires
        zero.rank() == 0,
    ensures
        x.is_positive() <==> zero.is_less(x),
{
}

/// Of two numbers one is less, or they are equal, and only one of these holds;
/// none of them holds where one of the two is no number.
pub proof fn comparison_is_exclusive(x: Double, y: Double)
    ensures
        x.is_nan() || y.is_nan() ==> !x.is_less(y) && !y.is_less(x) && !x.is_same(y),
        !x.is_nan() && !y.is_nan() ==> x.is_less(y) || y.is_less(x) || x.is_same(y),
        !(x.is_less(y) && y.is_less(x)),
        !(x.is_less(y) && x.is_same(y)),
{
}

/// The size of the number that an encoding without its sign stands for, in units of the
/// smallest one, which is 2^-1074: the lower 52 bits are the fraction, and the eleven above
/// them are the exponent. The encoding of infinity stands for more than any other.
pub open spec fn size(magnitude: int) -> int {
    let exponent = magnitude / 0x10_0000_0000_0000;
    let fraction = magnitude % 0x10_0000_0000_0000;
    if exponent == 0 {
        fraction
    } else {
        (0x10_0000_0000_0000 + fraction) * pow2((exponent - 1) as nat)
    }
}

/// The number that `x` stands for, in units of 2^-1074.
pub open spec fn number(x: Double) -> int {
    if x.bits >= 0x8000_0000_0000_0000 {
        -size(x.bits - 0x8000_0000_0000_0000)
    } else {
        size(x.bits as int)
    }
}

/// Larger encodings of one sign stand for larger sizes.
proof fn lemma_size_grows(a: int, b: int)
    requires
        0 <= a < b,
    ensures
        0 <= size(a) < size(b),
{
    let d = 0x10_0000_0000_0000int;
    let (ea, fa) = (a / d, a % d);
    let (eb, fb) = (b / d, b % d);
    assert(a == ea * d + fa && b == eb * d + fb);
    if eb > 0 {
        lemma_pow2_pos((eb - 1) as nat);
        let pb = pow2((eb - 1) as nat) as int;
        assert((d + fb) * pb >= d * pb && d * pb >= d) by (nonlinear_arith)
            requires
                fb >= 0,
                pb >= 1,
                d == 0x10_0000_0000_0000int,
        ;
        if ea > 0 {
            lemma_pow2_pos((ea - 1) as nat);
            let pa = pow2((ea - 1) as nat) as int;
            if ea == eb {
                assert(fa < fb);
                assert(0 <= (d + fa) * pa < (d + fb) * pa) by (nonlinear_arith)
                    requires
                        0 <= fa < fb,
                        pa >= 1,
                        d == 0x10_0000_0000_0000int,
                ;
            } else {
                lemma_pow2_unfold(ea as nat);
                if ea < eb - 1 {
                    lemma_pow2_strictly_increases(ea as nat, (eb - 1) as nat);
                }
                assert(0 <= (d + fa) * pa < d * (2 * pa) <= d * pb) by (nonlinear_arith)
                    requires
                        0 <= fa < d,
                        pa >= 1,
                        2 * pa <= pb,
                        d == 0x10_0000_0000_0000int,
                ;
            }
        }
    }
}

/// Doubles compare as the numbers that they stand for. What is no number, with all bits of
/// the exponent set and some of the fraction, is neither less than, nor greater than, nor
/// equal to anything.
pub proof fn doubles_compare_as_numbers(x: Double, y: Double)
    ensures
        x.is_nan() <==> (x.bits / 0x10_0000_0000_0000) % 0x800 == 0x7ff && x.bits
            % 0x10_0000_0000_0000 != 0,
        x.is_nan() || y.is_nan() ==> !x.is_less(y) && !x.is_same(y),
        !x.is_nan() && !y.is_nan() ==> (x.is_less(y) <==> number(x) < number(y)),
        !x.is_nan() && !y.is_nan() ==> (x.is_same(y) <==> number(x) == number(y)),
        x.is_positive() <==> !x.is_nan() && number(x) > 0,
{
    let a = x.magnitude();
    let b = y.magnitude();
    assert(size(0) == 0);
    if a > 0 {
        lemma_size_grows(0, a);
    }
    if b > 0 {
        lemma_size_grows(0, b);
    }
    if a < b {
        lemma_size_grows(a, b);
    } else if b < a {
        lemma_size_grows(b, a);
    }
}

} // verus!
