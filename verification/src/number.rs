//! Real-valued quantities: costs, speed limits, priorities.
//!
//! A quantity is held as the bit pattern of an IEEE 754 double. Ordering it
//! and rounding it up to whole ticks are integer computations on that pattern
//! and are done here; sums, products and quotients of quantities are supplied
//! by the caller.

use vstd::arithmetic::power2::*;
use vstd::prelude::*;

verus! {

/// Bit pattern of the sign bit alone.
pub const SIGN_BIT: u64 = 0x8000_0000_0000_0000;

/// Bit pattern of positive infinity; every larger magnitude is not a number.
pub const INFINITY_BITS: u64 = 0x7ff0_0000_0000_0000;

/// Bit pattern of one.
pub const ONE_BITS: u64 = 0x3ff0_0000_0000_0000;

/// Number of distinct fractions: two to the power 52.
pub const FRACTIONS: u64 = 0x0010_0000_0000_0000;

/// A real-valued quantity.
#[derive(Debug, Clone, Copy, PartialEq, Eq, Structural)]
pub struct Real {
    pub bits: u64,
}

impl Real {
    /// The bit pattern without its sign.
    pub open spec fn magnitude(self) -> int {
        if self.bits >= SIGN_BIT {
            self.bits - SIGN_BIT
        } else {
            self.bits as int
        }
    }

    /// Whether the pattern denotes no number.
    pub open spec fn is_nan(self) -> bool {
        self.magnitude() > INFINITY_BITS
    }

    /// An integer that orders numbers as their values do.
    pub open spec fn rank(self) -> int {
        if self.bits >= SIGN_BIT {
            -self.magnitude()
        } else {
            self.magnitude()
        }
    }

    /// Whether both are numbers and `self` is the smaller one.
    pub open spec fn less_than(self, other: Real) -> bool {
        !self.is_nan() && !other.is_nan() && self.rank() < other.rank()
    }

    /// Whether both are numbers and `self` is not the larger one.
    pub open spec fn at_most(self, other: Real) -> bool {
        !self.is_nan() && !other.is_nan() && self.rank() <= other.rank()
    }

    /// The exponent field.
    pub open spec fn exponent(self) -> int {
        self.magnitude() / (FRACTIONS as int)
    }

    /// The significand as an integer: the value of a finite positive number
    /// is `significand * 2^(scale - 1075)`.
    pub open spec fn significand(self) -> int {
        self.magnitude() % (FRACTIONS as int) + if self.exponent() == 0 {
            0int
        } else {
            FRACTIONS as int
        }
    }

    /// The power of two that scales the significand, offset by 1075.
    pub open spec fn scale(self) -> int {
        if self.exponent() == 0 {
            1
        } else {
            self.exponent()
        }
    }

    /// The least whole number of ticks that is not below the quantity, at most
    /// `u64::MAX`; zero for what is negative or no number.
    pub open spec fn ticks(self) -> u64 {
        if self.is_nan() || self.rank() <= 0 {
            0
        } else if self.magnitude() == INFINITY_BITS {
            u64::MAX
        } else {
            let whole = if self.scale() >= 1075 {
                self.significand() * pow2((self.scale() - 1075) as nat)
            } else {
                let unit = pow2((1075 - self.scale()) as nat) as int;
                (self.significand() + unit - 1) / unit
            };
            if whole > u64::MAX {
                u64::MAX
            } else {
                whole as u64
            }
        }
    }

    pub fn from_bits(bits: u64) -> (r: Real)
        ensures
            r.bits == bits,
    {
        Real { bits }
    }

    pub fn to_bits(self) -> (bits: u64)
        ensures
            bits == self.bits,
    {
        self.bits
    }

    pub fn zero() -> (r: Real)
        ensures
            r.bits == 0,
    {
        Real { bits: 0 }
    }

    pub fn one() -> (r: Real)
        ensures
            r.bits == ONE_BITS,
    {
        Real { bits: ONE_BITS }
    }

    pub fn infinity() -> (r: Real)
        ensures
            r.bits == INFINITY_BITS,
    {
        Real { bits: INFINITY_BITS }
    }

    fn unsigned_bits(self) -> (m: u64)
        ensures
            m == self.magnitude(),
    {
        if self.bits >= SIGN_BIT {
            self.bits - SIGN_BIT
        } else {
            self.bits
        }
    }

    pub fn not_a_number(self) -> (b: bool)
        ensures
            b == self.is_nan(),
    {
        self.unsigned_bits() > INFINITY_BITS
    }

    /// Compares two quantities; nothing is below or above what is no number.
    pub fn less(self, other: Real) -> (b: bool)
        ensures
            b == self.less_than(other),
    {
        if self.not_a_number() || other.not_a_number() {
            return false;
        }
        let a = self.unsigned_bits();
        let b = other.unsigned_bits();
        if self.bits >= SIGN_BIT {
            if other.bits >= SIGN_BIT {
                b < a
            } else {
                a > 0 || b > 0
            }
        } else if other.bits >= SIGN_BIT {
            false
        } else {
            a < b
        }
    }

    /// Whether `self` is a number and not above `other`.
    pub fn not_above(self, other: Real) -> (b: bool)
        ensures
            b == self.at_most(other),
    {
        !self.not_a_number() && !other.not_a_number() && !other.less(self)
    }

    /// Rounds a quantity up to whole ticks.
    pub fn ceil_ticks(self) -> (t: u64)
        ensures
            t == self.ticks(),
    {
        let m = self.unsigned_bits();
        if m > INFINITY_BITS || self.bits >= SIGN_BIT || m == 0 {
            return 0;
        }
        if m == INFINITY_BITS {
            return u64::MAX;
        }
        let exponent: u64 = m / FRACTIONS;
        let mut significand: u64 = m % FRACTIONS;
        let mut scale: u64 = 1;
        if exponent != 0 {
            significand = significand + FRACTIONS;
            scale = exponent;
        }
        assert(significand == self.significand());
        assert(scale == self.scale());
        assert(0 < significand < 2 * FRACTIONS);
        proof {
            lemma_small_powers();
        }
        if scale >= 1075 {
            let shift: u64 = scale - 1075;
            if shift >= 12 {
                proof {
                    lemma_pow2_monotone(12, shift as nat);
                    assert(significand * pow2(shift as nat) > u64::MAX) by (nonlinear_arith)
                        requires
                            significand >= FRACTIONS,
                            pow2(shift as nat) >= 4096,
                    ;
                }
                return u64::MAX;
            }
            let unit = power_of_two(shift);
            proof {
                lemma_pow2_monotone(shift as nat, 11);
                assert(significand * unit <= u64::MAX) by (nonlinear_arith)
                    requires
                        significand < 2 * FRACTIONS,
                        0 < unit <= 2048,
                ;
            }
            significand * unit
        } else {
            let shift: u64 = 1075 - scale;
            if shift >= 53 {
                proof {
                    lemma_pow2_monotone(53, shift as nat);
                    let unit = pow2(shift as nat) as int;
                    assert((significand + unit - 1) / unit == 1) by (nonlinear_arith)
                        requires
                            0 < significand <= unit,
                    ;
                }
                return 1;
            }
            let unit = power_of_two(shift);
            proof {
                lemma_pow2_monotone(shift as nat, 52);
                assert((significand + unit - 1) / (unit as int) <= significand + unit - 1)
                    by (nonlinear_arith)
                    requires
                        unit > 0,
                        significand > 0,
                ;
            }
            (significand + (unit - 1)) / unit
        }
    }
}

proof fn lemma_small_powers()
    ensures
        pow2(11) == 2048,
        pow2(12) == 4096,
        pow2(52) == FRACTIONS,
        pow2(53) == 2 * FRACTIONS,
{
    lemma2_to64();
    lemma2_to64_rest();
}

proof fn lemma_pow2_monotone(a: nat, b: nat)
    requires
        a <= b,
    ensures
        0 < pow2(a) <= pow2(b),
{
    lemma_pow2_pos(a);
    if a < b {
        lemma_pow2_strictly_increases(a, b);
    }
}

/// Two to the given power.
fn power_of_two(k: u64) -> (p: u64)
    requires
        k <= 52,
    ensures
        p == pow2(k as nat),
{
    proof {
        lemma2_to64();
        lemma2_to64_rest();
    }
    let mut p: u64 = 1;
    let mut i: u64 = 0;
    while i < k
        invariant
            i <= k <= 52,
            p == pow2(i as nat),
            pow2(52) == FRACTIONS,
        decreases k - i,
    {
        proof {
            lemma_pow2_unfold((i + 1) as nat);
            lemma_pow2_monotone((i + 1) as nat, 52);
        }
        p = p * 2;
        i = i + 1;
    }
    p
}

/// A quantity together with the text that writes it.
#[derive(Debug)]
pub struct Number {
    pub value: Real,
    pub text: String,
}

/// What a [`Number`] stands for.
pub struct NumberView {
    pub value: Real,
    pub text: Seq<char>,
}

impl View for Number {
    type V = NumberView;

    open spec fn view(&self) -> NumberView {
        NumberView { value: self.value, text: self.text@ }
    }
}

impl Number {
    pub fn new(value: Real, text: String) -> (n: Number)
        ensures
            n.value == value,
            n.text == text,
    {
        Number { value, text }
    }
}

impl Clone for Number {
    fn clone(&self) -> (n: Self)
        ensures
            n == *self,
    {
        Number { value: self.value, text: self.text.clone() }
    }
}

// ---------------------------------------------------------------------------
// operations
// ---------------------------------------------------------------------------

/// Whether the result of an operation is a function of its arguments.
pub open spec fn is_operation<G: Fn(Real, Real) -> Real>(g: G) -> bool {
    &&& forall|a: Real, b: Real| #[trigger] call_requires(g, (a, b))
    &&& forall|a: Real, b: Real, x: Real, y: Real| #[trigger]
        call_ensures(g, (a, b), x) && #[trigger] call_ensures(g, (a, b), y) ==> x == y
}

/// The result of an operation.
pub open spec fn result_of<G: Fn(Real, Real) -> Real>(g: G, a: Real, b: Real) -> Real {
    choose|r: Real| call_ensures(g, (a, b), r)
}

} // verus!
