//! Binary64 numbers held by their bit pattern, and their conversion to
//! integer codes.

use vstd::arithmetic::power2::{
    lemma2_to64,
    lemma2_to64_rest,
    lemma_pow2_pos,
    lemma_pow2_strictly_increases,
    lemma_pow2_unfold,
    pow2,
};
use vstd::bits::{lemma_u64_shl_is_mul, lemma_u64_shr_is_div};
use vstd::prelude::*;

verus! {

/// A binary64 number of IEEE 754, held by its bit pattern: one sign bit,
/// eleven exponent bits, fifty-two fraction bits. Two values are equal when
/// their bits are.
#[derive(Clone, Copy, Debug, PartialEq, Eq, Structural)]
pub struct Double {
    pub bits: u64,
}

impl DeepView for Double {
    type V = Double;

    open spec fn deep_view(&self) -> Double {
        *self
    }
}

impl Double {
    /// The sign bit is set.
    pub open spec fn negative(self) -> bool {
        self.bits >= 0x8000_0000_0000_0000
    }

    /// The biased exponent field.
    pub open spec fn exponent(self) -> nat {
        ((self.bits / 0x10_0000_0000_0000) % 0x800) as nat
    }

    /// The fraction field.
    pub open spec fn fraction(self) -> nat {
        (self.bits % 0x10_0000_0000_0000) as nat
    }

    /// Not a number: the exponent field is all ones and the fraction is not
    /// zero.
    pub open spec fn is_nan(self) -> bool {
        self.exponent() == 0x7ff && self.fraction() != 0
    }

    /// Plus or minus infinity.
    pub open spec fn is_infinite(self) -> bool {
        self.exponent() == 0x7ff && self.fraction() == 0
    }

    /// The integer `m` for which a finite value has the magnitude
    /// `m * 2^binary_exponent()`.
    pub open spec fn significand(self) -> nat {
        if self.exponent() == 0 {
            self.fraction()
        } else {
            0x10_0000_0000_0000 + self.fraction()
        }
    }

    /// The power of two by which `significand()` is scaled.
    pub open spec fn binary_exponent(self) -> int {
        if self.exponent() == 0 {
            -1074
        } else {
            self.exponent() - 1075
        }
    }

    /// The magnitude of a finite value, rounded to the nearest integer, a
    /// half rounded up.
    pub open spec fn rounded_magnitude(self) -> nat {
        let e = self.binary_exponent();
        if e >= 0 {
            self.significand() * pow2(e as nat)
        } else {
            ((self.significand() + pow2((-e - 1) as nat)) / pow2((-e) as nat)) as nat
        }
    }

    /// The integer code of the value: the value rounded to the nearest
    /// integer, halves away from zero, and brought into the range of `i64`;
    /// 0 for a NaN.
    pub open spec fn code(self) -> int {
        if self.is_nan() {
            0
        } else if self.is_infinite() {
            if self.negative() {
                i64::MIN as int
            } else {
                i64::MAX as int
            }
        } else {
            let rounded = if self.negative() {
                -(self.rounded_magnitude() as int)
            } else {
                self.rounded_magnitude() as int
            };
            if rounded < i64::MIN {
                i64::MIN as int
            } else if rounded > i64::MAX {
                i64::MAX as int
            } else {
                rounded
            }
        }
    }

    /// The value with the given bit pattern.
    pub fn from_bits(bits: u64) -> (r: Double)
        ensures
            r.bits == bits,
    {
        Double { bits }
    }

    /// Whether the value is a NaN.
    pub fn is_not_a_number(&self) -> (r: bool)
        ensures
            r == self.is_nan(),
    {
        let bits: u64 = self.bits;
        let e: u64 = (bits >> 52) & 0x7ff;
        let f: u64 = bits & 0x000f_ffff_ffff_ffff;
        assert(e == (bits / 0x10_0000_0000_0000) % 0x800) by (bit_vector)
            requires
                e == (bits >> 52) & 0x7ff,
        ;
        assert(f == bits % 0x10_0000_0000_0000) by (bit_vector)
            requires
                f == bits & 0x000f_ffff_ffff_ffff,
        ;
        e == 0x7ff && f != 0
    }

    /// The integer code of the value.
    pub fn to_code(&self) -> (r: i64)
        ensures
            r == self.code(),
    {
        let bits: u64 = self.bits;
        let e: u64 = (bits >> 52) & 0x7ff;
        let f: u64 = bits & 0x000f_ffff_ffff_ffff;
        let negative: bool = (bits >> 63) == 1;
        assert(e == (bits / 0x10_0000_0000_0000) % 0x800 && e < 0x800) by (bit_vector)
            requires
                e == (bits >> 52) & 0x7ff,
        ;
        assert(f == bits % 0x10_0000_0000_0000 && f < 0x10_0000_0000_0000) by (bit_vector)
            requires
                f == bits & 0x000f_ffff_ffff_ffff,
        ;
        assert(((bits >> 63) == 1) == (bits >= 0x8000_0000_0000_0000)) by (bit_vector);
        proof {
            lemma2_to64();
            lemma2_to64_rest();
        }
        if e == 0x7ff {
            return if f != 0 {
                0
            } else if negative {
                i64::MIN
            } else {
                i64::MAX
            };
        }
        if e < 1022 {
            proof {
                let k = (-self.binary_exponent()) as nat;
                let m = self.significand();
                assert(k >= 54);
                if k > 54 {
                    lemma_pow2_strictly_increases(53, (k - 1) as nat);
                }
                lemma_pow2_unfold(k);
                assert((m + pow2((k - 1) as nat)) / pow2(k) == 0) by (nonlinear_arith)
                    requires
                        m < pow2((k - 1) as nat),
                        pow2(k) == 2 * pow2((k - 1) as nat),
                ;
            }
            return 0;
        }
        let m: u64 = f | 0x10_0000_0000_0000;
        assert(m == f + 0x10_0000_0000_0000) by (bit_vector)
            requires
                f < 0x10_0000_0000_0000,
                m == f | 0x10_0000_0000_0000,
        ;
        if e >= 1086 {
            proof {
                let up = (e - 1075) as nat;
                if up > 11 {
                    lemma_pow2_strictly_increases(11, up);
                }
                assert(m * pow2(up) >= 0x8000_0000_0000_0000) by (nonlinear_arith)
                    requires
                        m >= 0x10_0000_0000_0000,
                        pow2(up) >= 0x800,
                ;
            }
            return if negative {
                i64::MIN
            } else {
                i64::MAX
            };
        }
        let magnitude: u64 = if e >= 1075 {
            let up: u64 = e - 1075;
            proof {
                if up < 10 {
                    lemma_pow2_strictly_increases(up as nat, 10);
                }
                assert(m * pow2(up as nat) < 0x8000_0000_0000_0000) by (nonlinear_arith)
                    requires
                        m < 0x20_0000_0000_0000,
                        0 < pow2(up as nat) <= 0x400,
                ;
                lemma_u64_shl_is_mul(m, up);
            }
            m << up
        } else {
            let down: u64 = 1075 - e;
            proof {
                if down < 53 {
                    lemma_pow2_strictly_increases((down - 1) as nat, 52);
                }
                lemma_u64_shl_is_mul(1, (down - 1) as u64);
                lemma_u64_shr_is_div((m + pow2((down - 1) as nat)) as u64, down);
                lemma_pow2_unfold(down as nat);
            }
            let half: u64 = 1u64 << (down - 1);
            (m + half) >> down
        };
        assert(magnitude == self.rounded_magnitude());
        assert(magnitude < 0x8000_0000_0000_0000) by {
            if e < 1075 {
                let down = (1075 - e) as nat;
                let sum = (m + pow2((down - 1) as nat)) as nat;
                let unit = pow2(down);
                assert(sum / unit <= sum) by (nonlinear_arith)
                    requires
                        unit >= 1,
                ;
            }
        }
        if negative {
            -(magnitude as i64)
        } else {
            magnitude as i64
        }
    }
}


/// The rounded magnitude of a finite value is the integer nearest to its
/// magnitude, and the greater one where two are as near. With the magnitude
/// `m * 2^e`: for `e >= 0` it is the magnitude itself, and for `e < 0` its
/// distance from `m / 2^-e` is at most one half, one half only from below.
pub proof fn lemma_rounded_magnitude_is_nearest(x: Double)
    requires
        !x.is_nan(),
        !x.is_infinite(),
    ensures
        x.binary_exponent() >= 0 ==> x.rounded_magnitude() == x.significand() * pow2(
            x.binary_exponent() as nat,
        ),
        x.binary_exponent() < 0 ==> ({
            let unit = pow2((-x.binary_exponent()) as nat);
            let rounded = x.rounded_magnitude();
            &&& 2 * (rounded * unit - x.significand()) <= unit
            &&& 2 * (x.significand() - rounded * unit) < unit
        }),
{
    let e = x.binary_exponent();
    if e < 0 {
        let k = (-e) as nat;
        let unit = pow2(k);
        let half = pow2((k - 1) as nat);
        let m = x.significand();
        let sum = m + half;
        lemma_pow2_unfold(k);
        lemma_pow2_pos(k);
        let rounded = sum / unit;
        assert(rounded * unit <= sum < rounded * unit + unit) by (nonlinear_arith)
            requires
                unit > 0,
                sum >= 0,
                rounded == sum / unit,
        ;
    }
}

} // verus!
