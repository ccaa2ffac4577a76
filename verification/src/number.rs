//! Double-precision numbers, held by their bit pattern.
//!
//! A Lua number that is not an integer is an IEEE 754 binary64 value. This
//! crate never computes with such a value; it keeps the sixty-four bits and
//! reads the sign, the exponent and the fraction out of them with integer
//! arithmetic. Two conversions are needed: from a number to an integer by
//! dropping the fractional part, and from an integer to the nearest number.

use vstd::arithmetic::power2::{
    lemma2_to64, lemma2_to64_rest, lemma_pow2_adds, lemma_pow2_pos, lemma_pow2_strictly_increases,
    lemma_pow2_unfold, pow2,
};
use vstd::prelude::*;

verus! {

/// Two to the power 52: the weight of the exponent's lowest bit, and the
/// implicit leading one of a normal number's significand.
pub const ONE: u64 = 0x10_0000_0000_0000;

/// The sign bit.
pub const SIGN: u64 = 0x8000_0000_0000_0000;

/// A binary64 number, identified by its bits. Two values are equal when
/// their bits are, so a NaN equals itself and the two zeros differ.
#[derive(Clone, Copy, Debug, PartialEq, Eq, Structural)]
pub struct Double {
    pub bits: u64,
}

/// The sign bit is set.
pub open spec fn is_negative(bits: u64) -> bool {
    bits >= SIGN
}

/// The eleven exponent bits.
pub open spec fn exponent_field(bits: u64) -> int {
    (bits as int / ONE as int) % 2048
}

/// The fifty-two fraction bits.
pub open spec fn fraction_field(bits: u64) -> int {
    bits as int % ONE as int
}

/// The bits stand for no number.
pub open spec fn is_nan(bits: u64) -> bool {
    exponent_field(bits) == 2047 && fraction_field(bits) != 0
}

/// The magnitude with the fractional part dropped. Zero, the subnormal
/// numbers and every number below one give 0. An infinity, which has no
/// magnitude, gives a value above every 64-bit integer.
pub open spec fn whole_magnitude(bits: u64) -> nat {
    let e = exponent_field(bits);
    let m = (ONE + fraction_field(bits)) as nat;
    if e < 1023 {
        0
    } else if e < 1075 {
        m / pow2((1075 - e) as nat)
    } else {
        m * pow2((e - 1075) as nat)
    }
}

/// The number as an integer between `lo` and `hi`: the fractional part is
/// dropped, a number beyond the range gives the nearer end of it, and what is
/// no number gives 0.
pub open spec fn truncated(bits: u64, lo: int, hi: int) -> int {
    if is_nan(bits) {
        0
    } else if is_negative(bits) {
        if whole_magnitude(bits) >= -lo {
            lo
        } else {
            -(whole_magnitude(bits) as int)
        }
    } else {
        if whole_magnitude(bits) >= hi {
            hi
        } else {
            whole_magnitude(bits) as int
        }
    }
}

/// The position of the highest set bit of `a`; 0 for `a` below 2.
pub open spec fn log2_floor(a: int) -> nat
    decreases a,
{
    if a <= 1 {
        0
    } else {
        1 + log2_floor(a / 2)
    }
}

/// `a` divided by two to the power `k`, rounded to the nearest integer, a
/// tie going to the even one.
pub open spec fn rounded_shift(a: int, k: nat) -> int {
    let p = pow2(k) as int;
    let q = a / p;
    let r = a % p;
    if 2 * r > p || (2 * r == p && q % 2 == 1) {
        q + 1
    } else {
        q
    }
}

/// The bits of the number nearest to the integer `value`, a tie going to the
/// number whose last fraction bit is 0.
pub open spec fn nearest_bits(value: int) -> int {
    if value == 0 {
        0
    } else {
        let a = if value < 0 {
            -value
        } else {
            value
        };
        let e = log2_floor(a);
        let sign = if value < 0 {
            SIGN as int
        } else {
            0
        };
        let significand = if e <= 52 {
            a * pow2((52 - e) as nat)
        } else {
            rounded_shift(a, (e - 52) as nat)
        };
        sign + (1023 + e) * ONE + (significand - ONE)
    }
}

/// A positive integer lies between the power of two at its highest bit and
/// the next one.
pub proof fn lemma_log2_bounds(a: int)
    requires
        a >= 1,
    ensures
        pow2(log2_floor(a)) <= a < pow2(log2_floor(a) + 1),
    decreases a,
{
    lemma2_to64();
    if a > 1 {
        lemma_log2_bounds(a / 2);
        let e = log2_floor(a / 2);
        lemma_pow2_unfold(e + 1);
        lemma_pow2_unfold(e + 2);
    }
}

fn power_of_two(k: u64) -> (p: u64)
    requires
        k <= 63,
    ensures
        p == pow2(k as nat),
{
    let mut p: u64 = 1;
    let mut i: u64 = 0;
    proof {
        lemma2_to64();
    }
    while i < k
        invariant
            i <= k <= 63,
            p == pow2(i as nat),
        decreases k - i,
    {
        proof {
            lemma_pow2_unfold((i + 1) as nat);
            lemma2_to64();
            lemma2_to64_rest();
            if i + 1 < 63 {
                lemma_pow2_strictly_increases((i + 1) as nat, 63);
            }
        }
        p = p * 2;
        i += 1;
    }
    p
}

/// The whole magnitude, or two to the power 63 where it is that large or
/// larger.
fn clamped_magnitude(bits: u64) -> (m: u64)
    ensures
        whole_magnitude(bits) >= SIGN ==> m == SIGN,
        whole_magnitude(bits) < SIGN ==> m == whole_magnitude(bits),
{
    let e: u64 = bits / ONE % 2048;
    let f: u64 = bits % ONE;
    let m: u64 = ONE + f;
    if e < 1023 {
        0
    } else if e < 1075 {
        let p = power_of_two(1075 - e);
        proof {
            lemma_pow2_pos((1075 - e) as nat);
        }
        m / p
    } else if e < 1086 {
        let p = power_of_two(e - 1075);
        proof {
            lemma2_to64();
            if e - 1075 < 10 {
                lemma_pow2_strictly_increases((e - 1075) as nat, 10);
            }
            assert(m * p <= 0x20_0000_0000_0000 * 1024) by (nonlinear_arith)
                requires
                    m <= 0x20_0000_0000_0000,
                    p <= 1024,
            ;
        }
        m * p
    } else {
        proof {
            lemma2_to64();
            if e - 1075 > 11 {
                lemma_pow2_strictly_increases(11, (e - 1075) as nat);
            }
            let p = pow2((e - 1075) as nat);
            assert(m * p >= 0x10_0000_0000_0000 * 2048) by (nonlinear_arith)
                requires
                    m >= 0x10_0000_0000_0000,
                    p >= 2048,
            ;
        }
        SIGN
    }
}

impl Double {
    /// The number with these bits.
    pub fn from_bits(bits: u64) -> (number: Double)
        ensures
            number.bits == bits,
    {
        Double { bits }
    }

    /// Whether the bits stand for no number.
    pub fn is_nan(self) -> (nan: bool)
        ensures
            nan == is_nan(self.bits),
    {
        self.bits / ONE % 2048 == 2047 && self.bits % ONE != 0
    }

    /// The number as a 64-bit integer: the fractional part is dropped, a
    /// number beyond the range gives the nearer end of it, and what is no
    /// number gives 0.
    pub fn to_i64(self) -> (value: i64)
        ensures
            value == truncated(self.bits, i64::MIN as int, i64::MAX as int),
    {
        if self.is_nan() {
            return 0;
        }
        let m = clamped_magnitude(self.bits);
        if self.bits >= SIGN {
            if m >= SIGN {
                i64::MIN
            } else {
                -(m as i64)
            }
        } else {
            if m >= SIGN {
                i64::MAX
            } else {
                m as i64
            }
        }
    }

    /// The number as a 32-bit integer, by the same rule.
    pub fn to_i32(self) -> (value: i32)
        ensures
            value == truncated(self.bits, i32::MIN as int, i32::MAX as int),
    {
        if self.is_nan() {
            return 0;
        }
        let m = clamped_magnitude(self.bits);
        if self.bits >= SIGN {
            if m >= 0x8000_0000 {
                i32::MIN
            } else {
                -(m as i32)
            }
        } else {
            if m >= 0x7fff_ffff {
                i32::MAX
            } else {
                m as i32
            }
        }
    }

    /// The number nearest to `value`. Integers up to two to the power 53 in
    /// magnitude are kept exactly; a larger one is rounded, a tie going to
    /// the number whose last fraction bit is 0.
    pub fn from_i64(value: i64) -> (number: Double)
        ensures
            number.bits == nearest_bits(value as int),
    {
        if value == 0 {
            return Double { bits: 0 };
        }
        let a: u64 = if value < 0 {
            (-(value + 1)) as u64 + 1
        } else {
            value as u64
        };
        let sign: u64 = if value < 0 {
            SIGN
        } else {
            0
        };
        let mut t: u64 = a;
        let mut e: u64 = 0;
        proof {
            lemma_log2_bounds(a as int);
            lemma2_to64();
            lemma2_to64_rest();
            if log2_floor(a as int) > 63 {
                lemma_pow2_strictly_increases(63, log2_floor(a as int));
            }
        }
        while t > 1
            invariant
                t >= 1,
                log2_floor(a as int) == e + log2_floor(t as int),
                log2_floor(a as int) <= 63,
            decreases t,
        {
            t = t / 2;
            e += 1;
        }
        proof {
            lemma_pow2_unfold((e + 1) as nat);
        }
        let significand: u64 = if e <= 52 {
            let p = power_of_two(52 - e);
            proof {
                lemma_pow2_adds(e as nat, (52 - e) as nat);
                lemma_pow2_adds((e + 1) as nat, (52 - e) as nat);
                let lo = pow2(e as nat);
                let hi = pow2((e + 1) as nat);
                assert(lo * p <= a * p < hi * p) by (nonlinear_arith)
                    requires
                        lo <= a < hi,
                        p > 0,
                ;
            }
            a * p
        } else {
            let k = e - 52;
            let p = power_of_two(k);
            proof {
                lemma_pow2_adds(52, k as nat);
                lemma_pow2_adds(53, k as nat);
                lemma_pow2_pos(k as nat);
                let q = a as int / p as int;
                let r = a as int % p as int;
                assert(a == p * q + r && 0 <= r < p) by (nonlinear_arith)
                    requires
                        q == a as int / p as int,
                        r == a as int % p as int,
                        p > 0,
                ;
                assert(0x10_0000_0000_0000 <= q < 0x20_0000_0000_0000) by (nonlinear_arith)
                    requires
                        a == p * q + r,
                        0 <= r < p,
                        0x10_0000_0000_0000 * p <= a < 0x20_0000_0000_0000 * p,
                ;
                if k < 11 {
                    lemma_pow2_strictly_increases(k as nat, 11);
                }
            }
            let q = a / p;
            let r = a % p;
            if 2 * r > p || (2 * r == p && q % 2 == 1) {
                q + 1
            } else {
                q
            }
        };
        Double { bits: sign + (1023 + e) * ONE + (significand - ONE) }
    }
}

} // verus!
