//! Decimal fixed-point numbers with saturating arithmetic.
//!
//! A `Scalar` stores a real quantity as a whole number of millionths. Every
//! operation computes the exact mathematical result, rounds it down to the
//! next millionth and clamps it to the representable range, so the two ends
//! of the range play the role of positive and negative infinity.
use vstd::prelude::*;

verus! {

/// Number of raw units that make up the value one.
pub const SCALE: i64 = 1_000_000;

/// Largest raw value; stands for positive infinity.
pub const RAW_MAX: i64 = 0x7fff_ffff_ffff_ffff;

/// Smallest raw value; stands for negative infinity.
pub const RAW_MIN: i64 = -0x7fff_ffff_ffff_ffff - 1;

/// Clamps an unbounded integer to the raw range.
pub open spec fn saturate(v: int) -> int {
    if v > RAW_MAX {
        RAW_MAX as int
    } else if v < RAW_MIN {
        RAW_MIN as int
    } else {
        v
    }
}

/// Whether `r` is the largest natural whose square does not exceed `n`.
pub open spec fn is_isqrt(n: nat, r: nat) -> bool {
    r * r <= n && n < (r + 1) * (r + 1)
}

/// The integer square root: the largest `r` with `r * r <= n`.
pub open spec fn isqrt(n: nat) -> nat {
    choose|r: nat| is_isqrt(n, r)
}

/// Two naturals whose squares bracket the same number are equal.
pub proof fn lemma_isqrt_unique(n: nat, a: nat, b: nat)
    requires
        a * a <= n,
        n < (a + 1) * (a + 1),
        b * b <= n,
        n < (b + 1) * (b + 1),
    ensures
        a == b,
{
    if a < b {
        assert((a + 1) * (a + 1) <= b * b) by (nonlinear_arith)
            requires
                a + 1 <= b,
        ;
    } else if b < a {
        assert((b + 1) * (b + 1) <= a * a) by (nonlinear_arith)
            requires
                b + 1 <= a,
        ;
    }
}

/// Any natural whose square brackets `n` is the integer square root of `n`.
pub proof fn lemma_isqrt_is(n: nat, r: nat)
    requires
        r * r <= n,
        n < (r + 1) * (r + 1),
    ensures
        isqrt(n) == r,
{
    assert(is_isqrt(n, r));
    lemma_isqrt_unique(n, r, isqrt(n));
}

/// A fixed-point number: `raw` millionths.
#[derive(Clone, Copy, Debug, PartialEq, Eq, Structural)]
pub struct Scalar {
    pub raw: i64,
}

/// Rounds `a / b` down for a positive divisor.
pub(crate) fn floor_div(a: i128, b: i128) -> (r: i128)
    requires
        b > 0,
        a > i128::MIN,
    ensures
        r == a as int / b as int,
{
    if a >= 0 {
        a / b
    } else {
        let n: i128 = -a;
        let q: i128 = n / b;
        let m: i128 = n % b;
        proof {
            let ai = a as int;
            let bi = b as int;
            let qi = q as int;
            let mi = m as int;
            assert(-ai == qi * bi + mi) by (nonlinear_arith)
                requires
                    qi == (-ai) / bi,
                    mi == (-ai) % bi,
                    bi > 0,
            ;
            if m == 0 {
                assert(ai == (-qi) * bi + 0) by (nonlinear_arith)
                    requires
                        -ai == qi * bi + mi,
                        mi == 0,
                ;
                vstd::arithmetic::div_mod::lemma_fundamental_div_mod_converse(ai, bi, -qi, 0);
            } else {
                assert(ai == (-qi - 1) * bi + (bi - mi)) by (nonlinear_arith)
                    requires
                        -ai == qi * bi + mi,
                ;
                vstd::arithmetic::div_mod::lemma_fundamental_div_mod_converse(
                    ai,
                    bi,
                    -qi - 1,
                    bi - mi,
                );
            }
        }
        if m == 0 {
            -q
        } else {
            -q - 1
        }
    }
}

/// Clamps a wide integer to the raw range.
fn clamp_raw(v: i128) -> (r: i64)
    ensures
        r == saturate(v as int),
{
    if v > RAW_MAX as i128 {
        RAW_MAX
    } else if v < RAW_MIN as i128 {
        RAW_MIN
    } else {
        v as i64
    }
}

/// Integer square root of a number below `2^84`, by bisection.
fn isqrt_wide(n: u128) -> (r: u128)
    requires
        n < 0x10_0000_0000_0000_0000_0000,
    ensures
        r == isqrt(n as nat),
        r * r <= n,
        n < (r + 1) * (r + 1),
        r < 0x400_0000_0000,
{
    let mut lo: u128 = 0;
    let mut hi: u128 = 0x400_0000_0000;
    assert(0x400_0000_0000u128 * 0x400_0000_0000u128 == 0x10_0000_0000_0000_0000_0000u128)
        by (nonlinear_arith);
    while hi - lo > 1
        invariant
            lo < hi,
            hi <= 0x400_0000_0000,
            lo * lo <= n,
            n < hi * hi,
        decreases hi - lo,
    {
        let mid: u128 = lo + (hi - lo) / 2;
        assert(mid * mid < 0x10_0000_0000_0000_0000_0000) by (nonlinear_arith)
            requires
                mid < 0x400_0000_0000,
        ;
        if mid * mid <= n {
            lo = mid;
        } else {
            hi = mid;
        }
    }
    proof {
        assert(hi == lo + 1);
        lemma_isqrt_is(n as nat, lo as nat);
    }
    lo
}

impl Scalar {
    /// The sum, clamped.
    pub open spec fn spec_plus(self, other: Scalar) -> Scalar {
        Scalar { raw: saturate(self.raw + other.raw) as i64 }
    }

    /// The difference, clamped.
    pub open spec fn spec_minus(self, other: Scalar) -> Scalar {
        Scalar { raw: saturate(self.raw - other.raw) as i64 }
    }

    /// The negation, clamped.
    pub open spec fn spec_negated(self) -> Scalar {
        Scalar { raw: saturate(-self.raw) as i64 }
    }

    /// The product, rounded down to a millionth and clamped.
    pub open spec fn spec_times(self, other: Scalar) -> Scalar {
        Scalar { raw: saturate((self.raw * other.raw) / (SCALE as int)) as i64 }
    }

    /// The quotient, rounded down to a millionth and clamped. Dividing by
    /// zero gives the end of the range on the side of the dividend's sign,
    /// and zero for a zero dividend.
    pub open spec fn spec_over(self, other: Scalar) -> Scalar {
        if other.raw == 0 {
            if self.raw > 0 {
                Scalar { raw: RAW_MAX }
            } else if self.raw < 0 {
                Scalar { raw: RAW_MIN }
            } else {
                Scalar { raw: 0 }
            }
        } else if other.raw > 0 {
            Scalar { raw: saturate((self.raw * SCALE) / (other.raw as int)) as i64 }
        } else {
            Scalar { raw: saturate((-(self.raw * SCALE)) / (-(other.raw as int))) as i64 }
        }
    }

    /// The square root, rounded down to a millionth; zero for a negative
    /// number.
    pub open spec fn spec_root(self) -> Scalar {
        if self.raw <= 0 {
            Scalar { raw: 0 }
        } else {
            Scalar { raw: isqrt((self.raw * SCALE) as nat) as i64 }
        }
    }

    /// The smaller of two numbers.
    pub open spec fn spec_least(self, other: Scalar) -> Scalar {
        if other.raw < self.raw {
            other
        } else {
            self
        }
    }

    /// The larger of two numbers.
    pub open spec fn spec_greatest(self, other: Scalar) -> Scalar {
        if other.raw > self.raw {
            other
        } else {
            self
        }
    }

    /// The whole number `v`.
    pub open spec fn spec_from_int(v: i32) -> Scalar {
        Scalar { raw: (v * SCALE) as i64 }
    }

    /// The whole number `v`.
    pub open spec fn spec_from_u32(v: u32) -> Scalar {
        Scalar { raw: (v * SCALE) as i64 }
    }

    /// The number rounded down to a whole number.
    pub open spec fn spec_whole(self) -> i64 {
        (self.raw as int / SCALE as int) as i64
    }

    /// What is left of the number when its whole part, rounded towards
    /// zero, is taken away; it has the sign of the number.
    pub open spec fn spec_fract(self) -> Scalar {
        if self.raw >= 0 {
            Scalar { raw: (self.raw as int % SCALE as int) as i64 }
        } else {
            Scalar { raw: (-((-self.raw) % SCALE as int)) as i64 }
        }
    }

    /// A scalar of `raw` millionths.
    pub fn new(raw: i64) -> (r: Scalar)
        ensures
            r.raw == raw,
    {
        Scalar { raw }
    }

    /// The whole number `v`, which is always representable.
    #[verifier::when_used_as_spec(spec_from_int)]
    pub fn from_int(v: i32) -> (r: Scalar)
        ensures
            r == Self::spec_from_int(v),
            r.raw == v * SCALE,
    {
        let wide: i64 = v as i64;
        Scalar { raw: wide * SCALE }
    }

    /// The whole number `v`, which is always representable.
    #[verifier::when_used_as_spec(spec_from_u32)]
    pub fn from_u32(v: u32) -> (r: Scalar)
        ensures
            r == Self::spec_from_u32(v),
            r.raw == v * SCALE,
    {
        let wide: i64 = v as i64;
        Scalar { raw: wide * 1_000_000 }
    }

    #[verifier::when_used_as_spec(spec_whole)]
    pub fn whole(self) -> (r: i64)
        ensures
            r == self.spec_whole(),
            r * SCALE <= self.raw < (r + 1) * SCALE,
    {
        let q: i128 = floor_div(self.raw as i128, 1_000_000);
        proof {
            vstd::arithmetic::div_mod::lemma_fundamental_div_mod(self.raw as int, 1_000_000);
        }
        q as i64
    }

    #[verifier::when_used_as_spec(spec_fract)]
    pub fn fract(self) -> (r: Scalar)
        ensures
            r == self.spec_fract(),
            -SCALE < r.raw < SCALE,
    {
        if self.raw >= 0 {
            Scalar { raw: self.raw % 1_000_000 }
        } else {
            let n: i128 = -(self.raw as i128);
            let m: i128 = n % 1_000_000;
            Scalar { raw: (-m) as i64 }
        }
    }

    #[verifier::when_used_as_spec(spec_plus)]
    pub fn plus(self, other: Scalar) -> (r: Scalar)
        ensures
            r == self.spec_plus(other),
    {
        Scalar { raw: clamp_raw(self.raw as i128 + other.raw as i128) }
    }

    #[verifier::when_used_as_spec(spec_minus)]
    pub fn minus(self, other: Scalar) -> (r: Scalar)
        ensures
            r == self.spec_minus(other),
    {
        Scalar { raw: clamp_raw(self.raw as i128 - other.raw as i128) }
    }

    #[verifier::when_used_as_spec(spec_negated)]
    pub fn negated(self) -> (r: Scalar)
        ensures
            r == self.spec_negated(),
    {
        Scalar { raw: clamp_raw(-(self.raw as i128)) }
    }

    #[verifier::when_used_as_spec(spec_times)]
    pub fn times(self, other: Scalar) -> (r: Scalar)
        ensures
            r == self.spec_times(other),
    {
        let a: i128 = self.raw as i128;
        let b: i128 = other.raw as i128;
        assert(-0x4000_0000_0000_0000_0000_0000_0000_0000 <= a * b
            <= 0x4000_0000_0000_0000_0000_0000_0000_0000) by (nonlinear_arith)
            requires
                -0x8000_0000_0000_0000 <= a <= 0x8000_0000_0000_0000,
                -0x8000_0000_0000_0000 <= b <= 0x8000_0000_0000_0000,
        ;
        Scalar { raw: clamp_raw(floor_div(a * b, SCALE as i128)) }
    }

    #[verifier::when_used_as_spec(spec_over)]
    pub fn over(self, other: Scalar) -> (r: Scalar)
        ensures
            r == self.spec_over(other),
    {
        if other.raw == 0 {
            if self.raw > 0 {
                Scalar { raw: RAW_MAX }
            } else if self.raw < 0 {
                Scalar { raw: RAW_MIN }
            } else {
                Scalar { raw: 0 }
            }
        } else {
            let n: i128 = self.raw as i128 * 1_000_000;
            let d: i128 = other.raw as i128;
            if d > 0 {
                Scalar { raw: clamp_raw(floor_div(n, d)) }
            } else {
                Scalar { raw: clamp_raw(floor_div(-n, -d)) }
            }
        }
    }

    #[verifier::when_used_as_spec(spec_root)]
    pub fn root(self) -> (r: Scalar)
        ensures
            r == self.spec_root(),
            r.raw >= 0,
            self.raw > 0 ==> r.raw * r.raw <= self.raw * SCALE < (r.raw + 1) * (r.raw + 1),
    {
        if self.raw <= 0 {
            Scalar { raw: 0 }
        } else {
            let n: u128 = self.raw as u128 * 1_000_000;
            let r: u128 = isqrt_wide(n);
            Scalar { raw: r as i64 }
        }
    }

    #[verifier::when_used_as_spec(spec_least)]
    pub fn least(self, other: Scalar) -> (r: Scalar)
        ensures
            r == self.spec_least(other),
    {
        if other.raw < self.raw {
            other
        } else {
            self
        }
    }

    #[verifier::when_used_as_spec(spec_greatest)]
    pub fn greatest(self, other: Scalar) -> (r: Scalar)
        ensures
            r == self.spec_greatest(other),
    {
        if other.raw > self.raw {
            other
        } else {
            self
        }
    }
}

} // verus!
