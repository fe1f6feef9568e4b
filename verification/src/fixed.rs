//! An exact fixed-point scalar.
//!
//! [`Fixed`] stores a value scaled by `SCALE` (one unit is `1/1_000_000`)
//! in an `i64`. Addition, subtraction, multiplication and division are
//! exact where the result is representable, saturate at the ends of the
//! `i64` range, and truncate toward zero; the square root is the exact
//! integer square root at this resolution. The transcendental operations
//! are deliberately coarse total stand-ins — `tanh` is the saturating
//! ramp, `exp` is its quadratic Taylor prefix, and every rotary angle is
//! read as zero — chosen so that the algebraic laws of [`Scalar`] hold
//! exactly. `Fixed` gives the engine exact, reproducible runs.

use vstd::prelude::*;
use vstd::arithmetic::div_mod::lemma_div_multiples_vanish;

use crate::scalar::Scalar;

verus! {

/// Number of fixed-point steps per unit.
pub const SCALE: i64 = 1_000_000;

/// A fixed-point number: the value `v / SCALE`.
#[derive(Clone, Copy, Debug, PartialEq, Eq, Structural)]
pub struct Fixed {
    pub v: i64,
}

/// Saturate an unbounded integer into the `i64` range.
pub open spec fn clip(x: int) -> i64 {
    if x > i64::MAX {
        i64::MAX
    } else if x < i64::MIN {
        i64::MIN
    } else {
        x as i64
    }
}

/// Magnitude of an unbounded integer.
pub open spec fn mag(x: int) -> int {
    if x < 0 {
        -x
    } else {
        x
    }
}

/// Quotient truncated toward zero, with a zero divisor mapped to zero.
pub open spec fn quot_trunc(a: int, d: int) -> int {
    if d == 0 {
        0
    } else if (a < 0) != (d < 0) {
        -(mag(a) / mag(d))
    } else {
        mag(a) / mag(d)
    }
}

/// The integer square root: the unique `r >= 0` with `r * r <= n < (r + 1) * (r + 1)`.
pub open spec fn isqrt_of(n: int) -> int {
    choose|r: int| 0 <= r && #[trigger] (r * r) <= n && n < (r + 1) * (r + 1)
}

/// Two integer square roots of the same number coincide.
proof fn lemma_isqrt_unique(n: int, r1: int, r2: int)
    requires
        0 <= r1,
        r1 * r1 <= n < (r1 + 1) * (r1 + 1),
        0 <= r2,
        r2 * r2 <= n < (r2 + 1) * (r2 + 1),
    ensures
        r1 == r2,
{
    assert(r1 == r2) by (nonlinear_arith)
        requires
            0 <= r1,
            r1 * r1 <= n < (r1 + 1) * (r1 + 1),
            0 <= r2,
            r2 * r2 <= n < (r2 + 1) * (r2 + 1);
}

/// Truncating division of an `i128` by a nonzero `i128`, saturated into `i64`.
fn quot_clip(p: i128, d: i128) -> (q: i64)
    requires
        p != i128::MIN,
        d != i128::MIN,
    ensures
        q == clip(quot_trunc(p as int, d as int)),
{
    if d == 0 {
        return 0;
    }
    let pa: u128 = if p < 0 {
        (-p) as u128
    } else {
        p as u128
    };
    let da: u128 = if d < 0 {
        (-d) as u128
    } else {
        d as u128
    };
    let qa: u128 = pa / da;
    assert(pa as int == mag(p as int));
    assert(da as int == mag(d as int));
    if (p < 0) != (d < 0) {
        if qa >= 9223372036854775808u128 {
            i64::MIN
        } else {
            -(qa as i64)
        }
    } else {
        if qa > i64::MAX as u128 {
            i64::MAX
        } else {
            qa as i64
        }
    }
}

impl Scalar for Fixed {
    open spec fn zero_s() -> Self {
        Fixed { v: 0 }
    }

    open spec fn one_s() -> Self {
        Fixed { v: SCALE }
    }

    open spec fn half_s() -> Self {
        Fixed { v: 500_000 }
    }

    open spec fn eps_s() -> Self {
        Fixed { v: 1 }
    }

    open spec fn neg_huge_s() -> Self {
        Fixed { v: (-10_000_000_000_000_000) as i64 }
    }

    open spec fn gelu_root_s() -> Self {
        Fixed { v: 797_885 }
    }

    open spec fn gelu_cubic_s() -> Self {
        Fixed { v: 44_715 }
    }

    open spec fn plus_s(self, o: Self) -> Self {
        Fixed { v: clip(self.v + o.v) }
    }

    open spec fn minus_s(self, o: Self) -> Self {
        Fixed { v: clip(self.v - o.v) }
    }

    open spec fn times_s(self, o: Self) -> Self {
        Fixed { v: clip(quot_trunc(self.v * o.v, SCALE as int)) }
    }

    open spec fn divide_s(self, o: Self) -> Self {
        Fixed { v: clip(quot_trunc(self.v * SCALE, o.v as int)) }
    }

    open spec fn max_s(self, o: Self) -> Self {
        if self.v >= o.v {
            self
        } else {
            o
        }
    }

    open spec fn lt_s(self, o: Self) -> bool {
        self.v < o.v
    }

    open spec fn exp_s(self) -> Self {
        Self::one_s().plus_s(self).plus_s(self.times_s(self).times_s(Self::half_s()))
    }

    open spec fn sqrt_s(self) -> Self {
        if self.v <= 0 {
            Fixed { v: 0 }
        } else {
            Fixed { v: clip(isqrt_of(self.v * SCALE)) }
        }
    }

    open spec fn tanh_s(self) -> Self {
        if self.v > SCALE {
            Fixed { v: SCALE }
        } else if self.v < -SCALE {
            Fixed { v: (-SCALE) as i64 }
        } else {
            self
        }
    }

    open spec fn from_count_s(n: int) -> Self {
        Fixed { v: clip(n * SCALE) }
    }

    open spec fn from_bits_s(bits: u32) -> Self {
        Fixed { v: bits as i64 }
    }

    open spec fn rope_cos_s(pos: int, j: int, head_dim: int) -> Self {
        Self::one_s()
    }

    open spec fn rope_sin_s(pos: int, j: int, head_dim: int) -> Self {
        Self::zero_s()
    }

    fn zero() -> (r: Self) {
        Fixed { v: 0 }
    }

    fn one() -> (r: Self) {
        Fixed { v: SCALE }
    }

    fn half() -> (r: Self) {
        Fixed { v: 500_000 }
    }

    fn eps() -> (r: Self) {
        Fixed { v: 1 }
    }

    fn neg_huge() -> (r: Self) {
        Fixed { v: -10_000_000_000_000_000 }
    }

    fn gelu_root() -> (r: Self) {
        Fixed { v: 797_885 }
    }

    fn gelu_cubic() -> (r: Self) {
        Fixed { v: 44_715 }
    }

    fn plus(self, o: Self) -> (r: Self) {
        let a = self.v;
        let b = o.v;
        if b >= 0 {
            if a > i64::MAX - b {
                Fixed { v: i64::MAX }
            } else {
                Fixed { v: a + b }
            }
        } else {
            if a < i64::MIN - b {
                Fixed { v: i64::MIN }
            } else {
                Fixed { v: a + b }
            }
        }
    }

    fn minus(self, o: Self) -> (r: Self) {
        let a = self.v;
        let b = o.v;
        if b >= 0 {
            if a < i64::MIN + b {
                Fixed { v: i64::MIN }
            } else {
                Fixed { v: a - b }
            }
        } else {
            if a > i64::MAX + b {
                Fixed { v: i64::MAX }
            } else {
                Fixed { v: a - b }
            }
        }
    }

    fn times(self, o: Self) -> (r: Self) {
        assert(i128::MIN < (self.v as int) * (o.v as int) && (self.v as int) * (o.v as int)
            < i128::MAX) by (nonlinear_arith)
            requires
                i64::MIN <= self.v <= i64::MAX,
                i64::MIN <= o.v <= i64::MAX;
        let p: i128 = (self.v as i128) * (o.v as i128);
        Fixed { v: quot_clip(p, SCALE as i128) }
    }

    fn divide(self, o: Self) -> (r: Self) {
        let p: i128 = (self.v as i128) * (SCALE as i128);
        assert(i128::MIN < (self.v as int) * SCALE && (self.v as int) * SCALE < i128::MAX)
            by (nonlinear_arith)
            requires
                i64::MIN <= self.v <= i64::MAX;
        Fixed { v: quot_clip(p, o.v as i128) }
    }

    fn max_of(self, o: Self) -> (r: Self) {
        if self.v >= o.v {
            self
        } else {
            o
        }
    }

    fn less_than(self, o: Self) -> (r: bool) {
        self.v < o.v
    }

    fn exp(self) -> (r: Self) {
        Self::one().plus(self).plus(self.times(self).times(Self::half()))
    }

    fn sqrt(self) -> (r: Self) {
        if self.v <= 0 {
            return Fixed { v: 0 };
        }
        let n: u128 = (self.v as u128) * (SCALE as u128);
        assert(n == self.v * SCALE) by (nonlinear_arith)
            requires
                0 < self.v <= i64::MAX,
                n == self.v as u128 * (SCALE as u128);
        let mut r: u128 = 0;
        loop
            invariant
                n == self.v * SCALE,
                n <= 0x8000000000000000000000u128,
                r * r <= n,
            ensures
                r * r <= n < (r + 1) * (r + 1),
            decreases n - r,
        {
            assert(r < 0x100000000000u128) by (nonlinear_arith)
                requires
                    r * r <= n,
                    n <= 0x8000000000000000000000u128;
            let s: u128 = r + 1;
            assert(s * s < u128::MAX && s <= s * s) by (nonlinear_arith)
                requires
                    0 < s <= 0x100000000000u128;
            if s * s <= n {
                r = s;
            } else {
                break;
            }
        }
        assert(r < 0x100000000000u128) by (nonlinear_arith)
            requires
                r * r <= n,
                n <= 0x8000000000000000000000u128;
        proof {
            assert(0 <= (r as int) && (r as int) * (r as int) <= (n as int) && (n as int) < ((
            r as int) + 1) * ((r as int) + 1));
            let rr = isqrt_of(n as int);
            assert(0 <= rr && rr * rr <= (n as int) && (n as int) < (rr + 1) * (rr + 1));
            lemma_isqrt_unique(n as int, r as int, rr);
        }
        Fixed { v: r as i64 }
    }

    fn tanh(self) -> (r: Self) {
        if self.v > SCALE {
            Fixed { v: SCALE }
        } else if self.v < -SCALE {
            Fixed { v: -SCALE }
        } else {
            self
        }
    }

    fn from_count(n: usize) -> (r: Self) {
        let p: u128 = (n as u128) * (SCALE as u128);
        assert(p == n * SCALE) by (nonlinear_arith)
            requires
                0 <= n <= usize::MAX,
                p == n as u128 * (SCALE as u128);
        if p > i64::MAX as u128 {
            Fixed { v: i64::MAX }
        } else {
            Fixed { v: p as i64 }
        }
    }

    fn from_bits(bits: u32) -> (r: Self) {
        Fixed { v: bits as i64 }
    }

    fn rope_cos(pos: usize, j: usize, head_dim: usize) -> (r: Self) {
        Fixed { v: SCALE }
    }

    fn rope_sin(pos: usize, j: usize, head_dim: usize) -> (r: Self) {
        Fixed { v: 0 }
    }

    proof fn lemma_units(x: Self) {
        assert(x.times_s(Self::zero_s()).v == 0) by {
            assert(x.v * 0 == 0);
        }
        assert(Self::zero_s().times_s(x).v == 0) by {
            assert(0 * x.v == 0);
        }
        assert(x.times_s(Self::one_s()) == x) by {
            lemma_times_scale_exact(x.v as int);
            assert(x.v * SCALE == SCALE * x.v) by (nonlinear_arith);
        }
        assert(Self::one_s().times_s(x) == x) by {
            lemma_times_scale_exact(x.v as int);
            assert(SCALE * x.v == x.v * SCALE) by (nonlinear_arith);
        }
    }

    proof fn lemma_rope_origin(j: int, head_dim: int) {
    }
}

/// Dividing `a * SCALE` back by `SCALE` (truncating) returns `a` exactly.
proof fn lemma_times_scale_exact(a: int)
    ensures
        quot_trunc(a * SCALE, SCALE as int) == a,
{
    if a >= 0 {
        assert(mag(a * SCALE) == a * SCALE) by (nonlinear_arith)
            requires
                a >= 0;
        lemma_div_multiples_vanish(a, SCALE as int);
        assert((a * SCALE) / (SCALE as int) == a);
    } else {
        assert(mag(a * SCALE) == (-a) * SCALE) by (nonlinear_arith)
            requires
                a < 0;
        lemma_div_multiples_vanish(-a, SCALE as int);
        assert(((-a) * SCALE) / (SCALE as int) == -a);
    }
}

} // verus!
