//! The numeric alphabet of the engine.
//!
//! Every tensor operation in this crate is written against this trait, so
//! the layout and ordering guarantees are proved once for every scalar.
//! Each exec operation is pinned to a spec-level twin (`plus` to `plus_s`
//! and so on), and a small set of algebraic laws — proved by every
//! implementation — is what makes the engine-level lemmas (rotation at
//! position zero is the identity, the gating nonlinearity fixes zero) go
//! through generically.

use vstd::prelude::*;

verus! {

/// A numeric scalar: the element type of every tensor in the engine.
///
/// The named constants are the ones the engine needs: `half`, `one` and the
/// two gating coefficients appear in the tanh-form gating nonlinearity
/// `half * x * (one + tanh(gelu_root * (x + gelu_cubic * x^3)))`; `eps` is
/// the bias added under the square root of the root-mean-square norm;
/// `neg_huge` is the sentinel score that every real vocabulary score beats.
pub trait Scalar: Sized + Copy {
    spec fn zero_s() -> Self;

    spec fn one_s() -> Self;

    spec fn half_s() -> Self;

    spec fn eps_s() -> Self;

    spec fn neg_huge_s() -> Self;

    spec fn gelu_root_s() -> Self;

    spec fn gelu_cubic_s() -> Self;

    spec fn plus_s(self, o: Self) -> Self;

    spec fn minus_s(self, o: Self) -> Self;

    spec fn times_s(self, o: Self) -> Self;

    spec fn divide_s(self, o: Self) -> Self;

    spec fn max_s(self, o: Self) -> Self;

    spec fn lt_s(self, o: Self) -> bool;

    spec fn exp_s(self) -> Self;

    spec fn sqrt_s(self) -> Self;

    spec fn tanh_s(self) -> Self;

    spec fn from_count_s(n: int) -> Self;

    spec fn from_bits_s(bits: u32) -> Self;

    /// Cosine of the rotary angle for `pos / 10000^(2j/head_dim)`.
    spec fn rope_cos_s(pos: int, j: int, head_dim: int) -> Self;

    /// Sine of the rotary angle for `pos / 10000^(2j/head_dim)`.
    spec fn rope_sin_s(pos: int, j: int, head_dim: int) -> Self;

    fn zero() -> (r: Self)
        ensures
            r == Self::zero_s(),
    ;

    fn one() -> (r: Self)
        ensures
            r == Self::one_s(),
    ;

    fn half() -> (r: Self)
        ensures
            r == Self::half_s(),
    ;

    fn eps() -> (r: Self)
        ensures
            r == Self::eps_s(),
    ;

    fn neg_huge() -> (r: Self)
        ensures
            r == Self::neg_huge_s(),
    ;

    fn gelu_root() -> (r: Self)
        ensures
            r == Self::gelu_root_s(),
    ;

    fn gelu_cubic() -> (r: Self)
        ensures
            r == Self::gelu_cubic_s(),
    ;

    fn plus(self, o: Self) -> (r: Self)
        ensures
            r == self.plus_s(o),
    ;

    fn minus(self, o: Self) -> (r: Self)
        ensures
            r == self.minus_s(o),
    ;

    fn times(self, o: Self) -> (r: Self)
        ensures
            r == self.times_s(o),
    ;

    fn divide(self, o: Self) -> (r: Self)
        ensures
            r == self.divide_s(o),
    ;

    fn max_of(self, o: Self) -> (r: Self)
        ensures
            r == self.max_s(o),
    ;

    fn less_than(self, o: Self) -> (r: bool)
        ensures
            r == self.lt_s(o),
    ;

    fn exp(self) -> (r: Self)
        ensures
            r == self.exp_s(),
    ;

    fn sqrt(self) -> (r: Self)
        ensures
            r == self.sqrt_s(),
    ;

    fn tanh(self) -> (r: Self)
        ensures
            r == self.tanh_s(),
    ;

    fn from_count(n: usize) -> (r: Self)
        ensures
            r == Self::from_count_s(n as int),
    ;

    fn from_bits(bits: u32) -> (r: Self)
        ensures
            r == Self::from_bits_s(bits),
    ;

    fn rope_cos(pos: usize, j: usize, head_dim: usize) -> (r: Self)
        ensures
            r == Self::rope_cos_s(pos as int, j as int, head_dim as int),
    ;

    fn rope_sin(pos: usize, j: usize, head_dim: usize) -> (r: Self)
        ensures
            r == Self::rope_sin_s(pos as int, j as int, head_dim as int),
    ;

    /// Zero and one behave as the additive and multiplicative units.
    proof fn lemma_units(x: Self)
        ensures
            x.plus_s(Self::zero_s()) == x,
            Self::zero_s().plus_s(x) == x,
            x.minus_s(Self::zero_s()) == x,
            x.times_s(Self::zero_s()) == Self::zero_s(),
            Self::zero_s().times_s(x) == Self::zero_s(),
            x.times_s(Self::one_s()) == x,
            Self::one_s().times_s(x) == x,
    ;

    /// At position zero the rotary angle is zero, so its cosine is one and
    /// its sine is zero, for every dimension pair of every head.
    proof fn lemma_rope_origin(j: int, head_dim: int)
        ensures
            Self::rope_cos_s(0, j, head_dim) == Self::one_s(),
            Self::rope_sin_s(0, j, head_dim) == Self::zero_s(),
    ;
}

/// The tanh-form gating nonlinearity applied element-wise by the
/// feed-forward block: `half * x * (one + tanh(gelu_root * (x + gelu_cubic * x^3)))`,
/// with the products associated exactly as the engine computes them.
pub open spec fn gelu_s<T: Scalar>(x: T) -> T {
    T::half_s().times_s(x).times_s(
        T::one_s().plus_s(
            T::gelu_root_s().times_s(
                x.plus_s(T::gelu_cubic_s().times_s(x.times_s(x).times_s(x))),
            ).tanh_s(),
        ),
    )
}

/// The gating nonlinearity fixes zero: `gelu(0) == 0` over any scalar.
pub proof fn lemma_gelu_zero<T: Scalar>()
    ensures
        gelu_s(T::zero_s()) == T::zero_s(),
{
    let t = T::one_s().plus_s(
        T::gelu_root_s().times_s(
            T::zero_s().plus_s(
                T::gelu_cubic_s().times_s(T::zero_s().times_s(T::zero_s()).times_s(T::zero_s())),
            ),
        ).tanh_s(),
    );
    T::lemma_units(T::half_s());
    T::lemma_units(t);
}

} // verus!
