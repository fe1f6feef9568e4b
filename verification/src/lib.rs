//! A single-token, autoregressive transformer decoding core.
//!
//! The engine is built from a dense row-major tensor ([`tensor::Matrix`]),
//! a stack of neural layers (projection, normalization, gated feed-forward,
//! embedding lookup) and a grouped-query attention module with rotary
//! position encoding and a growing key/value cache.
//!
//! Every operation is generic over the numeric alphabet [`scalar::Scalar`],
//! so the shape bookkeeping and the exact order of arithmetic are verified
//! once for every scalar that satisfies the trait's algebraic laws. The
//! crate ships [`fixed::Fixed`], an exact fixed-point instance.

pub mod scalar;
pub mod fixed;
pub mod tensor;
pub mod nn;
pub mod attention;
pub mod tokenizer;
