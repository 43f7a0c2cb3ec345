//! Permuted congruential generators and the integer arithmetic around them.
//!
//! Not for cryptographic purposes.

pub mod bounded_rand;
pub mod bounded_rand16;
pub mod counter;
pub mod dice;
pub mod entropy;
pub mod float_bits;
pub mod formulas;
pub mod games;
pub mod gen32;
pub mod modular;
pub mod os_random;
pub mod pcg;
pub mod pcg32;
pub mod retry;
pub mod slices;
pub mod wh;

pub use bounded_rand::BoundedRandU32;
pub use bounded_rand16::BoundedRandU16;
pub use dice::{ExplodingDie, StandardDie};
pub use entropy::EntropyError;
pub use float_bits::{ieee754_random_f32_bits, ieee754_random_f64_bits, next_binary_exp_distr32};
pub use gen32::Gen32;
pub use pcg::{PCG32, PCG32K};
pub use pcg32::Pcg32;
