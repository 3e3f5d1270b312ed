//! Synthesis of piecewise scalar functions from primitive segments.
//!
//! A `Function` tree concatenates primitive segments (polynomials and bump
//! kernels) along its time axis and sums nested child trees, tracking the
//! half-open interval over which it is defined.  All coordinates and
//! amplitudes are exact rationals; a bump's transcendental factor is carried
//! symbolically, so every result the library hands out is exact.

pub mod bump;
pub mod factory;
pub mod function;
pub mod mapping;
pub mod polynomial;
pub mod rational;
pub mod sample;
pub mod subfunction;
pub mod value;

pub use factory::Factory;
pub use function::Function;
pub use rational::Rational;
pub use value::Value;
