//! Constant-product automated market maker: pool bookkeeping and pricing.
//!
//! Every amount is an integer token quantity. Ratios are computed through a
//! 256-bit intermediate, and a result that does not fit in 64 bits is an
//! error rather than a wrapped value.
pub mod error;
pub mod math;
pub mod utils;
pub mod liquidity;
pub mod swap;
pub mod pool;
