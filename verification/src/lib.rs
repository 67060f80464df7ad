//! Pricing and share-accounting engine for a concentrated-liquidity market
//! maker wrapped behind a fungible LP token.
//!
//! All quantities are scaled unsigned integers ("decimal types"): a raw
//! magnitude plus a fixed power-of-ten scale. The engine converts integer
//! tick indices to square-root prices, liquidity to token amounts (and back),
//! and a single full-range position's liquidity to a fungible share supply,
//! with every rounding decision biased in favour of the pool.

pub mod decimals;
pub mod math;
pub mod monotone;
pub mod share;
pub mod wide;

use vstd::prelude::*;

verus! {

/// Largest tick magnitude the geometric price table can represent.
pub const MAX_TICK: i32 = 221_818;

/// Bound on the tick range usable with a given tick spacing.
pub const TICK_LIMIT: i32 = 44_364;

/// Liquidity represented by one LP token when the share supply is seeded.
pub const ONE_LP_TOKEN: u64 = 2_097_152;

/// Account records derived from a fixed identifier: the identifier seeds
/// the record's address derivation.
pub trait DerivedAccountIdentifier {
    fn ident() -> Vec<u8>;
}

} // verus!
