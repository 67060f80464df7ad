//! Scaled-integer decimal types.
//!
//! Each type is a raw unsigned magnitude with a fixed power-of-ten scale:
//! `Price` and `FeeGrowth` carry 24 decimal places, `FixedPoint` 12,
//! `Liquidity` 6, and `TokenAmount` none. Cross-scale products and quotients
//! are computed through 256-bit intermediates so no precision is lost before
//! the final division, and subtraction below zero is a reported failure,
//! never a wrap.

use vstd::prelude::*;

use crate::wide::mul_div_floor;

verus! {

/// `10^24`, one whole unit of `Price` or `FeeGrowth`.
pub const PRICE_ONE: u128 = 1_000_000_000_000_000_000_000_000;

/// `10^12`, one whole unit of `FixedPoint`.
pub const FIXED_POINT_ONE: u128 = 1_000_000_000_000;

/// `10^6`, one whole unit of `Liquidity`.
pub const LIQUIDITY_ONE: u128 = 1_000_000;

/// Failures of the numeric engine. Every failure is fatal for the operation
/// that raised it: nothing is retried and no partial result is returned.
#[derive(Clone, Copy, Debug, PartialEq, Eq, Structural)]
pub enum MathError {
    /// A sum, product or quotient does not fit its storage width.
    Overflow,
    /// A subtraction would fall below zero.
    Underflow,
    /// A divisor is zero.
    DivisionByZero,
    /// A tick magnitude exceeds `MAX_TICK`.
    InvalidTicks,
    /// A lower tick is not below its upper tick.
    InvalidTickRange,
    /// The current sqrt price is above the range handled by the conversion.
    PriceAboveRange,
    /// The current sqrt price is below the range handled by the conversion.
    PriceBelowRange,
    /// A liquidity change too small to move any token.
    AmountTooSmall,
    /// A liquidity change too small to change the LP token supply.
    ShareChangeTooSmall,
    /// A withdrawal of more liquidity than the position holds.
    InsufficientLiquidity,
}

/// Square root of the X/Y exchange rate, scaled by `10^24`.
#[derive(Clone, Copy, Debug, PartialEq, Eq, PartialOrd, Ord, Structural)]
pub struct Price {
    pub v: u128,
}

/// Virtual liquidity provided over a tick range, scaled by `10^6`.
#[derive(Clone, Copy, Debug, PartialEq, Eq, PartialOrd, Ord, Structural)]
pub struct Liquidity {
    pub v: u128,
}

/// A generic fixed-point ratio, scaled by `10^12`.
#[derive(Clone, Copy, Debug, PartialEq, Eq, PartialOrd, Ord, Structural)]
pub struct FixedPoint {
    pub v: u128,
}

/// Cumulative fee per unit of liquidity, scaled by `10^24`.
#[derive(Clone, Copy, Debug, PartialEq, Eq, PartialOrd, Ord, Structural)]
pub struct FeeGrowth {
    pub v: u128,
}

/// A raw integral amount of token units.
#[derive(Clone, Copy, Debug, PartialEq, Eq, PartialOrd, Ord, Structural)]
pub struct TokenAmount(pub u64);

impl Price {
    /// Wraps a raw scaled magnitude.
    pub fn new(v: u128) -> (r: Self)
        ensures
            r.v == v,
    {
        Price { v }
    }

    /// The raw scaled magnitude.
    pub fn get(self) -> (r: u128)
        ensures
            r == self.v,
    {
        self.v
    }

    /// A whole number of price units.
    pub fn from_integer(i: u64) -> (r: Self)
        requires
            i * PRICE_ONE <= u128::MAX,
        ensures
            r.v == i * PRICE_ONE,
    {
        Price { v: (i as u128) * PRICE_ONE }
    }

    /// Rescales a `FixedPoint` (12 places) up to a `Price` (24 places).
    pub fn from_decimal(fp: FixedPoint) -> (r: Self)
        requires
            fp.v * FIXED_POINT_ONE <= u128::MAX,
        ensures
            r.v == fp.v * FIXED_POINT_ONE,
    {
        Price { v: fp.v * FIXED_POINT_ONE }
    }

    /// `floor(self * other)` at price scale, through a 256-bit product.
    pub fn big_mul(self, other: Price) -> (r: Result<Price, MathError>)
        ensures
            r is Ok <==> self.v * other.v / (PRICE_ONE as int) <= u128::MAX,
            r matches Ok(p) ==> p.v == self.v * other.v / (PRICE_ONE as int),
            r is Err ==> r == Err::<Price, MathError>(MathError::Overflow),
    {
        match mul_div_floor(self.v, other.v, PRICE_ONE) {
            Some(v) => Ok(Price { v }),
            None => Err(MathError::Overflow),
        }
    }

    /// Checked subtraction: fails below zero instead of wrapping.
    pub fn checked_sub(self, other: Price) -> (r: Result<Price, MathError>)
        ensures
            r is Ok <==> other.v <= self.v,
            r matches Ok(p) ==> p.v == self.v - other.v,
            r is Err ==> r == Err::<Price, MathError>(MathError::Underflow),
    {
        if other.v <= self.v {
            Ok(Price { v: self.v - other.v })
        } else {
            Err(MathError::Underflow)
        }
    }
}

impl Liquidity {
    /// Wraps a raw scaled magnitude.
    pub fn new(v: u128) -> (r: Self)
        ensures
            r.v == v,
    {
        Liquidity { v }
    }

    /// The raw scaled magnitude.
    pub fn get(self) -> (r: u128)
        ensures
            r == self.v,
    {
        self.v
    }

    /// A whole number of liquidity units.
    pub fn from_integer(i: u64) -> (r: Self)
        ensures
            r.v == i * LIQUIDITY_ONE,
    {
        Liquidity { v: (i as u128) * LIQUIDITY_ONE }
    }

    /// `floor(self * price)` at liquidity scale, through a 256-bit product.
    pub fn big_mul(self, price: Price) -> (r: Result<Liquidity, MathError>)
        ensures
            r is Ok <==> self.v * price.v / (PRICE_ONE as int) <= u128::MAX,
            r matches Ok(l) ==> l.v == self.v * price.v / (PRICE_ONE as int),
            r is Err ==> r == Err::<Liquidity, MathError>(MathError::Overflow),
    {
        match mul_div_floor(self.v, price.v, PRICE_ONE) {
            Some(v) => Ok(Liquidity { v }),
            None => Err(MathError::Overflow),
        }
    }

    /// `floor(self / price)` at liquidity scale, through a 256-bit product.
    pub fn big_div(self, price: Price) -> (r: Result<Liquidity, MathError>)
        ensures
            r is Ok <==> price.v > 0 && self.v * PRICE_ONE / (price.v as int) <= u128::MAX,
            r matches Ok(l) ==> l.v == self.v * PRICE_ONE / (price.v as int),
            price.v == 0 ==> r == Err::<Liquidity, MathError>(MathError::DivisionByZero),
            price.v > 0 && r is Err ==> r == Err::<Liquidity, MathError>(MathError::Overflow),
    {
        if price.v == 0 {
            return Err(MathError::DivisionByZero);
        }
        match mul_div_floor(self.v, PRICE_ONE, price.v) {
            Some(v) => Ok(Liquidity { v }),
            None => Err(MathError::Overflow),
        }
    }

    /// Checked addition: fails above `u128::MAX` instead of wrapping.
    pub fn checked_add(self, other: Liquidity) -> (r: Result<Liquidity, MathError>)
        ensures
            r is Ok <==> self.v + other.v <= u128::MAX,
            r matches Ok(l) ==> l.v == self.v + other.v,
            r is Err ==> r == Err::<Liquidity, MathError>(MathError::Overflow),
    {
        if other.v <= u128::MAX - self.v {
            Ok(Liquidity { v: self.v + other.v })
        } else {
            Err(MathError::Overflow)
        }
    }

    /// Checked subtraction: fails below zero instead of wrapping.
    pub fn checked_sub(self, other: Liquidity) -> (r: Result<Liquidity, MathError>)
        ensures
            r is Ok <==> other.v <= self.v,
            r matches Ok(l) ==> l.v == self.v - other.v,
            r is Err ==> r == Err::<Liquidity, MathError>(MathError::Underflow),
    {
        if other.v <= self.v {
            Ok(Liquidity { v: self.v - other.v })
        } else {
            Err(MathError::Underflow)
        }
    }
}

impl FixedPoint {
    /// Wraps a raw scaled magnitude.
    pub fn new(v: u128) -> (r: Self)
        ensures
            r.v == v,
    {
        FixedPoint { v }
    }

    /// The raw scaled magnitude.
    pub fn get(self) -> (r: u128)
        ensures
            r == self.v,
    {
        self.v
    }

    /// A whole number of fixed-point units.
    pub fn from_integer(i: u64) -> (r: Self)
        requires
            i * FIXED_POINT_ONE <= u128::MAX,
        ensures
            r.v == i * FIXED_POINT_ONE,
    {
        FixedPoint { v: (i as u128) * FIXED_POINT_ONE }
    }

    /// `floor(self * other)` at fixed-point scale, within `u128`.
    pub fn mul_floor(self, other: FixedPoint) -> (r: Self)
        requires
            self.v * other.v <= u128::MAX,
        ensures
            r.v == self.v * other.v / (FIXED_POINT_ONE as int),
    {
        FixedPoint { v: (self.v * other.v) / FIXED_POINT_ONE }
    }

    /// `floor(self / other)` at fixed-point scale, through a 256-bit product.
    pub fn big_div(self, other: FixedPoint) -> (r: Result<FixedPoint, MathError>)
        ensures
            r is Ok <==> other.v > 0 && self.v * FIXED_POINT_ONE / (other.v as int) <= u128::MAX,
            r matches Ok(f) ==> f.v == self.v * FIXED_POINT_ONE / (other.v as int),
            other.v == 0 ==> r == Err::<FixedPoint, MathError>(MathError::DivisionByZero),
            other.v > 0 && r is Err ==> r == Err::<FixedPoint, MathError>(MathError::Overflow),
    {
        if other.v == 0 {
            return Err(MathError::DivisionByZero);
        }
        match mul_div_floor(self.v, FIXED_POINT_ONE, other.v) {
            Some(v) => Ok(FixedPoint { v }),
            None => Err(MathError::Overflow),
        }
    }
}

impl FeeGrowth {
    /// Wraps a raw scaled magnitude.
    pub fn new(v: u128) -> (r: Self)
        ensures
            r.v == v,
    {
        FeeGrowth { v }
    }

    /// The raw scaled magnitude.
    pub fn get(self) -> (r: u128)
        ensures
            r == self.v,
    {
        self.v
    }
}

impl TokenAmount {
    /// Wraps a raw token amount.
    pub fn new(v: u64) -> (r: Self)
        ensures
            r.0 == v,
    {
        TokenAmount(v)
    }

    /// The raw token amount.
    pub fn get(self) -> (r: u64)
        ensures
            r == self.0,
    {
        self.0
    }

    /// Truncates a fee-growth magnitude (24 places) to whole token units.
    pub fn from_decimal(fee: FeeGrowth) -> (r: Result<TokenAmount, MathError>)
        ensures
            r is Ok <==> (fee.v as int) / (PRICE_ONE as int) <= u64::MAX,
            r matches Ok(t) ==> t.0 == (fee.v as int) / (PRICE_ONE as int),
            r is Err ==> r == Err::<TokenAmount, MathError>(MathError::Overflow),
    {
        let whole = fee.v / PRICE_ONE;
        if whole <= u64::MAX as u128 {
            Ok(TokenAmount(whole as u64))
        } else {
            Err(MathError::Overflow)
        }
    }

    /// Checked addition: fails above `u64::MAX` instead of wrapping.
    pub fn checked_add(self, other: TokenAmount) -> (r: Result<TokenAmount, MathError>)
        ensures
            r is Ok <==> self.0 + other.0 <= u64::MAX,
            r matches Ok(t) ==> t.0 == self.0 + other.0,
            r is Err ==> r == Err::<TokenAmount, MathError>(MathError::Overflow),
    {
        if other.0 <= u64::MAX - self.0 {
            Ok(TokenAmount(self.0 + other.0))
        } else {
            Err(MathError::Overflow)
        }
    }

    /// Checked subtraction: fails below zero instead of wrapping.
    pub fn checked_sub(self, other: TokenAmount) -> (r: Result<TokenAmount, MathError>)
        ensures
            r is Ok <==> other.0 <= self.0,
            r matches Ok(t) ==> t.0 == self.0 - other.0,
            r is Err ==> r == Err::<TokenAmount, MathError>(MathError::Underflow),
    {
        if other.0 <= self.0 {
            Ok(TokenAmount(self.0 - other.0))
        } else {
            Err(MathError::Underflow)
        }
    }
}

} // verus!
