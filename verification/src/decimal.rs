use vstd::arithmetic::div_mod::lemma_div_is_ordered;
use vstd::arithmetic::mul::lemma_mul_inequality;
use vstd::prelude::*;

verus! {

/// Number of atomic units in 1.0: decimals carry 18 fractional digits.
pub const DECIMAL_FRACTIONAL: u128 = 1_000_000_000_000_000_000;

/// Fixed-point decimal with 18 fractional digits: a value stands for
/// `atomics / 10^18`. Fee rates and recipient weights are such decimals.
#[derive(Clone, Copy, PartialEq, Eq, Structural, Debug)]
pub struct Decimal {
    pub atomics: u128,
}

impl View for Decimal {
    type V = Decimal;

    open spec fn view(&self) -> Decimal {
        *self
    }
}

impl DeepView for Decimal {
    type V = Decimal;

    open spec fn deep_view(&self) -> Decimal {
        *self
    }
}

impl Decimal {
    /// The decimal 0.0.
    pub fn zero() -> (r: Decimal)
        ensures
            r.atomics == 0,
    {
        Decimal { atomics: 0 }
    }

    /// The decimal 1.0.
    pub fn one() -> (r: Decimal)
        ensures
            r.atomics == DECIMAL_FRACTIONAL,
    {
        Decimal { atomics: DECIMAL_FRACTIONAL }
    }

    /// A decimal from its raw count of atomic units.
    pub fn raw(atomics: u128) -> (r: Decimal)
        ensures
            r.atomics == atomics,
    {
        Decimal { atomics }
    }

    /// `x` percent, that is `x / 100`.
    pub fn percent(x: u64) -> (r: Decimal)
        ensures
            r.atomics == x * 10_000_000_000_000_000,
    {
        proof {
            lemma_mul_inequality(x as int, u64::MAX as int, 10_000_000_000_000_000);
        }
        Decimal { atomics: (x as u128) * 10_000_000_000_000_000 }
    }

    pub fn is_zero(&self) -> (r: bool)
        ensures
            r == (self.atomics == 0),
    {
        self.atomics == 0
    }
}

/// `amount * rate`, rounded down to an integer amount of tokens.
pub open spec fn mul_floor_spec(amount: u128, rate: Decimal) -> int {
    (amount * rate.atomics) / (DECIMAL_FRACTIONAL as int)
}

/// Relies on cosmwasm_std: `Uint128 * Decimal` computes
/// `amount * atomics / 10^18` over a 256-bit intermediate, rounding down,
/// and panics only when that quotient does not fit in 128 bits.
#[verifier::external_body]
pub(crate) fn mul_floor(amount: u128, rate: Decimal) -> (r: u128)
    requires
        mul_floor_spec(amount, rate) <= u128::MAX,
    ensures
        r == mul_floor_spec(amount, rate),
{
    (cosmwasm_std::Uint128::new(amount) * cosmwasm_std::Decimal::raw(rate.atomics)).u128()
}

/// A rate of at most 1.0 never produces a fee above the amount it was
/// taken from.
pub proof fn lemma_mul_floor_le_amount(amount: u128, rate: Decimal)
    requires
        rate.atomics <= DECIMAL_FRACTIONAL,
    ensures
        0 <= mul_floor_spec(amount, rate) <= amount,
{
    let f = DECIMAL_FRACTIONAL as int;
    lemma_mul_inequality(rate.atomics as int, f, amount as int);
    lemma_div_is_ordered(amount * rate.atomics, amount * f, f);
    assert((amount * f) / f == amount) by (nonlinear_arith)
        requires
            f == DECIMAL_FRACTIONAL as int,
    ;
    assert((amount * rate.atomics) / f >= 0) by (nonlinear_arith)
        requires
            f > 0 && amount >= 0 && rate.atomics >= 0,
    ;
}

} // verus!
