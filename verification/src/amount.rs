//! The monetary value type: an exact base-10 fixed-point number.
//!
//! A value counts `units` of 10^-8 of one currency unit, stored in an `i128`.
//! Addition, subtraction, negation and comparison are exact; a separate
//! rounding operation, used only at the reporting boundary, rounds to four
//! decimal places with ties going to the even neighbour.

use vstd::prelude::*;

verus! {

/// Representation units in one whole currency unit (eight decimal places).
pub const UNITS_PER_ONE: i128 = 100_000_000;

/// Representation units in one reporting step (four decimal places).
pub const DISPLAY_UNIT: i128 = 10_000;

/// Largest representation value accepted for a single transaction amount
/// (ten billion whole currency units). Balances, which are signed sums of
/// accepted amounts, then stay far inside the `i128` range.
pub const MAX_AMOUNT_UNITS: i128 = 1_000_000_000_000_000_000;

/// A bound no balance can pass: a history is at most `usize::MAX` records
/// long, and each record moves a balance by at most twice the largest
/// accepted amount. Four times `MAX_AMOUNT_UNITS` per possible record is a
/// comfortable margin, and still leaves most of the `i128` range free.
pub const MAX_BALANCE_UNITS: i128 = 40_000_000_000_000_000_000_000_000_000_000_000_000;

/// An exact fixed-point monetary value; may be negative.
#[derive(Clone, Copy, Debug, PartialEq, Eq, Structural)]
pub struct Amount {
    units: i128,
}

impl View for Amount {
    type V = int;

    closed spec fn view(&self) -> int {
        self.units as int
    }
}

/// The value, rounded to four decimal places with ties to the even neighbour,
/// still counted in units of 10^-8.
pub open spec fn round4(v: int) -> int {
    let q = v / (DISPLAY_UNIT as int);
    let r = v % (DISPLAY_UNIT as int);
    if r < DISPLAY_UNIT / 2 {
        q * DISPLAY_UNIT
    } else if r > DISPLAY_UNIT / 2 {
        (q + 1) * DISPLAY_UNIT
    } else if q % 2 == 0 {
        q * DISPLAY_UNIT
    } else {
        (q + 1) * DISPLAY_UNIT
    }
}

impl Amount {
    /// Builds a value from a count of 10^-8 units.
    pub fn from_units(units: i128) -> (r: Amount)
        ensures
            r@ == units,
    {
        Amount { units }
    }

    /// Builds a value from a count of whole currency units.
    pub fn from_whole(whole: i64) -> (r: Amount)
        ensures
            r@ == whole * UNITS_PER_ONE,
    {
        Amount { units: (whole as i128) * UNITS_PER_ONE }
    }

    /// The zero value.
    pub fn zero() -> (r: Amount)
        ensures
            r@ == 0,
    {
        Amount { units: 0 }
    }

    /// The underlying count of 10^-8 units.
    pub fn units(&self) -> (r: i128)
        ensures
            r == self@,
    {
        self.units
    }

    /// Exact addition.
    pub fn add(self, other: Amount) -> (r: Amount)
        requires
            i128::MIN <= self@ + other@ <= i128::MAX,
        ensures
            r@ == self@ + other@,
    {
        Amount { units: self.units + other.units }
    }

    /// Exact subtraction.
    pub fn sub(self, other: Amount) -> (r: Amount)
        requires
            i128::MIN <= self@ - other@ <= i128::MAX,
        ensures
            r@ == self@ - other@,
    {
        Amount { units: self.units - other.units }
    }

    /// Exact negation.
    pub fn neg(self) -> (r: Amount)
        requires
            self@ != i128::MIN,
        ensures
            r@ == -self@,
    {
        Amount { units: -self.units }
    }

    /// Strict comparison.
    pub fn lt(&self, other: &Amount) -> (r: bool)
        ensures
            r == (self@ < other@),
    {
        self.units < other.units
    }

    /// True when the value is strictly positive.
    pub fn is_positive(&self) -> (r: bool)
        ensures
            r == (self@ > 0),
    {
        self.units > 0
    }

    /// Rounds to four decimal places, ties to the even neighbour. Used only
    /// at the reporting boundary; internal accumulation never rounds.
    pub fn round_dp4(self) -> (r: Amount)
        requires
            i128::MIN + 20000 <= self@ <= i128::MAX - 20000,
        ensures
            r@ == round4(self@),
    {
        if self.units >= 0 {
            let m = self.units as u128;
            let q = m / 10_000u128;
            let rem = m % 10_000u128;
            let round_up = !(rem < 5_000 || (rem == 5_000 && q % 2 == 0));
            proof {
                assert(m == self@);
                assert(q == self@ / (DISPLAY_UNIT as int));
                assert(rem == self@ % (DISPLAY_UNIT as int));
                assert(q * 10_000 <= m) by {
                    vstd::arithmetic::div_mod::lemma_fundamental_div_mod(
                        m as int,
                        10_000int,
                    );
                }
            }
            let base = (q as i128) * 10_000;
            let result = if round_up {
                base + 10_000
            } else {
                base
            };
            Amount { units: result }
        } else {
            let neg = -self.units;
            let m = neg as u128;
            let qm = m / 10_000u128;
            let rm = m % 10_000u128;
            proof {
                vstd::arithmetic::div_mod::lemma_fundamental_div_mod(m as int, 10_000int);
                assert(m == qm * 10_000 + rm);
            }
            if rm == 0 {
                proof {
                    // self@ == -(qm * 10_000): an exact multiple rounds to itself.
                    vstd::arithmetic::div_mod::lemma_fundamental_div_mod_converse(
                        self@,
                        10_000int,
                        -(qm as int),
                        0int,
                    );
                }
                self
            } else {
                // In Euclidean terms, self@ = 10_000 * (-qm - 1) + (10_000 - rm).
                let q = -(qm as i128) - 1;
                let rem = 10_000 - (rm as i128);
                let q_even = qm % 2 == 1;
                proof {
                    vstd::arithmetic::div_mod::lemma_fundamental_div_mod_converse(
                        self@,
                        10_000int,
                        q as int,
                        rem as int,
                    );
                    assert(q == self@ / (DISPLAY_UNIT as int));
                    assert(rem == self@ % (DISPLAY_UNIT as int));
                    vstd::arithmetic::div_mod::lemma_fundamental_div_mod(qm as int, 2int);
                    vstd::arithmetic::div_mod::lemma_fundamental_div_mod_converse(
                        q as int,
                        2int,
                        -((qm as int) / 2) - 1,
                        if qm % 2 == 1 { 0int } else { 1int },
                    );
                    assert((q as int % 2 == 0) == q_even);
                }
                let base = q * 10_000;
                let result = if !(rem < 5_000 || (rem == 5_000 && q_even)) {
                    base + 10_000
                } else {
                    base
                };
                Amount { units: result }
            }
        }
    }
}

} // verus!
