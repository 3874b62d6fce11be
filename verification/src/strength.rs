//! How strong a signal is, and the fractions by which strengths are scaled.
//!
//! Strengths are fixed-point numbers: a strength counts whole units, and
//! [`UNITS_PER_WHOLE`] units make up a strength of one.

use vstd::prelude::*;

verus! {

/// The number of units that make up a strength of one.
pub const UNITS_PER_WHOLE: u64 = 1_000_000;

/// The number of units that make up a hundredth of a strength of one.
pub const UNITS_PER_HUNDREDTH: u64 = 10_000;

/// The largest number of units a strength can hold.
pub open spec fn max_units() -> nat {
    u64::MAX as nat
}

/// `v` brought into the range of a strength: negative values become zero,
/// values above [`max_units`] become [`max_units`].
pub open spec fn clamped(v: int) -> nat {
    if v < 0 {
        0
    } else if v > max_units() {
        max_units()
    } else {
        v as nat
    }
}

/// `units` scaled by `numerator / denominator`, rounded down.
pub open spec fn scaled(units: nat, numerator: nat, denominator: nat) -> nat {
    (units * numerator) / denominator
}

/// A non-negative fraction with a non-zero denominator.
#[derive(Clone, Copy, Debug)]
pub struct Fraction {
    numerator: u64,
    denominator: u64,
}

impl Fraction {
    #[verifier::type_invariant]
    spec fn well_formed(self) -> bool {
        self.denominator > 0
    }

    /// The number above the line.
    pub closed spec fn num(self) -> nat {
        self.numerator as nat
    }

    /// The number below the line.
    pub closed spec fn den(self) -> nat {
        self.denominator as nat
    }

    /// The fraction `numerator / denominator`, or nothing when `denominator` is zero.
    pub fn new(numerator: u64, denominator: u64) -> (r: Option<Fraction>)
        ensures
            r is None <==> denominator == 0,
            r matches Some(f) ==> f.num() == numerator && f.den() == denominator,
    {
        if denominator == 0 {
            None
        } else {
            Some(Fraction { numerator, denominator })
        }
    }

    /// The fraction `numerator / denominator`, for a denominator that is
    /// known not to be zero.
    pub(crate) fn known(numerator: u64, denominator: u64) -> (r: Fraction)
        requires
            denominator > 0,
        ensures
            r.num() == numerator,
            r.den() == denominator,
    {
        Fraction { numerator, denominator }
    }

    /// The number above the line.
    pub fn numerator(&self) -> (r: u64)
        ensures
            r == self.num(),
    {
        self.numerator
    }

    /// The number below the line; never zero.
    pub fn denominator(&self) -> (r: u64)
        ensures
            r == self.den(),
            r > 0,
    {
        proof {
            use_type_invariant(self);
        }
        self.denominator
    }
}

/// How strong a signal is.
///
/// This has a minimum value of 0.
#[derive(Clone, Copy, Debug, PartialEq, Eq, PartialOrd, Ord, Hash, Structural)]
pub struct SignalStrength {
    units: u64,
}

impl SignalStrength {
    /// The number of units, as a mathematical integer.
    pub closed spec fn view(&self) -> nat {
        self.units as nat
    }

    /// A strength is never above the largest strength.
    pub proof fn lemma_bounded(&self)
        ensures
            self@ <= max_units(),
    {
    }

    /// No signal is present.
    pub fn zero() -> (r: SignalStrength)
        ensures
            r@ == 0,
    {
        SignalStrength { units: 0 }
    }

    /// Creates a new [`SignalStrength`] of `value` units, ensuring that it has a
    /// minimum value of 0.
    pub fn new(value: i64) -> (r: SignalStrength)
        ensures
            r@ == clamped(value as int),
            value >= 0 ==> r@ == value,
            value < 0 ==> r@ == 0,
    {
        if value < 0 {
            SignalStrength { units: 0 }
        } else {
            SignalStrength { units: value as u64 }
        }
    }

    /// The strength of `units` units.
    pub fn from_units(units: u64) -> (r: SignalStrength)
        ensures
            r@ == units,
    {
        SignalStrength { units }
    }

    /// The underlying number of units.
    pub fn value(&self) -> (r: u64)
        ensures
            r == self@,
    {
        self.units
    }

    /// The sum of two strengths, capped at the largest strength.
    pub fn add(self, rhs: SignalStrength) -> (r: SignalStrength)
        ensures
            r@ == clamped((self@ + rhs@) as int),
            self@ + rhs@ <= max_units() ==> r@ == self@ + rhs@,
    {
        SignalStrength { units: self.units.saturating_add(rhs.units) }
    }

    /// The difference of two strengths, floored at zero.
    pub fn sub(self, rhs: SignalStrength) -> (r: SignalStrength)
        ensures
            r@ == clamped(self@ - rhs@),
            self@ >= rhs@ ==> r@ == self@ - rhs@,
            self@ < rhs@ ==> r@ == 0,
    {
        SignalStrength { units: self.units.saturating_sub(rhs.units) }
    }

    /// This strength scaled by `factor`, rounded down to a whole number of
    /// units and capped at the largest strength.
    pub fn mul(self, factor: Fraction) -> (r: SignalStrength)
        ensures
            r@ == clamped(scaled(self@, factor.num(), factor.den()) as int),
            factor.num() <= factor.den() ==> r@ == scaled(self@, factor.num(), factor.den()),
            factor.num() <= factor.den() ==> r@ <= self@,
    {
        let numerator: u64 = factor.numerator();
        let denominator: u64 = factor.denominator();
        assert(self.units * numerator <= u64::MAX * u64::MAX) by (nonlinear_arith)
            requires
                self.units <= u64::MAX,
                numerator <= u64::MAX,
        ;
        let product: u128 = (self.units as u128) * (numerator as u128);
        let quotient: u128 = product / (denominator as u128);
        proof {
            if factor.num() <= factor.den() {
                lemma_scaled_at_most(self@, factor.num(), factor.den());
            }
        }
        if quotient > u64::MAX as u128 {
            SignalStrength { units: u64::MAX }
        } else {
            SignalStrength { units: quotient as u64 }
        }
    }
}

/// Scaling by a fraction of at most one never increases a number.
pub proof fn lemma_scaled_at_most(units: nat, numerator: nat, denominator: nat)
    requires
        denominator > 0,
        numerator <= denominator,
    ensures
        scaled(units, numerator, denominator) <= units,
{
    assert(units * numerator <= units * denominator) by (nonlinear_arith)
        requires
            numerator <= denominator,
    ;
    assert((units * numerator) / denominator <= units) by (nonlinear_arith)
        requires
            denominator > 0,
            units * numerator <= units * denominator,
    ;
}

impl Default for SignalStrength {
    /// No signal is present.
    fn default() -> (r: SignalStrength)
        ensures
            r@ == 0,
    {
        SignalStrength::zero()
    }
}

} // verus!
