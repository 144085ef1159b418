use vstd::prelude::*;

verus! {

/// One whole unit of a coefficient, factor or interval: stored values count
/// thousandths, so `1300` stands for `1.3`.
pub const UNIT: u64 = 1000;

/// Largest coefficient the scheduling arithmetic accepts (a million times
/// one unit); the bound keeps every intermediate product inside 128 bits.
pub const MAX_COEF: u64 = 1_000_000_000_000;

/// Per-deck tuning coefficients for the candidate-interval ladder, in
/// thousandths: `pass_coef == 1000` leaves the pass interval unscaled.
#[derive(Clone, Copy, Debug, PartialEq, Eq, Structural)]
pub struct IntervalCoefficients {
    pub pass_coef: u64,
    pub easy_coef: u64,
    pub fail_coef: u64,
}

impl IntervalCoefficients {
    /// All three coefficients are small enough for the interval arithmetic.
    pub open spec fn valid(self) -> bool {
        self.pass_coef <= MAX_COEF && self.easy_coef <= MAX_COEF && self.fail_coef
            <= MAX_COEF
    }

    pub fn new(pass_coef: u64, easy_coef: u64, fail_coef: u64) -> (r: Self)
        ensures
            r == (IntervalCoefficients { pass_coef, easy_coef, fail_coef }),
    {
        Self { pass_coef, easy_coef, fail_coef }
    }
}

impl Default for IntervalCoefficients {
    /// The stock tuning: pass `1.0`, easy `1.3`, fail `0.0`.
    fn default() -> (r: Self)
        ensures
            r == (IntervalCoefficients { pass_coef: 1000u64, easy_coef: 1300u64, fail_coef: 0u64 }),
            r.valid(),
    {
        Self::new(1000, 1300, 0)
    }
}

} // verus!
