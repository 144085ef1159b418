use super::interval_coefficients::IntervalCoefficients;
use super::Deck;
use vstd::prelude::*;

verus! {

/// A ready-made deck for examples and tests: the given name and card
/// paths, with stock coefficients.
pub fn deck(name: &str, paths: Vec<&str>) -> (r: Deck)
    ensures
        r.name@ == name@,
        r.card_paths.deep_view() == paths.deep_view(),
        r.interval_coefficients == (IntervalCoefficients {
            pass_coef: 1000u64,
            easy_coef: 1300u64,
            fail_coef: 0u64,
        }),
{
    Deck::new(name, paths, IntervalCoefficients::default())
}

} // verus!
