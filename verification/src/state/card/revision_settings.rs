use crate::state::card::score::Score;
use crate::state::clock;
use crate::state::clock::{valid_time, MAX_TIME};
use crate::state::deck::interval_coefficients::{IntervalCoefficients, MAX_COEF};
use vstd::prelude::*;

verus! {

/// Largest interval, in thousandths of a day, a card can be scheduled with;
/// candidate intervals that come out larger are capped here.
pub const MAX_INTERVAL: u64 = 100_000_000_000;

/// Largest memorisation factor, in thousandths; adjustments never push a
/// factor above it.
pub const MAX_FACTOR: u64 = 10_000_000_000;

/// Smallest memorisation factor, in thousandths: `1300.0`. Every adjustment
/// is floored here.
pub const FACTOR_FLOOR: u64 = 1_300_000;

/// Largest days-overdue magnitude, in thousandths of a day, that two valid
/// timestamps can produce.
pub const MAX_OVERDUE: i64 = 2_400_000_000_000;

/// Integer division truncated towards zero (the rounding a float-to-integer
/// cast performs), as opposed to Euclidean division.
pub open spec fn div_trunc(a: int, b: int) -> int
    recommends
        b > 0,
{
    if a >= 0 {
        a / b
    } else {
        -((-a) / b)
    }
}

/// How many thousandths of a day the moment `now` lies past `due`
/// (negative when `due` is still ahead). The difference is quantised to
/// whole hours first, then expressed in thousandths of a day, truncating
/// towards zero each time.
pub open spec fn spec_days_overdue(now: int, due: int) -> int {
    div_trunc(div_trunc(now - due, 3600) * 1000, 24)
}

/// Caps a candidate interval at `MAX_INTERVAL`.
pub open spec fn cap_interval(x: int) -> int {
    if x > MAX_INTERVAL as int {
        MAX_INTERVAL as int
    } else {
        x
    }
}

/// Scheduling state of one card: when it is next due (seconds since the
/// Unix epoch), the current review interval (thousandths of a day), and the
/// memorisation factor (thousandths).
#[derive(Clone, Copy, Debug, PartialEq, Eq, Structural)]
pub struct RevisionSettings {
    pub due: i64,
    pub interval: u64,
    pub memorisation_factor: u64,
}

/// The inputs one interval calculation works from: the owning deck's
/// coefficients and how far past due the card is (thousandths of a day).
#[derive(Clone, Copy, Debug, PartialEq, Eq, Structural)]
pub struct IntervalCalculationSettings {
    pub coefficients: IntervalCoefficients,
    pub days_overdue: i64,
}

impl IntervalCalculationSettings {
    pub open spec fn valid(self) -> bool {
        self.coefficients.valid() && -MAX_OVERDUE <= self.days_overdue <= MAX_OVERDUE
    }
}

/// The candidate interval for a failed review: the current interval scaled
/// by the fail coefficient. Unlike the other three candidates it has no
/// floor term, on purpose: failing usually shrinks the interval.
pub open spec fn spec_fail_interval(s: RevisionSettings, c: IntervalCoefficients) -> int {
    cap_interval((s.interval as int * c.fail_coef as int) / 1000)
}

/// The candidate interval for a hard review: `1.2` times the interval plus
/// a quarter of the overdue time, scaled by the pass coefficient, but at
/// least one day more than the current interval.
pub open spec fn spec_hard_interval(s: RevisionSettings, c: IntervalCoefficients, od: int) -> int {
    let base = s.interval as int + div_trunc(od, 4);
    let raw = div_trunc(12 * base * c.pass_coef as int, 10000);
    let fallback = s.interval as int + 1000;
    cap_interval(
        if raw > fallback {
            raw
        } else {
            fallback
        },
    )
}

/// The candidate interval for a passed review: the interval plus half the
/// overdue time, scaled by the memorisation coefficient (the factor in
/// whole units) and the pass coefficient, but at least one day more than
/// the hard candidate.
pub open spec fn spec_pass_interval(s: RevisionSettings, c: IntervalCoefficients, od: int) -> int {
    let base = s.interval as int + div_trunc(od, 2);
    let raw = div_trunc(base * s.memorisation_factor as int * c.pass_coef as int, 1_000_000_000);
    let fallback = spec_hard_interval(s, c, od) + 1000;
    cap_interval(
        if raw > fallback {
            raw
        } else {
            fallback
        },
    )
}

/// The candidate interval for an easy review: the interval plus the whole
/// overdue time, scaled by the memorisation and pass coefficients and again
/// by the easy coefficient, but at least one day more than the pass
/// candidate.
pub open spec fn spec_easy_interval(s: RevisionSettings, c: IntervalCoefficients, od: int) -> int {
    let base = s.interval as int + od;
    let scaled = div_trunc(base * s.memorisation_factor as int * c.pass_coef as int, 1_000_000_000);
    let raw = div_trunc(scaled * c.easy_coef as int, 1000);
    let fallback = spec_pass_interval(s, c, od) + 1000;
    cap_interval(
        if raw > fallback {
            raw
        } else {
            fallback
        },
    )
}

/// The interval the given outcome selects, with the overdue time derived
/// from the moment `now`.
pub open spec fn spec_new_interval(
    s: RevisionSettings,
    score: Score,
    c: IntervalCoefficients,
    now: int,
) -> int {
    let od = spec_days_overdue(now, s.due as int);
    match score {
        Score::Fail => spec_fail_interval(s, c),
        Score::Hard => spec_hard_interval(s, c, od),
        Score::Pass => spec_pass_interval(s, c, od),
        Score::Easy => spec_easy_interval(s, c, od),
    }
}

/// How an outcome moves the memorisation factor, in thousandths.
pub open spec fn spec_factor_delta(score: Score) -> int {
    match score {
        Score::Fail => -200_000,
        Score::Hard => -150_000,
        Score::Pass => 0,
        Score::Easy => 150_000,
    }
}

/// The factor after a review: moved by the outcome's delta, floored at
/// `FACTOR_FLOOR` and capped at `MAX_FACTOR`.
pub open spec fn spec_new_factor(factor: u64, score: Score) -> int {
    let bumped = factor as int + spec_factor_delta(score);
    let floored = if bumped > FACTOR_FLOOR as int {
        bumped
    } else {
        FACTOR_FLOOR as int
    };
    if floored > MAX_FACTOR as int {
        MAX_FACTOR as int
    } else {
        floored
    }
}

/// The next due date: the new interval (`86.4` seconds per thousandth of a
/// day, truncated) added to the previous due date, not to the present
/// moment, so a late review does not drift the schedule; capped at
/// `MAX_TIME`.
pub open spec fn spec_new_due(due: i64, interval: int) -> int {
    let shifted = due as int + (864 * interval) / 10;
    if shifted > MAX_TIME as int {
        MAX_TIME as int
    } else {
        shifted
    }
}

/// The scheduling state that reviewing `s` with `score` at the moment
/// `now` produces.
pub open spec fn spec_transformed_settings(
    s: RevisionSettings,
    score: Score,
    c: IntervalCoefficients,
    now: int,
) -> RevisionSettings {
    RevisionSettings {
        due: spec_new_due(s.due, spec_new_interval(s, score, c, now)) as i64,
        interval: spec_new_interval(s, score, c, now) as u64,
        memorisation_factor: spec_new_factor(s.memorisation_factor, score) as u64,
    }
}

/// `r` is exactly the scheduling state that reviewing `s` with `score` at
/// the moment `now` produces.
pub open spec fn is_transform_of(
    r: RevisionSettings,
    s: RevisionSettings,
    score: Score,
    c: IntervalCoefficients,
    now: int,
) -> bool {
    r == spec_transformed_settings(s, score, c, now)
}

/// Integer division truncated towards zero, on a possibly negative
/// dividend.
fn div_trunc_i64(a: i64, b: u64) -> (r: i64)
    requires
        b > 0,
        a != i64::MIN,
    ensures
        r == div_trunc(a as int, b as int),
        a >= 0 ==> 0 <= r <= a,
        a < 0 ==> a <= r <= 0,
{
    if a >= 0 {
        let q: u64 = (a as u64) / b;
        q as i64
    } else {
        let q: u64 = ((-a) as u64) / b;
        -(q as i64)
    }
}

impl RevisionSettings {
    /// The state is inside the ranges the scheduling arithmetic accepts.
    pub open spec fn valid(self) -> bool {
        valid_time(self.due) && self.interval <= MAX_INTERVAL && self.memorisation_factor
            <= MAX_FACTOR
    }

    pub fn new(due: i64, interval: u64, memorisation_factor: u64) -> (r: Self)
        ensures
            r == (RevisionSettings { due, interval, memorisation_factor }),
    {
        Self { due, interval, memorisation_factor }
    }

    /// Reviews this state with the given outcome at the present moment:
    /// the clock is read once, clamped, and the exact arithmetic of
    /// `transform_at` is applied to it.
    pub fn transform(self, score: Score, coefficients: &IntervalCoefficients) -> (r: Self)
        requires
            self.valid(),
            coefficients.valid(),
        ensures
            r.valid(),
            r.memorisation_factor == spec_new_factor(self.memorisation_factor, score),
            exists|now: i64|
                valid_time(now) && #[trigger] is_transform_of(r, self, score, *coefficients, now as int),
    {
        let now: i64 = clock::now_seconds();
        let r: Self = self.transform_at(score, coefficients, now);
        proof {
            assert(valid_time(now) && is_transform_of(r, self, score, *coefficients, now as int));
        }
        r
    }

    /// Reviews this state with the given outcome as of the moment `now`:
    /// selects the candidate interval the outcome calls for, moves the due
    /// date by it, and adjusts the memorisation factor.
    pub fn transform_at(
        self,
        score: Score,
        coefficients: &IntervalCoefficients,
        now: i64,
    ) -> (r: Self)
        requires
            self.valid(),
            coefficients.valid(),
            valid_time(now),
        ensures
            r.valid(),
            is_transform_of(r, self, score, *coefficients, now as int),
    {
        let new_interval: u64 = self.calculate_new_interval(&score, coefficients, now);
        Self {
            due: self.calculate_new_due_date(new_interval),
            interval: new_interval,
            memorisation_factor: self.calculate_new_memorisation_factor(&score),
        }
    }

    /// The due date `new_interval` thousandths of a day past the current
    /// one.
    pub fn calculate_new_due_date(&self, new_interval: u64) -> (r: i64)
        requires
            valid_time(self.due),
            new_interval <= MAX_INTERVAL,
        ensures
            r == spec_new_due(self.due, new_interval as int),
            valid_time(r),
    {
        let seconds_in_interval: u128 = (864u128 * (new_interval as u128)) / 10;
        let shifted: i64 = self.due + (seconds_in_interval as i64);
        if shifted > MAX_TIME {
            MAX_TIME
        } else {
            shifted
        }
    }

    /// The memorisation factor after the outcome's adjustment, floored at
    /// `FACTOR_FLOOR` and capped at `MAX_FACTOR`.
    pub fn calculate_new_memorisation_factor(&self, score: &Score) -> (r: u64)
        requires
            self.memorisation_factor <= MAX_FACTOR,
        ensures
            r == spec_new_factor(self.memorisation_factor, *score),
    {
        let f: u64 = self.memorisation_factor;
        let bumped: u64 = match score {
            Score::Fail => if f >= 200_000 {
                f - 200_000
            } else {
                0
            },
            Score::Hard => if f >= 150_000 {
                f - 150_000
            } else {
                0
            },
            Score::Pass => f,
            Score::Easy => f + 150_000,
        };
        let floored: u64 = if bumped > FACTOR_FLOOR {
            bumped
        } else {
            FACTOR_FLOOR
        };
        if floored > MAX_FACTOR {
            MAX_FACTOR
        } else {
            floored
        }
    }

    /// The candidate interval the outcome selects, from the overdue time as
    /// of `now`.
    pub fn calculate_new_interval(
        &self,
        score: &Score,
        coefficients: &IntervalCoefficients,
        now: i64,
    ) -> (r: u64)
        requires
            self.valid(),
            coefficients.valid(),
            valid_time(now),
        ensures
            r == spec_new_interval(*self, *score, *coefficients, now as int),
    {
        let possible: PossibleIntervals = self.calculate_possible_intervals(coefficients, now);
        let PossibleIntervals (fail_interval, hard_interval, pass_interval, easy_interval) =
            possible;
        match score {
            Score::Fail => fail_interval,
            Score::Hard => hard_interval,
            Score::Pass => pass_interval,
            Score::Easy => easy_interval,
        }
    }

    /// All four candidate intervals, in the fixed order fail, hard, pass,
    /// easy, each later one computed from its predecessor's floor.
    pub fn calculate_possible_intervals(
        &self,
        coefficients: &IntervalCoefficients,
        now: i64,
    ) -> (r: PossibleIntervals)
        requires
            self.valid(),
            coefficients.valid(),
            valid_time(now),
        ensures
            r == (PossibleIntervals {
                0: spec_fail_interval(*self, *coefficients) as u64,
                1: spec_hard_interval(
                    *self,
                    *coefficients,
                    spec_days_overdue(now as int, self.due as int),
                ) as u64,
                2: spec_pass_interval(
                    *self,
                    *coefficients,
                    spec_days_overdue(now as int, self.due as int),
                ) as u64,
                3: spec_easy_interval(
                    *self,
                    *coefficients,
                    spec_days_overdue(now as int, self.due as int),
                ) as u64,
            }),
    {
        let calculation_settings: IntervalCalculationSettings =
            self.create_interval_calculation_settings(coefficients, now);
        let fail_interval: u64 = self.calculate_fail_interval(&calculation_settings);
        let hard_interval: u64 = self.calculate_hard_interval(&calculation_settings);
        let pass_interval: u64 = self.calculate_pass_interval(&calculation_settings, hard_interval);
        let easy_interval: u64 = self.calculate_easy_interval(&calculation_settings, pass_interval);
        PossibleIntervals(fail_interval, hard_interval, pass_interval, easy_interval)
    }

    /// Packs the coefficients with the hour-quantised overdue time as of
    /// `now`.
    pub fn create_interval_calculation_settings(
        &self,
        coefficients: &IntervalCoefficients,
        now: i64,
    ) -> (r: IntervalCalculationSettings)
        requires
            valid_time(self.due),
            valid_time(now),
        ensures
            r.coefficients == *coefficients,
            r.days_overdue == spec_days_overdue(now as int, self.due as int),
            -MAX_OVERDUE <= r.days_overdue <= MAX_OVERDUE,
    {
        let diff: i64 = now - self.due;
        let hours: i64 = div_trunc_i64(diff, 3600);
        proof {
            lemma_overdue_hours_bound(diff as int, hours as int);
        }
        let days_overdue_quantised_by_hour: i64 = div_trunc_i64(hours * 1000, 24);
        IntervalCalculationSettings {
            coefficients: *coefficients,
            days_overdue: days_overdue_quantised_by_hour,
        }
    }

    /// The fail candidate: the interval scaled by the fail coefficient,
    /// with no floor term.
    pub fn calculate_fail_interval(&self, calculation_settings: &IntervalCalculationSettings) -> (r:
        u64)
        ensures
            r == spec_fail_interval(*self, calculation_settings.coefficients),
    {
        proof {
            lemma_mul_bound(
                self.interval as int,
                calculation_settings.coefficients.fail_coef as int,
                0xFFFF_FFFF_FFFF_FFFF,
                0xFFFF_FFFF_FFFF_FFFF,
            );
        }
        let prod: u128 = (self.interval as u128) * (calculation_settings.coefficients.fail_coef
            as u128);
        let q: u128 = prod / 1000;
        if q > MAX_INTERVAL as u128 {
            MAX_INTERVAL
        } else {
            q as u64
        }
    }

    /// The hard candidate, floored at one day past the current interval.
    pub fn calculate_hard_interval(&self, calculation_settings: &IntervalCalculationSettings) -> (r:
        u64)
        requires
            self.interval <= MAX_INTERVAL,
            calculation_settings.valid(),
        ensures
            r == spec_hard_interval(
                *self,
                calculation_settings.coefficients,
                calculation_settings.days_overdue as int,
            ),
    {
        let od_quarter: i64 = div_trunc_i64(calculation_settings.days_overdue, 4);
        let base: i64 = (self.interval as i64) + od_quarter;
        let fallback: u64 = self.interval + 1000;
        let chosen: u128 = if base <= 0 {
            proof {
                lemma_mul_sign(base as int, calculation_settings.coefficients.pass_coef as int);
                lemma_div_trunc_nonpos(
                    12 * (base as int) * (calculation_settings.coefficients.pass_coef as int),
                    10000,
                );
            }
            fallback as u128
        } else {
            proof {
                lemma_mul_bound(
                    12 * (base as int),
                    calculation_settings.coefficients.pass_coef as int,
                    8_400_000_000_000,
                    1_000_000_000_000,
                );
            }
            let prod: u128 = (12u128 * (base as u128)) * (calculation_settings.coefficients.pass_coef
                as u128);
            let raw: u128 = prod / 10000;
            if raw > fallback as u128 {
                raw
            } else {
                fallback as u128
            }
        };
        if chosen > MAX_INTERVAL as u128 {
            MAX_INTERVAL
        } else {
            chosen as u64
        }
    }

    /// The pass candidate, floored at one day past the hard candidate.
    pub fn calculate_pass_interval(
        &self,
        calculation_settings: &IntervalCalculationSettings,
        hard_interval: u64,
    ) -> (r: u64)
        requires
            self.interval <= MAX_INTERVAL,
            self.memorisation_factor <= MAX_FACTOR,
            calculation_settings.valid(),
            hard_interval == spec_hard_interval(
                *self,
                calculation_settings.coefficients,
                calculation_settings.days_overdue as int,
            ),
        ensures
            r == spec_pass_interval(
                *self,
                calculation_settings.coefficients,
                calculation_settings.days_overdue as int,
            ),
    {
        let od_half: i64 = div_trunc_i64(calculation_settings.days_overdue, 2);
        let base: i64 = (self.interval as i64) + od_half;
        let fallback: u64 = hard_interval + 1000;
        let chosen: u128 = if base <= 0 {
            proof {
                lemma_mul_sign(base as int, self.memorisation_factor as int);
                lemma_mul_sign(
                    (base as int) * (self.memorisation_factor as int),
                    calculation_settings.coefficients.pass_coef as int,
                );
                lemma_div_trunc_nonpos(
                    (base as int) * (self.memorisation_factor as int) * (
                    calculation_settings.coefficients.pass_coef as int),
                    1_000_000_000,
                );
            }
            fallback as u128
        } else {
            proof {
                lemma_mul_bound(base as int, self.memorisation_factor as int, 1_300_000_000_000,
                    10_000_000_000);
                lemma_mul_bound(
                    (base as int) * (self.memorisation_factor as int),
                    calculation_settings.coefficients.pass_coef as int,
                    13_000_000_000_000_000_000_000_000,
                    1_000_000_000_000,
                );
            }
            let prod: u128 = ((base as u128) * (self.memorisation_factor as u128)) * (
            calculation_settings.coefficients.pass_coef as u128);
            let raw: u128 = prod / 1_000_000_000;
            if raw > fallback as u128 {
                raw
            } else {
                fallback as u128
            }
        };
        if chosen > MAX_INTERVAL as u128 {
            MAX_INTERVAL
        } else {
            chosen as u64
        }
    }

    /// The easy candidate, floored at one day past the pass candidate.
    pub fn calculate_easy_interval(
        &self,
        calculation_settings: &IntervalCalculationSettings,
        pass_interval: u64,
    ) -> (r: u64)
        requires
            self.interval <= MAX_INTERVAL,
            self.memorisation_factor <= MAX_FACTOR,
            calculation_settings.valid(),
            pass_interval == spec_pass_interval(
                *self,
                calculation_settings.coefficients,
                calculation_settings.days_overdue as int,
            ),
        ensures
            r == spec_easy_interval(
                *self,
                calculation_settings.coefficients,
                calculation_settings.days_overdue as int,
            ),
    {
        let base: i64 = (self.interval as i64) + calculation_settings.days_overdue;
        let fallback: u64 = pass_interval + 1000;
        let chosen: u128 = if base <= 0 {
            proof {
                lemma_mul_sign(base as int, self.memorisation_factor as int);
                lemma_mul_sign(
                    (base as int) * (self.memorisation_factor as int),
                    calculation_settings.coefficients.pass_coef as int,
                );
                lemma_div_trunc_nonpos(
                    (base as int) * (self.memorisation_factor as int) * (
                    calculation_settings.coefficients.pass_coef as int),
                    1_000_000_000,
                );
                lemma_mul_nonpos_nonneg(
                    div_trunc(
                        (base as int) * (self.memorisation_factor as int) * (
                        calculation_settings.coefficients.pass_coef as int),
                        1_000_000_000,
                    ),
                    calculation_settings.coefficients.easy_coef as int,
                );
                lemma_div_trunc_nonpos(
                    div_trunc(
                        (base as int) * (self.memorisation_factor as int) * (
                        calculation_settings.coefficients.pass_coef as int),
                        1_000_000_000,
                    ) * (calculation_settings.coefficients.easy_coef as int),
                    1000,
                );
            }
            fallback as u128
        } else {
            proof {
                lemma_mul_bound(base as int, self.memorisation_factor as int, 2_500_000_000_000,
                    10_000_000_000);
                lemma_mul_bound(
                    (base as int) * (self.memorisation_factor as int),
                    calculation_settings.coefficients.pass_coef as int,
                    25_000_000_000_000_000_000_000,
                    1_000_000_000_000,
                );
            }
            let prod: u128 = ((base as u128) * (self.memorisation_factor as u128)) * (
            calculation_settings.coefficients.pass_coef as u128);
            let scaled: u128 = prod / 1_000_000_000;
            proof {
                vstd::arithmetic::div_mod::lemma_div_is_ordered(
                    prod as int,
                    25_000_000_000_000_000_000_000_000_000_000_000,
                    1_000_000_000,
                );
                vstd::arithmetic::div_mod::lemma_div_pos_is_pos(prod as int, 1_000_000_000);
                lemma_mul_bound(scaled as int, calculation_settings.coefficients.easy_coef as int,
                    25_000_000_000_000_000_000_000_000, 1_000_000_000_000);
            }
            let prod2: u128 = scaled * (calculation_settings.coefficients.easy_coef as u128);
            let raw: u128 = prod2 / 1000;
            if raw > fallback as u128 {
                raw
            } else {
                fallback as u128
            }
        };
        if chosen > MAX_INTERVAL as u128 {
            MAX_INTERVAL
        } else {
            chosen as u64
        }
    }
}

/// The product of two bounded non-negative integers is bounded by the
/// product of the bounds.
proof fn lemma_mul_bound(a: int, b: int, bound_a: int, bound_b: int)
    requires
        0 <= a <= bound_a,
        0 <= b <= bound_b,
    ensures
        0 <= a * b <= bound_a * bound_b,
{
    vstd::arithmetic::mul::lemma_mul_upper_bound(a, bound_a, b, bound_b);
    vstd::arithmetic::mul::lemma_mul_nonnegative(a, b);
}

/// Multiplying a non-positive integer by a non-negative one stays
/// non-positive.
proof fn lemma_mul_nonpos_nonneg(a: int, b: int)
    requires
        a <= 0,
        0 <= b,
    ensures
        a * b <= 0,
{
    vstd::arithmetic::mul::lemma_mul_nonnegative(-a, b);
    assert((-a) * b == -(a * b)) by (nonlinear_arith);
}

/// A non-positive product divided (truncating) by a positive divisor stays
/// non-positive.
proof fn lemma_div_trunc_nonpos(a: int, b: int)
    requires
        a <= 0,
        b > 0,
    ensures
        div_trunc(a, b) <= 0,
{
    if a < 0 {
        vstd::arithmetic::div_mod::lemma_div_pos_is_pos(-a, b);
    } else {
        vstd::arithmetic::div_mod::lemma_div_of0(b);
    }
}

/// The sign of a product of a non-positive and a non-negative factor.
proof fn lemma_mul_sign(a: int, b: int)
    requires
        a <= 0,
        0 <= b,
    ensures
        a * b <= 0,
        12 * a * b <= 0,
{
    lemma_mul_nonpos_nonneg(a, b);
    lemma_mul_nonpos_nonneg(12 * a, b);
}


/// The four candidate intervals, in the order fail, hard, pass, easy.
#[derive(Clone, Copy, Debug, PartialEq, Eq, Structural)]
pub struct PossibleIntervals(pub u64, pub u64, pub u64, pub u64);

impl Default for RevisionSettings {
    /// The scheduling state of a brand-new card: due now, no interval yet,
    /// factor at the floor.
    fn default() -> (r: Self)
        ensures
            r.interval == 0,
            r.memorisation_factor == FACTOR_FLOOR,
            valid_time(r.due),
            r.valid(),
    {
        Self::new(clock::now_seconds(), 0, FACTOR_FLOOR)
    }
}

/// Quantising a bounded difference of timestamps to hours keeps it small.
proof fn lemma_overdue_hours_bound(diff: int, hours: int)
    requires
        -200_000_000_000_000 <= diff <= 200_000_000_000_000,
        hours == div_trunc(diff, 3600),
    ensures
        -57_600_000_000 <= hours <= 57_600_000_000,
{
    if diff >= 0 {
        vstd::arithmetic::div_mod::lemma_div_is_ordered(diff, 200_000_000_000_000, 3600);
        assert(200_000_000_000_000int / 3600 <= 57_600_000_000);
    } else {
        vstd::arithmetic::div_mod::lemma_div_is_ordered(-diff, 200_000_000_000_000, 3600);
        assert(200_000_000_000_000int / 3600 <= 57_600_000_000);
        vstd::arithmetic::div_mod::lemma_div_pos_is_pos(-diff, 3600);
    }
}

/// Law: the memorisation floor. Whatever the outcome, the new factor never
/// falls below `FACTOR_FLOOR`; and whenever the adjusted factor would land
/// on or under the floor (so for every outcome whose delta is not positive,
/// from any starting factor below the floor), the result is exactly
/// `FACTOR_FLOOR`.
pub proof fn lemma_memorisation_floor(factor: u64, score: Score)
    ensures
        spec_new_factor(factor, score) >= FACTOR_FLOOR,
        factor + spec_factor_delta(score) <= FACTOR_FLOOR ==> spec_new_factor(factor, score)
            == FACTOR_FLOOR,
{
}

/// Law: the candidate ladder. The hard candidate is at least a day past
/// the current interval, the pass candidate at least a day past the hard
/// one, the easy candidate at least a day past the pass one — each up to
/// the cap — while the fail candidate has no such floor.
pub proof fn lemma_interval_ladder(s: RevisionSettings, c: IntervalCoefficients, od: int)
    ensures
        spec_hard_interval(s, c, od) >= cap_interval(s.interval as int + 1000),
        spec_pass_interval(s, c, od) >= cap_interval(spec_hard_interval(s, c, od) + 1000),
        spec_easy_interval(s, c, od) >= cap_interval(spec_pass_interval(s, c, od) + 1000),
        spec_fail_interval(s, c) >= 0,
{
    vstd::arithmetic::div_mod::lemma_div_pos_is_pos(
        s.interval as int * c.fail_coef as int,
        1000,
    );
}

} // verus!

