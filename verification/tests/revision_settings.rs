use vultan::state::card::revision_settings::{
    IntervalCalculationSettings, PossibleIntervals, RevisionSettings, FACTOR_FLOOR, MAX_FACTOR,
    MAX_INTERVAL,
};
use vultan::state::deck::interval_coefficients::MAX_COEF;
use vultan::state::card::score::Score;
use vultan::state::deck::interval_coefficients::IntervalCoefficients;

const DAY: i64 = 86400;

fn now_secs() -> i64 {
    std::time::SystemTime::now()
        .duration_since(std::time::UNIX_EPOCH)
        .unwrap()
        .as_secs() as i64
}

fn make_settings(due: i64, interval: u64, factor: u64) -> RevisionSettings {
    RevisionSettings::new(due, interval, factor)
}

fn make_calculation_settings(
    coefficients: IntervalCoefficients,
    days_overdue: i64,
) -> IntervalCalculationSettings {
    IntervalCalculationSettings {
        coefficients,
        days_overdue,
    }
}

/// The due date an interval (in thousandths of a day) moves a date to.
fn shifted_by(due: i64, interval: u64) -> i64 {
    due + (864 * interval as i64) / 10
}

#[test]
fn revision_settings_new() {
    let due = now_secs();
    let interval = 123_000;
    let memorisation_factor = 234_500;
    let expected = RevisionSettings {
        due,
        interval,
        memorisation_factor,
    };
    let actual = RevisionSettings::new(due, interval, memorisation_factor);
    assert_eq!(expected, actual);
}

#[test]
fn revision_settings_default() {
    let actual = RevisionSettings::default();
    assert_eq!(0, actual.interval);
    assert_eq!(FACTOR_FLOOR, actual.memorisation_factor);
    assert!((actual.due - now_secs()).abs() < 2);
}

#[test]
fn create_interval_calculation_settings() {
    let now = now_secs();
    let cases: Vec<(i64, i64, u64, u64, u64, u64, u64)> = vec![
        // expected days-overdue (thousandths), due, pass, easy, fail, interval, factor
        (123_000, now - 123 * DAY, 1_000, 2_000, 6_000, 1_000, 1_000),
        (0, now, 10_000_000_000_000, 10_000_000_000_000, 0, 24_000, 1_000),
    ];
    for (expected_overdue, due, pass_coef, easy_coef, fail_coef, interval, factor) in cases {
        let coefficients = IntervalCoefficients::new(pass_coef, easy_coef, fail_coef);
        let revision_settings = make_settings(due, interval, factor);
        let actual = revision_settings.create_interval_calculation_settings(&coefficients, now);
        assert_eq!(coefficients, actual.coefficients);
        assert_eq!(expected_overdue, actual.days_overdue);
    }
}

#[test]
fn create_interval_calculation_settings_when_days_overdue_is_fractional() {
    let now = now_secs();
    let coefficients = IntervalCoefficients::new(8_000, 5_000, 3_000);
    let revision_settings = make_settings(now - DAY / 2, 1_000, 1_000);
    let actual = revision_settings.create_interval_calculation_settings(&coefficients, now);
    // half a day, quantised by hour: 12 hours, or 500 thousandths of a day
    assert_eq!(500, actual.days_overdue);
}

#[test]
fn calculate_fail_interval_where_fail_coef_is_0() {
    let revision_settings = make_settings(now_secs(), 24_000, 1_000);
    let coefficients = IntervalCoefficients::new(10_000_000_000_000, 10_000_000_000_000, 0);
    let calculation_settings = make_calculation_settings(coefficients, 1_000);
    assert_eq!(0, revision_settings.calculate_fail_interval(&calculation_settings));
}

#[test]
fn calculate_fail_interval_where_fail_coef_is_non_0() {
    let revision_settings = make_settings(now_secs(), 24_000, 1_000);
    let coefficients = IntervalCoefficients::new(10_000_000_000_000, 10_000_000_000_000, 10_000);
    let calculation_settings = make_calculation_settings(coefficients, 1_000);
    assert_eq!(240_000, revision_settings.calculate_fail_interval(&calculation_settings));
}

#[test]
fn calculate_hard_interval() {
    let revision_settings = make_settings(now_secs(), 1_000, 1_000);
    let coefficients = IntervalCoefficients::new(1_000, 100, 100);
    let calculation_settings = make_calculation_settings(coefficients, 4_000);
    let actual = revision_settings.calculate_hard_interval(&calculation_settings);
    assert_eq!(2_400, actual);
}

#[test]
fn calculate_hard_interval_where_interval_is_already_high() {
    let revision_settings = make_settings(now_secs(), 100_000, 1_000);
    let coefficients = IntervalCoefficients::new(100, 100, 100);
    let calculation_settings = make_calculation_settings(coefficients, 4_000);
    let actual = revision_settings.calculate_hard_interval(&calculation_settings);
    assert_eq!(101_000, actual);
}

#[test]
fn calculate_hard_interval_where_pass_coef_is_0() {
    let revision_settings = make_settings(now_secs(), 1_000, 1_000);
    let coefficients = IntervalCoefficients::new(0, 100, 100);
    let calculation_settings = make_calculation_settings(coefficients, 4_000);
    let actual = revision_settings.calculate_hard_interval(&calculation_settings);
    assert_eq!(2_000, actual);
}

#[test]
fn calculate_pass_interval() {
    // interval 10, factor 1000, pass 5, hard 5, overdue 20 => 100
    let revision_settings = make_settings(now_secs(), 10_000, 1_000_000);
    let coefficients = IntervalCoefficients::new(5_000, 1_300, 0);
    let calculation_settings = make_calculation_settings(coefficients, 20_000);
    let actual = revision_settings.calculate_pass_interval(&calculation_settings, 5_000);
    assert_eq!(100_000, actual);
}

#[test]
fn calculate_pass_interval_where_pass_coef_is_0() {
    let revision_settings = make_settings(now_secs(), 1_000, 1_000_000);
    let coefficients = IntervalCoefficients::new(0, 1_300, 0);
    let calculation_settings = make_calculation_settings(coefficients, 1_000);
    let actual = revision_settings.calculate_pass_interval(&calculation_settings, 1_000);
    assert_eq!(2_000, actual);
}

#[test]
fn calculate_pass_interval_where_factor_is_0() {
    let revision_settings = make_settings(now_secs(), 1_000, 0);
    let coefficients = IntervalCoefficients::new(100, 1_300, 0);
    let calculation_settings = make_calculation_settings(coefficients, 1_000);
    let actual = revision_settings.calculate_pass_interval(&calculation_settings, 1_000);
    assert_eq!(2_000, actual);
}

#[test]
fn calculate_pass_interval_where_hard_interval_is_already_high() {
    let revision_settings = make_settings(now_secs(), 1_000, 1_000_000);
    let coefficients = IntervalCoefficients::new(100, 1_300, 0);
    let calculation_settings = make_calculation_settings(coefficients, 1_000);
    let actual = revision_settings.calculate_pass_interval(&calculation_settings, 1_000_000);
    assert_eq!(1_001_000, actual);
}

#[test]
fn calculate_easy_interval() {
    // interval 10, factor 2000, pass 5, easy 100, pass-interval 4, overdue 20 => 30000
    let revision_settings = make_settings(now_secs(), 10_000, 2_000_000);
    let coefficients = IntervalCoefficients::new(5_000, 100_000, 0);
    let calculation_settings = make_calculation_settings(coefficients, 20_000);
    let actual = revision_settings.calculate_easy_interval(&calculation_settings, 4_000);
    assert_eq!(30_000_000, actual);
}

#[test]
fn calculate_easy_interval_when_pass_interval_is_already_high() {
    let revision_settings = make_settings(now_secs(), 1_000, 1_000_000);
    let coefficients = IntervalCoefficients::new(100, 100, 0);
    let calculation_settings = make_calculation_settings(coefficients, 1_000);
    let actual = revision_settings.calculate_easy_interval(&calculation_settings, 100_000);
    assert_eq!(101_000, actual);
}

#[test]
fn calculate_easy_interval_when_factor_is_0() {
    let revision_settings = make_settings(now_secs(), 1_000, 0);
    let coefficients = IntervalCoefficients::new(100, 100, 0);
    let calculation_settings = make_calculation_settings(coefficients, 1_000);
    let actual = revision_settings.calculate_easy_interval(&calculation_settings, 1_000);
    assert_eq!(2_000, actual);
}

#[test]
fn calculate_easy_interval_when_pass_coef_is_0() {
    let revision_settings = make_settings(now_secs(), 1_000, 1_000_000);
    let coefficients = IntervalCoefficients::new(0, 100, 0);
    let calculation_settings = make_calculation_settings(coefficients, 1_000);
    let actual = revision_settings.calculate_easy_interval(&calculation_settings, 1_000);
    assert_eq!(2_000, actual);
}

#[test]
fn calculate_easy_interval_when_easy_coef_is_0() {
    let revision_settings = make_settings(now_secs(), 1_000, 1_000_000);
    let coefficients = IntervalCoefficients::new(100, 0, 0);
    let calculation_settings = make_calculation_settings(coefficients, 1_000);
    let actual = revision_settings.calculate_easy_interval(&calculation_settings, 1_000);
    assert_eq!(2_000, actual);
}

#[test]
fn revision_settings_calculate_possible_intervals() {
    let now = now_secs();
    let due = now - 4 * DAY;
    let revision_settings = make_settings(due, 1_000, 2_000_000);
    let coefficients = IntervalCoefficients::new(1_000, 2_000, 0);
    let expected = PossibleIntervals(0, 2_400, 6_000, 20_000);
    let actual = revision_settings.calculate_possible_intervals(&coefficients, now);
    assert_eq!(expected, actual);
}

#[test]
fn calculate_interval_with_fail_score() {
    let now = now_secs();
    let revision_settings = make_settings(now - 4 * DAY, 1_000, 2_000_000);
    let coefficients = IntervalCoefficients::new(1_000, 2_000, 0);
    let actual = revision_settings.calculate_new_interval(&Score::Fail, &coefficients, now);
    assert_eq!(0, actual);
}

#[test]
fn calculate_interval_with_hard_score() {
    let now = now_secs();
    let revision_settings = make_settings(now - 4 * DAY, 1_000, 2_000_000);
    let coefficients = IntervalCoefficients::new(1_000, 2_000, 0);
    let actual = revision_settings.calculate_new_interval(&Score::Hard, &coefficients, now);
    assert_eq!(2_400, actual);
}

#[test]
fn calculate_interval_with_pass_score() {
    let now = now_secs();
    let revision_settings = make_settings(now - 4 * DAY, 1_000, 2_000_000);
    let coefficients = IntervalCoefficients::new(1_000, 2_000, 0);
    let actual = revision_settings.calculate_new_interval(&Score::Pass, &coefficients, now);
    assert_eq!(6_000, actual);
}

#[test]
fn calculate_interval_with_easy_score() {
    let now = now_secs();
    let revision_settings = make_settings(now - 4 * DAY, 1_000, 2_000_000);
    let coefficients = IntervalCoefficients::new(1_000, 2_000, 0);
    let actual = revision_settings.calculate_new_interval(&Score::Easy, &coefficients, now);
    assert_eq!(20_000, actual);
}

#[test]
fn calculate_new_memorisation_factor_when_fail_and_factor_gt_1300() {
    let settings = make_settings(now_secs(), 1_000, 2_000_000);
    assert_eq!(1_800_000, settings.calculate_new_memorisation_factor(&Score::Fail));
}

#[test]
fn calculate_new_memorisation_factor_when_fail_and_factor_lt_1300() {
    let settings = make_settings(now_secs(), 1_000, 0);
    assert_eq!(1_300_000, settings.calculate_new_memorisation_factor(&Score::Fail));
}

#[test]
fn calculate_new_memorisation_factor_when_hard_and_factor_gt_1300() {
    let settings = make_settings(now_secs(), 1_000, 2_000_000);
    assert_eq!(1_850_000, settings.calculate_new_memorisation_factor(&Score::Hard));
}

#[test]
fn calculate_new_memorisation_factor_when_hard_and_factor_lt_1300() {
    let settings = make_settings(now_secs(), 1_000, 0);
    assert_eq!(1_300_000, settings.calculate_new_memorisation_factor(&Score::Hard));
}

#[test]
fn calculate_new_memorisation_factor_when_pass_and_factor_gt_1300() {
    let settings = make_settings(now_secs(), 1_000, 2_000_000);
    assert_eq!(2_000_000, settings.calculate_new_memorisation_factor(&Score::Pass));
}

#[test]
fn calculate_new_memorisation_factor_when_pass_and_factor_lt_1300() {
    let settings = make_settings(now_secs(), 1_000, 0);
    assert_eq!(1_300_000, settings.calculate_new_memorisation_factor(&Score::Pass));
}

#[test]
fn calculate_new_memorisation_factor_when_easy_and_factor_gt_1300() {
    let settings = make_settings(now_secs(), 1_000, 2_000_000);
    assert_eq!(2_150_000, settings.calculate_new_memorisation_factor(&Score::Easy));
}

#[test]
fn calculate_new_memorisation_factor_when_easy_and_factor_lt_1300() {
    let settings = make_settings(now_secs(), 1_000, 0);
    assert_eq!(1_300_000, settings.calculate_new_memorisation_factor(&Score::Easy));
}

#[test]
fn revision_settings_calculate_new_due_date() {
    let original_due_date = now_secs();
    let revision_settings = make_settings(original_due_date, 0, 0);
    let new_interval = 15_500;
    let expected = original_due_date + 86400 * 155 / 10; // 15.5 days in seconds
    assert_eq!(expected, revision_settings.calculate_new_due_date(new_interval));
}

#[test]
fn transform_when_fail() {
    let now = now_secs();
    let due = now - 4 * DAY;
    let settings = make_settings(due, 1_000, 2_000_000);
    let coefficients = IntervalCoefficients::new(1_000, 2_000, 0);
    let actual = settings.transform(Score::Fail, &coefficients);
    assert_eq!(make_settings(shifted_by(due, 0), 0, 1_800_000), actual);
}

#[test]
fn transform_when_hard() {
    let now = now_secs();
    let due = now - 4 * DAY;
    let settings = make_settings(due, 1_000, 2_000_000);
    let coefficients = IntervalCoefficients::new(1_000, 2_000, 0);
    let actual = settings.transform(Score::Hard, &coefficients);
    assert_eq!(make_settings(shifted_by(due, 2_400), 2_400, 1_850_000), actual);
}

#[test]
fn transform_when_pass() {
    let now = now_secs();
    let due = now - 4 * DAY;
    let settings = make_settings(due, 1_000, 2_000_000);
    let coefficients = IntervalCoefficients::new(1_000, 2_000, 0);
    let actual = settings.transform(Score::Pass, &coefficients);
    assert_eq!(make_settings(shifted_by(due, 6_000), 6_000, 2_000_000), actual);
}

#[test]
fn transform_when_easy() {
    let now = now_secs();
    let due = now - 4 * DAY;
    let settings = make_settings(due, 1_000, 2_000_000);
    let coefficients = IntervalCoefficients::new(1_000, 2_000, 0);
    let actual = settings.transform(Score::Easy, &coefficients);
    assert_eq!(make_settings(shifted_by(due, 20_000), 20_000, 2_150_000), actual);
}

#[test]
fn candidate_intervals_saturate_at_the_cap() {
    let now = now_secs();
    let due = now - 4 * DAY;
    let settings = make_settings(due, MAX_INTERVAL, MAX_FACTOR);
    let coefficients = IntervalCoefficients::new(MAX_COEF, MAX_COEF, MAX_COEF);
    let actual = settings.calculate_possible_intervals(&coefficients, now);
    assert_eq!(PossibleIntervals(MAX_INTERVAL, MAX_INTERVAL, MAX_INTERVAL, MAX_INTERVAL), actual);
}

#[test]
fn memorisation_floor_holds_for_every_outcome() {
    for score in [Score::Fail, Score::Hard, Score::Pass, Score::Easy] {
        let settings = make_settings(now_secs(), 1_000, 1_100_000);
        let factor = settings.calculate_new_memorisation_factor(&score);
        assert!(factor >= FACTOR_FLOOR);
        if !matches!(score, Score::Easy) {
            assert_eq!(FACTOR_FLOOR, factor);
        }
    }
}
