use fe_levels::analysis::{internal_process_promotion, project_histogram, DistributedStat};
use fe_levels::interface::{
    generate_histograms, AnalysisError, BlankAvoidance, Character, CountBound, PromotionKind, Stat,
    StatChange,
};
use fe_levels::rational::Rational;

type Step = StatChange<u64, PromotionKind<u64>>;

fn rat(num: u64, den: u64) -> Rational {
    Rational::new(num, den)
}

fn one_stat_character(value: u16, cap: u16, growth: u16) -> Character<u64> {
    Character {
        stats: vec![(7u64, Stat { base: 0, cap, growth, value })],
        name: String::new(),
        level: 1,
    }
}

fn plain_levelup(policy: BlankAvoidance<u64>) -> Step {
    StatChange::LevelUp { temporary_growth_override: None, blank_avoidance: policy }
}

#[test]
fn empty_sequence_yields_single_point_mass() {
    let character = one_stat_character(5, 20, 150);
    let out = generate_histograms::<u64, PromotionKind<u64>>(&Vec::new(), &character, None).unwrap();
    assert_eq!(out.len(), 1);
    assert_eq!(out[0].len(), 1);
    assert_eq!(out[0][0].0, 7u64);
    assert_eq!(out[0][0].1, vec![(5u16, rat(1, 1))]);
}

#[test]
fn simple_levelup_splits_mass() {
    let character = one_stat_character(5, 20, 150);
    let steps: Vec<Step> = vec![plain_levelup(BlankAvoidance::NoAvoidance)];
    let out = generate_histograms(&steps, &character, None).unwrap();
    assert_eq!(out.len(), 2);
    assert_eq!(out[1][0].1, vec![(6u16, rat(1, 2)), (7u16, rat(1, 2))]);
}

#[test]
fn capped_stat_merges_at_cap() {
    let character = one_stat_character(20, 20, 150);
    let steps: Vec<Step> = vec![plain_levelup(BlankAvoidance::NoAvoidance)];
    let out = generate_histograms(&steps, &character, None).unwrap();
    assert_eq!(out[1][0].1, vec![(20u16, rat(1, 1))]);
}

#[test]
fn degenerate_guaranteed_range_acts_like_no_avoidance() {
    let character = one_stat_character(5, 20, 150);
    let steps: Vec<Step> = vec![plain_levelup(BlankAvoidance::new_guaranteed_stats(
        CountBound::Included(0),
        CountBound::Unbounded,
    ))];
    let out = generate_histograms(&steps, &character, None).unwrap();
    assert_eq!(out[1][0].1, vec![(6u16, rat(1, 2)), (7u16, rat(1, 2))]);
}

#[test]
fn single_retry_discounts_blank_levels() {
    // Two stats, each growth 50.  Direct enumeration: a stat misses
    // when its first roll misses and the level was not all-blank
    // (1/2 * 1/2), or the level was all-blank (1/4) and the re-rolled
    // attempt misses again (1/2): 1/4 + 1/8 = 3/8.
    let character = Character {
        stats: vec![
            (1u64, Stat { base: 0, cap: 20, growth: 50, value: 5 }),
            (2u64, Stat { base: 0, cap: 20, growth: 50, value: 9 }),
        ],
        name: String::new(),
        level: 1,
    };
    let steps: Vec<Step> = vec![plain_levelup(BlankAvoidance::RetriesForNoBlank(1))];
    let out = generate_histograms(&steps, &character, None).unwrap();
    assert_eq!(out[1][0].1, vec![(5u16, rat(3, 8)), (6u16, rat(5, 8))]);
    assert_eq!(out[1][1].1, vec![(9u16, rat(3, 8)), (10u16, rat(5, 8))]);
}

#[test]
fn gba_two_rerolls_exact_masses() {
    // Two stats with growth 50 under two re-rolls: the no-growth mass
    // is 1/4 + 1/16 + 1/32 = 11/32 per stat.
    let character = Character {
        stats: vec![
            (1u64, Stat { base: 0, cap: 20, growth: 50, value: 5 }),
            (2u64, Stat { base: 0, cap: 20, growth: 50, value: 5 }),
        ],
        name: String::new(),
        level: 1,
    };
    let steps: Vec<Step> = vec![plain_levelup(BlankAvoidance::RetriesForNoBlank(2))];
    let out = generate_histograms(&steps, &character, None).unwrap();
    assert_eq!(out[1][0].1, vec![(5u16, rat(11, 32)), (6u16, rat(21, 32))]);
}

#[test]
fn fixed_fallback_stat_receives_blank_mass() {
    // Two stats with growth 50; the fallback stat's growth branch
    // gains the all-blank mass 1/4: 1/2 + 1/4 = 3/4; its no-growth
    // branch is discounted by the chance the other stat was blank too:
    // 1/2 * (1 - (1/4)/(1/2)) = 1/4.  The other stat is unchanged.
    let character = Character {
        stats: vec![
            (1u64, Stat { base: 0, cap: 20, growth: 50, value: 5 }),
            (2u64, Stat { base: 0, cap: 20, growth: 50, value: 5 }),
        ],
        name: String::new(),
        level: 1,
    };
    let steps: Vec<Step> = vec![plain_levelup(BlankAvoidance::AwardFixedStatOnBlank(1u64))];
    let out = generate_histograms(&steps, &character, None).unwrap();
    assert_eq!(out[1][0].1, vec![(5u16, rat(1, 4)), (6u16, rat(3, 4))]);
    assert_eq!(out[1][1].1, vec![(5u16, rat(1, 2)), (6u16, rat(1, 2))]);
}

#[test]
fn promotion_groups_by_destination_value() {
    // A two-point distribution {10: 2/5, 12: 3/5}; values at or above
    // 11 gain 5, values below gain 3: {13: 2/5, 17: 3/5}.
    let mut pmf = Vec::new();
    for v in 0..=30u16 {
        pmf.push(if v == 10 {
            rat(2, 5)
        } else if v == 12 {
            rat(3, 5)
        } else {
            rat(0, 1)
        });
    }
    let ds = DistributedStat { growth: 40, cap: 30, base: 0, pmf };
    let promo: PromotionKind<u64> =
        PromotionKind::ThresholdBonus { threshold: 11, at_or_above: 5, below: 3 };
    let nds = internal_process_promotion(9u64, &ds, &promo).unwrap();
    assert_eq!(nds.cap, 30);
    assert_eq!(nds.growth, 40);
    assert_eq!(project_histogram(&nds), vec![(13u16, rat(2, 5)), (17u16, rat(3, 5))]);
}

#[test]
fn promotion_gains_move_cap_and_value() {
    let character = one_stat_character(18, 20, 100);
    let gains: Vec<(u64, Stat)> = vec![(7u64, Stat { base: 0, cap: 25, growth: 0, value: 4 })];
    let steps: Vec<Step> =
        vec![StatChange::Promotion { promo_changes: PromotionKind::Gains(gains) }];
    let out = generate_histograms(&steps, &character, None).unwrap();
    assert_eq!(out[1][0].1, vec![(22u16, rat(1, 1))]);
}

#[test]
fn growth_boost_keeps_values() {
    let character = one_stat_character(5, 20, 100);
    let steps: Vec<Step> =
        vec![StatChange::Promotion { promo_changes: PromotionKind::GrowthBoost(5) }];
    let out = generate_histograms(&steps, &character, None).unwrap();
    assert_eq!(out[1][0].1, vec![(5u16, rat(1, 1))]);
}

#[test]
fn variable_guaranteed_stats_is_rejected() {
    let character = one_stat_character(5, 20, 150);
    let steps: Vec<Step> = vec![
        plain_levelup(BlankAvoidance::NoAvoidance),
        plain_levelup(BlankAvoidance::VariableGuaranteedStats),
    ];
    let out = generate_histograms(&steps, &character, None);
    assert_eq!(out, Err(AnalysisError::Unsupported));
    // Distinguishable from a valid empty sequence, which succeeds.
    let empty = generate_histograms::<u64, PromotionKind<u64>>(&Vec::new(), &character, None).unwrap();
    assert_eq!(empty.len(), 1);
}

#[test]
fn exact_count_guaranteed_range_is_rejected() {
    let character = one_stat_character(5, 20, 150);
    let steps: Vec<Step> = vec![plain_levelup(BlankAvoidance::new_guaranteed_stats(
        CountBound::Included(3),
        CountBound::Included(3),
    ))];
    let out = generate_histograms(&steps, &character, None);
    assert_eq!(out, Err(AnalysisError::Unsupported));
}

#[test]
fn growth_override_replaces_rate_for_one_level() {
    let character = one_stat_character(5, 20, 100);
    let override_to_200 = fe_levels::interface::GrowthOverride { overrides: vec![(7u64, 200u16)] };
    let steps: Vec<Step> = vec![
        StatChange::LevelUp {
            temporary_growth_override: Some(override_to_200),
            blank_avoidance: BlankAvoidance::NoAvoidance,
        },
        plain_levelup(BlankAvoidance::NoAvoidance),
    ];
    let out = generate_histograms(&steps, &character, None).unwrap();
    // Overridden level: exactly two guaranteed points.
    assert_eq!(out[1][0].1, vec![(7u16, rat(1, 1))]);
    // Next level uses the stat's own rate again: one guaranteed point.
    assert_eq!(out[2][0].1, vec![(8u16, rat(1, 1))]);
}

#[test]
fn mass_is_conserved_across_a_long_sequence() {
    let character = Character {
        stats: vec![
            (1u64, Stat { base: 0, cap: 20, growth: 55, value: 3 }),
            (2u64, Stat { base: 0, cap: 25, growth: 140, value: 9 }),
        ],
        name: String::new(),
        level: 1,
    };
    let steps: Vec<Step> = vec![
        plain_levelup(BlankAvoidance::NoAvoidance),
        plain_levelup(BlankAvoidance::RetriesForNoBlank(2)),
        StatChange::Promotion { promo_changes: PromotionKind::GrowthBoost(5) },
        plain_levelup(BlankAvoidance::AwardFixedStatOnBlank(2u64)),
    ];
    let out = generate_histograms(&steps, &character, None).unwrap();
    assert_eq!(out.len(), 5);
    for snapshot in &out {
        for (_key, hist) in snapshot {
            // Exact rational sum over a common denominator.
            let mut num: u128 = 0;
            let mut den: u128 = 1;
            for (value, prob) in hist {
                assert!(prob.num >= 1);
                assert!(*value <= 25);
                num = num * prob.den as u128 + prob.num as u128 * den;
                den *= prob.den as u128;
            }
            assert_eq!(num, den);
        }
    }
}

#[test]
fn deep_retry_chain_overflows_exact_arithmetic() {
    let character = Character {
        stats: vec![
            (1u64, Stat { base: 0, cap: 60, growth: 37, value: 3 }),
            (2u64, Stat { base: 0, cap: 60, growth: 91, value: 3 }),
            (3u64, Stat { base: 0, cap: 60, growth: 53, value: 3 }),
        ],
        name: String::new(),
        level: 1,
    };
    let steps: Vec<Step> = vec![plain_levelup(BlankAvoidance::RetriesForNoBlank(200))];
    let out = generate_histograms(&steps, &character, None);
    assert_eq!(out, Err(AnalysisError::Overflow));
}
