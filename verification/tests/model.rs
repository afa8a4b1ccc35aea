use fe_levels::interface::Stat;
use fe_levels::progression::{ConcreteStatChange, find_row_level, GbaFeStatChange};
use fe_levels::rational::Rational;
use fe_levels::sit::{template_stat, GameKind, StatIndexType};
use fe_levels::weapon::{GbaFeWeapon, Weapon};

#[test]
fn increase_value_clamps_to_cap() {
    let mut stat = Stat { base: 2, cap: 20, growth: 40, value: 18 };
    stat.increase_value(7);
    assert_eq!(stat.value, 20);
    stat.increase_value(1);
    assert_eq!(stat.value, 20);
}

#[test]
fn increase_value_saturates_before_clamping() {
    let mut stat = Stat { base: 0, cap: u16::MAX, growth: 40, value: u16::MAX - 1 };
    stat.increase_value(u16::MAX);
    assert_eq!(stat.value, u16::MAX);
}

#[test]
fn rational_arithmetic_is_exact_and_reduced() {
    let half = Rational::new(1, 2);
    let third = Rational::new(1, 3);
    let sum = half.add(third).unwrap();
    assert_eq!((sum.num, sum.den), (5, 6));
    let product = Rational::new(2, 4).mul(Rational::new(2, 3)).unwrap();
    assert_eq!((product.num, product.den), (1, 3));
    let quotient = Rational::new(1, 4).div(half).unwrap();
    assert_eq!((quotient.num, quotient.den), (1, 2));
    assert!(Rational::new(2, 4).equiv(half));
    assert!(Rational::new(1, 3).le(half));
    assert!(half.complement().equiv(half));
    let huge = Rational::new(u64::MAX, 1);
    assert_eq!(huge.mul(huge), None);
}

#[test]
fn default_stats_follow_game_rules() {
    let hp = StatIndexType::arbitrary_valid(GameKind::GbaFe);
    assert!(hp.is_hp());
    assert_eq!(hp.default_stat(), Stat { base: 15, cap: 60, growth: 40, value: 15 });
    let keys = StatIndexType::new(GameKind::GbaFe);
    assert_eq!(keys.len(), 7);
    assert!(keys[4].is_luck());
    assert_eq!(keys[4].default_stat().cap, 30);
    assert_eq!(keys[6].default_stat().cap, 20);
    let por_keys = StatIndexType::new(GameKind::PoR);
    assert_eq!(por_keys.len(), 8);
    assert!(por_keys[5].is_luck());
    assert_eq!(por_keys[5].default_stat().cap, 40);
}

#[test]
fn default_character_is_fresh_and_level_one() {
    let character = StatIndexType::new_default_character(GameKind::GbaFe);
    assert_eq!(character.stats.len(), 7);
    assert_eq!(character.level, 1);
    assert!(character.name.is_empty());
    for (key, stat) in &character.stats {
        assert_eq!(*stat, key.default_stat());
    }
}

#[test]
fn template_stat_is_out_of_range() {
    let template = template_stat(GameKind::GbaFe);
    let keys = StatIndexType::new(GameKind::GbaFe);
    assert!(keys.iter().all(|k| *k != template));
}

#[test]
fn row_levels_count_levelups_and_reset_on_promotion() {
    let levelup = ConcreteStatChange::GbaFeStatChange(GbaFeStatChange::LevelUp);
    let booster = ConcreteStatChange::GbaFeStatChange(GbaFeStatChange::GrowthBooster);
    let promotion = ConcreteStatChange::GbaFeStatChange(GbaFeStatChange::Promotion(
        StatIndexType::new_default_character(GameKind::GbaFe),
    ));
    let progression =
        vec![levelup.clone(), levelup.clone(), booster, promotion, levelup.clone()];
    assert_eq!(find_row_level(5, &progression, 0), Some(6));
    assert_eq!(find_row_level(5, &progression, 1), Some(7));
    assert_eq!(find_row_level(5, &progression, 2), Some(7));
    assert_eq!(find_row_level(5, &progression, 3), Some(1));
    assert_eq!(find_row_level(5, &progression, 4), Some(2));
    assert_eq!(find_row_level(5, &progression, 5), None);
}

#[test]
fn templates_cover_the_gba_palette() {
    let templates = ConcreteStatChange::generate_templates(GameKind::GbaFe);
    assert_eq!(templates.len(), 4);
    assert_eq!(ConcreteStatChange::generate_templates(GameKind::PoR).len(), 0);
    let flags: Vec<(bool, bool, bool)> = templates
        .iter()
        .map(|t| (t.increases_level_counter(), t.resets_level_counter(), t.marking_worthy()))
        .collect();
    assert_eq!(
        flags,
        vec![(false, false, false), (true, false, false), (false, false, false), (
            false, true, true
        )]
    );
    assert!(templates.iter().all(ConcreteStatChange::cheap_to_execute));
}

#[test]
fn default_weapon_matches_gba_baseline() {
    let weapon = Weapon::new(GameKind::GbaFe);
    assert_eq!(weapon.name(), "");
    let raw = GbaFeWeapon::default();
    assert_eq!(raw.might, 5);
    assert_eq!(raw.weight, 3);
    assert_eq!(raw.hitrate, 80);
    assert_eq!(raw.critrate, 10);
    assert_eq!((raw.range_min, raw.range_max), (1, 1));
    let por = Weapon::new(GameKind::PoR);
    assert_eq!(por.name(), "");
}
