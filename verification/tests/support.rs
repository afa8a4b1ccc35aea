use fe_levels::interface::{BlankAvoidance, Character, Stat, StatChange};
use fe_levels::manager::DataManaged;
use fe_levels::plotter::{compute, find_percentile, PlotterData};
use fe_levels::progression::{ConcreteStatChange, GbaFeStatChange, ProgressionManager};
use fe_levels::rational::Rational;
use fe_levels::repl::find_closest;
use fe_levels::sit::{GameKind, StatIndexType};

#[test]
fn legal_names_are_nonempty_and_fresh_up_to_case() {
    let mut manager: DataManaged<u32> = DataManaged::new();
    manager.data.push(("Eirika".to_string(), 1));
    manager.data.push(("SETH".to_string(), 2));
    assert!(!manager.check_legal_name(""));
    assert!(!manager.check_legal_name("eirika"));
    assert!(!manager.check_legal_name("seth"));
    assert!(!manager.check_legal_name("Seth"));
    assert!(manager.check_legal_name("Franz"));
}

#[test]
fn selection_finds_the_named_item() {
    let mut manager: DataManaged<u32> = DataManaged::new();
    manager.data.push(("alpha".to_string(), 10));
    manager.data.push(("beta".to_string(), 20));
    assert_eq!(manager.selected(), None);
    manager.selected = "beta".to_string();
    assert_eq!(manager.selected(), Some(&20));
    manager.selected = "Beta".to_string();
    assert_eq!(manager.selected(), None);
}

#[test]
fn closest_match_is_case_insensitive() {
    let options = vec!["hp", "atk", "skl", "spd", "lck", "def", "res"];
    assert_eq!(find_closest("ATK", &options), Some((0, "atk")));
    assert_eq!(find_closest("akt", &options), Some((1, "atk")));
}

#[test]
fn ambiguous_match_is_refused() {
    let options = vec!["ab", "ba"];
    // One transposition away from either option: no unique best match.
    assert_eq!(find_closest("aa", &options), None);
    let empty: Vec<&str> = Vec::new();
    assert_eq!(find_closest("hp", &empty), None);
}

#[test]
fn percentiles_scan_the_cumulative_distribution() {
    let hist =
        vec![(4u16, Rational::new(1, 4)), (5u16, Rational::new(1, 2)), (6u16, Rational::new(1, 4))];
    assert_eq!(find_percentile(&hist, Rational::new(1, 4)), Ok(Some(4)));
    assert_eq!(find_percentile(&hist, Rational::new(1, 2)), Ok(Some(5)));
    assert_eq!(find_percentile(&hist, Rational::new(3, 4)), Ok(Some(5)));
    assert_eq!(find_percentile(&hist, Rational::new(9, 10)), Ok(Some(6)));
    assert_eq!(find_percentile(&hist, Rational::new(1, 1)), Ok(Some(6)));
}

#[test]
fn compute_compiles_a_gba_progression() {
    let character = StatIndexType::new_default_character(GameKind::GbaFe);
    let progression = vec![
        ConcreteStatChange::GbaFeStatChange(GbaFeStatChange::LevelUp),
        ConcreteStatChange::GbaFeStatChange(GbaFeStatChange::GrowthBooster),
        ConcreteStatChange::GbaFeStatChange(GbaFeStatChange::StatBooster(
            StatIndexType::arbitrary_valid(GameKind::GbaFe),
        )),
    ];
    let out = compute(&character, progression, None).unwrap();
    assert_eq!(out.len(), 4);
    // The stat booster adds seven points to HP with certainty: the
    // final HP distribution is the level-up outcome shifted by seven.
    let after_level = &out[1][0].1;
    let final_hp = &out[3][0].1;
    assert_eq!(after_level.len(), final_hp.len());
    for (before, after) in after_level.iter().zip(final_hp.iter()) {
        assert_eq!(before.0 + 7, after.0);
        assert_eq!(before.1, after.1);
    }
}

#[test]
fn manager_records_start_empty() {
    let progression = ProgressionManager::new(41);
    assert_eq!(progression.id, 41);
    assert!(progression.progression.is_empty());
    assert!(progression.queued_insertion.is_none());
    let plotter = PlotterData::new(9);
    assert_eq!(plotter.window_id, 9);
    assert_eq!(plotter.box_range, 50);
    assert!(plotter.selected_stat.is_hp());
}

#[test]
fn levelup_growth_override_is_scoped_to_generic_engine() {
    // A growth override names engine-level keys; GBA progressions
    // never use one, so compiling a level-up leaves it empty.
    let compiled = ConcreteStatChange::GbaFeStatChange(GbaFeStatChange::LevelUp).compile();
    match compiled {
        StatChange::LevelUp { temporary_growth_override, blank_avoidance } => {
            assert!(temporary_growth_override.is_none());
            assert!(matches!(blank_avoidance, BlankAvoidance::RetriesForNoBlank(2)));
        },
        StatChange::Promotion { .. } => panic!("a level-up must compile to a level-up"),
    }
}

#[test]
fn characters_carry_their_stats_in_order() {
    let character: Character<u64> = Character {
        stats: vec![(3u64, Stat { base: 1, cap: 20, growth: 45, value: 6 })],
        name: "Ross".to_string(),
        level: 3,
    };
    assert_eq!(character.stats[0].0, 3);
    assert_eq!(character.level, 3);
    assert_eq!(character.name, "Ross");
}
