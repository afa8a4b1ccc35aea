//! The stat changes a progression is built from, per game rule set,
//! and their compilation into engine transformation steps.

use crate::interface::{
    BlankAvoidance, Character, PromotionKind, StatChange, StatType,
};
use crate::sit::{template_stat, GameKind, StatIndexType, TEMPLATE_INDEX};
use vstd::prelude::*;

verus! {

/// One entry of a GBA-style progression.
#[derive(Clone, Debug)]
pub enum GbaFeStatChange {
    /// A class change with per-stat gains and new caps.
    Promotion(Character<StatIndexType>),
    /// An ordinary level-up; GBA games re-roll a blank level twice.
    LevelUp,
    /// An item raising every growth rate by five points.
    GrowthBooster,
    /// An item raising one stat's value.
    StatBooster(StatIndexType),
}

/// The engine step a GBA stat change means.
pub open spec fn gba_compile_spec(c: GbaFeStatChange) -> StatChange<
    StatIndexType,
    PromotionKind<StatIndexType>,
> {
    match c {
        GbaFeStatChange::Promotion(promotion_gains) => StatChange::Promotion {
            promo_changes: PromotionKind::Gains(promotion_gains.stats),
        },
        GbaFeStatChange::LevelUp => StatChange::LevelUp {
            temporary_growth_override: None,
            blank_avoidance: BlankAvoidance::RetriesForNoBlank(2),
        },
        GbaFeStatChange::GrowthBooster => StatChange::Promotion {
            promo_changes: PromotionKind::GrowthBoost(5),
        },
        GbaFeStatChange::StatBooster(boosted) => StatChange::Promotion {
            promo_changes: PromotionKind::StatBoost(
                boosted,
                if boosted.0 == 0 {
                    7
                } else {
                    2
                },
            ),
        },
    }
}

impl GbaFeStatChange {
    /// Compiles this change into the engine's step description.
    pub fn compile(self) -> (r: StatChange<StatIndexType, PromotionKind<StatIndexType>>)
        ensures
            r == gba_compile_spec(self),
    {
        match self {
            GbaFeStatChange::Promotion(promotion_gains) => StatChange::Promotion {
                promo_changes: PromotionKind::Gains(promotion_gains.stats),
            },
            GbaFeStatChange::LevelUp => StatChange::LevelUp {
                temporary_growth_override: None,
                blank_avoidance: BlankAvoidance::RetriesForNoBlank(2),
            },
            GbaFeStatChange::GrowthBooster => StatChange::Promotion {
                promo_changes: PromotionKind::GrowthBoost(5),
            },
            GbaFeStatChange::StatBooster(boosted) => {
                let amount: StatType = if boosted.is_hp() {
                    7
                } else {
                    2
                };
                StatChange::Promotion { promo_changes: PromotionKind::StatBoost(boosted, amount) }
            },
        }
    }

    pub fn marking_worthy(&self) -> (r: bool)
        ensures
            r == (self matches GbaFeStatChange::Promotion(_)),
    {
        match self {
            GbaFeStatChange::Promotion(_) => true,
            _ => false,
        }
    }

    pub fn increases_level_counter(&self) -> (r: bool)
        ensures
            r == (self matches GbaFeStatChange::LevelUp),
    {
        match self {
            GbaFeStatChange::LevelUp => true,
            _ => false,
        }
    }

    pub fn resets_level_counter(&self) -> (r: bool)
        ensures
            r == (self matches GbaFeStatChange::Promotion(_)),
    {
        match self {
            GbaFeStatChange::Promotion(_) => true,
            _ => false,
        }
    }

    pub fn requires_clarification(&self) -> (r: bool)
        ensures
            r == (self matches GbaFeStatChange::Promotion(_) || self matches
                GbaFeStatChange::StatBooster(_)),
    {
        match self {
            GbaFeStatChange::Promotion(_) => true,
            GbaFeStatChange::StatBooster(_) => true,
            _ => false,
        }
    }

    pub fn cheap_to_execute(&self) -> (r: bool)
        ensures
            r,
    {
        true
    }

    /// The palette of changes the progression builder offers.
    pub fn generate_templates(game_option: GameKind) -> (r: Vec<Self>)
        requires
            game_option == GameKind::GbaFe,
        ensures
            r.len() == 4,
            r[0] matches GbaFeStatChange::GrowthBooster,
            r[1] matches GbaFeStatChange::LevelUp,
            r[2] matches GbaFeStatChange::StatBooster(k) && k == StatIndexType(
                TEMPLATE_INDEX,
                GameKind::GbaFe,
            ),
            r[3] matches GbaFeStatChange::Promotion(c) && c.stats.len() == 7,
    {
        let base = StatIndexType::new_default_character(game_option);
        let mut stats: Vec<(StatIndexType, crate::interface::Stat)> = Vec::new();
        let mut i: usize = 0;
        while i < base.stats.len()
            invariant
                0 <= i <= base.stats.len(),
                base.stats.len() == 7,
                game_option == GameKind::GbaFe,
                forall|j: int|
                    0 <= j < base.stats.len() ==> (#[trigger] base.stats[j]).1
                        == crate::sit::default_stat_spec(StatIndexType(j as usize, game_option))
                        && base.stats[j].0 == StatIndexType(j as usize, game_option),
                stats.len() == i,
            decreases base.stats.len() - i,
        {
            let (key, mut stat) = base.stats[i];
            stat.growth = 0;
            stat.value = 2;
            if !key.is_hp() && !key.is_luck() {
                stat.cap = stat.cap + 5;
            }
            stats.push((key, stat));
            i = i + 1;
        }
        let promotion = Character { stats, name: String::new(), level: 1 };
        let mut r: Vec<GbaFeStatChange> = Vec::new();
        r.push(GbaFeStatChange::GrowthBooster);
        r.push(GbaFeStatChange::LevelUp);
        r.push(GbaFeStatChange::StatBooster(template_stat(GameKind::GbaFe)));
        r.push(GbaFeStatChange::Promotion(promotion));
        r
    }
}

/// One entry of a progression, for whichever game is active.
#[derive(Clone, Debug)]
pub enum ConcreteStatChange {
    GbaFeStatChange(GbaFeStatChange),
}

/// The engine step a concrete stat change means.
pub open spec fn compile_spec(c: ConcreteStatChange) -> StatChange<
    StatIndexType,
    PromotionKind<StatIndexType>,
> {
    match c {
        ConcreteStatChange::GbaFeStatChange(data) => gba_compile_spec(data),
    }
}

impl ConcreteStatChange {
    pub fn compile(self) -> (r: StatChange<StatIndexType, PromotionKind<StatIndexType>>)
        ensures
            r == compile_spec(self),
    {
        match self {
            ConcreteStatChange::GbaFeStatChange(data) => data.compile(),
        }
    }

    pub fn cheap_to_execute(&self) -> (r: bool)
        ensures
            r,
    {
        match self {
            ConcreteStatChange::GbaFeStatChange(data) => data.cheap_to_execute(),
        }
    }

    pub open spec fn increases_spec(self) -> bool {
        match self {
            ConcreteStatChange::GbaFeStatChange(data) => data matches GbaFeStatChange::LevelUp,
        }
    }

    pub open spec fn resets_spec(self) -> bool {
        match self {
            ConcreteStatChange::GbaFeStatChange(data) => data matches GbaFeStatChange::Promotion(
                _,
            ),
        }
    }

    pub fn increases_level_counter(&self) -> (r: bool)
        ensures
            r == self.increases_spec(),
    {
        match self {
            ConcreteStatChange::GbaFeStatChange(data) => data.increases_level_counter(),
        }
    }

    pub fn resets_level_counter(&self) -> (r: bool)
        ensures
            r == self.resets_spec(),
    {
        match self {
            ConcreteStatChange::GbaFeStatChange(data) => data.resets_level_counter(),
        }
    }

    pub fn marking_worthy(&self) -> (r: bool)
        ensures
            r == self.resets_spec(),
    {
        match self {
            ConcreteStatChange::GbaFeStatChange(data) => data.marking_worthy(),
        }
    }

    pub fn requires_clarification(&self) -> (r: bool)
        ensures
            r == (match self {
                ConcreteStatChange::GbaFeStatChange(data) => data matches
                    GbaFeStatChange::Promotion(_) || data matches GbaFeStatChange::StatBooster(_),
            }),
    {
        match self {
            ConcreteStatChange::GbaFeStatChange(data) => data.requires_clarification(),
        }
    }

    pub fn generate_templates(game_option: GameKind) -> (r: Vec<Self>)
        ensures
            game_option == GameKind::GbaFe ==> r.len() == 4,
            game_option == GameKind::PoR ==> r.len() == 0,
    {
        match game_option {
            GameKind::GbaFe => {
                let raw = GbaFeStatChange::generate_templates(GameKind::GbaFe);
                let mut r: Vec<ConcreteStatChange> = Vec::new();
                let mut i: usize = 0;
                while i < raw.len()
                    invariant
                        0 <= i <= raw.len(),
                        r.len() == i,
                    decreases raw.len() - i,
                {
                    let item: GbaFeStatChange = raw[i].clone();
                    r.push(ConcreteStatChange::GbaFeStatChange(item));
                    i = i + 1;
                }
                r
            },
            GameKind::PoR => Vec::new(),
        }
    }
}

/// How the builder lets a user pick a promotion.
#[derive(Clone, Copy, Debug, Hash, PartialEq, Eq, Structural)]
pub enum PromotionSelectionKind {
    LoadSavedPromotion,
    ManualPromotionEntry,
}

impl Default for PromotionSelectionKind {
    fn default() -> (r: Self)
        ensures
            r == PromotionSelectionKind::ManualPromotionEntry,
    {
        PromotionSelectionKind::ManualPromotionEntry
    }
}

/// The progression being edited: the entries, the offered templates,
/// a pending insertion awaiting clarification, and the widget identity.
pub struct ProgressionManager {
    pub templates: Vec<ConcreteStatChange>,
    pub progression: Vec<ConcreteStatChange>,
    pub id: u64,
    pub queued_insertion: Option<(usize, ConcreteStatChange)>,
    pub promotion_selection_strategy: PromotionSelectionKind,
}

impl ProgressionManager {
    pub fn new(id: u64) -> (r: Self)
        ensures
            r.templates@.len() == 0,
            r.progression@.len() == 0,
            r.id == id,
            r.queued_insertion is None,
            r.promotion_selection_strategy == PromotionSelectionKind::ManualPromotionEntry,
    {
        ProgressionManager {
            templates: Vec::new(),
            progression: Vec::new(),
            id,
            queued_insertion: None,
            promotion_selection_strategy: PromotionSelectionKind::ManualPromotionEntry,
        }
    }
}

/// The character level shown next to row `upto - 1`: the starting
/// level advanced by every earlier level-up and reset by promotions.
pub open spec fn level_at(base: int, prog: Seq<ConcreteStatChange>, upto: int) -> int
    decreases upto,
{
    if upto <= 0 {
        base
    } else {
        let prev = level_at(base, prog, upto - 1);
        let grown = if prog[upto - 1].increases_spec() {
            prev + 1
        } else {
            prev
        };
        if prog[upto - 1].resets_spec() {
            1
        } else {
            grown
        }
    }
}

/// The level to display beside one progression row.
pub fn find_row_level(
    base_level: usize,
    progression: &Vec<ConcreteStatChange>,
    row_idx: usize,
) -> (r: Option<usize>)
    requires
        base_level + progression.len() <= usize::MAX,
    ensures
        row_idx < progression.len() ==> r == Some(
            level_at(base_level as int, progression@, row_idx + 1) as usize,
        ),
        row_idx >= progression.len() ==> r is None,
{
    let mut current_level: usize = base_level;
    let mut row: usize = 0;
    while row < progression.len()
        invariant
            0 <= row <= progression.len(),
            base_level + progression.len() <= usize::MAX,
            row <= row_idx,
            current_level as int == level_at(base_level as int, progression@, row as int),
            current_level <= base_level + row || current_level == 1,
        decreases progression.len() - row,
    {
        if progression[row].increases_level_counter() {
            current_level = current_level + 1;
        }
        if progression[row].resets_level_counter() {
            current_level = 1;
        }
        if row == row_idx {
            return Some(current_level);
        }
        row = row + 1;
    }
    None
}

} // verus!
