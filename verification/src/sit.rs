//! Concrete stat keys for the supported game rule sets: a stat is an
//! index into a per-game iteration order.

use crate::interface::{Character, GrowthType, Stat, StatType};
use vstd::prelude::*;

verus! {

/// Which game's mechanics govern stats and level-ups.
#[derive(Clone, Copy, Debug, Hash, PartialEq, Eq, Structural)]
pub enum GameKind {
    GbaFe,
    PoR,
}

impl Default for GameKind {
    fn default() -> (r: Self)
        ensures
            r == GameKind::GbaFe,
    {
        GameKind::GbaFe
    }
}

/// A stat key: its position in the game's iteration order, plus the game.
#[derive(Clone, Copy, Debug, Hash, PartialEq, Eq, Structural)]
pub struct StatIndexType(pub usize, pub GameKind);

impl crate::interface::StatIndexType for StatIndexType {
    fn key_eq(&self, other: &Self) -> (r: bool)
        ensures
            r == (*self == *other),
    {
        self.0 == other.0 && self.1 == other.1
    }
}

/// How many stats the game tracks.
pub open spec fn stat_count(game: GameKind) -> int {
    match game {
        GameKind::GbaFe => 7,
        GameKind::PoR => 8,
    }
}

/// The index of the luck stat.
pub open spec fn luck_index(game: GameKind) -> int {
    match game {
        GameKind::GbaFe => 4,
        GameKind::PoR => 5,
    }
}

/// The default stat record a key starts from.
pub open spec fn default_stat_spec(key: StatIndexType) -> Stat {
    let cap: StatType = match key.1 {
        GameKind::GbaFe => if key.0 == 0 {
            60
        } else if key.0 == luck_index(GameKind::GbaFe) {
            30
        } else {
            20
        },
        GameKind::PoR => if key.0 == 0 || key.0 == luck_index(GameKind::PoR) {
            40
        } else {
            20
        },
    };
    Stat { base: cap / 4, cap, growth: 40, value: cap / 4 }
}

/// The names of the game's stats, in iteration order.
pub fn look_up_iteration_order(game: GameKind) -> (r: Vec<&'static str>)
    ensures
        r.len() == stat_count(game),
{
    match game {
        GameKind::GbaFe => {
            let mut v: Vec<&'static str> = Vec::new();
            v.push("HP");
            v.push("Atk");
            v.push("Skl");
            v.push("Spd");
            v.push("Lck");
            v.push("Def");
            v.push("Res");
            v
        },
        GameKind::PoR => {
            let mut v: Vec<&'static str> = Vec::new();
            v.push("HP");
            v.push("Str");
            v.push("Mag");
            v.push("Skl");
            v.push("Spd");
            v.push("Lck");
            v.push("Def");
            v.push("Res");
            v
        },
    }
}

impl StatIndexType {
    /// All of the game's stat keys, in iteration order.
    pub fn new(game_option: GameKind) -> (r: Vec<Self>)
        ensures
            r.len() == stat_count(game_option),
            forall|i: int| 0 <= i < r.len() ==> #[trigger] r[i] == StatIndexType(i as usize, game_option),
    {
        let order = look_up_iteration_order(game_option);
        let mut r: Vec<StatIndexType> = Vec::new();
        let mut i: usize = 0;
        while i < order.len()
            invariant
                0 <= i <= order.len(),
                order.len() == stat_count(game_option),
                r.len() == i,
                forall|j: int|
                    0 <= j < i ==> #[trigger] r[j] == StatIndexType(j as usize, game_option),
            decreases order.len() - i,
        {
            r.push(StatIndexType(i, game_option));
            i = i + 1;
        }
        r
    }

    /// Some valid key of the game: the first in iteration order.
    pub fn arbitrary_valid(game_option: GameKind) -> (r: Self)
        ensures
            r == StatIndexType(0usize, game_option),
    {
        StatIndexType(0, game_option)
    }

    pub fn is_hp(&self) -> (r: bool)
        ensures
            r == (self.0 == 0),
    {
        self.0 == 0
    }

    pub fn is_luck(&self) -> (r: bool)
        ensures
            r == (self.0 as int == luck_index(self.1)),
    {
        self.0 == match self.1 {
            GameKind::GbaFe => 4,
            GameKind::PoR => 5,
        }
    }

    /// The default stat record for this key.
    pub fn default_stat(&self) -> (r: Stat)
        ensures
            r == default_stat_spec(*self),
    {
        let cap: StatType = match self.1 {
            GameKind::GbaFe => {
                if self.is_hp() {
                    60
                } else if self.is_luck() {
                    30
                } else {
                    20
                }
            },
            GameKind::PoR => {
                if self.is_hp() || self.is_luck() {
                    40
                } else {
                    20
                }
            },
        };
        Stat { base: cap / 4, cap, growth: 40, value: cap / 4 }
    }

    /// A fresh level-one character with every stat at its default.
    pub fn new_default_character(game_option: GameKind) -> (r: Character<Self>)
        ensures
            r.stats.len() == stat_count(game_option),
            forall|i: int|
                0 <= i < r.stats.len() ==> #[trigger] r.stats[i] == (
                StatIndexType(i as usize, game_option),
                default_stat_spec(StatIndexType(i as usize, game_option)),
            ),
            r.name@ == Seq::<char>::empty(),
            r.level == 1,
    {
        let keys = Self::new(game_option);
        let mut stats: Vec<(StatIndexType, Stat)> = Vec::new();
        let mut i: usize = 0;
        while i < keys.len()
            invariant
                0 <= i <= keys.len(),
                keys.len() == stat_count(game_option),
                forall|j: int|
                    0 <= j < keys.len() ==> #[trigger] keys[j] == StatIndexType(
                        j as usize,
                        game_option,
                    ),
                stats.len() == i,
                forall|j: int|
                    0 <= j < i ==> #[trigger] stats[j] == (
                    StatIndexType(j as usize, game_option),
                    default_stat_spec(StatIndexType(j as usize, game_option)),
                ),
            decreases keys.len() - i,
        {
            let key: StatIndexType = keys[i];
            stats.push((key, key.default_stat()));
            i = i + 1;
        }
        Character { stats, name: String::new(), level: 1 }
    }
}

/// The placeholder index a template uses before a real stat is chosen.
pub const TEMPLATE_INDEX: usize = 100;

/// The placeholder key a template carries until the user picks a stat.
pub fn template_stat(game: GameKind) -> (r: StatIndexType)
    ensures
        r == StatIndexType(TEMPLATE_INDEX, game),
{
    StatIndexType(TEMPLATE_INDEX, game)
}

} // verus!
