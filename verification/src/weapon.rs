//! Weapon records, per game rule set: pure data the editor builds and
//! battle calculations read.

use crate::interface::StatType;
use crate::sit::{GameKind, StatIndexType};
use vstd::prelude::*;

verus! {

/// The weapon classes of the GBA games.
#[derive(Clone, Copy, Debug, PartialEq, Eq, Structural)]
pub enum GbaWeaponClass {
    Dark,
    Anima,
    Light,
    Sword,
    Bow,
    Lance,
    Axe,
    Other,
}

/// Special battle behaviours a GBA weapon can carry.
#[derive(Clone, Copy, Debug, PartialEq, Eq, Structural)]
pub enum GbaSpecialProperties {
    Brave,
    Reaver,
    Heals,
    IgnoresDefense,
    MagicSword,
    Devil,
}

/// A GBA weapon: combat numbers, attack range, stat buffs and
/// special properties.
#[derive(Clone, Debug)]
pub struct GbaFeWeapon {
    pub weapon_class: GbaWeaponClass,
    pub might: StatType,
    pub weight: StatType,
    pub hitrate: StatType,
    pub critrate: StatType,
    pub name: String,
    pub range_min: u16,
    pub range_max: u16,
    pub stat_change: Vec<(StatIndexType, StatType)>,
    pub special_properties: Vec<GbaSpecialProperties>,
}

impl GbaFeWeapon {
    pub fn name(&self) -> (r: &str)
        ensures
            r@ == self.name@,
    {
        self.name.as_str()
    }
}

impl Default for GbaFeWeapon {
    fn default() -> (r: Self)
        ensures
            r.weapon_class == GbaWeaponClass::Other,
            r.might == 5,
            r.weight == 3,
            r.hitrate == 80,
            r.critrate == 10,
            r.name@ == Seq::<char>::empty(),
            r.range_min == 1,
            r.range_max == 1,
            r.stat_change@.len() == 0,
            r.special_properties@.len() == 0,
    {
        GbaFeWeapon {
            weapon_class: GbaWeaponClass::Other,
            might: 5,
            weight: 3,
            hitrate: 80,
            critrate: 10,
            name: String::new(),
            range_min: 1,
            range_max: 1,
            stat_change: Vec::new(),
            special_properties: Vec::new(),
        }
    }
}

/// A weapon of whichever game is active.
#[derive(Clone, Debug)]
pub enum Weapon {
    GbaFeWeapon(GbaFeWeapon),
    PoRWeapon,
}

impl Weapon {
    /// A fresh weapon with the game's default values.
    pub fn new(game_option: GameKind) -> (r: Self)
        ensures
            game_option == GameKind::GbaFe ==> (r matches Weapon::GbaFeWeapon(w) && w.weapon_class
                == GbaWeaponClass::Other && w.might == 5 && w.weight == 3 && w.hitrate == 80
                && w.critrate == 10 && w.name@ == Seq::<char>::empty() && w.range_min == 1
                && w.range_max == 1 && w.stat_change@.len() == 0 && w.special_properties@.len()
                == 0),
            game_option == GameKind::PoR ==> (r matches Weapon::PoRWeapon),
    {
        match game_option {
            GameKind::GbaFe => Weapon::GbaFeWeapon(GbaFeWeapon::default()),
            GameKind::PoR => Weapon::PoRWeapon,
        }
    }

    pub fn name(&self) -> (r: &str)
        ensures
            self matches Weapon::GbaFeWeapon(w) ==> r@ == w.name@,
            self matches Weapon::PoRWeapon ==> r@ == Seq::<char>::empty(),
    {
        match self {
            Weapon::GbaFeWeapon(data) => data.name(),
            Weapon::PoRWeapon => {
                let empty: &str = "";
                proof {
                    reveal_strlit("");
                    assert(empty@ =~= Seq::<char>::empty());
                }
                empty
            },
        }
    }
}

} // verus!
