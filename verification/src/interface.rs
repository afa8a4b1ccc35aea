//! Data model: stats, characters, blank-avoidance policies and
//! transformation steps, together with the promotion-transform
//! capability interface that callers implement as tagged data.

use crate::analysis::{
    binomial_analysis, change_acceptable, distinct_keys, init_model, is_point_mass_snapshot,
    run_ok_from, run_witness, snapshot_ok, DistributedStat,
};
use crate::rational::Rational;
use vstd::prelude::*;

verus! {

pub type GrowthType = u16;

pub type StatType = u16;

/// Growth-rate units per one guaranteed stat point per level.
pub const GUARANTEED_STAT_POINT_GROWTH: GrowthType = 100;

/// A stat key: totally ordered, cheaply copied, with decidable equality.
pub trait StatIndexType: Sized + Copy {
    /// Decides spec-level equality of two keys.
    fn key_eq(&self, other: &Self) -> (r: bool)
        ensures
            r == (*self == *other),
    ;
}

impl StatIndexType for u64 {
    fn key_eq(&self, other: &Self) -> (r: bool)
        ensures
            r == (*self == *other),
    {
        *self == *other
    }
}

/// A scalar stat: its lower bound, upper cap, growth rate and current value.
#[derive(Clone, Copy, Debug, Hash, PartialEq, Eq, Structural)]
pub struct Stat {
    pub base: StatType,
    pub cap: StatType,
    pub growth: GrowthType,
    pub value: StatType,
}

/// `a + b` saturating at the top of the `u16` range.
pub open spec fn sat_add16(a: int, b: int) -> int {
    if a + b > u16::MAX as int {
        u16::MAX as int
    } else {
        a + b
    }
}

/// `v` forced into `[base, cap]`, with the cap winning when the
/// bounds cross.
pub open spec fn clamp_value(v: int, base: int, cap: int) -> int {
    let lo = if v < base {
        base
    } else {
        v
    };
    if lo > cap {
        cap
    } else {
        lo
    }
}

impl Stat {
    /// Raises the value by `amount`, saturating, then clamps it into
    /// `[base, cap]`.
    pub fn increase_value(&mut self, amount: StatType)
        requires
            old(self).base <= old(self).cap,
        ensures
            final(self).value == clamp_value(
                sat_add16(old(self).value as int, amount as int),
                old(self).base as int,
                old(self).cap as int,
            ),
            final(self).base == old(self).base,
            final(self).cap == old(self).cap,
            final(self).growth == old(self).growth,
            final(self).value <= final(self).cap,
    {
        let raised: StatType = self.value.saturating_add(amount);
        self.value = if raised < self.base {
            self.base
        } else if raised > self.cap {
            self.cap
        } else {
            raised
        };
    }
}

/// An entity: an ordered collection of named stats.
#[derive(Clone, Debug)]
pub struct Character<SIT> {
    pub stats: Vec<(SIT, Stat)>,
    pub name: String,
    pub level: usize,
}

/// Bookkeeping for rule sets whose growth rates depend on how the
/// entity has levelled so far; carried by callers that model them.
pub struct DynamicGrowthData {
    pub num_prior_levels: u32,
}

/// One end of a count range.
#[derive(Clone, Copy, Debug, PartialEq, Eq, Structural)]
pub enum CountBound {
    Included(u8),
    Excluded(u8),
    Unbounded,
}

/// How a level-up mitigates "blank" levels (no stat grew).
pub enum BlankAvoidance<SIT> {
    NoAvoidance,
    /// A guaranteed number of stats per level, drawn in the given
    /// iteration order; the range `0..` degenerates to `NoAvoidance`.
    GuaranteedStats(CountBound, CountBound, Vec<SIT>),
    /// Re-roll the whole level up to the given number of times while
    /// no stat at all received probabilistic growth.
    RetriesForNoBlank(u32),
    /// A variable, growth-dependent number of guaranteed stats; has no
    /// closed form and is always rejected.
    VariableGuaranteedStats,
    /// Award the named stat whenever the level would otherwise be blank.
    AwardFixedStatOnBlank(SIT),
}

impl<SIT: StatIndexType> BlankAvoidance<SIT> {
    pub fn new_guaranteed_stats(lower: CountBound, upper: CountBound) -> (r: Self)
        ensures
            r matches BlankAvoidance::GuaranteedStats(lo, hi, order) && lo == lower && hi
                == upper && order@ == Seq::<SIT>::empty(),
    {
        BlankAvoidance::GuaranteedStats(lower, upper, Vec::new())
    }
}

/// Looks a key up in an association list; first match wins.
pub open spec fn assoc_lookup<SIT, V>(s: Seq<(SIT, V)>, key: SIT) -> Option<V>
    decreases s.len(),
{
    if s.len() == 0 {
        None
    } else if s[0].0 == key {
        Some(s[0].1)
    } else {
        assoc_lookup(s.drop_first(), key)
    }
}

/// A lookup skips any prefix that does not contain the key.
pub proof fn lemma_assoc_lookup_skip<SIT, V>(s: Seq<(SIT, V)>, key: SIT, i: int)
    requires
        0 <= i <= s.len(),
        forall|j: int| 0 <= j < i ==> s[j].0 != key,
    ensures
        assoc_lookup(s, key) == assoc_lookup(s.skip(i), key),
    decreases i,
{
    if i > 0 {
        assert(s.skip(1).skip(i - 1) =~= s.skip(i));
        lemma_assoc_lookup_skip(s.skip(1), key, i - 1);
        assert(s.drop_first() =~= s.skip(1));
    } else {
        assert(s.skip(0) =~= s);
    }
}

/// Finds a key in an association list of copyable entries.
pub fn assoc_get<SIT: StatIndexType, V: Copy>(s: &Vec<(SIT, V)>, key: &SIT) -> (r: Option<V>)
    ensures
        r == assoc_lookup(s@, *key),
{
    let ghost full = s@;
    let mut i: usize = 0;
    while i < s.len()
        invariant
            0 <= i <= s.len(),
            full == s@,
            forall|j: int| 0 <= j < i ==> s@[j].0 != *key,
        decreases s.len() - i,
    {
        let (k, v) = s[i];
        if k.key_eq(key) {
            proof {
                lemma_assoc_lookup_skip(s@, *key, i as int);
                assert(s@.skip(i as int)[0] == s@[i as int]);
            }
            return Some(v);
        }
        i = i + 1;
    }
    proof {
        lemma_assoc_lookup_skip(s@, *key, i as int);
        assert(s@.skip(i as int).len() == 0);
    }
    None
}

/// A temporary growth-rate override for one level-up: keys found in
/// the list use the listed rate, all others keep their own.
pub struct GrowthOverride<SIT> {
    pub overrides: Vec<(SIT, GrowthType)>,
}

impl<SIT: StatIndexType> GrowthOverride<SIT> {
    pub fn get(&self, key: &SIT) -> (r: Option<GrowthType>)
        ensures
            r == assoc_lookup(self.overrides@, *key),
    {
        assoc_get(&self.overrides, key)
    }
}

/// A deterministic per-stat transform applied by a promotion.  The
/// transform must be pure; it may move the value, the cap and the
/// growth rate, but the value it produces must respect its own cap.
pub trait PromotionTransform<SIT>: Sized {
    /// The mathematical meaning of the transform.
    spec fn apply_spec(&self, key: SIT, stat: Stat) -> Stat;

    fn apply(&self, key: &SIT, stat: Stat) -> (r: Stat)
        requires
            stat.value <= stat.cap,
        ensures
            r == self.apply_spec(*key, stat),
            r.value <= r.cap,
    ;
}

/// The transforms the engine ships: tagged data interpreted pointwise.
pub enum PromotionKind<SIT> {
    /// Per-key gains: the entry's cap replaces the stat's cap and the
    /// entry's value is added to the stat's value, clamped; keys
    /// without an entry are left unchanged.
    Gains(Vec<(SIT, Stat)>),
    /// Every stat's growth rate rises by this much, saturating.
    GrowthBoost(GrowthType),
    /// One stat's value rises by this much, clamped.
    StatBoost(SIT, StatType),
    /// Every stat's value rises by one of two bonuses, chosen by
    /// comparing the value against a threshold, clamped.
    ThresholdBonus { threshold: StatType, at_or_above: StatType, below: StatType },
}

impl<SIT: StatIndexType> PromotionTransform<SIT> for PromotionKind<SIT> {
    open spec fn apply_spec(&self, key: SIT, stat: Stat) -> Stat {
        match self {
            PromotionKind::Gains(gains) => match assoc_lookup(gains@, key) {
                Some(bonus) => Stat {
                    base: stat.base,
                    cap: bonus.cap,
                    growth: stat.growth,
                    value: clamp_value(
                        sat_add16(stat.value as int, bonus.value as int),
                        stat.base as int,
                        bonus.cap as int,
                    ) as StatType,
                },
                None => stat,
            },
            PromotionKind::GrowthBoost(boost) => Stat {
                base: stat.base,
                cap: stat.cap,
                growth: sat_add16(stat.growth as int, *boost as int) as GrowthType,
                value: stat.value,
            },
            PromotionKind::StatBoost(boosted, amount) => if *boosted == key {
                Stat {
                    base: stat.base,
                    cap: stat.cap,
                    growth: stat.growth,
                    value: clamp_value(
                        sat_add16(stat.value as int, *amount as int),
                        stat.base as int,
                        stat.cap as int,
                    ) as StatType,
                }
            } else {
                stat
            },
            PromotionKind::ThresholdBonus { threshold, at_or_above, below } => {
                let bonus = if stat.value >= *threshold {
                    *at_or_above
                } else {
                    *below
                };
                Stat {
                    base: stat.base,
                    cap: stat.cap,
                    growth: stat.growth,
                    value: clamp_value(
                        sat_add16(stat.value as int, bonus as int),
                        stat.base as int,
                        stat.cap as int,
                    ) as StatType,
                }
            },
        }
    }

    fn apply(&self, key: &SIT, stat: Stat) -> (r: Stat)
        ensures
            r == self.apply_spec(*key, stat),
            r.value <= r.cap,
    {
        match self {
            PromotionKind::Gains(gains) => match assoc_get(gains, key) {
                Some(bonus) => {
                    let raised: StatType = stat.value.saturating_add(bonus.value);
                    let value: StatType = if raised < stat.base {
                        if stat.base > bonus.cap {
                            bonus.cap
                        } else {
                            stat.base
                        }
                    } else if raised > bonus.cap {
                        bonus.cap
                    } else {
                        raised
                    };
                    Stat { base: stat.base, cap: bonus.cap, growth: stat.growth, value }
                },
                None => stat,
            },
            PromotionKind::GrowthBoost(boost) => Stat {
                base: stat.base,
                cap: stat.cap,
                growth: stat.growth.saturating_add(*boost),
                value: stat.value,
            },
            PromotionKind::StatBoost(boosted, amount) => if boosted.key_eq(key) {
                let raised: StatType = stat.value.saturating_add(*amount);
                let value: StatType = if raised < stat.base {
                    if stat.base > stat.cap {
                        stat.cap
                    } else {
                        stat.base
                    }
                } else if raised > stat.cap {
                    stat.cap
                } else {
                    raised
                };
                Stat { base: stat.base, cap: stat.cap, growth: stat.growth, value }
            } else {
                stat
            },
            PromotionKind::ThresholdBonus { threshold, at_or_above, below } => {
                let bonus: StatType = if stat.value >= *threshold {
                    *at_or_above
                } else {
                    *below
                };
                let raised: StatType = stat.value.saturating_add(bonus);
                let value: StatType = if raised < stat.base {
                    if stat.base > stat.cap {
                        stat.cap
                    } else {
                        stat.base
                    }
                } else if raised > stat.cap {
                    stat.cap
                } else {
                    raised
                };
                Stat { base: stat.base, cap: stat.cap, growth: stat.growth, value }
            },
        }
    }
}

/// One step of a progression: a stochastic level-up or a deterministic
/// promotion.
pub enum StatChange<SIT, P> {
    LevelUp {
        temporary_growth_override: Option<GrowthOverride<SIT>>,
        blank_avoidance: BlankAvoidance<SIT>,
    },
    Promotion { promo_changes: P },
}

/// A per-stat probability mass function over achievable values.
pub type Histogram = Vec<(StatType, Rational)>;

/// One step's externally visible result: every stat's histogram.
pub type Snapshot<SIT> = Vec<(SIT, Histogram)>;

/// Computes one exact distribution snapshot per transformation step,
/// preceded by the initial point-mass snapshot, by solving the
/// sequence in closed form.  A sequence the feasibility gate cannot
/// solve is reported as `Unsupported`, distinct from the single
/// snapshot a valid empty sequence yields.  `num_samples` is reserved
/// for a sampling-based fallback and is not consulted by the
/// closed-form path.
pub fn generate_histograms<SIT: StatIndexType, P: PromotionTransform<SIT>>(
    levels: &Vec<StatChange<SIT, P>>,
    character: &Character<SIT>,
    num_samples: Option<u64>,
) -> (r: Result<Vec<Snapshot<SIT>>, AnalysisError>)
    requires
        forall|j: int|
            0 <= j < character.stats.len() ==> (#[trigger] character.stats[j]).1.value
                <= character.stats[j].1.cap,
        distinct_keys(character.stats@),
    ensures
        (r matches Err(e) && e == AnalysisError::Unsupported) <==> exists|i: int|
            0 <= i < levels.len() && !change_acceptable(#[trigger] levels[i]),
        r is Ok <==> ((forall|i: int| 0 <= i < levels.len() ==> change_acceptable(
            #[trigger] levels[i],
        )) && run_ok_from(init_model(character.stats@), levels@, 0)),
        r is Ok ==> {
            let snaps = r->Ok_0;
            &&& snaps.len() == levels.len() + 1
            &&& is_point_mass_snapshot(snaps[0], character.stats@)
            &&& forall|s: int|
                0 <= s < snaps.len() ==> snapshot_ok(#[trigger] snaps[s], character.stats@)
        },
        r is Ok ==> exists|states: Seq<Seq<(SIT, DistributedStat)>>|
            #[trigger] run_witness(r->Ok_0@, states, levels@, character.stats@),
        levels.len() == 0 ==> r is Ok,
{
    let _ = num_samples;
    binomial_analysis(levels, character)
}

/// Why a call could not produce histograms.
#[derive(Clone, Copy, Debug, PartialEq, Eq, Structural)]
pub enum AnalysisError {
    /// Some step's policy cannot be solved in closed form.
    Unsupported,
    /// A promotion transform moved growth or cap differently across
    /// one stat's support.
    InconsistentPromotion,
    /// Exact probability arithmetic left the machine representation.
    Overflow,
    /// A produced distribution did not sum to one.
    MassViolation,
}

} // verus!
