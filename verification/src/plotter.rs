//! Data behind the plotting windows: the chart configuration record,
//! percentile lookup in a histogram, and the computation that turns a
//! character and a progression into snapshots.

use crate::analysis::{change_acceptable, hsum_upto, is_point_mass_snapshot, snapshot_ok};
use crate::interface::{
    generate_histograms, AnalysisError, Character, Histogram, Snapshot, StatChange, StatType,
};
use crate::progression::{compile_spec, ConcreteStatChange};
use crate::rational::{lemma_rle_req_right, radd, req, rle, Rational};
use crate::sit::{GameKind, StatIndexType};
use vstd::prelude::*;

verus! {

/// Which chart a plotting window shows.
#[derive(Clone, Copy, Debug, PartialEq, Eq, Structural)]
pub enum ChartKind {
    IntraLevelDist,
    InterLevelDist,
    BoxPlots,
}

/// How a distribution is reduced to one number per level.
#[derive(Clone, Copy, Debug, PartialEq, Eq, Structural)]
pub enum ReductionKind {
    AverageReduction,
    BenchmarkReduction,
}

/// Whether a single-level chart shows density or cumulative mass.
#[derive(Clone, Copy, Debug, PartialEq, Eq, Structural)]
pub enum IntraLevelDetails {
    DensityData,
    CumulativeData,
}

/// One plotting window's configuration.
pub struct PlotterData {
    pub chart_type: ChartKind,
    pub benchmark: StatType,
    pub box_range: u8,
    pub inspected_level: usize,
    pub selected_stat: StatIndexType,
    pub intra_level_option: IntraLevelDetails,
    pub reduction_option: ReductionKind,
    pub window_id: u64,
}

impl PlotterData {
    pub fn new(window_id: u64) -> (r: Self)
        ensures
            r.chart_type == ChartKind::BoxPlots,
            r.benchmark == 0,
            r.box_range == 50,
            r.inspected_level == 0,
            r.selected_stat == StatIndexType(0usize, GameKind::GbaFe),
            r.intra_level_option == IntraLevelDetails::DensityData,
            r.reduction_option == ReductionKind::AverageReduction,
            r.window_id == window_id,
    {
        PlotterData {
            chart_type: ChartKind::BoxPlots,
            benchmark: 0,
            box_range: 50,
            inspected_level: 0,
            selected_stat: StatIndexType::arbitrary_valid(GameKind::GbaFe),
            intra_level_option: IntraLevelDetails::DensityData,
            reduction_option: ReductionKind::AverageReduction,
            window_id,
        }
    }
}

/// The first histogram value whose cumulative probability reaches the
/// percentile, scanning up from entry `i`.
pub open spec fn first_reaching(
    h: Seq<(StatType, Rational)>,
    p: (int, int),
    i: nat,
) -> Option<StatType>
    decreases h.len() - i,
{
    if i >= h.len() {
        None
    } else if rle(p, hsum_upto(h, i + 1)) {
        Some(h[i as int].0)
    } else {
        first_reaching(h, p, i + 1)
    }
}

/// The machine run of the percentile scan from entry `i` with the
/// cumulative sum so far: the outer `None` is an exact-arithmetic
/// overflow, the inner option the scan's answer.
pub open spec fn percentile_exec(
    h: Seq<(StatType, Rational)>,
    p: Rational,
    acc: Rational,
    i: nat,
) -> Option<Option<StatType>>
    decreases h.len() - i,
{
    if i >= h.len() {
        Some(None)
    } else {
        match crate::rational::spec_add(acc, h[i as int].1) {
            None => None,
            Some(a2) => if rle(p.v(), a2.v()) {
                Some(Some(h[i as int].0))
            } else {
                percentile_exec(h, p, a2, i + 1)
            },
        }
    }
}

/// The smallest value whose cumulative probability reaches the
/// percentile; `None` when the whole histogram stays below it.
/// Succeeds exactly when the exact cumulative sums stay within the
/// machine representation.
pub fn find_percentile(stat: &Histogram, percentile: Rational) -> (r: Result<
    Option<StatType>,
    AnalysisError,
>)
    requires
        forall|i: int| 0 <= i < stat.len() ==> (#[trigger] stat[i]).1.wf(),
        percentile.wf(),
    ensures
        r is Ok <==> percentile_exec(stat@, percentile, crate::analysis::rat_zero(), 0) is Some,
        r is Ok ==> Some(r->Ok_0) == percentile_exec(stat@, percentile, crate::analysis::rat_zero(), 0),
        r is Ok ==> r->Ok_0 == first_reaching(stat@, percentile.v(), 0),
        r is Err ==> r->Err_0 == AnalysisError::Overflow,
{
    let ghost exec_target = percentile_exec(stat@, percentile, crate::analysis::rat_zero(), 0);
    let mut acc: Rational = Rational::zero();
    let mut i: usize = 0;
    while i < stat.len()
        invariant
            0 <= i <= stat.len(),
            forall|j: int| 0 <= j < stat.len() ==> (#[trigger] stat[j]).1.wf(),
            percentile.wf(),
            acc.wf(),
            req(acc.v(), hsum_upto(stat@, i as nat)),
            first_reaching(stat@, percentile.v(), 0) == first_reaching(
                stat@,
                percentile.v(),
                i as nat,
            ),
            exec_target == percentile_exec(stat@, percentile, crate::analysis::rat_zero(), 0),
            exec_target == percentile_exec(stat@, percentile, acc, i as nat),
        decreases stat.len() - i,
    {
        let prev: Rational = acc;
        acc = match prev.add(stat[i].1) {
            Some(x) => x,
            None => {
                proof {
                    assert(exec_target is None);
                }
                return Err(AnalysisError::Overflow);
            },
        };
        proof {
            crate::analysis::lemma_hsum_wf(stat@, i as nat);
            crate::analysis::lemma_hsum_wf(stat@, (i + 1) as nat);
            crate::rational::lemma_radd_cong(
                prev.v(),
                hsum_upto(stat@, i as nat),
                stat[i as int].1.v(),
                stat[i as int].1.v(),
            );
            crate::rational::lemma_rwf_radd(prev.v(), stat[i as int].1.v());
            crate::rational::lemma_req_trans(
                acc.v(),
                radd(prev.v(), stat[i as int].1.v()),
                radd(hsum_upto(stat@, i as nat), stat[i as int].1.v()),
            );
            lemma_rle_req_right(percentile.v(), acc.v(), hsum_upto(stat@, (i + 1) as nat));
        }
        if percentile.le(acc) {
            return Ok(Some(stat[i].0));
        }
        i = i + 1;
    }
    Ok(None)
}

/// The engine steps a progression compiles to.
pub open spec fn compiled_seq(s: Seq<ConcreteStatChange>) -> Seq<
    StatChange<StatIndexType, crate::interface::PromotionKind<StatIndexType>>,
> {
    s.map_values(|c: ConcreteStatChange| compile_spec(c))
}

/// Every compiled progression entry passes the feasibility gate.
pub proof fn lemma_compiled_acceptable(s: Seq<ConcreteStatChange>)
    ensures
        forall|i: int| 0 <= i < compiled_seq(s).len() ==> change_acceptable(
            #[trigger] compiled_seq(s)[i],
        ),
{
    assert forall|i: int| 0 <= i < compiled_seq(s).len() implies change_acceptable(
        #[trigger] compiled_seq(s)[i],
    ) by {
        let c = s[i];
        match c {
            ConcreteStatChange::GbaFeStatChange(data) => {
                assert(compiled_seq(s)[i] == compile_spec(c));
            },
        }
    }
}

/// Compiles a progression and solves it for the given character.
/// Always solvable in closed form: no compiled entry is rejected by
/// the feasibility gate.
pub fn compute(
    character: &Character<StatIndexType>,
    stat_changes: Vec<ConcreteStatChange>,
    num_samples: Option<u64>,
) -> (r: Result<Vec<Snapshot<StatIndexType>>, AnalysisError>)
    requires
        forall|j: int|
            0 <= j < character.stats.len() ==> (#[trigger] character.stats[j]).1.value
                <= character.stats[j].1.cap,
        crate::analysis::distinct_keys(character.stats@),
    ensures
        r is Ok <==> crate::analysis::run_ok_from(
            crate::analysis::init_model(character.stats@),
            compiled_seq(stat_changes@),
            0,
        ),
        r is Ok ==> {
            let snaps = r->Ok_0;
            &&& snaps.len() == stat_changes.len() + 1
            &&& is_point_mass_snapshot(snaps[0], character.stats@)
            &&& forall|s: int|
                0 <= s < snaps.len() ==> snapshot_ok(#[trigger] snaps[s], character.stats@)
        },
        r is Err ==> r->Err_0 != AnalysisError::Unsupported,
        stat_changes.len() == 0 ==> r is Ok,
{
    let ghost source = stat_changes@;
    let mut levels: Vec<StatChange<StatIndexType, crate::interface::PromotionKind<StatIndexType>>> =
        Vec::new();
    let mut remaining = stat_changes;
    let ghost total = source.len();
    let total_exec: usize = remaining.len();
    proof {
        assert(total == total_exec as int);
    }
    let mut i: usize = 0;
    while remaining.len() != 0
        invariant
            0 <= i <= total,
            total <= usize::MAX,
            remaining.len() + i == total,
            forall|j: int| 0 <= j < remaining.len() ==> remaining@[j] == source[i + j],
            levels.len() == i,
            forall|j: int| 0 <= j < i ==> #[trigger] levels@[j] == compile_spec(source[j]),
        decreases remaining.len(),
    {
        let item: ConcreteStatChange = remaining.remove(0);
        proof {
            assert(item == source[i as int]);
        }
        levels.push(item.compile());
        i = i + 1;
    }
    proof {
        assert(compiled_seq(source).len() == source.len());
        assert(levels@.len() == compiled_seq(source).len());
        assert forall|j: int| 0 <= j < levels@.len() implies levels@[j] == compiled_seq(source)[j]
            by {
            assert(compiled_seq(source)[j] == compile_spec(source[j]));
        }
        assert(levels@ =~= compiled_seq(source));
        lemma_compiled_acceptable(source);
    }
    generate_histograms(&levels, character, num_samples)
}

} // verus!
