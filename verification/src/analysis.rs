//! The distribution-propagation engine: feasibility gate, per-policy
//! level-up updates, promotion updates, and the fold that produces one
//! snapshot per step.
//!
//! A per-stat distribution is held densely: entry `v` of the vector is
//! the probability of value `v`, so every achievable value lies in
//! `[0, cap]` by construction.  Contracts relate each produced vector
//! to a mathematical model over unbounded fractions, pointwise up to
//! fraction equality (`req`).

use crate::interface::{
    AnalysisError, BlankAvoidance, Character, CountBound, GrowthOverride, GrowthType, Histogram,
    PromotionTransform, Snapshot, Stat, StatChange, StatIndexType, StatType,
};
use crate::rational::{
    lemma_radd_cong, lemma_rcomp_cong, lemma_rdiv_cong, lemma_req_trans, lemma_rle_one_transfer,
    lemma_rmul_cong, lemma_rprod_le_factor, lemma_rprod_prob, lemma_rwf_radd, lemma_rwf_rmul,
    lemma_rwf_rpow, radd, rcomp, rdiv, req, rle, rmul, rone, rpow, rprob, rprod_upto, rwf, rzero,
    Rational,
};
use vstd::prelude::*;

verus! {

/// One stat's distribution at one step: the stat's growth rate, cap
/// and base, and the probability of each value in `[0, cap]`.
pub struct DistributedStat {
    pub growth: GrowthType,
    pub cap: StatType,
    pub base: StatType,
    pub pmf: Vec<Rational>,
}

impl DistributedStat {
    /// The support covers exactly `[0, cap]` and every entry is a
    /// well-formed fraction.
    pub open spec fn wf(self) -> bool {
        &&& self.pmf.len() == self.cap as int + 1
        &&& forall|i: int| 0 <= i < self.pmf.len() ==> (#[trigger] self.pmf[i]).wf()
    }

    /// The distribution as a sequence of mathematical fractions.
    pub open spec fn pv(self) -> Seq<(int, int)> {
        pmf_view(self.pmf@)
    }
}

pub open spec fn pmf_view(s: Seq<Rational>) -> Seq<(int, int)> {
    s.map_values(|r: Rational| r.v())
}

pub open spec fn spmf_wf(m: Seq<(int, int)>) -> bool {
    forall|i: int| 0 <= i < m.len() ==> rwf(#[trigger] m[i])
}

/// The executable vector denotes the model pointwise.
pub open spec fn pmf_equiv(e: Seq<(int, int)>, m: Seq<(int, int)>) -> bool {
    &&& e.len() == m.len()
    &&& spmf_wf(e)
    &&& spmf_wf(m)
    &&& forall|i: int| 0 <= i < e.len() ==> req(#[trigger] e[i], m[i])
}

pub open spec fn zero_pmf(len: int) -> Seq<(int, int)> {
    Seq::new(len as nat, |i: int| rzero())
}

/// Where mass lands: the target value, cut off at the cap.
pub open spec fn clamp_dest(x: int, cap: int) -> int {
    if x > cap {
        cap
    } else {
        x
    }
}

/// Adds weight `w` to bucket `k`.
pub open spec fn sbump(m: Seq<(int, int)>, k: int, w: (int, int)) -> Seq<(int, int)> {
    m.update(k, radd(m[k], w))
}

/// The guaranteed point count of an effective growth rate.
pub open spec fn gpart(eff: int) -> int {
    eff / 100
}

/// The probabilistic part of an effective growth rate.
pub open spec fn pfrac(eff: int) -> (int, int) {
    (eff % 100, 100)
}

/// The chance that a stat with this effective rate rolls no
/// probabilistic point; zero once a point is guaranteed.
pub open spec fn factor_spec(eff: int) -> (int, int) {
    if gpart(eff) >= 1 {
        rzero()
    } else {
        rcomp(pfrac(eff))
    }
}

/// The basic two-branch update folded over the first `n` source
/// values: value `v` sends `src[v] * whi` to `v + g + 1` and
/// `src[v] * wlo` to `v + g`, both cut off at the cap.
pub open spec fn pass_upto(
    src: Seq<(int, int)>,
    acc: Seq<(int, int)>,
    g: int,
    whi: (int, int),
    wlo: (int, int),
    n: nat,
) -> Seq<(int, int)>
    decreases n,
{
    if n == 0 {
        acc
    } else {
        let prev = pass_upto(src, acc, g, whi, wlo, (n - 1) as nat);
        let cap = acc.len() - 1;
        let v = n - 1;
        sbump(
            sbump(prev, clamp_dest(v + g + 1, cap), rmul(src[v], whi)),
            clamp_dest(v + g, cap),
            rmul(src[v], wlo),
        )
    }
}

/// The exact machine values of zero, one and the probabilistic part
/// of an effective growth rate.
pub open spec fn rat_zero() -> Rational {
    Rational { num: 0, den: 1 }
}

pub open spec fn rat_one() -> Rational {
    Rational { num: 1, den: 1 }
}

pub open spec fn p_rat(eff: GrowthType) -> Rational {
    Rational { num: (eff % 100) as u64, den: 100 }
}

pub open spec fn zero_seq(len: int) -> Seq<Rational> {
    Seq::new(len as nat, |i: int| rat_zero())
}

/// The machine run of one two-branch pass from source entry `v` on:
/// the exact accumulator it produces, or `None` exactly when some
/// exact-arithmetic step leaves the machine representation.
pub open spec fn pass_exec_from(
    src: Seq<Rational>,
    acc: Seq<Rational>,
    g: GrowthType,
    whi: Rational,
    wlo: Rational,
    v: nat,
) -> Option<Seq<Rational>>
    decreases src.len() - v,
{
    if v >= src.len() {
        Some(acc)
    } else {
        let cap = acc.len() - 1;
        match crate::rational::spec_mul(src[v as int], whi) {
            None => None,
            Some(wh) => match crate::rational::spec_mul(src[v as int], wlo) {
                None => None,
                Some(wl) => {
                    let hi = clamp_dest(v + g + 1, cap);
                    let lo = clamp_dest(v + g, cap);
                    match crate::rational::spec_add(acc[hi], wh) {
                        None => None,
                        Some(bh) => {
                            let mid = acc.update(hi, bh);
                            match crate::rational::spec_add(mid[lo], wl) {
                                None => None,
                                Some(bl) => pass_exec_from(
                                    src,
                                    mid.update(lo, bl),
                                    g,
                                    whi,
                                    wlo,
                                    v + 1,
                                ),
                            }
                        },
                    }
                },
            },
        }
    }
}

/// A fresh all-zero distribution vector.
fn zero_vec(len: usize) -> (r: Vec<Rational>)
    requires
        len >= 1,
    ensures
        r.len() == len,
        r@ == zero_seq(len as int),
        pmf_view(r@) == zero_pmf(len as int),
        forall|i: int| 0 <= i < r.len() ==> (#[trigger] r[i]).wf(),
{
    let mut r: Vec<Rational> = Vec::new();
    let mut i: usize = 0;
    while i < len
        invariant
            0 <= i <= len,
            r.len() == i,
            forall|j: int| 0 <= j < i ==> (#[trigger] r[j]).wf() && r[j].v() == rzero(),
        decreases len - i,
    {
        r.push(Rational::zero());
        i = i + 1;
    }
    proof {
        assert(r@ =~= zero_seq(len as int));
        assert(pmf_view(r@) =~= zero_pmf(len as int));
    }
    r
}

/// Runs one two-branch pass over the whole source distribution,
/// accumulating into `acc`; `acc_m`, `whi_m` and `wlo_m` are the
/// mathematical images of the accumulator and the two branch weights.
fn apply_pass(
    src: &Vec<Rational>,
    acc: &mut Vec<Rational>,
    g: GrowthType,
    whi: Rational,
    wlo: Rational,
    Ghost(acc_m): Ghost<Seq<(int, int)>>,
    Ghost(whi_m): Ghost<(int, int)>,
    Ghost(wlo_m): Ghost<(int, int)>,
) -> (r: Result<(), AnalysisError>)
    requires
        old(acc).len() == src.len(),
        1 <= src.len() <= u16::MAX as int + 1,
        forall|i: int| 0 <= i < src.len() ==> (#[trigger] src[i]).wf(),
        forall|i: int| 0 <= i < old(acc).len() ==> (#[trigger] old(acc)[i]).wf(),
        pmf_equiv(pmf_view(old(acc)@), acc_m),
        whi.wf(),
        wlo.wf(),
        rwf(whi_m),
        rwf(wlo_m),
        req(whi.v(), whi_m),
        req(wlo.v(), wlo_m),
    ensures
        r is Ok <==> pass_exec_from(src@, old(acc)@, g, whi, wlo, 0) is Some,
        r is Ok ==> Some(final(acc)@) == pass_exec_from(src@, old(acc)@, g, whi, wlo, 0),
        r is Ok ==> {
            &&& final(acc).len() == old(acc).len()
            &&& forall|i: int| 0 <= i < final(acc).len() ==> (#[trigger] final(acc)[i]).wf()
            &&& pmf_equiv(
                pmf_view(final(acc)@),
                pass_upto(pmf_view(src@), acc_m, g as int, whi_m, wlo_m, src.len() as nat),
            )
        },
        r is Err ==> r->Err_0 == AnalysisError::Overflow,
{
    let ghost srcv = pmf_view(src@);
    let ghost target = pass_exec_from(src@, old(acc)@, g, whi, wlo, 0);
    let last: usize = acc.len() - 1;
    let mut v: usize = 0;
    while v < src.len()
        invariant
            0 <= v <= src.len(),
            acc.len() == src.len(),
            last == acc.len() - 1,
            1 <= src.len() <= u16::MAX as int + 1,
            srcv == pmf_view(src@),
            acc_m.len() == src.len(),
            forall|i: int| 0 <= i < src.len() ==> (#[trigger] src[i]).wf(),
            forall|i: int| 0 <= i < acc.len() ==> (#[trigger] acc[i]).wf(),
            whi.wf(),
            wlo.wf(),
            rwf(whi_m),
            rwf(wlo_m),
            req(whi.v(), whi_m),
            req(wlo.v(), wlo_m),
            pmf_equiv(pmf_view(acc@), pass_upto(srcv, acc_m, g as int, whi_m, wlo_m, v as nat)),
            target == pass_exec_from(src@, old(acc)@, g, whi, wlo, 0),
            target == pass_exec_from(src@, acc@, g, whi, wlo, v as nat),
        decreases src.len() - v,
    {
        let ghost prev_m = pass_upto(srcv, acc_m, g as int, whi_m, wlo_m, v as nat);
        let ghost entry_acc = acc@;
        let w: Rational = src[v];
        let wh: Rational = match w.mul(whi) {
            Some(x) => x,
            None => {
                proof {
                    assert(pass_exec_from(src@, entry_acc, g, whi, wlo, v as nat) is None);
                }
                return Err(AnalysisError::Overflow);
            },
        };
        let wl: Rational = match w.mul(wlo) {
            Some(x) => x,
            None => {
                proof {
                    assert(pass_exec_from(src@, entry_acc, g, whi, wlo, v as nat) is None);
                }
                return Err(AnalysisError::Overflow);
            },
        };
        proof {
            lemma_rmul_cong(w.v(), w.v(), whi.v(), whi_m);
            lemma_rwf_rmul(w.v(), whi.v());
            lemma_rwf_rmul(w.v(), whi_m);
            lemma_req_trans(wh.v(), rmul(w.v(), whi.v()), rmul(w.v(), whi_m));
            lemma_rmul_cong(w.v(), w.v(), wlo.v(), wlo_m);
            lemma_rwf_rmul(w.v(), wlo.v());
            lemma_rwf_rmul(w.v(), wlo_m);
            lemma_req_trans(wl.v(), rmul(w.v(), wlo.v()), rmul(w.v(), wlo_m));
        }
        let hi_raw: usize = v + g as usize + 1;
        let hi: usize = if hi_raw > last {
            last
        } else {
            hi_raw
        };
        let lo_raw: usize = v + g as usize;
        let lo: usize = if lo_raw > last {
            last
        } else {
            lo_raw
        };
        proof {
            assert(hi as int == clamp_dest(v as int + g as int + 1, acc_m.len() - 1));
            assert(lo as int == clamp_dest(v as int + g as int, acc_m.len() - 1));
        }
        let ghost wh_m = rmul(srcv[v as int], whi_m);
        let ghost wl_m = rmul(srcv[v as int], wlo_m);
        let ghost mid_m = sbump(prev_m, hi as int, wh_m);
        let ghost pre_view = pmf_view(acc@);
        let cur_hi: Rational = acc[hi];
        let bumped_hi: Rational = match cur_hi.add(wh) {
            Some(x) => x,
            None => {
                proof {
                    assert(cur_hi == entry_acc[hi as int]);
                    assert(pass_exec_from(src@, entry_acc, g, whi, wlo, v as nat) is None);
                }
                return Err(AnalysisError::Overflow);
            },
        };
        proof {
            assert(pre_view[hi as int] == cur_hi.v());
            assert(srcv[v as int] == src[v as int].v());
            lemma_radd_cong(cur_hi.v(), prev_m[hi as int], wh.v(), wh_m);
            lemma_rwf_radd(cur_hi.v(), wh.v());
            lemma_rwf_radd(prev_m[hi as int], wh_m);
            lemma_req_trans(
                bumped_hi.v(),
                radd(cur_hi.v(), wh.v()),
                radd(prev_m[hi as int], wh_m),
            );
        }
        acc.set(hi, bumped_hi);
        proof {
            assert(pmf_view(acc@) =~= pre_view.update(hi as int, bumped_hi.v()));
            assert(pmf_equiv(pmf_view(acc@), mid_m)) by {
                assert forall|i: int| 0 <= i < mid_m.len() implies rwf(#[trigger] mid_m[i])
                    && rwf(pmf_view(acc@)[i]) && req(pmf_view(acc@)[i], mid_m[i]) by {
                    if i == hi as int {
                    } else {
                        assert(mid_m[i] == prev_m[i]);
                        assert(pmf_view(acc@)[i] == pre_view[i]);
                    }
                }
            }
        }
        let ghost mid_view = pmf_view(acc@);
        let ghost mid_e = entry_acc.update(hi as int, bumped_hi);
        proof {
            assert(acc@ == mid_e);
        }
        let cur_lo: Rational = acc[lo];
        let bumped_lo: Rational = match cur_lo.add(wl) {
            Some(x) => x,
            None => {
                proof {
                    assert(cur_lo == mid_e[lo as int]);
                    assert(pass_exec_from(src@, entry_acc, g, whi, wlo, v as nat) is None);
                }
                return Err(AnalysisError::Overflow);
            },
        };
        proof {
            assert(mid_view[lo as int] == cur_lo.v());
            lemma_radd_cong(cur_lo.v(), mid_m[lo as int], wl.v(), wl_m);
            lemma_rwf_radd(cur_lo.v(), wl.v());
            lemma_rwf_radd(mid_m[lo as int], wl_m);
            lemma_req_trans(
                bumped_lo.v(),
                radd(cur_lo.v(), wl.v()),
                radd(mid_m[lo as int], wl_m),
            );
        }
        acc.set(lo, bumped_lo);
        proof {
            assert(acc@ == mid_e.update(lo as int, bumped_lo));
            assert(pass_exec_from(src@, entry_acc, g, whi, wlo, v as nat) == pass_exec_from(
                src@,
                acc@,
                g,
                whi,
                wlo,
                (v + 1) as nat,
            ));
            let next_m = pass_upto(srcv, acc_m, g as int, whi_m, wlo_m, (v + 1) as nat);
            assert(next_m == sbump(mid_m, lo as int, wl_m));
            assert(pmf_view(acc@) =~= mid_view.update(lo as int, bumped_lo.v()));
            assert(pmf_equiv(pmf_view(acc@), next_m)) by {
                assert forall|i: int| 0 <= i < next_m.len() implies rwf(#[trigger] next_m[i])
                    && rwf(pmf_view(acc@)[i]) && req(pmf_view(acc@)[i], next_m[i]) by {
                    if i == lo as int {
                    } else {
                        assert(next_m[i] == mid_m[i]);
                        assert(pmf_view(acc@)[i] == mid_view[i]);
                    }
                }
            }
        }
        v = v + 1;
    }
    Ok(())
}

/// The simple level-up model for one stat: guaranteed part plus one
/// probabilistic branch.
pub open spec fn simple_model(src: Seq<(int, int)>, eff: int) -> Seq<(int, int)> {
    pass_upto(
        src,
        zero_pmf(src.len() as int),
        gpart(eff),
        pfrac(eff),
        rcomp(pfrac(eff)),
        src.len(),
    )
}

/// The machine run of the plain level-up for one stat.
pub open spec fn simple_exec(src: Seq<Rational>, eff: GrowthType) -> Option<Seq<Rational>> {
    pass_exec_from(
        src,
        zero_seq(src.len() as int),
        eff / 100,
        p_rat(eff),
        crate::rational::spec_comp(p_rat(eff)),
        0,
    )
}

/// The plain two-branch level-up for one stat under its effective
/// growth rate.
pub fn handle_simple_levelup(src: &DistributedStat, eff: GrowthType) -> (r: Result<
    Vec<Rational>,
    AnalysisError,
>)
    requires
        src.wf(),
    ensures
        r is Ok <==> simple_exec(src.pmf@, eff) is Some,
        r is Ok ==> Some(r->Ok_0@) == simple_exec(src.pmf@, eff),
        r is Ok ==> {
            &&& r->Ok_0.len() == src.pmf.len()
            &&& forall|i: int| 0 <= i < r->Ok_0.len() ==> (#[trigger] r->Ok_0[i]).wf()
            &&& pmf_equiv(pmf_view(r->Ok_0@), simple_model(src.pv(), eff as int))
        },
        r is Err ==> r->Err_0 == AnalysisError::Overflow,
{
    let g: GrowthType = eff / 100;
    let p: Rational = Rational::new((eff % 100) as u64, 100);
    let omp: Rational = p.complement();
    proof {
        assert(p == p_rat(eff));
        assert(omp == crate::rational::spec_comp(p_rat(eff)));
    }
    let mut acc: Vec<Rational> = zero_vec(src.pmf.len());
    proof {
        assert(pmf_equiv(pmf_view(acc@), zero_pmf(src.pmf.len() as int))) by {
            assert forall|i: int| 0 <= i < acc.len() implies req(
                #[trigger] pmf_view(acc@)[i],
                zero_pmf(src.pmf.len() as int)[i],
            ) by {}
        }
    }
    match apply_pass(
        &src.pmf,
        &mut acc,
        g,
        p,
        omp,
        Ghost(zero_pmf(src.pmf.len() as int)),
        Ghost(pfrac(eff as int)),
        Ghost(rcomp(pfrac(eff as int))),
    ) {
        Ok(()) => Ok(acc),
        Err(e) => Err(e),
    }
}

/// The retried level-up model: iterations `iter ..= retries` of the
/// two-branch update folded over `acc`, each scaled by the chance
/// that all earlier attempts were blank; on every attempt but the
/// last, the no-growth branch is discounted by the chance that the
/// other stats were all blank too (which would have triggered the
/// next re-roll).
pub open spec fn retried_upto(
    src: Seq<(int, int)>,
    acc: Seq<(int, int)>,
    eff: int,
    azp: (int, int),
    retries: nat,
    iter: nat,
) -> Seq<(int, int)>
    decreases retries + 1 - iter,
{
    if iter > retries {
        acc
    } else {
        let p = pfrac(eff);
        let scale = rpow(azp, iter);
        let adj = if iter == retries {
            rone()
        } else {
            rcomp(rdiv(azp, rcomp(p)))
        };
        let whi = rmul(p, scale);
        let wlo = rmul(rmul(rcomp(p), adj), scale);
        retried_upto(
            src,
            pass_upto(src, acc, gpart(eff), whi, wlo, src.len()),
            eff,
            azp,
            retries,
            iter + 1,
        )
    }
}

pub open spec fn retried_model(
    src: Seq<(int, int)>,
    eff: int,
    azp: (int, int),
    retries: nat,
) -> Seq<(int, int)> {
    retried_upto(src, zero_pmf(src.len() as int), eff, azp, retries, 0)
}

/// The fixed-fallback model for the awarded stat: its growth branch
/// additionally receives the all-blank mass, and its no-growth branch
/// is discounted by the chance that the other stats were all blank.
pub open spec fn fixed_model(src: Seq<(int, int)>, eff: int, azp: (int, int)) -> Seq<(int, int)> {
    let p = pfrac(eff);
    pass_upto(
        src,
        zero_pmf(src.len() as int),
        gpart(eff),
        radd(p, azp),
        rmul(rcomp(p), rcomp(rdiv(azp, rcomp(p)))),
        src.len(),
    )
}

/// The machine run of the retried level-up from attempt `iter` on:
/// one two-branch pass per attempt, the scale multiplied by the
/// all-blank probability between attempts.
pub open spec fn retried_exec_from(
    src: Seq<Rational>,
    acc: Seq<Rational>,
    eff: GrowthType,
    azp: Rational,
    adj: Rational,
    scale: Rational,
    retries: u32,
    iter: int,
) -> Option<Seq<Rational>>
    decreases retries + 1 - iter,
{
    if iter > retries {
        Some(acc)
    } else {
        match crate::rational::spec_mul(p_rat(eff), scale) {
            None => None,
            Some(whi) => {
                let adj_cur = if iter == retries {
                    rat_one()
                } else {
                    adj
                };
                match crate::rational::spec_mul(crate::rational::spec_comp(p_rat(eff)), adj_cur) {
                    None => None,
                    Some(tmp) => match crate::rational::spec_mul(tmp, scale) {
                        None => None,
                        Some(wlo) => match pass_exec_from(src, acc, eff / 100, whi, wlo, 0) {
                            None => None,
                            Some(acc2) => if iter < retries {
                                match crate::rational::spec_mul(scale, azp) {
                                    None => None,
                                    Some(s2) => retried_exec_from(
                                        src,
                                        acc2,
                                        eff,
                                        azp,
                                        adj,
                                        s2,
                                        retries,
                                        iter + 1,
                                    ),
                                }
                            } else {
                                retried_exec_from(src, acc2, eff, azp, adj, scale, retries, iter + 1)
                            },
                        },
                    },
                }
            },
        }
    }
}

/// The machine run of the whole retried level-up for one stat.
pub open spec fn retried_exec(
    src: Seq<Rational>,
    eff: GrowthType,
    azp: Rational,
    retries: u32,
) -> Option<Seq<Rational>> {
    match crate::rational::spec_div(azp, crate::rational::spec_comp(p_rat(eff))) {
        None => None,
        Some(aoz) => retried_exec_from(
            src,
            zero_seq(src.len() as int),
            eff,
            azp,
            crate::rational::spec_comp(aoz),
            rat_one(),
            retries,
            0,
        ),
    }
}

/// The machine run of the fixed-fallback level-up for the awarded stat.
pub open spec fn fixed_exec(src: Seq<Rational>, eff: GrowthType, azp: Rational) -> Option<
    Seq<Rational>,
> {
    match crate::rational::spec_div(azp, crate::rational::spec_comp(p_rat(eff))) {
        None => None,
        Some(aoz) => match crate::rational::spec_add(p_rat(eff), azp) {
            None => None,
            Some(whi) => match crate::rational::spec_mul(
                crate::rational::spec_comp(p_rat(eff)),
                crate::rational::spec_comp(aoz),
            ) {
                None => None,
                Some(wlo) => pass_exec_from(
                    src,
                    zero_seq(src.len() as int),
                    eff / 100,
                    whi,
                    wlo,
                    0,
                ),
            },
        },
    }
}

/// The level-up with whole-entity re-rolls for one stat.
pub fn handle_retried_levelup(
    src: &DistributedStat,
    eff: GrowthType,
    azp: Rational,
    retries: u32,
    Ghost(azp_m): Ghost<(int, int)>,
) -> (r: Result<Vec<Rational>, AnalysisError>)
    requires
        src.wf(),
        azp.wf(),
        azp.num <= azp.den,
        rwf(azp_m),
        req(azp.v(), azp_m),
        rle(azp_m, factor_spec(eff as int)),
    ensures
        r is Ok <==> retried_exec(src.pmf@, eff, azp, retries) is Some,
        r is Ok ==> Some(r->Ok_0@) == retried_exec(src.pmf@, eff, azp, retries),
        r is Ok ==> {
            &&& r->Ok_0.len() == src.pmf.len()
            &&& forall|i: int| 0 <= i < r->Ok_0.len() ==> (#[trigger] r->Ok_0[i]).wf()
            &&& pmf_equiv(
                pmf_view(r->Ok_0@),
                retried_model(src.pv(), eff as int, azp_m, retries as nat),
            )
        },
        r is Err ==> r->Err_0 == AnalysisError::Overflow,
{
    let ghost srcv = src.pv();
    let ghost target = retried_model(srcv, eff as int, azp_m, retries as nat);
    let ghost exec_target = retried_exec(src.pmf@, eff, azp, retries);
    let g: GrowthType = eff / 100;
    let p: Rational = Rational::new((eff % 100) as u64, 100);
    let omp: Rational = p.complement();
    proof {
        assert(p == p_rat(eff));
        assert(omp == crate::rational::spec_comp(p_rat(eff)));
    }
    let ghost pm = pfrac(eff as int);
    let ghost aoz_m = rdiv(azp_m, rcomp(pm));
    let aoz: Rational = match azp.div(omp) {
        Some(x) => x,
        None => {
            proof {
                assert(exec_target is None);
            }
            return Err(AnalysisError::Overflow);
        },
    };
    proof {
        lemma_aoz_bounds(azp, azp_m, aoz, eff as int);
    }
    let adj: Rational = aoz.complement();
    proof {
        lemma_rcomp_cong(aoz.v(), aoz_m);
    }
    let mut acc: Vec<Rational> = zero_vec(src.pmf.len());
    let ghost mut acc_m_cur: Seq<(int, int)> = zero_pmf(src.pmf.len() as int);
    proof {
        assert(pmf_equiv(pmf_view(acc@), acc_m_cur)) by {
            assert forall|i: int| 0 <= i < acc.len() implies req(
                #[trigger] pmf_view(acc@)[i],
                acc_m_cur[i],
            ) by {}
        }
    }
    let mut scale: Rational = Rational::one();
    let mut iter: u64 = 0;
    while iter <= retries as u64
        invariant
            0 <= iter <= retries as u64 + 1,
            src.wf(),
            srcv == src.pv(),
            g == eff / 100,
            p.v() == pm,
            pm == pfrac(eff as int),
            omp.v() == rcomp(pm),
            omp.wf(),
            omp.num >= 1,
            p.wf(),
            azp.wf(),
            rwf(azp_m),
            req(azp.v(), azp_m),
            adj.wf(),
            adj.num <= adj.den,
            req(adj.v(), rcomp(aoz_m)),
            aoz_m == rdiv(azp_m, rcomp(pm)),
            rwf(rcomp(aoz_m)),
            scale.wf(),
            iter <= retries as u64 ==> req(scale.v(), rpow(azp_m, iter as nat)),
            acc.len() == src.pmf.len(),
            acc_m_cur.len() == src.pmf.len(),
            forall|i: int| 0 <= i < acc.len() ==> (#[trigger] acc[i]).wf(),
            pmf_equiv(pmf_view(acc@), acc_m_cur),
            retried_upto(srcv, acc_m_cur, eff as int, azp_m, retries as nat, iter as nat)
                == target,
            p == p_rat(eff),
            omp == crate::rational::spec_comp(p_rat(eff)),
            exec_target == retried_exec(src.pmf@, eff, azp, retries),
            exec_target == retried_exec_from(
                src.pmf@,
                acc@,
                eff,
                azp,
                adj,
                scale,
                retries,
                iter as int,
            ),
        decreases retries as int + 1 - iter,
    {
        let ghost entry_acc = acc@;
        let ghost entry_scale = scale;
        let ghost scale_m = rpow(azp_m, iter as nat);
        let ghost adj_m: (int, int) = if iter == retries as u64 {
            rone()
        } else {
            rcomp(aoz_m)
        };
        let ghost whi_m = rmul(pm, scale_m);
        let ghost wlo_m = rmul(rmul(rcomp(pm), adj_m), scale_m);
        let whi: Rational = match p.mul(scale) {
            Some(x) => x,
            None => {
                proof {
                    assert(exec_target is None);
                }
                return Err(AnalysisError::Overflow);
            },
        };
        let adj_cur: Rational = if iter == retries as u64 {
            Rational::one()
        } else {
            adj
        };
        proof {
            assert(adj_cur == if iter as int == retries as int {
                rat_one()
            } else {
                adj
            });
        }
        let tmp: Rational = match omp.mul(adj_cur) {
            Some(x) => x,
            None => {
                proof {
                    assert(exec_target is None);
                }
                return Err(AnalysisError::Overflow);
            },
        };
        let wlo: Rational = match tmp.mul(scale) {
            Some(x) => x,
            None => {
                proof {
                    assert(exec_target is None);
                }
                return Err(AnalysisError::Overflow);
            },
        };
        proof {
            lemma_rwf_rpow(azp_m, iter as nat);
            lemma_rwf_rmul(pm, scale_m);
            lemma_rwf_rmul(rcomp(pm), adj_m);
            lemma_rwf_rmul(rmul(rcomp(pm), adj_m), scale_m);
            lemma_rmul_cong(p.v(), pm, scale.v(), scale_m);
            lemma_rwf_rmul(p.v(), scale.v());
            lemma_req_trans(whi.v(), rmul(p.v(), scale.v()), whi_m);
            lemma_rmul_cong(omp.v(), rcomp(pm), adj_cur.v(), adj_m);
            lemma_rwf_rmul(omp.v(), adj_cur.v());
            lemma_req_trans(tmp.v(), rmul(omp.v(), adj_cur.v()), rmul(rcomp(pm), adj_m));
            lemma_rmul_cong(tmp.v(), rmul(rcomp(pm), adj_m), scale.v(), scale_m);
            lemma_rwf_rmul(tmp.v(), scale.v());
            lemma_req_trans(wlo.v(), rmul(tmp.v(), scale.v()), wlo_m);
        }
        match apply_pass(
            &src.pmf,
            &mut acc,
            g,
            whi,
            wlo,
            Ghost(acc_m_cur),
            Ghost(whi_m),
            Ghost(wlo_m),
        ) {
            Ok(()) => (),
            Err(e) => {
                proof {
                    assert(pass_exec_from(src.pmf@, entry_acc, g, whi, wlo, 0) is None);
                    assert(exec_target is None);
                }
                return Err(e);
            },
        }
        proof {
            acc_m_cur = pass_upto(srcv, acc_m_cur, g as int, whi_m, wlo_m, src.pmf.len() as nat);
            assert(Some(acc@) == pass_exec_from(src.pmf@, entry_acc, g, whi, wlo, 0));
        }
        if iter < retries as u64 {
            let prev_scale: Rational = scale;
            scale = match prev_scale.mul(azp) {
                Some(x) => x,
                None => {
                    proof {
                        assert(exec_target is None);
                    }
                    return Err(AnalysisError::Overflow);
                },
            };
            proof {
                lemma_rwf_rpow(azp_m, iter as nat);
                lemma_rmul_cong(prev_scale.v(), scale_m, azp.v(), azp_m);
                lemma_rwf_rmul(prev_scale.v(), azp.v());
                lemma_rwf_rmul(scale_m, azp_m);
                lemma_req_trans(
                    scale.v(),
                    rmul(prev_scale.v(), azp.v()),
                    rmul(scale_m, azp_m),
                );
                assert(rpow(azp_m, (iter + 1) as nat) == rmul(scale_m, azp_m));
            }
        }
        proof {
            assert(exec_target == retried_exec_from(
                src.pmf@,
                acc@,
                eff,
                azp,
                adj,
                scale,
                retries,
                iter as int + 1,
            ));
        }
        iter = iter + 1;
    }
    proof {
        assert(exec_target == Some(acc@));
    }
    Ok(acc)
}

/// The level-up awarding a fixed stat on blank levels, for the
/// awarded stat itself.
pub fn handle_fixed_stat_levelup(
    src: &DistributedStat,
    eff: GrowthType,
    azp: Rational,
    Ghost(azp_m): Ghost<(int, int)>,
) -> (r: Result<Vec<Rational>, AnalysisError>)
    requires
        src.wf(),
        azp.wf(),
        azp.num <= azp.den,
        rwf(azp_m),
        req(azp.v(), azp_m),
        rle(azp_m, factor_spec(eff as int)),
    ensures
        r is Ok <==> fixed_exec(src.pmf@, eff, azp) is Some,
        r is Ok ==> Some(r->Ok_0@) == fixed_exec(src.pmf@, eff, azp),
        r is Ok ==> {
            &&& r->Ok_0.len() == src.pmf.len()
            &&& forall|i: int| 0 <= i < r->Ok_0.len() ==> (#[trigger] r->Ok_0[i]).wf()
            &&& pmf_equiv(pmf_view(r->Ok_0@), fixed_model(src.pv(), eff as int, azp_m))
        },
        r is Err ==> r->Err_0 == AnalysisError::Overflow,
{
    let ghost exec_target = fixed_exec(src.pmf@, eff, azp);
    let g: GrowthType = eff / 100;
    let p: Rational = Rational::new((eff % 100) as u64, 100);
    let omp: Rational = p.complement();
    proof {
        assert(p == p_rat(eff));
        assert(omp == crate::rational::spec_comp(p_rat(eff)));
    }
    let ghost pm = pfrac(eff as int);
    let ghost aoz_m = rdiv(azp_m, rcomp(pm));
    let ghost whi_m = radd(pm, azp_m);
    let ghost wlo_m = rmul(rcomp(pm), rcomp(aoz_m));
    let aoz: Rational = match azp.div(omp) {
        Some(x) => x,
        None => {
            proof {
                assert(exec_target is None);
            }
            return Err(AnalysisError::Overflow);
        },
    };
    proof {
        lemma_aoz_bounds(azp, azp_m, aoz, eff as int);
    }
    let whi: Rational = match p.add(azp) {
        Some(x) => x,
        None => {
            proof {
                assert(exec_target is None);
            }
            return Err(AnalysisError::Overflow);
        },
    };
    let wlo: Rational = match omp.mul(aoz.complement()) {
        Some(x) => x,
        None => {
            proof {
                assert(exec_target is None);
            }
            return Err(AnalysisError::Overflow);
        },
    };
    proof {
        assert(exec_target == pass_exec_from(
            src.pmf@,
            zero_seq(src.pmf.len() as int),
            g,
            whi,
            wlo,
            0,
        ));
    }
    proof {
        lemma_radd_cong(p.v(), pm, azp.v(), azp_m);
        lemma_rwf_radd(p.v(), azp.v());
        lemma_rwf_radd(pm, azp_m);
        lemma_req_trans(whi.v(), radd(p.v(), azp.v()), whi_m);
        lemma_rcomp_cong(aoz.v(), aoz_m);
        lemma_rmul_cong(omp.v(), rcomp(pm), rcomp(aoz.v()), rcomp(aoz_m));
        lemma_rwf_rmul(omp.v(), rcomp(aoz.v()));
        lemma_rwf_rmul(rcomp(pm), rcomp(aoz_m));
        lemma_req_trans(wlo.v(), rmul(omp.v(), rcomp(aoz.v())), wlo_m);
    }
    let mut acc: Vec<Rational> = zero_vec(src.pmf.len());
    proof {
        assert(pmf_equiv(pmf_view(acc@), zero_pmf(src.pmf.len() as int))) by {
            assert forall|i: int| 0 <= i < acc.len() implies req(
                #[trigger] pmf_view(acc@)[i],
                zero_pmf(src.pmf.len() as int)[i],
            ) by {}
        }
    }
    match apply_pass(
        &src.pmf,
        &mut acc,
        g,
        whi,
        wlo,
        Ghost(zero_pmf(src.pmf.len() as int)),
        Ghost(whi_m),
        Ghost(wlo_m),
    ) {
        Ok(()) => Ok(acc),
        Err(e) => Err(e),
    }
}

/// The all-others-blank quotient is a probability, both in the model
/// and in the machine value.
proof fn lemma_aoz_bounds(azp: Rational, azp_m: (int, int), aoz: Rational, eff: int)
    requires
        azp.wf(),
        rwf(azp_m),
        req(azp.v(), azp_m),
        rle(azp_m, factor_spec(eff)),
        0 <= eff,
        req(aoz.v(), rdiv(azp.v(), rcomp(pfrac(eff)))),
        aoz.wf(),
    ensures
        rwf(rdiv(azp_m, rcomp(pfrac(eff)))),
        rdiv(azp_m, rcomp(pfrac(eff))).0 <= rdiv(azp_m, rcomp(pfrac(eff))).1,
        req(aoz.v(), rdiv(azp_m, rcomp(pfrac(eff)))),
        aoz.num <= aoz.den,
        rwf(rcomp(rdiv(azp_m, rcomp(pfrac(eff))))),
{
    let pm = pfrac(eff);
    let k = eff % 100;
    assert(0 <= k < 100);
    let aoz_m = rdiv(azp_m, rcomp(pm));
    assert(aoz_m.0 == azp_m.0 * 100 && aoz_m.1 == azp_m.1 * (100 - k));
    assert(aoz_m.0 >= 0 && aoz_m.1 >= 1) by (nonlinear_arith)
        requires
            azp_m.0 >= 0,
            azp_m.1 >= 1,
            aoz_m.0 == azp_m.0 * 100,
            aoz_m.1 == azp_m.1 * (100 - k),
            0 <= k < 100,
    {}
    if gpart(eff) >= 1 {
        assert(factor_spec(eff) == rzero());
        assert(azp_m.0 * 1 <= 0 * azp_m.1);
        assert(azp_m.0 == 0) by (nonlinear_arith)
            requires
                azp_m.0 * 1 <= 0 * azp_m.1,
                azp_m.0 >= 0,
        {}
        assert(aoz_m.0 == 0) by (nonlinear_arith)
            requires
                aoz_m.0 == azp_m.0 * 100,
                azp_m.0 == 0,
        {}
    } else {
        assert(factor_spec(eff) == rcomp(pm));
        assert(aoz_m.0 <= aoz_m.1) by (nonlinear_arith)
            requires
                azp_m.0 * 100 <= (100 - k) * azp_m.1,
                aoz_m.0 == azp_m.0 * 100,
                aoz_m.1 == azp_m.1 * (100 - k),
        {}
    }
    assert(rdiv(azp.v(), rcomp(pm)).1 >= 1) by (nonlinear_arith)
        requires
            azp.den >= 1,
            0 <= k < 100,
            rdiv(azp.v(), rcomp(pm)).1 == (azp.den as int) * (100 - k),
    {}
    lemma_rdiv_cong(azp.v(), azp_m, rcomp(pm), rcomp(pm));
    lemma_req_trans(aoz.v(), rdiv(azp.v(), rcomp(pm)), aoz_m);
    lemma_rle_one_transfer(aoz.v(), aoz_m);
}

/// The chance that an entire level-up is blank: the product over all
/// stats of the chance that the stat rolls no probabilistic point.
pub open spec fn factors_of(effs: Seq<GrowthType>) -> Seq<(int, int)> {
    Seq::new(effs.len(), |i: int| factor_spec(effs[i] as int))
}

pub open spec fn azp_of(effs: Seq<GrowthType>) -> (int, int) {
    rprod_upto(factors_of(effs), effs.len())
}

/// The exact blank factor of one effective rate, as the machine holds it.
pub open spec fn factor_rat(eff: GrowthType) -> Rational {
    if eff >= 100 {
        rat_zero()
    } else {
        Rational { num: (100 - eff % 100) as u64, den: 100 }
    }
}

/// The machine run of the all-blank product from stat `i` on.
pub open spec fn azp_exec_from(effs: Seq<GrowthType>, acc: Rational, i: nat) -> Option<Rational>
    decreases effs.len() - i,
{
    if i >= effs.len() {
        Some(acc)
    } else {
        match crate::rational::spec_mul(acc, factor_rat(effs[i as int])) {
            None => None,
            Some(a2) => azp_exec_from(effs, a2, i + 1),
        }
    }
}

/// The machine value of the all-blank probability.
pub open spec fn azp_exec(effs: Seq<GrowthType>) -> Option<Rational> {
    azp_exec_from(effs, rat_one(), 0)
}

/// Every blank factor is a probability.
pub proof fn lemma_factors_prob(effs: Seq<GrowthType>)
    ensures
        forall|i: int| 0 <= i < factors_of(effs).len() ==> rprob(#[trigger] factors_of(effs)[i]),
{
    assert forall|i: int| 0 <= i < factors_of(effs).len() implies rprob(
        #[trigger] factors_of(effs)[i],
    ) by {
        let eff = effs[i] as int;
        assert(0 <= eff % 100 < 100);
    }
}

fn all_zero_prob(effs: &Vec<GrowthType>) -> (r: Result<Rational, AnalysisError>)
    ensures
        r is Ok <==> azp_exec(effs@) is Some,
        r is Ok ==> Some(r->Ok_0) == azp_exec(effs@),
        r is Ok ==> {
            &&& r->Ok_0.wf()
            &&& r->Ok_0.num <= r->Ok_0.den
            &&& req(r->Ok_0.v(), azp_of(effs@))
        },
        r is Err ==> r->Err_0 == AnalysisError::Overflow,
{
    let ghost fs = factors_of(effs@);
    let ghost exec_target = azp_exec(effs@);
    let mut acc: Rational = Rational::one();
    let mut i: usize = 0;
    while i < effs.len()
        invariant
            0 <= i <= effs.len(),
            fs == factors_of(effs@),
            acc.wf(),
            req(acc.v(), rprod_upto(fs, i as nat)),
            exec_target == azp_exec(effs@),
            exec_target == azp_exec_from(effs@, acc, i as nat),
        decreases effs.len() - i,
    {
        let eff: GrowthType = effs[i];
        let f: Rational = if eff >= 100 {
            Rational::zero()
        } else {
            Rational::new((100 - eff % 100) as u64, 100)
        };
        proof {
            assert(f == factor_rat(effs@[i as int]));
        }
        let prev: Rational = acc;
        acc = match prev.mul(f) {
            Some(x) => x,
            None => {
                proof {
                    assert(exec_target is None);
                }
                return Err(AnalysisError::Overflow);
            },
        };
        proof {
            assert(f.v() == fs[i as int]);
            lemma_factors_prob(effs@);
            lemma_rprod_prob(fs, i as nat);
            lemma_rprod_prob(fs, (i + 1) as nat);
            lemma_rmul_cong(prev.v(), rprod_upto(fs, i as nat), f.v(), fs[i as int]);
            lemma_rwf_rmul(prev.v(), f.v());
            lemma_rwf_rmul(rprod_upto(fs, i as nat), fs[i as int]);
            lemma_req_trans(
                acc.v(),
                rmul(prev.v(), f.v()),
                rmul(rprod_upto(fs, i as nat), fs[i as int]),
            );
        }
        i = i + 1;
    }
    proof {
        lemma_factors_prob(effs@);
        lemma_rprod_prob(fs, effs.len() as nat);
        lemma_rle_one_transfer(acc.v(), rprod_upto(fs, effs.len() as nat));
    }
    Ok(acc)
}

/// The stat handed to a promotion transform for source value `v`.
pub open spec fn stat_at(ds: DistributedStat, v: int) -> Stat {
    Stat { base: ds.base, cap: ds.cap, growth: ds.growth, value: v as StatType }
}

/// The smallest value carrying probability mass, scanning up from `i`.
pub open spec fn first_support_from(pmf: Seq<Rational>, i: nat) -> Option<int>
    decreases pmf.len() - i,
{
    if i >= pmf.len() {
        None
    } else if pmf[i as int].num >= 1 {
        Some(i as int)
    } else {
        first_support_from(pmf, i + 1)
    }
}

/// The stat that fixes the promoted growth and cap: the transform of
/// the first supported value.
pub open spec fn promo_target<SIT, P: PromotionTransform<SIT>>(
    t: P,
    key: SIT,
    ds: DistributedStat,
) -> Stat {
    t.apply_spec(key, stat_at(ds, first_support_from(ds.pmf@, 0)->Some_0))
}

/// The transform agrees on growth and cap across the whole support.
pub open spec fn promo_consistent<SIT, P: PromotionTransform<SIT>>(
    t: P,
    key: SIT,
    ds: DistributedStat,
) -> bool {
    forall|v: int|
        0 <= v < ds.pmf.len() && (#[trigger] ds.pmf[v]).num >= 1 ==> {
            &&& t.apply_spec(key, stat_at(ds, v)).growth == promo_target(t, key, ds).growth
            &&& t.apply_spec(key, stat_at(ds, v)).cap == promo_target(t, key, ds).cap
        }
}

/// The promoted distribution after grouping the first `n` source
/// values by their transformed value and summing.
pub open spec fn promo_upto<SIT, P: PromotionTransform<SIT>>(
    t: P,
    key: SIT,
    ds: DistributedStat,
    n: nat,
) -> Seq<(int, int)>
    decreases n,
{
    if n == 0 {
        zero_pmf(promo_target(t, key, ds).cap as int + 1)
    } else {
        let prev = promo_upto(t, key, ds, (n - 1) as nat);
        if ds.pmf[n - 1].num == 0 {
            prev
        } else {
            sbump(prev, t.apply_spec(key, stat_at(ds, n - 1)).value as int, ds.pmf[n - 1].v())
        }
    }
}

/// The machine run of grouping the promoted values from source value
/// `v` on: `None` exactly when an exact sum leaves the representation.
pub open spec fn promo_exec_from<SIT, P: PromotionTransform<SIT>>(
    t: P,
    key: SIT,
    ds: DistributedStat,
    acc: Seq<Rational>,
    v: nat,
) -> Option<Seq<Rational>>
    decreases ds.pmf.len() - v,
{
    if v >= ds.pmf.len() {
        Some(acc)
    } else if ds.pmf[v as int].num == 0 {
        promo_exec_from(t, key, ds, acc, v + 1)
    } else {
        let dest = t.apply_spec(key, stat_at(ds, v as int)).value as int;
        match crate::rational::spec_add(acc[dest], ds.pmf[v as int]) {
            None => None,
            Some(b) => promo_exec_from(t, key, ds, acc.update(dest, b), v + 1),
        }
    }
}

/// The machine run of the whole promotion of one stat.
pub open spec fn promo_exec<SIT, P: PromotionTransform<SIT>>(
    t: P,
    key: SIT,
    ds: DistributedStat,
) -> Option<Seq<Rational>> {
    promo_exec_from(t, key, ds, zero_seq(promo_target(t, key, ds).cap as int + 1), 0)
}

/// Transforms one stat's distribution through a promotion: every
/// supported value is mapped pointwise and the results are grouped by
/// value; growth and cap must come out the same everywhere.
pub fn internal_process_promotion<SIT: StatIndexType, P: PromotionTransform<SIT>>(
    key: SIT,
    ds: &DistributedStat,
    promo_changes: &P,
) -> (r: Result<DistributedStat, AnalysisError>)
    requires
        ds.wf(),
    ensures
        r is Ok <==> (first_support_from(ds.pmf@, 0) is Some && promo_consistent(
            *promo_changes,
            key,
            *ds,
        ) && promo_exec(*promo_changes, key, *ds) is Some),
        r is Ok ==> Some(r->Ok_0.pmf@) == promo_exec(*promo_changes, key, *ds),
        r is Ok ==> {
            let tg = promo_target(*promo_changes, key, *ds);
            &&& first_support_from(ds.pmf@, 0) is Some
            &&& promo_consistent(*promo_changes, key, *ds)
            &&& r->Ok_0.growth == tg.growth
            &&& r->Ok_0.cap == tg.cap
            &&& r->Ok_0.base == ds.base
            &&& r->Ok_0.wf()
            &&& pmf_equiv(
                r->Ok_0.pv(),
                promo_upto(*promo_changes, key, *ds, ds.pmf.len() as nat),
            )
        },
        (r matches Err(e) && e == AnalysisError::MassViolation) <==> first_support_from(
            ds.pmf@,
            0,
        ) is None,
        (r matches Err(e) && e == AnalysisError::InconsistentPromotion) <==> (first_support_from(
            ds.pmf@,
            0,
        ) is Some && !promo_consistent(*promo_changes, key, *ds)),
        r is Err ==> r->Err_0 == AnalysisError::MassViolation || r->Err_0
            == AnalysisError::InconsistentPromotion || r->Err_0 == AnalysisError::Overflow,
{
    let n: usize = ds.pmf.len();
    let mut fi: usize = 0;
    while fi < n && ds.pmf[fi].num == 0
        invariant
            0 <= fi <= n,
            n == ds.pmf.len(),
            first_support_from(ds.pmf@, 0) == first_support_from(ds.pmf@, fi as nat),
        decreases n - fi,
    {
        fi = fi + 1;
    }
    if fi == n {
        return Err(AnalysisError::MassViolation);
    }
    let ghost tg = promo_target(*promo_changes, key, *ds);
    proof {
        assert(first_support_from(ds.pmf@, fi as nat) == Some(fi as int));
    }
    let first_stat = Stat { base: ds.base, cap: ds.cap, growth: ds.growth, value: fi as StatType };
    proof {
        assert(first_stat == stat_at(*ds, fi as int));
    }
    let target: Stat = promo_changes.apply(&key, first_stat);
    let mut v: usize = 0;
    while v < n
        invariant
            0 <= v <= n,
            n == ds.pmf.len(),
            ds.wf(),
            first_support_from(ds.pmf@, 0) is Some,
            target == promo_target(*promo_changes, key, *ds),
            forall|j: int|
                0 <= j < v && (#[trigger] ds.pmf[j]).num >= 1 ==> {
                    &&& promo_changes.apply_spec(key, stat_at(*ds, j)).growth == target.growth
                    &&& promo_changes.apply_spec(key, stat_at(*ds, j)).cap == target.cap
                },
        decreases n - v,
    {
        if ds.pmf[v].num != 0 {
            let probe = Stat { base: ds.base, cap: ds.cap, growth: ds.growth, value: v as StatType };
            proof {
                assert(probe == stat_at(*ds, v as int));
            }
            let moved: Stat = promo_changes.apply(&key, probe);
            if moved.growth != target.growth || moved.cap != target.cap {
                proof {
                    assert(!promo_consistent(*promo_changes, key, *ds)) by {
                        assert(0 <= v < ds.pmf.len() && ds.pmf[v as int].num >= 1
                            && !(promo_changes.apply_spec(key, stat_at(*ds, v as int)).growth
                            == promo_target(*promo_changes, key, *ds).growth
                            && promo_changes.apply_spec(key, stat_at(*ds, v as int)).cap
                            == promo_target(*promo_changes, key, *ds).cap));
                    }
                }
                return Err(AnalysisError::InconsistentPromotion);
            }
        }
        v = v + 1;
    }
    let mut acc: Vec<Rational> = zero_vec(target.cap as usize + 1);
    proof {
        assert(pmf_equiv(pmf_view(acc@), promo_upto(*promo_changes, key, *ds, 0))) by {
            assert forall|i: int| 0 <= i < acc.len() implies req(
                #[trigger] pmf_view(acc@)[i],
                promo_upto(*promo_changes, key, *ds, 0)[i],
            ) by {}
        }
    }
    proof {
        assert(acc@ == zero_seq(promo_target(*promo_changes, key, *ds).cap as int + 1));
    }
    let ghost exec_target = promo_exec(*promo_changes, key, *ds);
    let mut w: usize = 0;
    while w < n
        invariant
            0 <= w <= n,
            n == ds.pmf.len(),
            ds.wf(),
            first_support_from(ds.pmf@, 0) is Some,
            target == promo_target(*promo_changes, key, *ds),
            promo_consistent(*promo_changes, key, *ds),
            acc.len() == target.cap as int + 1,
            forall|i: int| 0 <= i < acc.len() ==> (#[trigger] acc[i]).wf(),
            pmf_equiv(pmf_view(acc@), promo_upto(*promo_changes, key, *ds, w as nat)),
            exec_target == promo_exec(*promo_changes, key, *ds),
            exec_target == promo_exec_from(*promo_changes, key, *ds, acc@, w as nat),
        decreases n - w,
    {
        let ghost prev_m = promo_upto(*promo_changes, key, *ds, w as nat);
        let ghost entry_acc = acc@;
        let weight: Rational = ds.pmf[w];
        if weight.num != 0 {
            let probe = Stat { base: ds.base, cap: ds.cap, growth: ds.growth, value: w as StatType };
            proof {
                assert(probe == stat_at(*ds, w as int));
            }
            let moved: Stat = promo_changes.apply(&key, probe);
            let dest: usize = moved.value as usize;
            let ghost pre_view = pmf_view(acc@);
            let cur: Rational = acc[dest];
            let bumped: Rational = match cur.add(weight) {
                Some(x) => x,
                None => {
                    proof {
                        assert(cur == entry_acc[moved.value as int]);
                        assert(promo_exec_from(*promo_changes, key, *ds, entry_acc, w as nat)
                            is None);
                    }
                    return Err(AnalysisError::Overflow);
                },
            };
            proof {
                assert(pre_view[dest as int] == cur.v());
                lemma_radd_cong(cur.v(), prev_m[dest as int], weight.v(), weight.v());
                lemma_rwf_radd(cur.v(), weight.v());
                lemma_rwf_radd(prev_m[dest as int], weight.v());
                lemma_req_trans(
                    bumped.v(),
                    radd(cur.v(), weight.v()),
                    radd(prev_m[dest as int], weight.v()),
                );
            }
            acc.set(dest, bumped);
            proof {
                assert(acc@ == entry_acc.update(moved.value as int, bumped));
                assert(promo_exec_from(*promo_changes, key, *ds, entry_acc, w as nat)
                    == promo_exec_from(*promo_changes, key, *ds, acc@, (w + 1) as nat));
                let next_m = promo_upto(*promo_changes, key, *ds, (w + 1) as nat);
                assert(next_m == sbump(prev_m, dest as int, weight.v()));
                assert(pmf_view(acc@) =~= pre_view.update(dest as int, bumped.v()));
                assert(pmf_equiv(pmf_view(acc@), next_m)) by {
                    assert forall|i: int| 0 <= i < next_m.len() implies rwf(#[trigger] next_m[i])
                        && rwf(pmf_view(acc@)[i]) && req(pmf_view(acc@)[i], next_m[i]) by {
                        if i == dest as int {
                        } else {
                            assert(next_m[i] == prev_m[i]);
                            assert(pmf_view(acc@)[i] == pre_view[i]);
                        }
                    }
                }
            }
        } else {
            proof {
                assert(promo_upto(*promo_changes, key, *ds, (w + 1) as nat) == prev_m);
                assert(promo_exec_from(*promo_changes, key, *ds, acc@, w as nat)
                    == promo_exec_from(*promo_changes, key, *ds, acc@, (w + 1) as nat));
            }
        }
        w = w + 1;
    }
    proof {
        assert(exec_target == Some(acc@));
    }
    Ok(DistributedStat { growth: target.growth, cap: target.cap, base: ds.base, pmf: acc })
}

/// Whether every stat of a promotion step stays within exact
/// arithmetic and meets the transform's obligations.
pub open spec fn promo_exec_ok<SIT, P: PromotionTransform<SIT>>(
    t: P,
    st: Seq<(SIT, DistributedStat)>,
) -> bool {
    forall|k: int|
        0 <= k < st.len() ==> {
            &&& first_support_from((#[trigger] st[k]).1.pmf@, 0) is Some
            &&& promo_consistent(t, st[k].0, st[k].1)
            &&& promo_exec(t, st[k].0, st[k].1) is Some
        }
}

/// Per-key promotion outcome: same key, grouped distribution, agreed
/// growth and cap, base passed through.
pub open spec fn promo_entry_ok<SIT, P: PromotionTransform<SIT>>(
    t: P,
    old_e: (SIT, DistributedStat),
    new_e: (SIT, DistributedStat),
) -> bool {
    let tg = promo_target(t, old_e.0, old_e.1);
    &&& new_e.0 == old_e.0
    &&& promo_consistent(t, old_e.0, old_e.1)
    &&& new_e.1.growth == tg.growth
    &&& new_e.1.cap == tg.cap
    &&& new_e.1.base == old_e.1.base
    &&& new_e.1.wf()
    &&& pmf_equiv(new_e.1.pv(), promo_upto(t, old_e.0, old_e.1, old_e.1.pmf.len() as nat))
}

/// Applies a promotion to every stat independently.
pub fn process_promotion<SIT: StatIndexType, P: PromotionTransform<SIT>>(
    state: &mut Vec<(SIT, DistributedStat)>,
    promo_changes: &P,
) -> (r: Result<(), AnalysisError>)
    requires
        forall|i: int| 0 <= i < old(state).len() ==> (#[trigger] old(state)[i]).1.wf(),
    ensures
        r is Ok <==> promo_exec_ok(*promo_changes, old(state)@),
        r is Ok ==> {
            &&& final(state).len() == old(state).len()
            &&& forall|i: int|
                0 <= i < final(state).len() ==> promo_entry_ok(
                    *promo_changes,
                    old(state)[i],
                    #[trigger] final(state)[i],
                )
            &&& forall|i: int|
                0 <= i < final(state).len() ==> Some((#[trigger] final(state)[i]).1.pmf@)
                    == promo_exec(*promo_changes, old(state)[i].0, old(state)[i].1)
        },
        r is Err ==> final(state)@ == old(state)@,
        r is Err ==> r->Err_0 == AnalysisError::MassViolation || r->Err_0
            == AnalysisError::InconsistentPromotion || r->Err_0 == AnalysisError::Overflow,
{
    let mut updated: Vec<(SIT, DistributedStat)> = Vec::new();
    let mut i: usize = 0;
    while i < state.len()
        invariant
            0 <= i <= state.len(),
            state == old(state),
            forall|j: int| 0 <= j < state.len() ==> (#[trigger] state[j]).1.wf(),
            updated.len() == i,
            forall|j: int|
                0 <= j < i ==> promo_entry_ok(*promo_changes, state[j], #[trigger] updated[j]),
            forall|j: int|
                0 <= j < i ==> {
                    &&& first_support_from((#[trigger] state[j]).1.pmf@, 0) is Some
                    &&& promo_consistent(*promo_changes, state[j].0, state[j].1)
                    &&& Some(updated[j].1.pmf@) == promo_exec(
                        *promo_changes,
                        state[j].0,
                        state[j].1,
                    )
                },
        decreases state.len() - i,
    {
        let key: SIT = state[i].0;
        match internal_process_promotion(key, &state[i].1, promo_changes) {
            Ok(nds) => {
                updated.push((key, nds));
            },
            Err(e) => {
                proof {
                    assert(!promo_exec_ok(*promo_changes, state@)) by {
                        assert(!{
                            &&& first_support_from(state@[i as int].1.pmf@, 0) is Some
                            &&& promo_consistent(
                                *promo_changes,
                                state@[i as int].0,
                                state@[i as int].1,
                            )
                            &&& promo_exec(*promo_changes, state@[i as int].0, state@[i as int].1)
                                is Some
                        });
                    }
                }
                return Err(e);
            },
        }
        i = i + 1;
    }
    *state = updated;
    Ok(())
}

/// The growth rate a stat uses this level: its own, unless overridden.
pub open spec fn eff_of<SIT>(
    ov: Option<GrowthOverride<SIT>>,
    key: SIT,
    growth: GrowthType,
) -> GrowthType {
    match ov {
        None => growth,
        Some(o) => match crate::interface::assoc_lookup(o.overrides@, key) {
            Some(x) => x,
            None => growth,
        },
    }
}

/// The effective growth rates of the whole entity.
pub open spec fn effs_model<SIT>(
    st: Seq<(SIT, DistributedStat)>,
    ov: Option<GrowthOverride<SIT>>,
) -> Seq<GrowthType> {
    Seq::new(st.len(), |i: int| eff_of(ov, st[i].0, st[i].1.growth))
}

/// What one stat's distribution becomes under a level-up with the
/// given policy; the re-roll and fixed-fallback policies consult the
/// whole entity through the all-blank probability.
pub open spec fn levelup_pmf_model<SIT>(
    st: Seq<(SIT, DistributedStat)>,
    ov: Option<GrowthOverride<SIT>>,
    ba: BlankAvoidance<SIT>,
    i: int,
) -> Seq<(int, int)> {
    let eff = effs_model(st, ov)[i] as int;
    let src = st[i].1.pv();
    let azp = azp_of(effs_model(st, ov));
    match ba {
        BlankAvoidance::NoAvoidance => simple_model(src, eff),
        BlankAvoidance::GuaranteedStats(lo, hi, order) => simple_model(src, eff),
        BlankAvoidance::RetriesForNoBlank(retries) => retried_model(src, eff, azp, retries as nat),
        BlankAvoidance::AwardFixedStatOnBlank(backup) => if st[i].0 == backup {
            fixed_model(src, eff, azp)
        } else {
            simple_model(src, eff)
        },
        BlankAvoidance::VariableGuaranteedStats => src,
    }
}

/// The machine run of one stat's level-up under the step's policy.
pub open spec fn levelup_pmf_exec<SIT>(
    st: Seq<(SIT, DistributedStat)>,
    ov: Option<GrowthOverride<SIT>>,
    ba: BlankAvoidance<SIT>,
    k: int,
) -> Option<Seq<Rational>> {
    let effs = effs_model(st, ov);
    let src = st[k].1.pmf@;
    match ba {
        BlankAvoidance::NoAvoidance => simple_exec(src, effs[k]),
        BlankAvoidance::GuaranteedStats(lo, hi, order) => simple_exec(src, effs[k]),
        BlankAvoidance::RetriesForNoBlank(retries) => match azp_exec(effs) {
            None => None,
            Some(azp) => retried_exec(src, effs[k], azp, retries),
        },
        BlankAvoidance::AwardFixedStatOnBlank(backup) => match azp_exec(effs) {
            None => None,
            Some(azp) => if st[k].0 == backup {
                fixed_exec(src, effs[k], azp)
            } else {
                simple_exec(src, effs[k])
            },
        },
        BlankAvoidance::VariableGuaranteedStats => None,
    }
}

/// Whether every stat's level-up stays within exact arithmetic.
pub open spec fn levelup_exec_ok<SIT>(
    st: Seq<(SIT, DistributedStat)>,
    ov: Option<GrowthOverride<SIT>>,
    ba: BlankAvoidance<SIT>,
) -> bool {
    forall|k: int| 0 <= k < st.len() ==> levelup_pmf_exec(st, ov, ba, k) is Some
}

/// Per-key level-up outcome: same key, growth, cap and base; the
/// distribution moves to the policy's model.
pub open spec fn levelup_entry_ok<SIT>(
    st: Seq<(SIT, DistributedStat)>,
    ov: Option<GrowthOverride<SIT>>,
    ba: BlankAvoidance<SIT>,
    i: int,
    new_e: (SIT, DistributedStat),
) -> bool {
    &&& new_e.0 == st[i].0
    &&& new_e.1.growth == st[i].1.growth
    &&& new_e.1.cap == st[i].1.cap
    &&& new_e.1.base == st[i].1.base
    &&& new_e.1.wf()
    &&& pmf_equiv(new_e.1.pv(), levelup_pmf_model(st, ov, ba, i))
}

/// Whether the count range means "zero or more": the one form the
/// closed form supports, degenerating to the plain update.
pub open spec fn degenerate_range(lo: CountBound, hi: CountBound) -> bool {
    (lo == CountBound::Included(0u8) || lo == CountBound::Unbounded) && hi == CountBound::Unbounded
}

/// Which blank-avoidance policies the closed form solves.
pub open spec fn policy_closed_form<SIT>(ba: BlankAvoidance<SIT>) -> bool {
    match ba {
        BlankAvoidance::VariableGuaranteedStats => false,
        BlankAvoidance::GuaranteedStats(lo, hi, order) => degenerate_range(lo, hi),
        _ => true,
    }
}

/// Which steps the closed form solves.
pub open spec fn change_acceptable<SIT, P>(c: StatChange<SIT, P>) -> bool {
    match c {
        StatChange::LevelUp { temporary_growth_override, blank_avoidance } => policy_closed_form(
            blank_avoidance,
        ),
        StatChange::Promotion { .. } => true,
    }
}

/// Decides whether one step can be solved in closed form.
pub fn binomial_stat_change_acceptable<SIT: StatIndexType, P>(
    stat_change: &StatChange<SIT, P>,
) -> (r: bool)
    ensures
        r == change_acceptable(*stat_change),
{
    match stat_change {
        StatChange::LevelUp { blank_avoidance: BlankAvoidance::VariableGuaranteedStats, .. } => {
            false
        },
        StatChange::LevelUp {
            blank_avoidance: BlankAvoidance::GuaranteedStats(lo, hi, _),
            ..
        } => (*lo == CountBound::Included(0) || *lo == CountBound::Unbounded) && *hi
            == CountBound::Unbounded,
        _ => true,
    }
}

/// Applies a level-up to every stat independently.
pub fn process_levelup<SIT: StatIndexType>(
    state: &mut Vec<(SIT, DistributedStat)>,
    temporary_growth_override: &Option<GrowthOverride<SIT>>,
    blank_avoidance: &BlankAvoidance<SIT>,
) -> (r: Result<(), AnalysisError>)
    requires
        forall|i: int| 0 <= i < old(state).len() ==> (#[trigger] old(state)[i]).1.wf(),
        policy_closed_form(*blank_avoidance),
    ensures
        r is Ok <==> levelup_exec_ok(old(state)@, *temporary_growth_override, *blank_avoidance),
        r is Ok ==> {
            &&& final(state).len() == old(state).len()
            &&& forall|i: int|
                0 <= i < final(state).len() ==> levelup_entry_ok(
                    old(state)@,
                    *temporary_growth_override,
                    *blank_avoidance,
                    i,
                    #[trigger] final(state)[i],
                )
            &&& forall|i: int|
                0 <= i < final(state).len() ==> Some((#[trigger] final(state)[i]).1.pmf@)
                    == levelup_pmf_exec(
                    old(state)@,
                    *temporary_growth_override,
                    *blank_avoidance,
                    i,
                )
        },
        r is Err ==> r->Err_0 == AnalysisError::Overflow && final(state)@ == old(state)@,
{
    let ghost st0 = state@;
    let ghost ovg = *temporary_growth_override;
    let mut effs: Vec<GrowthType> = Vec::new();
    let mut i: usize = 0;
    while i < state.len()
        invariant
            0 <= i <= state.len(),
            state == old(state),
            st0 == state@,
            ovg == *temporary_growth_override,
            effs.len() == i,
            forall|j: int| 0 <= j < i ==> #[trigger] effs[j] == effs_model(st0, ovg)[j],
        decreases state.len() - i,
    {
        let own: GrowthType = state[i].1.growth;
        let eff: GrowthType = match temporary_growth_override {
            None => own,
            Some(o) => match o.get(&state[i].0) {
                Some(x) => x,
                None => own,
            },
        };
        effs.push(eff);
        i = i + 1;
    }
    proof {
        assert(effs@ =~= effs_model(st0, ovg));
    }
    let mut updated: Vec<(SIT, DistributedStat)> = Vec::new();
    match blank_avoidance {
        BlankAvoidance::VariableGuaranteedStats => {
            // The feasibility gate rejects this policy, so the arm is
            // unreachable.
            proof {
                assert(false);
            }
            return Err(AnalysisError::Overflow);
        },
        BlankAvoidance::RetriesForNoBlank(retries) => {
            let azp: Rational = match all_zero_prob(&effs) {
                Ok(x) => x,
                Err(e) => {
                    proof {
                        lemma_azp_failure_witness(st0, ovg, *blank_avoidance);
                    }
                    return Err(e);
                },
            };
            let mut k: usize = 0;
            while k < state.len()
                invariant
                    0 <= k <= state.len(),
                    state == old(state),
                    st0 == state@,
                    ovg == *temporary_growth_override,
                    effs@ == effs_model(st0, ovg),
                    effs.len() == state.len(),
                    forall|j: int| 0 <= j < state.len() ==> (#[trigger] state[j]).1.wf(),
                    azp.wf(),
                    azp.num <= azp.den,
                    req(azp.v(), azp_of(effs@)),
                    Some(azp) == azp_exec(effs@),
                    *blank_avoidance == BlankAvoidance::<SIT>::RetriesForNoBlank(*retries),
                    updated.len() == k,
                    forall|j: int|
                        0 <= j < k ==> levelup_entry_ok(
                            st0,
                            ovg,
                            BlankAvoidance::RetriesForNoBlank(*retries),
                            j,
                            #[trigger] updated[j],
                        ),
                    forall|j: int|
                        0 <= j < k ==> Some((#[trigger] updated[j]).1.pmf@) == levelup_pmf_exec(
                            st0,
                            ovg,
                            BlankAvoidance::RetriesForNoBlank(*retries),
                            j,
                        ),
                decreases state.len() - k,
            {
                proof {
                    lemma_factors_prob(effs@);
                    lemma_rprod_prob(factors_of(effs@), effs@.len() as nat);
                    lemma_rprod_le_factor(factors_of(effs@), effs@.len() as nat, k as int);
                    assert(factors_of(effs@)[k as int] == factor_spec(effs@[k as int] as int));
                }
                let key: SIT = state[k].0;
                match handle_retried_levelup(
                    &state[k].1,
                    effs[k],
                    azp,
                    *retries,
                    Ghost(azp_of(effs@)),
                ) {
                    Err(e) => {
                        proof {
                            assert(levelup_pmf_exec(
                                st0,
                                ovg,
                                BlankAvoidance::RetriesForNoBlank(*retries),
                                k as int,
                            ) is None);
                            assert(!levelup_exec_ok(st0, ovg, *blank_avoidance));
                        }
                        return Err(e);
                    },
                    Ok(pmf) => {
                        let old_ds = &state[k].1;
                        updated.push(
                            (
                                key,
                                DistributedStat {
                                    growth: old_ds.growth,
                                    cap: old_ds.cap,
                                    base: old_ds.base,
                                    pmf,
                                },
                            ),
                        );
                    },
                }
                k = k + 1;
            }
            proof {
                assert(levelup_exec_ok(st0, ovg, *blank_avoidance)) by {
                    assert forall|j: int| 0 <= j < st0.len() implies levelup_pmf_exec(
                        st0,
                        ovg,
                        *blank_avoidance,
                        j,
                    ) is Some by {
                        assert(Some(updated@[j].1.pmf@) == levelup_pmf_exec(
                            st0,
                            ovg,
                            BlankAvoidance::RetriesForNoBlank(*retries),
                            j,
                        ));
                    }
                }
            }
            *state = updated;
            Ok(())
        },
        BlankAvoidance::AwardFixedStatOnBlank(backup_stat) => {
            let azp: Rational = match all_zero_prob(&effs) {
                Ok(x) => x,
                Err(e) => {
                    proof {
                        lemma_azp_failure_witness(st0, ovg, *blank_avoidance);
                    }
                    return Err(e);
                },
            };
            let mut k: usize = 0;
            while k < state.len()
                invariant
                    0 <= k <= state.len(),
                    state == old(state),
                    st0 == state@,
                    ovg == *temporary_growth_override,
                    effs@ == effs_model(st0, ovg),
                    effs.len() == state.len(),
                    forall|j: int| 0 <= j < state.len() ==> (#[trigger] state[j]).1.wf(),
                    azp.wf(),
                    azp.num <= azp.den,
                    req(azp.v(), azp_of(effs@)),
                    Some(azp) == azp_exec(effs@),
                    *blank_avoidance == BlankAvoidance::<SIT>::AwardFixedStatOnBlank(*backup_stat),
                    updated.len() == k,
                    forall|j: int|
                        0 <= j < k ==> levelup_entry_ok(
                            st0,
                            ovg,
                            BlankAvoidance::AwardFixedStatOnBlank(*backup_stat),
                            j,
                            #[trigger] updated[j],
                        ),
                    forall|j: int|
                        0 <= j < k ==> Some((#[trigger] updated[j]).1.pmf@) == levelup_pmf_exec(
                            st0,
                            ovg,
                            BlankAvoidance::AwardFixedStatOnBlank(*backup_stat),
                            j,
                        ),
                decreases state.len() - k,
            {
                proof {
                    lemma_factors_prob(effs@);
                    lemma_rprod_prob(factors_of(effs@), effs@.len() as nat);
                    lemma_rprod_le_factor(factors_of(effs@), effs@.len() as nat, k as int);
                    assert(factors_of(effs@)[k as int] == factor_spec(effs@[k as int] as int));
                }
                let key: SIT = state[k].0;
                let outcome: Result<Vec<Rational>, AnalysisError> = if key.key_eq(backup_stat) {
                    handle_fixed_stat_levelup(&state[k].1, effs[k], azp, Ghost(azp_of(effs@)))
                } else {
                    handle_simple_levelup(&state[k].1, effs[k])
                };
                match outcome {
                    Ok(pmf) => {
                        let old_ds = &state[k].1;
                        updated.push(
                            (
                                key,
                                DistributedStat {
                                    growth: old_ds.growth,
                                    cap: old_ds.cap,
                                    base: old_ds.base,
                                    pmf,
                                },
                            ),
                        );
                    },
                    Err(e) => {
                        proof {
                            assert(levelup_pmf_exec(
                                st0,
                                ovg,
                                BlankAvoidance::AwardFixedStatOnBlank(*backup_stat),
                                k as int,
                            ) is None);
                            assert(!levelup_exec_ok(st0, ovg, *blank_avoidance));
                        }
                        return Err(e);
                    },
                }
                k = k + 1;
            }
            proof {
                assert(levelup_exec_ok(st0, ovg, *blank_avoidance)) by {
                    assert forall|j: int| 0 <= j < st0.len() implies levelup_pmf_exec(
                        st0,
                        ovg,
                        *blank_avoidance,
                        j,
                    ) is Some by {
                        assert(Some(updated@[j].1.pmf@) == levelup_pmf_exec(
                            st0,
                            ovg,
                            BlankAvoidance::AwardFixedStatOnBlank(*backup_stat),
                            j,
                        ));
                    }
                }
            }
            *state = updated;
            Ok(())
        },
        _ => {
            let ghost bag = *blank_avoidance;
            let mut k: usize = 0;
            while k < state.len()
                invariant
                    0 <= k <= state.len(),
                    state == old(state),
                    st0 == state@,
                    ovg == *temporary_growth_override,
                    effs@ == effs_model(st0, ovg),
                    effs.len() == state.len(),
                    forall|j: int| 0 <= j < state.len() ==> (#[trigger] state[j]).1.wf(),
                    bag == *blank_avoidance,
                    bag matches BlankAvoidance::NoAvoidance || bag matches
                        BlankAvoidance::GuaranteedStats(..),
                    updated.len() == k,
                    forall|j: int|
                        0 <= j < k ==> levelup_entry_ok(st0, ovg, bag, j, #[trigger] updated[j]),
                    forall|j: int|
                        0 <= j < k ==> Some((#[trigger] updated[j]).1.pmf@) == levelup_pmf_exec(
                            st0,
                            ovg,
                            bag,
                            j,
                        ),
                decreases state.len() - k,
            {
                let key: SIT = state[k].0;
                match handle_simple_levelup(&state[k].1, effs[k]) {
                    Ok(pmf) => {
                        let old_ds = &state[k].1;
                        updated.push(
                            (
                                key,
                                DistributedStat {
                                    growth: old_ds.growth,
                                    cap: old_ds.cap,
                                    base: old_ds.base,
                                    pmf,
                                },
                            ),
                        );
                    },
                    Err(e) => {
                        proof {
                            assert(levelup_pmf_exec(st0, ovg, bag, k as int) is None);
                            assert(!levelup_exec_ok(st0, ovg, *blank_avoidance));
                        }
                        return Err(e);
                    },
                }
                k = k + 1;
            }
            proof {
                assert(levelup_exec_ok(st0, ovg, *blank_avoidance)) by {
                    assert forall|j: int| 0 <= j < st0.len() implies levelup_pmf_exec(
                        st0,
                        ovg,
                        *blank_avoidance,
                        j,
                    ) is Some by {
                        assert(Some(updated@[j].1.pmf@) == levelup_pmf_exec(st0, ovg, bag, j));
                    }
                }
            }
            *state = updated;
            Ok(())
        },
    }
}

/// A failing all-blank product fails every stat of the policies that
/// consult it.
proof fn lemma_azp_failure_witness<SIT>(
    st: Seq<(SIT, DistributedStat)>,
    ov: Option<GrowthOverride<SIT>>,
    ba: BlankAvoidance<SIT>,
)
    requires
        azp_exec(effs_model(st, ov)) is None,
        ba matches BlankAvoidance::RetriesForNoBlank(_) || ba matches
            BlankAvoidance::AwardFixedStatOnBlank(_),
    ensures
        !levelup_exec_ok(st, ov, ba),
{
    let effs = effs_model(st, ov);
    if st.len() == 0 {
        assert(effs.len() == 0);
        assert(azp_exec_from(effs, rat_one(), 0) == Some(rat_one()));
        assert(false);
    }
    assert(levelup_pmf_exec(st, ov, ba, 0) is None);
}

/// Whether one whole step stays within exact arithmetic (and, for a
/// promotion, meets the transform's obligations).
pub open spec fn statchange_exec_ok<SIT, P: PromotionTransform<SIT>>(
    st: Seq<(SIT, DistributedStat)>,
    c: StatChange<SIT, P>,
) -> bool {
    match c {
        StatChange::LevelUp { temporary_growth_override, blank_avoidance } => levelup_exec_ok(
            st,
            temporary_growth_override,
            blank_avoidance,
        ),
        StatChange::Promotion { promo_changes } => promo_exec_ok(promo_changes, st),
    }
}

/// The growth, cap and base one stat carries after one step.
pub open spec fn next_fields<SIT, P: PromotionTransform<SIT>>(
    st: Seq<(SIT, DistributedStat)>,
    c: StatChange<SIT, P>,
    k: int,
) -> (GrowthType, StatType, StatType) {
    match c {
        StatChange::LevelUp { temporary_growth_override, blank_avoidance } => (
            st[k].1.growth,
            st[k].1.cap,
            st[k].1.base,
        ),
        StatChange::Promotion { promo_changes } => (
            promo_target(promo_changes, st[k].0, st[k].1).growth,
            promo_target(promo_changes, st[k].0, st[k].1).cap,
            st[k].1.base,
        ),
    }
}

/// The machine run of one stat under one step.
pub open spec fn statchange_pmf_exec<SIT, P: PromotionTransform<SIT>>(
    st: Seq<(SIT, DistributedStat)>,
    c: StatChange<SIT, P>,
    k: int,
) -> Option<Seq<Rational>> {
    match c {
        StatChange::LevelUp { temporary_growth_override, blank_avoidance } => levelup_pmf_exec(
            st,
            temporary_growth_override,
            blank_avoidance,
            k,
        ),
        StatChange::Promotion { promo_changes } => promo_exec(promo_changes, st[k].0, st[k].1),
    }
}

/// Applies one step to the whole entity.
pub fn process_statchange<SIT: StatIndexType, P: PromotionTransform<SIT>>(
    state: &mut Vec<(SIT, DistributedStat)>,
    current_level: &StatChange<SIT, P>,
) -> (r: Result<(), AnalysisError>)
    requires
        forall|i: int| 0 <= i < old(state).len() ==> (#[trigger] old(state)[i]).1.wf(),
        change_acceptable(*current_level),
    ensures
        r is Ok <==> statchange_exec_ok(old(state)@, *current_level),
        r is Ok ==> forall|k: int|
            0 <= k < final(state).len() ==> Some((#[trigger] final(state)[k]).1.pmf@)
                == statchange_pmf_exec(old(state)@, *current_level, k),
        r is Ok ==> forall|k: int|
            0 <= k < final(state).len() ==> ((#[trigger] final(state)[k]).1.growth,
                final(state)[k].1.cap, final(state)[k].1.base)
                == next_fields(old(state)@, *current_level, k),
        r is Ok ==> final(state).len() == old(state).len(),
        r is Ok ==> forall|i: int|
            0 <= i < final(state).len() ==> (#[trigger] final(state)[i]).1.wf()
                && final(state)[i].0 == old(state)[i].0,
        r is Ok ==> (*current_level matches StatChange::LevelUp {
            temporary_growth_override,
            blank_avoidance,
        } ==> forall|i: int|
            0 <= i < final(state).len() ==> levelup_entry_ok(
                old(state)@,
                temporary_growth_override,
                blank_avoidance,
                i,
                #[trigger] final(state)[i],
            )),
        r is Ok ==> (*current_level matches StatChange::Promotion { promo_changes } ==> forall|
            i: int,
        |
            0 <= i < final(state).len() ==> promo_entry_ok(
                promo_changes,
                old(state)[i],
                #[trigger] final(state)[i],
            )),
        r is Err ==> final(state)@ == old(state)@,
        r is Err ==> r->Err_0 != AnalysisError::Unsupported,
{
    match current_level {
        StatChange::LevelUp { temporary_growth_override, blank_avoidance } => {
            process_levelup(state, temporary_growth_override, blank_avoidance)
        },
        StatChange::Promotion { promo_changes } => process_promotion(state, promo_changes),
    }
}

/// The sparse form of a dense distribution: its supported values in
/// ascending order with their probabilities.
pub open spec fn sparse_upto(pmf: Seq<Rational>, n: nat) -> Seq<(StatType, Rational)>
    decreases n,
{
    if n == 0 {
        Seq::empty()
    } else {
        let prev = sparse_upto(pmf, (n - 1) as nat);
        if pmf[n - 1].num == 0 {
            prev
        } else {
            prev.push((((n - 1) as usize) as StatType, pmf[n - 1]))
        }
    }
}

/// Every sparse entry names a supported value below `n`, in strictly
/// ascending order, with a well-formed nonzero probability.
pub proof fn lemma_sparse_props(pmf: Seq<Rational>, n: nat)
    requires
        n <= pmf.len(),
        pmf.len() <= u16::MAX as int + 1,
        forall|i: int| 0 <= i < pmf.len() ==> (#[trigger] pmf[i]).wf(),
    ensures
        forall|j: int|
            0 <= j < sparse_upto(pmf, n).len() ==> {
                &&& (#[trigger] sparse_upto(pmf, n)[j]).0 < n
                &&& sparse_upto(pmf, n)[j].1.wf()
                &&& sparse_upto(pmf, n)[j].1.num >= 1
                &&& sparse_upto(pmf, n)[j].1 == pmf[sparse_upto(pmf, n)[j].0 as int]
            },
        forall|j1: int, j2: int|
            0 <= j1 < j2 < sparse_upto(pmf, n).len() ==> (#[trigger] sparse_upto(pmf, n)[j1]).0 < (
            #[trigger] sparse_upto(pmf, n)[j2]).0,
    decreases n,
{
    if n > 0 {
        lemma_sparse_props(pmf, (n - 1) as nat);
        let prev = sparse_upto(pmf, (n - 1) as nat);
        let cur = sparse_upto(pmf, n);
        if pmf[n - 1].num == 0 {
            assert(cur == prev);
        } else {
            let entry = (((n - 1) as usize) as StatType, pmf[n - 1]);
            assert(cur == prev.push(entry));
            assert(entry.0 == n - 1);
            assert forall|j: int|
                0 <= j < cur.len() implies {
                &&& (#[trigger] cur[j]).0 < n
                &&& cur[j].1.wf()
                &&& cur[j].1.num >= 1
                &&& cur[j].1 == pmf[cur[j].0 as int]
            } by {
                if j < prev.len() {
                    assert(cur[j] == prev[j]);
                } else {
                    assert(cur[j] == entry);
                }
            }
            assert forall|j1: int, j2: int|
                0 <= j1 < j2 < cur.len() implies (#[trigger] cur[j1]).0 < (
            #[trigger] cur[j2]).0 by {
                if j2 < prev.len() {
                    assert(cur[j1] == prev[j1] && cur[j2] == prev[j2]);
                } else {
                    assert(cur[j2] == entry);
                    assert(cur[j1] == prev[j1]);
                    assert(prev[j1].0 < n - 1);
                }
            }
        }
    }
}

/// The sparse form of a point mass is the single pair `(value, 1)`.
pub proof fn lemma_sparse_point_mass(pmf: Seq<Rational>, value: int, n: nat)
    requires
        0 <= value < pmf.len(),
        pmf.len() <= u16::MAX as int + 1,
        n <= pmf.len(),
        forall|i: int|
            0 <= i < pmf.len() ==> (#[trigger] pmf[i]) == (if i == value {
                (Rational { num: 1, den: 1 })
            } else {
                (Rational { num: 0, den: 1 })
            }),
    ensures
        n <= value ==> sparse_upto(pmf, n) == Seq::<(StatType, Rational)>::empty(),
        n > value ==> sparse_upto(pmf, n) == Seq::<(StatType, Rational)>::empty().push(
            ((value as usize) as StatType, Rational { num: 1, den: 1 }),
        ),
    decreases n,
{
    if n > 0 {
        lemma_sparse_point_mass(pmf, value, (n - 1) as nat);
    }
}

/// Projects one stat's dense distribution to its sparse histogram.
pub fn project_histogram(ds: &DistributedStat) -> (h: Histogram)
    requires
        ds.wf(),
    ensures
        h@ == sparse_upto(ds.pmf@, ds.pmf.len() as nat),
{
    let mut h: Histogram = Vec::new();
    let mut i: usize = 0;
    while i < ds.pmf.len()
        invariant
            0 <= i <= ds.pmf.len(),
            ds.wf(),
            h@ == sparse_upto(ds.pmf@, i as nat),
        decreases ds.pmf.len() - i,
    {
        let q: Rational = ds.pmf[i];
        if q.num != 0 {
            h.push((i as StatType, q));
        }
        i = i + 1;
    }
    h
}

/// The sum of the first `n` histogram probabilities.
pub open spec fn hsum_upto(s: Seq<(StatType, Rational)>, n: nat) -> (int, int)
    decreases n,
{
    if n == 0 {
        rzero()
    } else {
        radd(hsum_upto(s, (n - 1) as nat), s[n - 1].1.v())
    }
}

/// A histogram's probabilities sum to exactly one.
pub open spec fn hist_sums_to_one(s: Seq<(StatType, Rational)>) -> bool {
    req(hsum_upto(s, s.len()), rone())
}

pub proof fn lemma_hsum_wf(s: Seq<(StatType, Rational)>, n: nat)
    requires
        n <= s.len(),
        forall|i: int| 0 <= i < s.len() ==> (#[trigger] s[i]).1.wf(),
    ensures
        rwf(hsum_upto(s, n)),
    decreases n,
{
    if n > 0 {
        lemma_hsum_wf(s, (n - 1) as nat);
        lemma_rwf_radd(hsum_upto(s, (n - 1) as nat), s[n - 1].1.v());
    }
}

/// The machine run of summing histogram probabilities from entry `i`
/// on: `None` exactly when the exact sum overflows.
pub open spec fn hsum_exec_from(h: Seq<(StatType, Rational)>, acc: Rational, i: nat) -> Option<
    Rational,
>
    decreases h.len() - i,
{
    if i >= h.len() {
        Some(acc)
    } else {
        match crate::rational::spec_add(acc, h[i as int].1) {
            None => None,
            Some(a2) => hsum_exec_from(h, a2, i + 1),
        }
    }
}

/// The machine verdict of the mass check of one histogram.
pub open spec fn hist_check(h: Seq<(StatType, Rational)>) -> Option<bool> {
    match hsum_exec_from(h, rat_zero(), 0) {
        None => None,
        Some(total) => Some(total.num == total.den),
    }
}

/// The mass check of one histogram: whether it sums to one exactly;
/// `None` when the exact sum itself overflows.
pub fn validate_histogram(h: &Histogram) -> (r: Option<bool>)
    requires
        forall|i: int| 0 <= i < h.len() ==> (#[trigger] h[i]).1.wf(),
    ensures
        r == hist_check(h@),
        r is Some ==> r->Some_0 == hist_sums_to_one(h@),
{
    let ghost exec_target = hsum_exec_from(h@, rat_zero(), 0);
    let mut acc: Rational = Rational::zero();
    let mut i: usize = 0;
    while i < h.len()
        invariant
            0 <= i <= h.len(),
            forall|j: int| 0 <= j < h.len() ==> (#[trigger] h[j]).1.wf(),
            acc.wf(),
            req(acc.v(), hsum_upto(h@, i as nat)),
            exec_target == hsum_exec_from(h@, rat_zero(), 0),
            exec_target == hsum_exec_from(h@, acc, i as nat),
        decreases h.len() - i,
    {
        let prev: Rational = acc;
        acc = match prev.add(h[i].1) {
            Some(x) => x,
            None => {
                proof {
                    assert(exec_target is None);
                }
                return None;
            },
        };
        proof {
            lemma_hsum_wf(h@, i as nat);
            lemma_hsum_wf(h@, (i + 1) as nat);
            lemma_radd_cong(prev.v(), hsum_upto(h@, i as nat), h[i as int].1.v(), h[i as int].1.v());
            lemma_rwf_radd(prev.v(), h[i as int].1.v());
            lemma_req_trans(
                acc.v(),
                radd(prev.v(), h[i as int].1.v()),
                radd(hsum_upto(h@, i as nat), h[i as int].1.v()),
            );
        }
        i = i + 1;
    }
    let verdict: bool = acc.is_one();
    proof {
        assert(exec_target == Some(acc));
        assert(verdict == (acc.num == acc.den)) by {
            assert((acc.num as int) * 1 == acc.num as int);
            assert(1 * (acc.den as int) == acc.den as int);
        }
        lemma_hsum_wf(h@, h@.len());
        if verdict {
            lemma_req_trans(hsum_upto(h@, h@.len()), acc.v(), rone());
        } else {
            if req(hsum_upto(h@, h@.len()), rone()) {
                lemma_req_trans(acc.v(), hsum_upto(h@, h@.len()), rone());
            }
        }
    }
    Some(verdict)
}

/// Every histogram of a snapshot has well-formed entries.
pub open spec fn snapshot_entries_wf<SIT>(snap: Snapshot<SIT>) -> bool {
    forall|j: int, l: int|
        0 <= j < snap.len() && 0 <= l < (#[trigger] snap[j]).1.len() ==> (#[trigger] snap[j].1[l]).1.wf()
}

/// The machine verdict of the mass check of a whole snapshot's
/// histograms, from position `j` on; a histogram that fails the check
/// stops the scan.
pub open spec fn dist_check_from(hists: Seq<Seq<(StatType, Rational)>>, j: int) -> Option<bool>
    decreases hists.len() - j,
{
    if j < 0 || j >= hists.len() {
        Some(true)
    } else {
        match hist_check(hists[j]) {
            None => None,
            Some(true) => dist_check_from(hists, j + 1),
            Some(false) => Some(false),
        }
    }
}

/// The histograms of a snapshot, as sequences.
pub open spec fn hists_of<SIT>(snap: Snapshot<SIT>) -> Seq<Seq<(StatType, Rational)>> {
    Seq::new(snap.len() as nat, |j: int| snap[j].1@)
}

/// The mass check of a whole snapshot.
pub fn validate_dist<SIT: StatIndexType>(stats: &Snapshot<SIT>) -> (r: Option<bool>)
    requires
        snapshot_entries_wf(*stats),
    ensures
        r == dist_check_from(hists_of(*stats), 0),
        r is Some ==> r->Some_0 == forall|j: int|
            0 <= j < stats.len() ==> hist_sums_to_one((#[trigger] stats[j]).1@),
{
    let ghost exec_target = dist_check_from(hists_of(*stats), 0);
    let mut j: usize = 0;
    while j < stats.len()
        invariant
            0 <= j <= stats.len(),
            snapshot_entries_wf(*stats),
            forall|l: int| 0 <= l < j ==> hist_sums_to_one((#[trigger] stats[l]).1@),
            exec_target == dist_check_from(hists_of(*stats), 0),
            exec_target == dist_check_from(hists_of(*stats), j as int),
        decreases stats.len() - j,
    {
        proof {
            assert(hists_of(*stats)[j as int] == stats[j as int].1@);
        }
        match validate_histogram(&stats[j].1) {
            Some(true) => (),
            Some(false) => {
                proof {
                    assert(exec_target == Some(false));
                }
                return Some(false);
            },
            None => {
                proof {
                    assert(exec_target is None);
                }
                return None;
            },
        }
        j = j + 1;
    }
    proof {
        assert(exec_target == Some(true));
    }
    Some(true)
}

/// The point-mass distribution of one starting stat.
fn point_mass(stat: Stat) -> (ds: DistributedStat)
    requires
        stat.value <= stat.cap,
    ensures
        ds.wf(),
        ds.growth == stat.growth,
        ds.cap == stat.cap,
        ds.base == stat.base,
        forall|i: int|
            0 <= i < ds.pmf.len() ==> (#[trigger] ds.pmf[i]) == (if i == stat.value as int {
                (Rational { num: 1, den: 1 })
            } else {
                (Rational { num: 0, den: 1 })
            }),
{
    let len: usize = stat.cap as usize + 1;
    let mut pmf: Vec<Rational> = Vec::new();
    let mut i: usize = 0;
    while i < len
        invariant
            0 <= i <= len,
            pmf.len() == i,
            forall|j: int|
                0 <= j < i ==> (#[trigger] pmf[j]) == (if j == stat.value as int {
                    (Rational { num: 1, den: 1 })
                } else {
                    (Rational { num: 0, den: 1 })
                }),
        decreases len - i,
    {
        if i == stat.value as usize {
            pmf.push(Rational::one());
        } else {
            pmf.push(Rational::zero());
        }
        i = i + 1;
    }
    DistributedStat { growth: stat.growth, cap: stat.cap, base: stat.base, pmf }
}

/// The snapshot every run starts from: each stat's own value with
/// probability one.
pub open spec fn is_point_mass_snapshot<SIT>(snap: Snapshot<SIT>, stats: Seq<(SIT, Stat)>) -> bool {
    &&& snap.len() == stats.len()
    &&& forall|j: int|
        0 <= j < stats.len() ==> {
            &&& (#[trigger] snap[j]).0 == stats[j].0
            &&& snap[j].1@ == Seq::<(StatType, Rational)>::empty().push(
                (stats[j].1.value, Rational { num: 1, den: 1 }),
            )
        }
}

/// Keys of a snapshot agree with the entity's, in order.
pub open spec fn snapshot_keys_match<SIT>(snap: Snapshot<SIT>, stats: Seq<(SIT, Stat)>) -> bool {
    &&& snap.len() == stats.len()
    &&& forall|j: int| 0 <= j < stats.len() ==> (#[trigger] snap[j]).0 == stats[j].0
}

/// Projects the engine state to one snapshot.
fn project_snapshot<SIT: StatIndexType>(state: &Vec<(SIT, DistributedStat)>) -> (snap: Snapshot<
    SIT,
>)
    requires
        forall|i: int| 0 <= i < state.len() ==> (#[trigger] state[i]).1.wf(),
    ensures
        snap.len() == state.len(),
        forall|j: int|
            0 <= j < state.len() ==> {
                &&& (#[trigger] snap[j]).0 == state[j].0
                &&& snap[j].1@ == sparse_upto(state[j].1.pmf@, state[j].1.pmf.len() as nat)
            },
{
    let mut snap: Snapshot<SIT> = Vec::new();
    let mut i: usize = 0;
    while i < state.len()
        invariant
            0 <= i <= state.len(),
            forall|j: int| 0 <= j < state.len() ==> (#[trigger] state[j]).1.wf(),
            snap.len() == i,
            forall|j: int|
                0 <= j < i ==> {
                    &&& (#[trigger] snap[j]).0 == state[j].0
                    &&& snap[j].1@ == sparse_upto(state[j].1.pmf@, state[j].1.pmf.len() as nat)
                },
        decreases state.len() - i,
    {
        let h: Histogram = project_histogram(&state[i].1);
        snap.push((state[i].0, h));
        i = i + 1;
    }
    snap
}

/// One stat's data as the run model carries it, free of the
/// executable container.
pub struct DistModel {
    pub growth: GrowthType,
    pub cap: StatType,
    pub base: StatType,
    pub pmf: Seq<Rational>,
}

pub open spec fn model_of(ds: DistributedStat) -> DistModel {
    DistModel { growth: ds.growth, cap: ds.cap, base: ds.base, pmf: ds.pmf@ }
}

pub open spec fn state_model<SIT>(st: Seq<(SIT, DistributedStat)>) -> Seq<(SIT, DistModel)> {
    Seq::new(st.len(), |i: int| (st[i].0, model_of(st[i].1)))
}

pub open spec fn stat_at_m(dm: DistModel, v: int) -> Stat {
    Stat { base: dm.base, cap: dm.cap, growth: dm.growth, value: v as StatType }
}

pub open spec fn promo_target_m<SIT, P: PromotionTransform<SIT>>(
    t: P,
    key: SIT,
    dm: DistModel,
) -> Stat {
    t.apply_spec(key, stat_at_m(dm, first_support_from(dm.pmf, 0)->Some_0))
}

pub open spec fn promo_consistent_m<SIT, P: PromotionTransform<SIT>>(
    t: P,
    key: SIT,
    dm: DistModel,
) -> bool {
    forall|v: int|
        0 <= v < dm.pmf.len() && (#[trigger] dm.pmf[v]).num >= 1 ==> {
            &&& t.apply_spec(key, stat_at_m(dm, v)).growth == promo_target_m(t, key, dm).growth
            &&& t.apply_spec(key, stat_at_m(dm, v)).cap == promo_target_m(t, key, dm).cap
        }
}

pub open spec fn promo_exec_from_m<SIT, P: PromotionTransform<SIT>>(
    t: P,
    key: SIT,
    dm: DistModel,
    acc: Seq<Rational>,
    v: nat,
) -> Option<Seq<Rational>>
    decreases dm.pmf.len() - v,
{
    if v >= dm.pmf.len() {
        Some(acc)
    } else if dm.pmf[v as int].num == 0 {
        promo_exec_from_m(t, key, dm, acc, v + 1)
    } else {
        let dest = t.apply_spec(key, stat_at_m(dm, v as int)).value as int;
        match crate::rational::spec_add(acc[dest], dm.pmf[v as int]) {
            None => None,
            Some(b) => promo_exec_from_m(t, key, dm, acc.update(dest, b), v + 1),
        }
    }
}

pub open spec fn promo_exec_m<SIT, P: PromotionTransform<SIT>>(
    t: P,
    key: SIT,
    dm: DistModel,
) -> Option<Seq<Rational>> {
    promo_exec_from_m(t, key, dm, zero_seq(promo_target_m(t, key, dm).cap as int + 1), 0)
}

pub open spec fn effs_model_m<SIT>(
    st: Seq<(SIT, DistModel)>,
    ov: Option<GrowthOverride<SIT>>,
) -> Seq<GrowthType> {
    Seq::new(st.len(), |i: int| eff_of(ov, st[i].0, st[i].1.growth))
}

/// The machine run of one stat's level-up, over the model state.
pub open spec fn levelup_pmf_exec_m<SIT>(
    st: Seq<(SIT, DistModel)>,
    ov: Option<GrowthOverride<SIT>>,
    ba: BlankAvoidance<SIT>,
    k: int,
) -> Option<Seq<Rational>> {
    let effs = effs_model_m(st, ov);
    let src = st[k].1.pmf;
    match ba {
        BlankAvoidance::NoAvoidance => simple_exec(src, effs[k]),
        BlankAvoidance::GuaranteedStats(lo, hi, order) => simple_exec(src, effs[k]),
        BlankAvoidance::RetriesForNoBlank(retries) => match azp_exec(effs) {
            None => None,
            Some(azp) => retried_exec(src, effs[k], azp, retries),
        },
        BlankAvoidance::AwardFixedStatOnBlank(backup) => match azp_exec(effs) {
            None => None,
            Some(azp) => if st[k].0 == backup {
                fixed_exec(src, effs[k], azp)
            } else {
                simple_exec(src, effs[k])
            },
        },
        BlankAvoidance::VariableGuaranteedStats => None,
    }
}

/// One step of the run model: the next model state, or `None` when
/// the step fails (exact arithmetic, or an inconsistent promotion).
pub open spec fn step_model<SIT, P: PromotionTransform<SIT>>(
    st: Seq<(SIT, DistModel)>,
    c: StatChange<SIT, P>,
) -> Option<Seq<(SIT, DistModel)>> {
    match c {
        StatChange::LevelUp { temporary_growth_override, blank_avoidance } => {
            if forall|k: int|
                0 <= k < st.len() ==> levelup_pmf_exec_m(
                    st,
                    temporary_growth_override,
                    blank_avoidance,
                    k,
                ) is Some {
                Some(
                    Seq::new(
                        st.len(),
                        |k: int|
                            (
                                st[k].0,
                                DistModel {
                                    growth: st[k].1.growth,
                                    cap: st[k].1.cap,
                                    base: st[k].1.base,
                                    pmf: levelup_pmf_exec_m(
                                        st,
                                        temporary_growth_override,
                                        blank_avoidance,
                                        k,
                                    )->Some_0,
                                },
                            ),
                    ),
                )
            } else {
                None
            }
        },
        StatChange::Promotion { promo_changes } => {
            if forall|k: int|
                0 <= k < st.len() ==> {
                    &&& first_support_from((#[trigger] st[k]).1.pmf, 0) is Some
                    &&& promo_consistent_m(promo_changes, st[k].0, st[k].1)
                    &&& promo_exec_m(promo_changes, st[k].0, st[k].1) is Some
                } {
                Some(
                    Seq::new(
                        st.len(),
                        |k: int|
                            (
                                st[k].0,
                                DistModel {
                                    growth: promo_target_m(promo_changes, st[k].0, st[k].1).growth,
                                    cap: promo_target_m(promo_changes, st[k].0, st[k].1).cap,
                                    base: st[k].1.base,
                                    pmf: promo_exec_m(promo_changes, st[k].0, st[k].1)->Some_0,
                                },
                            ),
                    ),
                )
            } else {
                None
            }
        },
    }
}

/// The histograms a model state projects to.
pub open spec fn model_hists<SIT>(st: Seq<(SIT, DistModel)>) -> Seq<Seq<(StatType, Rational)>> {
    Seq::new(st.len(), |j: int| sparse_upto(st[j].1.pmf, st[j].1.pmf.len()))
}

/// Whether the run of steps `s..` succeeds from this model state:
/// every step stays within exact arithmetic, every promotion is
/// consistent, and every produced snapshot passes the mass check.
pub open spec fn run_ok_from<SIT, P: PromotionTransform<SIT>>(
    st: Seq<(SIT, DistModel)>,
    levels: Seq<StatChange<SIT, P>>,
    s: int,
) -> bool
    decreases levels.len() - s,
{
    if s < 0 || s >= levels.len() {
        true
    } else {
        match step_model(st, levels[s]) {
            None => false,
            Some(st2) => dist_check_from(model_hists(st2), 0) == Some(true) && run_ok_from(
                st2,
                levels,
                s + 1,
            ),
        }
    }
}

/// Each stat's own value with probability one, as machine values.
pub open spec fn point_mass_seq(value: int, len: int) -> Seq<Rational> {
    Seq::new(
        len as nat,
        |i: int|
            if i == value {
                Rational { num: 1, den: 1 }
            } else {
                Rational { num: 0, den: 1 }
            },
    )
}

/// The model state a run starts from.
pub open spec fn init_model<SIT>(stats: Seq<(SIT, Stat)>) -> Seq<(SIT, DistModel)> {
    Seq::new(
        stats.len(),
        |j: int|
            (
                stats[j].0,
                DistModel {
                    growth: stats[j].1.growth,
                    cap: stats[j].1.cap,
                    base: stats[j].1.base,
                    pmf: point_mass_seq(stats[j].1.value as int, stats[j].1.cap as int + 1),
                },
            ),
    )
}

/// Distinct stat keys: the entity's stats form a map.
pub open spec fn distinct_keys<SIT>(stats: Seq<(SIT, Stat)>) -> bool {
    forall|i: int, j: int|
        0 <= i < j < stats.len() ==> (#[trigger] stats[i]).0 != (#[trigger] stats[j]).0
}

/// The model promotion of one stat agrees with the state-level one.
proof fn lemma_promo_exec_from_agrees<SIT: StatIndexType, P: PromotionTransform<SIT>>(
    t: P,
    key: SIT,
    ds: DistributedStat,
    acc: Seq<Rational>,
    v: nat,
)
    ensures
        promo_exec_from_m(t, key, model_of(ds), acc, v) == promo_exec_from(t, key, ds, acc, v),
    decreases ds.pmf.len() - v,
{
    let dm = model_of(ds);
    if v >= ds.pmf.len() {
    } else if ds.pmf[v as int].num == 0 {
        lemma_promo_exec_from_agrees(t, key, ds, acc, v + 1);
    } else {
        assert(stat_at_m(dm, v as int) == stat_at(ds, v as int));
        let dest = t.apply_spec(key, stat_at(ds, v as int)).value as int;
        match crate::rational::spec_add(acc[dest], ds.pmf[v as int]) {
            None => {},
            Some(b) => {
                lemma_promo_exec_from_agrees(t, key, ds, acc.update(dest, b), v + 1);
            },
        }
    }
}

/// The model promotion functions agree with the state-level ones.
proof fn lemma_promo_fns_agree<SIT: StatIndexType, P: PromotionTransform<SIT>>(
    t: P,
    key: SIT,
    ds: DistributedStat,
)
    ensures
        promo_target_m(t, key, model_of(ds)) == promo_target(t, key, ds),
        promo_consistent_m(t, key, model_of(ds)) == promo_consistent(t, key, ds),
        promo_exec_m(t, key, model_of(ds)) == promo_exec(t, key, ds),
{
    let dm = model_of(ds);
    assert forall|v: int| true implies stat_at_m(dm, v) == stat_at(ds, v) by {}
    assert(promo_target_m(t, key, dm) == promo_target(t, key, ds));
    assert(promo_consistent_m(t, key, dm) == promo_consistent(t, key, ds)) by {
        if promo_consistent_m(t, key, dm) {
            assert forall|v: int|
                0 <= v < ds.pmf.len() && (#[trigger] ds.pmf[v]).num >= 1 implies {
                &&& t.apply_spec(key, stat_at(ds, v)).growth == promo_target(t, key, ds).growth
                &&& t.apply_spec(key, stat_at(ds, v)).cap == promo_target(t, key, ds).cap
            } by {
                assert(dm.pmf[v] == ds.pmf[v]);
            }
        }
        if promo_consistent(t, key, ds) {
            assert forall|v: int|
                0 <= v < dm.pmf.len() && (#[trigger] dm.pmf[v]).num >= 1 implies {
                &&& t.apply_spec(key, stat_at_m(dm, v)).growth == promo_target_m(t, key, dm).growth
                &&& t.apply_spec(key, stat_at_m(dm, v)).cap == promo_target_m(t, key, dm).cap
            } by {
                assert(ds.pmf[v] == dm.pmf[v]);
            }
        }
    }
    lemma_promo_exec_from_agrees(
        t,
        key,
        ds,
        zero_seq(promo_target(t, key, ds).cap as int + 1),
        0,
    );
}

/// The model level-up of one stat agrees with the state-level one.
proof fn lemma_levelup_pmf_exec_agrees<SIT: StatIndexType>(
    st: Seq<(SIT, DistributedStat)>,
    ov: Option<GrowthOverride<SIT>>,
    ba: BlankAvoidance<SIT>,
    k: int,
)
    requires
        0 <= k < st.len(),
    ensures
        levelup_pmf_exec_m(state_model(st), ov, ba, k) == levelup_pmf_exec(st, ov, ba, k),
{
    let stm = state_model(st);
    assert(effs_model_m(stm, ov) =~= effs_model(st, ov));
    assert(stm[k].1.pmf == st[k].1.pmf@);
    assert(stm[k].0 == st[k].0);
}

/// One model step agrees with the executable step's characterisation.
proof fn lemma_step_model_agrees<SIT: StatIndexType, P: PromotionTransform<SIT>>(
    st: Seq<(SIT, DistributedStat)>,
    c: StatChange<SIT, P>,
)
    ensures
        (step_model(state_model(st), c) is Some) == statchange_exec_ok(st, c),
        statchange_exec_ok(st, c) ==> {
            let next = step_model(state_model(st), c)->Some_0;
            &&& next.len() == st.len()
            &&& forall|k: int|
                0 <= k < st.len() ==> Some((#[trigger] next[k]).1.pmf) == statchange_pmf_exec(
                    st,
                    c,
                    k,
                )
            &&& forall|k: int| 0 <= k < st.len() ==> (#[trigger] next[k]).0 == st[k].0
            &&& forall|k: int|
                0 <= k < st.len() ==> ((#[trigger] next[k]).1.growth, next[k].1.cap, next[k].1.base)
                    == next_fields(st, c, k)
        },
{
    let stm = state_model(st);
    match c {
        StatChange::LevelUp { temporary_growth_override, blank_avoidance } => {
            assert forall|k: int| 0 <= k < st.len() implies levelup_pmf_exec_m(
                stm,
                temporary_growth_override,
                blank_avoidance,
                k,
            ) == levelup_pmf_exec(st, temporary_growth_override, blank_avoidance, k) by {
                lemma_levelup_pmf_exec_agrees(st, temporary_growth_override, blank_avoidance, k);
            }
            assert(statchange_exec_ok(st, c) == levelup_exec_ok(
                st,
                temporary_growth_override,
                blank_avoidance,
            ));
            if levelup_exec_ok(st, temporary_growth_override, blank_avoidance) {
                assert forall|k: int| 0 <= k < stm.len() implies levelup_pmf_exec_m(
                    stm,
                    temporary_growth_override,
                    blank_avoidance,
                    k,
                ) is Some by {
                    assert(levelup_pmf_exec(st, temporary_growth_override, blank_avoidance, k)
                        is Some);
                }
                assert(step_model(stm, c) is Some);
            } else {
                let bad = choose|k: int|
                    0 <= k < st.len() && !(#[trigger] levelup_pmf_exec(
                        st,
                        temporary_growth_override,
                        blank_avoidance,
                        k,
                    ) is Some);
                assert(!(levelup_pmf_exec_m(
                    stm,
                    temporary_growth_override,
                    blank_avoidance,
                    bad,
                ) is Some));
            }
        },
        StatChange::Promotion { promo_changes } => {
            assert forall|k: int| 0 <= k < st.len() implies {
                &&& (first_support_from((#[trigger] stm[k]).1.pmf, 0) is Some)
                    == (first_support_from(st[k].1.pmf@, 0) is Some)
                &&& promo_consistent_m(promo_changes, stm[k].0, stm[k].1) == promo_consistent(
                    promo_changes,
                    st[k].0,
                    st[k].1,
                )
                &&& promo_exec_m(promo_changes, stm[k].0, stm[k].1) == promo_exec(
                    promo_changes,
                    st[k].0,
                    st[k].1,
                )
            } by {
                assert(stm[k].1 == model_of(st[k].1));
                lemma_promo_fns_agree(promo_changes, st[k].0, st[k].1);
            }
            assert(statchange_exec_ok(st, c) == promo_exec_ok(promo_changes, st));
            if promo_exec_ok(promo_changes, st) {
                assert forall|k: int| 0 <= k < stm.len() implies {
                    &&& first_support_from((#[trigger] stm[k]).1.pmf, 0) is Some
                    &&& promo_consistent_m(promo_changes, stm[k].0, stm[k].1)
                    &&& promo_exec_m(promo_changes, stm[k].0, stm[k].1) is Some
                } by {
                    assert({
                        &&& first_support_from(st[k].1.pmf@, 0) is Some
                        &&& promo_consistent(promo_changes, st[k].0, st[k].1)
                        &&& promo_exec(promo_changes, st[k].0, st[k].1) is Some
                    });
                }
                assert(step_model(stm, c) is Some);
            } else {
                let bad = choose|k: int|
                    0 <= k < st.len() && !{
                        &&& first_support_from((#[trigger] st[k]).1.pmf@, 0) is Some
                        &&& promo_consistent(promo_changes, st[k].0, st[k].1)
                        &&& promo_exec(promo_changes, st[k].0, st[k].1) is Some
                    };
                assert(!{
                    &&& first_support_from(stm[bad].1.pmf, 0) is Some
                    &&& promo_consistent_m(promo_changes, stm[bad].0, stm[bad].1)
                    &&& promo_exec_m(promo_changes, stm[bad].0, stm[bad].1) is Some
                });
                assert(step_model(stm, c) is None);
            }
        },
    }
}

/// What `binomial_analysis` promises of every snapshot it returns:
/// the entity's keys in order, and per key a histogram of strictly
/// ascending values whose nonzero probabilities sum to exactly one.
pub open spec fn snapshot_ok<SIT>(snap: Snapshot<SIT>, stats: Seq<(SIT, Stat)>) -> bool {
    &&& snapshot_keys_match(snap, stats)
    &&& snapshot_entries_wf(snap)
    &&& forall|j: int| 0 <= j < snap.len() ==> hist_sums_to_one((#[trigger] snap[j]).1@)
    &&& forall|j: int| 0 <= j < snap.len() ==> snapshot_hist_entries_pos((#[trigger] snap[j]).1@)
    &&& forall|j: int| 0 <= j < snap.len() ==> hist_ascending((#[trigger] snap[j]).1@)
}

/// Histogram values are strictly ascending.
pub open spec fn hist_ascending(h: Seq<(StatType, Rational)>) -> bool {
    forall|l1: int, l2: int| 0 <= l1 < l2 < h.len() ==> (#[trigger] h[l1]).0 < (#[trigger] h[l2]).0
}

/// Support bounds: every value a well-formed distribution gives mass
/// to lies in `[0, cap]`, at every step, whatever the step did to the
/// cap.
pub proof fn lemma_support_bounds(ds: DistributedStat)
    requires
        ds.wf(),
    ensures
        forall|j: int|
            0 <= j < sparse_upto(ds.pmf@, ds.pmf.len() as nat).len() ==> 0 <= (
            #[trigger] sparse_upto(ds.pmf@, ds.pmf.len() as nat)[j]).0 <= ds.cap,
{
    lemma_sparse_props(ds.pmf@, ds.pmf.len() as nat);
}

/// A state holding each stat's own starting value with probability one.
pub open spec fn initial_state_ok<SIT>(
    st: Seq<(SIT, DistributedStat)>,
    stats: Seq<(SIT, Stat)>,
) -> bool {
    &&& st.len() == stats.len()
    &&& forall|j: int|
        0 <= j < stats.len() ==> {
            &&& (#[trigger] st[j]).0 == stats[j].0
            &&& st[j].1.growth == stats[j].1.growth
            &&& st[j].1.cap == stats[j].1.cap
            &&& st[j].1.base == stats[j].1.base
            &&& st[j].1.pmf@ == point_mass_seq(stats[j].1.value as int, stats[j].1.cap as int + 1)
        }
}

/// `next` is what one step makes of `prev`, stat by stat.
pub open spec fn step_entries_ok<SIT, P: PromotionTransform<SIT>>(
    prev: Seq<(SIT, DistributedStat)>,
    c: StatChange<SIT, P>,
    next: Seq<(SIT, DistributedStat)>,
) -> bool {
    &&& next.len() == prev.len()
    &&& match c {
        StatChange::LevelUp { temporary_growth_override, blank_avoidance } => forall|i: int|
            0 <= i < next.len() ==> levelup_entry_ok(
                prev,
                temporary_growth_override,
                blank_avoidance,
                i,
                #[trigger] next[i],
            ),
        StatChange::Promotion { promo_changes } => forall|i: int|
            0 <= i < next.len() ==> promo_entry_ok(promo_changes, prev[i], #[trigger] next[i]),
    }
}

/// Consecutive states are linked by the corresponding step's rule.
pub open spec fn states_linked<SIT, P: PromotionTransform<SIT>>(
    states: Seq<Seq<(SIT, DistributedStat)>>,
    levels: Seq<StatChange<SIT, P>>,
) -> bool {
    forall|s: int|
        0 <= s < levels.len() ==> step_entries_ok(#[trigger] states[s], levels[s], states[s + 1])
}

/// The snapshot is the sparse projection of the state.
pub open spec fn snap_projects<SIT>(snap: Snapshot<SIT>, st: Seq<(SIT, DistributedStat)>) -> bool {
    &&& snap.len() == st.len()
    &&& forall|j: int|
        0 <= j < st.len() ==> (#[trigger] snap[j]).0 == st[j].0 && snap[j].1@ == sparse_upto(
            st[j].1.pmf@,
            st[j].1.pmf.len() as nat,
        )
}

/// A witness for a whole run: the per-stat states behind each
/// snapshot, starting at the point mass and linked step by step by
/// the level-up and promotion rules; every snapshot is its state's
/// sparse projection.
pub open spec fn run_witness<SIT, P: PromotionTransform<SIT>>(
    snaps: Seq<Snapshot<SIT>>,
    states: Seq<Seq<(SIT, DistributedStat)>>,
    levels: Seq<StatChange<SIT, P>>,
    stats: Seq<(SIT, Stat)>,
) -> bool {
    &&& states.len() == levels.len() + 1
    &&& snaps.len() == states.len()
    &&& initial_state_ok(states[0], stats)
    &&& states_linked(states, levels)
    &&& forall|s: int| 0 <= s < snaps.len() ==> snap_projects(#[trigger] snaps[s], states[s])
}

/// Every state of a witnessed run is well-formed: the initial point
/// mass is, and each step's rule keeps it so.
pub proof fn lemma_run_states_wf<SIT, P: PromotionTransform<SIT>>(
    states: Seq<Seq<(SIT, DistributedStat)>>,
    levels: Seq<StatChange<SIT, P>>,
    stats: Seq<(SIT, Stat)>,
    s: int,
)
    requires
        states.len() == levels.len() + 1,
        initial_state_ok(states[0], stats),
        states_linked(states, levels),
        0 <= s < states.len(),
    ensures
        forall|j: int| 0 <= j < states[s].len() ==> (#[trigger] states[s][j]).1.wf(),
    decreases s,
{
    if s == 0 {
        assert forall|j: int| 0 <= j < states[0].len() implies (#[trigger] states[0][j]).1.wf() by {
            let pms = point_mass_seq(stats[j].1.value as int, stats[j].1.cap as int + 1);
            assert(states[0][j].1.pmf@ == pms);
            assert forall|v: int|
                0 <= v < states[0][j].1.pmf.len() implies (#[trigger] states[0][j].1.pmf[v]).wf() by {
                assert(states[0][j].1.pmf[v] == pms[v]);
            }
        }
    } else {
        lemma_run_states_wf(states, levels, stats, s - 1);
        assert(step_entries_ok(states[s - 1], levels[s - 1], states[s]));
        assert forall|j: int| 0 <= j < states[s].len() implies (#[trigger] states[s][j]).1.wf() by {
            match levels[s - 1] {
                StatChange::LevelUp { temporary_growth_override, blank_avoidance } => {
                    assert(levelup_entry_ok(
                        states[s - 1],
                        temporary_growth_override,
                        blank_avoidance,
                        j,
                        states[s][j],
                    ));
                },
                StatChange::Promotion { promo_changes } => {
                    assert(promo_entry_ok(promo_changes, states[s - 1][j], states[s][j]));
                },
            }
        }
    }
}

/// Support bounds along a whole run: every value a returned histogram
/// names lies in `[0, cap]` for its stat's cap at that step, whatever
/// the promotions so far did to the cap.
pub proof fn lemma_run_support_bounds<SIT, P: PromotionTransform<SIT>>(
    snaps: Seq<Snapshot<SIT>>,
    states: Seq<Seq<(SIT, DistributedStat)>>,
    levels: Seq<StatChange<SIT, P>>,
    stats: Seq<(SIT, Stat)>,
)
    requires
        run_witness(snaps, states, levels, stats),
    ensures
        forall|s: int, j: int, l: int|
            0 <= s < snaps.len() && 0 <= j < (#[trigger] snaps[s]).len() && 0 <= l
                < (#[trigger] snaps[s][j]).1.len() ==> 0 <= (#[trigger] snaps[s][j].1[l]).0
                <= states[s][j].1.cap,
{
    assert forall|s: int, j: int, l: int|
        0 <= s < snaps.len() && 0 <= j < (#[trigger] snaps[s]).len() && 0 <= l
            < (#[trigger] snaps[s][j]).1.len() implies 0 <= (#[trigger] snaps[s][j].1[l]).0
        <= states[s][j].1.cap by {
        lemma_run_states_wf(states, levels, stats, s);
        assert(states[s][j].1.wf());
        assert(snaps[s][j].1@ == sparse_upto(states[s][j].1.pmf@, states[s][j].1.pmf.len() as nat));
        lemma_sparse_props(states[s][j].1.pmf@, states[s][j].1.pmf.len() as nat);
    }
}

/// Solves a transformation sequence in closed form: one snapshot per
/// step, preceded by the initial point-mass snapshot.  The feasibility
/// gate rejects the whole sequence if any step has no closed form.
/// The call succeeds exactly when no step is rejected and the whole
/// run stays within exact arithmetic and its mass checks.
pub fn binomial_analysis<SIT: StatIndexType, P: PromotionTransform<SIT>>(
    levels: &Vec<StatChange<SIT, P>>,
    character: &Character<SIT>,
) -> (r: Result<Vec<Snapshot<SIT>>, AnalysisError>)
    requires
        forall|j: int|
            0 <= j < character.stats.len() ==> (#[trigger] character.stats[j]).1.value
                <= character.stats[j].1.cap,
        distinct_keys(character.stats@),
    ensures
        (r matches Err(e) && e == AnalysisError::Unsupported) <==> exists|i: int|
            0 <= i < levels.len() && !change_acceptable(#[trigger] levels[i]),
        r is Ok <==> ((forall|i: int| 0 <= i < levels.len() ==> change_acceptable(
            #[trigger] levels[i],
        )) && run_ok_from(init_model(character.stats@), levels@, 0)),
        r is Ok ==> {
            let snaps = r->Ok_0;
            &&& snaps.len() == levels.len() + 1
            &&& is_point_mass_snapshot(snaps[0], character.stats@)
            &&& forall|s: int| 0 <= s < snaps.len() ==> snapshot_ok(#[trigger] snaps[s], character.stats@)
        },
        r is Ok ==> exists|states: Seq<Seq<(SIT, DistributedStat)>>|
            #[trigger] run_witness(r->Ok_0@, states, levels@, character.stats@),
        levels.len() == 0 ==> r is Ok,
{
    let ghost run_target = run_ok_from(init_model(character.stats@), levels@, 0);
    let mut i: usize = 0;
    while i < levels.len()
        invariant
            0 <= i <= levels.len(),
            forall|j: int| 0 <= j < i ==> change_acceptable(#[trigger] levels[j]),
        decreases levels.len() - i,
    {
        if !binomial_stat_change_acceptable(&levels[i]) {
            return Err(AnalysisError::Unsupported);
        }
        i = i + 1;
    }
    let mut state: Vec<(SIT, DistributedStat)> = Vec::new();
    let mut j: usize = 0;
    while j < character.stats.len()
        invariant
            0 <= j <= character.stats.len(),
            forall|l: int|
                0 <= l < character.stats.len() ==> (#[trigger] character.stats[l]).1.value
                    <= character.stats[l].1.cap,
            state.len() == j,
            forall|l: int|
                0 <= l < j ==> {
                    &&& (#[trigger] state[l]).0 == character.stats[l].0
                    &&& state[l].1.wf()
                    &&& state[l].1.growth == character.stats[l].1.growth
                    &&& state[l].1.cap == character.stats[l].1.cap
                    &&& state[l].1.base == character.stats[l].1.base
                    &&& forall|v: int|
                        0 <= v < state[l].1.pmf.len() ==> (#[trigger] state[l].1.pmf[v]) == (
                        if v == character.stats[l].1.value as int {
                            (Rational { num: 1, den: 1 })
                        } else {
                            (Rational { num: 0, den: 1 })
                        })
                },
        decreases character.stats.len() - j,
    {
        let (key, stat) = character.stats[j];
        let ds: DistributedStat = point_mass(stat);
        state.push((key, ds));
        j = j + 1;
    }
    let snap0: Snapshot<SIT> = project_snapshot(&state);
    proof {
        assert forall|l: int| 0 <= l < state.len() implies (#[trigger] snap0[l]).1@
            == Seq::<(StatType, Rational)>::empty().push(
            (character.stats[l].1.value, Rational { num: 1, den: 1 }),
        ) && hist_sums_to_one(snap0[l].1@) && snapshot_hist_entries_pos(snap0[l].1@)
            && hist_ascending(snap0[l].1@) by {
            let pmf = state[l].1.pmf@;
            let value = character.stats[l].1.value as int;
            lemma_sparse_point_mass(pmf, value, pmf.len() as nat);
            assert(snap0[l].1@ == Seq::<(StatType, Rational)>::empty().push(
                ((value as usize) as StatType, Rational { num: 1, den: 1 }),
            ));
            lemma_point_mass_hist_sums(snap0[l].1@);
        }
    }
    let mut collection: Vec<Snapshot<SIT>> = Vec::new();
    collection.push(snap0);
    let ghost stats0 = character.stats@;
    proof {
        assert(state_model(state@) =~= init_model(stats0)) by {
            assert forall|l: int| 0 <= l < state@.len() implies state_model(state@)[l]
                == init_model(stats0)[l] by {
                assert(state@[l].1.pmf@ =~= point_mass_seq(
                    stats0[l].1.value as int,
                    stats0[l].1.cap as int + 1,
                ));
                assert(model_of(state@[l].1) == init_model(stats0)[l].1);
            }
        }
        assert(initial_state_ok(state@, stats0)) by {
            assert forall|l: int| 0 <= l < stats0.len() implies {
                &&& (#[trigger] state@[l]).0 == stats0[l].0
                &&& state@[l].1.growth == stats0[l].1.growth
                &&& state@[l].1.cap == stats0[l].1.cap
                &&& state@[l].1.base == stats0[l].1.base
                &&& state@[l].1.pmf@ == point_mass_seq(
                    stats0[l].1.value as int,
                    stats0[l].1.cap as int + 1,
                )
            } by {
                assert(state@[l].1.pmf@ =~= point_mass_seq(
                    stats0[l].1.value as int,
                    stats0[l].1.cap as int + 1,
                ));
            }
        }
    }
    let ghost mut states: Seq<Seq<(SIT, DistributedStat)>> = Seq::empty().push(state@);
    let mut s: usize = 0;
    while s < levels.len()
        invariant
            0 <= s <= levels.len(),
            stats0 == character.stats@,
            forall|j2: int| 0 <= j2 < levels.len() ==> change_acceptable(#[trigger] levels[j2]),
            state.len() == stats0.len(),
            forall|l: int| 0 <= l < state.len() ==> (#[trigger] state[l]).1.wf(),
            forall|l: int| 0 <= l < state.len() ==> (#[trigger] state[l]).0 == stats0[l].0,
            collection.len() == s + 1,
            is_point_mass_snapshot(collection[0], stats0),
            forall|t: int| 0 <= t < collection.len() ==> snapshot_ok(#[trigger] collection[t], stats0),
            run_target == run_ok_from(init_model(stats0), levels@, 0),
            run_target == run_ok_from(state_model(state@), levels@, s as int),
            states.len() == s + 1,
            states[s as int] == state@,
            initial_state_ok(states[0], stats0),
            forall|t: int|
                0 <= t < s ==> step_entries_ok(#[trigger] states[t], levels[t], states[t + 1]),
            forall|t: int|
                0 <= t < collection.len() ==> snap_projects(#[trigger] collection[t], states[t]),
        decreases levels.len() - s,
    {
        let ghost prev_state = state@;
        match process_statchange(&mut state, &levels[s]) {
            Ok(()) => (),
            Err(e) => {
                proof {
                    assert(e != AnalysisError::Unsupported);
                    lemma_step_model_agrees(prev_state, levels@[s as int]);
                    assert(step_model(state_model(prev_state), levels@[s as int]) is None);
                    assert(!run_ok_from(state_model(prev_state), levels@, s as int));
                }
                return Err(e);
            },
        }
        proof {
            lemma_step_model_agrees(prev_state, levels@[s as int]);
            let next_m = step_model(state_model(prev_state), levels@[s as int])->Some_0;
            assert(state_model(state@) =~= next_m) by {
                assert forall|k: int| 0 <= k < state@.len() implies state_model(state@)[k]
                    == next_m[k] by {
                    assert(Some(state@[k].1.pmf@) == statchange_pmf_exec(
                        prev_state,
                        levels@[s as int],
                        k,
                    ));
                    assert(Some(next_m[k].1.pmf) == statchange_pmf_exec(
                        prev_state,
                        levels@[s as int],
                        k,
                    ));
                    assert((state@[k].1.growth, state@[k].1.cap, state@[k].1.base) == next_fields(
                        prev_state,
                        levels@[s as int],
                        k,
                    ));
                    assert((next_m[k].1.growth, next_m[k].1.cap, next_m[k].1.base) == next_fields(
                        prev_state,
                        levels@[s as int],
                        k,
                    ));
                    assert(model_of(state@[k].1) == next_m[k].1);
                    assert(next_m[k].0 == prev_state[k].0);
                    assert(state@[k].0 == prev_state[k].0);
                }
            }
        }
        let snap: Snapshot<SIT> = project_snapshot(&state);
        proof {
            assert forall|l: int| 0 <= l < snap.len() implies snapshot_hist_entries_pos(
                (#[trigger] snap[l]).1@,
            ) && hist_ascending(snap[l].1@) by {
                lemma_sparse_props(state[l].1.pmf@, state[l].1.pmf@.len() as nat);
            }
            assert(hists_of(snap) =~= model_hists(state_model(state@))) by {
                assert forall|j2: int| 0 <= j2 < snap.len() implies hists_of(snap)[j2]
                    == model_hists(state_model(state@))[j2] by {
                    assert(hists_of(snap)[j2] == snap[j2].1@);
                    assert(state_model(state@)[j2].1.pmf == state@[j2].1.pmf@);
                }
            }
        }
        match validate_dist(&snap) {
            Some(true) => (),
            Some(false) => {
                proof {
                    assert(!run_ok_from(state_model(prev_state), levels@, s as int));
                }
                return Err(AnalysisError::MassViolation);
            },
            None => {
                proof {
                    assert(!run_ok_from(state_model(prev_state), levels@, s as int));
                }
                return Err(AnalysisError::Overflow);
            },
        }
        proof {
            assert(dist_check_from(model_hists(state_model(state@)), 0) == Some(true));
            assert(run_ok_from(state_model(prev_state), levels@, s as int) == run_ok_from(
                state_model(state@),
                levels@,
                s as int + 1,
            ));
            assert(step_entries_ok(prev_state, levels@[s as int], state@));
            states = states.push(state@);
        }
        collection.push(snap);
        s = s + 1;
    }
    proof {
        assert(run_ok_from(state_model(state@), levels@, s as int));
        assert(run_witness(collection@, states, levels@, stats0));
    }
    Ok(collection)
}

/// Every probability of a histogram is nonzero and well-formed.
pub open spec fn snapshot_hist_entries_pos(h: Seq<(StatType, Rational)>) -> bool {
    forall|l: int| 0 <= l < h.len() ==> (#[trigger] h[l]).1.wf() && h[l].1.num >= 1
}

/// The single pair `(value, 1)` sums to one.
proof fn lemma_point_mass_hist_sums(h: Seq<(StatType, Rational)>)
    requires
        h.len() == 1,
        h[0].1 == (Rational { num: 1, den: 1 }),
    ensures
        hist_sums_to_one(h),
        snapshot_hist_entries_pos(h),
{
    assert(hsum_upto(h, 0) == rzero());
    assert(h[0].1.v() == (1int, 1int));
    assert(hsum_upto(h, 1) == radd(hsum_upto(h, 0), h[0].1.v()));
    assert(radd(rzero(), (1int, 1int)) == (1int, 1int));
}

} // verus!
