//! Concrete life events and the application of their effects.
use std::collections::HashSet;
use vstd::prelude::*;

use crate::effect::{Effect, EffectResp};
use crate::emotion::{EF, ER};
use crate::engine::{QueryInfo, RespInfo};
use crate::stat::{Stat, Stats};
use crate::timing::Timing;
use crate::P_UNIT;

verus! {

/// One concrete, selectable life event: description text, eligibility
/// timings, and two effect lists — the normal outcome and the missed
/// outcome.  A `one_time` lot, once chosen, is never chosen again within a
/// playthrough; a `hidden` lot's description is obscured until it resolves.
/// `p` is a presentational width hint, not a selection weight.
#[derive(Clone, Debug)]
pub struct Lot {
    pub id: u32,
    pub desc: String,
    pub missed_desc: Option<String>,
    pub p: u32,
    pub one_time: bool,
    pub hidden: bool,
    pub effects: Vec<Effect>,
    pub missed_effects: Vec<Effect>,
    pub timings: Vec<Timing>,
}

/// A lot may be offered only while it is not a one-time lot whose id is
/// already recorded as executed.
pub open spec fn lot_eligible(l: Lot, executed: Set<u32>) -> bool {
    !l.one_time || !executed.contains(l.id)
}

/// Addition on a fixed-point axis, clamped at the representable extremes so
/// that applying an effect is total.
pub open spec fn spec_sat_add(a: i64, b: i64) -> i64 {
    if a + b > i64::MAX {
        i64::MAX
    } else if a + b < i64::MIN {
        i64::MIN
    } else {
        (a + b) as i64
    }
}

/// Computes [`spec_sat_add`].
pub fn sat_add(a: i64, b: i64) -> (r: i64)
    ensures
        r == spec_sat_add(a, b),
{
    if b >= 0 {
        if a > i64::MAX - b {
            i64::MAX
        } else {
            a + b
        }
    } else {
        if a < i64::MIN - b {
            i64::MIN
        } else {
            a + b
        }
    }
}

/// `er` with `v` added to the named emotional axis.
pub open spec fn spec_er_plus(er: ER, ef: EF, v: i64) -> ER {
    match ef {
        EF::Lol => ER { lol: spec_sat_add(er.lol, v), tot: er.tot },
        EF::Tot => ER { lol: er.lol, tot: spec_sat_add(er.tot, v) },
    }
}

/// Computes [`spec_er_plus`].
pub fn er_plus(er: ER, ef: EF, v: i64) -> (r: ER)
    ensures
        r == spec_er_plus(er, ef, v),
{
    match ef {
        EF::Lol => ER { lol: sat_add(er.lol, v), tot: er.tot },
        EF::Tot => ER { lol: er.lol, tot: sat_add(er.tot, v) },
    }
}

/// `stats` with `v` added to the named axis.
pub open spec fn spec_stats_plus(stats: Stats, stat: Stat, v: i64) -> Stats {
    match stat {
        Stat::Int => Stats { intuition: spec_sat_add(stats.intuition, v), ..stats },
        Stat::Kno => Stats { knowledge: spec_sat_add(stats.knowledge, v), ..stats },
        Stat::Phy => Stats { physical: spec_sat_add(stats.physical, v), ..stats },
        Stat::Soc => Stats { social: spec_sat_add(stats.social, v), ..stats },
    }
}

/// Computes [`spec_stats_plus`].
pub fn stats_plus(stats: Stats, stat: Stat, v: i64) -> (r: Stats)
    ensures
        r == spec_stats_plus(stats, stat, v),
{
    match stat {
        Stat::Int => Stats { intuition: sat_add(stats.intuition, v), ..stats },
        Stat::Kno => Stats { knowledge: sat_add(stats.knowledge, v), ..stats },
        Stat::Phy => Stats { physical: sat_add(stats.physical, v), ..stats },
        Stat::Soc => Stats { social: sat_add(stats.social, v), ..stats },
    }
}

/// The running accumulator of effect application: for each field of the
/// player state, `None` until an effect of that kind fires, then the
/// mutated copy of the query's baseline.
pub open spec fn resp_step(
    st: (Option<Set<u32>>, Option<ER>, Option<Stats>),
    resp: EffectResp,
    q: QueryInfo,
) -> (Option<Set<u32>>, Option<ER>, Option<Stats>) {
    match resp {
        EffectResp::Skip => st,
        EffectResp::AttrAdd(id) => (Some(attrs_baseline(st.0, q).insert(id)), st.1, st.2),
        EffectResp::AttrRemove(id) => (Some(attrs_baseline(st.0, q).remove(id)), st.1, st.2),
        EffectResp::ER { ef, v } => (st.0, Some(spec_er_plus(er_baseline(st.1, q), ef, v)), st.2),
        EffectResp::Stat { stat, v } => (
            st.0,
            st.1,
            Some(spec_stats_plus(stats_baseline(st.2, q), stat, v)),
        ),
    }
}

/// The attribute set an effect mutates: the accumulator if one was already
/// started, else a fresh copy of the query's baseline.
pub open spec fn attrs_baseline(st: Option<Set<u32>>, q: QueryInfo) -> Set<u32> {
    match st {
        Some(s) => s,
        None => q.attrs@,
    }
}

/// The emotional rating an effect mutates (see [`attrs_baseline`]).
pub open spec fn er_baseline(st: Option<ER>, q: QueryInfo) -> ER {
    match st {
        Some(e) => e,
        None => q.er,
    }
}

/// The stats record an effect mutates (see [`attrs_baseline`]).
pub open spec fn stats_baseline(st: Option<Stats>, q: QueryInfo) -> Stats {
    match st {
        Some(s) => s,
        None => q.stats,
    }
}

/// The accumulator after a sequence of effect outcomes, applied in declared
/// order against the query's baseline.
pub open spec fn spec_accum(resps: Seq<EffectResp>, q: QueryInfo) -> (
    Option<Set<u32>>,
    Option<ER>,
    Option<Stats>,
)
    decreases resps.len(),
{
    if resps.len() == 0 {
        (None::<Set<u32>>, None::<ER>, None::<Stats>)
    } else {
        resp_step(spec_accum(resps.drop_last(), q), resps.last(), q)
    }
}

/// Every outcome in `resps` is one its effect could have produced
/// (see [`Effect::take_consistent`]).
pub open spec fn resps_consistent(effects: Seq<Effect>, resps: Seq<EffectResp>) -> bool {
    &&& resps.len() == effects.len()
    &&& forall|i: int| 0 <= i < effects.len() ==> effects[i].take_consistent(#[trigger] resps[i])
}

/// The returned delta holds exactly the accumulator's final state.
pub open spec fn resp_info_matches(
    r: RespInfo,
    st: (Option<Set<u32>>, Option<ER>, Option<Stats>),
) -> bool {
    &&& (r.attrs is Some) == (st.0 is Some)
    &&& (r.attrs is Some ==> r.attrs.unwrap()@ == st.0.unwrap())
    &&& r.er == st.1
    &&& r.stats == st.2
}

/// Everything applying an effect list promises of its result: some sequence
/// of per-effect outcomes, each one its effect could have produced, accounts
/// exactly for the returned delta.
pub open spec fn spec_apply_rel(effects: Seq<Effect>, q: QueryInfo, r: RespInfo) -> bool {
    exists|resps: Seq<EffectResp>|
        resps_consistent(effects, resps) && resp_info_matches(r, spec_accum(resps, q))
}

impl Lot {
    /// Applies the normal-outcome effects to the snapshot and returns the
    /// delta.  Pure in the query: the engine's shared state is untouched;
    /// the caller owns merging the delta.
    pub fn apply(&self, query: &QueryInfo) -> (r: RespInfo)
        ensures
            spec_apply_rel(self.effects@, *query, r),
    {
        apply_impl(&self.effects, query)
    }

    /// Applies the missed-outcome effects the same way as [`Lot::apply`].
    pub fn apply_miss(&self, query: &QueryInfo) -> (r: RespInfo)
        ensures
            spec_apply_rel(self.missed_effects@, *query, r),
    {
        apply_impl(&self.missed_effects, query)
    }
}

/// Each field of the accumulator is `Some` exactly when some outcome of its
/// kind stands in the sequence.
pub proof fn lemma_accum_fields(resps: Seq<EffectResp>, q: QueryInfo)
    ensures
        (spec_accum(resps, q).0 is Some) <==> exists|i: int|
            0 <= i < resps.len() && ((#[trigger] resps[i]) is AttrAdd || resps[i] is AttrRemove),
        (spec_accum(resps, q).1 is Some) <==> exists|i: int|
            0 <= i < resps.len() && (#[trigger] resps[i]) is ER,
        (spec_accum(resps, q).2 is Some) <==> exists|i: int|
            0 <= i < resps.len() && (#[trigger] resps[i]) is Stat,
    decreases resps.len(),
{
    if resps.len() > 0 {
        lemma_accum_fields(resps.drop_last(), q);
        assert(forall|i: int|
            0 <= i < resps.len() - 1 ==> resps[i] == #[trigger] resps.drop_last()[i]);
        assert(resps[resps.len() - 1] == resps.last());
        if spec_accum(resps, q).0 is Some {
            if !(resps.last() is AttrAdd || resps.last() is AttrRemove) {
                let i = choose|i: int|
                    0 <= i < resps.drop_last().len() && ((#[trigger] resps.drop_last()[i]) is AttrAdd
                        || resps.drop_last()[i] is AttrRemove);
                assert(resps[i] is AttrAdd || resps[i] is AttrRemove);
            }
        }
        if exists|i: int|
            0 <= i < resps.len() && ((#[trigger] resps[i]) is AttrAdd || resps[i] is AttrRemove) {
            let i = choose|i: int|
                0 <= i < resps.len() && ((#[trigger] resps[i]) is AttrAdd
                    || resps[i] is AttrRemove);
            if i < resps.len() - 1 {
                assert(resps.drop_last()[i] is AttrAdd || resps.drop_last()[i] is AttrRemove);
            }
            assert(spec_accum(resps, q).0 is Some);
        }
        if spec_accum(resps, q).1 is Some {
            if !(resps.last() is ER) {
                let i = choose|i: int|
                    0 <= i < resps.drop_last().len() && (#[trigger] resps.drop_last()[i]) is ER;
                assert(resps[i] is ER);
            }
        }
        if exists|i: int| 0 <= i < resps.len() && (#[trigger] resps[i]) is ER {
            let i = choose|i: int| 0 <= i < resps.len() && (#[trigger] resps[i]) is ER;
            if i < resps.len() - 1 {
                assert(resps.drop_last()[i] is ER);
            }
            assert(spec_accum(resps, q).1 is Some);
        }
        if spec_accum(resps, q).2 is Some {
            if !(resps.last() is Stat) {
                let i = choose|i: int|
                    0 <= i < resps.drop_last().len() && (#[trigger] resps.drop_last()[i]) is Stat;
                assert(resps[i] is Stat);
            }
        }
        if exists|i: int| 0 <= i < resps.len() && (#[trigger] resps[i]) is Stat {
            let i = choose|i: int| 0 <= i < resps.len() && (#[trigger] resps[i]) is Stat;
            if i < resps.len() - 1 {
                assert(resps.drop_last()[i] is Stat);
            }
            assert(spec_accum(resps, q).2 is Some);
        }
    }
}

/// Effect independence: every effect is decided by its own trial.  A
/// guaranteed effect always marks the field of its kind changed — so two
/// guaranteed effects on different fields mark both — while a field whose
/// effects can never fire stays unchanged, whatever the other effects do.
pub proof fn lemma_effect_independence(effects: Seq<Effect>, q: QueryInfo, r: RespInfo)
    requires
        spec_apply_rel(effects, q, r),
    ensures
        (exists|i: int|
            0 <= i < effects.len() && (#[trigger] effects[i]) is ER
                && effects[i].spec_effective_p() == P_UNIT) ==> r.er is Some,
        (exists|i: int|
            0 <= i < effects.len() && (#[trigger] effects[i]) is Stat
                && effects[i].spec_effective_p() == P_UNIT) ==> r.stats is Some,
        (exists|i: int|
            0 <= i < effects.len() && ((#[trigger] effects[i]) is AttrAdd
                || effects[i] is AttrRemove) && effects[i].spec_effective_p() == P_UNIT)
            ==> r.attrs is Some,
        r.er is Some ==> exists|i: int|
            0 <= i < effects.len() && (#[trigger] effects[i]) is ER
                && effects[i].spec_effective_p() > 0,
        r.stats is Some ==> exists|i: int|
            0 <= i < effects.len() && (#[trigger] effects[i]) is Stat
                && effects[i].spec_effective_p() > 0,
        r.attrs is Some ==> exists|i: int|
            0 <= i < effects.len() && ((#[trigger] effects[i]) is AttrAdd
                || effects[i] is AttrRemove) && effects[i].spec_effective_p() > 0,
{
    let resps = choose|resps: Seq<EffectResp>|
        resps_consistent(effects, resps) && resp_info_matches(r, spec_accum(resps, q));
    lemma_accum_fields(resps, q);
    if exists|i: int|
        0 <= i < effects.len() && (#[trigger] effects[i]) is ER && effects[i].spec_effective_p()
            == P_UNIT {
        let i = choose|i: int|
            0 <= i < effects.len() && (#[trigger] effects[i]) is ER
                && effects[i].spec_effective_p() == P_UNIT;
        assert(effects[i].take_consistent(resps[i]));
        assert(resps[i] == effects[i].spec_fired());
        assert(resps[i] is ER);
    }
    if exists|i: int|
        0 <= i < effects.len() && (#[trigger] effects[i]) is Stat && effects[i].spec_effective_p()
            == P_UNIT {
        let i = choose|i: int|
            0 <= i < effects.len() && (#[trigger] effects[i]) is Stat
                && effects[i].spec_effective_p() == P_UNIT;
        assert(effects[i].take_consistent(resps[i]));
        assert(resps[i] is Stat);
    }
    if exists|i: int|
        0 <= i < effects.len() && ((#[trigger] effects[i]) is AttrAdd || effects[i] is AttrRemove)
            && effects[i].spec_effective_p() == P_UNIT {
        let i = choose|i: int|
            0 <= i < effects.len() && ((#[trigger] effects[i]) is AttrAdd
                || effects[i] is AttrRemove) && effects[i].spec_effective_p() == P_UNIT;
        assert(effects[i].take_consistent(resps[i]));
        assert(resps[i] is AttrAdd || resps[i] is AttrRemove);
    }
    if r.er is Some {
        let i = choose|i: int| 0 <= i < resps.len() && (#[trigger] resps[i]) is ER;
        assert(effects[i].take_consistent(resps[i]));
        assert(resps[i] == effects[i].spec_fired());
        assert(effects[i] is ER);
        assert(effects[i].spec_effective_p() != 0);
    }
    if r.stats is Some {
        let i = choose|i: int| 0 <= i < resps.len() && (#[trigger] resps[i]) is Stat;
        assert(effects[i].take_consistent(resps[i]));
        assert(resps[i] == effects[i].spec_fired());
        assert(effects[i] is Stat);
        assert(effects[i].spec_effective_p() != 0);
    }
    if r.attrs is Some {
        let i = choose|i: int|
            0 <= i < resps.len() && ((#[trigger] resps[i]) is AttrAdd || resps[i] is AttrRemove);
        assert(effects[i].take_consistent(resps[i]));
        assert(resps[i] == effects[i].spec_fired());
        assert(effects[i] is AttrAdd || effects[i] is AttrRemove);
        assert(effects[i].spec_effective_p() != 0);
    }
}

/// Delta semantics: a single guaranteed emotional-rating effect yields a
/// delta holding exactly the baseline rating with `v` added to the named
/// axis, and no change of any other kind.
pub proof fn lemma_er_delta(effects: Seq<Effect>, q: QueryInfo, r: RespInfo, ef: EF, v: i64)
    requires
        spec_apply_rel(effects, q, r),
        effects =~= seq![Effect::ER { p: P_UNIT, ef, v }],
    ensures
        r.attrs is None,
        r.stats is None,
        r.er == Some(spec_er_plus(q.er, ef, v)),
{
    let resps = choose|resps: Seq<EffectResp>|
        resps_consistent(effects, resps) && resp_info_matches(r, spec_accum(resps, q));
    assert(effects[0] == Effect::ER { p: P_UNIT, ef, v });
    assert(effects[0].take_consistent(resps[0]));
    assert(effects[0].spec_effective_p() == P_UNIT);
    assert(resps[0] == (EffectResp::ER { ef, v }));
    assert(resps.len() == 1);
    let empty: Seq<EffectResp> = Seq::empty();
    assert(resps.drop_last() =~= empty);
    assert(resps.last() == resps[0]);
    assert(spec_accum(empty, q) == (None::<Set<u32>>, None::<ER>, None::<Stats>));
    assert(spec_accum(resps, q) == resp_step(spec_accum(empty, q), resps[0], q));
    assert(spec_accum(resps, q).0 is None);
    assert(spec_accum(resps, q).1 == Some(spec_er_plus(q.er, ef, v)));
    assert(spec_accum(resps, q).2 is None);
}

/// Relies on std's `HashSet::clone`: the duplicate holds the same elements
/// as the original.
#[verifier::external_body]
fn clone_attrs(s: &HashSet<u32>) -> (r: HashSet<u32>)
    ensures
        r@ == s@,
{
    s.clone()
}

fn apply_impl(effects: &Vec<Effect>, query: &QueryInfo) -> (r: RespInfo)
    ensures
        spec_apply_rel(effects@, *query, r),
{
    let n = effects.len();
    let mut attrs: Option<HashSet<u32>> = None;
    let mut er: Option<ER> = None;
    let mut stats: Option<Stats> = None;
    let ghost mut resps: Seq<EffectResp> = Seq::empty();
    let mut i: usize = 0;
    while i < n
        invariant
            i <= n,
            n == effects@.len(),
            resps_consistent(effects@.take(i as int), resps),
            (attrs is Some) == (spec_accum(resps, *query).0 is Some),
            attrs is Some ==> attrs.unwrap()@ == spec_accum(resps, *query).0.unwrap(),
            er == spec_accum(resps, *query).1,
            stats == spec_accum(resps, *query).2,
        decreases n - i,
    {
        let resp = effects[i].take();
        let ghost prev = resps;
        proof {
            resps = prev.push(resp);
            assert(resps.drop_last() =~= prev);
            assert(resps.last() == resp);
            assert(effects@.take(i + 1).drop_last() =~= effects@.take(i as int));
            assert(effects@.take(i + 1).last() == effects@[i as int]);
        }
        match resp {
            EffectResp::Skip => {},
            EffectResp::AttrAdd(id) => {
                let mut a = match attrs {
                    Some(a) => a,
                    None => clone_attrs(&query.attrs),
                };
                a.insert(id);
                attrs = Some(a);
            },
            EffectResp::AttrRemove(id) => {
                let mut a = match attrs {
                    Some(a) => a,
                    None => clone_attrs(&query.attrs),
                };
                a.remove(&id);
                attrs = Some(a);
            },
            EffectResp::ER { ef, v } => {
                let base = match er {
                    Some(e) => e,
                    None => query.er,
                };
                er = Some(er_plus(base, ef, v));
            },
            EffectResp::Stat { stat, v } => {
                let base = match stats {
                    Some(s) => s,
                    None => query.stats,
                };
                stats = Some(stats_plus(base, stat, v));
            },
        }
        i = i + 1;
    }
    proof {
        assert(effects@.take(n as int) =~= effects@);
    }
    RespInfo { attrs, er, stats }
}

} // verus!
