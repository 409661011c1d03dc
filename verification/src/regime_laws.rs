//! What holds of weapon attribution as a whole.

use crate::attribution::{
    AgreeReason, AttributionKind, AttributionView, Observation, RecordView, WindowView,
};
use crate::lists;
use crate::regime;
use crate::regime::RuntimeView;
use vstd::prelude::*;

verus! {

impl RuntimeView {
    /// A standing mismatch names the declared weapon as declared, another
    /// weapon as evidence, and none the player kept the declared weapon over;
    /// and at least one shot raised it.
    pub open spec fn coherent(self) -> bool {
        match self.mismatch {
            Some(mismatch) => {
                &&& self.declared == Some(mismatch.declared)
                &&& mismatch.evidence != mismatch.declared
                &&& !self.kept.contains(mismatch.evidence)
                &&& mismatch.shots >= 1
            },
            None => true,
        }
    }

    /// Every logged shot was observed at or after this sequence number.
    pub open spec fn logged_since(self, start: int) -> bool {
        forall|i: int| 0 <= i < self.log.len() ==> start <= (#[trigger] self.log[i]).seq
    }
}

/// With a weapon declared, a hit's evidence names a fitting weapon that is
/// neither the declared one nor one the player kept it over, and it is the
/// only fitting weapon beside the declared one; with none declared it is the
/// only fitting weapon at all.
pub proof fn evidence_is_unambiguous(state: RuntimeView, amount: i64, critical: bool, at: int)
    ensures
        ({
            let resolved = state.classified(Observation::Hit { amount, critical }, at);
            match resolved.attribution {
                AttributionView::Evidence { tool, confirmed } => {
                    &&& !confirmed
                    &&& resolved.fits == state.fitting(amount as int, critical)
                    &&& resolved.fits.contains(tool)
                    &&& match state.declared {
                        Some(declared) => {
                            &&& tool != declared
                            &&& !state.kept.contains(tool)
                            &&& resolved.fits.filter(regime::other_than(declared)) =~= seq![tool]
                        },
                        None => resolved.fits =~= seq![tool],
                    }
                },
                _ => true,
            }
        }),
{
    let fits = state.fitting(amount as int, critical);
    if let Some(declared) = state.declared {
        let keep = regime::other_than(declared);
        lists::filter_kept(fits, keep);
        let others = fits.filter(keep);
        if others.len() == 1 {
            assert(keep(others[0]));
            assert(fits.contains(others[0]));
        }
    }
    let resolved = state.classified(Observation::Hit { amount, critical }, at);
    if let AttributionView::Evidence { tool, .. } = resolved.attribution {
        if state.declared is None {
            assert(resolved.fits[0] == tool);
        }
    }
}

/// A hit's evidence always names a carried weapon.
pub proof fn evidence_is_carried(state: RuntimeView, amount: i64, critical: bool, at: int)
    ensures
        ({
            let resolved = state.classified(Observation::Hit { amount, critical }, at);
            match resolved.attribution {
                AttributionView::Evidence { tool, .. } => exists|i: int|
                    0 <= i < state.carried.len() && (#[trigger] state.carried[i]).name == tool
                        && state.carried[i].explains(amount as int, critical),
                _ => true,
            }
        }),
{
    evidence_is_unambiguous(state, amount, critical, at);
    let resolved = state.classified(Observation::Hit { amount, critical }, at);
    if let AttributionView::Evidence { tool, .. } = resolved.attribution {
        let keep = regime::explaining(amount as int, critical);
        lists::filter_kept(state.carried, keep);
        let fitting = state.carried.filter(keep);
        let j = choose|j: int| 0 <= j < resolved.fits.len() && resolved.fits[j] == tool;
        assert(fitting[j].name == tool);
        assert(keep(fitting[j]));
        let i = choose|i: int| 0 <= i < state.carried.len() && state.carried[i] == fitting[j];
        assert(state.carried[i].name == tool);
    }
}

/// Observing keeps the mismatch coherent, whatever is observed.
pub proof fn observing_keeps_coherence(state: RuntimeView, observation: Observation, at: i64)
    requires
        state.coherent(),
    ensures
        state.applied(state.classified(observation, at as int), at).coherent(),
{
    match observation {
        Observation::Hit { amount, critical } => {
            evidence_is_unambiguous(state, amount, critical, at as int);
        },
        Observation::Countered => {},
    }
}

/// A press, a resync, and either decision leave no mismatch standing, so each
/// keeps it coherent.
pub proof fn a_new_belief_ends_the_mismatch(state: RuntimeView, tool: Seq<char>, at: i64)
    ensures
        state.declaring(tool, at).mismatch is None,
        state.floored().mismatch is None,
        state.confirming(at).mismatch is None,
        state.keeping_declared().mismatch is None,
        state.declaring(tool, at).coherent(),
        state.floored().coherent(),
        state.confirming(at).coherent(),
        state.keeping_declared().coherent(),
{
}

/// A press, a resync, and a confirmation start a new regime: nothing logged
/// before them can be reached by a later decision.
pub proof fn a_new_regime_forgets_the_log(state: RuntimeView, tool: Seq<char>, at: i64)
    ensures
        state.declaring(tool, at).log.len() == 0,
        state.floored().log.len() == 0,
        state.mismatch is Some ==> state.confirming(at).log.len() == 0,
        state.declaring(tool, at).kept == Set::<Seq<char>>::empty(),
        state.floored().kept == Set::<Seq<char>>::empty(),
{
}

/// Logged shots stay within their regime as more are remembered.
pub proof fn remembering_stays_in_the_regime(state: RuntimeView, record: RecordView, start: int)
    requires
        state.logged_since(start),
        start <= record.seq,
    ensures
        state.remembering(record).logged_since(start),
{
    let keep = regime::of_kind(AttributionKind::Evidence);
    lists::filter_kept(state.log, keep);
    let after = state.remembering(record);
    assert forall|i: int| 0 <= i < after.log.len() implies start <= (#[trigger] after.log[i]).seq by {
        if i < after.log.len() - 1 && RuntimeView::proves_declared(record) {
            let older = state.log.filter(keep);
            assert(after.log[i] == older[i]);
            assert(state.log.contains(older[i]));
        }
    }
}

/// A decision only reaches shots logged in its own regime, and moves every
/// one of them to one weapon: a confirmation to the evidence weapon, a keep
/// back to the declared one.
pub proof fn decisions_stay_in_their_regime(state: RuntimeView, start: int)
    requires
        state.logged_since(start),
    ensures
        match state.confirmation() {
            Some(decision) => forall|i: int|
                0 <= i < decision.moves.len() ==> {
                    &&& start <= (#[trigger] decision.moves[i]).seq
                    &&& decision.moves[i].to_tool == decision.mismatch.evidence
                    &&& decision.moves[i].record.seq == decision.moves[i].seq
                    &&& state.log.contains(decision.moves[i].record)
                },
            None => state.mismatch is None,
        },
        match state.keep_decision() {
            Some(decision) => forall|i: int|
                0 <= i < decision.moves.len() ==> {
                    &&& start <= (#[trigger] decision.moves[i]).seq
                    &&& decision.moves[i].to_tool == decision.mismatch.declared
                    &&& decision.moves[i].record.seq == decision.moves[i].seq
                    &&& state.log.contains(decision.moves[i].record)
                },
            None => state.mismatch is None,
        },
{
    if let Some(mismatch) = state.mismatch {
        let from = regime::walk_start(state.log, mismatch.evidence);
        regime::walk_in_range(state.log, mismatch.evidence);
        let reach = state.log.skip(from);
        lists::filter_kept(reach, regime::movable(mismatch.evidence));
        let moved = state.confirmed_records(mismatch.evidence);
        assert forall|i: int| 0 <= i < moved.len() implies state.log.contains(#[trigger] moved[i]) by {
            let j = choose|j: int| 0 <= j < reach.len() && reach[j] == moved[i];
            assert(state.log[from + j] == moved[i]);
        }
        lists::filter_kept(state.log, regime::evidence_of(mismatch.evidence));
    }
}

/// A decision only moves shots between states: no observation is added or
/// dropped, no tally turns negative, and either decision moves exactly its
/// listed shots.
pub proof fn decisions_conserve_the_tallies(state: RuntimeView, at: i64)
    requires
        state.wf(),
    ensures
        state.confirming(at).wf(),
        state.keeping_declared().wf(),
        state.confirming(at).counts.total() == state.counts.total(),
        state.keeping_declared().counts.total() == state.counts.total(),
        state.confirming(at).counts.effect_ticks == state.counts.effect_ticks,
        state.keeping_declared().counts.effect_ticks == state.counts.effect_ticks,
        state.keeping_declared().counts.unresolved == state.counts.unresolved,
        match state.confirmation() {
            Some(decision) => state.confirming(at).counts.evidenced == state.counts.evidenced
                + decision.moves.len(),
            None => state.confirming(at) == state,
        },
        match state.keep_decision() {
            Some(decision) => state.keeping_declared().counts.agreed == state.counts.agreed
                + decision.moves.len() && state.keeping_declared().counts.evidenced
                == state.counts.evidenced - decision.moves.len(),
            None => state.keeping_declared() == state,
        },
{
    state.confirming_is_valid(at);
    state.keeping_is_valid();
    assert(state.confirming(at).next_seq == state.next_seq);
    assert(state.keeping_declared().next_seq == state.next_seq);
}

/// A hit an open effect's ticks explain is never priced as a shot.
pub proof fn a_ticking_hit_is_never_priced(
    state: RuntimeView,
    amount: i64,
    critical: bool,
    at: int,
    window: int,
)
    requires
        0 <= window < state.windows.len(),
        state.windows[window].ticks(at, amount as int, critical),
    ensures
        state.classified(Observation::Hit { amount, critical }, at).attribution.priced() is None,
{
    lists::filter_kept(state.windows, regime::ticking(at, amount as int, critical));
    assert(regime::ticking(at, amount as int, critical)(state.windows[window]));
    let ticks = state.ticks(at, amount as int, critical);
    assert(ticks.contains(state.windows[window]));
    assert(ticks.len() > 0);
}

/// A tick carries no price, names its window exactly when one alone explains
/// it, and cites at least one; every window a classification cites was open.
pub proof fn cited_windows_are_open(state: RuntimeView, observation: Observation, at: int)
    ensures
        ({
            let resolved = state.classified(observation, at);
            &&& forall|i: int|
                0 <= i < resolved.windows.len() ==> exists|j: int|
                    0 <= j < state.windows.len() && (#[trigger] state.windows[j]).live(at)
                        && state.windows[j].id == #[trigger] resolved.windows[i]
            &&& match resolved.attribution {
                AttributionView::EffectTick { window_id } => {
                    &&& resolved.windows.len() > 0
                    &&& (window_id is Some <==> resolved.windows.len() == 1)
                    &&& window_id is Some ==> window_id->0 == resolved.windows[0]
                    &&& resolved.attribution.priced() is None
                },
                _ => true,
            }
        }),
{
    let resolved = state.classified(observation, at);
    if let Observation::Hit { amount, critical } = observation {
        let amount = amount as int;
        lists::filter_kept(state.windows, regime::ticking(at, amount, critical));
        assert forall|i: int| 0 <= i < resolved.windows.len() implies exists|j: int|
            0 <= j < state.windows.len() && (#[trigger] state.windows[j]).live(at)
                && state.windows[j].id == #[trigger] resolved.windows[i] by {
            let ticks = state.ticks(at, amount, critical);
            if ticks.len() > 0 {
                assert(resolved.windows =~= regime::ids(ticks));
                assert(regime::ticking(at, amount, critical)(ticks[i]));
                let j = choose|j: int| 0 <= j < state.windows.len() && state.windows[j] == ticks[i];
                assert(state.windows[j].live(at));
            } else {
                let rival = match state.declared {
                    Some(declared) => Some(
                        regime::band_named(state.carried, declared)->0.min as int,
                    ),
                    None => regime::weapon_floor(state.carried, amount),
                };
                let short = state.windows.filter(regime::reaching(at, amount, rival));
                let near = state.nearest(at, amount, rival);
                assert(resolved.windows =~= regime::ids(near));
                lists::filter_kept(short, regime::lowest(short));
                lists::filter_kept(state.windows, regime::reaching(at, amount, rival));
                let k = choose|k: int| 0 <= k < short.len() && short[k] == near[i];
                assert(regime::reaching(at, amount, rival)(short[k]));
                let j = choose|j: int| 0 <= j < state.windows.len() && state.windows[j] == short[k];
                assert(state.windows[j].live(at));
            }
        }
    }
}

/// A hit short of the declared band is only priced when no open effect it is
/// short of has a lower floor.
pub proof fn below_band_needs_no_nearer_effect(
    state: RuntimeView,
    amount: i64,
    critical: bool,
    at: int,
    window: int,
)
    requires
        0 <= window < state.windows.len(),
        state.windows[window].live(at),
        state.windows[window].tick.is_above(amount as int),
    ensures
        match state.classified(Observation::Hit { amount, critical }, at).attribution {
            AttributionView::Agrees { tool, reason: AgreeReason::BelowBand } => {
                let band = regime::band_named(state.carried, tool);
                band is Some && band->0.min <= state.windows[window].tick.min
            },
            _ => true,
        },
{
    if let AttributionView::Agrees { tool, reason: AgreeReason::BelowBand } = state.classified(
        Observation::Hit { amount, critical },
        at,
    ).attribution {
        let band = regime::band_named(state.carried, tool)->0;
        let reach = regime::reaching(at, amount as int, Some(band.min as int));
        if state.windows[window].tick.min < band.min {
            let short = state.windows.filter(reach);
            lists::filter_kept(state.windows, reach);
            assert(reach(state.windows[window]));
            assert(short.contains(state.windows[window]));
            lowest_exists(short);
            lists::filter_kept(short, regime::lowest(short));
            let i = choose|i: int|
                0 <= i < short.len() && regime::lowest(short)(#[trigger] short[i]);
            assert(state.nearest(at, amount as int, Some(band.min as int)).contains(short[i]));
            assert(false);
        }
    }
}

/// Some window of a run has the lowest floor.
proof fn lowest_exists(run: Seq<WindowView>)
    requires
        run.len() > 0,
    ensures
        exists|i: int| 0 <= i < run.len() && regime::lowest(run)(#[trigger] run[i]),
{
    let i = lowest_floor(run);
    assert(regime::lowest(run)(run[i]));
}

proof fn lowest_floor(run: Seq<WindowView>) -> (at: int)
    requires
        run.len() > 0,
    ensures
        0 <= at < run.len(),
        forall|i: int| 0 <= i < run.len() ==> run[at].tick.min <= (#[trigger] run[i]).tick.min,
    decreases run.len(),
{
    if run.len() == 1 {
        0
    } else {
        let rest = run.drop_last();
        let before = lowest_floor(rest);
        let last = run.len() - 1;
        assert(rest[before] == run[before]);
        if run[last].tick.min < run[before].tick.min {
            assert forall|i: int| 0 <= i < run.len() implies run[last].tick.min <= (
            #[trigger] run[i]).tick.min by {
                if i < last {
                    assert(rest[i] == run[i]);
                }
            }
            last
        } else {
            assert forall|i: int| 0 <= i < run.len() implies run[before].tick.min <= (
            #[trigger] run[i]).tick.min by {
                if i < last {
                    assert(rest[i] == run[i]);
                }
            }
            before
        }
    }
}

/// With a weapon declared and no effect ticking, a hit its band holds always
/// agrees with it, whatever else fits; a hit its band does not hold never
/// agrees by fitting.
pub proof fn intent_wins_every_hit_its_band_explains(
    state: RuntimeView,
    amount: i64,
    critical: bool,
    at: int,
)
    requires
        state.declared is Some,
        regime::band_named(state.carried, state.declared->0) is Some,
    ensures
        ({
            let declared = state.declared->0;
            let holds = regime::band_named(state.carried, declared)->0.holds(
                amount as int,
                critical,
            );
            let attribution = state.classified(
                Observation::Hit { amount, critical },
                at,
            ).attribution;
            &&& holds && state.ticks(at, amount as int, critical).len() == 0 ==> attribution
                == (AttributionView::Agrees { tool: declared, reason: AgreeReason::Fits })
            &&& !holds ==> !(attribution matches AttributionView::Agrees {
                reason: AgreeReason::Fits,
                ..
            })
        }),
{
}

/// A countered shot is priced to whatever is being recorded, and is never a
/// tick.
pub proof fn a_countered_shot_inherits_the_recording(state: RuntimeView, at: int)
    ensures
        state.classified(Observation::Countered, at).attribution.priced() == state.recorded(),
        !(state.classified(Observation::Countered, at).attribution is EffectTick),
{
}

/// Once kept, a weapon's evidence does not override the declared weapon for
/// the rest of the regime, and the effects its evidence opened are gone.
pub proof fn keeping_silences_the_evidence(state: RuntimeView)
    requires
        state.mismatch is Some,
    ensures
        state.keeping_declared().kept.contains(state.mismatch->0.evidence),
        forall|i: int|
            0 <= i < state.keeping_declared().windows.len()
                ==> !state.keep_decision()->0.withdrawn.contains(
                (#[trigger] state.keeping_declared().windows[i]).id,
            ),
        forall|i: int|
            0 <= i < state.keeping_declared().log.len() ==> !regime::evidence_of(
                state.mismatch->0.evidence,
            )(#[trigger] state.keeping_declared().log[i]),
{
    let evidence = state.mismatch->0.evidence;
    let withdrawn = regime::opened(state.log.filter(regime::opener_of(evidence)));
    lists::filter_kept(state.windows, regime::not_withdrawn(withdrawn));
    assert forall|i: int| 0 <= i < state.keeping_declared().windows.len() implies !withdrawn.contains(
        (#[trigger] state.keeping_declared().windows[i]).id,
    ) by {
        assert(regime::not_withdrawn(withdrawn)(state.keeping_declared().windows[i]));
    }
}

/// A shot proving the declared weapon bounds the log: everything older that
/// stays is evidence.
pub proof fn a_proof_bounds_the_log(state: RuntimeView, record: RecordView)
    requires
        RuntimeView::proves_declared(record),
    ensures
        state.remembering(record).log.last() == record,
        forall|i: int|
            0 <= i < state.remembering(record).log.len() - 1 ==> (
            #[trigger] state.remembering(record).log[i]).attribution is Evidence,
{
    let keep = regime::of_kind(AttributionKind::Evidence);
    lists::filter_kept(state.log, keep);
    let after = state.remembering(record).log;
    assert forall|i: int| 0 <= i < after.len() - 1 implies (
    #[trigger] after[i]).attribution is Evidence by {
        assert(after[i] == state.log.filter(keep)[i]);
        assert(keep(after[i]));
    }
}

} // verus!
