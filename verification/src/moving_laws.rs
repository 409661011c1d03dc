//! What a decision on a weapon mismatch moves, shot by shot, and what the log
//! remembers for it.

use crate::attribution::{
    AgreeReason, AttributionKind, AttributionView, LocationView, MismatchView, Observation,
    RecordView, RepriceView,
};
use crate::lists;
use crate::regime;
use crate::regime::RuntimeView;
use crate::units::Ped;
use vstd::prelude::*;

verus! {

/// A state with one more shot in its log.
pub open spec fn with_logged(state: RuntimeView, record: RecordView) -> RuntimeView {
    RuntimeView { log: state.log.push(record), ..state }
}

/// What one more logged shot changes about a confirmation. A hit the declared
/// weapon fits and the evidence does not, a previous weapon's shot in flight
/// and a shot the player kept prove that the switch came later: nothing up to
/// them moves. Any other agreeing shot moves, whether countered, short of every
/// band, without a band or fitting both; so does an unresolved shot that was
/// countered, or that the evidence fits and no open effect explains. Evidence
/// and ticks stay.
pub proof fn one_logged_shot_more_confirms(
    state: RuntimeView,
    mismatch: MismatchView,
    record: RecordView,
)
    requires
        state.mismatch == Some(mismatch),
    ensures
        ({
            let before = state.confirmation()->0.moves;
            let after = with_logged(state, record).confirmation()->0.moves;
            let moved = before.push(
                RepriceView { seq: record.seq, to_tool: mismatch.evidence, record },
            );
            match record.attribution {
                AttributionView::Agrees { reason: AgreeReason::Fits, .. } => after == (
                if record.fits.contains(mismatch.evidence) {
                    moved
                } else {
                    Seq::empty()
                }),
                AttributionView::Agrees { reason: AgreeReason::InFlight, .. } => after.len() == 0,
                AttributionView::Agrees { reason: AgreeReason::Kept, .. } => after.len() == 0,
                AttributionView::Agrees { reason: AgreeReason::BelowBand, .. } => after == moved,
                AttributionView::Agrees { reason: AgreeReason::Countered, .. } => after == moved,
                AttributionView::Agrees { reason: AgreeReason::Unvalidated, .. } => after == moved,
                AttributionView::Unresolved => after == (if record.observation == (
                    Observation::Countered) || (record.windows.len() == 0 && record.fits.contains(
                    mismatch.evidence,
                )) {
                    moved
                } else {
                    before
                }),
                AttributionView::Evidence { .. } => after == before,
                AttributionView::EffectTick { .. } => after == before,
            }
        }),
{
    let evidence = mismatch.evidence;
    let log = state.log;
    let more = log.push(record);
    let start = regime::walk_start(log, evidence);
    regime::walk_in_range(log, evidence);
    assert(more.drop_last() =~= log);
    let keep = regime::movable(evidence);
    if regime::bounds_walk(record, evidence) {
        assert(more.skip(more.len() as int) =~= Seq::empty());
        lists::filter_none(more, keep);
    } else {
        assert(more.skip(start) =~= log.skip(start).push(record));
        lists::filter_push(log.skip(start), record, keep);
    }
    let before = state.confirmation()->0.moves;
    let after = with_logged(state, record).confirmation()->0.moves;
    if !regime::bounds_walk(record, evidence) && keep(record) {
        assert(after =~= before.push(RepriceView { seq: record.seq, to_tool: evidence, record }));
    } else if regime::bounds_walk(record, evidence) {
        assert(after =~= Seq::empty());
    } else {
        assert(after =~= before);
    }
}

/// With nothing logged a confirmation moves nothing, and a confirmation is made
/// exactly where a mismatch stands.
pub proof fn an_empty_log_confirms_nothing(state: RuntimeView)
    requires
        state.log.len() == 0,
    ensures
        (state.confirmation() is Some) == (state.mismatch is Some),
        state.mismatch is Some ==> state.confirmation()->0.moves.len() == 0
            && state.confirmation()->0.mismatch == state.mismatch->0
            && state.confirmation()->0.withdrawn.len() == 0,
{
    if let Some(mismatch) = state.mismatch {
        assert(state.log.skip(0) =~= Seq::empty());
        lists::filter_none(state.log, regime::movable(mismatch.evidence));
    }
}

/// Shots that agreed as countered, short of every band or without a band, and
/// evidence among them, hold no proof: every one of the agreeing shots moves,
/// in the order they were logged.
pub proof fn shots_without_a_proof_all_move(state: RuntimeView, mismatch: MismatchView)
    requires
        state.mismatch == Some(mismatch),
        forall|i: int|
            0 <= i < state.log.len() ==> (match (#[trigger] state.log[i]).attribution {
                AttributionView::Agrees { reason, .. } => reason == AgreeReason::Countered
                    || reason == AgreeReason::BelowBand || reason == AgreeReason::Unvalidated,
                AttributionView::Evidence { .. } => true,
                _ => false,
            }),
    ensures
        ({
            let moves = state.confirmation()->0.moves;
            let agreeing = state.log.filter(|record: RecordView| record.attribution is Agrees);
            &&& moves.len() == agreeing.len()
            &&& forall|i: int|
                0 <= i < moves.len() ==> (#[trigger] moves[i]).record == agreeing[i]
                    && moves[i].to_tool == mismatch.evidence && moves[i].seq == agreeing[i].seq
        }),
    decreases state.log.len(),
{
    let keep = |record: RecordView| record.attribution is Agrees;
    if state.log.len() == 0 {
        an_empty_log_confirms_nothing(state);
        lists::filter_none(state.log, keep);
        assert(state.log =~= Seq::empty());
    } else {
        let last = state.log.last();
        let earlier = RuntimeView { log: state.log.drop_last(), ..state };
        assert(state.log[state.log.len() - 1] == last);
        assert(with_logged(earlier, last).log =~= state.log);
        assert(with_logged(earlier, last) == state);
        assert forall|i: int| 0 <= i < earlier.log.len() implies (match (
        #[trigger] earlier.log[i]).attribution {
            AttributionView::Agrees { reason, .. } => reason == AgreeReason::Countered || reason
                == AgreeReason::BelowBand || reason == AgreeReason::Unvalidated,
            AttributionView::Evidence { .. } => true,
            _ => false,
        }) by {
            assert(earlier.log[i] == state.log[i]);
        }
        shots_without_a_proof_all_move(earlier, mismatch);
        one_logged_shot_more_confirms(earlier, mismatch, last);
        lists::filter_push(earlier.log, last, keep);
        assert(state.log =~= earlier.log.push(last));
    }
}

/// What one more logged shot changes about keeping the declared weapon:
/// evidence of the mismatch's weapon moves back to the declared one, and the
/// effect it opened is taken back; nothing else moves.
pub proof fn one_logged_shot_more_keeps(
    state: RuntimeView,
    mismatch: MismatchView,
    record: RecordView,
)
    requires
        state.mismatch == Some(mismatch),
    ensures
        ({
            let before = state.keep_decision()->0;
            let after = with_logged(state, record).keep_decision()->0;
            let against = match record.attribution {
                AttributionView::Evidence { tool, .. } => tool == mismatch.evidence,
                _ => false,
            };
            &&& after.mismatch == mismatch
            &&& after.moves == (if against {
                before.moves.push(
                    RepriceView { seq: record.seq, to_tool: mismatch.declared, record },
                )
            } else {
                before.moves
            })
            &&& after.withdrawn == (if against && record.opened_window is Some {
                before.withdrawn.push(record.opened_window->0)
            } else {
                before.withdrawn
            })
            &&& with_logged(state, record).keeping_declared().log
                == state.keeping_declared().log.push(
                (if against {
                    RecordView {
                        attribution: AttributionView::Agrees {
                            tool: mismatch.declared,
                            reason: AgreeReason::Kept,
                        },
                        opened_window: None,
                        ..record
                    }
                } else {
                    record
                }),
            )
        }),
{
    let more = with_logged(state, record);
    let keep = regime::evidence_of(mismatch.evidence);
    let opener = regime::opener_of(mismatch.evidence);
    lists::filter_push(state.log, record, keep);
    lists::filter_push(state.log, record, opener);
    let before = state.keep_decision()->0;
    let after = more.keep_decision()->0;
    if keep(record) {
        assert(after.moves =~= before.moves.push(
            RepriceView { seq: record.seq, to_tool: mismatch.declared, record },
        ));
    }
    if opener(record) {
        assert(after.withdrawn =~= before.withdrawn.push(record.opened_window->0));
    }
    assert(more.keeping_declared().log =~= state.keeping_declared().log.push(
        (if keep(record) {
            regime::kept_for(record, mismatch.declared)
        } else {
            record
        }),
    ));
}

/// With nothing logged keeping moves and takes back nothing.
pub proof fn an_empty_log_keeps_nothing(state: RuntimeView)
    requires
        state.log.len() == 0,
    ensures
        (state.keep_decision() is Some) == (state.mismatch is Some),
        state.mismatch is Some ==> state.keep_decision()->0.moves.len() == 0
            && state.keep_decision()->0.withdrawn.len() == 0,
        state.keeping_declared().log.len() == 0,
{
    if let Some(mismatch) = state.mismatch {
        assert(state.log =~= Seq::empty());
        lists::filter_none(state.log, regime::evidence_of(mismatch.evidence));
        lists::filter_none(state.log, regime::opener_of(mismatch.evidence));
    }
}

/// What a confirmation leaves: the evidence weapon is declared, the weapon
/// declared before may still have a shot in flight, no mismatch stands, nothing
/// is kept or logged, and only the tallies of the moved shots changed.
pub proof fn confirming_declares_the_evidence(state: RuntimeView, mismatch: MismatchView, at: i64)
    requires
        state.wf(),
        state.mismatch == Some(mismatch),
    ensures
        ({
            let after = state.confirming(at);
            let moved = state.confirmation()->0.moves.len();
            &&& after.declared == Some(mismatch.evidence)
            &&& after.previous == (match state.declared {
                Some(tool) => if tool == mismatch.evidence {
                    None
                } else {
                    Some((tool, at))
                },
                None => None,
            })
            &&& after.recording is None
            &&& after.mismatch is None
            &&& after.log.len() == 0
            &&& forall|tool: Seq<char>| !#[trigger] after.kept.contains(tool)
            &&& after.carried == state.carried
            &&& after.windows == state.windows
            &&& after.next_seq == state.next_seq
            &&& after.counts.evidenced == state.counts.evidenced + moved
            &&& after.counts.agreed + after.counts.unresolved + moved == state.counts.agreed
                + state.counts.unresolved
            &&& after.counts.agreed <= state.counts.agreed
            &&& after.counts.unresolved <= state.counts.unresolved
            &&& after.counts.effect_ticks == state.counts.effect_ticks
        }),
{
    state.confirming_is_valid(at);
}

/// What keeping the declared weapon leaves: it stays declared, no mismatch
/// stands, the weapon is kept beside those already kept, the windows its shots
/// opened are gone and every other window stays, and the moved shots are
/// tallied as agreeing.
pub proof fn keeping_stays_with_the_declared(
    state: RuntimeView,
    mismatch: MismatchView,
    tool: Seq<char>,
    at: int,
)
    requires
        state.wf(),
        state.mismatch == Some(mismatch),
    ensures
        ({
            let after = state.keeping_declared();
            let decision = state.keep_decision()->0;
            &&& after.declared == state.declared
            &&& after.previous == state.previous
            &&& after.recording == state.recording
            &&& after.carried == state.carried
            &&& after.next_seq == state.next_seq
            &&& after.mismatch is None
            &&& after.log.len() == state.log.len()
            &&& after.kept.contains(tool) == (tool == mismatch.evidence || state.kept.contains(
                tool,
            ))
            &&& forall|i: int|
                0 <= i < state.windows.len() && !decision.withdrawn.contains(
                    (#[trigger] state.windows[i]).id,
                ) ==> after.windows.contains(state.windows[i])
            &&& forall|i: int|
                0 <= i < after.windows.len() ==> state.windows.contains(
                    #[trigger] after.windows[i],
                ) && !decision.withdrawn.contains(after.windows[i].id)
            &&& after.counts.agreed == state.counts.agreed + decision.moves.len()
            &&& after.counts.evidenced == state.counts.evidenced - decision.moves.len()
            &&& after.counts.unresolved == state.counts.unresolved
            &&& after.counts.effect_ticks == state.counts.effect_ticks
        }),
{
    state.keeping_is_valid();
    let decision = state.keep_decision()->0;
    lists::filter_kept(state.windows, regime::not_withdrawn(decision.withdrawn));
}

/// What the log remembers: the shot last, after every earlier one, or after the
/// evidence alone where the shot proves the declared weapon, being a hit it
/// fits and no other does.
pub proof fn a_proof_forgets_all_but_evidence(state: RuntimeView, record: RecordView)
    ensures
        ({
            let after = state.remembering(record).log;
            let proves = match record.attribution {
                AttributionView::Agrees { reason, .. } => reason == AgreeReason::Fits
                    && record.fits.len() == 1,
                _ => false,
            };
            &&& after.len() > 0
            &&& after.last() == record
            &&& after.drop_last() == (if proves {
                state.log.filter(|older: RecordView| older.attribution is Evidence)
            } else {
                state.log
            })
        }),
{
    let after = state.remembering(record).log;
    let evidence = |older: RecordView| older.attribution is Evidence;
    assert(regime::of_kind(AttributionKind::Evidence) =~= evidence);
    assert(after.drop_last() =~= (if RuntimeView::proves_declared(record) {
        state.log.filter(evidence)
    } else {
        state.log
    }));
}

/// A kill takes every shot still pending, and no shot of an earlier kill;
/// nothing else about a logged shot changes.
pub proof fn a_kill_takes_the_pending_shots(state: RuntimeView, kill: Seq<char>, at: int)
    requires
        0 <= at < state.log.len(),
    ensures
        ({
            let after = state.settling(kill);
            &&& after.log.len() == state.log.len()
            &&& after.log[at] == (RecordView {
                location: match state.log[at].location {
                    LocationView::Pending => LocationView::Kill(kill),
                    LocationView::Kill(earlier) => LocationView::Kill(earlier),
                },
                ..state.log[at]
            })
            &&& (RuntimeView { log: state.log, ..after }) == state
        }),
{
}

/// Booking a logged shot anew changes what it is booked under and what it cost,
/// of the first shot with its number and of no other.
pub proof fn rebooking_changes_one_shot(
    state: RuntimeView,
    seq: u64,
    tool: Seq<char>,
    cost: Ped,
    at: int,
)
    requires
        0 <= at < state.log.len(),
    ensures
        ({
            let after = state.rebooking(seq, tool, cost);
            let first = state.log[at].seq == seq && forall|i: int|
                0 <= i < at ==> (#[trigger] state.log[i]).seq != seq;
            &&& after.log.len() == state.log.len()
            &&& after.log[at] == (if first {
                RecordView { booked: Some(tool), cost, ..state.log[at] }
            } else {
                state.log[at]
            })
            &&& (RuntimeView { log: state.log, ..after }) == state
        }),
{
    position_is_first(state.log, seq);
    let place = regime::position(state.log, seq);
    if place < state.log.len() {
        assert(state.log[place].seq == seq);
    }
}

proof fn position_is_first(log: Seq<RecordView>, seq: u64)
    ensures
        0 <= regime::position(log, seq) <= log.len(),
        regime::position(log, seq) < log.len() ==> log[regime::position(log, seq)].seq == seq,
        forall|i: int| 0 <= i < regime::position(log, seq) ==> (#[trigger] log[i]).seq != seq,
    decreases log.len(),
{
    if log.len() > 0 && log[0].seq != seq {
        let rest = log.skip(1);
        position_is_first(rest, seq);
        assert forall|i: int| 0 <= i < regime::position(log, seq) implies (#[trigger] log[i]).seq
            != seq by {
            if i > 0 {
                assert(log[i] == rest[i - 1]);
            }
        }
    }
}

/// Marking a logged shot notes the window it opened, on the first shot with its
/// number and on no other.
pub proof fn marking_changes_one_shot(state: RuntimeView, seq: u64, window: Seq<char>, at: int)
    requires
        0 <= at < state.log.len(),
    ensures
        ({
            let after = state.marking(seq, window);
            let first = state.log[at].seq == seq && forall|i: int|
                0 <= i < at ==> (#[trigger] state.log[i]).seq != seq;
            &&& after.log.len() == state.log.len()
            &&& after.log[at] == (if first {
                RecordView { opened_window: Some(window), ..state.log[at] }
            } else {
                state.log[at]
            })
            &&& (RuntimeView { log: state.log, ..after }) == state
        }),
{
    position_is_first(state.log, seq);
    let place = regime::position(state.log, seq);
    if place < state.log.len() {
        assert(state.log[place].seq == seq);
    }
}

} // verus!
