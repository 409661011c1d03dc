//! What holds of a session as a whole: however shots land, settle, and are
//! decided on, every observation is counted exactly once and every cost is
//! spent once.

use crate::attribution::{AttributionKind, LocationView, Observation, RepriceView};
use crate::combat;
use crate::combat::{PricingView, StampView};
use crate::decision;
use crate::decision::LedgerView;
use crate::evidence::MismatchDecision;
use crate::lists;
use crate::loot;
use crate::loot::LootGroup;
use crate::phases;
use crate::phases::{LoadoutView, PhasesView};
use crate::readout;
use crate::records::KillView;
use crate::regime;
use crate::regime::RuntimeView;
use crate::regime_laws;
use crate::session::{AccumulatorView, ActiveSession};
use crate::units;
use crate::units::Ped;
use vstd::prelude::*;

verus! {

/// A kill's shots are exactly its phases' shots, none of them negative.
pub open spec fn kill_adds_up(kill: KillView) -> bool {
    &&& phases::total_shots(kill.tool_stats) == kill.shots_fired
    &&& forall|i: int|
        0 <= i < kill.tool_stats.len() ==> (#[trigger] kill.tool_stats[i]).1.shots_fired >= 0
}

/// Every observation is counted once: as a shot of a settled kill, as a shot
/// since the last kill, or as an effect tick. Every kill's shots are its
/// phases' shots, and so are the pending ones.
pub open spec fn counted_once(
    kills: Seq<KillView>,
    pending: AccumulatorView,
    runtime: RuntimeView,
) -> bool {
    &&& pending.wf()
    &&& runtime.wf()
    &&& forall|i: int| 0 <= i < kills.len() ==> kill_adds_up(#[trigger] kills[i])
    &&& lists::total(kills, readout::shots_of()) + pending.shots_fired
        + runtime.counts.effect_ticks == runtime.next_seq
}

/// A session that just started has counted nothing.
pub proof fn a_fresh_session_counts_nothing()
    ensures
        counted_once(Seq::empty(), AccumulatorView::empty(), RuntimeView::initial()),
{
    let runtime = RuntimeView::initial();
    assert forall|kind: AttributionKind| #[trigger]
        runtime.logged(kind) == 0 by {
        lists::filter_none(runtime.log, regime::of_kind(kind));
    }
}

/// A combat line counts its observation once, as a shot or as a tick.
pub proof fn a_combat_line_counts_once(
    kills: Seq<KillView>,
    pending: AccumulatorView,
    runtime: RuntimeView,
    stamp: StampView,
    observation: Observation,
    at: i64,
    pricing: PricingView,
    row_id: Seq<char>,
    window_id: Seq<char>,
    after: AccumulatorView,
    next: RuntimeView,
)
    requires
        counted_once(kills, pending, runtime),
        runtime.next_seq < i64::MAX,
        after == combat::accumulated(
            pending,
            runtime,
            stamp,
            observation,
            at,
            runtime.classified(observation, at as int),
            pricing,
            row_id,
        ),
        next == combat::attributed(
            pending,
            runtime,
            observation,
            at,
            runtime.classified(observation, at as int),
            pricing,
            row_id,
            window_id,
        ),
        after.wf(),
        next.wf(),
    ensures
        counted_once(kills, after, next),
        next.next_seq == runtime.next_seq + 1,
{
    runtime.counts_positive();
}

/// A kill settles with every pending shot in it, and none is left pending.
pub proof fn a_settled_kill_takes_every_pending_shot(
    active: ActiveSession,
    group: LootGroup,
    wanted: Seq<bool>,
    now: i64,
    id: Seq<char>,
)
    requires
        counted_once(active.session@.kills, active.accumulator@, active.attribution@),
        active.attribution@.settling(id).wf(),
    ensures
        ({
            let kill = loot::settled_kill(active, group, wanted, now, id);
            &&& kill_adds_up(kill)
            &&& kill.cost_ped == phases::total_cost(kill.tool_stats)
            &&& counted_once(
                active.session@.kills.push(kill),
                AccumulatorView::empty(),
                active.attribution@.settling(id),
            )
        }),
{
    let kills = active.session@.kills;
    let kill = loot::settled_kill(active, group, wanted, now, id);
    lists::total_push(kills, kill, readout::shots_of());
    assert forall|i: int| 0 <= i < kills.push(kill).len() implies kill_adds_up(
        #[trigger] kills.push(kill)[i],
    ) by {
        if i < kills.len() {
            assert(kills.push(kill)[i] == kills[i]);
        }
    }
}

/// What a session's weapons and enhancers cost so far: its kills' costs and
/// what is pending since the last of them.
pub open spec fn spent(kills: Seq<KillView>, pending: AccumulatorView) -> int {
    lists::total(kills, readout::weapon_of()) + lists::total(kills, readout::enhancer_of())
        + phases::total_cost(pending.tool_stats) + pending.enhancer_cost
}

/// A combat line spends what its weapon's shot costs, to the tolerance within
/// which two prices are one; a tick spends nothing.
pub proof fn a_combat_line_spends_its_price(
    kills: Seq<KillView>,
    pending: AccumulatorView,
    runtime: RuntimeView,
    stamp: StampView,
    observation: Observation,
    at: i64,
    pricing: PricingView,
    row_id: Seq<char>,
)
    ensures
        ({
            let resolved = runtime.classified(observation, at as int);
            let after = combat::accumulated(
                pending,
                runtime,
                stamp,
                observation,
                at,
                resolved,
                pricing,
                row_id,
            );
            &&& resolved.attribution is EffectTick ==> spent(kills, after) == spent(kills, pending)
            &&& resolved.attribution.priced() is Some && pricing.price.0 > 0 ==> units::near(
                spent(kills, after) - spent(kills, pending),
                pricing.price.0 as int,
            )
        }),
{
    phases::booking_adds_one_shot(
        pending.tool_stats,
        runtime.classified(observation, at as int).attribution.priced(),
        pricing.price,
        pricing.expected,
        pricing.library,
        observation.size() as int,
        observation.is_critical(),
    );
}

/// Settling a kill spends nothing: what was pending becomes the kill's.
pub proof fn settling_a_kill_spends_nothing(
    active: ActiveSession,
    group: LootGroup,
    wanted: Seq<bool>,
    now: i64,
    id: Seq<char>,
)
    ensures
        ({
            let kill = loot::settled_kill(active, group, wanted, now, id);
            spent(active.session@.kills.push(kill), AccumulatorView::empty()) == spent(
                active.session@.kills,
                active.accumulator@,
            )
        }),
{
    let kills = active.session@.kills;
    let kill = loot::settled_kill(active, group, wanted, now, id);
    lists::total_push(kills, kill, readout::weapon_of());
    lists::total_push(kills, kill, readout::enhancer_of());
}

/// A press re-declares, and counts nothing.
pub proof fn a_press_counts_nothing(
    kills: Seq<KillView>,
    pending: AccumulatorView,
    runtime: RuntimeView,
    tool: Seq<char>,
    at: i64,
)
    requires
        counted_once(kills, pending, runtime),
        runtime.declaring(tool, at).wf(),
        runtime.floored().wf(),
    ensures
        counted_once(kills, pending, runtime.declaring(tool, at)),
        counted_once(kills, pending, runtime.floored()),
{
}

proof fn same_shots(before: Seq<KillView>, after: Seq<KillView>)
    requires
        before.len() == after.len(),
        forall|i: int|
            0 <= i < before.len() ==> (#[trigger] after[i]).shots_fired == before[i].shots_fired,
    ensures
        lists::total(after, readout::shots_of()) == lists::total(before, readout::shots_of()),
    decreases before.len(),
{
    if before.len() > 0 {
        same_shots(before.drop_last(), after.drop_last());
        assert(after[before.len() - 1].shots_fired == before[before.len() - 1].shots_fired);
    }
}

proof fn moves_keep_the_tallies(
    ledger: LedgerView,
    steps: Seq<RepriceView>,
    price: Ped,
    expected: Option<LoadoutView>,
    review_id: Seq<char>,
)
    ensures
        ({
            let after = ledger.all_moved(steps, price, expected, review_id);
            &&& after.runtime.counts == ledger.runtime.counts
            &&& after.runtime.next_seq == ledger.runtime.next_seq
            &&& after.kills.len() == ledger.kills.len()
        }),
    decreases steps.len(),
{
    if steps.len() > 0 {
        moves_keep_the_tallies(ledger, steps.drop_last(), price, expected, review_id);
        let before = ledger.all_moved(steps.drop_last(), price, expected, review_id);
        if let LocationView::Kill(id) = steps.last().record.location {
            decision::last_kill_found(before.kills, id);
        }
    }
}

/// A decision moves shots between weapons, and counts nothing anew: whatever
/// is decided, no shot is added or dropped, in the kills or pending.
pub proof fn a_decision_counts_nothing_anew(
    active: ActiveSession,
    decision: MismatchDecision,
    now: i64,
    price: Ped,
    expected: Option<LoadoutView>,
    review_id: Seq<char>,
    after: AccumulatorView,
)
    requires
        counted_once(active.session@.kills, active.accumulator@, active.attribution@),
        active.attribution@.mismatch is Some,
        active.session@.kills.len() <= usize::MAX,
        ({
            let ledger = decision::closing_ledger(
                active,
                decision,
                now,
                price,
                expected,
                review_id,
            );
            &&& after == (AccumulatorView {
                tool_stats: ledger.pending,
                evidence: ledger.rows,
                ..active.accumulator@
            })
            &&& phases::countable(ledger.pending)
            &&& phases::total_shots(ledger.pending) == active.accumulator@.shots_fired
            &&& ledger.runtime.wf()
        }),
    ensures
        ({
            let ledger = decision::closing_ledger(
                active,
                decision,
                now,
                price,
                expected,
                review_id,
            );
            counted_once(ledger.kills, after, ledger.runtime)
        }),
{
    let (made, decided) = decision::decided(active.attribution@, decision, now);
    let steps = made->0.moves;
    let opening = decision::opening_ledger(active, decided);
    let ledger = decision::closing_ledger(active, decision, now, price, expected, review_id);
    regime_laws::decisions_conserve_the_tallies(active.attribution@, now);
    moves_keep_the_tallies(opening, steps, price, expected, review_id);
    let kills = active.session@.kills;
    assert forall|i: int| 0 <= i < kills.len() implies kill_adds_up(#[trigger] ledger.kills[i])
        && ledger.kills[i].shots_fired == kills[i].shots_fired by {
        assert(kill_adds_up(kills[i]));
        decision::decisions_conserve_every_kill(opening, steps, price, expected, review_id, i);
    }
    same_shots(kills, ledger.kills);
}

/// No phase of the ledger holds a negative number of shots.
pub open spec fn shots_positive(ledger: LedgerView) -> bool {
    &&& forall|i: int|
        0 <= i < ledger.pending.len() ==> (#[trigger] ledger.pending[i]).1.shots_fired >= 0
    &&& forall|i: int, j: int|
        0 <= i < ledger.kills.len() && 0 <= j < ledger.kills[i].tool_stats.len() ==> (
        #[trigger] ledger.kills[i].tool_stats[j]).1.shots_fired >= 0
}

/// What a ledger's weapons cost, settled and pending.
pub open spec fn weapons_spent(ledger: LedgerView) -> int {
    lists::total(ledger.kills, readout::weapon_of()) + phases::total_cost(ledger.pending)
}

/// A decision moves what the session's weapons cost by the cost difference it
/// reports, to the tolerance within which each move compared prices.
pub proof fn a_decision_spends_its_cost_difference(
    ledger: LedgerView,
    steps: Seq<RepriceView>,
    price: Ped,
    expected: Option<LoadoutView>,
    review_id: Seq<char>,
)
    requires
        shots_positive(ledger),
    ensures
        ({
            let after = ledger.all_moved(steps, price, expected, review_id);
            let drift = (weapons_spent(after) - weapons_spent(ledger)) - (after.cost_delta
                - ledger.cost_delta);
            &&& shots_positive(after)
            &&& -(2 * units::SAME_WITHIN * steps.len()) <= drift <= 2 * units::SAME_WITHIN
                * steps.len()
        }),
    decreases steps.len(),
{
    if steps.len() > 0 {
        a_decision_spends_its_cost_difference(
            ledger,
            steps.drop_last(),
            price,
            expected,
            review_id,
        );
        let before = ledger.all_moved(steps.drop_last(), price, expected, review_id);
        one_move_spends_its_difference(before, steps.last(), price, expected, review_id);
    }
}

proof fn one_move_spends_its_difference(
    before: LedgerView,
    step: RepriceView,
    price: Ped,
    expected: Option<LoadoutView>,
    review_id: Seq<char>,
)
    requires
        shots_positive(before),
    ensures
        ({
            let after = before.moved(step, price, expected, review_id);
            let drift = (weapons_spent(after) - weapons_spent(before)) - (after.cost_delta
                - before.cost_delta);
            &&& shots_positive(after)
            &&& -(2 * units::SAME_WITHIN) <= drift <= 2 * units::SAME_WITHIN
        }),
{
    match step.record.location {
        LocationView::Pending => {
            a_moved_shot_keeps_its_price(before.pending, step, price, expected);
        },
        LocationView::Kill(id) => {
            decision::last_kill_found(before.kills, id);
            let at = decision::last_kill(before.kills, id);
            if at >= 0 {
                let kill = before.kills[at];
                a_moved_shot_keeps_its_price(kill.tool_stats, step, price, expected);
                if let Some(tool_stats) = decision::phases_after(
                    kill.tool_stats,
                    step,
                    price,
                    expected,
                ) {
                    let cost_ped = kill.cost_ped + price.0 - step.record.cost.0;
                    let moved = KillView { tool_stats, cost_ped, ..kill };
                    lists::total_update(before.kills, at, moved, readout::weapon_of());
                }
            }
        },
    }
}

/// What a ledger's shots dealt, settled and pending.
pub open spec fn damage_booked(ledger: LedgerView) -> int {
    lists::total(ledger.kills, phase_damage_of()) + phases::total_damage(ledger.pending)
}

/// How many of a ledger's shots were critical, settled and pending.
pub open spec fn criticals_booked(ledger: LedgerView) -> int {
    lists::total(ledger.kills, phase_criticals_of()) + phases::total_criticals(ledger.pending)
}

/// What a kill's phases dealt.
pub open spec fn phase_damage_of() -> spec_fn(KillView) -> int {
    |kill: KillView| phases::total_damage(kill.tool_stats)
}

/// How many of the shots of a kill's phases were critical.
pub open spec fn phase_criticals_of() -> spec_fn(KillView) -> int {
    |kill: KillView| phases::total_criticals(kill.tool_stats)
}

/// The phases a move takes its shot out of, where there are any.
pub open spec fn phases_left(ledger: LedgerView, step: RepriceView) -> PhasesView {
    match step.record.location {
        LocationView::Pending => ledger.pending,
        LocationView::Kill(id) => {
            let at = decision::last_kill(ledger.kills, id);
            if at < 0 {
                Seq::empty()
            } else {
                ledger.kills[at].tool_stats
            }
        },
    }
}

/// Whether no move of a decision makes a phase disappear that still counted a
/// critical: a phase without a shot has none, unless shots were taken out of
/// another phase of their weapon and price than the one they were counted
/// into.
pub open spec fn empties_cleanly(
    ledger: LedgerView,
    steps: Seq<RepriceView>,
    price: Ped,
    expected: Option<LoadoutView>,
    review_id: Seq<char>,
) -> bool
    decreases steps.len(),
{
    steps.len() == 0 || {
        let before = ledger.all_moved(steps.drop_last(), price, expected, review_id);
        let record = steps.last().record;
        &&& empties_cleanly(ledger, steps.drop_last(), price, expected, review_id)
        &&& match phases::emptied(
            phases_left(before, steps.last()),
            record.booked,
            record.cost,
            record.observation.size() as int,
            record.observation.is_critical(),
        ) {
            Some(left) => left.critical_hits == 0,
            None => true,
        }
    }
}

/// A decision conserves the damage over all phases of the kills and of what is
/// pending, to the tolerance within which a phase counts as empty; and the
/// criticals exactly, where no phase disappears with one still counted in it.
pub proof fn a_decision_conserves_damage_and_criticals(
    ledger: LedgerView,
    steps: Seq<RepriceView>,
    price: Ped,
    expected: Option<LoadoutView>,
    review_id: Seq<char>,
)
    requires
        shots_positive(ledger),
    ensures
        ({
            let after = ledger.all_moved(steps, price, expected, review_id);
            let drift = damage_booked(after) - damage_booked(ledger);
            &&& -(units::SAME_WITHIN * steps.len()) <= drift <= units::SAME_WITHIN * steps.len()
            &&& empties_cleanly(ledger, steps, price, expected, review_id) ==> criticals_booked(
                after,
            ) == criticals_booked(ledger)
        }),
    decreases steps.len(),
{
    if steps.len() > 0 {
        let rest = steps.drop_last();
        a_decision_conserves_damage_and_criticals(ledger, rest, price, expected, review_id);
        a_decision_spends_its_cost_difference(ledger, rest, price, expected, review_id);
        let before = ledger.all_moved(rest, price, expected, review_id);
        let step = steps.last();
        match step.record.location {
            LocationView::Pending => {
                a_moved_shot_keeps_its_price(before.pending, step, price, expected);
            },
            LocationView::Kill(id) => {
                decision::last_kill_found(before.kills, id);
                let at = decision::last_kill(before.kills, id);
                if at >= 0 {
                    let kill = before.kills[at];
                    a_moved_shot_keeps_its_price(kill.tool_stats, step, price, expected);
                    if let Some(tool_stats) = decision::phases_after(
                        kill.tool_stats,
                        step,
                        price,
                        expected,
                    ) {
                        let cost_ped = kill.cost_ped + price.0 - step.record.cost.0;
                        let moved = KillView { tool_stats, cost_ped, ..kill };
                        lists::total_update(before.kills, at, moved, phase_damage_of());
                        lists::total_update(before.kills, at, moved, phase_criticals_of());
                    }
                }
            },
        }
    }
}

/// What a decision on a session's mismatch conserves: the damage and, where no
/// phase disappears with one still counted in it, the criticals over all
/// phases; what it reports is how far the weapons' cost moved, and no more
/// shots than the decision lists; and every kill keeps its shots, its cost
/// staying its phases' sum, to the tolerance of the prices compared.
pub proof fn a_decision_conserves_the_session(
    active: ActiveSession,
    decision: MismatchDecision,
    now: i64,
    price: Ped,
    expected: Option<LoadoutView>,
    review_id: Seq<char>,
)
    requires
        counted_once(active.session@.kills, active.accumulator@, active.attribution@),
        active.attribution@.mismatch is Some,
        active.session@.kills.len() <= usize::MAX,
        forall|i: int|
            0 <= i < active.session@.kills.len() ==> (
            #[trigger] active.session@.kills[i]).cost_ped == phases::total_cost(
                active.session@.kills[i].tool_stats,
            ),
    ensures
        ({
            let (made, runtime) = decision::decided(active.attribution@, decision, now);
            let moves = made->0.moves;
            let before = decision::opening_ledger(active, runtime);
            let after = decision::closing_ledger(
                active,
                decision,
                now,
                price,
                expected,
                review_id,
            );
            let slack = units::SAME_WITHIN * moves.len();
            &&& -slack <= damage_booked(after) - damage_booked(before) <= slack
            &&& empties_cleanly(before, moves, price, expected, review_id) ==> criticals_booked(
                after,
            ) == criticals_booked(before)
            &&& -(2 * slack) <= weapons_spent(after) - weapons_spent(before) - after.cost_delta
                <= 2 * slack
            &&& 0 <= after.repriced <= moves.len()
            &&& after.kills.len() == before.kills.len()
            &&& forall|i: int|
                0 <= i < after.kills.len() ==> {
                    let kill = #[trigger] after.kills[i];
                    &&& phases::total_shots(kill.tool_stats) == kill.shots_fired
                    &&& kill.shots_fired == before.kills[i].shots_fired
                    &&& -(2 * slack) <= kill.cost_ped - phases::total_cost(kill.tool_stats) <= 2
                        * slack
                }
        }),
{
    let (made, runtime) = decision::decided(active.attribution@, decision, now);
    let moves = made->0.moves;
    let before = decision::opening_ledger(active, runtime);
    let after = decision::closing_ledger(active, decision, now, price, expected, review_id);
    assert(shots_positive(before)) by {
        assert forall|i: int, j: int|
            0 <= i < before.kills.len() && 0 <= j < before.kills[i].tool_stats.len() implies (
        #[trigger] before.kills[i].tool_stats[j]).1.shots_fired >= 0 by {
            assert(kill_adds_up(active.session@.kills[i]));
        }
    }
    a_decision_spends_its_cost_difference(before, moves, price, expected, review_id);
    a_decision_conserves_damage_and_criticals(before, moves, price, expected, review_id);
    moves_keep_the_tallies(before, moves, price, expected, review_id);
    repriced_within(before, moves, price, expected, review_id);
    assert(2 * units::SAME_WITHIN * moves.len() == 2 * (units::SAME_WITHIN * moves.len()))
        by (nonlinear_arith);
    assert forall|i: int| 0 <= i < after.kills.len() implies ({
        let kill = #[trigger] after.kills[i];
        let slack = units::SAME_WITHIN * moves.len();
        &&& phases::total_shots(kill.tool_stats) == kill.shots_fired
        &&& kill.shots_fired == before.kills[i].shots_fired
        &&& -(2 * slack) <= kill.cost_ped - phases::total_cost(kill.tool_stats) <= 2 * slack
    }) by {
        assert(kill_adds_up(active.session@.kills[i]));
        assert(active.session@.kills[i].cost_ped == phases::total_cost(
            active.session@.kills[i].tool_stats,
        ));
        decision::decisions_conserve_every_kill(before, moves, price, expected, review_id, i);
    }
}

proof fn repriced_within(
    ledger: LedgerView,
    steps: Seq<RepriceView>,
    price: Ped,
    expected: Option<LoadoutView>,
    review_id: Seq<char>,
)
    ensures
        ledger.repriced <= ledger.all_moved(steps, price, expected, review_id).repriced
            <= ledger.repriced + steps.len(),
    decreases steps.len(),
{
    if steps.len() > 0 {
        repriced_within(ledger, steps.drop_last(), price, expected, review_id);
    }
}

proof fn a_moved_shot_keeps_its_price(
    list: PhasesView,
    step: RepriceView,
    price: Ped,
    expected: Option<LoadoutView>,
)
    requires
        forall|i: int| 0 <= i < list.len() ==> (#[trigger] list[i]).1.shots_fired >= 0,
    ensures
        match decision::phases_after(list, step, price, expected) {
            Some(after) => {
                &&& forall|i: int| 0 <= i < after.len() ==> (#[trigger] after[i]).1.shots_fired >= 0
                &&& -2 * units::SAME_WITHIN < phases::total_cost(after) - phases::total_cost(list)
                    - (price.0 - step.record.cost.0) < 2 * units::SAME_WITHIN
                &&& units::near(phases::total_damage(after), phases::total_damage(list))
                &&& phases::total_criticals(after) == phases::total_criticals(list) - (
                match phases::emptied(
                    list,
                    step.record.booked,
                    step.record.cost,
                    step.record.observation.size() as int,
                    step.record.observation.is_critical(),
                ) {
                    Some(left) => left.critical_hits,
                    None => 0,
                })
            },
            None => true,
        },
{
    phases::moving_conserves_the_shots(
        list,
        step.record.booked,
        step.record.cost,
        step.record.observation.size() as int,
        step.record.observation.is_critical(),
        step.to_tool,
        price,
        expected,
    );
}

} // verus!
