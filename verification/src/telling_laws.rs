//! What the tracker says: the words it stores, the reasons it gives for naming a
//! weapon, and what a read and a decision carry.

use crate::activities;
use crate::aggregate;
use crate::aggregate::SessionAggregate;
use crate::attribution::{AttributionView, Observation, WindowView};
use crate::combat;
use crate::combat::PricingView;
use crate::decision;
use crate::decision::PreparedDecision;
use crate::doses::DoseView;
use crate::effects;
use crate::effects::EffectActivation;
use crate::evidence::MismatchDecision;
use crate::healing::HealingState;
use crate::intervals;
use crate::intervals::IntervalKind;
use crate::lists;
use crate::loot::GlobalKind;
use crate::phases::LoadoutView;
use crate::regime;
use crate::regime::RuntimeView;
use crate::session::{AccumulatorView, ActiveSession, HeldItem, HotbarItemKind, SessionState};
use crate::steps;
use crate::steps::{SessionReason, StartStep};
use crate::text;
use crate::units::Ped;
use vstd::prelude::*;

verus! {

/// The words that events, decisions, states and reasons are stored and told by.
pub proof fn the_stored_words()
    ensures
        GlobalKind::GlobalKill.word() == "global_kill"@,
        GlobalKind::HofKill.word() == "hof_kill"@,
        GlobalKind::GlobalItem.word() == "global_item"@,
        GlobalKind::HofItem.word() == "hof_item"@,
        GlobalKind::HofKill.is_hof() && GlobalKind::HofItem.is_hof(),
        !GlobalKind::GlobalKill.is_hof() && !GlobalKind::GlobalItem.is_hof(),
        MismatchDecision::Confirm.word() == "confirmed"@,
        MismatchDecision::Keep.word() == "kept"@,
        HealingState::Effect.word() == "effect"@,
        HealingState::Cooldown.word() == "cooldown"@,
        HealingState::Ready.word() == "ready"@,
        HealingState::Passive.word() == "passive"@,
        SessionReason::Started.word() == "started"@,
        SessionReason::Stopped.word() == "stopped"@,
        IntervalKind::Modifier.word() == "modifier"@,
        IntervalKind::Segment.word() == "segment"@,
        IntervalKind::Quest.word() == "quest"@,
        IntervalKind::Consumable.word() == "consumable"@,
        IntervalKind::Protection.word() == "protection"@,
{
}

/// Why an undeclared hit was taken as it was: the one weapon that fits, the open
/// effect that ticked, or what keeps it unresolved.
pub proof fn an_undeclared_hit_gives_its_reason(
    state: RuntimeView,
    amount: i64,
    critical: bool,
    at: int,
)
    requires
        state.declared is None,
    ensures
        ({
            let resolved = state.classified(Observation::Hit { amount, critical }, at);
            let fits = state.fitting(amount as int, critical);
            let ticks = state.ticks(at, amount as int, critical);
            &&& resolved.attribution is Evidence ==> resolved.reason == "fits only "@ + fits[0]
            &&& resolved.attribution is Unresolved && ticks.len() == 0 && fits.len() > 1
                ==> resolved.reason == "fits several carried weapons"@
            &&& resolved.attribution is Unresolved && ticks.len() == 0 && fits.len() == 0
                ==> resolved.reason == "fits no carried weapon"@
            &&& resolved.attribution is EffectTick && ticks.len() == 1 ==> resolved.reason
                == "a tick of an open effect"@
            &&& resolved.attribution is EffectTick && ticks.len() > 1 ==> resolved.reason
                == "a tick of an open effect"@ + "; several open effects explain it"@
            &&& resolved.attribution is EffectTick && ticks.len() == 0 && resolved.windows.len()
                == 1 ==> resolved.reason == "short of every band, nearest an open effect's ticks"@
        }),
{
}

/// Why a hit with a weapon declared was taken as it was; agreeing gives no
/// reason.
pub proof fn a_declared_hit_gives_its_reason(
    state: RuntimeView,
    declared: Seq<char>,
    amount: i64,
    critical: bool,
    at: int,
)
    requires
        state.declared == Some(declared),
    ensures
        ({
            let resolved = state.classified(Observation::Hit { amount, critical }, at);
            let ticks = state.ticks(at, amount as int, critical);
            &&& resolved.attribution is Agrees ==> resolved.reason.len() == 0
            &&& match resolved.attribution {
                AttributionView::Evidence { tool, .. } => resolved.reason == "fits only "@ + tool
                    + ", not the hotbar's "@ + declared,
                _ => true,
            }
            &&& resolved.attribution is Unresolved && ticks.len() == 0 ==> resolved.reason
                == "exceeds every carried weapon's reach"@ || resolved.reason
                == "fits several carried weapons other than the hotbar's"@
        }),
{
}

/// What a contested hit's reason names: the weapon, and the owners of the open
/// effects, each once and in their order of names.
pub proof fn a_contest_names_its_rivals(
    windows: Seq<WindowView>,
    fits: Seq<Seq<char>>,
    rival: Seq<char>,
)
    ensures
        regime::concurrent_with(windows, fits, rival).reason == "fits "@ + rival
            + " and a tick of the open "@ + text::join_spec(
            text::sorted_names(Seq::new(windows.len(), |i: int| windows[i].tool)),
            " and "@,
        ) + " effect"@,
{
    assert(regime::owners(windows) =~= Seq::new(windows.len(), |i: int| windows[i].tool));
}

/// Why a countered shot was taken as it was.
pub proof fn a_countered_shot_gives_its_reason(state: RuntimeView, at: int)
    ensures
        ({
            let resolved = state.classified(Observation::Countered, at);
            match resolved.attribution {
                AttributionView::Evidence { tool, .. } => resolved.reason
                    == "a countered shot while "@ + tool + " is recorded"@,
                AttributionView::Agrees { .. } => resolved.reason.len() == 0,
                _ => resolved.reason == "a countered shot with no weapon known"@,
            }
        }),
{
}

/// A read shows the session it is of: its id and start, the whole seconds since,
/// its name and definition, the creature declared, the modifier in force as
/// whole percents, what stands and what warns.
pub proof fn a_read_shows_its_session(read: SessionAggregate, active: ActiveSession, now: i64)
    requires
        read.shows(active, now),
    ensures
        read.session_id@ == active.session@.id,
        read.started_at == active.session@.start_time,
        now >= active.session@.start_time ==> read.elapsed * 1_000_000_000 <= now
            - active.session@.start_time < (read.elapsed + 1) * 1_000_000_000,
        (read.mob_name is Some) == (active.declared_mob is Some
            && active.declared_mob->0.name@.len() > 0),
        read.mob_name is Some ==> read.mob_name->0@ == active.declared_mob->0.name@,
        (read.session_name is Some) == (active.facets@.name is Some),
        read.session_name is Some ==> read.session_name->0@ == active.facets@.name->0,
        read.definition_id == active.facets@.definition_id,
        read.track_protection_costs == active.facets@.track_protection_costs,
        (read.skill_boost_percent is Some) == (active.intervals@.modifier() is Some),
        read.skill_boost_percent is Some ==> read.skill_boost_percent->0
            == activities::whole_percent(active.intervals@.modifier()->0 as int),
        text::views(read.active_activities@) == activities::standing_activities(active.intervals@),
        (read.guardrail_mismatch is Some) == (active.guardrail_mismatch is Some),
        (read.weapon_mismatch is Some) == (active.attribution@.mismatch is Some),
        read.weapon_mismatch is Some ==> read.weapon_mismatch->0@ == active.attribution@.mismatch->0,
        read.unpriced_shots == active.attribution@.counts.unresolved,
        text::views(read.warnings@) == text::views(active.warnings@),
        read.healing.of(active.healing, now),
{
}

/// The tool in hand is what is held, whatever the session believes; with
/// nothing held, the weapon the session records; without a session, none.
pub proof fn the_tool_in_hand_is_what_is_held(session: SessionState, held: Option<HeldItem>)
    ensures
        ({
            let tool = aggregate::tool_in_hand(session, held);
            &&& held is Some ==> tool == Some((held->0.name@, held->0.kind))
            &&& held is None && session is Idle ==> tool is None
            &&& held is None ==> (match session {
                SessionState::Active(active) => match active.attribution@.recorded() {
                    Some(name) => tool == Some((name, HotbarItemKind::Weapon)),
                    None => tool is None,
                },
                SessionState::Idle => true,
            })
        }),
{
}

/// An item is in hand where the one held has its name and its kind.
pub proof fn in_hand_is_by_name_and_kind(item: HeldItem, name: Seq<char>, kind: HotbarItemKind)
    ensures
        !combat::holds(None, name, kind),
        combat::holds(Some(item), name, kind) <==> item.name@ == name && item.kind == kind,
{
}

/// A start first stops what runs; with nothing running it begins.
pub proof fn a_start_stops_what_runs(state: SessionState)
    ensures
        state is Active ==> StartStep::of(state) == StartStep::StopFirst,
        state is Idle ==> StartStep::of(state) == StartStep::Begin,
{
}

/// A dose that ended closes its interval, at its own end, where that interval
/// still stands in the running session; the endings are told in the order of
/// the doses.
pub proof fn an_ended_dose_closes_its_interval(
    ended: Seq<DoseView>,
    dose: DoseView,
    state: SessionState,
)
    ensures
        ({
            let before = steps::endings_of(ended, state);
            let after = steps::endings_of(ended.push(dose), state);
            let stands = match state {
                SessionState::Active(active) => dose.interval_id is Some && exists|i: int|
                    0 <= i < active.intervals@.open.len() && (
                    #[trigger] active.intervals@.open[i]).id == dose.interval_id->0,
                SessionState::Idle => false,
            };
            &&& steps::endings_of(Seq::empty(), state).len() == 0
            &&& stands ==> after == before.push((dose.interval_id->0, dose.ends_at()))
            &&& !stands ==> after == before
        }),
{
    assert(ended.push(dose).drop_last() =~= ended);
    if let SessionState::Active(active) = state {
        let open = active.intervals@.open;
        let ids = intervals::interval_ids(open);
        if let Some(id) = dose.interval_id {
            if ids.contains(id) {
                let i = choose|i: int| 0 <= i < ids.len() && ids[i] == id;
                assert(open[i].id == id);
            }
            if exists|i: int| 0 <= i < open.len() && (#[trigger] open[i]).id == id {
                let i = choose|i: int| 0 <= i < open.len() && (#[trigger] open[i]).id == id;
                assert(ids[i] == id);
            }
        }
    }
}

/// The doses that ended, in the order they ended: all of them, and no others.
pub proof fn ended_doses_come_in_order(running: Seq<DoseView>, now: i64)
    ensures
        ({
            let over = steps::over_in_order(running, now);
            &&& over.to_multiset() == running.filter(
                |dose: DoseView| dose.ends_at() <= now,
            ).to_multiset()
            &&& forall|i: int, j: int|
                0 <= i <= j < over.len() ==> (#[trigger] over[i]).ends_at() <= (
                #[trigger] over[j]).ends_at()
        }),
{
    let by = |dose: DoseView| dose.ends_at() <= now;
    let key = crate::doses::end_of();
    assert(crate::doses::over_by(now) =~= by);
    lists::ordering_only_interleaves(running.filter(by), key, key, 0);
    let over = steps::over_in_order(running, now);
    assert forall|i: int, j: int| 0 <= i <= j < over.len() implies (#[trigger] over[i]).ends_at()
        <= (#[trigger] over[j]).ends_at() by {
        assert(key(over[i]) <= key(over[j]));
    }
}

/// A shot opens its weapon's effect where it is a hit that a carried weapon with
/// one is priced for: the window starts with the shot, lasts as the effect does,
/// and stands behind those still live. No other shot opens one, and a tick does
/// not.
pub proof fn a_priced_hit_opens_its_window(
    accumulator: AccumulatorView,
    runtime: RuntimeView,
    observation: Observation,
    at: i64,
    pricing: PricingView,
    row_id: Seq<char>,
    window_id: Seq<char>,
)
    requires
        effects::ends_in_range(runtime, at),
    ensures
        ({
            let resolved = runtime.classified(observation, at as int);
            let after = combat::attributed(
                accumulator,
                runtime,
                observation,
                at,
                resolved,
                pricing,
                row_id,
                window_id,
            );
            let tool = match resolved.attribution {
                AttributionView::Agrees { tool, .. } => Some(tool),
                AttributionView::Evidence { tool, .. } => Some(tool),
                _ => None,
            };
            let weapon = if tool is Some {
                regime::named(runtime.carried, tool->0)
            } else {
                None
            };
            let opens = observation is Hit && weapon is Some && weapon->0.effect is Some;
            let live = runtime.windows.filter(
                |window: WindowView| at <= window.expires_at + 1_250_000_000,
            );
            &&& combat::opened_window(runtime, resolved, observation) == opens
            &&& !opens ==> after.windows == live
            &&& opens ==> {
                let window = after.windows.last();
                &&& after.windows == live.push(window)
                &&& window.id == window_id
                &&& window.tool == weapon->0.name
                &&& window.equipment_id == Some(weapon->0.equipment_id)
                &&& window.started_at == at
                &&& window.expires_at == at + weapon->0.effect->0.duration
                &&& window.tick.min == weapon->0.effect->0.tick_min
                &&& window.tick.max == weapon->0.effect->0.tick_max
            }
            &&& resolved.attribution is EffectTick ==> after.log == runtime.log
            &&& !(resolved.attribution is EffectTick) ==> after.log.last().opened_window == (
            if opens {
                Some(window_id)
            } else {
                None
            })
        }),
{
    assert(regime::lasting(at as int) =~= (|window: WindowView|
        at <= window.expires_at + 1_250_000_000));
    let resolved = runtime.classified(observation, at as int);
    if let Some(tool) = resolved.attribution.priced() {
        carried_where_named(runtime.carried, tool);
        if let Some(weapon) = regime::named(runtime.carried, tool) {
            let i = choose|i: int| 0 <= i < runtime.carried.len() && runtime.carried[i] == weapon;
            assert(runtime.carried[i] == weapon);
        }
    }
}

proof fn carried_where_named(carried: Seq<crate::attribution::WeaponView>, tool: Seq<char>)
    ensures
        regime::named(carried, tool) is Some ==> carried.contains(regime::named(carried, tool)->0),
    decreases carried.len(),
{
    if carried.len() > 0 && carried[0].name != tool {
        let rest = carried.skip(1);
        carried_where_named(rest, tool);
        if regime::named(rest, tool) is Some {
            let found = regime::named(rest, tool)->0;
            let i = choose|i: int| 0 <= i < rest.len() && rest[i] == found;
            assert(carried[i + 1] == found);
        }
    }
}

/// What is stored of an effect that a shot opened: its window, the hit that
/// opened it, what the shot cost, and the session it belongs to.
pub proof fn an_opened_effect_is_stored_with_its_shot(
    activation: EffectActivation,
    active: ActiveSession,
    observation: Observation,
    at: i64,
    pricing: PricingView,
    window_id: Seq<char>,
)
    requires
        combat::effect_of_shot(activation, active, observation, at, pricing, window_id),
    ensures
        activation.window@.id == window_id,
        activation.window@.started_at == at,
        activation.session_id@ == active.session@.id,
        activation.context_id == active.intervals@.context_id,
        match observation {
            Observation::Hit { amount, critical } => activation.hit_amount == amount
                && activation.critical == critical,
            Observation::Countered => activation.hit_amount == 0 && !activation.critical,
        },
        activation.cost_per_shot == combat::booked_cost(
            active.accumulator@,
            active.attribution@.classified(observation, at as int),
            pricing,
        ),
        activation.window@.tick.min == activation.profile.tick_min,
        activation.window@.tick.max == activation.profile.tick_max,
        i64::MIN <= at + activation.profile.duration <= i64::MAX ==> activation.window@.expires_at
            == at + activation.profile.duration,
{
}

/// A decision starts from the session as it stands: its pending phases and rows
/// and its kills; a confirmation makes the moves to the evidence, and keeping
/// makes those back to the declared weapon.
pub proof fn a_decision_starts_from_the_session(
    active: ActiveSession,
    now: i64,
    price: Ped,
    expected: Option<LoadoutView>,
    review_id: Seq<char>,
    runtime: RuntimeView,
)
    ensures
        ({
            let start = decision::opening_ledger(active, runtime);
            &&& start.pending == active.accumulator@.tool_stats
            &&& start.rows == active.accumulator@.evidence
            &&& start.kills == active.session@.kills
            &&& start.runtime == runtime
            &&& start.touched.len() == 0 && start.updates.len() == 0
            &&& start.repriced == 0 && start.cost_delta == 0
        }),
        ({
            let state = active.attribution@;
            let confirmed = decision::decided(state, MismatchDecision::Confirm, now);
            let kept = decision::decided(state, MismatchDecision::Keep, now);
            &&& confirmed == (state.confirmation(), state.confirming(now))
            &&& kept == (state.keep_decision(), state.keeping_declared())
            &&& decision::closing_ledger(
                active,
                MismatchDecision::Confirm,
                now,
                price,
                expected,
                review_id,
            ) == decision::opening_ledger(active, state.confirming(now)).all_moved(
                state.confirmation()->0.moves,
                price,
                expected,
                review_id,
            )
            &&& decision::closing_ledger(
                active,
                MismatchDecision::Keep,
                now,
                price,
                expected,
                review_id,
            ) == decision::opening_ledger(active, state.keeping_declared()).all_moved(
                state.keep_decision()->0.moves,
                price,
                expected,
                review_id,
            )
        }),
{
}

/// A prepared decision carries the mismatch it decides, when it was decided, and
/// what its moves came to; only keeping takes windows back.
pub proof fn a_decision_carries_its_mismatch(
    prepared: PreparedDecision,
    active: ActiveSession,
    choice: MismatchDecision,
    now: i64,
    price: Ped,
    expected: Option<LoadoutView>,
)
    requires
        active.attribution@.mismatch is Some,
        prepared.is_of(active, choice, now, price, expected),
    ensures
        ({
            let mismatch = active.attribution@.mismatch->0;
            let write = prepared.write;
            let ledger = decision::closing_ledger(
                active,
                choice,
                now,
                price,
                expected,
                write.review_id@,
            );
            &&& write.session_id@ == active.session@.id
            &&& write.decision == choice
            &&& write.declared@ == mismatch.declared
            &&& write.evidence@ == mismatch.evidence
            &&& write.since == mismatch.since
            &&& write.decided_at == now
            &&& write.repriced == ledger.repriced
            &&& write.cost_delta == ledger.cost_delta
            &&& text::views(prepared.tool_stats@) == ledger.pending
            &&& text::views(prepared.kills@) == ledger.kills
            &&& text::views(prepared.evidence@) == ledger.rows
            &&& prepared.attribution@ == ledger.runtime
            &&& write.kills@ == ledger.touched
            &&& text::views(write.row_updates@) == ledger.updates
            &&& choice == MismatchDecision::Confirm ==> write.withdrawn@.len() == 0
            &&& choice == MismatchDecision::Keep ==> text::views(write.withdrawn@)
                == active.attribution@.keep_decision()->0.withdrawn
        }),
{
    if choice == MismatchDecision::Confirm {
        assert(text::views(prepared.write.withdrawn@).len() == prepared.write.withdrawn@.len());
    }
}

/// A shot is stamped with its session and the context it stands in.
pub proof fn a_shot_is_stamped_with_its_session(active: ActiveSession)
    ensures
        combat::stamp_of(active).session_id == active.session@.id,
        combat::stamp_of(active).context_id == active.intervals@.context_id,
{
}

} // verus!
