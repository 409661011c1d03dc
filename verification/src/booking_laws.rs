//! Where a shot is booked, what booking it changes, and what moving a booked
//! shot changes.

use crate::attribution::{
    AttributionKind, AttributionView, LocationView, Observation, RepriceView, ResolvedView,
};
use crate::combat;
use crate::combat::{CombatEvent, PricingView, StampView};
use crate::decision;
use crate::decision::{LedgerView, UpdateView};
use crate::evidence::{CandidateView, EvidenceView};
use crate::lists;
use crate::phases;
use crate::phases::{LoadoutView, PhasesView, StatsView};
use crate::records::KillView;
use crate::regime::RuntimeView;
use crate::session::AccumulatorView;
use crate::text;
use crate::units::Ped;
use vstd::prelude::*;

verus! {

/// Whether a phase is of a weapon, at a price to within a billionth of a PED
/// and under the same loadout evidence.
pub open spec fn fits_phase(
    phase: StatsView,
    tool: Seq<char>,
    price: Ped,
    expected: Option<LoadoutView>,
) -> bool {
    phase.tool_name == tool && -1_000 < phase.cost_per_shot.0 - price.0 < 1_000
        && phase.expected_economics == expected
}

proof fn first_fitting_phase(
    phases: PhasesView,
    tool: Seq<char>,
    price: Ped,
    expected: Option<LoadoutView>,
)
    ensures
        ({
            let at = phases::phase_at(phases, tool, price, expected);
            &&& 0 <= at <= phases.len()
            &&& at < phases.len() ==> fits_phase(phases[at].1, tool, price, expected)
            &&& forall|i: int|
                0 <= i < at ==> !fits_phase((#[trigger] phases[i]).1, tool, price, expected)
        }),
    decreases phases.len(),
{
    if phases.len() > 0 && !phases::is_phase(phases[0].1, tool, price, expected) {
        let rest = phases.skip(1);
        first_fitting_phase(rest, tool, price, expected);
        assert forall|i: int| 0 <= i < phases::phase_at(phases, tool, price, expected) implies
            !fits_phase((#[trigger] phases[i]).1, tool, price, expected) by {
            if i > 0 {
                assert(phases[i] == rest[i - 1]);
            }
        }
    }
}

proof fn phases_are_counted(phases: PhasesView, tool: Seq<char>)
    ensures
        phases::phases_of(phases, tool) == lists::count(
            phases,
            |phase: (Seq<char>, StatsView)| phase.1.tool_name == tool,
        ),
    decreases phases.len(),
{
    let same = |phase: (Seq<char>, StatsView)| phase.1.tool_name == tool;
    if phases.len() > 0 {
        phases_are_counted(phases.drop_last(), tool);
        lists::count_push(phases.drop_last(), phases.last(), same);
        assert(phases =~= phases.drop_last().push(phases.last()));
    } else {
        lists::filter_none(phases, same);
        assert(phases =~= Seq::empty());
    }
}

/// Where a priced shot is counted: in the first phase of its weapon, price and
/// loadout, or in a new one behind the others. A new phase is keyed by the
/// weapon's name, with the number of its phases behind it where there are
/// earlier ones. That phase gains a shot, the damage dealt where it is above
/// zero, and the critical; no other phase changes.
pub proof fn a_priced_shot_is_counted_once(
    phases: PhasesView,
    tool: Seq<char>,
    price: Ped,
    expected: Option<LoadoutView>,
    library: Ped,
    amount: int,
    critical: bool,
    index: int,
)
    requires
        price.0 > 0,
        0 <= index < phases.len(),
    ensures
        ({
            let (base, at) = phases::booking_phase(phases, Some(tool), price, expected, library);
            let after = phases::booked_shot(base, at, amount, critical);
            let here = fits_phase(phases[index].1, tool, price, expected) && forall|i: int|
                0 <= i < index ==> !fits_phase((#[trigger] phases[i]).1, tool, price, expected);
            &&& after.len() >= phases.len()
            &&& here <==> at == index
            &&& after[index] == (if here {
                (
                    phases[index].0,
                    StatsView {
                        shots_fired: phases[index].1.shots_fired + 1,
                        damage_dealt: phases[index].1.damage_dealt + (if amount > 0 {
                            amount
                        } else {
                            0
                        }),
                        critical_hits: phases[index].1.critical_hits + (if critical {
                            1int
                        } else {
                            0int
                        }),
                        ..phases[index].1
                    },
                )
            } else {
                phases[index]
            })
        }),
{
    first_fitting_phase(phases, tool, price, expected);
}

/// Where no phase fits a priced shot, a new one holds it alone, at its price
/// and under its loadout.
pub proof fn a_priced_shot_opens_its_phase(
    phases: PhasesView,
    tool: Seq<char>,
    price: Ped,
    expected: Option<LoadoutView>,
    library: Ped,
    amount: int,
    critical: bool,
)
    requires
        price.0 > 0,
    ensures
        ({
            let (base, at) = phases::booking_phase(phases, Some(tool), price, expected, library);
            let after = phases::booked_shot(base, at, amount, critical);
            let found = exists|i: int|
                0 <= i < phases.len() && fits_phase(
                    (#[trigger] phases[i]).1,
                    tool,
                    price,
                    expected,
                );
            let same = lists::count(
                phases,
                |phase: (Seq<char>, StatsView)| phase.1.tool_name == tool,
            );
            &&& after.len() == phases.len() + (if found {
                0int
            } else {
                1int
            })
            &&& !found ==> at == phases.len() && after.last() == (
                if same == 0 {
                    tool
                } else {
                    tool + "#"@ + text::decimal_spec((same + 1) as nat)
                },
                StatsView {
                    tool_name: tool,
                    shots_fired: 1,
                    damage_dealt: if amount > 0 {
                        amount
                    } else {
                        0
                    },
                    critical_hits: if critical {
                        1
                    } else {
                        0
                    },
                    cost_per_shot: price,
                    expected_economics: expected,
                },
            )
        }),
{
    first_fitting_phase(phases, tool, price, expected);
    phases_are_counted(phases, tool);
    let at = phases::phase_at(phases, tool, price, expected);
    if at < phases.len() {
        assert(fits_phase(phases[at].1, tool, price, expected));
    }
}

/// A shot at no price is counted under its weapon's name, or as unknown where
/// no weapon has one, in the first phase keyed so or in a new one at no price.
/// Where the shot's weapon is known and its phase still costs nothing, the
/// library's price, if there is one, becomes the phase's.
pub proof fn a_costless_shot_is_counted_by_name(
    phases: PhasesView,
    tool: Option<Seq<char>>,
    price: Ped,
    expected: Option<LoadoutView>,
    library: Ped,
    amount: int,
    critical: bool,
    index: int,
)
    requires
        tool is None || price.0 <= 0,
        0 <= index <= phases.len(),
    ensures
        ({
            let (base, at) = phases::booking_phase(phases, tool, price, expected, library);
            let after = phases::booked_shot(base, at, amount, critical);
            let key = if tool is Some && tool->0.len() > 0 {
                tool->0
            } else {
                "Unknown"@
            };
            let here = (index < phases.len() ==> phases[index].0 == key) && forall|i: int|
                0 <= i < index ==> (#[trigger] phases[i]).0 != key;
            let start = if index < phases.len() {
                phases[index].1
            } else {
                StatsView {
                    tool_name: key,
                    shots_fired: 0,
                    damage_dealt: 0,
                    critical_hits: 0,
                    cost_per_shot: Ped(0),
                    expected_economics: None,
                }
            };
            &&& here <==> at == index
            &&& here ==> after.len() == (if index < phases.len() {
                phases.len()
            } else {
                phases.len() + 1
            })
            &&& here ==> after[index] == (
                key,
                StatsView {
                    shots_fired: start.shots_fired + 1,
                    damage_dealt: start.damage_dealt + (if amount > 0 {
                        amount
                    } else {
                        0
                    }),
                    critical_hits: start.critical_hits + (if critical {
                        1int
                    } else {
                        0int
                    }),
                    cost_per_shot: if tool is Some && start.cost_per_shot.0 <= 0 && library.0 > 0 {
                        library
                    } else {
                        start.cost_per_shot
                    },
                    ..start
                },
            )
            &&& !here && index < phases.len() ==> after[index] == phases[index]
        }),
{
    let key = phases::costless_key(tool);
    first_key(phases, key);
    let (base, at) = phases::booking_phase(phases, tool, price, expected, library);
    if index < phases.len() && phases[index].0 == key && (forall|i: int|
        0 <= i < index ==> (#[trigger] phases[i]).0 != key) {
        if at < index {
            assert(phases[at].0 == key);
        }
    }
    if index == phases.len() && at < phases.len() {
        assert(phases[at].0 == key);
    }
}

proof fn first_key(phases: PhasesView, key: Seq<char>)
    ensures
        ({
            let at = phases::key_at(phases, key);
            &&& 0 <= at <= phases.len()
            &&& at < phases.len() ==> phases[at].0 == key
            &&& forall|i: int| 0 <= i < at ==> (#[trigger] phases[i]).0 != key
        }),
    decreases phases.len(),
{
    if phases.len() > 0 && phases[0].0 != key {
        let rest = phases.skip(1);
        first_key(rest, key);
        assert forall|i: int| 0 <= i < phases::key_at(phases, key) implies (
        #[trigger] phases[i]).0 != key by {
            if i > 0 {
                assert(phases[i] == rest[i - 1]);
            }
        }
    }
}

/// Whether a phase holds a shot of a weapon at a price to within a billionth of
/// a PED.
pub open spec fn holds_one(phase: StatsView, tool: Seq<char>, cost: Ped) -> bool {
    phase.tool_name == tool && -1_000 < phase.cost_per_shot.0 - cost.0 < 1_000 && phase.shots_fired
        > 0
}

/// The phase a booked shot is taken from: the first that holds one of its
/// weapon, or of the unknown one where it was booked under none, at its cost.
pub open spec fn taken_from(
    phases: PhasesView,
    booked: Option<Seq<char>>,
    cost: Ped,
    at: int,
) -> bool {
    let tool = if booked is Some {
        booked->0
    } else {
        "Unknown"@
    };
    &&& 0 <= at < phases.len()
    &&& holds_one(phases[at].1, tool, cost)
    &&& forall|i: int| 0 <= i < at ==> !holds_one((#[trigger] phases[i]).1, tool, cost)
}

/// Phases without one shot of one of them: the phase has one shot less, and less
/// what the shot dealt and its critical; left without shots, and without damage
/// to within a billionth, it is gone.
pub open spec fn left_without(
    phases: PhasesView,
    at: int,
    amount: int,
    critical: bool,
) -> PhasesView {
    let phase = phases[at].1;
    let left = StatsView {
        shots_fired: phase.shots_fired - 1,
        damage_dealt: phase.damage_dealt - (if amount > 0 {
            amount
        } else {
            0
        }),
        critical_hits: phase.critical_hits - (if critical {
            1int
        } else {
            0int
        }),
        ..phase
    };
    if left.shots_fired == 0 && -1_000 < left.damage_dealt < 1_000 {
        phases.remove(at)
    } else {
        phases.update(at, (phases[at].0, left))
    }
}

/// Moving a booked shot takes it out of the first phase that holds it, a phase
/// left without shots and damage going with it, and counts it anew where its
/// weapon and price belong; it moves exactly where some phase holds it.
pub proof fn moving_takes_out_and_counts_anew(
    phases: PhasesView,
    booked: Option<Seq<char>>,
    cost: Ped,
    amount: int,
    critical: bool,
    to_tool: Seq<char>,
    price: Ped,
    expected: Option<LoadoutView>,
    library: Ped,
    at: int,
)
    requires
        price.0 > 0,
    ensures
        ({
            let moved = phases::shot_moved(
                phases,
                booked,
                cost,
                amount,
                critical,
                to_tool,
                price,
                expected,
            );
            let rest = left_without(phases, at, amount, critical);
            let (base, place) = phases::booking_phase(
                rest,
                Some(to_tool),
                price,
                expected,
                library,
            );
            taken_from(phases, booked, cost, at) ==> moved == Some(
                phases::booked_shot(base, place, amount, critical),
            )
        }),
{
    first_holding(phases, phases::booked_tool(booked), cost);
    let from = phases::shot_at(phases, phases::booked_tool(booked), cost);
    if taken_from(phases, booked, cost, at) && from < at {
        assert(holds_one(phases[from].1, phases::booked_tool(booked), cost));
    }
}

/// A booked shot moves exactly where some phase holds it.
pub proof fn only_a_held_shot_moves(
    phases: PhasesView,
    booked: Option<Seq<char>>,
    cost: Ped,
    amount: int,
    critical: bool,
    to_tool: Seq<char>,
    price: Ped,
    expected: Option<LoadoutView>,
)
    ensures
        (phases::shot_moved(phases, booked, cost, amount, critical, to_tool, price, expected)
            is Some) <==> (exists|at: int| #[trigger] taken_from(phases, booked, cost, at)),
{
    first_holding(phases, phases::booked_tool(booked), cost);
    let from = phases::shot_at(phases, phases::booked_tool(booked), cost);
    if from < phases.len() {
        assert(taken_from(phases, booked, cost, from));
    }
}

proof fn first_holding(phases: PhasesView, tool: Seq<char>, cost: Ped)
    ensures
        ({
            let at = phases::shot_at(phases, tool, cost);
            &&& 0 <= at <= phases.len()
            &&& at < phases.len() ==> holds_one(phases[at].1, tool, cost)
            &&& forall|i: int| 0 <= i < at ==> !holds_one((#[trigger] phases[i]).1, tool, cost)
        }),
    decreases phases.len(),
{
    if phases.len() > 0 && !phases::holds_shot(phases[0].1, tool, cost) {
        let rest = phases.skip(1);
        first_holding(rest, tool, cost);
        assert forall|i: int| 0 <= i < phases::shot_at(phases, tool, cost) implies !holds_one(
            (#[trigger] phases[i]).1,
            tool,
            cost,
        ) by {
            if i > 0 {
                assert(phases[i] == rest[i - 1]);
            }
        }
    }
}

/// What a chat line is, as the player's shot: a hit, critical or not, or one
/// the target countered by dodging, evading, jamming or a miss. Other lines are
/// no shot; damage received and a deflection are the target's.
pub proof fn a_line_is_a_shot_or_not(amount: i64)
    ensures
        combat::observed(CombatEvent::DamageDealt { amount }) == Some(
            Observation::Hit { amount, critical: false },
        ),
        combat::observed(CombatEvent::CriticalHit { amount }) == Some(
            Observation::Hit { amount, critical: true },
        ),
        combat::observed(CombatEvent::TargetDodge) == Some(Observation::Countered),
        combat::observed(CombatEvent::TargetEvade) == Some(Observation::Countered),
        combat::observed(CombatEvent::TargetJam) == Some(Observation::Countered),
        combat::observed(CombatEvent::TargetMiss) == Some(Observation::Countered),
        combat::observed(CombatEvent::DamageReceived { amount }) is None,
        combat::observed(CombatEvent::Deflect) is None,
        combat::defended(CombatEvent::DamageReceived { amount }) == Some((Some(amount), false)),
        combat::defended(CombatEvent::Deflect) == Some((None::<i64>, true)),
        forall|event: CombatEvent|
            (#[trigger] combat::observed(event)) is Some ==> combat::defended(event) is None,
        forall|event: CombatEvent|
            (#[trigger] combat::defended(event)) is Some ==> event is DamageReceived
                || event is Deflect,
{
}

/// What a shot adds to a run: itself, the damage of a hit where it is above
/// zero, and a critical hit; an effect's tick adds its damage alone. Neither
/// changes the damage taken or what enhancers cost.
pub proof fn a_shot_adds_itself(
    accumulator: AccumulatorView,
    runtime: RuntimeView,
    stamp: StampView,
    observation: Observation,
    at: i64,
    resolved: ResolvedView,
    pricing: PricingView,
    row_id: Seq<char>,
)
    ensures
        ({
            let after = combat::accumulated(
                accumulator,
                runtime,
                stamp,
                observation,
                at,
                resolved,
                pricing,
                row_id,
            );
            let dealt = match observation {
                Observation::Hit { amount, .. } => if amount > 0 {
                    amount as int
                } else {
                    0
                },
                Observation::Countered => 0,
            };
            let tick = resolved.attribution is EffectTick;
            &&& after.damage_dealt == accumulator.damage_dealt + dealt
            &&& after.damage_taken == accumulator.damage_taken
            &&& after.enhancer_cost == accumulator.enhancer_cost
            &&& after.shots_fired == accumulator.shots_fired + (if tick {
                0int
            } else {
                1int
            })
            &&& after.critical_hits == accumulator.critical_hits + (match observation {
                Observation::Hit { critical: true, .. } if !tick => 1int,
                _ => 0int,
            })
            &&& tick ==> after.tool_stats == accumulator.tool_stats
            &&& !tick ==> phases::total_shots(after.tool_stats) == phases::total_shots(
                accumulator.tool_stats,
            ) + 1
            &&& !tick ==> phases::total_damage(after.tool_stats) == phases::total_damage(
                accumulator.tool_stats,
            ) + dealt
        }),
{
    let priced = resolved.attribution.priced();
    if !(resolved.attribution is EffectTick) {
        if priced is Some {
            phases::booking_adds_one_shot(
                accumulator.tool_stats,
                priced,
                pricing.price,
                pricing.expected,
                pricing.library,
                observation.size() as int,
                observation.is_critical(),
            );
        } else {
            phases::booking_adds_one_shot(
                accumulator.tool_stats,
                None,
                Ped(0),
                None,
                Ped(0),
                observation.size() as int,
                observation.is_critical(),
            );
        }
    }
}

/// Where a shot is booked: as its priced weapon's, at what that weapon costs
/// now; a shot no weapon prices is counted as unknown, at no price of its own.
pub proof fn a_shot_is_booked_as_priced(
    accumulator: AccumulatorView,
    runtime: RuntimeView,
    stamp: StampView,
    observation: Observation,
    at: i64,
    resolved: ResolvedView,
    pricing: PricingView,
    row_id: Seq<char>,
)
    requires
        !(resolved.attribution is EffectTick),
    ensures
        ({
            let after = combat::accumulated(
                accumulator,
                runtime,
                stamp,
                observation,
                at,
                resolved,
                pricing,
                row_id,
            );
            let priced = match resolved.attribution {
                AttributionView::Agrees { tool, .. } => Some(tool),
                AttributionView::Evidence { tool, .. } => Some(tool),
                _ => None,
            };
            let (base, place) = if priced is Some {
                phases::booking_phase(
                    accumulator.tool_stats,
                    priced,
                    pricing.price,
                    pricing.expected,
                    pricing.library,
                )
            } else {
                phases::booking_phase(accumulator.tool_stats, None, Ped(0), None, Ped(0))
            };
            &&& after.tool_stats == phases::booked_shot(
                base,
                place,
                match observation {
                    Observation::Hit { amount, .. } => amount as int,
                    Observation::Countered => 0,
                },
                observation == (Observation::Hit {
                    amount: observation.size(),
                    critical: true,
                }),
            )
            &&& combat::booked_cost(accumulator, resolved, pricing) == base[place].1.cost_per_shot
        }),
{
}

/// Which shots leave an evidence row: one that disagrees with a declaration, an
/// unresolved one and an effect's tick; agreement leaves none, and neither does
/// evidence where nothing was declared.
pub proof fn disagreement_leaves_a_row(
    accumulator: AccumulatorView,
    runtime: RuntimeView,
    stamp: StampView,
    observation: Observation,
    at: i64,
    resolved: ResolvedView,
    pricing: PricingView,
    row_id: Seq<char>,
)
    ensures
        ({
            let after = combat::accumulated(
                accumulator,
                runtime,
                stamp,
                observation,
                at,
                resolved,
                pricing,
                row_id,
            ).evidence;
            let before = accumulator.evidence;
            let kept = match resolved.attribution {
                AttributionView::Agrees { .. } => false,
                AttributionView::Evidence { .. } => runtime.declared is Some,
                AttributionView::Unresolved => true,
                AttributionView::EffectTick { .. } => true,
            };
            &&& !kept ==> after == before
            &&& kept ==> ({
                let row = after.last();
                &&& after.len() == before.len() + 1
                &&& after.drop_last() == before
                &&& row.id == row_id
                &&& row.session_id == stamp.session_id
                &&& row.context_id == stamp.context_id
                &&& row.observed_at == at
                &&& row.amount == (match observation {
                    Observation::Hit { amount, .. } => Some(amount),
                    Observation::Countered => None,
                })
                &&& row.critical == (match observation {
                    Observation::Hit { critical, .. } => critical,
                    Observation::Countered => false,
                })
                &&& row.kind == (match resolved.attribution {
                    AttributionView::Agrees { .. } => AttributionKind::Agrees,
                    AttributionView::Evidence { .. } => AttributionKind::Evidence,
                    AttributionView::Unresolved => AttributionKind::Unresolved,
                    AttributionView::EffectTick { .. } => AttributionKind::EffectTick,
                })
                &&& row.hotbar_tool == runtime.declared
                &&& row.tool_name == (match resolved.attribution {
                    AttributionView::Evidence { tool, .. } => Some(tool),
                    _ => None,
                })
                &&& row.cost_per_shot == (if resolved.attribution is EffectTick {
                    Ped(0)
                } else {
                    combat::booked_cost(accumulator, resolved, pricing)
                })
                &&& row.reason == resolved.reason
                &&& row.effect_window_id == (match resolved.attribution {
                    AttributionView::EffectTick { window_id } => window_id,
                    _ => None,
                })
                &&& row.effect_candidates == resolved.windows
                &&& row.review_id is None
                &&& row.candidates.len() == runtime.carried.len()
                &&& forall|i: int|
                    0 <= i < row.candidates.len() ==> (#[trigger] row.candidates[i]) == (
                    CandidateView {
                        equipment_id: runtime.carried[i].equipment_id,
                        name: runtime.carried[i].name,
                        fits: observation is Hit && resolved.fits.contains(
                            runtime.carried[i].name,
                        ),
                    })
            })
        }),
{
    let after = combat::accumulated(
        accumulator,
        runtime,
        stamp,
        observation,
        at,
        resolved,
        pricing,
        row_id,
    ).evidence;
    if after.len() == accumulator.evidence.len() + 1 {
        assert(after.drop_last() =~= accumulator.evidence);
    }
}

/// What a shot leaves in the log: its number, what was seen and when, what it
/// was taken for, what it was booked under and at what cost, its row and the
/// window it opened, as a pending shot.
pub proof fn a_shot_is_logged_as_booked(
    accumulator: AccumulatorView,
    runtime: RuntimeView,
    observation: Observation,
    at: i64,
    resolved: ResolvedView,
    pricing: PricingView,
    row_id: Seq<char>,
    window_id: Seq<char>,
)
    requires
        !(resolved.attribution is EffectTick),
        0 <= runtime.next_seq <= u64::MAX,
    ensures
        ({
            let record = combat::attributed(
                accumulator,
                runtime,
                observation,
                at,
                resolved,
                pricing,
                row_id,
                window_id,
            ).log.last();
            &&& record.seq == runtime.next_seq
            &&& record.observed_at == at
            &&& record.observation == observation
            &&& record.attribution == resolved.attribution
            &&& record.fits == resolved.fits
            &&& record.windows == resolved.windows
            &&& record.location == LocationView::Pending
            &&& record.booked == (match resolved.attribution {
                AttributionView::Agrees { tool, .. } => Some(tool),
                AttributionView::Evidence { tool, .. } => Some(tool),
                _ => None,
            })
            &&& record.cost == combat::booked_cost(accumulator, resolved, pricing)
            &&& record.evidence_id == (match resolved.attribution {
                AttributionView::Agrees { .. } => None,
                AttributionView::Evidence { .. } => if runtime.declared is Some {
                    Some(row_id)
                } else {
                    None
                },
                _ => Some(row_id),
            })
        }),
{
}

/// What moving a shot does to the pending run: exactly its phases change, by
/// that move; the move is counted, and what it changes in cost.
pub proof fn moving_a_pending_shot_is_accounted(
    ledger: LedgerView,
    step: RepriceView,
    price: Ped,
    expected: Option<LoadoutView>,
    review_id: Seq<char>,
)
    requires
        step.record.location == LocationView::Pending,
    ensures
        ({
            let after = ledger.moved(step, price, expected, review_id);
            let moved = phases::shot_moved(
                ledger.pending,
                step.record.booked,
                step.record.cost,
                step.record.observation.size() as int,
                step.record.observation.is_critical(),
                step.to_tool,
                price,
                expected,
            );
            &&& moved is None ==> after == ledger
            &&& moved is Some ==> ({
                &&& after.pending == moved->0
                &&& after.kills == ledger.kills
                &&& after.touched == ledger.touched
                &&& after.repriced == ledger.repriced + 1
                &&& after.cost_delta == ledger.cost_delta + price.0 - step.record.cost.0
                &&& after.runtime == ledger.runtime.rebooking(step.seq, step.to_tool, price)
            })
        }),
{
}

/// What moving a settled shot does: the last kill with its id changes in its
/// phases and by the difference in cost, and is among the kills to write;
/// no other kill changes, nor does the pending run.
pub proof fn moving_a_settled_shot_is_accounted(
    ledger: LedgerView,
    step: RepriceView,
    id: Seq<char>,
    price: Ped,
    expected: Option<LoadoutView>,
    review_id: Seq<char>,
    at: int,
)
    requires
        step.record.location == LocationView::Kill(id),
        0 <= at < ledger.kills.len(),
        ledger.kills.len() <= usize::MAX,
    ensures
        ({
            let after = ledger.moved(step, price, expected, review_id);
            let moved = phases::shot_moved(
                ledger.kills[at].tool_stats,
                step.record.booked,
                step.record.cost,
                step.record.observation.size() as int,
                step.record.observation.is_critical(),
                step.to_tool,
                price,
                expected,
            );
            let last = ledger.kills[at].id == id && forall|i: int|
                at < i < ledger.kills.len() ==> (#[trigger] ledger.kills[i]).id != id;
            &&& after.pending == ledger.pending
            &&& after.kills.len() == ledger.kills.len()
            &&& !last ==> after.kills[at] == ledger.kills[at]
            &&& last && moved is None ==> after.kills == ledger.kills && after.repriced
                == ledger.repriced && after.cost_delta == ledger.cost_delta
            &&& last && moved is Some ==> after.kills[at] == (KillView {
                tool_stats: moved->0,
                cost_ped: ledger.kills[at].cost_ped + price.0 - step.record.cost.0,
                ..ledger.kills[at]
            })
            &&& last && moved is Some ==> after.repriced == ledger.repriced + 1
                && after.cost_delta == ledger.cost_delta + price.0 - step.record.cost.0
                && after.runtime == ledger.runtime.rebooking(step.seq, step.to_tool, price)
            &&& last ==> after.touched.contains(at as usize)
        }),
{
    last_of_its_id(ledger.kills, id);
    let place = decision::last_kill(ledger.kills, id);
    if place >= 0 {
        assert(ledger.kills[place].id == id);
        let base = ledger.touching(place);
        if !ledger.touched.contains(place as usize) {
            assert(base.touched[ledger.touched.len() as int] == place as usize);
        }
    }
}

proof fn last_of_its_id(kills: Seq<KillView>, id: Seq<char>)
    ensures
        ({
            let at = decision::last_kill(kills, id);
            &&& -1 <= at < kills.len()
            &&& at >= 0 ==> kills[at].id == id
            &&& forall|i: int| at < i < kills.len() ==> (#[trigger] kills[i]).id != id
        }),
    decreases kills.len(),
{
    if kills.len() > 0 && kills.last().id != id {
        let rest = kills.drop_last();
        last_of_its_id(rest, id);
        assert forall|i: int| decision::last_kill(kills, id) < i < kills.len() implies (
        #[trigger] kills[i]).id != id by {
            if i < rest.len() {
                assert(kills[i] == rest[i]);
            }
        }
    }
}

/// A moved shot's evidence row, where it is still pending, takes the new weapon,
/// its price and the review it belongs to; one already written is updated in
/// store; no other row changes.
pub proof fn a_moved_shot_restamps_its_row(
    ledger: LedgerView,
    step: RepriceView,
    price: Ped,
    review_id: Seq<char>,
    at: int,
)
    requires
        0 <= at < ledger.rows.len(),
    ensures
        ({
            let after = ledger.accounted(step, price, review_id);
            let its = step.record.evidence_id is Some && ledger.rows[at].id
                == step.record.evidence_id->0 && forall|i: int|
                0 <= i < at ==> (#[trigger] ledger.rows[i]).id != step.record.evidence_id->0;
            &&& after.rows.len() == ledger.rows.len()
            &&& after.rows[at] == (if its {
                EvidenceView {
                    tool_name: Some(step.to_tool),
                    cost_per_shot: price,
                    review_id: Some(review_id),
                    ..ledger.rows[at]
                }
            } else {
                ledger.rows[at]
            })
            &&& its ==> after.updates == ledger.updates
        }),
{
    if step.record.evidence_id is Some {
        let id = step.record.evidence_id->0;
        first_row(ledger.rows, id);
        let place = decision::row_at(ledger.rows, id);
        if place < ledger.rows.len() {
            assert(ledger.rows[place].id == id);
        }
    }
}

/// A moved shot whose row is no longer pending is updated in store, and one
/// without a row is not.
pub proof fn a_written_row_is_updated_in_store(
    ledger: LedgerView,
    step: RepriceView,
    price: Ped,
    review_id: Seq<char>,
)
    ensures
        ({
            let after = ledger.accounted(step, price, review_id);
            let id = step.record.evidence_id;
            let pending = exists|i: int|
                0 <= i < ledger.rows.len() && Some((#[trigger] ledger.rows[i]).id) == id;
            &&& after.updates == (if id is Some && !pending {
                ledger.updates.push(UpdateView { id: id->0, tool: step.to_tool, cost: price })
            } else {
                ledger.updates
            })
        }),
{
    if step.record.evidence_id is Some {
        let id = step.record.evidence_id->0;
        first_row(ledger.rows, id);
        let place = decision::row_at(ledger.rows, id);
        if place < ledger.rows.len() {
            assert(ledger.rows[place].id == id);
        }
    }
}

proof fn first_row(rows: Seq<EvidenceView>, id: Seq<char>)
    ensures
        ({
            let at = decision::row_at(rows, id);
            &&& 0 <= at <= rows.len()
            &&& at < rows.len() ==> rows[at].id == id
            &&& forall|i: int| 0 <= i < at ==> (#[trigger] rows[i]).id != id
        }),
    decreases rows.len(),
{
    if rows.len() > 0 && rows[0].id != id {
        let rest = rows.skip(1);
        first_row(rest, id);
        assert forall|i: int| 0 <= i < decision::row_at(rows, id) implies (
        #[trigger] rows[i]).id != id by {
            if i > 0 {
                assert(rows[i] == rest[i - 1]);
            }
        }
    }
}

/// Moves are made one after another, each on what the earlier ones left.
pub proof fn moves_are_made_in_turn(
    ledger: LedgerView,
    steps: Seq<RepriceView>,
    step: RepriceView,
    price: Ped,
    expected: Option<LoadoutView>,
    review_id: Seq<char>,
)
    ensures
        ledger.all_moved(steps.push(step), price, expected, review_id) == ledger.all_moved(
            steps,
            price,
            expected,
            review_id,
        ).moved(step, price, expected, review_id),
        ledger.all_moved(Seq::empty(), price, expected, review_id) == ledger,
{
    assert(steps.push(step).drop_last() =~= steps);
}

/// Damage received adds to what a run took, and to nothing else of it; no other
/// line that is no shot changes the run.
pub proof fn damage_received_is_taken(run: AccumulatorView, amount: i64, event: CombatEvent)
    ensures
        ({
            let after = combat::after_defence(run, CombatEvent::DamageReceived { amount });
            &&& after.damage_taken == run.damage_taken + amount
            &&& after.damage_dealt == run.damage_dealt
            &&& after.shots_fired == run.shots_fired
            &&& after.critical_hits == run.critical_hits
            &&& after.enhancer_cost == run.enhancer_cost
            &&& after.tool_stats == run.tool_stats
            &&& after.evidence == run.evidence
        }),
        !(event is DamageReceived) ==> combat::after_defence(run, event) == run,
{
}

/// Where a moved shot is counted anew, whatever its price: in the first phase of
/// its weapon, price and loadout, or in a new one behind the others.
pub proof fn a_moved_shot_lands_by_weapon_and_price(
    phases: PhasesView,
    booked: Option<Seq<char>>,
    cost: Ped,
    amount: int,
    critical: bool,
    to_tool: Seq<char>,
    price: Ped,
    expected: Option<LoadoutView>,
    at: int,
    index: int,
)
    requires
        taken_from(phases, booked, cost, at),
    ensures
        ({
            let moved = phases::shot_moved(
                phases,
                booked,
                cost,
                amount,
                critical,
                to_tool,
                price,
                expected,
            )->0;
            let dealt = if amount > 0 {
                amount
            } else {
                0
            };
            let one = if critical {
                1int
            } else {
                0int
            };
            let rest = left_without(phases, at, amount, critical);
            let found = exists|i: int|
                0 <= i < rest.len() && fits_phase((#[trigger] rest[i]).1, to_tool, price, expected);
            let here = 0 <= index < rest.len() && fits_phase(
                rest[index].1,
                to_tool,
                price,
                expected,
            ) && forall|i: int|
                0 <= i < index ==> !fits_phase((#[trigger] rest[i]).1, to_tool, price, expected);
            &&& moved.len() == rest.len() + (if found {
                0int
            } else {
                1int
            })
            &&& 0 <= index < rest.len() && !here ==> moved[index] == rest[index]
            &&& here ==> moved[index] == (
                rest[index].0,
                StatsView {
                    shots_fired: rest[index].1.shots_fired + 1,
                    damage_dealt: rest[index].1.damage_dealt + dealt,
                    critical_hits: rest[index].1.critical_hits + one,
                    ..rest[index].1
                },
            )
            &&& !found ==> moved.last().1 == (StatsView {
                tool_name: to_tool,
                shots_fired: 1,
                damage_dealt: dealt,
                critical_hits: one,
                cost_per_shot: price,
                expected_economics: expected,
            })
        }),
{
    first_holding(phases, phases::booked_tool(booked), cost);
    let from = phases::shot_at(phases, phases::booked_tool(booked), cost);
    if from < at {
        assert(holds_one(phases[from].1, phases::booked_tool(booked), cost));
    }
    let rest = left_without(phases, at, amount, critical);
    assert(rest == phases::without_shot(phases, at, amount, critical));
    first_fitting_phase(rest, to_tool, price, expected);
    let place = phases::phase_at(rest, to_tool, price, expected);
    let moved = phases::shot_moved(
        phases,
        booked,
        cost,
        amount,
        critical,
        to_tool,
        price,
        expected,
    )->0;
    assert(moved == phases::booked_shot(
        phases::with_phase(rest, to_tool, price, expected),
        place,
        amount,
        critical,
    ));
    if place < rest.len() {
        assert(fits_phase(rest[place].1, to_tool, price, expected));
    } else {
        assert forall|i: int| 0 <= i < rest.len() implies !fits_phase(
            (#[trigger] rest[i]).1,
            to_tool,
            price,
            expected,
        ) by {}
        assert(moved.last() == moved[rest.len() as int]);
    }
    if 0 <= index < rest.len() && index != place {
        assert(moved[index] == rest[index]);
        assert(!fits_phase(rest[index].1, to_tool, price, expected) || place < index);
    }
    if index == place && place < rest.len() {
        assert(moved[index] == (rest[index].0, rest[index].1.plus_shot(amount, critical)));
    }
}

/// A run has room for a shot wherever its counts and damage can take one more
/// and its phases can too.
pub proof fn a_run_has_room_within_its_limits(run: AccumulatorView)
    requires
        0 <= run.shots_fired < i64::MAX,
        run.critical_hits < i64::MAX,
        run.damage_dealt <= i128::MAX - i64::MAX,
        run.tool_stats.len() < usize::MAX,
        forall|i: int|
            0 <= i < run.tool_stats.len() ==> {
                let phase = (#[trigger] run.tool_stats[i]).1;
                &&& 0 <= phase.shots_fired < i64::MAX
                &&& -i64::MAX < phase.critical_hits < i64::MAX
                &&& -i128::MAX + 0x8000_0000_0000_0000 <= phase.damage_dealt <= i128::MAX
                    - 0x8000_0000_0000_0000
            },
    ensures
        run.has_room(),
{
}

} // verus!
