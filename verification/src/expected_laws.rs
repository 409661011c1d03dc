//! What a session's shots cycle, as its expected return is evaluated from.

use crate::expected;
use crate::lists;
use crate::phases::{ComponentView, LoadoutView, OffensiveComponentKind, PhasesView, StatsView};
use crate::records::KillView;
use vstd::prelude::*;

verus! {

/// What the components cycle in the raw value of ammunition and decay.
pub open spec fn raw_of() -> spec_fn(ComponentView) -> int {
    |component: ComponentView| component.raw_tt_per_use
}

/// What the components consume in premium.
pub open spec fn premium_of() -> spec_fn(ComponentView) -> int {
    |component: ComponentView| component.consumed_premium_per_use
}

/// A phase with one shot more cycles each of its loadout's components once
/// more, whatever it has fired already.
pub proof fn a_shot_cycles_every_component_once(stats: StatsView, loadout: LoadoutView, at: int)
    requires
        stats.expected_economics == Some(loadout),
        stats.shots_fired >= 0,
        0 <= at < loadout.components.len(),
    ensures
        ({
            let before = expected::cycled_stats(stats);
            let after = expected::cycled_stats(
                StatsView { shots_fired: stats.shots_fired + 1, ..stats },
            );
            let component = loadout.components[at];
            &&& before.len() == loadout.components.len()
            &&& after.len() == loadout.components.len()
            &&& after[at].raw_tt_per_use == before[at].raw_tt_per_use + component.raw_tt_per_use
            &&& after[at].consumed_premium_per_use == before[at].consumed_premium_per_use
                + component.consumed_premium_per_use
            &&& before[at] == (ComponentView {
                raw_tt_per_use: before[at].raw_tt_per_use,
                consumed_premium_per_use: before[at].consumed_premium_per_use,
                ..component
            })
            &&& stats.shots_fired == 0 ==> before[at].raw_tt_per_use == 0
                && before[at].consumed_premium_per_use == 0
        }),
{
    let shots = stats.shots_fired;
    let raw = loadout.components[at].raw_tt_per_use;
    let premium = loadout.components[at].consumed_premium_per_use;
    assert(raw * (shots + 1) == raw * shots + raw) by (nonlinear_arith);
    assert(premium * (shots + 1) == premium * shots + premium) by (nonlinear_arith);
    assert(raw * 0 == 0 && premium * 0 == 0) by (nonlinear_arith);
}

/// A phase's loadout cycles, over all its shots, that many times what one shot
/// cycles; a count of shots that is not positive cycles nothing.
pub proof fn a_phase_cycles_its_shots(stats: StatsView, loadout: LoadoutView)
    requires
        stats.expected_economics == Some(loadout),
    ensures
        ({
            let cycled = expected::cycled_stats(stats);
            let shots = if stats.shots_fired > 0 {
                stats.shots_fired
            } else {
                0
            };
            &&& lists::total(cycled, raw_of()) == shots * lists::total(
                loadout.components,
                raw_of(),
            )
            &&& lists::total(cycled, premium_of()) == shots * lists::total(
                loadout.components,
                premium_of(),
            )
        }),
{
    let shots = if stats.shots_fired > 0 {
        stats.shots_fired
    } else {
        0
    };
    scaled_totals(expected::cycled_stats(stats), loadout.components, shots, raw_of());
    scaled_totals(expected::cycled_stats(stats), loadout.components, shots, premium_of());
}

proof fn scaled_totals(
    cycled: Seq<ComponentView>,
    components: Seq<ComponentView>,
    shots: int,
    figure: spec_fn(ComponentView) -> int,
)
    requires
        cycled.len() == components.len(),
        forall|i: int|
            0 <= i < cycled.len() ==> figure(#[trigger] cycled[i]) == figure(components[i]) * shots,
    ensures
        lists::total(cycled, figure) == shots * lists::total(components, figure),
    decreases cycled.len(),
{
    if cycled.len() > 0 {
        let rest = cycled.drop_last();
        let others = components.drop_last();
        assert forall|i: int| 0 <= i < rest.len() implies figure(#[trigger] rest[i]) == figure(
            others[i],
        ) * shots by {
            assert(rest[i] == cycled[i]);
        }
        scaled_totals(rest, others, shots, figure);
        assert(cycled[cycled.len() - 1] == cycled.last());
        let a = lists::total(others, figure);
        let b = figure(components.last());
        assert(shots * (a + b) == shots * a + b * shots) by (nonlinear_arith);
    } else {
        assert(shots * 0 == 0) by (nonlinear_arith);
    }
}

/// A phase without loadout evidence cycles its price once a shot, as its
/// weapon's; one without a price, or without shots, cycles nothing.
pub proof fn a_phase_without_evidence_cycles_its_price(stats: StatsView)
    requires
        stats.expected_economics is None,
    ensures
        ({
            let cycled = expected::cycled_stats(stats);
            let priced = stats.shots_fired > 0 && stats.cost_per_shot.0 > 0;
            &&& cycled.len() == (if priced {
                1nat
            } else {
                0nat
            })
            &&& priced ==> cycled[0].kind == OffensiveComponentKind::Weapon && cycled[0].name
                == stats.tool_name && cycled[0].catalog_id is None && cycled[0].efficiency_pct
                is None
            &&& lists::total(cycled, premium_of()) == 0
            &&& priced ==> lists::total(cycled, raw_of()) == stats.cost_per_shot.0
                * stats.shots_fired
            &&& !priced ==> lists::total(cycled, raw_of()) == 0
        }),
{
    let cycled = expected::cycled_stats(stats);
    if cycled.len() > 0 {
        assert(cycled.drop_last().len() == 0);
        assert(lists::total(cycled.drop_last(), raw_of()) == 0);
        assert(lists::total(cycled.drop_last(), premium_of()) == 0);
    }
}

/// One shot more in a priced phase without loadout evidence cycles its price
/// once more.
pub proof fn a_shot_without_evidence_cycles_its_price(stats: StatsView)
    requires
        stats.expected_economics is None,
        stats.shots_fired >= 0,
        stats.cost_per_shot.0 > 0,
    ensures
        ({
            let after = StatsView { shots_fired: stats.shots_fired + 1, ..stats };
            lists::total(expected::cycled_stats(after), raw_of()) == lists::total(
                expected::cycled_stats(stats),
                raw_of(),
            ) + stats.cost_per_shot.0
        }),
{
    let after = StatsView { shots_fired: stats.shots_fired + 1, ..stats };
    a_phase_without_evidence_cycles_its_price(stats);
    a_phase_without_evidence_cycles_its_price(after);
    let price = stats.cost_per_shot.0 as int;
    let shots = stats.shots_fired;
    assert(price * (shots + 1) == price * shots + price) by (nonlinear_arith);
    if shots == 0 {
        assert(price * shots == 0) by (nonlinear_arith)
            requires
                shots == 0,
        ;
    }
}

/// Phases cycle one after another, each all of its own.
pub proof fn phases_cycle_in_turn(phases: PhasesView, phase: (Seq<char>, StatsView))
    ensures
        expected::cycled_phases(phases.push(phase)) == expected::cycled_phases(phases)
            + expected::cycled_stats(phase.1),
        expected::cycled_phases(Seq::empty()).len() == 0,
        lists::total(expected::cycled_phases(phases.push(phase)), raw_of()) == lists::total(
            expected::cycled_phases(phases),
            raw_of(),
        ) + lists::total(expected::cycled_stats(phase.1), raw_of()),
{
    assert(phases.push(phase).drop_last() =~= phases);
    lists::total_add(expected::cycled_phases(phases), expected::cycled_stats(phase.1), raw_of());
}

/// What a run of evidenced phases cycles is, over its phases, the shots of each
/// at what one of them cycles.
pub proof fn evidenced_phases_cycle_by_the_shot(phases: PhasesView)
    requires
        forall|i: int|
            0 <= i < phases.len() ==> (#[trigger] phases[i]).1.expected_economics is Some
                && phases[i].1.shots_fired >= 0,
    ensures
        lists::total(expected::cycled_phases(phases), raw_of()) == lists::total(
            phases,
            |phase: (Seq<char>, StatsView)|
                phase.1.shots_fired * lists::total(
                    phase.1.expected_economics->0.components,
                    raw_of(),
                ),
        ),
    decreases phases.len(),
{
    if phases.len() > 0 {
        let rest = phases.drop_last();
        let last = phases.last();
        assert(phases[phases.len() - 1] == last);
        assert forall|i: int| 0 <= i < rest.len() implies (
        #[trigger] rest[i]).1.expected_economics is Some && rest[i].1.shots_fired >= 0 by {
            assert(rest[i] == phases[i]);
        }
        evidenced_phases_cycle_by_the_shot(rest);
        assert(phases =~= rest.push(last));
        phases_cycle_in_turn(rest, last);
        a_phase_cycles_its_shots(last.1, last.1.expected_economics->0);
    }
}

/// Kills cycle one after another, each all of its phases.
pub proof fn kills_cycle_in_turn(kills: Seq<KillView>, kill: KillView)
    ensures
        expected::cycled_kills(kills.push(kill)) == expected::cycled_kills(kills)
            + expected::cycled_phases(kill.tool_stats),
        expected::cycled_kills(Seq::empty()).len() == 0,
        lists::total(expected::cycled_kills(kills.push(kill)), raw_of()) == lists::total(
            expected::cycled_kills(kills),
            raw_of(),
        ) + lists::total(expected::cycled_phases(kill.tool_stats), raw_of()),
{
    assert(kills.push(kill).drop_last() =~= kills);
    lists::total_add(
        expected::cycled_kills(kills),
        expected::cycled_phases(kill.tool_stats),
        raw_of(),
    );
}

} // verus!
