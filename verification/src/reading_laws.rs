//! What a read of a session shows, by what the session holds: how two reads
//! differ where the sessions do, and how near a shown figure is.

use crate::aggregate;
use crate::aggregate::SessionAggregate;
use crate::expected;
use crate::lists;
use crate::net_curve;
use crate::net_curve::NetEvent;
use crate::phases;
use crate::phases::{PhasesView, StatsView};
use crate::readout;
use crate::readout::{KillReturn, MeanReturn};
use crate::records::{HarvestView, KillView};
use crate::session::ActiveSession;
use crate::snapshot::ActiveSessionView;
use crate::units;
use vstd::prelude::*;

verus! {

/// Two sessions that differ in what healing cost them differ in cost by just
/// that, whatever kills, pending shots and swings there are, and in nothing
/// else that adds up.
pub proof fn healing_costs_what_it_costs(
    active: ActiveSession,
    more: ActiveSession,
    read: SessionAggregate,
    reread: SessionAggregate,
)
    requires
        read.adds_up(active),
        reread.adds_up(more),
        more.session@ == active.session@,
        more.accumulator@ == active.accumulator@,
    ensures
        reread.cost - read.cost == more.heal_cost - active.heal_cost,
        reread.returned == read.returned,
        reread.weapon_cost == read.weapon_cost,
        reread.live_weapon_damage == read.live_weapon_damage,
        reread.harvest_cost == read.harvest_cost,
        reread.harvest_loot == read.harvest_loot,
        reread.kill_count == read.kill_count,
{
}

/// Two sessions that differ in the shots since the last kill differ in cost by
/// what those shots and their enhancers cost, in weapon cost by the shots
/// alone, and in the damage of the weapons in use by the damage they dealt.
pub proof fn pending_shots_cost_what_they_cost(
    active: ActiveSession,
    more: ActiveSession,
    read: SessionAggregate,
    reread: SessionAggregate,
)
    requires
        read.adds_up(active),
        reread.adds_up(more),
        more.session@ == active.session@,
        more.heal_cost == active.heal_cost,
    ensures
        ({
            let before = active.accumulator@;
            let after = more.accumulator@;
            let shots = phases::total_cost(after.tool_stats) - phases::total_cost(
                before.tool_stats,
            );
            &&& reread.weapon_cost - read.weapon_cost == shots
            &&& reread.cost - read.cost == shots + after.enhancer_cost - before.enhancer_cost
            &&& reread.live_weapon_damage - read.live_weapon_damage == after.damage_dealt
                - before.damage_dealt
            &&& reread.returned == read.returned
            &&& reread.damage_total == read.damage_total
            &&& reread.shots_total == read.shots_total
            &&& reread.crits_total == read.crits_total
            &&& reread.kill_count == read.kill_count
        }),
{
}

/// A session with one kill more costs what its shots and enhancers cost more,
/// returns its loot more, and counts its damage, shots, criticals and
/// announcements; it becomes the latest kill, and the largest where it is.
pub proof fn a_kill_adds_what_it_holds(
    active: ActiveSession,
    more: ActiveSession,
    read: SessionAggregate,
    reread: SessionAggregate,
    kill: KillView,
)
    requires
        read.adds_up(active),
        reread.adds_up(more),
        more.session@.kills == active.session@.kills.push(kill),
        more.session@.harvests == active.session@.harvests,
        more.accumulator@ == active.accumulator@,
        more.heal_cost == active.heal_cost,
    ensures
        ({
            let shots = phases::total_cost(kill.tool_stats);
            &&& reread.kill_count == read.kill_count + 1
            &&& reread.cost == read.cost + shots + kill.enhancer_cost
            &&& reread.weapon_cost == read.weapon_cost + shots
            &&& reread.returned == read.returned + kill.loot_total_ped
            &&& reread.damage_total == read.damage_total + kill.damage_dealt
            &&& reread.live_weapon_damage == read.live_weapon_damage + kill.damage_dealt
            &&& reread.shots_total == read.shots_total + kill.shots_fired
            &&& reread.crits_total == read.crits_total + kill.critical_hits
            &&& reread.globals_count == read.globals_count + (if kill.is_global {
                1int
            } else {
                0int
            })
            &&& reread.hofs_count == read.hofs_count + (if kill.is_hof {
                1int
            } else {
                0int
            })
            &&& reread.max_damage == (if kill.damage_dealt > read.max_damage {
                kill.damage_dealt
            } else {
                read.max_damage
            })
            &&& reread.latest_kill_loot == Some(kill.loot_total_ped)
            &&& reread.harvest_swings == read.harvest_swings
            &&& reread.harvest_successes == read.harvest_successes
            &&& reread.harvest_loot == read.harvest_loot
            &&& reread.harvest_cost == read.harvest_cost
        }),
{
    let kills = active.session@.kills;
    lists::total_push(kills, kill, readout::weapon_of());
    lists::total_push(kills, kill, readout::enhancer_of());
    lists::total_push(kills, kill, readout::loot_of());
    lists::total_push(kills, kill, readout::damage_of());
    lists::total_push(kills, kill, readout::shots_of());
    lists::total_push(kills, kill, readout::crits_of());
    lists::total_push(kills, kill, readout::globals_of());
    lists::total_push(kills, kill, readout::hofs_of());
    assert(kills.push(kill).drop_last() =~= kills);
}

/// A session with one swing more costs its price more and returns its loot
/// more, and counts it, and its success where it was one; nothing of the kills
/// changes.
pub proof fn a_swing_adds_what_it_holds(
    active: ActiveSession,
    more: ActiveSession,
    read: SessionAggregate,
    reread: SessionAggregate,
    harvest: HarvestView,
)
    requires
        read.adds_up(active),
        reread.adds_up(more),
        more.session@.kills == active.session@.kills,
        more.session@.harvests == active.session@.harvests.push(harvest),
        more.accumulator@ == active.accumulator@,
        more.heal_cost == active.heal_cost,
    ensures
        reread.cost == read.cost + harvest.cost_ped,
        reread.harvest_cost == read.harvest_cost + harvest.cost_ped,
        reread.returned == read.returned + harvest.loot_total_ped,
        reread.harvest_loot == read.harvest_loot + harvest.loot_total_ped,
        reread.harvest_swings == read.harvest_swings + 1,
        reread.harvest_successes == read.harvest_successes + (if harvest.success {
            1int
        } else {
            0int
        }),
        reread.kill_count == read.kill_count,
        reread.weapon_cost == read.weapon_cost,
        reread.damage_total == read.damage_total,
        reread.live_weapon_damage == read.live_weapon_damage,
        reread.shots_total == read.shots_total,
        reread.crits_total == read.crits_total,
        reread.latest_kill_loot == read.latest_kill_loot,
        reread.max_damage == read.max_damage,
{
    let harvests = active.session@.harvests;
    lists::total_push(harvests, harvest, readout::swing_cost_of());
    lists::total_push(harvests, harvest, readout::swing_loot_of());
    lists::total_push(harvests, harvest, readout::successes_of());
}

/// A session without kills or swings costs its healing, its pending shots and
/// their enhancers, and has returned nothing.
pub proof fn a_fresh_session_costs_what_is_pending(active: ActiveSession, read: SessionAggregate)
    requires
        read.adds_up(active),
        active.session@.kills.len() == 0,
        active.session@.harvests.len() == 0,
    ensures
        read.cost == active.heal_cost + phases::total_cost(active.accumulator@.tool_stats)
            + active.accumulator@.enhancer_cost,
        read.weapon_cost == phases::total_cost(active.accumulator@.tool_stats),
        read.returned == 0,
        read.damage_total == 0,
        read.live_weapon_damage == active.accumulator@.damage_dealt,
        read.max_damage == 0,
        read.shots_total == 0,
        read.crits_total == 0,
        read.globals_count == 0,
        read.hofs_count == 0,
        read.kill_count == 0,
        read.latest_kill_loot is None,
        read.harvest_swings == 0,
        read.harvest_successes == 0,
        read.harvest_cost == 0,
        read.harvest_loot == 0,
{
}

/// What a run of phases cost is each phase's shots at its price: one phase more
/// adds its own, and no phases cost nothing.
pub proof fn phases_cost_their_shots(phases: PhasesView, phase: (Seq<char>, StatsView))
    ensures
        phases::total_cost(phases.push(phase)) == phases::total_cost(phases)
            + phase.1.cost_per_shot.0 * phase.1.shots_fired,
        phases::total_shots(phases.push(phase)) == phases::total_shots(phases)
            + phase.1.shots_fired,
        phases::total_damage(phases.push(phase)) == phases::total_damage(phases)
            + phase.1.damage_dealt,
        phases::total_criticals(phases.push(phase)) == phases::total_criticals(phases)
            + phase.1.critical_hits,
        phases::total_cost(Seq::empty()) == 0,
        phases::total_shots(Seq::empty()) == 0,
        phases::total_damage(Seq::empty()) == 0,
        phases::total_criticals(Seq::empty()) == 0,
{
    phases::totals_push(phases, phase);
}

/// The spend an expected return is evaluated from is that of the kills, in
/// turn, and of the pending shots after them, at the looter levels the session
/// started with.
pub proof fn a_kill_adds_what_it_cycled(
    active: ActiveSession,
    more: ActiveSession,
    read: SessionAggregate,
    reread: SessionAggregate,
    kill: KillView,
)
    requires
        read.traces(active),
        reread.traces(more),
        more.session@.kills == active.session@.kills.push(kill),
        active.accumulator@.tool_stats.len() == 0,
    ensures
        reread.expected@.components == read.expected@.components + expected::cycled_phases(
            kill.tool_stats,
        ) + expected::cycled_phases(more.accumulator@.tool_stats),
        read.expected@.looters == active.hunting_looters,
        reread.expected@.looters == more.hunting_looters,
{
    let kills = active.session@.kills;
    assert(kills.push(kill).drop_last() =~= kills);
    assert(expected::cycled_kills(kills) + expected::cycled_phases(active.accumulator@.tool_stats)
        =~= expected::cycled_kills(kills));
}

/// How long a session has run is counted in whole seconds, a part of one
/// dropped on either side of its start.
pub proof fn elapsed_counts_whole_seconds(span: int)
    ensures
        span >= 0 ==> aggregate::whole_seconds(span) * 1_000_000_000 <= span < (
        aggregate::whole_seconds(span) + 1) * 1_000_000_000,
        span < 0 ==> (aggregate::whole_seconds(span) - 1) * 1_000_000_000 < span
            <= aggregate::whole_seconds(span) * 1_000_000_000,
{
}

/// A kill whose shots cost something has a multiplier, its loot over that
/// cost, behind those of the earlier kills; another has none.
pub proof fn a_costly_kill_adds_its_multiplier(kills: Seq<KillView>, kill: KillView)
    ensures
        kill.cost_ped > 0 && kill.cost_ped <= i128::MAX ==> readout::multipliers(kills.push(kill))
            == readout::multipliers(kills).push(
            KillReturn { loot: kill.loot_total_ped, cost: kill.cost_ped as i128 },
        ),
        kill.cost_ped <= 0 ==> readout::multipliers(kills.push(kill)) == readout::multipliers(
            kills,
        ),
        readout::multipliers(Seq::empty()).len() == 0,
{
    lists::filter_push(kills, kill, readout::costly());
    lists::filter_none(kills, readout::costly());
    let after = readout::multipliers(kills.push(kill));
    if kill.cost_ped > 0 {
        assert(after =~= readout::multipliers(kills).push(readout::multiplier(kill)));
    } else {
        assert(after =~= readout::multipliers(kills));
    }
}

/// A multiplier is larger than another by the quotients of loot and cost; it
/// shows the nearest ten-thousandth, and enters a mean as the nearest 10^-18.
pub proof fn a_multiplier_is_loot_over_cost(value: KillReturn, other: KillReturn)
    requires
        value.cost > 0,
        other.cost > 0,
    ensures
        value.exceeds(other) <==> value.loot * other.cost > other.loot * value.cost,
        value.shown() % 100_000_000 == 0,
        -(value.cost * 100_000_000) <= 2 * (value.shown() * value.cost - value.loot
            * 1_000_000_000_000) <= value.cost * 100_000_000,
        -value.cost <= 2 * (value.fine() * value.cost - value.loot * 1_000_000_000_000_000_000)
            <= value.cost,
{
    let loot = value.loot as int;
    let cost = value.cost as int;
    near_quotient(loot, cost);
    units::half_even_is_nearest(loot * 1_000_000_000_000_000_000, cost);
}

proof fn near_quotient(num: int, den: int)
    requires
        den > 0,
    ensures
        units::rate(num, den) % 100_000_000 == 0,
        -(den * 100_000_000) <= 2 * (units::rate(num, den) * den - num * 1_000_000_000_000) <= den
            * 100_000_000,
{
    let nearest = units::half_even(num * 10_000, den);
    units::half_even_is_nearest(num * 10_000, den);
    assert(units::rate(num, den) == nearest * 100_000_000);
    assert((nearest * 100_000_000) * den == (nearest * den) * 100_000_000) by (nonlinear_arith);
}

/// A mean shows the ten-thousandth nearest the sum over the kills.
pub proof fn a_mean_is_the_sum_over_the_kills(mean: MeanReturn)
    requires
        mean.kills > 0,
    ensures
        mean.shown() % 100_000_000 == 0,
        -(mean.kills * 100_000_000_000_000) <= 2 * (mean.shown() * mean.kills * 1_000_000
            - mean.total) <= mean.kills * 100_000_000_000_000,
{
    let kills = mean.kills as int;
    let den = kills * 100_000_000_000_000;
    let nearest = units::half_even(mean.total as int, den);
    units::half_even_is_nearest(mean.total as int, den);
    assert(mean.shown() == nearest * 100_000_000);
    assert((nearest * 100_000_000) * kills * 1_000_000 == nearest * den) by (nonlinear_arith)
        requires
            den == kills * 100_000_000_000_000,
    ;
}

/// A history keeps the newest hundred and twenty points, in their order, and
/// all of them where there are no more.
pub proof fn a_history_keeps_the_newest<A>(history: Seq<A>, back: int)
    ensures
        readout::recent(history).len() == (if history.len() > 120 {
            120
        } else {
            history.len()
        }),
        0 <= back < readout::recent(history).len() ==> readout::recent(
            history,
        )[readout::recent(history).len() - 1 - back] == history[history.len() - 1 - back],
{
}

/// The largest damage of a run of kills is that of one of them, or none where
/// no kill took any, and no kill exceeds it.
pub proof fn no_kill_exceeds_the_largest(kills: Seq<KillView>)
    ensures
        forall|i: int|
            0 <= i < kills.len() ==> (#[trigger] kills[i]).damage_dealt <= readout::largest_damage(
                kills,
            ),
        readout::largest_damage(kills) == 0 || exists|i: int|
            0 <= i < kills.len() && (#[trigger] kills[i]).damage_dealt == readout::largest_damage(
                kills,
            ),
        readout::largest_damage(kills) >= 0,
    decreases kills.len(),
{
    if kills.len() > 0 {
        let rest = kills.drop_last();
        no_kill_exceeds_the_largest(rest);
        assert forall|i: int| 0 <= i < kills.len() implies (#[trigger] kills[i]).damage_dealt
            <= readout::largest_damage(kills) by {
            if i < rest.len() {
                assert(rest[i] == kills[i]);
            }
        }
        if readout::largest_damage(kills) == kills.last().damage_dealt {
            assert(kills[kills.len() - 1].damage_dealt == readout::largest_damage(kills));
        } else if readout::largest_damage(kills) != 0 {
            let i = choose|i: int|
                0 <= i < rest.len() && (#[trigger] rest[i]).damage_dealt
                    == readout::largest_damage(rest);
            assert(kills[i].damage_dealt == readout::largest_damage(kills));
        }
    }
}

/// A point of the net curve: what the events up to it netted of their own, less
/// the share of the healing that their weapon cost is of the whole, to the
/// nearest hundredth. Without weapon cost no healing is shared out.
pub proof fn a_point_shares_the_healing_by_weapon_cost(
    events: Seq<NetEvent>,
    heal: int,
    total: int,
    at: int,
)
    requires
        0 <= at < events.len(),
    ensures
        ({
            let line = net_curve::curve(events, heal, total);
            let own = lists::total(events.take(at + 1), |event: NetEvent| event.own);
            let weapon = lists::total(events.take(at + 1), |event: NetEvent| event.weapon);
            &&& line.len() == events.len()
            &&& line[at] % 10_000_000_000 == 0
            &&& total > 0 ==> -(total * 10_000_000_000) <= 2 * (line[at] * total - (own * total
                - heal * weapon)) <= total * 10_000_000_000
            &&& total <= 0 ==> -10_000_000_000 <= 2 * (line[at] - own) <= 10_000_000_000
        }),
{
    assert(net_curve::own_of() =~= (|event: NetEvent| event.own));
    assert(net_curve::spent_of() =~= (|event: NetEvent| event.weapon));
    let own = lists::total(events.take(at + 1), net_curve::own_of());
    let weapon = lists::total(events.take(at + 1), net_curve::spent_of());
    if total > 0 {
        let num = own * total - heal * weapon;
        let den = total * 10_000_000_000;
        let nearest = units::half_even(num, den);
        units::half_even_is_nearest(num, den);
        assert(net_curve::curve(events, heal, total)[at] == nearest * 10_000_000_000);
        assert((nearest * 10_000_000_000) * total == nearest * den) by (nonlinear_arith)
            requires
                den == total * 10_000_000_000,
        ;
    } else {
        units::half_even_is_nearest(own, 10_000_000_000);
    }
}

/// A kill's event nets its loot less what its shots and enhancers cost, at its
/// own instant and with its shots' cost; a swing's nets its loot less its
/// price, at its instant, and has no weapon cost. The events are the kills' and
/// the swings', each once.
pub proof fn each_kill_and_swing_is_one_event(
    kills: Seq<KillView>,
    harvests: Seq<HarvestView>,
    at: int,
)
    ensures
        ({
            let events = net_curve::net_events(kills, harvests);
            &&& events.len() == kills.len() + harvests.len()
            &&& 0 <= at < kills.len() ==> ({
                let shots = phases::total_cost(kills[at].tool_stats);
                &&& events[at].at == kills[at].timestamp
                &&& events[at].weapon == shots
                &&& events[at].own == kills[at].loot_total_ped - shots - kills[at].enhancer_cost
            })
            &&& 0 <= at < harvests.len() ==> ({
                let event = events[kills.len() + at];
                &&& event.at == harvests[at].timestamp
                &&& event.weapon == 0
                &&& event.own == harvests[at].loot_total_ped - harvests[at].cost_ped
            })
        }),
{
}

/// Whether a figure shows another to the nearest multiple of a step.
pub open spec fn shows_to(figure: int, value: int, step: int) -> bool {
    &&& figure % step == 0
    &&& -step <= 2 * (figure - value) <= step
}

proof fn rounding_shows(value: int, step: int)
    requires
        step > 0,
    ensures
        shows_to(units::rounded(value, step), value, step),
{
    units::half_even_is_nearest(value, step);
    let nearest = units::half_even(value, step);
    assert((nearest * step) % step == 0) by {
        vstd::arithmetic::div_mod::lemma_mod_multiples_basic(nearest, step);
    }
}

/// What a view shows of a read: money to the hundredth, damage to the tenth,
/// the weapons' cost to the millionth and the harvest's money to the
/// ten-thousandth, each the nearest; the net from the unrounded sides; and
/// what came back for each PED spent, or zero where nothing was.
pub proof fn a_view_shows_the_nearest(
    view: ActiveSessionView,
    read: SessionAggregate,
    skill_tt: i128,
)
    requires
        view.of(read, skill_tt),
    ensures
        shows_to(view.cost as int, read.cost as int, 10_000_000_000),
        shows_to(view.returned as int, read.returned as int, 10_000_000_000),
        shows_to(view.pes as int, skill_tt as int, 10_000_000_000),
        shows_to(view.net as int, read.returned - read.cost, 10_000_000_000),
        shows_to(view.damage_dealt_total as int, read.damage_total as int, 100_000_000_000),
        shows_to(view.weapon_damage_dealt as int, read.live_weapon_damage as int, 100_000_000_000),
        shows_to(view.max_damage as int, read.max_damage as int, 100_000_000_000),
        shows_to(view.weapon_cost as int, read.weapon_cost as int, 1_000_000),
        shows_to(view.harvest_loot as int, read.harvest_loot as int, 100_000_000),
        shows_to(view.harvest_cost as int, read.harvest_cost as int, 100_000_000),
        read.cost <= 0 ==> view.return_rate == 0,
        read.cost > 0 ==> -(read.cost * 100_000_000) <= 2 * (view.return_rate * read.cost
            - read.returned * 1_000_000_000_000) <= read.cost * 100_000_000,
        view.return_rate % 100_000_000 == 0,
{
    rounding_shows(read.cost as int, 10_000_000_000);
    rounding_shows(read.returned as int, 10_000_000_000);
    rounding_shows(skill_tt as int, 10_000_000_000);
    rounding_shows(read.returned - read.cost, 10_000_000_000);
    rounding_shows(read.damage_total as int, 100_000_000_000);
    rounding_shows(read.live_weapon_damage as int, 100_000_000_000);
    rounding_shows(read.max_damage as int, 100_000_000_000);
    rounding_shows(read.weapon_cost as int, 1_000_000);
    rounding_shows(read.harvest_loot as int, 100_000_000);
    rounding_shows(read.harvest_cost as int, 100_000_000);
    if read.cost > 0 {
        near_quotient(read.returned as int, read.cost as int);
    }
}

/// A view has a multiplier, and a latest loot, exactly where the read has one.
pub proof fn a_view_shows_what_there_is(
    view: ActiveSessionView,
    read: SessionAggregate,
    skill_tt: i128,
)
    requires
        view.of(read, skill_tt),
    ensures
        (view.latest_kill_loot is Some) == (read.latest_kill_loot is Some),
        (view.multiplier_last is Some) == (read.multipliers.last is Some),
        (view.multiplier_avg is Some) == (read.multipliers.avg is Some),
        (view.multiplier_max is Some) == (read.multipliers.max is Some),
        read.latest_kill_loot is Some && -0x4000_0000_0000_0000_0000 <= read.latest_kill_loot->0
            <= 0x4000_0000_0000_0000_0000 ==> shows_to(
            view.latest_kill_loot->0 as int,
            read.latest_kill_loot->0 as int,
            10_000_000_000,
        ),
{
    if let Some(loot) = read.latest_kill_loot {
        rounding_shows(loot as int, 10_000_000_000);
    }
}

/// A view carries a read's counts, histories and standing facts unchanged.
pub proof fn a_view_carries_the_counts(view: ActiveSessionView, read: SessionAggregate)
    requires
        view.carries(read),
    ensures
        view.session_id == read.session_id && view.started_at == read.started_at,
        view.kill_count == read.kill_count && view.elapsed == read.elapsed,
        view.shots_fired_total == read.shots_total,
        view.critical_hits_total == read.crits_total,
        view.globals_count == read.globals_count && view.hofs_count == read.hofs_count,
        view.harvest_swings == read.harvest_swings,
        view.harvest_successes == read.harvest_successes,
        view.unpriced_shots == read.unpriced_shots,
        view.multiplier_history == read.multipliers.history,
        view.cumulative_net_history == read.cumulative_net,
        view.current_mob == read.mob_name && view.session_name == read.session_name,
        view.definition_id == read.definition_id,
        view.track_protection_costs == read.track_protection_costs,
        view.skill_boost_percent == read.skill_boost_percent,
        view.active_activities == read.active_activities,
        view.harvest_guardrail_mismatch == read.guardrail_mismatch,
        view.weapon_guardrail_mismatch == read.weapon_mismatch,
        view.warnings == read.warnings && view.healing == read.healing,
{
}

/// The multipliers a read holds: the latest kill's where its shots cost
/// something, the mean's and the largest where any kill's did, and a history of
/// them all, newest last.
pub proof fn a_read_holds_the_multipliers(active: ActiveSession, read: SessionAggregate)
    requires
        read.traces(active),
    ensures
        ({
            let kills = active.session@.kills;
            let all = readout::multipliers(kills);
            let fine = Seq::new(all.len(), |i: int| all[i].fine());
            let held = read.multipliers;
            &&& (held.last is Some) == (kills.len() > 0 && kills.last().cost_ped > 0)
            &&& held.last is Some ==> held.last->0.loot == kills.last().loot_total_ped
            &&& held.last is Some && kills.last().cost_ped <= i128::MAX ==> held.last->0.cost
                == kills.last().cost_ped
            &&& (held.avg is Some) == (all.len() > 0)
            &&& all.len() > 0 && all.len() <= i64::MAX ==> held.avg->0.kills == all.len()
            &&& ({
                let sum = lists::total(fine, |value: int| value);
                all.len() > 0 && i128::MIN <= sum <= i128::MAX ==> held.avg->0.total == sum
            })
            &&& (held.max is Some) == (all.len() > 0)
            &&& all.len() > 0 ==> held.max->0 == readout::largest(all)
            &&& held.history@.len() == (if all.len() > 120 {
                120
            } else {
                all.len()
            })
            &&& forall|back: int|
                0 <= back < held.history@.len()
                    ==> #[trigger] held.history@[held.history@.len() - 1 - back] == all[all.len()
                    - 1 - back].shown()
        }),
{
    let all = readout::multipliers(active.session@.kills);
    let held = read.multipliers;
    assert(readout::in_fine_units(all) =~= Seq::new(all.len(), |i: int| all[i].fine()));
    assert(readout::figures(held.history@) == readout::recent(readout::to_places(all)));
    assert(readout::figures(held.history@).len() == held.history@.len());
    assert forall|back: int| 0 <= back < held.history@.len() implies
        #[trigger] held.history@[held.history@.len() - 1 - back] == all[all.len() - 1
        - back].shown() by {
        a_history_keeps_the_newest(readout::to_places(all), back);
        assert(readout::figures(held.history@)[held.history@.len() - 1 - back]
            == held.history@[held.history@.len() - 1 - back]);
    }
}

/// The net curve a read holds is the newest points of that of its kills and
/// swings in time order, the healing shared by the kills' weapon cost.
pub proof fn a_read_holds_the_newest_points(active: ActiveSession, read: SessionAggregate, back: int)
    requires
        read.traces(active),
        0 <= back < read.cumulative_net@.len(),
    ensures
        ({
            let kills = active.session@.kills;
            let events = net_curve::in_time_order(
                net_curve::net_events(kills, active.session@.harvests),
            );
            let line = net_curve::curve(
                events,
                active.heal_cost as int,
                lists::total(kills, |kill: KillView| phases::total_cost(kill.tool_stats)),
            );
            let points = read.cumulative_net@;
            &&& points.len() == (if line.len() > 120 {
                120
            } else {
                line.len()
            })
            &&& points[points.len() - 1 - back] == line[line.len() - 1 - back]
        }),
{
    let kills = active.session@.kills;
    let line = net_curve::net_curve(kills, active.session@.harvests, active.heal_cost as int);
    assert(readout::weapon_of() =~= (|kill: KillView| phases::total_cost(kill.tool_stats)));
    assert(readout::figures(read.cumulative_net@) == readout::recent(line));
    assert(readout::figures(read.cumulative_net@).len() == read.cumulative_net@.len());
    a_history_keeps_the_newest(line, back);
    let points = read.cumulative_net@;
    assert(readout::figures(points)[points.len() - 1 - back] == points[points.len() - 1 - back]);
}

/// A view shows each multiplier as its own four decimals.
pub proof fn a_view_shows_its_multipliers(
    view: ActiveSessionView,
    read: SessionAggregate,
    skill_tt: i128,
)
    requires
        view.of(read, skill_tt),
    ensures
        read.multipliers.last is Some && i128::MIN <= read.multipliers.last->0.shown() <= i128::MAX
            ==> view.multiplier_last->0 == read.multipliers.last->0.shown(),
        read.multipliers.avg is Some && i128::MIN <= read.multipliers.avg->0.shown() <= i128::MAX
            ==> view.multiplier_avg->0 == read.multipliers.avg->0.shown(),
        read.multipliers.max is Some && i128::MIN <= read.multipliers.max->0.shown() <= i128::MAX
            ==> view.multiplier_max->0 == read.multipliers.max->0.shown(),
{
}

/// A session that has just started can be read.
pub proof fn a_started_session_can_be_read(active: ActiveSession)
    requires
        active.session@.kills.len() == 0,
        active.session@.harvests.len() == 0,
        active.accumulator@.tool_stats.len() == 0,
        active.accumulator@.enhancer_cost == 0,
        active.accumulator@.damage_dealt == 0,
        -10_000_000_000_000_000_000 <= active.heal_cost <= 10_000_000_000_000_000_000,
    ensures
        aggregate::readable(active),
{
}

/// A session stays readable with one kill more, as long as what its kills come to
/// in money stays within ten million PED and their tallies within range.
pub proof fn a_session_stays_readable_with_a_kill(
    active: ActiveSession,
    more: ActiveSession,
    kill: KillView,
)
    requires
        aggregate::readable(active),
        more.session@.kills == active.session@.kills.push(kill),
        more.session@.harvests == active.session@.harvests,
        more.accumulator@ == active.accumulator@,
        more.heal_cost == active.heal_cost,
        more.session@.kills.len() <= i64::MAX,
        phases::countable(kill.tool_stats),
        expected::all_scalable(kill.tool_stats),
        ({
            let kills = active.session@.kills;
            &&& lists::total(kills, readout::money_weight()) + readout::size(
                phases::total_cost(kill.tool_stats),
            ) + readout::size(kill.enhancer_cost as int) + readout::size(
                kill.loot_total_ped as int,
            ) + readout::size(kill.cost_ped) <= 10_000_000_000_000_000_000
            &&& lists::total(kills, readout::tally_weight()) + readout::size(
                kill.damage_dealt as int,
            ) + readout::size(kill.shots_fired as int) + readout::size(kill.critical_hits as int)
                <= 100_000_000_000_000_000_000_000_000
            &&& i64::MIN <= lists::total(kills, readout::shots_of()) + kill.shots_fired <= i64::MAX
            &&& i64::MIN <= lists::total(kills, readout::crits_of()) + kill.critical_hits
                <= i64::MAX
        }),
    ensures
        aggregate::readable(more),
{
    let kills = active.session@.kills;
    lists::total_push(kills, kill, readout::money_weight());
    lists::total_push(kills, kill, readout::tally_weight());
    lists::total_push(kills, kill, readout::shots_of());
    lists::total_push(kills, kill, readout::crits_of());
    let all = more.session@.kills;
    assert forall|i: int| 0 <= i < all.len() implies phases::countable(
        (#[trigger] all[i]).tool_stats,
    ) && expected::all_scalable(all[i].tool_stats) by {
        if i < kills.len() {
            assert(all[i] == kills[i]);
        }
    }
}

} // verus!
