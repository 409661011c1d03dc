//! What the readout shows: the session's figures as rounded for display.

use crate::aggregate;
use crate::aggregate::SessionAggregate;
use crate::attribution::WeaponMismatch;
use crate::harvest::GuardrailMismatch;
use crate::healing::HealingReadout;
use crate::intervals::ActiveActivity;
use crate::readout;
use crate::readout::{KillReturn, MeanReturn};
use crate::units;
use crate::units::{
    rate_of, round_half_even, HUNDREDTH, MILLIONTH, TENTH, TEN_THOUSANDTH, WHOLE,
};
use vstd::prelude::*;

verus! {

/// One row of the notable-event feed.
#[derive(Debug, PartialEq, Eq)]
pub struct NotableRow {
    pub event_type: String,
    pub mob_or_item: String,
    pub value_ped: i64,
    pub timestamp: Option<i64>,
}

/// What an expected return was evaluated to.
#[derive(Debug, PartialEq, Eq)]
pub struct ExpectedReturn {
    pub tt_rate: Option<i64>,
    pub coverage: i64,
    pub model_version: String,
}

/// A live session as the readout shows it.
pub struct ActiveSessionView {
    pub session_id: String,
    pub started_at: i64,
    pub kill_count: i64,
    pub elapsed: i64,
    pub cost: i128,
    pub returned: i128,
    pub pes: i128,
    pub net: i128,
    pub return_rate: i128,
    pub damage_dealt_total: i128,
    pub weapon_damage_dealt: i128,
    pub weapon_cost: i128,
    pub expected: Option<ExpectedReturn>,
    pub shots_fired_total: i64,
    pub critical_hits_total: i64,
    pub max_damage: i128,
    pub globals_count: i64,
    pub hofs_count: i64,
    pub latest_kill_loot: Option<i128>,
    pub multiplier_last: Option<i128>,
    pub multiplier_avg: Option<i128>,
    pub multiplier_max: Option<i128>,
    pub multiplier_history: Vec<i128>,
    pub cumulative_net_history: Vec<i128>,
    pub current_mob: Option<String>,
    pub session_name: Option<String>,
    pub definition_id: Option<i64>,
    pub track_protection_costs: bool,
    pub skill_boost_percent: Option<i64>,
    pub active_activities: Vec<ActiveActivity>,
    pub harvest_swings: i64,
    pub harvest_successes: i64,
    pub harvest_loot: i128,
    pub harvest_cost: i128,
    pub harvest_guardrail_mismatch: Option<GuardrailMismatch>,
    pub weapon_guardrail_mismatch: Option<WeaponMismatch>,
    pub unpriced_shots: i64,
    pub notable_event_rows: Vec<NotableRow>,
    pub warnings: Vec<String>,
    pub healing: HealingReadout,
}

/// A figure as shown to a step.
pub open spec fn shown(value: i128, step: i128) -> int {
    units::rounded(value as int, step as int)
}

/// An optional figure as shown to a step.
pub open spec fn shown_opt(value: Option<i128>, step: i128) -> Option<i128> {
    match value {
        Some(value) => Some(shown(value, step) as i128),
        None => None,
    }
}

/// What came back for each PED spent, to four decimals from the unrounded
/// figures; nothing spent shows as zero.
pub open spec fn shown_rate(returned: i128, cost: i128) -> int {
    if cost > 0 {
        units::rate(returned as int, cost as int)
    } else {
        0
    }
}

/// A kill's multiplier as shown, when there is one: its loot over its cost, to
/// four decimals.
pub open spec fn shown_return(value: Option<KillReturn>) -> Option<i128> {
    match value {
        Some(value) => Some(value.shown() as i128),
        None => None,
    }
}

fn show_return(value: &Option<KillReturn>) -> (shown: Option<i128>)
    requires
        readout::return_bounded(*value),
    ensures
        shown == shown_return(*value),
{
    match value {
        Some(value) => Some(value.to_four_places()),
        None => None,
    }
}

/// The mean multiplier as shown, when there is one.
pub open spec fn shown_mean(value: Option<MeanReturn>) -> Option<i128> {
    match value {
        Some(value) => Some(value.shown() as i128),
        None => None,
    }
}

fn show_mean(value: &Option<MeanReturn>) -> (shown: Option<i128>)
    requires
        readout::mean_bounded(*value),
    ensures
        shown == shown_mean(*value),
{
    match value {
        Some(value) => Some(value.to_four_places()),
        None => None,
    }
}

fn round_opt(value: Option<i128>, step: i128) -> (nearest: Option<i128>)
    requires
        0 < step <= WHOLE,
        aggregate::roundable_opt(value),
    ensures
        nearest == shown_opt(value, step),
{
    match value {
        Some(value) => Some(round_half_even(value, step)),
        None => None,
    }
}

impl ActiveSessionView {
    /// Whether this shows an aggregate, with what the session's skills gained.
    pub open spec fn of(self, read: SessionAggregate, skill_tt: i128) -> bool {
        &&& self.cost == shown(read.cost, HUNDREDTH)
        &&& self.returned == shown(read.returned, HUNDREDTH)
        &&& self.pes == shown(skill_tt, HUNDREDTH)
        &&& self.net == units::rounded(read.returned - read.cost, HUNDREDTH as int)
        &&& self.return_rate == shown_rate(read.returned, read.cost)
        &&& self.damage_dealt_total == shown(read.damage_total, TENTH)
        &&& self.weapon_damage_dealt == shown(read.live_weapon_damage, TENTH)
        &&& self.weapon_cost == shown(read.weapon_cost, MILLIONTH)
        &&& self.max_damage == shown(read.max_damage, TENTH)
        &&& self.latest_kill_loot == shown_opt(read.latest_kill_loot, HUNDREDTH)
        &&& self.multiplier_last == shown_return(read.multipliers.last)
        &&& self.multiplier_avg == shown_mean(read.multipliers.avg)
        &&& self.multiplier_max == shown_return(read.multipliers.max)
        &&& self.harvest_loot == shown(read.harvest_loot, TEN_THOUSANDTH)
        &&& self.harvest_cost == shown(read.harvest_cost, TEN_THOUSANDTH)
    }

    /// Whether the rest is an aggregate's, unchanged.
    pub open spec fn carries(self, read: SessionAggregate) -> bool {
        &&& self.session_id == read.session_id
        &&& self.started_at == read.started_at
        &&& self.kill_count == read.kill_count
        &&& self.elapsed == read.elapsed
        &&& self.shots_fired_total == read.shots_total
        &&& self.critical_hits_total == read.crits_total
        &&& self.globals_count == read.globals_count
        &&& self.hofs_count == read.hofs_count
        &&& self.multiplier_history == read.multipliers.history
        &&& self.cumulative_net_history == read.cumulative_net
        &&& self.current_mob == read.mob_name
        &&& self.session_name == read.session_name
        &&& self.definition_id == read.definition_id
        &&& self.track_protection_costs == read.track_protection_costs
        &&& self.skill_boost_percent == read.skill_boost_percent
        &&& self.active_activities == read.active_activities
        &&& self.harvest_swings == read.harvest_swings
        &&& self.harvest_successes == read.harvest_successes
        &&& self.harvest_guardrail_mismatch == read.guardrail_mismatch
        &&& self.weapon_guardrail_mismatch == read.weapon_mismatch
        &&& self.unpriced_shots == read.unpriced_shots
        &&& self.warnings == read.warnings
        &&& self.healing == read.healing
    }
}

/// Show an aggregate: its figures rounded, beside what the session's skills
/// gained, its evaluated expectation and its notable-event feed.
pub fn show(
    read: SessionAggregate,
    skill_tt: i128,
    expected: Option<ExpectedReturn>,
    notable: Vec<NotableRow>,
) -> (view: ActiveSessionView)
    requires
        aggregate::showable(read),
        aggregate::roundable(skill_tt),
    ensures
        view.of(read, skill_tt),
        view.carries(read),
        view.expected == expected,
        view.notable_event_rows == notable,
{
    let return_rate: i128 = if read.cost > 0 {
        rate_of(read.returned, read.cost)
    } else {
        0
    };
    ActiveSessionView {
        session_id: read.session_id,
        started_at: read.started_at,
        kill_count: read.kill_count,
        elapsed: read.elapsed,
        cost: round_half_even(read.cost, HUNDREDTH),
        returned: round_half_even(read.returned, HUNDREDTH),
        pes: round_half_even(skill_tt, HUNDREDTH),
        net: round_half_even(read.returned - read.cost, HUNDREDTH),
        return_rate,
        damage_dealt_total: round_half_even(read.damage_total, TENTH),
        weapon_damage_dealt: round_half_even(read.live_weapon_damage, TENTH),
        weapon_cost: round_half_even(read.weapon_cost, MILLIONTH),
        expected,
        shots_fired_total: read.shots_total,
        critical_hits_total: read.crits_total,
        max_damage: round_half_even(read.max_damage, TENTH),
        globals_count: read.globals_count,
        hofs_count: read.hofs_count,
        latest_kill_loot: round_opt(read.latest_kill_loot, HUNDREDTH),
        multiplier_last: show_return(&read.multipliers.last),
        multiplier_avg: show_mean(&read.multipliers.avg),
        multiplier_max: show_return(&read.multipliers.max),
        multiplier_history: read.multipliers.history,
        cumulative_net_history: read.cumulative_net,
        current_mob: read.mob_name,
        session_name: read.session_name,
        definition_id: read.definition_id,
        track_protection_costs: read.track_protection_costs,
        skill_boost_percent: read.skill_boost_percent,
        active_activities: read.active_activities,
        harvest_swings: read.harvest_swings,
        harvest_successes: read.harvest_successes,
        harvest_loot: round_half_even(read.harvest_loot, TEN_THOUSANDTH),
        harvest_cost: round_half_even(read.harvest_cost, TEN_THOUSANDTH),
        harvest_guardrail_mismatch: read.guardrail_mismatch,
        weapon_guardrail_mismatch: read.weapon_mismatch,
        unpriced_shots: read.unpriced_shots,
        notable_event_rows: notable,
        warnings: read.warnings,
        healing: read.healing,
    }
}

} // verus!
