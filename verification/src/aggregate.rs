//! The tracking readout: what a live session shows at an instant.
//!
//! The aggregate holds the exact figures; the view holds what is shown, each
//! figure rounded half to even.

use crate::activities;
use crate::activities::{active_activities, shown_boost};
use crate::attribution::WeaponMismatch;
use crate::expected;
use crate::expected::{add_cycled_phases, can_scale, cycled_by_kills};
use crate::harvest::GuardrailMismatch;
use crate::healing::{read_healing, HealingReadout};
use crate::intervals::ActiveActivity;
use crate::lists;
use crate::net_curve;
use crate::net_curve::read_net_history;
use crate::phases;
use crate::phases::{can_add_up, weapon_cost, LooterSource, OffensiveLoadoutEvidence};
use crate::readout;
use crate::readout::{
    read_multipliers, total_harvests, total_kills, Multipliers, MONEY_LIMIT, TALLY_LIMIT,
};
use crate::records::{HarvestEvent, Kill};
use crate::session;
use crate::session::{ActiveSession, HeldItem, HotbarItemKind, SessionState};
use crate::text;
use crate::text::{copy_optional, copy_texts};
use crate::units;
use crate::units::{HUNDREDTH, SECOND, WHOLE};
use vstd::prelude::*;

verus! {

/// Whether a session's figures can be added up: every phase can be counted,
/// and the money and the tallies stay within their limits.
pub open spec fn readable(active: ActiveSession) -> bool {
    let kills = active.session@.kills;
    let harvests = active.session@.harvests;
    let pending = active.accumulator@;
    &&& forall|i: int|
        0 <= i < kills.len() ==> phases::countable((#[trigger] kills[i]).tool_stats)
            && expected::all_scalable(kills[i].tool_stats)
    &&& lists::total(kills, readout::money_weight()) <= MONEY_LIMIT
    &&& lists::total(kills, readout::tally_weight()) <= TALLY_LIMIT
    &&& i64::MIN <= lists::total(kills, readout::shots_of()) <= i64::MAX
    &&& i64::MIN <= lists::total(kills, readout::crits_of()) <= i64::MAX
    &&& lists::total(harvests, readout::swing_weight()) <= MONEY_LIMIT
    &&& kills.len() <= i64::MAX
    &&& harvests.len() <= i64::MAX
    &&& phases::countable(pending.tool_stats)
    &&& expected::all_scalable(pending.tool_stats)
    &&& readout::size(phases::total_cost(pending.tool_stats)) <= MONEY_LIMIT
    &&& readout::size(pending.enhancer_cost) <= MONEY_LIMIT
    &&& readout::size(pending.damage_dealt) <= TALLY_LIMIT
    &&& readout::size(active.heal_cost as int) <= MONEY_LIMIT
}

/// The size of a figure, where it is within a limit.
fn size_within(value: i128, limit: i128) -> (size: Option<i128>)
    requires
        0 <= limit <= TALLY_LIMIT,
    ensures
        match size {
            Some(size) => size == readout::size(value as int) && size <= limit,
            None => readout::size(value as int) > limit,
        },
{
    if value > limit || value < -limit {
        None
    } else if value < 0 {
        Some(-value)
    } else {
        Some(value)
    }
}

fn money_of(kill: &Kill) -> (weight: Option<i128>)
    requires
        phases::countable(kill@.tool_stats),
    ensures
        match weight {
            Some(weight) => weight == (readout::money_weight())(kill@) && weight <= 4
                * MONEY_LIMIT,
            None => (readout::money_weight())(kill@) > MONEY_LIMIT,
        },
{
    let weapon = size_within(weapon_cost(&kill.tool_stats), MONEY_LIMIT);
    let enhancer = size_within(kill.enhancer_cost, MONEY_LIMIT);
    let loot = size_within(kill.loot_total_ped, MONEY_LIMIT);
    let cost = size_within(kill.cost_ped, MONEY_LIMIT);
    match (weapon, enhancer, loot, cost) {
        (Some(weapon), Some(enhancer), Some(loot), Some(cost)) => {
            Some(weapon + enhancer + loot + cost)
        },
        _ => None,
    }
}

fn tally_of(kill: &Kill) -> (weight: Option<i128>)
    ensures
        match weight {
            Some(weight) => weight == (readout::tally_weight())(kill@) && weight <= 3
                * TALLY_LIMIT,
            None => (readout::tally_weight())(kill@) > TALLY_LIMIT,
        },
{
    let damage = size_within(kill.damage_dealt, TALLY_LIMIT);
    let shots = size_within(kill.shots_fired as i128, TALLY_LIMIT);
    let crits = size_within(kill.critical_hits as i128, TALLY_LIMIT);
    match (damage, shots, crits) {
        (Some(damage), Some(shots), Some(crits)) => Some(damage + shots + crits),
        _ => None,
    }
}

fn can_read_kills(kills: &Vec<Kill>) -> (yes: bool)
    ensures
        yes == ({
            let all = text::views(kills@);
            &&& forall|i: int|
                0 <= i < all.len() ==> phases::countable((#[trigger] all[i]).tool_stats)
                    && expected::all_scalable(all[i].tool_stats)
            &&& lists::total(all, readout::money_weight()) <= MONEY_LIMIT
            &&& lists::total(all, readout::tally_weight()) <= TALLY_LIMIT
            &&& i64::MIN <= lists::total(all, readout::shots_of()) <= i64::MAX
            &&& i64::MIN <= lists::total(all, readout::crits_of()) <= i64::MAX
        }),
{
    let ghost all = text::views(kills@);
    let mut money: i128 = 0;
    let mut tally: i128 = 0;
    let mut shots: i128 = 0;
    let mut crits: i128 = 0;
    let mut i: usize = 0;
    proof {
        lists::total_all(all, readout::money_weight());
        lists::total_all(all, readout::tally_weight());
        lists::total_all(all, readout::shots_of());
        lists::total_all(all, readout::crits_of());
    }
    while i < kills.len()
        invariant
            i <= kills.len(),
            all == text::views(kills@),
            forall|j: int|
                0 <= j < i ==> phases::countable((#[trigger] all[j]).tool_stats)
                    && expected::all_scalable(all[j].tool_stats),
            money == lists::total(all.take(i as int), readout::money_weight()),
            tally == lists::total(all.take(i as int), readout::tally_weight()),
            shots == lists::total(all.take(i as int), readout::shots_of()),
            crits == lists::total(all.take(i as int), readout::crits_of()),
            0 <= money <= MONEY_LIMIT,
            0 <= tally <= TALLY_LIMIT,
            readout::size(shots as int) <= tally,
            readout::size(crits as int) <= tally,
        decreases kills.len() - i,
    {
        let kill = &kills[i];
        proof {
            assert(all[i as int] == kill@);
            lists::total_step(all, i as int, readout::money_weight());
            lists::total_step(all, i as int, readout::tally_weight());
            lists::total_step(all, i as int, readout::shots_of());
            lists::total_step(all, i as int, readout::crits_of());
            lists::total_within(
                all,
                i as int + 1,
                readout::money_weight(),
                readout::money_weight(),
            );
            lists::total_within(
                all,
                i as int + 1,
                readout::tally_weight(),
                readout::tally_weight(),
            );
        }
        if !can_add_up(&kill.tool_stats) || !can_scale(&kill.tool_stats) {
            return false;
        }
        match money_of(kill) {
            Some(weight) => {
                money = money + weight;
            },
            None => {
                return false;
            },
        }
        match tally_of(kill) {
            Some(weight) => {
                tally = tally + weight;
            },
            None => {
                return false;
            },
        }
        if money > MONEY_LIMIT || tally > TALLY_LIMIT {
            return false;
        }
        shots = shots + kill.shots_fired as i128;
        crits = crits + kill.critical_hits as i128;
        i += 1;
    }
    i64::MIN as i128 <= shots && shots <= i64::MAX as i128 && i64::MIN as i128 <= crits && crits
        <= i64::MAX as i128
}

fn can_read_harvests(harvests: &Vec<HarvestEvent>) -> (yes: bool)
    ensures
        yes == (lists::total(text::views(harvests@), readout::swing_weight()) <= MONEY_LIMIT),
{
    let ghost all = text::views(harvests@);
    let mut money: i128 = 0;
    let mut i: usize = 0;
    proof {
        lists::total_all(all, readout::swing_weight());
    }
    while i < harvests.len()
        invariant
            i <= harvests.len(),
            all == text::views(harvests@),
            money == lists::total(all.take(i as int), readout::swing_weight()),
            0 <= money <= MONEY_LIMIT,
        decreases harvests.len() - i,
    {
        let harvest = &harvests[i];
        proof {
            assert(all[i as int] == harvest@);
            lists::total_step(all, i as int, readout::swing_weight());
            lists::total_within(
                all,
                i as int + 1,
                readout::swing_weight(),
                readout::swing_weight(),
            );
        }
        match (
            size_within(harvest.cost_ped, MONEY_LIMIT),
            size_within(harvest.loot_total_ped, MONEY_LIMIT),
        ) {
            (Some(cost), Some(loot)) => {
                money = money + cost + loot;
            },
            _ => {
                return false;
            },
        }
        if money > MONEY_LIMIT {
            return false;
        }
        i += 1;
    }
    true
}

/// Whether a session's figures can be added up.
pub fn can_read(active: &ActiveSession) -> (yes: bool)
    ensures
        yes == readable(*active),
{
    let kills = &active.session.kills;
    let harvests = &active.session.harvests;
    let pending = &active.accumulator;
    kills.len() as u128 <= i64::MAX as u128 && harvests.len() as u128 <= i64::MAX as u128
        && can_read_kills(kills) && can_read_harvests(harvests) && can_add_up(&pending.tool_stats)
        && can_scale(&pending.tool_stats) && size_within(
        weapon_cost(&pending.tool_stats),
        MONEY_LIMIT,
    ).is_some() && size_within(pending.enhancer_cost, MONEY_LIMIT).is_some() && size_within(
        pending.damage_dealt,
        TALLY_LIMIT,
    ).is_some() && size_within(active.heal_cost, MONEY_LIMIT).is_some()
}

/// Whole seconds of a span, cut towards zero.
pub open spec fn whole_seconds(span: int) -> int {
    if span >= 0 {
        span / (SECOND as int)
    } else {
        -((-span) / (SECOND as int))
    }
}

fn seconds_between(from: i64, to: i64) -> (seconds: i64)
    ensures
        seconds == whole_seconds(to - from),
{
    let span: i128 = to as i128 - from as i128;
    if span >= 0 {
        (span / SECOND as i128) as i64
    } else {
        -(((-span) / SECOND as i128) as i64)
    }
}

/// What a live session adds up to at an instant.
pub struct SessionAggregate {
    pub session_id: String,
    pub started_at: i64,
    pub elapsed: i64,
    pub kill_count: i64,
    pub cost: i128,
    pub returned: i128,
    pub damage_total: i128,
    pub shots_total: i64,
    pub crits_total: i64,
    pub max_damage: i128,
    pub live_weapon_damage: i128,
    pub weapon_cost: i128,
    /// The spend an expected return is evaluated from.
    pub expected: OffensiveLoadoutEvidence,
    pub globals_count: i64,
    pub hofs_count: i64,
    pub latest_kill_loot: Option<i128>,
    pub multipliers: Multipliers,
    pub cumulative_net: Vec<i128>,
    pub mob_name: Option<String>,
    pub session_name: Option<String>,
    pub definition_id: Option<i64>,
    pub track_protection_costs: bool,
    pub skill_boost_percent: Option<i64>,
    pub active_activities: Vec<ActiveActivity>,
    pub harvest_swings: i64,
    pub harvest_successes: i64,
    pub harvest_loot: i128,
    pub harvest_cost: i128,
    pub guardrail_mismatch: Option<GuardrailMismatch>,
    pub weapon_mismatch: Option<WeaponMismatch>,
    pub unpriced_shots: i64,
    pub warnings: Vec<String>,
    pub healing: HealingReadout,
}

/// What a session's shots cost: its kills' and those since the last kill.
pub open spec fn weapon_total(active: ActiveSession) -> int {
    lists::total(active.session@.kills, readout::weapon_of()) + phases::total_cost(
        active.accumulator@.tool_stats,
    )
}

/// What a session cost: shots, healing, enhancers and swings.
pub open spec fn session_cost(active: ActiveSession) -> int {
    weapon_total(active) + active.heal_cost + lists::total(
        active.session@.kills,
        readout::enhancer_of(),
    ) + active.accumulator@.enhancer_cost + lists::total(
        active.session@.harvests,
        readout::swing_cost_of(),
    )
}

/// What a session's kills and swings looted.
pub open spec fn session_loot(active: ActiveSession) -> int {
    lists::total(active.session@.kills, readout::loot_of()) + lists::total(
        active.session@.harvests,
        readout::swing_loot_of(),
    )
}

impl SessionAggregate {
    /// Whether the money and the damage are a session's.
    pub open spec fn adds_up(self, active: ActiveSession) -> bool {
        let kills = active.session@.kills;
        let harvests = active.session@.harvests;
        &&& self.kill_count == kills.len()
        &&& self.cost == session_cost(active)
        &&& self.returned == session_loot(active)
        &&& self.weapon_cost == weapon_total(active)
        &&& self.damage_total == lists::total(kills, readout::damage_of())
        &&& self.live_weapon_damage == lists::total(kills, readout::damage_of())
            + active.accumulator@.damage_dealt
        &&& self.max_damage == readout::largest_damage(kills)
        &&& self.shots_total == lists::total(kills, readout::shots_of())
        &&& self.crits_total == lists::total(kills, readout::crits_of())
        &&& self.globals_count == lists::total(kills, readout::globals_of())
        &&& self.hofs_count == lists::total(kills, readout::hofs_of())
        &&& self.latest_kill_loot == (if kills.len() > 0 {
            Some(kills.last().loot_total_ped)
        } else {
            None
        })
        &&& self.harvest_swings == harvests.len()
        &&& self.harvest_successes == lists::total(harvests, readout::successes_of())
        &&& self.harvest_loot == lists::total(harvests, readout::swing_loot_of())
        &&& self.harvest_cost == lists::total(harvests, readout::swing_cost_of())
    }

    /// Whether the histories and the expected spend are a session's.
    pub open spec fn traces(self, active: ActiveSession) -> bool {
        let kills = active.session@.kills;
        let harvests = active.session@.harvests;
        &&& self.multipliers.of(kills)
        &&& readout::figures(self.cumulative_net@) == readout::recent(
            net_curve::net_curve(kills, harvests, active.heal_cost as int),
        )
        &&& self.expected@.components == expected::cycled_kills(kills) + expected::cycled_phases(
            active.accumulator@.tool_stats,
        )
        &&& self.expected@.looters == active.hunting_looters
        &&& self.expected@.looter_source == LooterSource::ThreeLooterMean
    }

    /// Whether what stands in force is a session's, at an instant.
    pub open spec fn shows(self, active: ActiveSession, now: i64) -> bool {
        &&& self.session_id@ == active.session@.id
        &&& self.started_at == active.session@.start_time
        &&& self.elapsed == whole_seconds(now - active.session@.start_time)
        &&& text::opt_view(self.mob_name) == session::stamped_name(active.declared_mob)
        &&& text::opt_view(self.session_name) == active.facets@.name
        &&& self.definition_id == active.facets@.definition_id
        &&& self.track_protection_costs == active.facets@.track_protection_costs
        &&& match active.intervals@.modifier() {
            Some(magnitude) => self.skill_boost_percent is Some && self.skill_boost_percent->0
                == activities::whole_percent(magnitude as int),
            None => self.skill_boost_percent is None,
        }
        &&& text::views(self.active_activities@) == activities::standing_activities(
            active.intervals@,
        )
        &&& text::opt_view(self.guardrail_mismatch) == text::opt_view(active.guardrail_mismatch)
        &&& text::opt_view(self.weapon_mismatch) == active.attribution@.mismatch
        &&& self.unpriced_shots == active.attribution@.counts.unresolved
        &&& text::views(self.warnings@) == text::views(active.warnings@)
        &&& self.healing.of(active.healing, now)
    }
}

/// Whether a figure can be rounded.
pub open spec fn roundable(value: i128) -> bool {
    -i128::MAX + WHOLE <= value <= i128::MAX - WHOLE
}

/// Whether an optional figure can be rounded.
pub open spec fn roundable_opt(value: Option<i128>) -> bool {
    match value {
        Some(value) => roundable(value),
        None => true,
    }
}

/// Whether an aggregate's figures can be shown.
pub open spec fn showable(read: SessionAggregate) -> bool {
    &&& readout::size(read.cost as int) <= TALLY_LIMIT
    &&& readout::size(read.returned as int) <= TALLY_LIMIT
    &&& roundable(read.damage_total)
    &&& roundable(read.live_weapon_damage)
    &&& roundable(read.weapon_cost)
    &&& roundable(read.max_damage)
    &&& roundable(read.harvest_loot)
    &&& roundable(read.harvest_cost)
    &&& roundable_opt(read.latest_kill_loot)
    &&& readout::return_bounded(read.multipliers.last)
    &&& readout::mean_bounded(read.multipliers.avg)
    &&& readout::return_bounded(read.multipliers.max)
}

/// What is in the hand: the held item, or with no hotbar press yet the weapon
/// being recorded.
pub open spec fn tool_in_hand(
    session: SessionState,
    held: Option<HeldItem>,
) -> Option<(Seq<char>, HotbarItemKind)> {
    match held {
        Some(item) => Some((item.name@, item.kind)),
        None => match session {
            SessionState::Idle => None,
            SessionState::Active(active) => match active.attribution@.recorded() {
                Some(tool) => Some((tool, HotbarItemKind::Weapon)),
                None => None,
            },
        },
    }
}

/// What is in the hand: the held item, or with no hotbar press yet the weapon
/// being recorded.
pub fn current_tool(session: &SessionState, held: &Option<HeldItem>) -> (tool: Option<
    (String, HotbarItemKind),
>)
    ensures
        match tool {
            Some((name, kind)) => tool_in_hand(*session, *held) == Some((name@, kind)),
            None => tool_in_hand(*session, *held) is None,
        },
{
    match held {
        Some(item) => Some((item.name.clone(), item.kind)),
        None => match session {
            SessionState::Idle => None,
            SessionState::Active(active) => match active.attribution.recording() {
                Some(tool) => Some((tool.to_owned(), HotbarItemKind::Weapon)),
                None => None,
            },
        },
    }
}

/// The in-memory aggregation over the live session.
pub fn aggregate(active: &ActiveSession, now: i64) -> (read: SessionAggregate)
    requires
        readable(*active),
    ensures
        read.adds_up(*active),
        read.traces(*active),
        read.shows(*active, now),
        showable(read),
{
    let kills = &active.session.kills;
    let harvests = &active.session.harvests;
    let ghost killed = active.session@.kills;
    let ghost swung = active.session@.harvests;
    let totals = total_kills(kills);
    let swings = total_harvests(harvests);
    proof {
        readout::kill_sums_bounded(killed, killed.len() as int);
        lists::total_all(killed, readout::weapon_of());
        lists::total_all(killed, readout::enhancer_of());
        lists::total_all(killed, readout::loot_of());
        lists::total_all(killed, readout::damage_of());
        lists::total_within(
            swung,
            swung.len() as int,
            readout::swing_cost_of(),
            readout::swing_weight(),
        );
        lists::total_within(
            swung,
            swung.len() as int,
            readout::swing_loot_of(),
            readout::swing_weight(),
        );
        lists::total_all(swung, readout::swing_cost_of());
        lists::total_all(swung, readout::swing_loot_of());
        readout::largest_damage_bounded(killed);
        if killed.len() > 0 {
            readout::kill_bounded(killed, killed.len() - 1);
        }
    }
    let pending_weapon: i128 = weapon_cost(&active.accumulator.tool_stats);
    let weapon: i128 = totals.weapon + pending_weapon;
    let enhancer: i128 = totals.enhancer + active.accumulator.enhancer_cost;
    let cost: i128 = weapon + active.heal_cost + enhancer + swings.cost;
    let returned: i128 = totals.loot + swings.loot;
    let multipliers = read_multipliers(kills);
    let cumulative_net = read_net_history(kills, harvests, active.heal_cost, totals.weapon);
    let mut components = cycled_by_kills(kills);
    add_cycled_phases(&mut components, &active.accumulator.tool_stats);
    let latest_kill_loot: Option<i128> = if kills.len() > 0 {
        assert(killed.last() == kills@[kills.len() - 1]@);
        Some(kills[kills.len() - 1].loot_total_ped)
    } else {
        None
    };
    let mob_name: Option<String> = match active.stamped_mob_name() {
        Some(name) => Some(name.to_owned()),
        None => None,
    };
    let guardrail_mismatch: Option<GuardrailMismatch> = match &active.guardrail_mismatch {
        Some(mismatch) => Some(mismatch.clone()),
        None => None,
    };
    let weapon_mismatch: Option<WeaponMismatch> = match active.attribution.mismatch() {
        Some(mismatch) => Some(mismatch.clone()),
        None => None,
    };
    SessionAggregate {
        session_id: active.session.id.clone(),
        started_at: active.session.start_time,
        elapsed: seconds_between(active.session.start_time, now),
        kill_count: kills.len() as i64,
        cost,
        returned,
        damage_total: totals.damage,
        shots_total: totals.shots,
        crits_total: totals.crits,
        max_damage: totals.max_damage,
        live_weapon_damage: totals.damage + active.accumulator.damage_dealt,
        weapon_cost: weapon,
        expected: OffensiveLoadoutEvidence {
            components,
            looters: active.hunting_looters,
            looter_source: LooterSource::ThreeLooterMean,
        },
        globals_count: totals.globals,
        hofs_count: totals.hofs,
        latest_kill_loot,
        multipliers,
        cumulative_net,
        mob_name,
        session_name: copy_optional(&active.facets.name),
        definition_id: active.facets.definition_id,
        track_protection_costs: active.facets.track_protection_costs,
        skill_boost_percent: shown_boost(active.intervals.modifier_magnitude()),
        active_activities: active_activities(&active.intervals),
        harvest_swings: harvests.len() as i64,
        harvest_successes: swings.successes,
        harvest_loot: swings.loot,
        harvest_cost: swings.cost,
        guardrail_mismatch,
        weapon_mismatch,
        unpriced_shots: active.attribution.counts().unresolved,
        warnings: copy_texts(&active.warnings),
        healing: read_healing(&active.healing, now),
    }
}

/// The curve's last point is what the readout nets: with no shot and no
/// enhancer pending since the last kill, it is returns less cost, to a
/// hundredth.
pub proof fn the_last_point_reconciles(active: ActiveSession)
    requires
        phases::total_cost(active.accumulator@.tool_stats) == 0,
        active.accumulator@.enhancer_cost == 0,
        lists::total(active.session@.kills, readout::weapon_of()) > 0,
    ensures
        ({
            let points = readout::recent(
                net_curve::net_curve(
                    active.session@.kills,
                    active.session@.harvests,
                    active.heal_cost as int,
                ),
            );
            &&& points.len() > 0
            &&& points.last() == units::rounded(
                session_loot(active) - session_cost(active),
                HUNDREDTH as int,
            )
        }),
{
    let kills = active.session@.kills;
    let harvests = active.session@.harvests;
    assert(kills.len() > 0);
    net_curve::the_curve_reconciles(kills, harvests, active.heal_cost as int);
    let line = net_curve::net_curve(kills, harvests, active.heal_cost as int);
    assert(readout::recent(line).last() == line.last());
}

} // verus!
