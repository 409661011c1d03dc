//! What a live session's kills and swings add up to.
//!
//! Sums are exact, and so are the two sides of a ratio: it is rounded once,
//! where it is shown.

use crate::lists;
use crate::phases;
use crate::phases::weapon_cost;
use crate::records::{HarvestEvent, HarvestView, Kill, KillView};
use crate::text;
use crate::units;
use crate::units::{rate_of, round_quotient, TEN_THOUSANDTH};
use vstd::prelude::*;

verus! {

/// The most money a readout adds up: ten million PED.
pub const MONEY_LIMIT: i128 = 10_000_000_000_000_000_000;

/// The most damage, shots or hits a readout adds up.
pub const TALLY_LIMIT: i128 = 100_000_000_000_000_000_000_000_000;

/// The units a multiplier is summed in: 10^-18.
pub const FINE: i128 = 1_000_000_000_000_000_000;

/// Four decimals in those units.
pub const FINE_PLACE: i128 = 100_000_000_000_000;

/// How many points a history shows.
pub const HISTORY_POINTS: usize = 120;

/// The size of a figure.
pub open spec fn size(value: int) -> int {
    if value < 0 {
        -value
    } else {
        value
    }
}

/// What a kill's shots cost, phase by phase.
pub open spec fn kill_weapon(kill: KillView) -> int {
    phases::total_cost(kill.tool_stats)
}

/// The figures a kill adds to a readout.
pub open spec fn weapon_of() -> spec_fn(KillView) -> int {
    |kill: KillView| kill_weapon(kill)
}

pub open spec fn enhancer_of() -> spec_fn(KillView) -> int {
    |kill: KillView| kill.enhancer_cost as int
}

pub open spec fn loot_of() -> spec_fn(KillView) -> int {
    |kill: KillView| kill.loot_total_ped as int
}

pub open spec fn damage_of() -> spec_fn(KillView) -> int {
    |kill: KillView| kill.damage_dealt as int
}

pub open spec fn shots_of() -> spec_fn(KillView) -> int {
    |kill: KillView| kill.shots_fired as int
}

pub open spec fn crits_of() -> spec_fn(KillView) -> int {
    |kill: KillView| kill.critical_hits as int
}

pub open spec fn globals_of() -> spec_fn(KillView) -> int {
    |kill: KillView|
        if kill.is_global {
            1
        } else {
            0
        }
}

pub open spec fn hofs_of() -> spec_fn(KillView) -> int {
    |kill: KillView|
        if kill.is_hof {
            1
        } else {
            0
        }
}

/// The money a kill moves, by size.
pub open spec fn money_weight() -> spec_fn(KillView) -> int {
    |kill: KillView|
        size(kill_weapon(kill)) + size(kill.enhancer_cost as int) + size(
            kill.loot_total_ped as int,
        ) + size(kill.cost_ped)
}

/// The tallies a kill adds, by size.
pub open spec fn tally_weight() -> spec_fn(KillView) -> int {
    |kill: KillView|
        size(kill.damage_dealt as int) + size(kill.shots_fired as int) + size(
            kill.critical_hits as int,
        )
}

/// The figures a harvesting swing adds to a readout.
pub open spec fn swing_cost_of() -> spec_fn(HarvestView) -> int {
    |harvest: HarvestView| harvest.cost_ped as int
}

pub open spec fn swing_loot_of() -> spec_fn(HarvestView) -> int {
    |harvest: HarvestView| harvest.loot_total_ped as int
}

pub open spec fn successes_of() -> spec_fn(HarvestView) -> int {
    |harvest: HarvestView|
        if harvest.success {
            1
        } else {
            0
        }
}

/// The money a swing moves, by size.
pub open spec fn swing_weight() -> spec_fn(HarvestView) -> int {
    |harvest: HarvestView| size(harvest.cost_ped as int) + size(harvest.loot_total_ped as int)
}

/// What a session's kills add up to.
pub struct KillTotals {
    pub weapon: i128,
    pub enhancer: i128,
    pub loot: i128,
    pub damage: i128,
    pub shots: i64,
    pub crits: i64,
    pub max_damage: i128,
    pub globals: i64,
    pub hofs: i64,
}

/// The largest damage of a run of kills, none below zero.
pub open spec fn largest_damage(kills: Seq<KillView>) -> int
    decreases kills.len(),
{
    if kills.len() == 0 {
        0
    } else {
        let rest = largest_damage(kills.drop_last());
        if kills.last().damage_dealt > rest {
            kills.last().damage_dealt as int
        } else {
            rest
        }
    }
}

impl KillTotals {
    /// Whether these are the totals of a run of kills.
    pub open spec fn totals(self, kills: Seq<KillView>) -> bool {
        &&& self.weapon == lists::total(kills, weapon_of())
        &&& self.enhancer == lists::total(kills, enhancer_of())
        &&& self.loot == lists::total(kills, loot_of())
        &&& self.damage == lists::total(kills, damage_of())
        &&& self.shots == lists::total(kills, shots_of())
        &&& self.crits == lists::total(kills, crits_of())
        &&& self.max_damage == largest_damage(kills)
        &&& self.globals == lists::total(kills, globals_of())
        &&& self.hofs == lists::total(kills, hofs_of())
    }
}

/// Every figure of a run of kills, at any point of its sum, stays within the
/// run's weight.
pub proof fn kill_sums_bounded(kills: Seq<KillView>, at: int)
    requires
        0 <= at <= kills.len(),
    ensures
        ({
            let money = lists::total(kills, money_weight());
            let tally = lists::total(kills, tally_weight());
            let part = kills.take(at);
            &&& -money <= lists::total(part, weapon_of()) <= money
            &&& -money <= lists::total(part, enhancer_of()) <= money
            &&& -money <= lists::total(part, loot_of()) <= money
            &&& -tally <= lists::total(part, damage_of()) <= tally
            &&& -tally <= lists::total(part, shots_of()) <= tally
            &&& -tally <= lists::total(part, crits_of()) <= tally
            &&& 0 <= money && 0 <= tally
        }),
{
    lists::total_within(kills, at, weapon_of(), money_weight());
    lists::total_within(kills, at, enhancer_of(), money_weight());
    lists::total_within(kills, at, loot_of(), money_weight());
    lists::total_within(kills, at, damage_of(), tally_weight());
    lists::total_within(kills, at, shots_of(), tally_weight());
    lists::total_within(kills, at, crits_of(), tally_weight());
}

/// One kill weighs no more than its run.
pub proof fn kill_bounded(kills: Seq<KillView>, at: int)
    requires
        0 <= at < kills.len(),
    ensures
        money_weight()(kills[at]) <= lists::total(kills, money_weight()),
        tally_weight()(kills[at]) <= lists::total(kills, tally_weight()),
{
    lists::total_step(kills, at, money_weight());
    lists::total_step(kills, at, tally_weight());
    lists::total_within(kills, at, money_weight(), money_weight());
    lists::total_within(kills, at + 1, money_weight(), money_weight());
    lists::total_within(kills, at, tally_weight(), tally_weight());
    lists::total_within(kills, at + 1, tally_weight(), tally_weight());
}

/// Counts of a run of kills stay within its length.
proof fn kill_counts_bounded(kills: Seq<KillView>)
    ensures
        0 <= lists::total(kills, globals_of()) <= kills.len(),
        0 <= lists::total(kills, hofs_of()) <= kills.len(),
    decreases kills.len(),
{
    if kills.len() > 0 {
        kill_counts_bounded(kills.drop_last());
    }
}

/// The largest damage of a run of kills is no more than the run's weight.
pub proof fn largest_damage_bounded(kills: Seq<KillView>)
    ensures
        0 <= largest_damage(kills) <= lists::total(kills, tally_weight()),
    decreases kills.len(),
{
    if kills.len() > 0 {
        largest_damage_bounded(kills.drop_last());
        let last = kills.last();
        assert(tally_weight()(last) >= size(last.damage_dealt as int));
        assert(tally_weight()(last) >= 0);
        lists::total_within(
            kills.drop_last(),
            kills.len() - 1,
            tally_weight(),
            tally_weight(),
        );
    }
}

/// Add up a session's kills.
pub fn total_kills(kills: &Vec<Kill>) -> (totals: KillTotals)
    requires
        forall|i: int|
            0 <= i < kills.len() ==> phases::countable(
                (#[trigger] text::views(kills@)[i]).tool_stats,
            ),
        lists::total(text::views(kills@), money_weight()) <= MONEY_LIMIT,
        lists::total(text::views(kills@), tally_weight()) <= TALLY_LIMIT,
        i64::MIN <= lists::total(text::views(kills@), shots_of()) <= i64::MAX,
        i64::MIN <= lists::total(text::views(kills@), crits_of()) <= i64::MAX,
        kills.len() <= i64::MAX,
    ensures
        totals.totals(text::views(kills@)),
{
    let ghost all = text::views(kills@);
    let mut weapon: i128 = 0;
    let mut enhancer: i128 = 0;
    let mut loot: i128 = 0;
    let mut damage: i128 = 0;
    let mut shots: i128 = 0;
    let mut crits: i128 = 0;
    let mut max_damage: i128 = 0;
    let mut globals: i64 = 0;
    let mut hofs: i64 = 0;
    let mut i: usize = 0;
    proof {
        lists::total_all(all, weapon_of());
        lists::total_all(all, enhancer_of());
        lists::total_all(all, loot_of());
        lists::total_all(all, damage_of());
        lists::total_all(all, shots_of());
        lists::total_all(all, crits_of());
        lists::total_all(all, globals_of());
        lists::total_all(all, hofs_of());
        assert(all.take(0) =~= Seq::empty());
    }
    while i < kills.len()
        invariant
            i <= kills.len(),
            all == text::views(kills@),
            forall|j: int|
                0 <= j < all.len() ==> phases::countable((#[trigger] all[j]).tool_stats),
            lists::total(all, money_weight()) <= MONEY_LIMIT,
            lists::total(all, tally_weight()) <= TALLY_LIMIT,
            kills.len() <= i64::MAX,
            weapon == lists::total(all.take(i as int), weapon_of()),
            enhancer == lists::total(all.take(i as int), enhancer_of()),
            loot == lists::total(all.take(i as int), loot_of()),
            damage == lists::total(all.take(i as int), damage_of()),
            shots == lists::total(all.take(i as int), shots_of()),
            crits == lists::total(all.take(i as int), crits_of()),
            max_damage == largest_damage(all.take(i as int)),
            globals == lists::total(all.take(i as int), globals_of()),
            hofs == lists::total(all.take(i as int), hofs_of()),
            0 <= globals <= i,
            0 <= hofs <= i,
        decreases kills.len() - i,
    {
        let kill = &kills[i];
        proof {
            assert(all[i as int] == kill@);
            lists::total_step(all, i as int, weapon_of());
            lists::total_step(all, i as int, enhancer_of());
            lists::total_step(all, i as int, loot_of());
            lists::total_step(all, i as int, damage_of());
            lists::total_step(all, i as int, shots_of());
            lists::total_step(all, i as int, crits_of());
            lists::total_step(all, i as int, globals_of());
            lists::total_step(all, i as int, hofs_of());
            kill_sums_bounded(all, i as int);
            kill_sums_bounded(all, i as int + 1);
            let next = all.take(i as int + 1);
            assert(next.drop_last() =~= all.take(i as int));
            assert(next.last() == all[i as int]);
        }
        weapon = weapon + weapon_cost(&kill.tool_stats);
        enhancer = enhancer + kill.enhancer_cost;
        loot = loot + kill.loot_total_ped;
        damage = damage + kill.damage_dealt;
        shots = shots + kill.shots_fired as i128;
        crits = crits + kill.critical_hits as i128;
        if kill.damage_dealt > max_damage {
            max_damage = kill.damage_dealt;
        }
        if kill.is_global {
            globals = globals + 1;
        }
        if kill.is_hof {
            hofs = hofs + 1;
        }
        i += 1;
    }
    assert(all.take(all.len() as int) =~= all);
    KillTotals {
        weapon,
        enhancer,
        loot,
        damage,
        shots: shots as i64,
        crits: crits as i64,
        max_damage,
        globals,
        hofs,
    }
}

/// What a session's harvesting adds up to.
pub struct HarvestTotals {
    pub cost: i128,
    pub loot: i128,
    pub successes: i64,
}

/// Add up a session's harvesting swings.
pub fn total_harvests(harvests: &Vec<HarvestEvent>) -> (totals: HarvestTotals)
    requires
        lists::total(text::views(harvests@), swing_weight()) <= MONEY_LIMIT,
        harvests.len() <= i64::MAX,
    ensures
        totals.cost == lists::total(text::views(harvests@), swing_cost_of()),
        totals.loot == lists::total(text::views(harvests@), swing_loot_of()),
        totals.successes == lists::total(text::views(harvests@), successes_of()),
{
    let ghost all = text::views(harvests@);
    let mut cost: i128 = 0;
    let mut loot: i128 = 0;
    let mut successes: i64 = 0;
    let mut i: usize = 0;
    proof {
        lists::total_all(all, swing_cost_of());
        lists::total_all(all, swing_loot_of());
        lists::total_all(all, successes_of());
    }
    while i < harvests.len()
        invariant
            i <= harvests.len(),
            all == text::views(harvests@),
            lists::total(all, swing_weight()) <= MONEY_LIMIT,
            harvests.len() <= i64::MAX,
            cost == lists::total(all.take(i as int), swing_cost_of()),
            loot == lists::total(all.take(i as int), swing_loot_of()),
            successes == lists::total(all.take(i as int), successes_of()),
            0 <= successes <= i,
        decreases harvests.len() - i,
    {
        let harvest = &harvests[i];
        proof {
            assert(all[i as int] == harvest@);
            lists::total_step(all, i as int, swing_cost_of());
            lists::total_step(all, i as int, swing_loot_of());
            lists::total_step(all, i as int, successes_of());
            lists::total_within(all, i as int, swing_cost_of(), swing_weight());
            lists::total_within(all, i as int + 1, swing_cost_of(), swing_weight());
            lists::total_within(all, i as int, swing_loot_of(), swing_weight());
            lists::total_within(all, i as int + 1, swing_loot_of(), swing_weight());
        }
        cost = cost + harvest.cost_ped;
        loot = loot + harvest.loot_total_ped;
        if harvest.success {
            successes = successes + 1;
        }
        i += 1;
    }
    HarvestTotals { cost, loot, successes }
}

/// The last points of a history.
pub open spec fn recent<A>(history: Seq<A>) -> Seq<A> {
    history.skip(
        if history.len() > HISTORY_POINTS {
            history.len() - HISTORY_POINTS
        } else {
            0
        },
    )
}

/// The last points of a history.
pub(crate) fn keep_recent(history: &Vec<i128>) -> (kept: Vec<i128>)
    ensures
        kept@ == recent(history@),
{
    let from: usize = if history.len() > HISTORY_POINTS {
        history.len() - HISTORY_POINTS
    } else {
        0
    };
    let mut kept: Vec<i128> = Vec::new();
    let mut i: usize = from;
    while i < history.len()
        invariant
            from <= i <= history.len(),
            kept@ =~= history@.subrange(from as int, i as int),
        decreases history.len() - i,
    {
        kept.push(history[i]);
        i += 1;
    }
    assert(history@.subrange(from as int, history.len() as int) =~= history@.skip(from as int));
    kept
}

/// A kill whose shots cost something.
pub open spec fn costly() -> spec_fn(KillView) -> bool {
    |kill: KillView| kill.cost_ped > 0
}

/// What a kill's loot was worth and what its shots cost: the two sides of its
/// multiplier, exactly.
#[derive(Clone, Copy, Debug, PartialEq, Eq, Structural)]
pub struct KillReturn {
    pub loot: i128,
    pub cost: i128,
}

impl KillReturn {
    /// Whether the multiplier is larger than another: the quotients compared
    /// exactly.
    pub open spec fn exceeds(self, other: KillReturn) -> bool {
        self.loot * other.cost > other.loot * self.cost
    }

    /// The multiplier to four decimals, rounded once.
    pub open spec fn shown(self) -> int {
        units::rate(self.loot as int, self.cost as int)
    }

    /// Whether both sides are within what the money allows, and the kill cost
    /// something.
    pub open spec fn bounded(self) -> bool {
        size(self.loot as int) <= MONEY_LIMIT && 0 < self.cost <= MONEY_LIMIT
    }

    /// The multiplier to four decimals.
    pub fn to_four_places(&self) -> (value: i128)
        requires
            self.bounded(),
        ensures
            value == self.shown(),
    {
        rate_of(self.loot, self.cost)
    }

    fn beats(&self, other: &KillReturn) -> (yes: bool)
        requires
            self.bounded(),
            other.bounded(),
        ensures
            yes == self.exceeds(*other),
    {
        assert(-i128::MAX <= self.loot * other.cost <= i128::MAX && -i128::MAX <= other.loot
            * self.cost <= i128::MAX) by (nonlinear_arith)
            requires
                -10_000_000_000_000_000_000 <= self.loot <= 10_000_000_000_000_000_000,
                -10_000_000_000_000_000_000 <= other.loot <= 10_000_000_000_000_000_000,
                0 < self.cost <= 10_000_000_000_000_000_000,
                0 < other.cost <= 10_000_000_000_000_000_000,
        ;
        self.loot * other.cost > other.loot * self.cost
    }

    /// The multiplier in units of 10^-18, to the nearest one.
    pub open spec fn fine(self) -> int {
        units::half_even(self.loot * FINE, self.cost as int)
    }

    fn to_fine(&self) -> (value: i128)
        requires
            self.bounded(),
        ensures
            value == self.fine(),
            size(value as int) <= size(self.loot as int) * FINE,
    {
        let scaled: i128 = self.loot * FINE;
        assert(scaled == self.loot * 1_000_000_000_000_000_000);
        round_quotient(scaled, self.cost)
    }
}

/// The mean of some multipliers: what they sum to in units of 10^-18, and how
/// many there are.
#[derive(Clone, Copy, Debug, PartialEq, Eq, Structural)]
pub struct MeanReturn {
    pub total: i128,
    pub kills: i64,
}

impl MeanReturn {
    /// The mean to four decimals, rounded once from the sum.
    pub open spec fn shown(self) -> int {
        units::half_even(self.total as int, self.kills * FINE_PLACE) * TEN_THOUSANDTH
    }

    /// Whether the sum is within what the money allows, and there is a kill.
    pub open spec fn bounded(self) -> bool {
        size(self.total as int) <= MONEY_LIMIT * FINE && self.kills > 0
    }

    /// The mean to four decimals.
    pub fn to_four_places(&self) -> (value: i128)
        requires
            self.bounded(),
        ensures
            value == self.shown(),
    {
        let share: i128 = self.kills as i128 * FINE_PLACE;
        assert(share == self.kills * 100_000_000_000_000);
        let steps: i128 = round_quotient(self.total, share);
        proof {
            units::half_even_is_nearest(self.total as int, share as int);
            let (v, d, t) = (steps as int, share as int, self.total as int);
            assert(-1_000_000_000_000_000_000_000_000 <= v <= 1_000_000_000_000_000_000_000_000)
                by (nonlinear_arith)
                requires
                    d >= 100_000_000_000_000,
                    -d <= 2 * (v * d - t) <= d,
                    -10_000_000_000_000_000_000_000_000_000_000_000_000 <= t
                        <= 10_000_000_000_000_000_000_000_000_000_000_000_000,
            ;
        }
        steps * TEN_THOUSANDTH
    }
}

/// What a kill returned for what its shots cost.
pub open spec fn multiplier(kill: KillView) -> KillReturn {
    KillReturn { loot: kill.loot_total_ped, cost: kill.cost_ped as i128 }
}

/// Each costly kill's multiplier, in the order of the kills.
pub open spec fn multipliers(kills: Seq<KillView>) -> Seq<KillReturn> {
    Seq::new(kills.filter(costly()).len(), |i: int| multiplier(kills.filter(costly())[i]))
}

/// The largest of some multipliers; of equal ones the first.
pub open spec fn largest(values: Seq<KillReturn>) -> KillReturn
    decreases values.len(),
{
    if values.len() <= 1 {
        values[0]
    } else {
        let rest = largest(values.drop_last());
        if values.last().exceeds(rest) {
            values.last()
        } else {
            rest
        }
    }
}

/// Multipliers to four decimals, each rounded once.
pub open spec fn to_places(values: Seq<KillReturn>) -> Seq<int> {
    Seq::new(values.len(), |i: int| values[i].shown())
}

/// Multipliers in units of 10^-18, each to the nearest unit.
pub open spec fn in_fine_units(values: Seq<KillReturn>) -> Seq<int> {
    Seq::new(values.len(), |i: int| values[i].fine())
}

/// Figures as plain integers.
pub open spec fn figures(values: Seq<i128>) -> Seq<int> {
    Seq::new(values.len(), |i: int| values[i] as int)
}

/// The sum of some figures.
pub open spec fn sum(values: Seq<int>) -> int {
    lists::total(values, |value: int| value)
}

/// What a session's kills returned for each PED their shots cost.
pub struct Multipliers {
    pub last: Option<KillReturn>,
    pub avg: Option<MeanReturn>,
    pub max: Option<KillReturn>,
    /// The last points, to four decimals.
    pub history: Vec<i128>,
}

impl Multipliers {
    /// Whether these are the multipliers of a run of kills.
    pub open spec fn of(self, kills: Seq<KillView>) -> bool {
        let all = multipliers(kills);
        &&& self.last == (if kills.len() > 0 && kills.last().cost_ped > 0 {
            Some(multiplier(kills.last()))
        } else {
            None
        })
        &&& self.avg == (if all.len() > 0 {
            Some(
                MeanReturn { total: sum(in_fine_units(all)) as i128, kills: all.len() as i64 },
            )
        } else {
            None
        })
        &&& self.max == (if all.len() > 0 {
            Some(largest(all))
        } else {
            None
        })
        &&& figures(self.history@) == recent(to_places(all))
    }
}

/// Whether an optional multiplier is within what the money allows.
pub open spec fn return_bounded(value: Option<KillReturn>) -> bool {
    match value {
        Some(value) => value.bounded(),
        None => true,
    }
}

/// Whether an optional mean is within what the money allows.
pub open spec fn mean_bounded(value: Option<MeanReturn>) -> bool {
    match value {
        Some(value) => value.bounded(),
        None => true,
    }
}

/// The largest multiplier is one of them, and none exceeds it.
pub proof fn the_largest_is_exceeded_by_none(values: Seq<KillReturn>)
    requires
        values.len() > 0,
        forall|i: int| 0 <= i < values.len() ==> (#[trigger] values[i]).cost > 0,
    ensures
        values.contains(largest(values)),
        forall|i: int| 0 <= i < values.len() ==> !(#[trigger] values[i]).exceeds(largest(values)),
    decreases values.len(),
{
    if values.len() > 1 {
        let rest = values.drop_last();
        assert forall|i: int| 0 <= i < rest.len() implies (#[trigger] rest[i]).cost > 0 by {
            assert(rest[i] == values[i]);
        }
        the_largest_is_exceeded_by_none(rest);
        let best = largest(rest);
        let at = choose|at: int| 0 <= at < rest.len() && rest[at] == best;
        assert(values[at] == best);
        let last = values[values.len() - 1];
        assert forall|i: int| 0 <= i < values.len() implies !(#[trigger] values[i]).exceeds(
            largest(values),
        ) by {
            let value = values[i];
            if i < rest.len() {
                assert(rest[i] == value);
                if last.exceeds(best) {
                    not_exceeded_further(value, best, last);
                }
            } else if last.exceeds(best) {
                assert(!last.exceeds(last));
            }
        }
    } else {
        assert(!values[0].exceeds(values[0]));
    }
}

proof fn not_exceeded_further(value: KillReturn, best: KillReturn, last: KillReturn)
    requires
        value.cost > 0,
        best.cost > 0,
        last.cost > 0,
        !value.exceeds(best),
        last.exceeds(best),
    ensures
        !value.exceeds(last),
{
    let (a, b) = (value.loot as int, value.cost as int);
    let (c, d) = (best.loot as int, best.cost as int);
    let (e, f) = (last.loot as int, last.cost as int);
    assert(a * f <= e * b) by (nonlinear_arith)
        requires
            b > 0,
            d > 0,
            f > 0,
            a * d <= c * b,
            e * d > c * f,
    ;
}

/// What some multipliers sum to, exactly, as a numerator over the product of
/// their costs.
pub open spec fn exact_sum(values: Seq<KillReturn>) -> int
    decreases values.len(),
{
    if values.len() == 0 {
        0
    } else {
        exact_sum(values.drop_last()) * values.last().cost + values.last().loot * all_costs(
            values.drop_last(),
        )
    }
}

/// The product of the costs of some multipliers.
pub open spec fn all_costs(values: Seq<KillReturn>) -> int
    decreases values.len(),
{
    if values.len() == 0 {
        1
    } else {
        all_costs(values.drop_last()) * values.last().cost
    }
}

/// The sum a mean is rounded from is off the exact sum of the quotients by at
/// most half a unit of 10^-18 for each: the mean, before its one rounding, by
/// at most half such a unit.
pub proof fn the_mean_is_off_by_half_a_fine_unit(values: Seq<KillReturn>)
    requires
        forall|i: int| 0 <= i < values.len() ==> (#[trigger] values[i]).cost > 0,
    ensures
        all_costs(values) > 0,
        -(values.len() * all_costs(values)) <= 2 * (sum(in_fine_units(values)) * all_costs(values)
            - exact_sum(values) * FINE) <= values.len() * all_costs(values),
    decreases values.len(),
{
    if values.len() > 0 {
        let rest = values.drop_last();
        let last = values.last();
        assert(last == values[values.len() - 1]);
        assert forall|i: int| 0 <= i < rest.len() implies (#[trigger] rest[i]).cost > 0 by {
            assert(rest[i] == values[i]);
        }
        the_mean_is_off_by_half_a_fine_unit(rest);
        let unit = last.fine();
        units::half_even_is_nearest(last.loot * FINE, last.cost as int);
        assert(in_fine_units(values).drop_last() =~= in_fine_units(rest));
        let p = all_costs(rest);
        let c = last.cost as int;
        let s = sum(in_fine_units(rest));
        let x = exact_sum(rest);
        let l = last.loot as int;
        let n = rest.len() as int;
        let w = FINE as int;
        assert(sum(in_fine_units(values)) == s + unit);
        assert(p * c > 0) by (nonlinear_arith)
            requires
                p > 0,
                c > 0,
        ;
        let before = s * p - x * w;
        let added = unit * c - l * w;
        assert(-(n * (p * c)) <= 2 * (before * c) <= n * (p * c)) by (nonlinear_arith)
            requires
                c > 0,
                -(n * p) <= 2 * before <= n * p,
        ;
        assert(-(p * c) <= 2 * (added * p) <= p * c) by (nonlinear_arith)
            requires
                p > 0,
                -c <= 2 * added <= c,
        ;
        assert((s + unit) * (p * c) == s * (p * c) + unit * (p * c)) by (nonlinear_arith);
        assert((x * c + l * p) * w == x * c * w + l * p * w) by (nonlinear_arith);
        assert(before * c == s * (p * c) - x * c * w) by (nonlinear_arith)
            requires
                before == s * p - x * w,
        ;
        assert(added * p == unit * (p * c) - l * p * w) by (nonlinear_arith)
            requires
                added == unit * c - l * w,
        ;
        assert((n + 1) * (p * c) == n * (p * c) + p * c) by (nonlinear_arith);
    } else {
        assert(in_fine_units(values) =~= Seq::empty());
    }
}

/// What a session's kills returned for each PED their shots cost: the last
/// kill's, the mean, the largest, and the last points of the history. A kill
/// whose shots cost nothing has none.
pub fn read_multipliers(kills: &Vec<Kill>) -> (read: Multipliers)
    requires
        lists::total(text::views(kills@), money_weight()) <= MONEY_LIMIT,
        kills.len() <= i64::MAX,
    ensures
        read.of(text::views(kills@)),
        return_bounded(read.last),
        mean_bounded(read.avg),
        return_bounded(read.max),
{
    let ghost all = text::views(kills@);
    let ghost keep = costly();
    let ghost mut values: Seq<KillReturn> = Seq::empty();
    let mut shown: Vec<i128> = Vec::new();
    let mut total: i128 = 0;
    let mut max: Option<KillReturn> = None;
    let mut i: usize = 0;
    proof {
        lists::filter_none(all, keep);
        lists::total_all(all, money_weight());
        assert(values =~= multipliers(all.take(0)));
        assert(in_fine_units(values) =~= Seq::empty());
    }
    while i < kills.len()
        invariant
            i <= kills.len(),
            kills.len() <= i64::MAX,
            all == text::views(kills@),
            keep == costly(),
            lists::total(all, money_weight()) <= MONEY_LIMIT,
            values == multipliers(all.take(i as int)),
            shown.len() <= i,
            figures(shown@) == to_places(values),
            total == sum(in_fine_units(values)),
            size(total as int) <= lists::total(all.take(i as int), money_weight()) * FINE,
            max == (if values.len() > 0 {
                Some(largest(values))
            } else {
                None
            }),
            return_bounded(max),
        decreases kills.len() - i,
    {
        let kill = &kills[i];
        proof {
            assert(all[i as int] == kill@);
            lists::filter_step(all, i as int, keep);
            kill_bounded(all, i as int);
            lists::total_step(all, i as int, money_weight());
            lists::total_within(all, i as int + 1, money_weight(), money_weight());
            assert(size(kill@.loot_total_ped as int) <= money_weight()(kill@));
        }
        if kill.cost_ped > 0 {
            let value = KillReturn { loot: kill.loot_total_ped, cost: kill.cost_ped };
            let unit: i128 = value.to_fine();
            proof {
                assert(value == multiplier(kill@));
                assert(size(total + unit) <= lists::total(
                    all.take(i as int + 1),
                    money_weight(),
                ) * FINE) by (nonlinear_arith)
                    requires
                        size(total as int) <= lists::total(all.take(i as int), money_weight())
                            * FINE,
                        size(unit as int) <= size(kill@.loot_total_ped as int) * FINE,
                        size(kill@.loot_total_ped as int) <= money_weight()(kill@),
                        lists::total(all.take(i as int + 1), money_weight()) == lists::total(
                            all.take(i as int),
                            money_weight(),
                        ) + money_weight()(kill@),
                        FINE == 1_000_000_000_000_000_000,
                        size(total + unit) <= size(total as int) + size(unit as int),
                ;
            }
            let ghost before = shown@;
            shown.push(value.to_four_places());
            max = match max {
                Some(best) => if value.beats(&best) {
                    Some(value)
                } else {
                    Some(best)
                },
                None => Some(value),
            };
            proof {
                let next = values.push(value);
                assert(next.drop_last() =~= values);
                assert(figures(shown@) =~= figures(before).push(value.shown()));
                assert(to_places(next) =~= to_places(values).push(value.shown()));
                assert(in_fine_units(next) =~= in_fine_units(values).push(unit as int));
                lists::total_push(in_fine_units(values), unit as int, |value: int| value);
                assert(multipliers(all.take(i as int + 1)) =~= next);
                values = next;
            }
            total = total + unit;
        } else {
            proof {
                assert(multipliers(all.take(i as int + 1)) =~= multipliers(all.take(i as int)));
            }
        }
        i += 1;
    }
    proof {
        lists::filter_all(all, keep);
        assert(all.take(all.len() as int) =~= all);
    }
    let last: Option<KillReturn> = if kills.len() > 0 {
        let kill = &kills[kills.len() - 1];
        proof {
            assert(all.last() == kill@);
            kill_bounded(all, all.len() - 1);
        }
        if kill.cost_ped > 0 {
            Some(KillReturn { loot: kill.loot_total_ped, cost: kill.cost_ped })
        } else {
            None
        }
    } else {
        None
    };
    let history = keep_recent(&shown);
    proof {
        assert(figures(history@) =~= recent(to_places(values)));
        assert(figures(shown@).len() == values.len());
    }
    let avg: Option<MeanReturn> = if shown.len() == 0 {
        None
    } else {
        Some(MeanReturn { total, kills: shown.len() as i64 })
    };
    Multipliers { last, avg, max, history }
}

} // verus!
