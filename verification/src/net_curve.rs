//! The cumulative-net history: what a session has come to after each kill and
//! each harvesting swing, in the order they happened.

use crate::lists;
use crate::readout;
use crate::readout::{keep_recent, MONEY_LIMIT};
use crate::phases;
use crate::phases::weapon_cost;
use crate::records::{HarvestEvent, HarvestView, Kill, KillView};
use crate::text;
use crate::units;
use crate::units::{divide, round_half_even, round_quotient, HUNDREDTH};
use vstd::prelude::*;

verus! {

/// A point in a session's economy: when it happened, what it netted before any
/// healing, and what its shots cost, by which it takes its share of the
/// session's heal cost.
pub struct NetEvent {
    pub at: int,
    pub own: int,
    pub weapon: int,
}

/// A kill as a point: its loot less its shots and its enhancers.
pub open spec fn kill_event(kill: KillView) -> NetEvent {
    NetEvent {
        at: kill.timestamp as int,
        own: kill.loot_total_ped - readout::kill_weapon(kill) - kill.enhancer_cost,
        weapon: readout::kill_weapon(kill),
    }
}

/// A swing as a point: its loot less its cost. It takes no share of the
/// healing.
pub open spec fn swing_event(harvest: HarvestView) -> NetEvent {
    NetEvent {
        at: harvest.timestamp as int,
        own: harvest.loot_total_ped - harvest.cost_ped,
        weapon: 0,
    }
}

/// A run of kills as points.
pub open spec fn kill_events(kills: Seq<KillView>) -> Seq<NetEvent> {
    Seq::new(kills.len(), |i: int| kill_event(kills[i]))
}

/// A run of swings as points.
pub open spec fn swing_events(harvests: Seq<HarvestView>) -> Seq<NetEvent> {
    Seq::new(harvests.len(), |i: int| swing_event(harvests[i]))
}

/// Each kill and each swing as a point: the kills, and after them the swings.
pub open spec fn net_events(kills: Seq<KillView>, harvests: Seq<HarvestView>) -> Seq<NetEvent> {
    kill_events(kills) + swing_events(harvests)
}

/// When a point happened.
pub open spec fn time_of() -> spec_fn(NetEvent) -> int {
    |event: NetEvent| event.at
}

/// What a point netted before any healing.
pub open spec fn own_of() -> spec_fn(NetEvent) -> int {
    |event: NetEvent| event.own
}

/// What a point's shots cost.
pub open spec fn spent_of() -> spec_fn(NetEvent) -> int {
    |event: NetEvent| event.weapon
}

/// Points in the order they happened; those of one instant stay in the order
/// they came.
pub open spec fn in_time_order(events: Seq<NetEvent>) -> Seq<NetEvent> {
    lists::ordered(events, time_of())
}

/// What some points come to, to a hundredth: what they netted, less the share
/// of the heal cost that their shots have of all shots. The share is taken
/// exactly, and the whole rounded once.
pub open spec fn come_to(own: int, weapon: int, heal: int, total_weapon: int) -> int {
    if total_weapon > 0 {
        units::half_even(own * total_weapon - heal * weapon, total_weapon * HUNDREDTH) * HUNDREDTH
    } else {
        units::rounded(own, HUNDREDTH as int)
    }
}

/// What a session has come to after each point, to a hundredth.
pub open spec fn curve(events: Seq<NetEvent>, heal: int, total_weapon: int) -> Seq<int> {
    Seq::new(
        events.len(),
        |i: int|
            come_to(
                lists::total(events.take(i + 1), own_of()),
                lists::total(events.take(i + 1), spent_of()),
                heal,
                total_weapon,
            ),
    )
}

/// The whole cumulative-net history of a session.
pub open spec fn net_curve(kills: Seq<KillView>, harvests: Seq<HarvestView>, heal: int) -> Seq<
    int,
> {
    curve(
        in_time_order(net_events(kills, harvests)),
        heal,
        lists::total(kills, readout::weapon_of()),
    )
}

/// Points as contracts read them.
pub open spec fn read(events: Seq<(i64, i128, i128)>) -> Seq<NetEvent> {
    Seq::new(
        events.len(),
        |i: int|
            NetEvent {
                at: events[i].0 as int,
                own: events[i].1 as int,
                weapon: events[i].2 as int,
            },
    )
}

/// Putting points in time order sorts them, keeps every one of them and what
/// they sum to, and leaves those of one instant in the order they came.
pub proof fn time_order_only_interleaves(events: Seq<NetEvent>, instant: int)
    ensures
        ({
            let ordered = in_time_order(events);
            &&& ordered.len() == events.len()
            &&& forall|i: int, j: int|
                0 <= i <= j < ordered.len() ==> (#[trigger] ordered[i]).at <= (
                #[trigger] ordered[j]).at
            &&& ordered.to_multiset() == events.to_multiset()
            &&& lists::total(ordered, own_of()) == lists::total(events, own_of())
            &&& lists::total(ordered, spent_of()) == lists::total(events, spent_of())
            &&& ordered.filter(|e: NetEvent| e.at == instant) == events.filter(
                |e: NetEvent| e.at == instant,
            )
        }),
{
    lists::ordering_only_interleaves(events, time_of(), own_of(), instant);
    lists::ordering_only_interleaves(events, time_of(), spent_of(), instant);
    assert((|e: NetEvent| time_of()(e) == instant) =~= (|e: NetEvent| e.at == instant));
}

proof fn kill_sums(kills: Seq<KillView>)
    ensures
        lists::total(kill_events(kills), own_of()) == lists::total(kills, readout::loot_of())
            - lists::total(kills, readout::weapon_of()) - lists::total(
            kills,
            readout::enhancer_of(),
        ),
        lists::total(kill_events(kills), spent_of()) == lists::total(kills, readout::weapon_of()),
    decreases kills.len(),
{
    if kills.len() > 0 {
        kill_sums(kills.drop_last());
        assert(kill_events(kills).drop_last() =~= kill_events(kills.drop_last()));
    }
}

proof fn swing_sums(harvests: Seq<HarvestView>)
    ensures
        lists::total(swing_events(harvests), own_of()) == lists::total(
            harvests,
            readout::swing_loot_of(),
        ) - lists::total(harvests, readout::swing_cost_of()),
        lists::total(swing_events(harvests), spent_of()) == 0,
    decreases harvests.len(),
{
    if harvests.len() > 0 {
        swing_sums(harvests.drop_last());
        assert(swing_events(harvests).drop_last() =~= swing_events(harvests.drop_last()));
    }
}

/// The curve's last point is returns less cost, to a hundredth. Where the
/// kills' shots cost nothing there is no share to spread the healing by, and
/// it stays out.
pub proof fn the_curve_reconciles(kills: Seq<KillView>, harvests: Seq<HarvestView>, heal: int)
    requires
        kills.len() + harvests.len() > 0,
    ensures
        ({
            let weapon = lists::total(kills, readout::weapon_of());
            let returned = lists::total(kills, readout::loot_of()) + lists::total(
                harvests,
                readout::swing_loot_of(),
            );
            let cost = weapon + heal + lists::total(kills, readout::enhancer_of()) + lists::total(
                harvests,
                readout::swing_cost_of(),
            );
            let line = net_curve(kills, harvests, heal);
            &&& line.len() == kills.len() + harvests.len()
            &&& weapon > 0 ==> line.last() == units::rounded(returned - cost, HUNDREDTH as int)
            &&& weapon <= 0 ==> line.last() == units::rounded(
                returned - cost + heal,
                HUNDREDTH as int,
            )
        }),
{
    let weapon = lists::total(kills, readout::weapon_of());
    let events = net_events(kills, harvests);
    let ordered = in_time_order(events);
    time_order_only_interleaves(events, 0);
    kill_sums(kills);
    swing_sums(harvests);
    lists::total_add(kill_events(kills), swing_events(harvests), own_of());
    lists::total_add(kill_events(kills), swing_events(harvests), spent_of());
    assert(ordered.take(ordered.len() as int) =~= ordered);
    all_shots_take_all_the_healing(lists::total(ordered, own_of()), heal, weapon);
}

/// All shots together take the whole heal cost.
proof fn all_shots_take_all_the_healing(own: int, heal: int, weapon: int)
    ensures
        weapon > 0 ==> come_to(own, weapon, heal, weapon) == units::rounded(
            own - heal,
            HUNDREDTH as int,
        ),
{
    if weapon > 0 {
        assert(own * weapon - heal * weapon == (own - heal) * weapon) by (nonlinear_arith);
        assert(weapon * HUNDREDTH == HUNDREDTH * weapon) by (nonlinear_arith);
        units::half_even_scales(own - heal, HUNDREDTH as int, weapon);
    }
}

/// The size of what a point netted.
spec fn own_size() -> spec_fn(NetEvent) -> int {
    |event: NetEvent| readout::size(event.own)
}

/// The size of what a point's shots cost.
spec fn spent_size() -> spec_fn(NetEvent) -> int {
    |event: NetEvent| readout::size(event.weapon)
}

proof fn kill_events_bounded(kills: Seq<KillView>)
    ensures
        lists::total(kill_events(kills), own_size()) <= lists::total(
            kills,
            readout::money_weight(),
        ),
        lists::total(kill_events(kills), spent_size()) <= lists::total(
            kills,
            readout::money_weight(),
        ),
    decreases kills.len(),
{
    if kills.len() > 0 {
        kill_events_bounded(kills.drop_last());
        assert(kill_events(kills).drop_last() =~= kill_events(kills.drop_last()));
    }
}

proof fn swing_events_bounded(harvests: Seq<HarvestView>)
    ensures
        lists::total(swing_events(harvests), own_size()) <= lists::total(
            harvests,
            readout::swing_weight(),
        ),
        lists::total(swing_events(harvests), spent_size()) == 0,
    decreases harvests.len(),
{
    if harvests.len() > 0 {
        swing_events_bounded(harvests.drop_last());
        assert(swing_events(harvests).drop_last() =~= swing_events(harvests.drop_last()));
    }
}

/// Whatever order a session's points are summed in, the sums stay within the
/// money they are made of.
proof fn running_bounded(kills: Seq<KillView>, harvests: Seq<HarvestView>, at: int)
    requires
        lists::total(kills, readout::money_weight()) <= MONEY_LIMIT,
        lists::total(harvests, readout::swing_weight()) <= MONEY_LIMIT,
        0 <= at <= net_events(kills, harvests).len(),
    ensures
        ({
            let ordered = in_time_order(net_events(kills, harvests));
            &&& ordered.len() == kills.len() + harvests.len()
            &&& readout::size(lists::total(ordered.take(at), own_of())) <= 2 * MONEY_LIMIT
            &&& readout::size(lists::total(ordered.take(at), spent_of())) <= MONEY_LIMIT
        }),
{
    let events = net_events(kills, harvests);
    lists::ordering_only_interleaves(events, time_of(), own_size(), 0);
    lists::ordering_only_interleaves(events, time_of(), spent_size(), 0);
    lists::total_add(kill_events(kills), swing_events(harvests), own_size());
    lists::total_add(kill_events(kills), swing_events(harvests), spent_size());
    kill_events_bounded(kills);
    swing_events_bounded(harvests);
    lists::total_within(in_time_order(events), at, own_of(), own_size());
    lists::total_within(in_time_order(events), at, spent_of(), spent_size());
}

/// A point put into its place among others: after everything not later.
fn place_event(events: &mut Vec<(i64, i128, i128)>, event: (i64, i128, i128))
    ensures
        read(final(events)@) == lists::placed(
            read(old(events)@),
            read(seq![event])[0],
            time_of(),
        ),
{
    let mut at: usize = events.len();
    while at > 0 && events[at - 1].0 > event.0
        invariant
            at <= events.len(),
            *events == *old(events),
            forall|i: int| at <= i < events.len() ==> (#[trigger] events@[i]).0 > event.0,
        decreases at,
    {
        at -= 1;
    }
    proof {
        let seen = read(seq![event])[0];
        lists::placed_is_inserted(read(events@), seen, time_of(), at as int);
        assert(read(events@.insert(at as int, event)) =~= read(events@).insert(at as int, seen));
    }
    events.insert(at, event);
}

/// What some points come to, to a hundredth.
fn round_point(own: i128, weapon: i128, heal: i128, total_weapon: i128) -> (point: i128)
    requires
        readout::size(own as int) <= 2 * MONEY_LIMIT,
        readout::size(weapon as int) <= MONEY_LIMIT,
        readout::size(heal as int) <= MONEY_LIMIT,
        readout::size(total_weapon as int) <= MONEY_LIMIT,
    ensures
        point == come_to(own as int, weapon as int, heal as int, total_weapon as int),
{
    if total_weapon <= 0 {
        return round_half_even(own, HUNDREDTH);
    }
    proof {
        let (h, w) = (heal as int, weapon as int);
        assert(-(10_000_000_000_000_000_000 * 10_000_000_000_000_000_000) <= h * w
            <= 10_000_000_000_000_000_000 * 10_000_000_000_000_000_000) by (nonlinear_arith)
            requires
                -10_000_000_000_000_000_000 <= h <= 10_000_000_000_000_000_000,
                -10_000_000_000_000_000_000 <= w <= 10_000_000_000_000_000_000,
        ;
    }
    // The share in whole units and what is left of it, and the rest in pairs
    // of hundredths, which leave the rounding as it is.
    let (share, left): (i128, i128) = divide(heal * weapon, total_weapon);
    let base: i128 = own - share;
    let (pairs, within): (i128, i128) = divide(base, 2 * HUNDREDTH);
    proof {
        let (b, t, r) = (within as int, total_weapon as int, left as int);
        assert(0 <= b * t <= 20_000_000_000 * 10_000_000_000_000_000_000 && 0 < t * HUNDREDTH
            <= 10_000_000_000 * 10_000_000_000_000_000_000) by (nonlinear_arith)
            requires
                0 <= b < 20_000_000_000,
                0 < t <= 10_000_000_000_000_000_000,
                HUNDREDTH == 10_000_000_000,
        ;
    }
    let steps: i128 = round_quotient(within * total_weapon - left, total_weapon * HUNDREDTH);
    proof {
        let (o, t, hw) = (own as int, total_weapon as int, heal * weapon);
        let (b, r, q) = (within as int, left as int, share as int);
        let (k, h) = (pairs as int, HUNDREDTH as int);
        let num = b * t - r;
        let den = t * h;
        assert(o * t - hw == num + 2 * k * den) by (nonlinear_arith)
            requires
                hw == q * t + r,
                o - q == k * (2 * h) + b,
                num == b * t - r,
                den == t * h,
        ;
        assert(b * t <= 2 * den && t <= den) by (nonlinear_arith)
            requires
                0 <= b <= 2 * h,
                0 < t,
                h >= 1,
                den == t * h,
        ;
        units::half_even_shifts(num, den, k);
        units::half_even_is_nearest(num, den);
        assert(-1 <= steps <= 3) by (nonlinear_arith)
            requires
                -den <= 2 * (steps * den - num) <= den,
                0 < t <= den,
                -t < num,
                num <= 2 * den,
        ;
    }
    (2 * pairs + steps) * HUNDREDTH
}

/// The last points of the cumulative-net history: per kill and per harvesting
/// swing, in the order they happened, with the session's heal cost spread over
/// the kills by their share of the weapon cost.
pub fn read_net_history(
    kills: &Vec<Kill>,
    harvests: &Vec<HarvestEvent>,
    heal: i128,
    total_weapon: i128,
) -> (history: Vec<i128>)
    requires
        forall|i: int|
            0 <= i < kills.len() ==> phases::countable(
                (#[trigger] text::views(kills@)[i]).tool_stats,
            ),
        lists::total(text::views(kills@), readout::money_weight()) <= MONEY_LIMIT,
        lists::total(text::views(harvests@), readout::swing_weight()) <= MONEY_LIMIT,
        readout::size(heal as int) <= MONEY_LIMIT,
        total_weapon == lists::total(text::views(kills@), readout::weapon_of()),
    ensures
        readout::figures(history@) == readout::recent(
            net_curve(text::views(kills@), text::views(harvests@), heal as int),
        ),
{
    let ghost killed = text::views(kills@);
    let ghost swung = text::views(harvests@);
    let ghost every = net_events(killed, swung);
    let mut events: Vec<(i64, i128, i128)> = Vec::new();
    let mut i: usize = 0;
    proof {
        readout::kill_sums_bounded(killed, killed.len() as int);
        lists::total_all(killed, readout::weapon_of());
        assert(every.take(0) =~= Seq::empty());
        assert(read(events@) =~= in_time_order(every.take(0)));
    }
    while i < kills.len()
        invariant
            i <= kills.len(),
            killed == text::views(kills@),
            every == net_events(killed, swung),
            forall|j: int|
                0 <= j < killed.len() ==> phases::countable((#[trigger] killed[j]).tool_stats),
            lists::total(killed, readout::money_weight()) <= MONEY_LIMIT,
            read(events@) == in_time_order(every.take(i as int)),
        decreases kills.len() - i,
    {
        let kill = &kills[i];
        proof {
            assert(killed[i as int] == kill@);
            readout::kill_bounded(killed, i as int);
            let next = every.take(i as int + 1);
            assert(next.drop_last() =~= every.take(i as int));
            assert(next.last() == every[i as int]);
        }
        let weapon: i128 = weapon_cost(&kill.tool_stats);
        let own: i128 = kill.loot_total_ped - weapon - kill.enhancer_cost;
        place_event(&mut events, (kill.timestamp, own, weapon));
        i += 1;
    }
    let mut j: usize = 0;
    while j < harvests.len()
        invariant
            j <= harvests.len(),
            killed.len() == kills.len(),
            swung == text::views(harvests@),
            every == net_events(killed, swung),
            lists::total(swung, readout::swing_weight()) <= MONEY_LIMIT,
            read(events@) == in_time_order(every.take(kills.len() + j)),
        decreases harvests.len() - j,
    {
        let harvest = &harvests[j];
        proof {
            assert(swung[j as int] == harvest@);
            lists::total_step(swung, j as int, readout::swing_weight());
            lists::total_within(swung, j as int, readout::swing_weight(), readout::swing_weight());
            lists::total_within(
                swung,
                j as int + 1,
                readout::swing_weight(),
                readout::swing_weight(),
            );
            assert((readout::swing_weight())(harvest@) <= MONEY_LIMIT);
            let at = kills.len() + j;
            let next = every.take(at + 1);
            assert(next.drop_last() =~= every.take(at));
            assert(next.last() == every[at]);
        }
        let own: i128 = harvest.loot_total_ped - harvest.cost_ped;
        place_event(&mut events, (harvest.timestamp, own, 0));
        j += 1;
    }
    let ghost ordered = in_time_order(every);
    proof {
        assert(every.take(every.len() as int) =~= every);
        assert(read(events@) == ordered);
        lists::total_all(ordered, own_of());
        lists::total_all(ordered, spent_of());
    }
    let mut points: Vec<i128> = Vec::new();
    let mut own: i128 = 0;
    let mut spent: i128 = 0;
    let mut k: usize = 0;
    while k < events.len()
        invariant
            k <= events.len(),
            read(events@) == ordered,
            ordered == in_time_order(every),
            every == net_events(killed, swung),
            every.len() == killed.len() + swung.len(),
            lists::total(killed, readout::money_weight()) <= MONEY_LIMIT,
            lists::total(swung, readout::swing_weight()) <= MONEY_LIMIT,
            readout::size(heal as int) <= MONEY_LIMIT,
            readout::size(total_weapon as int) <= MONEY_LIMIT,
            own == lists::total(ordered.take(k as int), own_of()),
            spent == lists::total(ordered.take(k as int), spent_of()),
            points.len() == k,
            forall|m: int|
                0 <= m < k ==> (#[trigger] points@[m]) == come_to(
                    lists::total(ordered.take(m + 1), own_of()),
                    lists::total(ordered.take(m + 1), spent_of()),
                    heal as int,
                    total_weapon as int,
                ),
        decreases events.len() - k,
    {
        proof {
            assert(ordered[k as int] == read(events@)[k as int]);
            lists::total_step(ordered, k as int, own_of());
            lists::total_step(ordered, k as int, spent_of());
            lists::ordering_only_interleaves(every, time_of(), own_of(), 0);
            running_bounded(killed, swung, k as int);
            running_bounded(killed, swung, k as int + 1);
        }
        own = own + events[k].1;
        spent = spent + events[k].2;
        points.push(round_point(own, spent, heal, total_weapon));
        k += 1;
    }
    let history = keep_recent(&points);
    proof {
        let line = net_curve(killed, swung, heal as int);
        assert(readout::figures(points@) =~= line);
        assert(readout::figures(history@) =~= readout::recent(line));
    }
    history
}

} // verus!
