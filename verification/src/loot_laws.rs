//! What looted items are worth, which kill or swing they belong to, and when a
//! group counts again.

use crate::harvest;
use crate::harvest::{HarvestGuardrailTools, HarvestYieldSource, HarvestYieldTier};
use crate::lists;
use crate::loot;
use crate::loot::{GlobalKind, HarvestRestamps, HarvestSwing, LootGroup, ReconciledLootSource};
use crate::phases;
use crate::records;
use crate::records::{HarvestView, ItemView, KillView, LootItem, MobStampSource, TrackedView};
use crate::session::{ActiveSession, LootFingerprint};
use crate::text;
use crate::units;
use vstd::prelude::*;

verus! {

/// One item more raises what a run of items is worth by its own value, or by
/// nothing where it is an enhancer's rebate, however long the run; no items are
/// worth nothing.
pub proof fn an_item_adds_its_value(items: Seq<ItemView>, item: ItemView)
    ensures
        !item.is_enhancer_shrapnel ==> loot::loot_value(items.push(item)) == loot::loot_value(items)
            + item.value_ped,
        item.is_enhancer_shrapnel ==> loot::loot_value(items.push(item)) == loot::loot_value(items),
        loot::loot_value(Seq::empty()) == 0,
{
    assert(items.push(item).drop_last() =~= items);
}

/// Two runs of items are worth together what each is worth.
pub proof fn runs_of_items_add_up(first: Seq<ItemView>, second: Seq<ItemView>)
    ensures
        loot::loot_value(first + second) == loot::loot_value(first) + loot::loot_value(second),
    decreases second.len(),
{
    if second.len() == 0 {
        assert(first + second =~= first);
    } else {
        runs_of_items_add_up(first, second.drop_last());
        assert(first + second =~= (first + second.drop_last()).push(second.last()));
        assert(second =~= second.drop_last().push(second.last()));
        an_item_adds_its_value(first + second.drop_last(), second.last());
        an_item_adds_its_value(second.drop_last(), second.last());
    }
}

/// What a run of items is worth does not depend on their order.
pub proof fn reordered_items_are_worth_the_same(first: Seq<ItemView>, second: Seq<ItemView>)
    requires
        first.to_multiset() == second.to_multiset(),
    ensures
        loot::loot_value(first) == loot::loot_value(second),
        loot::loot_total(first) == loot::loot_total(second),
{
    let worth = |item: ItemView|
        if item.is_enhancer_shrapnel {
            0
        } else {
            item.value_ped as int
        };
    value_is_total(first, worth);
    value_is_total(second, worth);
    lists::total_reordered(first, second, worth);
}

proof fn value_is_total(items: Seq<ItemView>, worth: spec_fn(ItemView) -> int)
    requires
        forall|item: ItemView| #[trigger]
            worth(item) == (if item.is_enhancer_shrapnel {
                0
            } else {
                item.value_ped as int
            }),
    ensures
        loot::loot_value(items) == lists::total(items, worth),
    decreases items.len(),
{
    if items.len() > 0 {
        value_is_total(items.drop_last(), worth);
    }
}

/// A loot total is what its items are worth, to the nearest ten-thousandth of a
/// PED, the even one where two are equally near.
pub proof fn a_loot_total_is_the_nearest(items: Seq<ItemView>)
    ensures
        ({
            let total = loot::loot_total(items);
            let off = 2 * (total - loot::loot_value(items));
            &&& total % 100_000_000 == 0
            &&& -100_000_000 <= off <= 100_000_000
            &&& off == 100_000_000 || off == -100_000_000 ==> (total / 100_000_000) % 2 == 0
        }),
{
    let value = loot::loot_value(items);
    let nearest = units::half_even(value, 100_000_000);
    units::half_even_is_nearest(value, 100_000_000);
    assert(loot::loot_total(items) == nearest * 100_000_000);
}

/// A group keeps exactly the items that are wanted, in their order.
pub proof fn a_wanted_item_is_kept(items: Seq<LootItem>, item: LootItem, wanted: Seq<bool>)
    ensures
        loot::kept_items(items.push(item), wanted) == (if wanted[items.len() as int] {
            loot::kept_items(items, wanted).push(item@)
        } else {
            loot::kept_items(items, wanted)
        }),
        loot::kept_items(Seq::empty(), wanted).len() == 0,
{
    assert(items.push(item).drop_last() =~= items);
}

/// Where every item is wanted, all are kept.
pub proof fn all_wanted_items_are_kept(items: Seq<LootItem>, wanted: Seq<bool>)
    requires
        forall|i: int| 0 <= i < items.len() ==> #[trigger] wanted[i],
    ensures
        loot::kept_items(items, wanted) == Seq::new(items.len(), |i: int| items[i]@),
    decreases items.len(),
{
    if items.len() > 0 {
        all_wanted_items_are_kept(items.drop_last(), wanted);
        assert(wanted[items.len() - 1]);
    }
    assert(loot::kept_items(items, wanted) =~= Seq::new(items.len(), |i: int| items[i]@));
}

/// A group repeats the last one where it was seen less than two seconds ago
/// with as many items, the same first item and the same total to the
/// ten-thousandth of a PED; a group of which one of these differs, or that
/// comes later, does not.
pub proof fn a_group_repeats_within_two_seconds(
    seen: LootFingerprint,
    at: i64,
    earlier: LootGroup,
    group: LootGroup,
    now: i64,
)
    requires
        seen@ == loot::fingerprint_of(earlier),
    ensures
        loot::repeats(Some((seen, at)), loot::fingerprint_of(group), now) == ({
            &&& now - at < 2_000_000_000
            &&& earlier.items@.len() == group.items@.len()
            &&& earlier.items@.len() > 0 ==> earlier.items@[0].item_name@
                == group.items@[0].item_name@
            &&& units::half_even(earlier.total_ped as int, 100_000_000) == units::half_even(
                group.total_ped as int,
                100_000_000,
            )
        }),
        !loot::repeats(None, loot::fingerprint_of(group), now),
{
    let a = units::half_even(earlier.total_ped as int, 100_000_000);
    let b = units::half_even(group.total_ped as int, 100_000_000);
    units::half_even_is_nearest(earlier.total_ped as int, 100_000_000);
    units::half_even_is_nearest(group.total_ped as int, 100_000_000);
    let first = loot::fingerprint_of(earlier);
    let second = loot::fingerprint_of(group);
    assert(first.total == a * 100_000_000);
    assert(second.total == b * 100_000_000);
    assert(first.items == earlier.items.len());
    assert(second.items == group.items.len());
    if earlier.items@.len() == 0 && group.items@.len() == 0 {
        assert(first.first_item =~= second.first_item);
    }
}

/// A settled kill holds the run's shots, damage, criticals, price and evidence
/// of enhancers as they stood, the wanted items, and what they are worth; it is
/// no global yet. It is stamped with the declared creature, or unknown.
pub proof fn a_kill_holds_its_run(
    active: ActiveSession,
    group: LootGroup,
    wanted: Seq<bool>,
    now: i64,
    id: Seq<char>,
)
    ensures
        ({
            let kill = loot::settled_kill(active, group, wanted, now, id);
            let run = active.accumulator@;
            let items = loot::kept_items(group.items@, wanted);
            &&& kill.id == id
            &&& kill.session_id == active.session.id@
            &&& kill.loot_source_id == text::opt_view(group.source_id)
            &&& kill.timestamp == now
            &&& kill.shots_fired == run.shots_fired
            &&& kill.damage_dealt == run.damage_dealt
            &&& kill.damage_taken == run.damage_taken
            &&& kill.critical_hits == run.critical_hits
            &&& kill.enhancer_cost == run.enhancer_cost
            &&& kill.tool_stats == run.tool_stats
            &&& kill.cost_ped == phases::total_cost(run.tool_stats)
            &&& kill.loot_items == items
            &&& i128::MIN <= loot::loot_total(items) <= i128::MAX ==> kill.loot_total_ped
                == loot::loot_total(items)
            &&& !kill.is_global && !kill.is_hof
            &&& kill.context_id == active.intervals@.context_id
            &&& match active.declared_mob {
                Some(mob) if mob.name@.len() > 0 => {
                    &&& kill.mob_name == mob.name@
                    &&& kill.mob_species == mob.species@
                    &&& kill.mob_maturity == mob.maturity@
                    &&& kill.mob_stamp_source == Some(MobStampSource::Declared)
                },
                _ => {
                    &&& kill.mob_name == "Unknown"@
                    &&& kill.mob_species.len() == 0
                    &&& kill.mob_maturity.len() == 0
                    &&& kill.mob_stamp_source is None
                },
            }
        }),
{
}

/// A harvest that loot settles is a success at the swing's price and under its
/// tool. Its yield is what the first board among the looted items tells, or
/// what the swing itself implied.
pub proof fn a_harvest_holds_its_swing(
    active: ActiveSession,
    group: LootGroup,
    wanted: Seq<bool>,
    now: i64,
    swing: HarvestSwing,
    id: Seq<char>,
)
    ensures
        ({
            let harvest = loot::harvest_of(active, group, wanted, now, swing, id);
            let items = loot::kept_items(group.items@, wanted);
            let board = harvest::first_board_tier(harvest::item_names(group.items@));
            &&& harvest.id == id
            &&& harvest.session_id == active.session.id@
            &&& harvest.loot_source_id == text::opt_view(group.source_id)
            &&& harvest.timestamp == now
            &&& harvest.success
            &&& harvest.tool_name == text::opt_view(swing.tool_name)
            &&& harvest.cost_ped == swing.cost
            &&& harvest.loot_items == items
            &&& i128::MIN <= loot::loot_total(items) <= i128::MAX ==> harvest.loot_total_ped
                == loot::loot_total(items)
            &&& harvest.context_id == active.intervals@.context_id
            &&& board is Some ==> harvest.yield_tier == board->0 && harvest.yield_tier_source
                == Some(HarvestYieldSource::Board)
            &&& board is None ==> harvest.yield_tier == swing.inferred_tier
                && harvest.yield_tier_source == swing.inferred_source
        }),
{
}

/// What a harvest's boards say of the swings before it: their yield, and, where
/// the guardrail disagreed and a tool is set for the tree, the swing's own tool
/// and price.
pub proof fn boards_restamp_the_swings_before(
    restamps: HarvestRestamps,
    group: LootGroup,
    swing: HarvestSwing,
)
    requires
        restamps.follow(group, swing),
    ensures
        ({
            let board = harvest::first_board_tier(harvest::item_names(group.items@));
            let meant = match (swing.guardrail, board) {
                (Some(tools), Some(HarvestYieldTier::Short)) => tools.short is Some,
                (Some(tools), Some(HarvestYieldTier::Long)) => tools.long is Some,
                (Some(tools), Some(HarvestYieldTier::Huge)) => tools.huge is Some,
                _ => false,
            };
            &&& restamps.tier == board
            &&& restamps.tool is Some <==> swing.tool_name is Some && swing.mismatch is Some
                && meant
            &&& match restamps.tool {
                Some((tool, cost)) => tool@ == swing.tool_name->0@ && cost == swing.cost,
                None => true,
            }
        }),
{
}

/// What a name tells of a tree: nothing unless it ends as a board does; a short
/// tree or a huge one by how it begins, and a long one otherwise.
pub proof fn a_board_tells_its_tree(name: Seq<char>)
    ensures
        ({
            let board = name.len() >= 6 && name.skip(name.len() - 6) == " Board"@;
            let short = name.len() >= 6 && name.take(6) == "Short "@;
            let long = name.len() >= 5 && name.take(5) == "Long "@;
            &&& (harvest::board_tier(name) is Some) == board
            &&& board ==> ((harvest::board_tier(name)->0 == HarvestYieldTier::Short) <==> short)
            &&& board ==> ((harvest::board_tier(name)->0 == HarvestYieldTier::Huge) <==> long)
            &&& board ==> ((harvest::board_tier(name)->0 == HarvestYieldTier::Long) <==> !short
                && !long)
        }),
{
    reveal_strlit(" Board");
    reveal_strlit("Short ");
    reveal_strlit("Long ");
    if name.len() >= 6 {
        assert(name.skip(name.len() - 6) =~= name.subrange(name.len() - 6, name.len() as int));
        assert(name.take(6) =~= name.subrange(0, 6));
    }
    if name.len() >= 5 {
        assert(name.take(5) =~= name.subrange(0, 5));
    }
    if name.len() >= 6 && name.take(6) == "Short "@ && name.take(5) == "Long "@ {
        assert(name[0] == name.take(6)[0]);
        assert(name[0] == name.take(5)[0]);
    }
}

/// The first board among the items decides, whatever comes after it.
pub proof fn the_first_board_decides(names: Seq<Seq<char>>, at: int)
    ensures
        (harvest::first_board_tier(names) is None) <==> (forall|i: int|
            0 <= i < names.len() ==> harvest::board_tier(#[trigger] names[i]) is None),
        0 <= at < names.len() && harvest::board_tier(names[at]) is Some && (forall|i: int|
            0 <= i < at ==> harvest::board_tier(#[trigger] names[i]) is None)
            ==> harvest::first_board_tier(names) == harvest::board_tier(names[at]),
    decreases names.len(),
{
    if names.len() > 0 {
        let rest = names.skip(1);
        the_first_board_decides(rest, at - 1);
        if harvest::board_tier(names[0]) is None {
            assert forall|i: int| 0 <= i < rest.len() implies #[trigger] rest[i] == names[i
                + 1] by {}
            if harvest::first_board_tier(names) is None {
                assert forall|i: int| 0 <= i < names.len() implies harvest::board_tier(
                    #[trigger] names[i],
                ) is None by {
                    if i > 0 {
                        assert(rest[i - 1] == names[i]);
                    }
                }
            }
            if 0 < at < names.len() {
                assert(rest[at - 1] == names[at]);
            }
        }
    }
}

/// The tool meant for a tree is the one set for its size: none where no
/// guardrail is set, where no board tells the size, or where none is set for it.
pub proof fn intent_is_the_tool_set_for_the_tree(
    tools: HarvestGuardrailTools,
    items: Seq<LootItem>,
)
    ensures
        harvest::intent(None, items) is None,
        ({
            let tree = harvest::first_board_tier(harvest::item_names(items));
            let intent = harvest::intent(Some(tools), items);
            &&& tree is None ==> intent is None
            &&& tree == Some(HarvestYieldTier::Short) ==> intent == tools.short
            &&& tree == Some(HarvestYieldTier::Long) ==> intent == tools.long
            &&& tree == Some(HarvestYieldTier::Huge) ==> intent == tools.huge
            &&& tree == Some(HarvestYieldTier::Unknown) ==> intent is None
        }),
{
}

/// An announcement tags the last kill alone, where the two are less than five
/// seconds apart; tagging adds to what the kill is and changes nothing else.
pub proof fn an_announcement_tags_the_last_kill(
    kills: Seq<KillView>,
    kind: GlobalKind,
    at: i64,
    index: int,
)
    requires
        0 <= index < kills.len(),
    ensures
        ({
            let after = loot::tagged(kills, kind, at);
            let apart = at - kills.last().timestamp;
            let hit = index == kills.len() - 1 && -5_000_000_000 < apart < 5_000_000_000;
            &&& after.len() == kills.len()
            &&& after[index] == (KillView {
                is_global: kills[index].is_global || hit,
                is_hof: kills[index].is_hof || (hit && (kind == GlobalKind::HofKill || kind
                    == GlobalKind::HofItem)),
                ..kills[index]
            })
        }),
{
}

/// With no kill there is nothing to tag.
pub proof fn no_kill_is_tagged(kind: GlobalKind, at: i64)
    ensures
        loot::tagged(Seq::empty(), kind, at).len() == 0,
        !loot::tags_last(Seq::empty(), at),
{
}

/// Loot taken from a source's stored rows replaces the items and the total of
/// the first kill with that source, and changes no other kill and no harvest.
pub proof fn stored_kill_loot_replaces_the_first(
    session: TrackedView,
    source: Seq<char>,
    total: i128,
    items: Vec<LootItem>,
    at: int,
)
    requires
        0 <= at < session.kills.len(),
    ensures
        ({
            let after = loot::reconciled(
                session,
                source,
                ReconciledLootSource::Kill { total, items },
            );
            let first = session.kills[at].loot_source_id == Some(source) && forall|i: int|
                0 <= i < at ==> (#[trigger] session.kills[i]).loot_source_id != Some(source);
            &&& after.kills.len() == session.kills.len()
            &&& after.kills[at] == (if first {
                KillView {
                    loot_items: text::views(items@),
                    loot_total_ped: total,
                    ..session.kills[at]
                }
            } else {
                session.kills[at]
            })
            &&& (TrackedView { kills: session.kills, ..after }) == session
        }),
{
    first_kill(session.kills, source);
    let place = loot::kill_of_source(session.kills, source);
    if place < session.kills.len() {
        assert(session.kills[place].loot_source_id == Some(source));
    }
}

/// Loot taken from a source's stored rows replaces the items and the total of
/// the first harvest with that source, and changes no other harvest and no kill.
pub proof fn stored_harvest_loot_replaces_the_first(
    session: TrackedView,
    source: Seq<char>,
    total: i128,
    items: Vec<LootItem>,
    at: int,
)
    requires
        0 <= at < session.harvests.len(),
    ensures
        ({
            let after = loot::reconciled(
                session,
                source,
                ReconciledLootSource::Harvest { total, items },
            );
            let first = session.harvests[at].loot_source_id == Some(source) && forall|i: int|
                0 <= i < at ==> (#[trigger] session.harvests[i]).loot_source_id != Some(source);
            &&& after.harvests.len() == session.harvests.len()
            &&& after.harvests[at] == (if first {
                HarvestView {
                    loot_items: text::views(items@),
                    loot_total_ped: total,
                    ..session.harvests[at]
                }
            } else {
                session.harvests[at]
            })
            &&& (TrackedView { harvests: session.harvests, ..after }) == session
        }),
{
    first_harvest(session.harvests, source);
    let place = loot::harvest_of_source(session.harvests, source);
    if place < session.harvests.len() {
        assert(session.harvests[place].loot_source_id == Some(source));
    }
}

proof fn first_kill(kills: Seq<KillView>, source: Seq<char>)
    ensures
        ({
            let at = loot::kill_of_source(kills, source);
            &&& 0 <= at <= kills.len()
            &&& at < kills.len() ==> kills[at].loot_source_id == Some(source)
            &&& forall|i: int|
                0 <= i < at ==> (#[trigger] kills[i]).loot_source_id != Some(source)
        }),
    decreases kills.len(),
{
    if kills.len() > 0 && kills[0].loot_source_id != Some(source) {
        let rest = kills.skip(1);
        first_kill(rest, source);
        assert forall|i: int| 0 <= i < loot::kill_of_source(kills, source) implies (
        #[trigger] kills[i]).loot_source_id != Some(source) by {
            if i > 0 {
                assert(kills[i] == rest[i - 1]);
            }
        }
    }
}

proof fn first_harvest(harvests: Seq<HarvestView>, source: Seq<char>)
    ensures
        ({
            let at = loot::harvest_of_source(harvests, source);
            &&& 0 <= at <= harvests.len()
            &&& at < harvests.len() ==> harvests[at].loot_source_id == Some(source)
            &&& forall|i: int|
                0 <= i < at ==> (#[trigger] harvests[i]).loot_source_id != Some(source)
        }),
    decreases harvests.len(),
{
    if harvests.len() > 0 && harvests[0].loot_source_id != Some(source) {
        let rest = harvests.skip(1);
        first_harvest(rest, source);
        assert forall|i: int| 0 <= i < loot::harvest_of_source(harvests, source) implies (
        #[trigger] harvests[i]).loot_source_id != Some(source) by {
            if i > 0 {
                assert(harvests[i] == rest[i - 1]);
            }
        }
    }
}

/// A creature's name is its species, behind its maturity and a space where it
/// has one.
pub proof fn a_creature_is_named_by_maturity_and_species(species: Seq<char>, maturity: Seq<char>)
    ensures
        maturity.len() == 0 ==> records::mob_name(species, maturity) == species,
        maturity.len() > 0 ==> ({
            let name = records::mob_name(species, maturity);
            &&& name.len() == maturity.len() + 1 + species.len()
            &&& name.take(maturity.len() as int) == maturity
            &&& name[maturity.len() as int] == ' '
            &&& name.skip(maturity.len() as int + 1) == species
        }),
{
    reveal_strlit(" ");
    let name = records::mob_name(species, maturity);
    if maturity.len() > 0 {
        assert(name.take(maturity.len() as int) =~= maturity);
        assert(name.skip(maturity.len() as int + 1) =~= species);
    }
}

/// An announcement is the player's by their name in any case of letters, and
/// nobody's where no name is set; it is about what it names.
pub proof fn an_announcement_is_by_name(player: Seq<char>, name: Seq<char>, subject: Seq<char>)
    ensures
        loot::is_own(name, name) == (name.len() > 0),
        !loot::is_own(player, Seq::empty()),
        loot::is_own(player, name) ==> text::lower_case(player) == text::lower_case(name),
        name.len() > 0 && text::lower_case(player) == text::lower_case(name) ==> loot::is_own(
            player,
            name,
        ),
        subject.len() > 0 ==> loot::announced(subject) == subject,
        loot::announced(Seq::empty()) == "Unknown"@,
{
}

} // verus!
