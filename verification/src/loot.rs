//! Loot groups and global events: dedup fingerprinting, kill construction
//! from the accumulator, reclassified loot, and notable-event correlation.

use crate::evidence::ShotEvidence;
use crate::harvest;
use crate::harvest::{
    guardrail_intent, tree_size_for_group, GuardrailMismatch, HarvestGuardrailTools,
    HarvestYieldSource, HarvestYieldTier,
};
use crate::ids;
use crate::ids::fresh_id;
use crate::phases;
use crate::records::{
    same_items, HarvestEvent, HarvestView, ItemView, Kill, KillView, LootItem, MobStampSource,
    TrackedView,
};
use crate::session;
use crate::session::{
    Accumulator, AccumulatorView, ActiveSession, FingerprintView, LootFingerprint,
};
use crate::text;
use crate::text::{copy_optional, is_text, same_lower_case, same_text};
use crate::units;
use crate::units::{round_half_even, TEN_THOUSANDTH};
use vstd::prelude::*;

verus! {

/// Loot groups with an identical fingerprint within this window are
/// duplicates.
pub const LOOT_DEDUP_WINDOW: i64 = 2_000_000_000;

/// Tagging a global onto the latest kill requires the kill to be less than
/// this far away.
pub const GLOBAL_CORRELATION_WINDOW: i64 = 5_000_000_000;

/// A loot group of the chat log.
#[derive(Debug, PartialEq, Eq)]
pub struct LootGroup {
    pub source_id: Option<String>,
    pub items: Vec<LootItem>,
    pub total_ped: i64,
}

/// A harvesting swing as it was resolved: the tool it is stamped with and what
/// that costs, the guardrail in force and the disagreement it leaves standing,
/// and what the swings before it say about its yield.
#[derive(Debug, PartialEq, Eq)]
pub struct HarvestSwing {
    pub tool_name: Option<String>,
    pub cost: i128,
    pub guardrail: Option<HarvestGuardrailTools>,
    pub mismatch: Option<GuardrailMismatch>,
    pub inferred_tier: HarvestYieldTier,
    pub inferred_source: Option<HarvestYieldSource>,
}

/// The yield a swing is recorded with: its own board's, else what was inferred.
pub open spec fn yield_of(group: LootGroup, swing: HarvestSwing) -> (
    HarvestYieldTier,
    Option<HarvestYieldSource>,
) {
    match harvest::first_board_tier(harvest::item_names(group.items@)) {
        Some(tier) => (tier, Some(HarvestYieldSource::Board)),
        None => (swing.inferred_tier, swing.inferred_source),
    }
}

/// What a swing's board evidence says about the swings just before it.
#[derive(Debug, PartialEq, Eq)]
pub struct HarvestRestamps {
    /// The tool the preceding evidence-less swings were made with, and what a
    /// swing of it costs.
    pub tool: Option<(String, i128)>,
    /// The yield that classifies the preceding boardless swings.
    pub tier: Option<HarvestYieldTier>,
}

impl HarvestRestamps {
    /// Whether the restamps are those of a swing. Board evidence that leaves a
    /// mismatch standing contradicts the belief the preceding swings were
    /// stamped from; an evidenced size without a configured tool proves
    /// nothing about them.
    pub open spec fn follow(self, group: LootGroup, swing: HarvestSwing) -> bool {
        &&& self.tier == harvest::first_board_tier(harvest::item_names(group.items@))
        &&& if swing.tool_name is Some && swing.mismatch is Some && harvest::intent(
            swing.guardrail,
            group.items@,
        ) is Some {
            match self.tool {
                Some((tool, cost)) => tool@ == swing.tool_name->0@ && cost == swing.cost,
                None => false,
            }
        } else {
            self.tool is None
        }
    }
}

/// A loot group's dedup identity.
pub open spec fn fingerprint_of(group: LootGroup) -> FingerprintView {
    FingerprintView {
        total: units::rounded(group.total_ped as int, TEN_THOUSANDTH as int) as i128,
        items: group.items@.len() as usize,
        first_item: if group.items@.len() > 0 {
            group.items@[0].item_name@
        } else {
            Seq::empty()
        },
    }
}

/// Whether a loot group repeats the last recorded one: the same identity,
/// less than the dedup window after it.
pub open spec fn repeats(
    last: Option<(LootFingerprint, i64)>,
    fingerprint: FingerprintView,
    now: i64,
) -> bool {
    match last {
        Some((seen, at)) => seen@ == fingerprint && now - at < LOOT_DEDUP_WINDOW,
        None => false,
    }
}

/// The items the loot filter keeps, in order.
pub open spec fn kept_items(items: Seq<LootItem>, wanted: Seq<bool>) -> Seq<ItemView>
    decreases items.len(),
{
    if items.len() == 0 {
        Seq::empty()
    } else {
        let rest = kept_items(items.drop_last(), wanted);
        if wanted[items.len() - 1] {
            rest.push(items.last()@)
        } else {
            rest
        }
    }
}

/// What a run of items is worth, enhancer rebates aside.
pub open spec fn loot_value(items: Seq<ItemView>) -> int
    decreases items.len(),
{
    if items.len() == 0 {
        0
    } else {
        loot_value(items.drop_last()) + (if items.last().is_enhancer_shrapnel {
            0
        } else {
            items.last().value_ped as int
        })
    }
}

/// What a run of items adds to a session's returns.
pub open spec fn loot_total(items: Seq<ItemView>) -> int {
    units::rounded(loot_value(items), TEN_THOUSANDTH as int)
}

/// The kill a loot group settles: the accumulated combat, stamped with the
/// mob declared now.
pub open spec fn settled_kill(
    active: ActiveSession,
    group: LootGroup,
    wanted: Seq<bool>,
    now: i64,
    id: Seq<char>,
) -> KillView {
    let accumulator = active.accumulator@;
    let stamped = session::stamped_name(active.declared_mob);
    let items = kept_items(group.items@, wanted);
    KillView {
        id,
        loot_source_id: text::opt_view(group.source_id),
        session_id: active.session.id@,
        mob_name: match stamped {
            Some(name) => name,
            None => "Unknown"@,
        },
        mob_species: if stamped is Some {
            active.declared_mob->0.species@
        } else {
            Seq::empty()
        },
        mob_maturity: if stamped is Some {
            active.declared_mob->0.maturity@
        } else {
            Seq::empty()
        },
        mob_stamp_source: if stamped is Some {
            Some(MobStampSource::Declared)
        } else {
            None
        },
        timestamp: now,
        shots_fired: active.accumulator.shots_fired,
        damage_dealt: active.accumulator.damage_dealt,
        damage_taken: active.accumulator.damage_taken,
        critical_hits: active.accumulator.critical_hits,
        cost_ped: phases::total_cost(accumulator.tool_stats),
        enhancer_cost: active.accumulator.enhancer_cost,
        loot_total_ped: loot_total(items) as i128,
        loot_items: items,
        tool_stats: accumulator.tool_stats,
        is_global: false,
        is_hof: false,
        context_id: active.intervals@.context_id,
    }
}

/// The harvesting swing a loot group records.
pub open spec fn harvest_of(
    active: ActiveSession,
    group: LootGroup,
    wanted: Seq<bool>,
    now: i64,
    swing: HarvestSwing,
    id: Seq<char>,
) -> HarvestView {
    let items = kept_items(group.items@, wanted);
    HarvestView {
        id,
        loot_source_id: text::opt_view(group.source_id),
        session_id: active.session.id@,
        timestamp: now,
        success: true,
        tool_name: text::opt_view(swing.tool_name),
        yield_tier: yield_of(group, swing).0,
        yield_tier_source: yield_of(group, swing).1,
        cost_ped: swing.cost,
        loot_total_ped: loot_total(items) as i128,
        loot_items: items,
        context_id: active.intervals@.context_id,
    }
}

/// Where a loot group landed.
#[derive(Debug, PartialEq, Eq)]
pub enum RoutedLoot {
    /// It repeated the last group: nothing was recorded.
    Duplicate,
    /// A kill, now the session's last, with the stored evidence of its shots.
    Kill(Vec<ShotEvidence>),
    /// A harvesting swing, now the session's last, with what it says about the
    /// swings before it.
    Harvest(HarvestRestamps),
}

/// Every run of item values fits the integers they are summed in.
proof fn loot_value_bound(items: Seq<ItemView>)
    ensures
        -0x8000_0000_0000_0000 * items.len() <= loot_value(items) <= 0x8000_0000_0000_0000
            * items.len(),
    decreases items.len(),
{
    if items.len() > 0 {
        loot_value_bound(items.drop_last());
    }
}

fn filter_items(items: &Vec<LootItem>, wanted: &Vec<bool>) -> (kept: Vec<LootItem>)
    requires
        items.len() == wanted.len(),
    ensures
        text::views(kept@) == kept_items(items@, wanted@),
        kept.len() <= items.len(),
{
    let mut kept: Vec<LootItem> = Vec::new();
    let mut i: usize = 0;
    assert(items@.take(0) =~= Seq::empty());
    assert(text::views(kept@) =~= Seq::empty());
    while i < items.len()
        invariant
            i <= items.len(),
            items.len() == wanted.len(),
            kept.len() <= i,
            text::views(kept@) == kept_items(items@.take(i as int), wanted@),
        decreases items.len() - i,
    {
        proof {
            let next = items@.take(i as int + 1);
            assert(next.drop_last() =~= items@.take(i as int));
            assert(next.last() == items@[i as int]);
        }
        if wanted[i] {
            let ghost had = text::views(kept@);
            kept.push(items[i].clone());
            assert(text::views(kept@) =~= had.push(items@[i as int]@));
        }
        i += 1;
    }
    assert(items@.take(items.len() as int) =~= items@);
    kept
}

fn total_of(items: &Vec<LootItem>) -> (total: i128)
    requires
        items.len() < 0x8000_0000_0000_0000,
    ensures
        total == loot_total(text::views(items@)),
{
    let ghost all = text::views(items@);
    let mut sum: i128 = 0;
    let mut i: usize = 0;
    while i < items.len()
        invariant
            i <= items.len(),
            items.len() < 0x8000_0000_0000_0000,
            all == text::views(items@),
            sum == loot_value(all.take(i as int)),
        decreases items.len() - i,
    {
        proof {
            let next = all.take(i as int + 1);
            assert(next.drop_last() =~= all.take(i as int));
            assert(next.last() == items@[i as int]@);
            loot_value_bound(all.take(i as int));
        }
        if !items[i].is_enhancer_shrapnel {
            sum = sum + items[i].value_ped as i128;
        }
        i += 1;
    }
    proof {
        assert(all.take(all.len() as int) =~= all);
        loot_value_bound(all);
    }
    round_half_even(sum, TEN_THOUSANDTH)
}

fn fingerprint(group: &LootGroup) -> (fingerprint: LootFingerprint)
    ensures
        fingerprint@ == fingerprint_of(*group),
{
    let first_item: String = if group.items.len() > 0 {
        group.items[0].item_name.clone()
    } else {
        String::new()
    };
    LootFingerprint {
        total: round_half_even(group.total_ped as i128, TEN_THOUSANDTH),
        items: group.items.len(),
        first_item,
    }
}

fn is_repeat(last: &Option<(LootFingerprint, i64)>, now_seen: &LootFingerprint, now: i64) -> (yes:
    bool)
    ensures
        yes == repeats(*last, now_seen@, now),
{
    match last {
        Some((seen, at)) => seen.total == now_seen.total && seen.items == now_seen.items
            && same_text(seen.first_item.as_str(), now_seen.first_item.as_str()) && now as i128
            - (*at as i128) < LOOT_DEDUP_WINDOW as i128,
        None => false,
    }
}

/// Whether a loot group repeats the last one recorded: nothing is then recorded
/// or resolved for it.
pub fn is_duplicate(active: &ActiveSession, group: &LootGroup, now: i64) -> (yes: bool)
    ensures
        yes == repeats(active.last_loot, fingerprint_of(*group), now),
{
    is_repeat(&active.last_loot, &fingerprint(group), now)
}

/// Settle a loot group under a given record id. A group the harvest taxonomy
/// knows (`swing`) records a harvesting swing; anything else creates a kill
/// from the accumulator, which then resets. `wanted` says of each item
/// whether the loot filter keeps it.
pub fn settle_loot_with_id(
    active: &mut ActiveSession,
    group: &LootGroup,
    wanted: &Vec<bool>,
    now: i64,
    swing: Option<HarvestSwing>,
    id: String,
) -> (routed: RoutedLoot)
    requires
        old(active).wf(),
        group.items.len() == wanted.len(),
        group.items.len() < 0x8000_0000_0000_0000,
    ensures
        final(active).wf(),
        if repeats(old(active).last_loot, fingerprint_of(*group), now) {
            routed is Duplicate && *final(active) == *old(active)
        } else {
            &&& final(active).last_loot is Some
            &&& ({
                let (seen, at) = final(active).last_loot->0;
                seen@ == fingerprint_of(*group) && at == now
            })
            &&& match swing {
                Some(swing) => {
                    &&& routed is Harvest
                    &&& routed->Harvest_0.follow(*group, swing)
                    &&& final(active).session@ == (TrackedView {
                        harvests: old(active).session@.harvests.push(
                            harvest_of(*old(active), *group, wanted@, now, swing, id@),
                        ),
                        ..old(active).session@
                    })
                    &&& *final(active) == (ActiveSession {
                        session: final(active).session,
                        last_loot: final(active).last_loot,
                        guardrail_mismatch: swing.mismatch,
                        dirty: true,
                        ..*old(active)
                    })
                },
                None => {
                    &&& routed is Kill
                    &&& text::views(routed->Kill_0@) == old(active).accumulator@.evidence
                    &&& final(active).session@ == (TrackedView {
                        kills: old(active).session@.kills.push(
                            settled_kill(*old(active), *group, wanted@, now, id@),
                        ),
                        ..old(active).session@
                    })
                    &&& final(active).accumulator@ == AccumulatorView::empty()
                    &&& final(active).attribution@ == old(active).attribution@.settling(id@)
                    &&& *final(active) == (ActiveSession {
                        session: final(active).session,
                        accumulator: final(active).accumulator,
                        attribution: final(active).attribution,
                        last_loot: final(active).last_loot,
                        dirty: true,
                        ..*old(active)
                    })
                },
            }
        },
{
    let seen = fingerprint(group);
    if is_repeat(&active.last_loot, &seen, now) {
        return RoutedLoot::Duplicate;
    }
    active.last_loot = Some((seen, now));
    active.dirty = true;
    let items = filter_items(&group.items, wanted);
    let total: i128 = total_of(&items);
    let ghost before = *old(active);
    match swing {
        Some(swing) => {
            let guarded: bool = swing.mismatch.is_some() && guardrail_intent(
                &swing.guardrail,
                group.items.as_slice(),
            ).is_some();
            let tool: Option<(String, i128)> = match &swing.tool_name {
                Some(tool) if guarded => Some((tool.clone(), swing.cost)),
                _ => None,
            };
            let direct = tree_size_for_group(group.items.as_slice());
            let (yield_tier, yield_tier_source): (
                HarvestYieldTier,
                Option<HarvestYieldSource>,
            ) = match direct {
                Some(tier) => (tier, Some(HarvestYieldSource::Board)),
                None => (swing.inferred_tier, swing.inferred_source),
            };
            let harvest = HarvestEvent {
                id,
                loot_source_id: copy_optional(&group.source_id),
                session_id: active.session.id.clone(),
                timestamp: now,
                success: true,
                tool_name: swing.tool_name,
                yield_tier,
                yield_tier_source,
                cost_ped: swing.cost,
                loot_total_ped: total,
                loot_items: items,
                context_id: active.intervals.context_id(),
            };
            let ghost recorded = harvest@;
            active.guardrail_mismatch = swing.mismatch;
            active.session.harvests.push(harvest);
            assert(active.session@.harvests =~= before.session@.harvests.push(recorded));
            RoutedLoot::Harvest(HarvestRestamps { tool, tier: direct })
        },
        None => {
            let (mob_name, mob_species, mob_maturity, mob_stamp_source): (
                String,
                String,
                String,
                Option<MobStampSource>,
            ) = match &active.declared_mob {
                Some(mob) => if mob.name.as_str().is_empty() {
                    ("Unknown".to_owned(), String::new(), String::new(), None)
                } else {
                    (
                        mob.name.clone(),
                        mob.species.clone(),
                        mob.maturity.clone(),
                        Some(MobStampSource::Declared),
                    )
                },
                None => ("Unknown".to_owned(), String::new(), String::new(), None),
            };
            let cost_ped: i128 = active.accumulator.weapon_cost();
            let mut settled = Accumulator::default();
            std::mem::swap(&mut settled, &mut active.accumulator);
            active.attribution.settle_kill(id.as_str());
            let kill = Kill {
                id,
                loot_source_id: copy_optional(&group.source_id),
                session_id: active.session.id.clone(),
                mob_name,
                mob_species,
                mob_maturity,
                mob_stamp_source,
                timestamp: now,
                shots_fired: settled.shots_fired,
                damage_dealt: settled.damage_dealt,
                damage_taken: settled.damage_taken,
                critical_hits: settled.critical_hits,
                cost_ped,
                enhancer_cost: settled.enhancer_cost,
                loot_total_ped: total,
                loot_items: items,
                tool_stats: settled.tool_stats,
                is_global: false,
                is_hof: false,
                context_id: active.intervals.context_id(),
            };
            let ghost recorded = kill@;
            assert(recorded =~= settled_kill(before, *group, wanted@, now, id@));
            active.session.kills.push(kill);
            assert(active.session@.kills =~= before.session@.kills.push(recorded));
            RoutedLoot::Kill(settled.evidence)
        },
    }
}

/// Settle a loot group under a fresh record id.
pub fn settle_loot(
    active: &mut ActiveSession,
    group: &LootGroup,
    wanted: &Vec<bool>,
    now: i64,
    swing: Option<HarvestSwing>,
) -> (routed: RoutedLoot)
    requires
        old(active).wf(),
        group.items.len() == wanted.len(),
        group.items.len() < 0x8000_0000_0000_0000,
    ensures
        final(active).wf(),
        if repeats(old(active).last_loot, fingerprint_of(*group), now) {
            routed is Duplicate && *final(active) == *old(active)
        } else {
            &&& final(active).last_loot is Some
            &&& ({
                let (seen, at) = final(active).last_loot->0;
                seen@ == fingerprint_of(*group) && at == now
            })
            &&& match swing {
                Some(swing) => {
                    &&& routed is Harvest
                    &&& routed->Harvest_0.follow(*group, swing)
                    &&& exists|id: Seq<char>|
                        #[trigger] ids::id_shape(id) && final(active).session@ == (
                        TrackedView {
                            harvests: old(active).session@.harvests.push(
                                harvest_of(*old(active), *group, wanted@, now, swing, id),
                            ),
                            ..old(active).session@
                        })
                    &&& *final(active) == (ActiveSession {
                        session: final(active).session,
                        last_loot: final(active).last_loot,
                        guardrail_mismatch: swing.mismatch,
                        dirty: true,
                        ..*old(active)
                    })
                },
                None => {
                    &&& routed is Kill
                    &&& text::views(routed->Kill_0@) == old(active).accumulator@.evidence
                    &&& exists|id: Seq<char>|
                        {
                            &&& #[trigger] ids::id_shape(id)
                            &&& final(active).session@ == (TrackedView {
                                kills: old(active).session@.kills.push(
                                    settled_kill(*old(active), *group, wanted@, now, id),
                                ),
                                ..old(active).session@
                            })
                            &&& final(active).attribution@ == old(active).attribution@.settling(id)
                        }
                    &&& final(active).accumulator@ == AccumulatorView::empty()
                    &&& *final(active) == (ActiveSession {
                        session: final(active).session,
                        accumulator: final(active).accumulator,
                        attribution: final(active).attribution,
                        last_loot: final(active).last_loot,
                        dirty: true,
                        ..*old(active)
                    })
                },
            }
        },
{
    let id = fresh_id();
    let ghost chosen = id@;
    let routed = settle_loot_with_id(active, group, wanted, now, swing, id);
    assert(ids::id_shape(chosen));
    routed
}

/// The committed loot of one source: a kill's or a harvesting swing's.
#[derive(Debug, PartialEq, Eq)]
pub enum ReconciledLootSource {
    Kill { total: i128, items: Vec<LootItem> },
    Harvest { total: i128, items: Vec<LootItem> },
}

/// Where the first kill of a loot source stands; the length when none does.
pub open spec fn kill_of_source(kills: Seq<KillView>, source: Seq<char>) -> int
    decreases kills.len(),
{
    if kills.len() == 0 {
        0
    } else if kills[0].loot_source_id == Some(source) {
        0
    } else {
        1 + kill_of_source(kills.skip(1), source)
    }
}

/// Where the first swing of a loot source stands; the length when none does.
pub open spec fn harvest_of_source(harvests: Seq<HarvestView>, source: Seq<char>) -> int
    decreases harvests.len(),
{
    if harvests.len() == 0 {
        0
    } else if harvests[0].loot_source_id == Some(source) {
        0
    } else {
        1 + harvest_of_source(harvests.skip(1), source)
    }
}

fn find_kill(kills: &Vec<Kill>, source: &str) -> (at: usize)
    ensures
        at == kill_of_source(text::views(kills@), source@),
        at <= kills.len(),
{
    let ghost all = text::views(kills@);
    let mut i: usize = 0;
    assert(all.skip(0) =~= all);
    while i < kills.len()
        invariant
            i <= kills.len(),
            all == text::views(kills@),
            kill_of_source(all, source@) == i + kill_of_source(all.skip(i as int), source@),
        decreases kills.len() - i,
    {
        assert(all.skip(i as int)[0] == kills@[i as int]@);
        if is_text(&kills[i].loot_source_id, source) {
            return i;
        }
        assert(all.skip(i as int).skip(1) =~= all.skip(i as int + 1));
        i += 1;
    }
    i
}

fn find_harvest(harvests: &Vec<HarvestEvent>, source: &str) -> (at: usize)
    ensures
        at == harvest_of_source(text::views(harvests@), source@),
        at <= harvests.len(),
{
    let ghost all = text::views(harvests@);
    let mut i: usize = 0;
    assert(all.skip(0) =~= all);
    while i < harvests.len()
        invariant
            i <= harvests.len(),
            all == text::views(harvests@),
            harvest_of_source(all, source@) == i + harvest_of_source(
                all.skip(i as int),
                source@,
            ),
        decreases harvests.len() - i,
    {
        assert(all.skip(i as int)[0] == harvests@[i as int]@);
        if is_text(&harvests[i].loot_source_id, source) {
            return i;
        }
        assert(all.skip(i as int).skip(1) =~= all.skip(i as int + 1));
        i += 1;
    }
    i
}

/// The session after one source's loot is taken from its committed rows: the
/// first kill (or swing) of the source holds exactly them, and nothing else
/// moves.
pub open spec fn reconciled(
    session: TrackedView,
    source: Seq<char>,
    stored: ReconciledLootSource,
) -> TrackedView {
    match stored {
        ReconciledLootSource::Kill { total, items } => {
            let at = kill_of_source(session.kills, source);
            if at < session.kills.len() {
                TrackedView {
                    kills: session.kills.update(
                        at,
                        KillView {
                            loot_items: text::views(items@),
                            loot_total_ped: total,
                            ..session.kills[at]
                        },
                    ),
                    ..session
                }
            } else {
                session
            }
        },
        ReconciledLootSource::Harvest { total, items } => {
            let at = harvest_of_source(session.harvests, source);
            if at < session.harvests.len() {
                TrackedView {
                    harvests: session.harvests.update(
                        at,
                        HarvestView {
                            loot_items: text::views(items@),
                            loot_total_ped: total,
                            ..session.harvests[at]
                        },
                    ),
                    ..session
                }
            } else {
                session
            }
        },
    }
}

/// Reconcile one stable loot source from its committed active item rows.
/// Reward confirmation and reversal both use this path, so partial
/// reclassification and restoration remain exact in the live aggregate. False
/// when the source is absent from the running session or already matches.
pub fn reconcile_loot(
    active: &mut ActiveSession,
    source_id: &str,
    stored: ReconciledLootSource,
) -> (changed: bool)
    ensures
        final(active).session@ == reconciled(old(active).session@, source_id@, stored),
        changed == (final(active).session@ != old(active).session@),
        *final(active) == (ActiveSession {
            session: final(active).session,
            dirty: old(active).dirty || changed,
            ..*old(active)
        }),
{
    let ghost before = active.session@;
    match stored {
        ReconciledLootSource::Kill { total, items } => {
            let at: usize = find_kill(&active.session.kills, source_id);
            if at == active.session.kills.len() {
                return false;
            }
            let mut kill = active.session.kills[at].clone();
            assert(kill@ == before.kills[at as int]);
            if same_items(&kill.loot_items, &items) && kill.loot_total_ped == total {
                proof {
                    assert(before.kills.update(at as int, before.kills[at as int])
                        =~= before.kills);
                    assert(reconciled(before, source_id@, stored).kills =~= before.kills);
                }
                return false;
            }
            let ghost found = text::views(items@);
            kill.loot_items = items;
            kill.loot_total_ped = total;
            let ghost changed = kill@;
            active.session.kills[at] = kill;
            proof {
                assert(active.session@.kills =~= before.kills.update(at as int, changed));
                assert(active.session@.kills[at as int] == changed);
                assert(changed != before.kills[at as int]);
            }
        },
        ReconciledLootSource::Harvest { total, items } => {
            let at: usize = find_harvest(&active.session.harvests, source_id);
            if at == active.session.harvests.len() {
                return false;
            }
            let mut harvest = active.session.harvests[at].clone();
            assert(harvest@ == before.harvests[at as int]);
            if same_items(&harvest.loot_items, &items) && harvest.loot_total_ped == total {
                proof {
                    assert(before.harvests.update(at as int, before.harvests[at as int])
                        =~= before.harvests);
                    assert(reconciled(before, source_id@, stored).harvests =~= before.harvests);
                }
                return false;
            }
            harvest.loot_items = items;
            harvest.loot_total_ped = total;
            let ghost changed = harvest@;
            active.session.harvests[at] = harvest;
            proof {
                assert(active.session@.harvests =~= before.harvests.update(at as int, changed));
                assert(active.session@.harvests[at as int] == changed);
                assert(changed != before.harvests[at as int]);
            }
        },
    }
    active.dirty = true;
    true
}

/// A global or hall-of-fame line of the chat log.
#[derive(Clone, Copy, Debug, PartialEq, Eq, Structural)]
pub enum GlobalKind {
    GlobalKill,
    HofKill,
    GlobalItem,
    HofItem,
}

impl GlobalKind {
    /// The word a stored event carries.
    pub open spec fn word(self) -> Seq<char> {
        match self {
            GlobalKind::GlobalKill => "global_kill"@,
            GlobalKind::HofKill => "hof_kill"@,
            GlobalKind::GlobalItem => "global_item"@,
            GlobalKind::HofItem => "hof_item"@,
        }
    }

    /// Whether it made the hall of fame.
    pub open spec fn is_hof(self) -> bool {
        self is HofKill || self is HofItem
    }

    /// The word a stored event carries.
    pub fn as_str(self) -> (word: &'static str)
        ensures
            word@ == self.word(),
    {
        match self {
            GlobalKind::GlobalKill => "global_kill",
            GlobalKind::HofKill => "hof_kill",
            GlobalKind::GlobalItem => "global_item",
            GlobalKind::HofItem => "hof_item",
        }
    }

    fn hof(self) -> (yes: bool)
        ensures
            yes == self.is_hof(),
    {
        match self {
            GlobalKind::HofKill => true,
            GlobalKind::HofItem => true,
            _ => false,
        }
    }
}

/// A notable event, as it is stored.
#[derive(Debug, PartialEq, Eq)]
pub struct NotableEvent {
    pub session_id: String,
    /// The kill it was tagged onto, when one is near enough.
    pub kill_id: Option<String>,
    /// Whether that kill now counts as a hall-of-fame kill.
    pub target_is_hof: bool,
    pub kind: GlobalKind,
    pub mob_or_item: String,
    pub value_ped: i64,
    pub timestamp: i64,
}

/// Whether an event is near enough to a kill to be tagged onto it.
pub open spec fn correlates(at: int, kill_at: int) -> bool {
    -GLOBAL_CORRELATION_WINDOW < at - kill_at < GLOBAL_CORRELATION_WINDOW
}

/// Whether the session's last kill takes the event's tag.
pub open spec fn tags_last(kills: Seq<KillView>, at: i64) -> bool {
    kills.len() > 0 && correlates(at as int, kills.last().timestamp as int)
}

/// The kills after an event of the player's: the last one tagged, when it is
/// near enough.
pub open spec fn tagged(kills: Seq<KillView>, kind: GlobalKind, at: i64) -> Seq<KillView> {
    if tags_last(kills, at) {
        kills.update(
            kills.len() - 1,
            KillView {
                is_global: true,
                is_hof: kills.last().is_hof || kind.is_hof(),
                ..kills.last()
            },
        )
    } else {
        kills
    }
}

/// Whether an announcement is of the player: a name is set, and it is theirs in
/// any case of letters.
pub open spec fn is_own(player: Seq<char>, player_name: Seq<char>) -> bool {
    player_name.len() > 0 && text::lower_case(player) == text::lower_case(player_name)
}

/// What an announcement was about, or unknown where it does not say.
pub open spec fn announced(subject: Seq<char>) -> Seq<char> {
    if subject.len() == 0 {
        "Unknown"@
    } else {
        subject
    }
}

/// Correlate a global or hall-of-fame line: it is the player's own when the
/// names agree in lower case, and tags the most recently created kill, since
/// globals arrive shortly after loot. None for somebody else's event, which
/// changes nothing.
pub fn correlate_global(
    active: &mut ActiveSession,
    kind: GlobalKind,
    player: &str,
    player_name: &str,
    subject: &str,
    value_ped: i64,
    at: i64,
) -> (notable: Option<NotableEvent>)
    ensures
        if !is_own(player@, player_name@) {
            notable is None && *final(active) == *old(active)
        } else {
            &&& notable is Some
            &&& final(active).session@ == (TrackedView {
                kills: tagged(old(active).session@.kills, kind, at),
                ..old(active).session@
            })
            &&& *final(active) == (ActiveSession {
                session: final(active).session,
                dirty: true,
                ..*old(active)
            })
            &&& notable->0.session_id@ == old(active).session.id@
            &&& notable->0.kind == kind
            &&& notable->0.value_ped == value_ped
            &&& notable->0.timestamp == at
            &&& notable->0.mob_or_item@ == announced(subject@)
            &&& (if tags_last(old(active).session@.kills, at) {
                text::opt_view(notable->0.kill_id) == Some(old(active).session@.kills.last().id)
                    && notable->0.target_is_hof == final(active).session@.kills.last().is_hof
            } else {
                notable->0.kill_id is None && !notable->0.target_is_hof
            })
        },
{
    if player_name.is_empty() || !same_lower_case(player, player_name) {
        return None;
    }
    let ghost before = active.session@;
    active.dirty = true;
    let mob_or_item: String = if subject.is_empty() {
        "Unknown".to_owned()
    } else {
        subject.to_owned()
    };
    let mut kill_id: Option<String> = None;
    let mut target_is_hof: bool = false;
    let count: usize = active.session.kills.len();
    if count > 0 {
        let last: usize = count - 1;
        let gap: i128 = at as i128 - active.session.kills[last].timestamp as i128;
        assert(before.kills.last() == active.session.kills@[last as int]@);
        if -(GLOBAL_CORRELATION_WINDOW as i128) < gap && gap < GLOBAL_CORRELATION_WINDOW as i128 {
            let mut kill = active.session.kills[last].clone();
            kill.is_global = true;
            if kind.hof() {
                kill.is_hof = true;
            }
            kill_id = Some(kill.id.clone());
            target_is_hof = kill.is_hof;
            let ghost changed = kill@;
            active.session.kills[last] = kill;
            assert(active.session@.kills =~= before.kills.update(last as int, changed));
        }
    }
    assert(active.session@.kills =~= tagged(before.kills, kind, at));
    Some(
        NotableEvent {
            session_id: active.session.id.clone(),
            kill_id,
            target_is_hof,
            kind,
            mob_or_item,
            value_ped,
            timestamp: at,
        },
    )
}

/// Taking a source's loot from its rows twice is taking it once: the second
/// time finds nothing to change.
pub proof fn reconciling_twice_changes_nothing(
    session: TrackedView,
    source: Seq<char>,
    stored: ReconciledLootSource,
)
    ensures
        reconciled(reconciled(session, source, stored), source, stored) == reconciled(
            session,
            source,
            stored,
        ),
{
    let once = reconciled(session, source, stored);
    match stored {
        ReconciledLootSource::Kill { total, items } => {
            let at = kill_of_source(session.kills, source);
            kill_source_found(session.kills, source);
            if at < session.kills.len() {
                same_kill_sources(session.kills, once.kills, source);
                kill_source_found(once.kills, source);
                assert(reconciled(once, source, stored).kills =~= once.kills);
            }
        },
        ReconciledLootSource::Harvest { total, items } => {
            let at = harvest_of_source(session.harvests, source);
            harvest_source_found(session.harvests, source);
            if at < session.harvests.len() {
                same_harvest_sources(session.harvests, once.harvests, source);
                assert(reconciled(once, source, stored).harvests =~= once.harvests);
            }
        },
    }
}

proof fn kill_source_found(kills: Seq<KillView>, source: Seq<char>)
    ensures
        0 <= kill_of_source(kills, source) <= kills.len(),
    decreases kills.len(),
{
    if kills.len() > 0 && kills[0].loot_source_id != Some(source) {
        kill_source_found(kills.skip(1), source);
    }
}

proof fn harvest_source_found(harvests: Seq<HarvestView>, source: Seq<char>)
    ensures
        0 <= harvest_of_source(harvests, source) <= harvests.len(),
    decreases harvests.len(),
{
    if harvests.len() > 0 && harvests[0].loot_source_id != Some(source) {
        harvest_source_found(harvests.skip(1), source);
    }
}

proof fn same_kill_sources(a: Seq<KillView>, b: Seq<KillView>, source: Seq<char>)
    requires
        a.len() == b.len(),
        forall|i: int|
            0 <= i < a.len() ==> (#[trigger] a[i]).loot_source_id == b[i].loot_source_id,
    ensures
        kill_of_source(a, source) == kill_of_source(b, source),
    decreases a.len(),
{
    if a.len() > 0 {
        assert(a[0].loot_source_id == b[0].loot_source_id);
        assert forall|i: int| 0 <= i < a.skip(1).len() implies (
        #[trigger] a.skip(1)[i]).loot_source_id == b.skip(1)[i].loot_source_id by {
            assert(a[i + 1].loot_source_id == b[i + 1].loot_source_id);
        }
        same_kill_sources(a.skip(1), b.skip(1), source);
    }
}

proof fn same_harvest_sources(a: Seq<HarvestView>, b: Seq<HarvestView>, source: Seq<char>)
    requires
        a.len() == b.len(),
        forall|i: int|
            0 <= i < a.len() ==> (#[trigger] a[i]).loot_source_id == b[i].loot_source_id,
    ensures
        harvest_of_source(a, source) == harvest_of_source(b, source),
    decreases a.len(),
{
    if a.len() > 0 {
        assert(a[0].loot_source_id == b[0].loot_source_id);
        assert forall|i: int| 0 <= i < a.skip(1).len() implies (
        #[trigger] a.skip(1)[i]).loot_source_id == b.skip(1)[i].loot_source_id by {
            assert(a[i + 1].loot_source_id == b[i + 1].loot_source_id);
        }
        same_harvest_sources(a.skip(1), b.skip(1), source);
    }
}

} // verus!
