//! The records a session is made of: loot items, kills, harvesting swings,
//! and the session itself.

use crate::harvest::{HarvestYieldSource, HarvestYieldTier};
use crate::phases::{PhasesView, ToolStats};
use crate::text;
use crate::text::{cat3, copy_optional, same_text};
use vstd::prelude::*;

verus! {

/// One looted item.
#[derive(Debug, PartialEq, Eq)]
pub struct LootItem {
    pub item_name: String,
    pub quantity: i64,
    pub value_ped: i64,
    /// Whether it came from an enhancer breaking, which is a rebate of its
    /// cost rather than loot.
    pub is_enhancer_shrapnel: bool,
}

/// A looted item as contracts read it.
pub struct ItemView {
    pub item_name: Seq<char>,
    pub quantity: i64,
    pub value_ped: i64,
    pub is_enhancer_shrapnel: bool,
}

impl View for LootItem {
    type V = ItemView;

    open spec fn view(&self) -> ItemView {
        ItemView {
            item_name: self.item_name@,
            quantity: self.quantity,
            value_ped: self.value_ped,
            is_enhancer_shrapnel: self.is_enhancer_shrapnel,
        }
    }
}

impl Clone for LootItem {
    fn clone(&self) -> (copy: Self)
        ensures
            copy@ == self@,
    {
        LootItem {
            item_name: self.item_name.clone(),
            quantity: self.quantity,
            value_ped: self.value_ped,
            is_enhancer_shrapnel: self.is_enhancer_shrapnel,
        }
    }
}

impl LootItem {
    /// Whether two items are the same in every field.
    pub fn same(&self, other: &Self) -> (same: bool)
        ensures
            same == (self@ == other@),
    {
        same_text(self.item_name.as_str(), other.item_name.as_str()) && self.quantity
            == other.quantity && self.value_ped == other.value_ped && self.is_enhancer_shrapnel
            == other.is_enhancer_shrapnel
    }
}

/// A copy of a list of items.
pub fn copy_items(items: &Vec<LootItem>) -> (copy: Vec<LootItem>)
    ensures
        text::views(copy@) == text::views(items@),
{
    let mut copy: Vec<LootItem> = Vec::new();
    let mut i: usize = 0;
    while i < items.len()
        invariant
            i <= items.len(),
            copy.len() == i,
            forall|j: int| 0 <= j < i ==> (#[trigger] copy@[j])@ == items@[j]@,
        decreases items.len() - i,
    {
        copy.push(items[i].clone());
        i += 1;
    }
    assert(text::views(copy@) =~= text::views(items@));
    copy
}

/// Whether two lists hold the same items in the same order.
pub fn same_items(a: &Vec<LootItem>, b: &Vec<LootItem>) -> (same: bool)
    ensures
        same == (text::views(a@) == text::views(b@)),
{
    if a.len() != b.len() {
        assert(text::views(a@).len() != text::views(b@).len());
        return false;
    }
    let mut i: usize = 0;
    while i < a.len()
        invariant
            i <= a.len(),
            a.len() == b.len(),
            forall|j: int| 0 <= j < i ==> (#[trigger] a@[j])@ == b@[j]@,
        decreases a.len() - i,
    {
        if !a[i].same(&b[i]) {
            assert(text::views(a@)[i as int] != text::views(b@)[i as int]);
            return false;
        }
        i += 1;
    }
    assert(text::views(a@) =~= text::views(b@));
    true
}

/// Where a kill's mob name came from.
#[derive(Clone, Copy, Debug, PartialEq, Eq, Structural)]
pub enum MobStampSource {
    /// The player declared the mob.
    Declared,
}

impl MobStampSource {
    /// The word a stored row carries.
    pub fn as_str(self) -> (word: &'static str)
        ensures
            word@ == "declared"@,
    {
        match self {
            MobStampSource::Declared => "declared",
        }
    }
}

/// The mob the player declared.
#[derive(Debug, PartialEq, Eq)]
pub struct DeclaredMob {
    pub name: String,
    pub species: String,
    pub maturity: String,
}

/// What a declared mob is called: its maturity before its species, or the
/// species alone.
pub open spec fn mob_name(species: Seq<char>, maturity: Seq<char>) -> Seq<char> {
    if maturity.len() == 0 {
        species
    } else {
        maturity + " "@ + species
    }
}

impl DeclaredMob {
    /// A declared mob of a species and a maturity.
    pub fn from_parts(species: String, maturity: String) -> (mob: Self)
        ensures
            mob.name@ == mob_name(species@, maturity@),
            mob.species == species,
            mob.maturity == maturity,
    {
        let name: String = if maturity.as_str().is_empty() {
            species.clone()
        } else {
            cat3(maturity.as_str(), " ", species.as_str())
        };
        DeclaredMob { name, species, maturity }
    }
}

/// One settled kill.
#[derive(Debug, PartialEq, Eq)]
pub struct Kill {
    pub id: String,
    pub loot_source_id: Option<String>,
    pub session_id: String,
    pub mob_name: String,
    pub mob_species: String,
    pub mob_maturity: String,
    pub mob_stamp_source: Option<MobStampSource>,
    pub timestamp: i64,
    pub shots_fired: i64,
    pub damage_dealt: i128,
    pub damage_taken: i128,
    pub critical_hits: i64,
    /// What its shots cost.
    pub cost_ped: i128,
    pub enhancer_cost: i128,
    pub loot_total_ped: i128,
    pub loot_items: Vec<LootItem>,
    /// Its weapon phases, each under its key.
    pub tool_stats: Vec<(String, ToolStats)>,
    pub is_global: bool,
    pub is_hof: bool,
    pub context_id: Option<i64>,
}

/// A kill as contracts read it.
#[verifier::ext_equal]
pub struct KillView {
    pub id: Seq<char>,
    pub loot_source_id: Option<Seq<char>>,
    pub session_id: Seq<char>,
    pub mob_name: Seq<char>,
    pub mob_species: Seq<char>,
    pub mob_maturity: Seq<char>,
    pub mob_stamp_source: Option<MobStampSource>,
    pub timestamp: i64,
    pub shots_fired: i64,
    pub damage_dealt: i128,
    pub damage_taken: i128,
    pub critical_hits: i64,
    pub cost_ped: int,
    pub enhancer_cost: i128,
    pub loot_total_ped: i128,
    pub loot_items: Seq<ItemView>,
    pub tool_stats: PhasesView,
    pub is_global: bool,
    pub is_hof: bool,
    pub context_id: Option<i64>,
}

impl View for Kill {
    type V = KillView;

    open spec fn view(&self) -> KillView {
        KillView {
            id: self.id@,
            loot_source_id: text::opt_view(self.loot_source_id),
            session_id: self.session_id@,
            mob_name: self.mob_name@,
            mob_species: self.mob_species@,
            mob_maturity: self.mob_maturity@,
            mob_stamp_source: self.mob_stamp_source,
            timestamp: self.timestamp,
            shots_fired: self.shots_fired,
            damage_dealt: self.damage_dealt,
            damage_taken: self.damage_taken,
            critical_hits: self.critical_hits,
            cost_ped: self.cost_ped as int,
            enhancer_cost: self.enhancer_cost,
            loot_total_ped: self.loot_total_ped,
            loot_items: text::views(self.loot_items@),
            tool_stats: text::views(self.tool_stats@),
            is_global: self.is_global,
            is_hof: self.is_hof,
            context_id: self.context_id,
        }
    }
}

/// A copy of a list of phases.
pub fn copy_phases(phases: &Vec<(String, ToolStats)>) -> (copy: Vec<(String, ToolStats)>)
    ensures
        text::views(copy@) == text::views(phases@),
{
    let mut copy: Vec<(String, ToolStats)> = Vec::new();
    let mut i: usize = 0;
    while i < phases.len()
        invariant
            i <= phases.len(),
            copy.len() == i,
            forall|j: int| 0 <= j < i ==> (#[trigger] copy@[j])@ == phases@[j]@,
        decreases phases.len() - i,
    {
        copy.push((phases[i].0.clone(), phases[i].1.clone()));
        i += 1;
    }
    assert(text::views(copy@) =~= text::views(phases@));
    copy
}

impl Clone for Kill {
    fn clone(&self) -> (copy: Self)
        ensures
            copy@ == self@,
    {
        Kill {
            id: self.id.clone(),
            loot_source_id: copy_optional(&self.loot_source_id),
            session_id: self.session_id.clone(),
            mob_name: self.mob_name.clone(),
            mob_species: self.mob_species.clone(),
            mob_maturity: self.mob_maturity.clone(),
            mob_stamp_source: self.mob_stamp_source,
            timestamp: self.timestamp,
            shots_fired: self.shots_fired,
            damage_dealt: self.damage_dealt,
            damage_taken: self.damage_taken,
            critical_hits: self.critical_hits,
            cost_ped: self.cost_ped,
            enhancer_cost: self.enhancer_cost,
            loot_total_ped: self.loot_total_ped,
            loot_items: copy_items(&self.loot_items),
            tool_stats: copy_phases(&self.tool_stats),
            is_global: self.is_global,
            is_hof: self.is_hof,
            context_id: self.context_id,
        }
    }
}

/// A copy of a list of kills.
pub fn copy_kills(kills: &Vec<Kill>) -> (copy: Vec<Kill>)
    ensures
        text::views(copy@) == text::views(kills@),
{
    let mut copy: Vec<Kill> = Vec::new();
    let mut i: usize = 0;
    while i < kills.len()
        invariant
            i <= kills.len(),
            copy.len() == i,
            forall|j: int| 0 <= j < i ==> (#[trigger] copy@[j])@ == kills@[j]@,
        decreases kills.len() - i,
    {
        copy.push(kills[i].clone());
        i += 1;
    }
    assert(text::views(copy@) =~= text::views(kills@));
    copy
}

/// One harvesting swing.
#[derive(Debug, PartialEq, Eq)]
pub struct HarvestEvent {
    pub id: String,
    pub loot_source_id: Option<String>,
    pub session_id: String,
    pub timestamp: i64,
    pub success: bool,
    pub tool_name: Option<String>,
    pub yield_tier: HarvestYieldTier,
    pub yield_tier_source: Option<HarvestYieldSource>,
    pub cost_ped: i128,
    pub loot_total_ped: i128,
    pub loot_items: Vec<LootItem>,
    pub context_id: Option<i64>,
}

/// A harvesting swing as contracts read it.
#[verifier::ext_equal]
pub struct HarvestView {
    pub id: Seq<char>,
    pub loot_source_id: Option<Seq<char>>,
    pub session_id: Seq<char>,
    pub timestamp: i64,
    pub success: bool,
    pub tool_name: Option<Seq<char>>,
    pub yield_tier: HarvestYieldTier,
    pub yield_tier_source: Option<HarvestYieldSource>,
    pub cost_ped: i128,
    pub loot_total_ped: i128,
    pub loot_items: Seq<ItemView>,
    pub context_id: Option<i64>,
}

impl View for HarvestEvent {
    type V = HarvestView;

    open spec fn view(&self) -> HarvestView {
        HarvestView {
            id: self.id@,
            loot_source_id: text::opt_view(self.loot_source_id),
            session_id: self.session_id@,
            timestamp: self.timestamp,
            success: self.success,
            tool_name: text::opt_view(self.tool_name),
            yield_tier: self.yield_tier,
            yield_tier_source: self.yield_tier_source,
            cost_ped: self.cost_ped,
            loot_total_ped: self.loot_total_ped,
            loot_items: text::views(self.loot_items@),
            context_id: self.context_id,
        }
    }
}

impl Clone for HarvestEvent {
    fn clone(&self) -> (copy: Self)
        ensures
            copy@ == self@,
    {
        HarvestEvent {
            id: self.id.clone(),
            loot_source_id: copy_optional(&self.loot_source_id),
            session_id: self.session_id.clone(),
            timestamp: self.timestamp,
            success: self.success,
            tool_name: copy_optional(&self.tool_name),
            yield_tier: self.yield_tier,
            yield_tier_source: self.yield_tier_source,
            cost_ped: self.cost_ped,
            loot_total_ped: self.loot_total_ped,
            loot_items: copy_items(&self.loot_items),
            context_id: self.context_id,
        }
    }
}

/// A tracked session: its span and what happened in it.
#[derive(Debug, PartialEq, Eq)]
pub struct TrackingSession {
    pub id: String,
    pub start_time: i64,
    pub end_time: Option<i64>,
    pub kills: Vec<Kill>,
    pub harvests: Vec<HarvestEvent>,
    /// What the shots after its last kill cost.
    pub dangling_cost: i128,
}

/// A tracked session as contracts read it.
#[verifier::ext_equal]
pub struct TrackedView {
    pub id: Seq<char>,
    pub start_time: i64,
    pub end_time: Option<i64>,
    pub kills: Seq<KillView>,
    pub harvests: Seq<HarvestView>,
    pub dangling_cost: i128,
}

impl View for TrackingSession {
    type V = TrackedView;

    open spec fn view(&self) -> TrackedView {
        TrackedView {
            id: self.id@,
            start_time: self.start_time,
            end_time: self.end_time,
            kills: text::views(self.kills@),
            harvests: text::views(self.harvests@),
            dangling_cost: self.dangling_cost,
        }
    }
}

impl Clone for TrackingSession {
    fn clone(&self) -> (copy: Self)
        ensures
            copy@ == self@,
    {
        let mut harvests: Vec<HarvestEvent> = Vec::new();
        let mut i: usize = 0;
        while i < self.harvests.len()
            invariant
                i <= self.harvests.len(),
                harvests.len() == i,
                forall|j: int| 0 <= j < i ==> (#[trigger] harvests@[j])@ == self.harvests@[j]@,
            decreases self.harvests.len() - i,
        {
            harvests.push(self.harvests[i].clone());
            i += 1;
        }
        assert(text::views(harvests@) =~= text::views(self.harvests@));
        TrackingSession {
            id: self.id.clone(),
            start_time: self.start_time,
            end_time: self.end_time,
            kills: copy_kills(&self.kills),
            harvests,
            dangling_cost: self.dangling_cost,
        }
    }
}

} // verus!
