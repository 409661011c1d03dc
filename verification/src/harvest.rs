//! Harvesting: what a swing's board output says about the tree, and the
//! tools the guardrail intends for it.

use crate::records::LootItem;
use crate::text;
use crate::text::{begins_with, copy_optional, finishes_with};
use crate::units::Ped;
use vstd::prelude::*;

verus! {

/// The yield a swing's board output evidences.
#[derive(Clone, Copy, Debug, PartialEq, Eq, Structural)]
pub enum HarvestYieldTier {
    Short,
    Long,
    Huge,
    Unknown,
}

/// The guardrail's name for the shared board-yield vocabulary.
pub type TreeSize = HarvestYieldTier;

/// How a swing's yield tier was found.
#[derive(Clone, Copy, Debug, PartialEq, Eq, Structural)]
pub enum HarvestYieldSource {
    /// Its own board output.
    Board,
    /// A neighbouring swing's board output.
    Inferred,
}

/// The tier a board's name evidences: a board is an item whose name ends in
/// ` Board`, short or long by the word it begins with; a plain one is a long
/// tree's, a long one a huge tree's.
pub open spec fn board_tier(name: Seq<char>) -> Option<HarvestYieldTier> {
    if !" Board"@.is_suffix_of(name) {
        None
    } else if "Short "@.is_prefix_of(name) {
        Some(HarvestYieldTier::Short)
    } else if "Long "@.is_prefix_of(name) {
        Some(HarvestYieldTier::Huge)
    } else {
        Some(HarvestYieldTier::Long)
    }
}

/// The tier a board's name evidences; no other item evidences one.
pub fn yield_tier_for_board(name: &str) -> (tier: Option<HarvestYieldTier>)
    ensures
        tier == board_tier(name@),
{
    if !finishes_with(name, " Board") {
        None
    } else if begins_with(name, "Short ") {
        Some(HarvestYieldTier::Short)
    } else if begins_with(name, "Long ") {
        Some(HarvestYieldTier::Huge)
    } else {
        Some(HarvestYieldTier::Long)
    }
}

/// The tier of the first board among these item names.
pub open spec fn first_board_tier(names: Seq<Seq<char>>) -> Option<HarvestYieldTier>
    decreases names.len(),
{
    if names.len() == 0 {
        None
    } else if board_tier(names[0]) is Some {
        board_tier(names[0])
    } else {
        first_board_tier(names.skip(1))
    }
}

/// The names of a run of loot items.
pub open spec fn item_names(items: Seq<LootItem>) -> Seq<Seq<char>> {
    Seq::new(items.len(), |i: int| items[i].item_name@)
}

/// The tier a loot group evidences: its first board's.
pub fn tree_size_for_group(items: &[LootItem]) -> (tier: Option<TreeSize>)
    ensures
        tier == first_board_tier(item_names(items@)),
{
    let ghost names = item_names(items@);
    let mut i: usize = 0;
    assert(names.skip(0) =~= names);
    while i < items.len()
        invariant
            i <= items.len(),
            names == item_names(items@),
            first_board_tier(names) == first_board_tier(names.skip(i as int)),
        decreases items.len() - i,
    {
        assert(names.skip(i as int)[0] == items@[i as int].item_name@);
        let tier = yield_tier_for_board(items[i].item_name.as_str());
        if tier.is_some() {
            return tier;
        }
        assert(names.skip(i as int).skip(1) =~= names.skip(i as int + 1));
        i += 1;
    }
    None
}

/// One intended harvesting tool, resolved from the equipment library.
#[derive(Clone, Debug, PartialEq, Eq)]
pub struct GuardrailTool {
    pub name: String,
    pub cost_per_use_ped: Ped,
}

/// The resolved harvest guardrail: the intended tool per board class. A class
/// with no configured tool carries None and stays outside the guardrail's
/// reach.
#[derive(Clone, Debug, PartialEq, Eq)]
pub struct HarvestGuardrailTools {
    pub short: Option<GuardrailTool>,
    pub long: Option<GuardrailTool>,
    pub huge: Option<GuardrailTool>,
}

impl HarvestGuardrailTools {
    /// The tool configured for a board-output class.
    pub open spec fn intended(self, size: TreeSize) -> Option<GuardrailTool> {
        match size {
            HarvestYieldTier::Short => self.short,
            HarvestYieldTier::Long => self.long,
            HarvestYieldTier::Huge => self.huge,
            HarvestYieldTier::Unknown => None,
        }
    }

    /// The intended tool for a board-output class, when configured.
    pub fn for_size(&self, size: TreeSize) -> (tool: Option<&GuardrailTool>)
        ensures
            match tool {
                Some(tool) => self.intended(size) == Some(*tool),
                None => self.intended(size) is None,
            },
    {
        match size {
            HarvestYieldTier::Short => self.short.as_ref(),
            HarvestYieldTier::Long => self.long.as_ref(),
            HarvestYieldTier::Huge => self.huge.as_ref(),
            HarvestYieldTier::Unknown => None,
        }
    }
}

/// The tool the guardrail intends for a loot group: that of the board class
/// the group evidences, where the class has one.
pub open spec fn intent(
    guardrail: Option<HarvestGuardrailTools>,
    items: Seq<LootItem>,
) -> Option<GuardrailTool> {
    match (guardrail, first_board_tier(item_names(items))) {
        (Some(tools), Some(size)) => tools.intended(size),
        _ => None,
    }
}

/// The tool the guardrail intends for a loot group, when its boards evidence a
/// class that has one.
pub fn guardrail_intent<'a>(
    guardrail: &'a Option<HarvestGuardrailTools>,
    items: &[LootItem],
) -> (tool: Option<&'a GuardrailTool>)
    ensures
        match tool {
            Some(tool) => intent(*guardrail, items@) == Some(*tool),
            None => intent(*guardrail, items@) is None,
        },
{
    match guardrail {
        Some(tools) => match tree_size_for_group(items) {
            Some(size) => tools.for_size(size),
            None => None,
        },
        None => None,
    }
}

/// A standing disagreement between the equipped harvesting tool and the tool
/// the board output says was intended.
#[derive(Debug, PartialEq, Eq)]
pub struct GuardrailMismatch {
    pub expected_tool: String,
    pub observed_tool: Option<String>,
    pub tree_size: TreeSize,
    pub at: i64,
}

/// A standing disagreement as contracts read it.
pub struct GuardrailView {
    pub expected_tool: Seq<char>,
    pub observed_tool: Option<Seq<char>>,
    pub tree_size: TreeSize,
    pub at: i64,
}

impl View for GuardrailMismatch {
    type V = GuardrailView;

    open spec fn view(&self) -> GuardrailView {
        GuardrailView {
            expected_tool: self.expected_tool@,
            observed_tool: text::opt_view(self.observed_tool),
            tree_size: self.tree_size,
            at: self.at,
        }
    }
}

impl Clone for GuardrailMismatch {
    fn clone(&self) -> (copy: Self)
        ensures
            copy@ == self@,
    {
        GuardrailMismatch {
            expected_tool: self.expected_tool.clone(),
            observed_tool: copy_optional(&self.observed_tool),
            tree_size: self.tree_size,
            at: self.at,
        }
    }
}

} // verus!
