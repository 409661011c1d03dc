//! The tracker's dependency seams: the equipment library and the
//! session-capture configuration, as named traits the composition root
//! implements once, and their inert fallbacks.

use crate::attribution::{CarriedWeapon, WeaponProps};
use crate::harvest::HarvestGuardrailTools;
use crate::phases::HuntingLooterLevels;
use crate::units::Ped;
use vstd::prelude::*;

verus! {

/// An equipment profile from the library lookup, when the tool is known.
pub type EquipmentProfile = Option<WeaponProps>;

/// One carried weapon resolved for the tracker: what the guardrail sees (its
/// name and damage band) and the stored properties that price it.
#[derive(Debug, PartialEq, Eq)]
pub struct CarriedWeaponProfile {
    pub weapon: CarriedWeapon,
    pub props: WeaponProps,
}

/// A declared equipped source of reload speed.
#[derive(Debug, PartialEq, Eq)]
pub struct PassiveEffectSource {
    pub name: String,
    pub reload_speed_percent: i64,
}

/// The equipment-library seam: profile and cost lookups plus the carried
/// weapons weapon attribution chooses among.
pub trait EquipmentLibrary: Send + Sync {
    /// The weapon profile whose name matches the tool fragment, when the
    /// library knows it.
    fn weapon_profile(&self, tool_name: &str) -> EquipmentProfile;

    /// The per-shot cost, nothing when the tool is unknown.
    fn cost_per_shot(&self, tool_name: &str) -> Ped;

    /// The weapons the player carries: every weapon bound to a hotbar slot and
    /// every weapon carried without a hotkey, each once.
    fn carried_weapons(&self) -> Vec<CarriedWeaponProfile>;

    /// Resolve the harvest guardrail's intended tools, when the guardrail is
    /// enabled and at least one board class names a tool the library knows.
    fn resolve_harvest_guardrail(&self) -> Option<HarvestGuardrailTools>;

    /// Believed-current hunting-looter levels, snapshotted when a session
    /// starts. The exact three-profession set is part of the model contract.
    fn hunting_looter_levels(&self) -> (levels: HuntingLooterLevels)
        default_ensures
            levels == HuntingLooterLevels::unskilled(),
    {
        HuntingLooterLevels { animal: 0, mutant: 0, robot: 0 }
    }
}

/// The session-capture configuration seam: the live settings the tracker
/// consults at session start, on reload, and per event.
pub trait TrackingConfig: Send + Sync {
    /// The configured session name (the designated facet a session snapshots
    /// at start; empty is "not declared").
    fn session_name(&self) -> String;

    /// The selected session definition the next session starts as an instance
    /// of; `None` is "no definition".
    fn session_definition_id(&self) -> Option<i64>;

    /// The declared skill-boost facet the next session opens under: `None`
    /// claims nothing, `Some(0)` declares deliberately-unboosted play,
    /// `Some(n)` declares a magnitude.
    fn declared_skill_boost_percent(&self) -> Option<i64>;

    /// The declared (species, maturity), when one is configured.
    fn manual_mob(&self) -> Option<(String, String)>;

    /// The loot-filter blacklist.
    fn loot_filter_blacklist(&self) -> Vec<String>;

    /// The declared equipped sources of reload speed (rings, clothing).
    fn passive_effect_sources(&self) -> (sources: Vec<PassiveEffectSource>)
        default_ensures
            sources@.len() == 0,
    {
        Vec::new()
    }
}

/// The inert equipment library: no profiles, no costs, no carried weapons.
pub struct InertEquipment;

impl EquipmentLibrary for InertEquipment {
    fn weapon_profile(&self, _tool_name: &str) -> (profile: EquipmentProfile)
        ensures
            profile is None,
    {
        None
    }

    fn cost_per_shot(&self, _tool_name: &str) -> (cost: Ped)
        ensures
            cost == Ped(0),
    {
        Ped(0)
    }

    fn carried_weapons(&self) -> (carried: Vec<CarriedWeaponProfile>)
        ensures
            carried@.len() == 0,
    {
        Vec::new()
    }

    fn resolve_harvest_guardrail(&self) -> (tools: Option<HarvestGuardrailTools>)
        ensures
            tools is None,
    {
        None
    }

    fn hunting_looter_levels(&self) -> (levels: HuntingLooterLevels)
        ensures
            levels == (HuntingLooterLevels { animal: 0, mutant: 0, robot: 0 }),
    {
        HuntingLooterLevels { animal: 0, mutant: 0, robot: 0 }
    }
}

/// The inert configuration fallbacks: no declared facets, empty blacklist.
pub struct DefaultTrackingConfig;

impl TrackingConfig for DefaultTrackingConfig {
    fn session_name(&self) -> (name: String)
        ensures
            name@.len() == 0,
    {
        proof {
            reveal_strlit("");
        }
        "".to_owned()
    }

    fn session_definition_id(&self) -> (id: Option<i64>)
        ensures
            id is None,
    {
        None
    }

    fn declared_skill_boost_percent(&self) -> (percent: Option<i64>)
        ensures
            percent is None,
    {
        None
    }

    fn manual_mob(&self) -> (mob: Option<(String, String)>)
        ensures
            mob is None,
    {
        None
    }

    fn loot_filter_blacklist(&self) -> (names: Vec<String>)
        ensures
            names@.len() == 0,
    {
        Vec::new()
    }
}

} // verus!
