use hunt_tracker::activities::TrackerCommandError;
use hunt_tracker::attribution::AttributionKind;
use hunt_tracker::doses::{
    DoseError, BUFF_GOES_WITH_HEAL, BUFF_REMOVED_WITH_HEAL, LATER_DOSE_RUNS,
};
use hunt_tracker::evidence::{MismatchDecision, WeaponDecisionError};
use hunt_tracker::harvest::{
    tree_size_for_group, yield_tier_for_board, GuardrailTool, HarvestGuardrailTools, TreeSize,
};
use hunt_tracker::healing::HealingState;
use hunt_tracker::intervals::{CloseScope, IntervalKind, IntervalState, OpenInterval};
use hunt_tracker::phases::HuntingLooterLevels;
use hunt_tracker::providers::{
    DefaultTrackingConfig, EquipmentLibrary, InertEquipment, TrackingConfig,
};
use hunt_tracker::records::LootItem;
use hunt_tracker::units::Ped;

#[test]
fn interval_kind_round_trips_its_wire_string() {
    for kind in [
        IntervalKind::Modifier,
        IntervalKind::Segment,
        IntervalKind::Quest,
        IntervalKind::Consumable,
        IntervalKind::Protection,
    ] {
        assert_eq!(IntervalKind::parse(kind.as_str()), Some(kind));
    }
    assert_eq!(IntervalKind::parse("nonsense"), None);
}

#[test]
fn the_wire_strings_are_lower_case_words() {
    assert_eq!(IntervalKind::Modifier.as_str(), "modifier");
    assert_eq!(IntervalKind::Consumable.as_str(), "consumable");
    assert_eq!(AttributionKind::EffectTick.as_str(), "effect_tick");
    assert_eq!(IntervalKind::parse("Modifier"), None);
    assert_eq!(IntervalKind::parse(""), None);
}

#[test]
fn a_declared_zero_magnitude_is_not_an_absent_modifier() {
    let state = IntervalState::default();
    assert_eq!(state.modifier_magnitude(), None);

    let state = IntervalState::restored(
        vec![OpenInterval {
            id: 1,
            kind: IntervalKind::Modifier,
            label: None,
            ref_id: None,
            magnitude: Some(0),
        }],
        None,
    );
    assert_eq!(state.modifier_magnitude(), Some(0));
}

fn open(id: i64, kind: IntervalKind, ref_id: Option<i64>) -> OpenInterval {
    OpenInterval { id, kind, label: None, ref_id, magnitude: None }
}

fn standing() -> IntervalState {
    IntervalState::restored(
        vec![
            open(1, IntervalKind::Quest, Some(7)),
            open(2, IntervalKind::Segment, None),
            open(3, IntervalKind::Quest, Some(8)),
        ],
        Some(1),
    )
}

fn ids(intervals: &[OpenInterval]) -> Vec<i64> {
    intervals.iter().map(|interval| interval.id).collect()
}

#[test]
fn each_close_ends_what_it_names_and_adopts_the_narrower_context() {
    let mut state = standing();
    assert_eq!(ids(&state.close_kind::<()>(IntervalKind::Quest, Ok(2)).unwrap()), vec![1, 3]);
    assert_eq!(state.plan_close_session(), vec![2]);
    assert_eq!(state.context_id(), Some(2));

    let mut state = standing();
    assert_eq!(ids(&state.close_ref::<()>(IntervalKind::Quest, 8, Ok(2)).unwrap()), vec![3]);
    assert_eq!(state.plan_close_session(), vec![1, 2]);

    let mut state = standing();
    let kinds = vec![IntervalKind::Quest, IntervalKind::Segment];
    assert_eq!(ids(&state.close_kinds_except_id::<()>(kinds, 3, Ok(2)).unwrap()), vec![1, 2]);
    assert_eq!(state.plan_close_session(), vec![3]);

    let mut state = standing();
    assert_eq!(ids(&state.close_ids::<()>(vec![2, 9], Ok(2)).unwrap()), vec![2]);
    assert_eq!(state.plan_close_session(), vec![1, 3]);
}

#[test]
fn a_close_with_nothing_to_end_or_a_failed_write_changes_nothing() {
    let mut state = standing();
    let outcome = state.close_kind(IntervalKind::Modifier, Err("unused"));
    assert_eq!(outcome, Ok(Vec::new()));
    assert_eq!(state.context_id(), Some(1));
    let outcome = state.close_ref(IntervalKind::Quest, 7, Err("disk full"));
    assert_eq!(outcome, Err("disk full"));
    assert_eq!(state.plan_close_session(), vec![1, 2, 3]);
    assert_eq!(state.context_id(), Some(1));
}

#[test]
fn each_scope_seals_its_kinds_and_no_other() {
    let same = CloseScope::SameKind;
    assert!(same.seals(IntervalKind::Quest, IntervalKind::Quest));
    assert!(!same.seals(IntervalKind::Quest, IntervalKind::Segment));
    let nothing = CloseScope::Nothing;
    assert!(!nothing.seals(IntervalKind::Quest, IntervalKind::Quest));
}

#[test]
fn inert_equipment_offers_nothing() {
    let equipment = InertEquipment;
    assert_eq!(equipment.weapon_profile("Opalo"), None);
    assert_eq!(equipment.cost_per_shot("Opalo"), Ped(0));
    assert!(equipment.carried_weapons().is_empty());
    assert_eq!(equipment.resolve_harvest_guardrail(), None);
    assert_eq!(
        equipment.hunting_looter_levels(),
        HuntingLooterLevels { animal: 0, mutant: 0, robot: 0 }
    );
}

#[test]
fn default_tracking_config_is_the_inert_fallback() {
    let config = DefaultTrackingConfig;
    assert_eq!(config.session_name(), "");
    assert_eq!(config.declared_skill_boost_percent(), None);
    assert_eq!(config.manual_mob(), None);
    assert!(config.loot_filter_blacklist().is_empty());
    assert_eq!(config.session_definition_id(), None);
    assert!(config.passive_effect_sources().is_empty());
}

#[test]
fn command_error_messages_are_stable() {
    assert_eq!(TrackerCommandError::NoActiveSession.message(), "No active session");
}

#[test]
fn dose_and_decision_errors_say_why() {
    assert_eq!(DoseError::NotFound.message(), "No such dose");
    assert_eq!(
        DoseError::Refused(BUFF_GOES_WITH_HEAL).message(),
        "A heal's buff goes with the heal; correct the heal instead"
    );
    assert_eq!(
        DoseError::Refused(BUFF_REMOVED_WITH_HEAL).message(),
        "This buff was removed with its heal; undo the heal's correction to restore it"
    );
    assert_eq!(
        DoseError::Refused(LATER_DOSE_RUNS).message(),
        "A later dose of this item is running; remove it first"
    );
    assert_eq!(DoseError::Db("disk full".to_string()).message(), "disk full");
    assert_eq!(WeaponDecisionError::NoActiveSession.message(), "No active session");
}

#[test]
fn decisions_record_their_closed_vocabulary() {
    assert_eq!(MismatchDecision::Confirm.as_str(), "confirmed");
    assert_eq!(MismatchDecision::Keep.as_str(), "kept");
}

#[test]
fn healing_states_read_as_words() {
    assert_eq!(HealingState::Effect.as_str(), "effect");
    assert_eq!(HealingState::Cooldown.as_str(), "cooldown");
    assert_eq!(HealingState::Ready.as_str(), "ready");
    assert_eq!(HealingState::Passive.as_str(), "passive");
}

#[test]
fn tree_size_classification_reads_the_board_prefix() {
    assert_eq!(yield_tier_for_board("Short Moonleaf Board"), Some(TreeSize::Short));
    assert_eq!(yield_tier_for_board("Moonleaf Board"), Some(TreeSize::Long));
    assert_eq!(yield_tier_for_board("Long Kaisenbrandt Board"), Some(TreeSize::Huge));
    // No space after the prefix word: a species name, not a size.
    assert_eq!(yield_tier_for_board("Longleaf Board"), Some(TreeSize::Long));
    assert_eq!(yield_tier_for_board("Wood Shavings"), None);
    assert_eq!(yield_tier_for_board("Shrapnel"), None);

    let group = [
        LootItem {
            item_name: "Wood Shavings".into(),
            quantity: 3,
            value_ped: 3_000_000_000,
            is_enhancer_shrapnel: false,
        },
        LootItem {
            item_name: "Long Moonleaf Board".into(),
            quantity: 1,
            value_ped: 50_000_000_000,
            is_enhancer_shrapnel: false,
        },
    ];
    assert_eq!(tree_size_for_group(&group), Some(TreeSize::Huge));
    assert_eq!(tree_size_for_group(&group[..1]), None);
}

#[test]
fn a_board_class_without_a_tool_stays_outside_the_guardrail() {
    let tools = HarvestGuardrailTools {
        short: Some(GuardrailTool {
            name: "Axe".to_string(),
            cost_per_use_ped: Ped(1),
        }),
        long: None,
        huge: None,
    };
    assert_eq!(tools.for_size(TreeSize::Short).map(|tool| tool.name.as_str()), Some("Axe"));
    assert_eq!(tools.for_size(TreeSize::Long), None);
    assert_eq!(tools.for_size(TreeSize::Unknown), None);
}
