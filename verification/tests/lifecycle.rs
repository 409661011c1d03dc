use hunt_tracker::aggregate::{aggregate, can_read, current_tool};
use hunt_tracker::attribution::{CarriedWeapon, DamageBand, OffensiveEffectWindow};
use hunt_tracker::combat::{
    absorb_combat, note_defence_failure, offensive_observation, on_heal_tool_changed,
    on_weapon_press, CombatEvent, ShotPricing,
};
use hunt_tracker::effects::StoredWindow;
use hunt_tracker::lifecycle::{
    activate, enhancer_rebate, finish_stop, prepare_session, reload_config, seal, take_dirty,
    SessionOpening, StartConfig,
};
use hunt_tracker::loot::{settle_loot, LootGroup};
use hunt_tracker::phases::{
    HuntingLooterLevels, LooterSource, OffensiveComponentEvidence, OffensiveComponentKind,
    OffensiveLoadoutEvidence,
};
use hunt_tracker::records::{DeclaredMob, LootItem};
use hunt_tracker::session::{
    ActiveSession, HeldItem, HotbarItemKind, ResolvedDefinition, SessionState,
};
use hunt_tracker::snapshot::show;
use hunt_tracker::steps::{
    begin_session, end_session, next_start_step, SessionNotice, SessionReason, StartStep,
};
use hunt_tracker::units::Ped;

/// A printed figure in units.
fn u(value: f64) -> i64 {
    (value * 1e12).round() as i64
}

/// A sum in units.
fn w(value: f64) -> i128 {
    (value * 1e12).round() as i128
}

/// Seconds as an instant.
fn s(seconds: f64) -> i64 {
    (seconds * 1e9).round() as i64
}

fn config() -> StartConfig {
    StartConfig {
        session_name: String::new(),
        resolved: None,
        declared_boost: None,
        looters: HuntingLooterLevels { animal: 0, mutant: 0, robot: 0 },
        carried: Vec::new(),
        manual_mob: None,
    }
}

fn start(state: &mut SessionState, opening: SessionOpening) -> String {
    let id = opening.session.id.clone();
    activate(state, opening.session, opening.facets, opening.outfit);
    state.active_mut().unwrap().intervals.open_session::<()>(Ok(1)).unwrap();
    id
}

fn started(config: StartConfig) -> SessionState {
    let mut state = SessionState::Idle;
    start(&mut state, prepare_session(config, 0));
    state
}

fn pricing(price: f64) -> ShotPricing {
    ShotPricing { price: Ped(u(price)), expected: None, library: Ped(0) }
}

fn item(name: &str, quantity: i64, value: f64, is_enhancer_shrapnel: bool) -> LootItem {
    LootItem {
        item_name: name.to_string(),
        quantity,
        value_ped: u(value),
        is_enhancer_shrapnel,
    }
}

fn carried(equipment_id: i64, name: &str, damage: f64) -> CarriedWeapon {
    CarriedWeapon {
        equipment_id,
        name: name.to_string(),
        band: Some(DamageBand { min: u(damage / 2.0), max: u(damage) }),
        effect: None,
    }
}

/// Absorb an offensive line at what its resolved weapon costs.
fn fire(active: &mut ActiveSession, event: CombatEvent, at: f64, costs: &[(&str, f64)]) {
    let observation = offensive_observation(event).unwrap();
    let resolved = active.attribution.classify(observation, s(at));
    let price = match resolved.attribution.priced_tool() {
        Some(tool) => costs.iter().find(|(name, _)| *name == tool).map_or(0.0, |(_, cost)| *cost),
        None => 0.0,
    };
    // The library would price everything at 0.9.
    let library = if price > 0.0 { Ped(u(0.9)) } else { Ped(0) };
    let pricing = ShotPricing { price: Ped(u(price)), expected: None, library };
    absorb_combat(active, event, s(at), pricing);
}

fn hit(amount: f64) -> CombatEvent {
    CombatEvent::DamageDealt { amount: u(amount) }
}

#[test]
fn session_lifecycle_round_trip() {
    let mut state = SessionState::Idle;
    let mut held: Option<HeldItem> = None;
    assert!(!state.is_active());

    let opening = prepare_session(config(), 0);
    assert_eq!(opening.session.start_time, 0);
    assert_eq!(opening.session.end_time, None);
    let session_id = start(&mut state, opening);
    assert!(state.is_active());

    // Accumulate one kill with both shrapnel kinds, plus dangling shots after
    // it.
    assert_eq!(
        on_weapon_press(&mut state, &mut held, "Rifle", 0),
        Some(session_id.clone()),
        "the weapon switch nudges the readout"
    );
    let active = state.active_mut().unwrap();
    absorb_combat(active, hit(30.0), s(1.0), pricing(0.05));
    let group = LootGroup {
        source_id: None,
        items: vec![
            item("Animal Hide", 1, 4.5, false),
            item("Shrapnel", 50, 0.5, false),
            item("Shrapnel", 10, 0.1, true),
        ],
        total_ped: u(5.1),
    };
    settle_loot(active, &group, &vec![true, true, true], s(2.0), None);
    absorb_combat(active, hit(7.5), s(3.0), pricing(0.05));

    let closing = seal(active, s(10.0));
    let stopped = finish_stop::<()>(&mut state, closing, Ok(())).unwrap();
    assert_eq!(stopped.id, session_id);
    assert_eq!(stopped.kills.len(), 1);
    assert_eq!(stopped.dangling_cost, w(0.05));
    assert_eq!(stopped.end_time, Some(s(10.0)));
    assert!(!state.is_active());

    // Enhancer-break Shrapnel is an immediate rebate; ordinary Shrapnel stays
    // in the loot.
    let shrapnel = |enhancer: bool| -> i128 {
        stopped.kills[0]
            .loot_items
            .iter()
            .filter(|item| item.item_name == "Shrapnel" && item.is_enhancer_shrapnel == enhancer)
            .map(|item| item.value_ped as i128)
            .sum()
    };
    assert_eq!(enhancer_rebate(shrapnel(true)), Some(w(0.1)));
    assert_eq!(shrapnel(false), w(0.5));
    assert_eq!(stopped.kills[0].loot_total_ped, w(5.0));

    // Nothing after the stop reaches a session.
    assert!(state.active_mut().is_none());
    assert_eq!(on_weapon_press(&mut state, &mut held, "Pistol", s(11.0)), None);
}

#[test]
fn start_while_tracking_stops_the_prior_session() {
    let mut state = SessionState::Idle;
    assert_eq!(next_start_step(&state), StartStep::Begin);
    let opening = prepare_session(config(), 0);
    let (first, mut told) =
        begin_session::<()>(&mut state, opening, &Vec::new(), 0, Ok(())).unwrap();
    absorb_combat(state.active_mut().unwrap(), hit(9.0), s(1.0), pricing(0.0));

    // The second start stops the first session first.
    assert_eq!(next_start_step(&state), StartStep::StopFirst);
    let closing = seal(state.active_mut().unwrap(), s(5.0));
    let (stopped, notices) = end_session::<()>(&mut state, closing, Ok(())).unwrap();
    assert_eq!(stopped.id, first.id);
    told.extend(notices);
    assert_eq!(next_start_step(&state), StartStep::Begin);
    let opening = prepare_session(config(), s(5.0));
    let (second, notices) =
        begin_session::<()>(&mut state, opening, &Vec::new(), s(5.0), Ok(())).unwrap();
    told.extend(notices);
    assert_ne!(first.id, second.id);

    // The prior session's stop is told before the new session's start.
    assert_eq!(
        told,
        vec![
            SessionNotice::Started(first.id.clone()),
            SessionNotice::Updated(first.id.clone(), SessionReason::Started),
            SessionNotice::Stopped(first.id.clone()),
            SessionNotice::Updated(first.id.clone(), SessionReason::Stopped),
            SessionNotice::Started(second.id.clone()),
            SessionNotice::Updated(second.id.clone(), SessionReason::Started),
        ]
    );
    assert_eq!(SessionReason::Started.as_str(), "started");
    assert_eq!(SessionReason::Stopped.as_str(), "stopped");

    // Nothing of the first session arrives in the second.
    let active = state.active().unwrap();
    assert_eq!(active.session.id, second.id);
    assert_eq!(active.accumulator.shots_fired, 0);
    assert_eq!(active.attribution.counts().unresolved, 0);
    assert!(!active.dirty);
}

#[test]
fn a_session_whose_row_was_not_stored_does_not_begin() {
    let mut state = SessionState::Idle;
    let opening = prepare_session(config(), 0);
    let refused = begin_session(&mut state, opening, &Vec::new(), 0, Err("disk full"));
    assert_eq!(refused, Err("disk full"));
    assert!(!state.is_active());
    assert_eq!(next_start_step(&state), StartStep::Begin);

    start(&mut state, prepare_session(config(), 0));
    let closing = seal(state.active_mut().unwrap(), s(5.0));
    assert_eq!(end_session(&mut state, closing, Err("disk full")), Err("disk full"));
    assert_eq!(next_start_step(&state), StartStep::StopFirst);
}

#[test]
fn a_session_begins_with_the_stored_effects_that_still_tick() {
    let window = |id: &str, expires: f64, withdrawn_at: Option<i64>| StoredWindow {
        window: OffensiveEffectWindow {
            id: id.to_string(),
            tool: "Zapper".to_string(),
            equipment_id: Some(4),
            started_at: 0,
            expires_at: s(expires),
            tick: DamageBand { min: u(35.0), max: u(75.0) },
        },
        withdrawn_at,
    };
    let stored =
        vec![window("over", 5.0, None), window("taken", 60.0, Some(1)), window("live", 60.0, None)];
    let mut state = SessionState::Idle;
    let opening = prepare_session(config(), s(30.0));
    begin_session::<()>(&mut state, opening, &stored, s(30.0), Ok(())).unwrap();
    let windows = state.active().unwrap().attribution.effect_windows();
    assert_eq!(windows.len(), 1);
    assert_eq!(windows[0].id, "live");
}

#[test]
fn a_failed_stop_rolls_back_every_stop_write() {
    let mut state = started(config());
    let id = state.active().unwrap().session.id.clone();
    let closing = seal(state.active_mut().unwrap(), s(5.0));
    assert_eq!(finish_stop(&mut state, closing, Err("no such table")), Err("no such table"));
    assert_eq!(state.active().unwrap().session.id, id);

    // A later stop closes the session at its own instant.
    let closing = seal(state.active_mut().unwrap(), s(9.0));
    let stopped = finish_stop::<()>(&mut state, closing, Ok(())).unwrap();
    assert_eq!(stopped.end_time, Some(s(9.0)));
}

#[test]
fn carried_weapons_attribute_shots_without_the_hotbar_and_heals_stay_uncosted() {
    let carried = vec![carried(1, "Pistol", 10.0), carried(2, "Cannon", 40.0)];
    let mut state = started(StartConfig { carried, ..config() });
    let held: Option<HeldItem> = None;
    let costs = [("Pistol", 0.05), ("Cannon", 0.2)];
    let active = state.active_mut().unwrap();

    // Only the pistol's band (5-10) explains 7.
    fire(active, hit(7.0), 1.0, &costs);
    // Nothing explains 0.5 or 90: recorded, never priced.
    fire(active, hit(0.5), 1.0, &costs);
    fire(active, hit(90.0), 1.0, &costs);
    // A critical 25 fits the pistol's critical reach (up to 30) and the
    // cannon's regular band (20-40): two sources, so no guess.
    fire(active, CombatEvent::CriticalHit { amount: u(25.0) }, 2.0, &costs);
    // Only the cannon explains 35; a countered shot inherits it.
    fire(active, hit(35.0), 1.0, &costs);
    fire(active, CombatEvent::TargetJam, 2.0, &costs);

    let stats: Vec<(&str, i64, i64)> = active
        .accumulator
        .tool_stats
        .iter()
        .map(|(key, stats)| (key.as_str(), stats.shots_fired, stats.cost_per_shot.0))
        .collect();
    assert_eq!(
        stats,
        vec![("Pistol", 1, u(0.05)), ("Unknown", 3, 0), ("Cannon", 2, u(0.2))]
    );
    assert!(active.warnings.is_empty(), "unpriced shots are disclosed, not warned");
    assert!(
        active.attribution.mismatch().is_none(),
        "nothing declared, nothing to disagree with"
    );
    assert_eq!(active.attribution.recording(), Some("Cannon"));
    assert!(can_read(active));
    let read = aggregate(active, s(3.0));
    assert_eq!(read.unpriced_shots, 3);
    assert!(read.weapon_mismatch.is_none());

    // Healing never bills from damage-range inference.
    let heal = CombatEvent::SelfHeal { amount: u(15.0) };
    absorb_combat(active, heal, s(3.0), pricing(0.0));
    assert_eq!(active.heal_cost, 0);
    assert_eq!(active.healing.activation_count, 0);
    assert_eq!(
        current_tool(&state, &held),
        Some(("Cannon".to_string(), HotbarItemKind::Weapon))
    );
}

#[test]
fn a_carried_weapon_prices_from_its_stored_props_before_the_library_lookup() {
    let carried = vec![carried(1, "Pistol", 10.0), carried(2, "Cannon", 40.0)];
    let mut state = started(StartConfig { carried, ..config() });
    let costs = [("Pistol", 0.05), ("Cannon", 0.2)];
    let active = state.active_mut().unwrap();
    fire(active, hit(7.0), 1.0, &costs);
    fire(active, hit(35.0), 1.0, &costs);
    fire(active, CombatEvent::TargetJam, 2.0, &costs);
    let stats: Vec<(&str, i64, i64)> = active
        .accumulator
        .tool_stats
        .iter()
        .map(|(key, stats)| (key.as_str(), stats.cost_per_shot.0, stats.shots_fired))
        .collect();
    assert_eq!(stats, vec![("Pistol", u(0.05), 1), ("Cannon", u(0.2), 2)]);
}

#[test]
fn reload_config_transitions_manual_mob_and_heal_state() {
    let mut state = started(StartConfig {
        manual_mob: Some(("Atrox".to_string(), "Young".to_string())),
        ..config()
    });
    let mut held: Option<HeldItem> = None;
    on_heal_tool_changed(&state, &mut held, "FAP");
    let active = state.active_mut().unwrap();
    assert_eq!(active.stamped_mob_name(), Some("Young Atrox"));

    // The configuration switching mobs re-stamps; switching to none clears the
    // stamp.
    let switched = DeclaredMob::from_parts("Feffoid".to_string(), String::new());
    reload_config(active, Vec::new(), Some(switched));
    assert_eq!(active.stamped_mob_name(), Some("Feffoid"));
    reload_config(active, Vec::new(), None);
    assert_eq!(active.stamped_mob_name(), None);
    assert!(active.declared_mob.is_none());
}

#[test]
fn defensive_evidence_failure_surfaces_accounting_degradation() {
    let mut state = started(StartConfig {
        resolved: Some(ResolvedDefinition {
            id: 1,
            name: "Default Tracking".to_string(),
            track_protection_costs: true,
        }),
        ..config()
    });
    let active = state.active_mut().unwrap();
    assert!(absorb_combat(active, CombatEvent::Deflect, s(1.0), pricing(0.0)).defence.is_some());
    assert!(!active.dirty, "a deflection is no change of the readout");
    note_defence_failure(active);
    assert_eq!(
        active.warnings,
        vec!["Protection accounting degraded: defensive evidence could not be saved"]
    );
    assert!(take_dirty(active), "the warning invalidates the live readout");

    // Said once, however often it fails.
    note_defence_failure(active);
    assert_eq!(active.warnings.len(), 1);
}

#[test]
fn the_blacklist_provider_refreshes_at_session_start() {
    let mut state = started(config());
    let active = state.active_mut().unwrap();
    let group = LootGroup {
        source_id: None,
        items: vec![item("Mud", 1, 1.0, false), item("Hide", 1, 2.0, false)],
        total_ped: u(3.0),
    };
    settle_loot(active, &group, &vec![false, true], s(2.0), None);
    assert_eq!(active.session.kills[0].loot_total_ped, w(2.0), "the blacklist drops Mud");
    assert_eq!(active.session.kills[0].loot_items.len(), 1);
}

#[test]
fn a_selected_definition_stamps_the_session_row_at_start() {
    let opening = prepare_session(
        StartConfig {
            session_name: "ARIS Dailies".to_string(),
            resolved: Some(ResolvedDefinition {
                id: 7,
                name: "ARIS Dailies".to_string(),
                track_protection_costs: true,
            }),
            ..config()
        },
        0,
    );
    assert_eq!(opening.facets.definition_id, Some(7));
    let mut state = SessionState::Idle;
    start(&mut state, opening);

    // The stamped reference rides the live readout for the session's life.
    let active = state.active().unwrap();
    assert!(can_read(active));
    let view = show(aggregate(active, s(1.0)), 0, None, Vec::new());
    assert_eq!(view.definition_id, Some(7));
    assert_eq!(view.session_name.as_deref(), Some("ARIS Dailies"));
}

#[test]
fn hits_carry_their_context_and_no_declared_protection() {
    let mut state = started(StartConfig {
        resolved: Some(ResolvedDefinition {
            id: 7,
            name: "Authored by segment".to_string(),
            track_protection_costs: true,
        }),
        ..config()
    });
    let active = state.active_mut().unwrap();
    assert!(active.intervals.plan_close_session().is_empty(), "no protection interval opens");
    let stored = absorb_combat(active, CombatEvent::Deflect, s(1.0), pricing(0.0)).defence.unwrap();
    assert_eq!(stored.session_id, active.session.id);
    assert_eq!(stored.context_id, Some(1));
    assert!(stored.deflected);
}

#[test]
fn a_kill_persists_immutable_efficiency_and_session_looter_evidence() {
    let looters = HuntingLooterLevels { animal: 30, mutant: 60, robot: 90 };
    let mut state = started(StartConfig { looters, ..config() });
    let mut held: Option<HeldItem> = None;
    on_weapon_press(&mut state, &mut held, "MyGun", 0);
    let active = state.active_mut().unwrap();
    let expected = OffensiveLoadoutEvidence {
        components: vec![OffensiveComponentEvidence {
            kind: OffensiveComponentKind::Weapon,
            catalog_id: Some("weapon-42".to_string()),
            name: "MyGun".to_string(),
            efficiency_pct: Some(u(84.5)),
            raw_tt_per_use: w(0.02),
            consumed_premium_per_use: 0,
        }],
        looters: active.hunting_looters,
        looter_source: LooterSource::ThreeLooterMean,
    };
    let priced = ShotPricing { price: Ped(u(0.02)), expected: Some(expected), library: Ped(0) };
    absorb_combat(active, hit(9.0), s(1.0), priced);
    let empty = LootGroup { source_id: None, items: Vec::new(), total_ped: 0 };
    settle_loot(active, &empty, &Vec::new(), s(2.0), None);

    let stored = active.session.kills[0].tool_stats[0].1.expected_economics.as_ref().unwrap();
    assert_eq!(stored.looters, looters);
    assert_eq!(stored.components.len(), 1);
    assert_eq!(stored.components[0].catalog_id.as_deref(), Some("weapon-42"));
    assert_eq!(stored.components[0].efficiency_pct, Some(u(84.5)));
    assert_eq!(stored.components[0].raw_tt_per_use, w(0.02));

    // What the estimate is made from is the same evidence.
    assert!(can_read(active));
    let read = aggregate(active, s(3.0));
    assert_eq!(read.expected.components.len(), 1);
    assert_eq!(read.expected.components[0].efficiency_pct, Some(u(84.5)));
}
