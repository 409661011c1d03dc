use hunt_tracker::aggregate::{aggregate, can_read, current_tool, SessionAggregate};
use hunt_tracker::combat::{
    absorb_combat, on_heal_tool_changed, on_weapon_press, take_in_hand, CombatEvent, ShotPricing,
};
use hunt_tracker::healing::{HealingIntent, HealingState};
use hunt_tracker::lifecycle::{
    activate, enhancer_rebate, finish_stop, orphan_end, prepare_session, seal, take_dirty,
    StartConfig,
};
use hunt_tracker::loot::{
    correlate_global, reconcile_loot, settle_loot, GlobalKind, HarvestRestamps, HarvestSwing,
    LootGroup, ReconciledLootSource, RoutedLoot,
};
use hunt_tracker::harvest::{
    GuardrailMismatch, GuardrailTool, HarvestGuardrailTools, HarvestYieldSource, HarvestYieldTier,
    TreeSize,
};
use hunt_tracker::phases::{
    HuntingLooterLevels, OffensiveComponentEvidence, OffensiveComponentKind,
    OffensiveLoadoutEvidence, LooterSource, ToolStats,
};
use hunt_tracker::records::LootItem;
use hunt_tracker::session::{
    ActiveSession, HeldItem, HotbarItemKind, ResolvedDefinition, SessionState,
};
use hunt_tracker::snapshot::{show, ActiveSessionView, NotableRow};
use hunt_tracker::units::Ped;

/// A printed figure in units.
fn u(value: f64) -> i64 {
    (value * 1e12).round() as i64
}

/// A sum in units.
fn w(value: f64) -> i128 {
    (value * 1e12).round() as i128
}

/// Seconds as an instant.
fn s(seconds: f64) -> i64 {
    (seconds * 1e9).round() as i64
}

fn pricing(price: f64) -> ShotPricing {
    ShotPricing { price: Ped(u(price)), expected: None, library: Ped(0) }
}

fn started() -> SessionState {
    let opening = prepare_session(
        StartConfig {
            session_name: String::new(),
            resolved: Some(ResolvedDefinition {
                id: 1,
                name: "Default Tracking".to_string(),
                track_protection_costs: true,
            }),
            declared_boost: None,
            looters: HuntingLooterLevels { animal: 0, mutant: 0, robot: 0 },
            carried: Vec::new(),
            manual_mob: None,
        },
        0,
    );
    let mut state = SessionState::Idle;
    activate(&mut state, opening.session, opening.facets, opening.outfit);
    state
}

fn item(name: &str, quantity: i64, value: f64) -> LootItem {
    LootItem {
        item_name: name.to_string(),
        quantity,
        value_ped: u(value),
        is_enhancer_shrapnel: false,
    }
}

fn group(items: Vec<LootItem>, total: f64) -> LootGroup {
    LootGroup { source_id: None, items, total_ped: u(total) }
}

fn loot(active: &mut ActiveSession, at: f64, name: &str, value: f64) -> RoutedLoot {
    settle_loot(active, &group(vec![item(name, 1, value)], value), &vec![true], s(at), None)
}

fn read(active: &ActiveSession, now: f64) -> SessionAggregate {
    assert!(can_read(active));
    aggregate(active, s(now))
}

fn shown(active: &ActiveSession, now: f64, skill_tt: f64) -> ActiveSessionView {
    show(read(active, now), w(skill_tt), None, Vec::new())
}

#[test]
fn snapshot_aggregates_and_rounds_the_readout() {
    let mut held: Option<HeldItem> = None;
    assert_eq!(current_tool(&SessionState::Idle, &held), None);

    let mut state = started();
    on_weapon_press(&mut state, &mut held, "Rifle", 0);
    on_heal_tool_changed(&state, &mut held, "FAP");
    let active = state.active_mut().unwrap();
    absorb_combat(active, CombatEvent::DamageDealt { amount: u(30.0) }, s(1.0), pricing(0.05));
    absorb_combat(active, CombatEvent::CriticalHit { amount: u(10.0) }, s(1.0), pricing(0.05));
    absorb_combat(active, CombatEvent::TargetDodge, s(1.0), pricing(0.05));
    loot(active, 2.0, "Animal Hide", 5.0);
    absorb_combat(active, CombatEvent::DamageDealt { amount: u(20.0) }, s(3.0), pricing(0.05));
    loot(active, 4.0, "Mud", 0.03);
    // In-flight damage after the latest kill.
    absorb_combat(active, CombatEvent::DamageDealt { amount: u(7.5) }, s(5.0), pricing(0.05));
    // Two counted heals.
    active.heal_cost = w(0.04);
    // A global correlated to the latest kill.
    let notable =
        correlate_global(active, GlobalKind::GlobalKill, "hero", "Hero", "Atrox", u(12.0), s(5.0))
            .unwrap();
    assert_eq!(notable.kind.as_str(), "global_kill");
    assert_eq!(notable.mob_or_item, "Atrox");
    assert_eq!(notable.value_ped, u(12.0));
    assert_eq!(notable.timestamp, s(5.0));
    let session_id = active.session.id.clone();

    assert_eq!(
        current_tool(&state, &held),
        Some(("FAP".to_string(), HotbarItemKind::Healing))
    );
    let active = state.active_mut().unwrap();
    let row = NotableRow {
        event_type: notable.kind.as_str().to_string(),
        mob_or_item: notable.mob_or_item,
        value_ped: notable.value_ped,
        timestamp: Some(notable.timestamp),
    };
    let view = show(read(active, 60.0), w(1.25), None, vec![row]);
    assert_eq!(view.session_id, session_id);
    assert_eq!(view.started_at, 0);
    assert_eq!(view.kill_count, 2);
    assert_eq!(view.elapsed, 60);
    assert_eq!(view.cost, w(0.29));
    assert_eq!(view.returned, w(5.03));
    assert_eq!(view.pes, w(1.25));
    assert_eq!(view.net, w(4.74));
    assert_eq!(view.return_rate, w(17.3448));
    assert_eq!(view.damage_dealt_total, w(60.0));
    assert_eq!(view.weapon_damage_dealt, w(67.5));
    assert_eq!(view.weapon_cost, w(0.25));
    assert_eq!(view.shots_fired_total, 4);
    assert_eq!(view.critical_hits_total, 1);
    assert_eq!(view.max_damage, w(40.0));
    assert_eq!(view.globals_count, 1);
    assert_eq!(view.hofs_count, 0);
    assert_eq!(view.latest_kill_loot, Some(w(0.03)));
    assert_eq!(view.multiplier_last, Some(w(0.6)));
    assert_eq!(view.multiplier_avg, Some(w(16.9667)));
    assert_eq!(view.multiplier_max, Some(w(33.3333)));
    assert_eq!(view.multiplier_history, vec![w(33.3333), w(0.6)]);
    assert_eq!(view.cumulative_net_history, vec![w(4.82), w(4.79)]);
    assert_eq!(view.current_mob, None);
    assert_eq!(view.session_name.as_deref(), Some("Default Tracking"));
    assert_eq!(view.skill_boost_percent, None);
    assert_eq!(view.notable_event_rows.len(), 1);
    assert_eq!(view.notable_event_rows[0].event_type, "global_kill");
    assert!(view.warnings.is_empty());

    // The session heal cost is stored on stop.
    let closing = seal(state.active_mut().unwrap(), s(61.0));
    assert_eq!(closing.heal_cost, w(0.04));
    assert_eq!(closing.session.dangling_cost, w(0.05));
}

#[test]
fn snapshot_prices_enhancer_cost_and_skips_costless_multipliers() {
    let mut state = started();
    let active = state.active_mut().unwrap();
    loot(active, 2.0, "Hide", 2.0);
    let view = shown(active, 3.0, 0.0);
    // A costless kill: no rate, no multipliers.
    assert_eq!(view.cost, 0);
    assert_eq!(view.return_rate, 0);
    assert_eq!(view.multiplier_last, None);
    assert_eq!(view.multiplier_avg, None);
    assert_eq!(view.multiplier_max, None);
    assert!(view.multiplier_history.is_empty());

    // Enhancer cost flows from the accumulator into the kill and the live
    // readout arithmetic.
    active.accumulator.enhancer_cost = w(0.25);
    loot(active, 5.0, "Mud", 1.0);
    active.accumulator.enhancer_cost = w(0.5);
    let view = shown(active, 6.0, 0.0);
    assert_eq!(view.cost, w(0.75));
    assert_eq!(view.returned, w(3.0));
    assert_eq!(view.net, w(2.25));
    assert_eq!(view.return_rate, w(4.0));
    assert_eq!(view.cumulative_net_history, vec![w(2.0), w(2.75)]);

    // The unresolved enhancer cost is the dangling remainder.
    let closing = seal(active, s(7.0));
    let stopped = finish_stop::<()>(&mut state, closing, Ok(())).unwrap();
    assert_eq!(stopped.dangling_cost, w(0.5));
    assert_eq!(stopped.end_time, Some(s(7.0)));
    assert!(!state.is_active());
}

#[test]
fn a_failed_stop_leaves_the_session_live() {
    let mut state = started();
    let closing = seal(state.active_mut().unwrap(), s(7.0));
    let refused = finish_stop::<&str>(&mut state, closing, Err("disk full"));
    assert_eq!(refused, Err("disk full"));
    assert!(state.is_active());
}

#[test]
fn the_cumulative_net_history_includes_harvest_swings() {
    let mut state = started();
    let active = state.active_mut().unwrap();
    for (at, value) in [(2.0, 0.1), (5.0, 0.06)] {
        let swing = HarvestSwing {
            tool_name: Some("Terratech PH-1 (L)".to_string()),
            cost: w(0.02),
            guardrail: None,
            mismatch: None,
            inferred_tier: HarvestYieldTier::Unknown,
            inferred_source: None,
        };
        let boards = group(vec![item("Short Moonleaf Board", 1, value)], value);
        let routed = settle_loot(active, &boards, &vec![true], s(at), Some(swing));
        let expected = HarvestRestamps { tool: None, tier: Some(HarvestYieldTier::Short) };
        assert_eq!(routed, RoutedLoot::Harvest(expected));
    }
    let read = read(active, 6.0);
    // Two swings: +0.08, then +0.04; the curve's endpoint reconciles with the
    // displayed net.
    assert_eq!(read.cumulative_net, vec![w(0.08), w(0.12)]);
    assert_eq!(read.returned - read.cost, w(0.12));
    assert_eq!(read.harvest_swings, 2);
    assert_eq!(read.harvest_successes, 2);
}

#[test]
fn the_curve_interleaves_kills_and_swings_in_time_order() {
    let mut state = started();
    let active = state.active_mut().unwrap();
    loot(active, 9.0, "Hide", 1.0);
    let swing = HarvestSwing {
        tool_name: None,
        cost: 0,
        guardrail: None,
        mismatch: None,
        inferred_tier: HarvestYieldTier::Unknown,
        inferred_source: None,
    };
    let boards = group(vec![item("Short Moonleaf Board", 1, 0.5)], 0.5);
    settle_loot(active, &boards, &vec![true], s(4.0), Some(swing));
    assert_eq!(read(active, 10.0).cumulative_net, vec![w(0.5), w(1.5)]);
}

#[test]
fn a_history_shows_its_last_points() {
    let mut state = started();
    let active = state.active_mut().unwrap();
    active.attribution.declare("Rifle", 0);
    for shot in 0..130 {
        let at = shot as f64 * 10.0;
        absorb_combat(active, CombatEvent::DamageDealt { amount: u(5.0) }, s(at), pricing(1.0));
        loot(active, at + 1.0, "Hide", 2.0);
    }
    let read = read(active, 2000.0);
    assert_eq!(read.cumulative_net.len(), 120);
    assert_eq!(read.multipliers.history.len(), 120);
    assert_eq!(read.cumulative_net[119], w(130.0));
    assert_eq!(read.cumulative_net[0], w(11.0));
    assert_eq!(read.multipliers.avg.unwrap().to_four_places(), w(2.0));
}

#[test]
fn a_rate_is_rounded_once_from_the_unrounded_figures() {
    let mut state = started();
    let active = state.active_mut().unwrap();
    active.attribution.declare("Rifle", 0);
    let price = ShotPricing { price: Ped(1_999_800_019_997), expected: None, library: Ped(0) };
    absorb_combat(active, CombatEvent::DamageDealt { amount: u(5.0) }, s(1.0), price);
    loot(active, 2.0, "Hide", 1.0);
    let view = shown(active, 3.0, 0.0);
    // 1 over 1.999800019997 is 0.50005000000025: above the tie.
    assert_eq!(view.return_rate, w(0.5001));
    assert_eq!(view.multiplier_last, Some(w(0.5001)));
    assert_eq!(view.multiplier_max, Some(w(0.5001)));
    assert_eq!(view.multiplier_avg, Some(w(0.5001)));
    assert_eq!(view.multiplier_history, vec![w(0.5001)]);
    assert_eq!(view.net, w(-1.0));
}

#[test]
fn the_largest_multiplier_is_compared_exactly() {
    let mut state = started();
    let active = state.active_mut().unwrap();
    active.attribution.declare("Rifle", 0);
    for (at, price, value) in [(1.0, 3.0, 1.0), (10.0, 2.0, 1.0), (20.0, 4.0, 1.0)] {
        let hit = CombatEvent::DamageDealt { amount: u(5.0) };
        absorb_combat(active, hit, s(at), pricing(price));
        loot(active, at + 1.0, "Hide", value);
    }
    let view = shown(active, 30.0, 0.0);
    assert_eq!(view.multiplier_max, Some(w(0.5)));
    assert_eq!(view.multiplier_last, Some(w(0.25)));
    assert_eq!(view.multiplier_avg, Some(w(0.3611)));
    assert_eq!(view.multiplier_history, vec![w(0.3333), w(0.5), w(0.25)]);
}

#[test]
fn the_heal_cost_is_shared_exactly_and_the_curve_ends_at_the_net() {
    let mut state = started();
    let active = state.active_mut().unwrap();
    active.attribution.declare("Rifle", 0);
    for at in [1.0, 10.0, 20.0] {
        let hit = CombatEvent::DamageDealt { amount: u(5.0) };
        absorb_combat(active, hit, s(at), pricing(1.0));
        loot(active, at + 1.0, "Hide", 2.0);
    }
    // A third of 0.1 each: 0.9667, 1.9333, 2.9.
    active.heal_cost = w(0.1);
    let view = shown(active, 30.0, 0.0);
    assert_eq!(view.cumulative_net_history, vec![w(0.97), w(1.93), w(2.9)]);
    assert_eq!(view.net, w(2.9));
}

fn phases(stats: &[(String, ToolStats)]) -> Vec<(String, i64, i128, i64, i64)> {
    stats
        .iter()
        .map(|(key, stats)| {
            (
                key.clone(),
                stats.shots_fired,
                stats.damage_dealt,
                stats.critical_hits,
                stats.cost_per_shot.0,
            )
        })
        .collect()
}

#[test]
fn shots_before_the_first_press_are_never_repriced_by_it() {
    let mut state = started();
    let mut held = None;
    let active = state.active_mut().unwrap();
    // No weapon is carried or declared yet: these shots stay unpriced.
    absorb_combat(active, CombatEvent::DamageDealt { amount: u(9.0) }, s(0.5), pricing(0.0));
    absorb_combat(active, CombatEvent::CriticalHit { amount: u(4.0) }, s(1.0), pricing(0.0));
    // The press starts a regime; it may not reach back.
    on_weapon_press(&mut state, &mut held, "Pistol", s(1.5));
    let active = state.active_mut().unwrap();
    absorb_combat(active, CombatEvent::DamageDealt { amount: u(6.0) }, s(2.0), pricing(0.02));
    let empty = group(Vec::new(), 0.0);
    settle_loot(active, &empty, &Vec::new(), s(3.0), None);
    assert_eq!(
        phases(&active.session.kills[0].tool_stats),
        vec![
            ("Unknown".to_string(), 2, w(13.0), 1, 0),
            ("Pistol".to_string(), 1, w(6.0), 0, u(0.02)),
        ]
    );
}

fn loadout(name: &str) -> OffensiveLoadoutEvidence {
    OffensiveLoadoutEvidence {
        components: vec![OffensiveComponentEvidence {
            kind: OffensiveComponentKind::Weapon,
            catalog_id: Some("weapon-42".to_string()),
            name: name.to_string(),
            efficiency_pct: Some(u(84.5)),
            raw_tt_per_use: w(0.02),
            consumed_premium_per_use: 0,
        }],
        looters: HuntingLooterLevels { animal: 60, mutant: 60, robot: 60 },
        looter_source: LooterSource::ThreeLooterMean,
    }
}

#[test]
fn a_shot_before_the_first_press_stays_unpriced_and_outside_expected_evidence() {
    let mut state = started();
    let mut held = None;
    let active = state.active_mut().unwrap();
    absorb_combat(active, CombatEvent::DamageDealt { amount: u(9.0) }, s(1.0), pricing(0.0));
    on_weapon_press(&mut state, &mut held, "MyGun", s(1.5));
    let active = state.active_mut().unwrap();
    let priced = ShotPricing {
        price: Ped(u(0.02)),
        expected: Some(loadout("MyGun")),
        library: Ped(0),
    };
    absorb_combat(active, CombatEvent::DamageDealt { amount: u(6.0) }, s(2.0), priced);

    // The unpriced shot books no raw spend; it is disclosed on its own.
    let read = read(active, 3.0);
    assert_eq!(read.expected.components.len(), 1);
    assert_eq!(read.expected.components[0].name, "MyGun");
    assert_eq!(read.expected.components[0].raw_tt_per_use, w(0.02));
    assert_eq!(read.unpriced_shots, 1);
    let phases = &active.accumulator.tool_stats;
    assert_eq!(phases.len(), 2);
    assert_eq!(phases[0].1.tool_name, "Unknown");
    assert_eq!(phases[0].1.shots_fired, 1);
    assert_eq!(phases[0].1.cost_per_shot, Ped(0));
    assert!(phases[0].1.expected_economics.is_none());
    assert_eq!(phases[1].1.tool_name, "MyGun");
    assert_eq!(phases[1].1.shots_fired, 1);
    assert!(phases[1].1.expected_economics.is_some());
}

#[test]
fn an_unresolved_offensive_phase_narrows_live_expected_return_coverage() {
    let mut state = started();
    let mut held = None;
    let known = ShotPricing {
        price: Ped(u(0.02)),
        expected: Some(loadout("KnownGun")),
        library: Ped(0),
    };
    on_weapon_press(&mut state, &mut held, "KnownGun", s(0.5));
    let active = state.active_mut().unwrap();
    absorb_combat(active, CombatEvent::DamageDealt { amount: u(9.0) }, s(1.0), known);
    on_weapon_press(&mut state, &mut held, "UnresolvedGun", s(1.5));
    let active = state.active_mut().unwrap();
    absorb_combat(active, CombatEvent::DamageDealt { amount: u(9.0) }, s(4.0), pricing(0.02));
    let read = read(active, 5.0);
    let components = &read.expected.components;
    assert_eq!(components.len(), 2);
    assert_eq!(components[0].efficiency_pct, Some(u(84.5)));
    // A priced phase without evidence is half of the spend, at an unknown
    // efficiency.
    assert_eq!(components[1].name, "UnresolvedGun");
    assert_eq!(components[1].efficiency_pct, None);
    assert_eq!(components[1].raw_tt_per_use, components[0].raw_tt_per_use);
}

#[test]
fn a_costless_declared_tool_keys_its_own_entry_and_leaves_earlier_shots_unpriced() {
    let mut state = started();
    let mut held = None;
    let active = state.active_mut().unwrap();
    absorb_combat(active, CombatEvent::DamageDealt { amount: u(9.0) }, s(1.0), pricing(0.0));
    on_weapon_press(&mut state, &mut held, "Stick", s(1.5));
    let active = state.active_mut().unwrap();
    absorb_combat(active, CombatEvent::DamageDealt { amount: u(6.0) }, s(2.0), pricing(0.0));
    settle_loot(active, &group(Vec::new(), 0.0), &Vec::new(), s(3.0), None);
    let rows: Vec<(String, i64, i128)> = active.session.kills[0]
        .tool_stats
        .iter()
        .map(|(_, stats)| (stats.tool_name.clone(), stats.shots_fired, stats.damage_dealt))
        .collect();
    assert_eq!(
        rows,
        vec![("Unknown".to_string(), 1, w(9.0)), ("Stick".to_string(), 1, w(6.0))]
    );
}

#[test]
fn a_carried_weapon_priced_at_zero_falls_back_to_the_library_cost() {
    let mut state = started();
    let mut held = None;
    on_weapon_press(&mut state, &mut held, "Pistol", 0);
    let active = state.active_mut().unwrap();
    let free = ShotPricing { price: Ped(0), expected: None, library: Ped(u(0.3)) };
    absorb_combat(active, CombatEvent::DamageDealt { amount: u(7.0) }, s(1.0), free);
    let (key, stats) = &active.accumulator.tool_stats[0];
    assert_eq!(key, "Pistol");
    assert_eq!(stats.cost_per_shot, Ped(u(0.3)));
}

#[test]
fn an_unpriced_shot_never_borrows_a_library_cost() {
    let mut state = started();
    let active = state.active_mut().unwrap();
    let library = || ShotPricing { price: Ped(0), expected: None, library: Ped(u(0.7)) };
    absorb_combat(active, CombatEvent::DamageDealt { amount: u(9.0) }, s(1.0), library());
    absorb_combat(active, CombatEvent::DamageDealt { amount: u(6.0) }, s(1.5), library());
    let routed = settle_loot(active, &group(Vec::new(), 0.0), &Vec::new(), s(2.0), None);
    let kill = &active.session.kills[0];
    assert_eq!(kill.cost_ped, 0);
    assert_eq!(kill.tool_stats[0].0, "Unknown");
    assert_eq!(kill.tool_stats[0].1.cost_per_shot, Ped(0));
    // Each unpriced shot is kept, settled into its kill.
    match routed {
        RoutedLoot::Kill(evidence) => {
            assert_eq!(evidence.len(), 2);
            assert!(evidence.iter().all(|row| row.tool_name.is_none()));
        }
        _ => panic!("a kill"),
    }
}

#[test]
fn loot_creates_and_persists_kills_with_filtering() {
    let mut state = started();
    let mut held = None;
    on_weapon_press(&mut state, &mut held, "Rifle", 0);
    let active = state.active_mut().unwrap();
    absorb_combat(active, CombatEvent::DamageDealt { amount: u(30.0) }, s(1.0), pricing(0.05));
    absorb_combat(active, CombatEvent::CriticalHit { amount: u(10.0) }, s(1.0), pricing(0.05));
    absorb_combat(active, CombatEvent::TargetDodge, s(1.0), pricing(0.05));
    absorb_combat(active, CombatEvent::DamageReceived { amount: u(5.0) }, s(1.0), pricing(0.0));
    let mut shrapnel = item("Shrapnel", 10, 0.1);
    shrapnel.is_enhancer_shrapnel = true;
    let items = vec![item("Animal Hide", 1, 4.5), item("Universal Ammo", 20, 0.2), shrapnel];
    settle_loot(active, &group(items, 4.8), &vec![true, false, true], s(2.0), None);

    let kill = &active.session.kills[0];
    assert_eq!(kill.shots_fired, 3);
    assert_eq!(kill.damage_dealt, w(40.0));
    assert_eq!(kill.damage_taken, w(5.0));
    assert_eq!(kill.critical_hits, 1);
    assert_eq!(kill.cost_ped, w(0.15));
    // The filtered ammo never lands; the enhancer shrapnel lands as an item
    // but stays out of the loot total.
    assert_eq!(kill.loot_total_ped, w(4.5));
    assert_eq!(kill.loot_items.len(), 2);
    assert_eq!(kill.mob_name, "Unknown");
    assert_eq!(kill.mob_stamp_source, None);
    assert_eq!(kill.tool_stats[0].1.shots_fired, 3);
    assert_eq!(kill.timestamp, s(2.0));

    // The accumulator reset: an immediate second group carries no shots.
    loot(active, 4.0, "Mud", 0.03);
    assert_eq!(active.session.kills[1].shots_fired, 0);
}

#[test]
fn loot_dedup_inside_the_window_only() {
    let mut state = started();
    let active = state.active_mut().unwrap();
    loot(active, 2.0, "Animal Hide", 1.0);
    // Identical fingerprint inside the strict window: dropped.
    assert_eq!(loot(active, 3.0, "Animal Hide", 1.0), RoutedLoot::Duplicate);
    assert_eq!(active.session.kills.len(), 1);
    // Exactly the window: recorded (the comparison is strict).
    loot(active, 4.0, "Animal Hide", 1.0);
    assert_eq!(active.session.kills.len(), 2);
    // A different fingerprint inside the window: recorded.
    loot(active, 5.0, "Mud", 1.0);
    assert_eq!(active.session.kills.len(), 3);
}

#[test]
fn a_blacklisted_wood_group_still_routes_to_harvest_not_a_kill() {
    let mut state = started();
    let active = state.active_mut().unwrap();
    let swing = HarvestSwing {
        tool_name: None,
        cost: 0,
        guardrail: None,
        mismatch: None,
        inferred_tier: HarvestYieldTier::Unknown,
        inferred_source: None,
    };
    let items = vec![item("Short Moonleaf Board", 9, 0.09), item("Wood Shavings", 8, 0.008)];
    // Every item filtered: the swing still happened, only the recorded loot is
    // trimmed.
    settle_loot(active, &group(items, 0.098), &vec![false, false], s(2.0), Some(swing));
    assert_eq!(active.session.kills.len(), 0, "no phantom kill");
    assert_eq!(active.session.harvests.len(), 1);
    assert!(active.session.harvests[0].loot_items.is_empty());
    assert_eq!(active.session.harvests[0].loot_total_ped, 0);
    assert_eq!(active.session.harvests[0].yield_tier, HarvestYieldTier::Short);
    assert_eq!(
        active.session.harvests[0].yield_tier_source,
        Some(HarvestYieldSource::Board)
    );
}

/// A swing of the short-tree tool under a guardrail that intends it.
fn guarded_swing(
    board: &str,
    state: &mut SessionState,
    at: f64,
    mismatch: Option<GuardrailMismatch>,
) -> HarvestRestamps {
    let swing = HarvestSwing {
        tool_name: Some("Terratech PH-1 (L)".to_string()),
        cost: w(0.02),
        guardrail: Some(HarvestGuardrailTools {
            short: Some(GuardrailTool {
                name: "Terratech PH-1 (L)".to_string(),
                cost_per_use_ped: Ped(u(0.02)),
            }),
            long: None,
            huge: None,
        }),
        mismatch,
        inferred_tier: HarvestYieldTier::Huge,
        inferred_source: Some(HarvestYieldSource::Inferred),
    };
    let items = vec![item("Wood Shavings", 8, 0.008), item(board, 2, 0.02)];
    let wanted = vec![true, true];
    let active = state.active_mut().unwrap();
    match settle_loot(active, &group(items, 0.028), &wanted, s(at), Some(swing)) {
        RoutedLoot::Harvest(restamps) => restamps,
        routed => panic!("no swing: {routed:?}"),
    }
}

#[test]
fn board_evidence_restamps_only_under_a_standing_mismatch_it_speaks_about() {
    let mut state = started();
    // Agreeing evidence restamps no tool, and still classifies the yield.
    let restamps = guarded_swing("Short Moonleaf Board", &mut state, 2.0, None);
    assert_eq!(restamps, HarvestRestamps { tool: None, tier: Some(HarvestYieldTier::Short) });

    let standing = || {
        Some(GuardrailMismatch {
            expected_tool: "Terratech PH-1 (L)".to_string(),
            observed_tool: Some("Terratech PH-4 (L)".to_string()),
            tree_size: TreeSize::Short,
            at: s(2.0),
        })
    };
    let restamps = guarded_swing("Short Moonleaf Board", &mut state, 5.0, standing());
    assert_eq!(state.active().unwrap().guardrail_mismatch, standing());
    assert_eq!(restamps.tool, Some(("Terratech PH-1 (L)".to_string(), w(0.02))));
    // A class without a tool stays outside the guardrail's remit.
    let restamps = guarded_swing("Moonleaf Board", &mut state, 8.0, standing());
    assert_eq!(restamps, HarvestRestamps { tool: None, tier: Some(HarvestYieldTier::Long) });
    // No board: no evidence, and the yield is what was inferred.
    let restamps = guarded_swing("Sap", &mut state, 11.0, standing());
    assert_eq!(restamps, HarvestRestamps { tool: None, tier: None });
    let last = state.active().unwrap().session.harvests.last().unwrap();
    assert_eq!(last.yield_tier, HarvestYieldTier::Huge);
    assert_eq!(last.yield_tier_source, Some(HarvestYieldSource::Inferred));
}

#[test]
fn exact_loot_source_reclassification_updates_the_live_aggregate() {
    let mut state = started();
    let active = state.active_mut().unwrap();
    let clump = LootGroup {
        source_id: Some("quest-clump-1".to_string()),
        items: vec![item("Blazar Fragment", 238, 1.23), item("Animal Oil", 1, 0.77)],
        total_ped: u(2.0),
    };
    settle_loot(active, &clump, &vec![true, true], s(2.0), None);
    assert_eq!(shown(active, 3.0, 0.0).returned, w(2.0));

    let fewer = || ReconciledLootSource::Kill {
        total: w(0.77),
        items: vec![item("Animal Oil", 1, 0.77)],
    };
    assert!(reconcile_loot(active, "quest-clump-1", fewer()));
    assert_eq!(shown(active, 3.0, 0.0).returned, w(0.77));
    assert!(!reconcile_loot(active, "quest-clump-1", fewer()));
    let all = ReconciledLootSource::Kill {
        total: w(2.0),
        items: vec![item("Blazar Fragment", 238, 1.23), item("Animal Oil", 1, 0.77)],
    };
    assert!(reconcile_loot(active, "quest-clump-1", all));
    assert_eq!(shown(active, 3.0, 0.0).returned, w(2.0));
    assert!(!reconcile_loot(active, "another", fewer()));
}

#[test]
fn globals_correlate_within_the_window() {
    let mut state = started();
    let active = state.active_mut().unwrap();
    loot(active, 2.0, "Animal Hide", 1.0);
    // The wrong player never lands.
    assert_eq!(
        correlate_global(active, GlobalKind::GlobalKill, "Villain", "Hero", "Atrox", u(8.0), s(3.0)),
        None
    );
    // Case-insensitive match; a hall-of-fame kill inside the window tags the
    // kill.
    let hof =
        correlate_global(active, GlobalKind::HofKill, "HERO", "Hero", "Atrox", u(120.0), s(4.0))
            .unwrap();
    assert!(active.session.kills[0].is_global && active.session.kills[0].is_hof);
    assert_eq!(hof.kill_id.as_deref(), Some(active.session.kills[0].id.as_str()));
    // A stale global records the notable event with no kill correlation.
    loot(active, 10.0, "Animal Hide", 2.0);
    let stale = correlate_global(
        active,
        GlobalKind::GlobalKill,
        "Hero",
        "Hero",
        "Rare Thing",
        u(50.0),
        s(16.0),
    )
    .unwrap();
    assert_eq!(stale.kill_id, None);
    assert_eq!(active.session.kills.iter().filter(|kill| kill.is_global).count(), 1);
    // An empty configured player name disables correlation.
    assert_eq!(
        correlate_global(active, GlobalKind::GlobalKill, "", "", "Atrox", u(1.0), s(20.0)),
        None
    );
}

#[test]
fn a_global_at_the_exact_window_bound_is_not_correlated() {
    let mut state = started();
    let active = state.active_mut().unwrap();
    loot(active, 20.0, "Hide", 1.0);
    let notable =
        correlate_global(active, GlobalKind::GlobalKill, "Hero", "Hero", "Atrox", u(9.0), s(25.0))
            .unwrap();
    assert!(!active.session.kills[0].is_global, "the five-second window is strict");
    assert_eq!(notable.kill_id, None);
}

#[test]
fn a_weapon_press_leaves_the_shots_already_accumulated_alone() {
    let mut state = started();
    let mut held = None;
    let active = state.active_mut().unwrap();
    for shot in 0..5 {
        let at = s(shot as f64);
        absorb_combat(active, CombatEvent::DamageDealt { amount: u(2.4) }, at, pricing(0.0));
    }
    let before = phases(&active.accumulator.tool_stats);
    on_weapon_press(&mut state, &mut held, "Rifle", s(1001.0));
    let active = state.active().unwrap();
    assert_eq!(
        phases(&active.accumulator.tool_stats),
        before,
        "no evidence reaches back across the press"
    );
    assert_eq!(active.attribution.declared(), Some("Rifle"));
    // An empty name is no press at all.
    on_weapon_press(&mut state, &mut held, "", s(1002.0));
    assert_eq!(state.active().unwrap().attribution.declared(), Some("Rifle"));
}

#[test]
fn tool_change_emits_a_direct_overlay_nudge() {
    let mut state = started();
    let mut held = None;
    let session_id = state.active().unwrap().session.id.clone();
    assert_eq!(on_weapon_press(&mut state, &mut held, "Rifle", 0), Some(session_id.clone()));
    // The same weapon again changes nothing worth showing.
    assert_eq!(on_weapon_press(&mut state, &mut held, "Rifle", 1), None);
    assert_eq!(on_heal_tool_changed(&state, &mut held, "FAP"), Some(session_id));
    assert_eq!(on_heal_tool_changed(&state, &mut held, "FAP"), None);
    // Idle, the hand still moves.
    let mut idle = SessionState::Idle;
    assert_eq!(on_weapon_press(&mut idle, &mut held, "Rifle", 2), None);
    assert_eq!(held.as_ref().map(|item| item.name.as_str()), Some("Rifle"));
}

#[test]
fn the_snapshot_current_tool_follows_the_hand_between_weapon_healer_and_harvest() {
    let mut state = started();
    let mut held = None;
    let tool = |state: &SessionState, held: &Option<HeldItem>| current_tool(state, held).unwrap();
    on_weapon_press(&mut state, &mut held, "Rifle", 0);
    assert_eq!(tool(&state, &held), ("Rifle".to_string(), HotbarItemKind::Weapon));
    on_heal_tool_changed(&state, &mut held, "Restoration Chip 10");
    assert_eq!(
        tool(&state, &held),
        ("Restoration Chip 10".to_string(), HotbarItemKind::Healing)
    );
    take_in_hand(&mut held, "Terratech PH-3", HotbarItemKind::Harvesting);
    assert_eq!(
        tool(&state, &held),
        ("Terratech PH-3".to_string(), HotbarItemKind::Harvesting),
        "a harvest equip takes the displayed hand item"
    );
    on_weapon_press(&mut state, &mut held, "Rifle", 3);
    assert_eq!(
        tool(&state, &held),
        ("Rifle".to_string(), HotbarItemKind::Weapon),
        "a weapon equip takes the hand back"
    );
}

#[test]
fn a_weapon_equip_clears_the_harvest_hand() {
    let mut state = started();
    let mut held = None;
    take_in_hand(&mut held, "Terratech PH-1 (L)", HotbarItemKind::Harvesting);
    assert_eq!(held.as_ref().map(|item| item.kind), Some(HotbarItemKind::Harvesting));
    on_weapon_press(&mut state, &mut held, "Rifle", 0);
    assert_eq!(held.as_ref().map(|item| item.kind), Some(HotbarItemKind::Weapon));
}

#[test]
fn with_no_press_yet_the_weapon_being_recorded_is_in_hand() {
    let mut state = started();
    assert_eq!(current_tool(&state, &None), None);
    state.active_mut().unwrap().attribution.declare("Rifle", 0);
    assert_eq!(
        current_tool(&state, &None),
        Some(("Rifle".to_string(), HotbarItemKind::Weapon))
    );
}

#[test]
fn the_snapshot_carries_the_guardrail_mismatch_view() {
    let mut state = started();
    let active = state.active_mut().unwrap();
    active.guardrail_mismatch = Some(GuardrailMismatch {
        expected_tool: "Terratech PH-1 (L)".to_string(),
        observed_tool: Some("Terratech PH-4 (L)".to_string()),
        tree_size: TreeSize::Short,
        at: s(2.0),
    });
    let mismatch = shown(active, 3.0, 0.0).harvest_guardrail_mismatch.unwrap();
    assert_eq!(mismatch.expected_tool, "Terratech PH-1 (L)");
    assert_eq!(mismatch.observed_tool.as_deref(), Some("Terratech PH-4 (L)"));
    assert_eq!(mismatch.tree_size, TreeSize::Short);
    let plain = started();
    assert!(shown(plain.active().unwrap(), 3.0, 0.0).harvest_guardrail_mismatch.is_none());
}

#[test]
fn healing_reads_an_effect_before_a_reload_before_a_held_healer() {
    let mut state = started();
    let active = state.active_mut().unwrap();
    assert_eq!(read(active, 1.0).healing.state, HealingState::Passive);
    active.healing.intent = Some(HealingIntent {
        equipment_id: 7,
        tool_name: "FAP".to_string(),
        reload: s(2.5),
        base_reload: Some(s(2.5)),
        reload_speed_percent: None,
        effective_reload: None,
    });
    assert_eq!(read(active, 1.0).healing.state, HealingState::Ready);
    active.healing.activations = vec![(7, s(1.0)), (8, s(3.0))];
    let healing = read(active, 3.0).healing;
    assert_eq!(healing.state, HealingState::Cooldown);
    assert_eq!(healing.cooldown_until, Some(s(3.5) as i128));
    // At the bound the healer is ready again.
    assert_eq!(read(active, 3.5).healing.state, HealingState::Ready);
    active.healing.effect_expiries = vec![s(2.0), s(9.0), s(4.0)];
    let healing = read(active, 3.0).healing;
    assert_eq!(healing.state, HealingState::Effect);
    assert_eq!(healing.effect_until, Some(s(9.0)));
    assert_eq!(healing.tool_name.as_deref(), Some("FAP"));
}

#[test]
fn tick_flushed_coalesces_dirty_mutations() {
    let mut state = started();
    let active = state.active_mut().unwrap();
    assert!(!take_dirty(active), "a clean tick announces nothing");
    loot(active, 2.0, "Hide", 1.0);
    absorb_combat(active, CombatEvent::DamageDealt { amount: u(9.0) }, s(2.5), pricing(0.0));
    assert!(take_dirty(active), "one tick announces both");
    assert!(!take_dirty(active), "and only once");
}

#[test]
fn recovery_closes_crash_orphaned_sessions() {
    // At the latest kill or healing output.
    assert_eq!(orphan_end(Some(s(1600.0)), s(1000.0)), s(1600.0));
    assert_eq!(orphan_end(None, s(1000.0)), s(1000.0));
    // The enhancer-break value comes back as a rebate, to four decimals.
    assert_eq!(enhancer_rebate(w(0.5)), Some(w(0.5)));
    assert_eq!(enhancer_rebate(w(0.12345678)), Some(w(0.1235)));
    assert_eq!(enhancer_rebate(0), None);
    assert_eq!(enhancer_rebate(-1), None);
}

#[test]
fn recovery_zero_timestamp_kills_fall_back_to_the_start() {
    assert_eq!(orphan_end(Some(0), s(2000.0)), s(2000.0));
}

#[test]
fn an_armour_cost_opt_out_stamps_policy_and_records_no_defence_evidence() {
    let mut state = started();
    let active = state.active_mut().unwrap();
    let hit = CombatEvent::DamageReceived { amount: u(5.0) };
    let stored = absorb_combat(active, hit, s(1.0), pricing(0.0)).defence.unwrap();
    assert_eq!(stored.damage, Some(u(5.0)));
    assert!(!stored.deflected);
    let stored = absorb_combat(active, CombatEvent::Deflect, s(1.0), pricing(0.0)).defence.unwrap();
    assert!(stored.deflected);
    active.facets.track_protection_costs = false;
    assert_eq!(absorb_combat(active, hit, s(2.0), pricing(0.0)).defence, None);
    assert_eq!(active.accumulator.damage_taken, w(10.0));
}

#[test]
fn a_session_past_the_money_limit_cannot_be_read() {
    let mut state = started();
    let active = state.active_mut().unwrap();
    active.heal_cost = 10_000_000_000_000_000_000;
    assert!(can_read(active));
    active.heal_cost += 1;
    assert!(!can_read(active));
}
