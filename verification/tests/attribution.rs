use hunt_tracker::attribution::{
    damage_band_from_props, AgreeReason, Attribution, AttributionCounts, AttributionKind,
    CarriedWeapon, DamageBand, Observation, OffensiveEffectWindow, ShotLocation, ShotRecord,
    WeaponEffectMode, WeaponEffectProfile, WeaponProps,
};
use hunt_tracker::regime::AttributionRuntime;
use hunt_tracker::units::Ped;

/// A printed figure in units.
fn u(value: f64) -> i64 {
    (value * 1e12).round() as i64
}

/// Seconds as an instant.
fn s(seconds: f64) -> i64 {
    (seconds * 1e9).round() as i64
}

fn weapon(equipment_id: i64, name: &str, min: f64, max: f64) -> CarriedWeapon {
    CarriedWeapon {
        equipment_id,
        name: name.to_string(),
        band: Some(DamageBand { min: u(min), max: u(max) }),
        effect: None,
    }
}

/// Pistol 5-10, Cannon 20-40, and a Rifle 8-16 overlapping the pistol.
fn runtime() -> AttributionRuntime {
    let mut runtime = AttributionRuntime::default();
    runtime.set_carried(vec![
        weapon(1, "Pistol", 5.0, 10.0),
        weapon(2, "Cannon", 20.0, 40.0),
        weapon(3, "Rifle", 8.0, 16.0),
    ]);
    runtime
}

fn hit(amount: f64) -> Observation {
    Observation::Hit { amount: u(amount), critical: false }
}

fn crit(amount: f64) -> Observation {
    Observation::Hit { amount: u(amount), critical: true }
}

/// Classify, apply, and remember one observation.
fn observe(runtime: &mut AttributionRuntime, observation: Observation, at: f64) -> Attribution {
    let resolved = runtime.classify(observation, s(at));
    let seq = runtime.apply(&resolved, s(at));
    runtime.remember(ShotRecord {
        seq,
        observed_at: s(at),
        observation,
        attribution: resolved.attribution.clone(),
        fits: resolved.fits.clone(),
        windows: resolved.windows.clone(),
        location: ShotLocation::Pending,
        evidence_id: None,
        booked: resolved.attribution.priced_tool().map(str::to_string),
        cost: Ped(0),
        opened_window: None,
    });
    resolved.attribution
}

/// An effect window `owner` opened, ticking `tick_min`-`tick_max`.
fn window(
    id: &str,
    owner: &str,
    started_at: f64,
    expires_at: f64,
    tick_min: f64,
    tick_max: f64,
) -> OffensiveEffectWindow {
    OffensiveEffectWindow {
        id: id.to_string(),
        tool: owner.to_string(),
        equipment_id: None,
        started_at: s(started_at),
        expires_at: s(expires_at),
        tick: DamageBand { min: u(tick_min), max: u(tick_max) },
    }
}

fn tick_of(id: &str) -> Attribution {
    Attribution::EffectTick { window_id: Some(id.to_string()) }
}

/// The captured rotation's loadout: the primary chip (with its amplifier,
/// 95.7-191.4) and an Electrocution chip whose declared effect lands a 100-160
/// hit, then ticks 35-75 for 25 seconds.
fn rotation() -> AttributionRuntime {
    let effect = WeaponEffectProfile {
        mode: WeaponEffectMode::Compound,
        hit_min: Some(u(100.0)),
        hit_max: Some(u(160.0)),
        duration: s(25.0),
        tick_min: u(35.0),
        tick_max: u(75.0),
        tick_period: Some(s(1.2)),
    };
    let mut runtime = AttributionRuntime::default();
    runtime.set_carried(vec![
        weapon(1, "Mayhem", 95.7, 191.4),
        CarriedWeapon {
            equipment_id: 2,
            name: "Electrocution".to_string(),
            band: Some(effect.activation_band()),
            effect: Some(effect),
        },
    ]);
    runtime
}

fn agrees(tool: &str, reason: AgreeReason) -> Attribution {
    Attribution::Agrees { tool: tool.to_string(), reason }
}

fn evidence(tool: &str) -> Attribution {
    Attribution::Evidence { tool: tool.to_string(), confirmed: false }
}

#[test]
fn bands_admit_regular_hits_criticals_and_print_rounding() {
    let band = DamageBand { min: u(5.0), max: u(10.0) };
    assert!(band.fits(u(5.0), false));
    assert!(band.fits(u(10.0), false));
    assert!(band.fits(u(10.05), false), "half a printed step above");
    assert!(!band.fits(u(10.1), false));
    assert!(band.fits(u(4.95), false), "half a printed step below");
    assert!(!band.fits(u(4.9), false));
    assert!(!band.fits(u(30.0), false));
    assert!(band.fits(u(30.0), true), "a critical reaches three times");
    assert!(!band.fits(u(30.1), true));
    assert!(band.fits(u(6.0), true), "armour can absorb a critical's bonus");
    assert!(!band.fits(u(4.0), true));
    assert!(band.undershoots(u(4.9)));
    assert!(!band.undershoots(u(4.95)));
    assert!(!band.undershoots(u(12.0)));
}

#[test]
fn with_nothing_declared_one_fitting_weapon_is_evidence() {
    let mut runtime = runtime();
    assert_eq!(observe(&mut runtime, hit(30.0), 1.0), evidence("Cannon"));
    assert_eq!(runtime.recording(), Some("Cannon"));
    assert!(
        runtime.mismatch().is_none(),
        "nothing declared to disagree with"
    );
    // The pistol and the rifle both explain 9: no guess.
    assert_eq!(
        observe(&mut runtime, hit(9.0), 2.0),
        Attribution::Unresolved
    );
    // Above every band.
    assert_eq!(
        observe(&mut runtime, hit(50.0), 3.0),
        Attribution::Unresolved
    );
    // Below every band, with nothing declared to absorb it.
    assert_eq!(
        observe(&mut runtime, hit(2.0), 4.0),
        Attribution::Unresolved
    );
    // A countered shot inherits the weapon evidence last named.
    assert_eq!(
        observe(&mut runtime, Observation::Countered, 5.0),
        evidence("Cannon")
    );
    assert_eq!(
        runtime.counts(),
        AttributionCounts {
            agreed: 0,
            evidenced: 2,
            unresolved: 3,
            effect_ticks: 0,
        }
    );
}

#[test]
fn a_countered_shot_with_no_weapon_known_is_unresolved() {
    let mut runtime = runtime();
    assert_eq!(
        observe(&mut runtime, Observation::Countered, 1.0),
        Attribution::Unresolved
    );
}

#[test]
fn the_declared_weapon_wins_every_hit_its_band_explains() {
    let mut runtime = runtime();
    runtime.declare("Pistol", s(0.0));
    // 9 also fits the rifle: intent disambiguates.
    assert_eq!(
        observe(&mut runtime, hit(9.0), 1.0),
        agrees("Pistol", AgreeReason::Fits)
    );
    assert_eq!(
        observe(&mut runtime, crit(25.0), 2.0),
        agrees("Pistol", AgreeReason::Fits)
    );
    assert_eq!(
        observe(&mut runtime, Observation::Countered, 3.0),
        agrees("Pistol", AgreeReason::Countered)
    );
    assert!(runtime.mismatch().is_none());
    assert_eq!(runtime.recording(), Some("Pistol"));
}

#[test]
fn undershooting_the_declared_band_with_no_other_fit_agrees() {
    let mut runtime = AttributionRuntime::default();
    runtime.set_carried(vec![
        weapon(1, "Pistol", 5.0, 10.0),
        weapon(2, "Cannon", 20.0, 40.0),
    ]);
    runtime.declare("Cannon", s(0.0));
    assert_eq!(
        observe(&mut runtime, hit(15.0), 1.0),
        agrees("Cannon", AgreeReason::BelowBand),
        "above the pistol, short of the cannon: armour, not a switch"
    );
    assert_eq!(
        observe(&mut runtime, hit(2.0), 2.0),
        agrees("Cannon", AgreeReason::BelowBand),
        "short of every band: still the weapon in hand"
    );
    assert_eq!(
        observe(&mut runtime, hit(45.0), 3.0),
        Attribution::Unresolved
    );
}

#[test]
fn a_declared_weapon_without_a_band_is_never_contradicted() {
    let mut runtime = AttributionRuntime::default();
    runtime.set_carried(vec![
        CarriedWeapon {
            equipment_id: 9,
            name: "Mystery".to_string(),
            band: None,
            effect: None,
        },
        weapon(2, "Cannon", 20.0, 40.0),
    ]);
    runtime.declare("Mystery", s(0.0));
    assert_eq!(
        observe(&mut runtime, hit(30.0), 1.0),
        agrees("Mystery", AgreeReason::Unvalidated)
    );
    // A declared weapon outside the carried set is likewise unvalidated.
    runtime.declare("Borrowed", s(2.0));
    assert_eq!(
        observe(&mut runtime, hit(30.0), 3.0),
        agrees("Borrowed", AgreeReason::Unvalidated)
    );
}

#[test]
fn one_unambiguous_missed_switch_raises_a_mismatch_and_prices_the_evidence() {
    let mut runtime = runtime();
    runtime.declare("Pistol", s(0.0));
    assert_eq!(observe(&mut runtime, hit(30.0), 1.0), evidence("Cannon"));
    let mismatch = runtime.mismatch().unwrap().clone();
    assert_eq!(mismatch.declared, "Pistol");
    assert_eq!(mismatch.evidence, "Cannon");
    assert_eq!(mismatch.since, s(1.0));
    assert_eq!(mismatch.shots, 1);
    assert_eq!(runtime.recording(), Some("Cannon"));
    // Countered shots inherit what is being recorded.
    assert_eq!(
        observe(&mut runtime, Observation::Countered, 2.0),
        evidence("Cannon")
    );
    assert_eq!(observe(&mut runtime, hit(22.0), 3.0), evidence("Cannon"));
    assert_eq!(runtime.mismatch().unwrap().shots, 3);
    assert_eq!(runtime.mismatch().unwrap().since, s(1.0));
}

#[test]
fn several_other_fitting_weapons_stay_unresolved() {
    let mut runtime = AttributionRuntime::default();
    runtime.set_carried(vec![
        weapon(1, "Pistol", 5.0, 10.0),
        weapon(2, "Cannon", 20.0, 40.0),
        weapon(3, "Carbine", 25.0, 45.0),
    ]);
    runtime.declare("Pistol", s(0.0));
    assert_eq!(
        observe(&mut runtime, hit(30.0), 1.0),
        Attribution::Unresolved
    );
    assert!(
        runtime.mismatch().is_none(),
        "ambiguity never raises a switch"
    );
}

#[test]
fn a_hit_only_the_declared_weapon_explains_ends_the_mismatch() {
    let mut runtime = runtime();
    runtime.declare("Pistol", s(0.0));
    observe(&mut runtime, hit(30.0), 1.0);
    // 9 fits the pistol and the rifle, not the cannon: the pistol is in
    // hand after all.
    observe(&mut runtime, hit(9.0), 2.0);
    assert!(runtime.mismatch().is_none());
    // A hit both the declared and the evidence weapon explain does not.
    let mut runtime = AttributionRuntime::default();
    runtime.set_carried(vec![
        weapon(1, "Pistol", 5.0, 30.0),
        weapon(2, "Cannon", 20.0, 40.0),
    ]);
    runtime.declare("Pistol", s(0.0));
    observe(&mut runtime, hit(35.0), 1.0);
    observe(&mut runtime, hit(25.0), 2.0);
    assert!(runtime.mismatch().is_some());
}

#[test]
fn the_previous_weapons_shot_landing_after_a_switch_is_no_mismatch() {
    let mut runtime = runtime();
    runtime.declare("Cannon", s(0.0));
    runtime.declare("Pistol", s(10.0));
    assert_eq!(
        observe(&mut runtime, hit(30.0), 10.8),
        agrees("Cannon", AgreeReason::InFlight)
    );
    assert!(runtime.mismatch().is_none());
    // Past the tail it is evidence of a missed switch back.
    assert_eq!(observe(&mut runtime, hit(30.0), 11.5), evidence("Cannon"));
    assert!(runtime.mismatch().is_some());
    // Re-pressing the same weapon keeps no previous weapon.
    runtime.declare("Pistol", s(20.0));
    assert_eq!(observe(&mut runtime, hit(30.0), 20.5), evidence("Cannon"));
}

#[test]
fn an_open_effect_window_explains_its_ticks_without_a_switch() {
    let mut runtime = runtime();
    runtime.declare("Pistol", s(0.0));
    runtime.open_effect_window(window("w1", "Zapper", 1.0, 11.0, 28.0, 32.0));
    assert_eq!(observe(&mut runtime, hit(30.0), 5.0), tick_of("w1"));
    assert!(runtime.mismatch().is_none(), "a tick never raises a switch");
    // The declared weapon's own hits still win first.
    assert_eq!(
        observe(&mut runtime, hit(9.0), 6.0),
        agrees("Pistol", AgreeReason::Fits)
    );
    // Past its expiry (and tail) the window no longer explains anything.
    assert_eq!(observe(&mut runtime, hit(30.0), 13.0), evidence("Cannon"));
    assert_eq!(runtime.counts().effect_ticks, 1);
}

#[test]
fn a_hit_both_the_hotbar_weapon_and_another_weapons_effect_explain_is_unresolved() {
    let mut runtime = runtime();
    runtime.declare("Cannon", s(0.0));
    runtime.open_effect_window(window("w1", "Zapper", 1.0, 11.0, 28.0, 32.0));
    let resolved = runtime.classify(hit(30.0), s(5.0));
    assert_eq!(resolved.attribution, Attribution::Unresolved);
    assert_eq!(resolved.windows, vec!["w1".to_string()]);
    assert!(resolved.reason.contains("Zapper"), "{}", resolved.reason);
    // Outside the tick band the cannon's hits are the cannon's.
    assert_eq!(
        runtime.classify(hit(38.0), s(5.5)).attribution,
        agrees("Cannon", AgreeReason::Fits)
    );
}

#[test]
fn a_tick_of_the_weapon_in_hands_own_effect_is_a_tick() {
    let mut runtime = rotation();
    runtime.declare("Electrocution", s(0.0));
    // A 110 hit opens the effect; the declared weapon's own ticks
    // are ticks even where its hit band would hold them too.
    runtime.open_effect_window(window("e1", "Electrocution", 1.0, 26.0, 35.0, 120.0));
    let resolved = runtime.classify(hit(110.0), s(2.0));
    assert_eq!(resolved.attribution, tick_of("e1"));
    assert_eq!(
        resolved.fits,
        vec!["Mayhem".to_string(), "Electrocution".to_string()]
    );
}

#[test]
fn attribution_the_captured_rotation_bills_the_opener_once_and_the_primary_normally() {
    let mut runtime = rotation();
    runtime.declare("Electrocution", s(0.0));
    // The opener agrees with the chip in hand; its effect opens.
    assert_eq!(
        observe(&mut runtime, hit(129.2), 1.0),
        agrees("Electrocution", AgreeReason::Fits)
    );
    runtime.open_effect_window(window("e1", "Electrocution", 1.0, 26.0, 35.0, 75.0));
    // A sliver short of every band is nearest the effect's floor.
    assert_eq!(observe(&mut runtime, hit(0.8), 1.1), tick_of("e1"));
    assert_eq!(observe(&mut runtime, hit(53.0), 2.0), tick_of("e1"));
    runtime.declare("Mayhem", s(2.4));
    assert_eq!(observe(&mut runtime, hit(57.5), 3.0), tick_of("e1"));
    // Short of the primary's band but above every tick: armour on a
    // primary hit, not a tick.
    assert_eq!(
        observe(&mut runtime, hit(90.0), 4.0),
        agrees("Mayhem", AgreeReason::BelowBand)
    );
    assert_eq!(
        observe(&mut runtime, hit(147.7), 4.1),
        agrees("Mayhem", AgreeReason::Fits)
    );
    assert_eq!(observe(&mut runtime, hit(70.4), 5.0), tick_of("e1"));
    // A jam is a shot of the weapon in hand, never a tick.
    assert_eq!(
        observe(&mut runtime, Observation::Countered, 6.0),
        agrees("Mayhem", AgreeReason::Countered)
    );
    assert!(runtime.mismatch().is_none(), "ticks never raise a switch");
    // Past the effect (and its tail) a low hit is the primary's again.
    assert_eq!(
        observe(&mut runtime, hit(57.5), 28.0),
        agrees("Mayhem", AgreeReason::BelowBand)
    );
    assert_eq!(
        runtime.counts(),
        AttributionCounts {
            agreed: 5,
            evidenced: 0,
            unresolved: 0,
            effect_ticks: 4,
        }
    );
}

#[test]
fn a_hit_short_of_every_band_goes_to_the_nearest_floor() {
    let mut runtime = rotation();
    runtime.declare("Mayhem", s(0.0));
    runtime.open_effect_window(window("e1", "Electrocution", 1.0, 26.0, 35.0, 75.0));
    assert_eq!(runtime.classify(hit(20.0), s(2.0)).attribution, tick_of("e1"));
    // An effect whose floor sits above the declared weapon's does not
    // out-reach it.
    let mut runtime = rotation();
    runtime.declare("Mayhem", s(0.0));
    runtime.open_effect_window(window("hi", "Electrocution", 1.0, 26.0, 120.0, 130.0));
    assert_eq!(
        runtime.classify(hit(20.0), s(2.0)).attribution,
        agrees("Mayhem", AgreeReason::BelowBand)
    );
    // Of two effects short of the hit, the nearer floor explains it.
    let mut runtime = rotation();
    runtime.declare("Mayhem", s(0.0));
    runtime.open_effect_window(window("far", "Electrocution", 1.0, 26.0, 60.0, 75.0));
    runtime.open_effect_window(window("near", "Zapper", 1.0, 26.0, 30.0, 40.0));
    let resolved = runtime.classify(hit(20.0), s(2.0));
    assert_eq!(resolved.attribution, tick_of("near"));
    assert_eq!(resolved.windows, vec!["near".to_string()]);
}

#[test]
fn overlapping_windows_keep_every_candidate_and_choose_none() {
    let mut runtime = rotation();
    runtime.declare("Mayhem", s(0.0));
    runtime.open_effect_window(window("e1", "Electrocution", 1.0, 26.0, 35.0, 75.0));
    runtime.open_effect_window(window("e2", "Electrocution", 10.0, 35.0, 35.0, 75.0));
    let resolved = runtime.classify(hit(50.0), s(12.0));
    assert_eq!(
        resolved.attribution,
        Attribution::EffectTick { window_id: None }
    );
    assert_eq!(resolved.windows, vec!["e1".to_string(), "e2".to_string()]);
    assert!(resolved.attribution.priced_tool().is_none());
    // Before the second opened, only the first explains a tick.
    assert_eq!(runtime.classify(hit(50.0), s(5.0)).attribution, tick_of("e1"));
    // A below-floor sliver both windows reach is ambiguous too.
    let resolved = runtime.classify(hit(1.0), s(12.0));
    assert_eq!(
        resolved.attribution,
        Attribution::EffectTick { window_id: None }
    );
    assert_eq!(resolved.windows.len(), 2);
}

#[test]
fn with_nothing_declared_an_open_effect_explains_its_ticks() {
    let mut runtime = rotation();
    runtime.open_effect_window(window("e1", "Electrocution", 1.0, 26.0, 35.0, 75.0));
    assert_eq!(runtime.classify(hit(50.0), s(2.0)).attribution, tick_of("e1"));
    assert_eq!(runtime.classify(hit(3.0), s(2.0)).attribution, tick_of("e1"));
    // A primary hit is still evidence of the primary.
    assert_eq!(
        runtime.classify(hit(180.0), s(2.0)).attribution,
        evidence("Mayhem")
    );
    // Short of everything, an effect claims the hit only when its floor
    // is the nearest: a nearer weapon floor leaves it unresolved.
    let mut high = rotation();
    high.open_effect_window(window("h1", "Electrocution", 1.0, 26.0, 120.0, 130.0));
    assert_eq!(
        high.classify(hit(20.0), s(2.0)).attribution,
        Attribution::Unresolved
    );
    // A tick band the primary's band also holds: two live sources.
    let mut runtime = rotation();
    runtime.open_effect_window(window("e1", "Electrocution", 1.0, 26.0, 35.0, 100.0));
    let resolved = runtime.classify(hit(98.0), s(2.0));
    assert_eq!(resolved.attribution, Attribution::Unresolved);
    assert_eq!(resolved.windows, vec!["e1".to_string()]);
    // The effect's own weapon fitting is no rival: over-time-only
    // weapons are confirmed by a tick-shaped hit.
    let mut runtime = AttributionRuntime::default();
    runtime.set_carried(vec![weapon(2, "Electrocution", 35.0, 75.0)]);
    runtime.open_effect_window(window("e1", "Electrocution", 1.0, 26.0, 35.0, 75.0));
    assert_eq!(runtime.classify(hit(50.0), s(2.0)).attribution, tick_of("e1"));
}

#[test]
fn the_previous_weapons_in_flight_shot_competes_with_another_effect() {
    let mut runtime = AttributionRuntime::default();
    runtime.set_carried(vec![
        weapon(1, "Mayhem", 150.0, 191.4),
        weapon(2, "Electrocution", 100.0, 140.0),
    ]);
    runtime.declare("Electrocution", s(0.0));
    runtime.declare("Mayhem", s(1.0));
    // The chip's own effect: a hit its effect ticks and its in-flight
    // shot would print alike is a tick, not a second activation.
    runtime.open_effect_window(window("e1", "Electrocution", 0.5, 25.5, 110.0, 130.0));
    assert_eq!(runtime.classify(hit(120.0), s(1.5)).attribution, tick_of("e1"));
    // Out of the tick band, the chip's shot still lands as its own.
    assert_eq!(
        runtime.classify(hit(135.0), s(1.5)).attribution,
        agrees("Electrocution", AgreeReason::InFlight)
    );
    // A third weapon's effect beside the chip's in-flight shot: both
    // explain it.
    runtime.set_effect_windows(vec![window("z1", "Zapper", 0.5, 25.5, 110.0, 130.0)]);
    let resolved = runtime.classify(hit(120.0), s(1.5));
    assert_eq!(resolved.attribution, Attribution::Unresolved);
    assert!(
        resolved.reason.contains("still landing"),
        "{}",
        resolved.reason
    );
    // Past the switch tail, the third weapon's effect alone explains it.
    assert_eq!(runtime.classify(hit(120.0), s(3.0)).attribution, tick_of("z1"));
}

#[test]
fn a_bandless_declared_weapon_competes_with_an_effect_it_does_not_own() {
    let mut runtime = AttributionRuntime::default();
    runtime.set_carried(vec![CarriedWeapon {
        equipment_id: 9,
        name: "Mystery".to_string(),
        band: None,
        effect: None,
    }]);
    runtime.declare("Mystery", s(0.0));
    runtime.open_effect_window(window("e1", "Electrocution", 1.0, 26.0, 35.0, 75.0));
    assert_eq!(
        runtime.classify(hit(50.0), s(2.0)).attribution,
        Attribution::Unresolved
    );
    assert_eq!(
        runtime.classify(hit(90.0), s(2.0)).attribution,
        agrees("Mystery", AgreeReason::Unvalidated)
    );
    runtime.set_effect_windows(vec![window("m1", "Mystery", 1.0, 26.0, 35.0, 75.0)]);
    assert_eq!(runtime.classify(hit(50.0), s(2.0)).attribution, tick_of("m1"));
}

#[test]
fn a_window_explains_ticks_until_its_expiry_and_delivery_tail() {
    let mut runtime = rotation();
    runtime.declare("Mayhem", s(0.0));
    runtime.open_effect_window(window("e1", "Electrocution", 10.0, 20.0, 35.0, 75.0));
    assert_eq!(
        runtime.classify(hit(50.0), s(9.0)).attribution,
        agrees("Mayhem", AgreeReason::BelowBand),
        "before its activation landed"
    );
    assert_eq!(runtime.classify(hit(50.0), s(9.96)).attribution, tick_of("e1"));
    assert_eq!(runtime.classify(hit(50.0), s(21.2)).attribution, tick_of("e1"));
    assert_eq!(
        runtime.classify(hit(50.0), s(21.3)).attribution,
        agrees("Mayhem", AgreeReason::BelowBand)
    );
    // Applying an observation past the tail forgets the window.
    observe(&mut runtime, hit(150.0), 30.0);
    assert!(runtime.effect_windows().is_empty());
}

#[test]
fn a_decision_leaves_a_hit_an_effect_could_have_ticked() {
    let mut runtime = AttributionRuntime::default();
    runtime.set_carried(vec![
        weapon(1, "Pistol", 5.0, 30.0),
        weapon(2, "Cannon", 20.0, 40.0),
    ]);
    runtime.declare("Pistol", s(0.0));
    runtime.open_effect_window(window("z1", "Zapper", 0.0, 60.0, 20.0, 30.0));
    // The pistol and the effect both explain it: unresolved, though
    // the cannon fits it too.
    assert_eq!(
        observe(&mut runtime, hit(25.0), 1.0),
        Attribution::Unresolved
    );
    assert_eq!(observe(&mut runtime, hit(35.0), 2.0), evidence("Cannon"));
    let decision = runtime.confirm(s(3.0)).unwrap();
    assert!(
        decision.moves.is_empty(),
        "the unresolved hit might be a tick: {:?}",
        decision.moves
    );
    assert_eq!(runtime.counts().unresolved, 1);
}

#[test]
fn keeping_the_hotbar_weapon_takes_back_the_effect_its_evidence_opened() {
    let mut runtime = AttributionRuntime::default();
    runtime.set_carried(vec![
        weapon(1, "Pistol", 5.0, 10.0),
        weapon(2, "Electrocution", 100.0, 160.0),
    ]);
    runtime.declare("Pistol", s(0.0));
    assert_eq!(
        observe(&mut runtime, hit(130.0), 1.0),
        evidence("Electrocution")
    );
    // The priced hit opened its effect.
    let seq = runtime.log().last().unwrap().seq;
    runtime.mark_opened(seq, "e1");
    runtime.open_effect_window(window("e1", "Electrocution", 1.0, 26.0, 35.0, 75.0));
    assert_eq!(runtime.classify(hit(55.0), s(2.0)).attribution, tick_of("e1"));

    let decision = runtime.keep().unwrap();
    assert_eq!(decision.withdrawn, vec!["e1".to_string()]);
    assert!(runtime.effect_windows().is_empty());
    assert_ne!(runtime.classify(hit(55.0), s(3.0)).attribution, tick_of("e1"));
    // A confirm takes nothing back.
    let mut runtime = AttributionRuntime::default();
    runtime.set_carried(vec![
        weapon(1, "Pistol", 5.0, 10.0),
        weapon(2, "Electrocution", 100.0, 160.0),
    ]);
    runtime.declare("Pistol", s(0.0));
    observe(&mut runtime, hit(130.0), 1.0);
    assert!(runtime.confirm(s(2.0)).unwrap().withdrawn.is_empty());
}

#[test]
fn a_declared_effect_replaces_the_catalogue_band() {
    let props = WeaponProps {
        effect: Some(WeaponEffectProfile {
            mode: WeaponEffectMode::Compound,
            hit_min: Some(u(100.0)),
            hit_max: Some(u(160.0)),
            duration: s(25.0),
            tick_min: u(35.0),
            tick_max: u(75.0),
            tick_period: None,
        }),
        damage_min: Some(u(1000.0)),
        damage_max: Some(u(2000.0)),
    };
    assert_eq!(
        damage_band_from_props(&props),
        Some(DamageBand { min: u(100.0), max: u(160.0) })
    );
}

#[test]
fn a_press_starts_a_new_regime() {
    let mut runtime = runtime();
    runtime.declare("Pistol", s(0.0));
    observe(&mut runtime, hit(30.0), 1.0);
    assert!(runtime.mismatch().is_some());
    runtime.resync();
    assert!(runtime.mismatch().is_none(), "a harvesting press re-syncs");
    assert!(runtime.log().is_empty());
    assert_eq!(runtime.declared(), Some("Pistol"));
    observe(&mut runtime, hit(30.0), 2.0);
    runtime.declare("Cannon", s(3.0));
    assert!(runtime.mismatch().is_none());
    assert!(runtime.log().is_empty());
}

#[test]
fn confirming_reprices_the_regime_back_to_the_last_proof_of_the_declared_weapon() {
    let mut runtime = runtime();
    runtime.declare("Pistol", s(0.0));
    observe(&mut runtime, hit(9.0), 1.0); // pistol or rifle: 0
    observe(&mut runtime, hit(6.0), 2.0); // pistol only: proof, 1
    observe(&mut runtime, Observation::Countered, 3.0); // 2: moves
    observe(&mut runtime, hit(9.0), 4.0); // pistol or rifle; not cannon: proof vs cannon, 3
    observe(&mut runtime, Observation::Countered, 5.0); // 4: moves
    observe(&mut runtime, hit(30.0), 6.0); // cannon evidence, 5
    observe(&mut runtime, Observation::Countered, 7.0); // cannon evidence, 6

    let decision = runtime.confirm(s(8.0)).unwrap();
    assert_eq!(decision.mismatch.evidence, "Cannon");
    assert_eq!(
        decision
            .moves
            .iter()
            .map(|m| (m.seq, m.to_tool.as_str()))
            .collect::<Vec<_>>(),
        vec![(4, "Cannon")]
    );
    assert_eq!(
        decision.moves[0].record.attribution,
        agrees("Pistol", AgreeReason::Countered),
        "the move carries the shot as it stood"
    );
    assert_eq!(runtime.declared(), Some("Cannon"));
    assert!(runtime.mismatch().is_none());
    assert!(
        runtime.log().is_empty(),
        "the confirmation starts a new regime"
    );
    assert_eq!(
        runtime.counts(),
        AttributionCounts {
            agreed: 4,
            evidenced: 3,
            unresolved: 0,
            effect_ticks: 0,
        }
    );
    // The pistol's in-flight shots still land as the pistol's.
    assert_eq!(
        observe(&mut runtime, hit(6.0), 8.5),
        agrees("Pistol", AgreeReason::InFlight)
    );
}

#[test]
fn confirming_moves_shared_band_hits_and_unresolved_hits_the_evidence_fits() {
    let mut runtime = AttributionRuntime::default();
    runtime.set_carried(vec![
        weapon(1, "Pistol", 5.0, 22.0),
        weapon(2, "Cannon", 20.0, 40.0),
        weapon(3, "Carbine", 30.0, 45.0),
    ]);
    runtime.declare("Pistol", s(0.0));
    observe(&mut runtime, hit(21.0), 1.0); // pistol+cannon: agrees, fits cannon too
    observe(&mut runtime, hit(35.0), 2.0); // cannon+carbine: unresolved
    observe(&mut runtime, hit(44.0), 3.0); // carbine only: evidence carbine
    observe(&mut runtime, hit(25.0), 4.0); // cannon only: evidence cannon (replaces)
    assert_eq!(runtime.mismatch().unwrap().evidence, "Cannon");
    let decision = runtime.confirm(s(5.0)).unwrap();
    let moved: Vec<u64> = decision.moves.iter().map(|m| m.seq).collect();
    assert_eq!(
        moved,
        vec![0, 1],
        "the carbine's evidence stays the carbine's"
    );
    assert_eq!(runtime.counts().unresolved, 0);
    assert_eq!(runtime.counts().evidenced, 4);
}

#[test]
fn keeping_reprices_the_evidence_back_and_silences_that_weapon_for_the_regime() {
    let mut runtime = runtime();
    runtime.declare("Pistol", s(0.0));
    observe(&mut runtime, hit(6.0), 1.0);
    observe(&mut runtime, hit(30.0), 2.0);
    observe(&mut runtime, Observation::Countered, 3.0);
    observe(&mut runtime, hit(9.0), 4.0); // proof: clears, but evidence stays logged
    observe(&mut runtime, hit(31.0), 5.0);
    let decision = runtime.keep().unwrap();
    assert_eq!(
        decision.moves.iter().map(|m| m.seq).collect::<Vec<_>>(),
        vec![1, 2, 4],
        "every cannon-evidence shot of the regime"
    );
    assert!(decision.moves.iter().all(|m| m.to_tool == "Pistol"));
    assert!(runtime.mismatch().is_none());
    assert_eq!(runtime.declared(), Some("Pistol"));
    // The cannon's band no longer overrides the pistol this regime.
    assert_eq!(
        observe(&mut runtime, hit(30.0), 6.0),
        agrees("Pistol", AgreeReason::Kept)
    );
    assert!(runtime.mismatch().is_none());
    // A confirm has nothing to act on.
    assert!(runtime.confirm(s(7.0)).is_none());
    assert!(runtime.keep().is_none());
    // The next press ends the reprieve.
    runtime.declare("Pistol", s(8.0));
    assert_eq!(observe(&mut runtime, hit(30.0), 9.0), evidence("Cannon"));
}

#[test]
fn a_kept_shot_bounds_a_later_confirmation() {
    let mut runtime = runtime();
    runtime.declare("Pistol", s(0.0));
    observe(&mut runtime, hit(30.0), 1.0); // cannon evidence
    runtime.keep().unwrap();
    observe(&mut runtime, Observation::Countered, 2.0); // agrees pistol (countered)
    observe(&mut runtime, hit(13.0), 3.0); // rifle only: evidence rifle
    let decision = runtime.confirm(s(4.0)).unwrap();
    assert_eq!(decision.mismatch.evidence, "Rifle");
    // The countered shot moves; the walk stops at the kept cannon shot.
    assert_eq!(
        decision.moves.iter().map(|m| m.seq).collect::<Vec<_>>(),
        vec![1]
    );
}

#[test]
fn settling_a_kill_moves_pending_shots_into_it() {
    let mut runtime = runtime();
    runtime.declare("Pistol", s(0.0));
    observe(&mut runtime, hit(30.0), 1.0);
    runtime.settle_kill("k1");
    observe(&mut runtime, hit(31.0), 2.0);
    let locations: Vec<ShotLocation> = runtime
        .log()
        .iter()
        .map(|record| record.location.clone())
        .collect();
    assert_eq!(
        locations,
        vec![ShotLocation::Kill("k1".to_string()), ShotLocation::Pending]
    );
}

#[test]
fn the_log_forgets_what_no_decision_can_reach() {
    let mut runtime = runtime();
    runtime.declare("Pistol", s(0.0));
    observe(&mut runtime, Observation::Countered, 1.0);
    observe(&mut runtime, hit(30.0), 2.0); // evidence: kept in the log
    observe(&mut runtime, hit(9.0), 3.0); // pistol+rifle: no proof on its own
    assert_eq!(runtime.log().len(), 3);
    observe(&mut runtime, hit(6.0), 4.0); // pistol only: proof
    let seqs: Vec<u64> = runtime.log().iter().map(|record| record.seq).collect();
    assert_eq!(seqs, vec![1, 3]);
}

#[test]
fn a_band_derives_from_the_stored_weapon_amp_and_enhancers() {
    let catalogue = |min: Option<f64>, max: Option<f64>| WeaponProps {
        effect: None,
        damage_min: min.map(u),
        damage_max: max.map(u),
    };
    assert_eq!(
        damage_band_from_props(&catalogue(Some(5.0), Some(10.0))),
        Some(DamageBand { min: u(5.0), max: u(10.0) })
    );
    assert_eq!(
        damage_band_from_props(&catalogue(Some(7.0), Some(14.0))),
        Some(DamageBand { min: u(7.0), max: u(14.0) })
    );
    assert_eq!(damage_band_from_props(&catalogue(None, None)), None);
    assert_eq!(damage_band_from_props(&catalogue(Some(5.0), None)), None);
    assert_eq!(damage_band_from_props(&catalogue(None, Some(10.0))), None);
    assert_eq!(damage_band_from_props(&catalogue(Some(0.0), Some(0.0))), None);
}

#[test]
fn a_stored_weapon_carries_its_band_and_its_effect() {
    let effect = WeaponEffectProfile {
        mode: WeaponEffectMode::OverTime,
        hit_min: None,
        hit_max: None,
        duration: s(25.0),
        tick_min: u(35.0),
        tick_max: u(75.0),
        tick_period: None,
    };
    let props = WeaponProps {
        effect: Some(effect),
        damage_min: Some(u(1.0)),
        damage_max: Some(u(2.0)),
    };
    assert_eq!(
        CarriedWeapon::from_props(4, "Zapper".to_string(), &props),
        CarriedWeapon {
            equipment_id: 4,
            name: "Zapper".to_string(),
            band: Some(DamageBand { min: u(35.0), max: u(75.0) }),
            effect: Some(effect),
        }
    );
}

#[test]
fn a_band_past_the_attack_rate_limit_scales_with_its_cost() {
    let band = |min: f64, max: f64| {
        let props = WeaponProps { effect: None, damage_min: Some(u(min)), damage_max: Some(u(max)) };
        damage_band_from_props(&props).unwrap()
    };
    let own = band(10.0, 20.0);
    let rated = band(11.7, 23.4);
    // A full hit of the buffed weapon is out of its own-rate profile, and fits
    // once the band carries the rate the server compressed.
    assert!(!own.fits(u(23.4), false));
    assert!(rated.fits(u(23.4), false));
}

#[test]
fn a_declared_effect_band_is_observed_so_the_attack_rate_leaves_it_alone() {
    let props = |min: f64, max: f64| WeaponProps {
        effect: Some(WeaponEffectProfile {
            mode: WeaponEffectMode::Compound,
            hit_min: Some(u(100.0)),
            hit_max: Some(u(160.0)),
            duration: s(25.0),
            tick_min: u(35.0),
            tick_max: u(75.0),
            tick_period: None,
        }),
        damage_min: Some(u(min)),
        damage_max: Some(u(max)),
    };
    assert_eq!(
        damage_band_from_props(&props(1170.0, 2340.0)),
        damage_band_from_props(&props(1000.0, 2000.0))
    );
}

#[test]
fn stored_kinds_round_trip() {
    for kind in [
        AttributionKind::Agrees,
        AttributionKind::EffectTick,
        AttributionKind::Evidence,
        AttributionKind::Unresolved,
    ] {
        assert_eq!(AttributionKind::parse(kind.as_str()), Some(kind));
    }
    assert_eq!(AttributionKind::parse("other"), None);
}
