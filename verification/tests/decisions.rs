use hunt_tracker::attribution::{
    AttributionKind, CarriedWeapon, DamageBand, Observation, WeaponEffectMode,
    WeaponEffectProfile,
};
use hunt_tracker::combat::{
    absorb_combat, offensive_observation, on_weapon_press, press_harvest_tool, CombatEvent,
    CombatOutcome, ShotPricing,
};
use hunt_tracker::decision::{commit, decide, has_room_to_decide, PreparedDecision};
use hunt_tracker::effects::{live_windows, EffectActivation, StoredWindow};
use hunt_tracker::evidence::{MismatchDecision, ShotEvidence, WeaponDecisionError};
use hunt_tracker::lifecycle::{activate, prepare_session, seal, StartConfig};
use hunt_tracker::loot::{settle_loot, LootGroup, RoutedLoot};
use hunt_tracker::phases::{HuntingLooterLevels, ToolStats};
use hunt_tracker::session::{ActiveSession, HeldItem, SessionState};
use hunt_tracker::steps::restore_windows;
use hunt_tracker::units::Ped;

/// A printed figure in units.
fn u(value: f64) -> i64 {
    (value * 1e12).round() as i64
}

/// A sum in units.
fn w(value: f64) -> i128 {
    (value * 1e12).round() as i128
}

/// Seconds as an instant.
fn s(seconds: f64) -> i64 {
    (seconds * 1e9).round() as i64
}

const PISTOL: f64 = 0.05;
const CANNON: f64 = 0.2;
const RIFLE: f64 = 0.1;
const MAYHEM: f64 = 0.366602;
const ELECTROCUTION: f64 = 4.8732;

fn price_of(tool: &str) -> Ped {
    Ped(u(match tool {
        "Pistol" => PISTOL,
        "Cannon" => CANNON,
        "Rifle" => RIFLE,
        "Mayhem" => MAYHEM,
        "Electrocution" => ELECTROCUTION,
        _ => 0.0,
    }))
}

fn weapon(equipment_id: i64, name: &str, min: f64, max: f64) -> CarriedWeapon {
    CarriedWeapon {
        equipment_id,
        name: name.to_string(),
        band: Some(DamageBand { min: u(min), max: u(max) }),
        effect: None,
    }
}

/// Pistol 5-10, Cannon 20-40, Rifle 8-16 (overlapping the pistol).
fn arsenal() -> Vec<CarriedWeapon> {
    vec![
        weapon(1, "Pistol", 5.0, 10.0),
        weapon(2, "Cannon", 20.0, 40.0),
        weapon(3, "Rifle", 8.0, 16.0),
    ]
}

/// The Electrocution chip, its declared effect fitted to the capture: a
/// 100-160 opener, then ticks of 35-75 for 25 seconds.
fn electrocution() -> CarriedWeapon {
    let effect = WeaponEffectProfile {
        mode: WeaponEffectMode::Compound,
        hit_min: Some(u(100.0)),
        hit_max: Some(u(160.0)),
        duration: s(25.0),
        tick_min: u(35.0),
        tick_max: u(75.0),
        tick_period: Some(s(1.15)),
    };
    CarriedWeapon {
        equipment_id: 2,
        name: "Electrocution".to_string(),
        band: Some(effect.activation_band()),
        effect: Some(effect),
    }
}

fn loadout() -> Vec<CarriedWeapon> {
    vec![weapon(1, "Mayhem", 95.7, 191.4), electrocution()]
}

/// A tracker with its clock, and what it stored.
struct Rig {
    state: SessionState,
    held: Option<HeldItem>,
    now: f64,
    windows: Vec<EffectActivation>,
    rows: Vec<ShotEvidence>,
}

fn started(carried: Vec<CarriedWeapon>, now: f64) -> SessionState {
    let opening = prepare_session(
        StartConfig {
            session_name: String::new(),
            resolved: None,
            declared_boost: None,
            looters: HuntingLooterLevels { animal: 0, mutant: 0, robot: 0 },
            carried,
            manual_mob: None,
        },
        s(now),
    );
    let mut state = SessionState::Idle;
    activate(&mut state, opening.session, opening.facets, opening.outfit);
    state
}

impl Rig {
    fn new(carried: Vec<CarriedWeapon>) -> Rig {
        Rig {
            state: started(carried, 0.0),
            held: None,
            now: 0.0,
            windows: Vec::new(),
            rows: Vec::new(),
        }
    }

    fn active(&self) -> &ActiveSession {
        self.state.active().unwrap()
    }

    fn active_mut(&mut self) -> &mut ActiveSession {
        self.state.active_mut().unwrap()
    }

    fn press(&mut self, weapon: &str) {
        on_weapon_press(&mut self.state, &mut self.held, weapon, s(self.now));
    }

    fn event(&mut self, event: CombatEvent) -> CombatOutcome {
        let at = s(self.now);
        let observation: Observation = offensive_observation(event).unwrap();
        let resolved = self.active().attribution.classify(observation, at);
        let price = match resolved.attribution.priced_tool() {
            Some(tool) => price_of(tool),
            None => Ped(0),
        };
        let pricing = ShotPricing { price, expected: None, library: Ped(0) };
        let mut outcome = absorb_combat(self.active_mut(), event, at, pricing);
        if let Some(activation) = outcome.activation.take() {
            self.windows.push(activation);
        }
        outcome
    }

    fn hit(&mut self, amount: f64) {
        self.event(CombatEvent::DamageDealt { amount: u(amount) });
    }

    fn jam(&mut self) {
        self.event(CombatEvent::TargetJam);
    }

    fn loot(&mut self) {
        let empty = LootGroup { source_id: None, items: Vec::new(), total_ped: 0 };
        let at = s(self.now);
        match settle_loot(self.active_mut(), &empty, &Vec::new(), at, None) {
            RoutedLoot::Kill(rows) => self.rows.extend(rows),
            _ => panic!("a kill"),
        }
    }

    fn decide(&mut self, decision: MismatchDecision) -> Option<PreparedDecision> {
        assert!(has_room_to_decide(self.active()));
        let price = match self.active().attribution.mismatch() {
            Some(mismatch) => match decision {
                MismatchDecision::Confirm => price_of(&mismatch.evidence),
                MismatchDecision::Keep => price_of(&mismatch.declared),
            },
            None => Ped(0),
        };
        decide(&self.state, decision, s(self.now), price, &None).unwrap()
    }

    /// Decide, and store it.
    fn settle(&mut self, decision: MismatchDecision) -> bool {
        let prepared = match self.decide(decision) {
            Some(prepared) => prepared,
            None => return false,
        };
        for update in &prepared.write.row_updates {
            for row in self.rows.iter_mut().filter(|row| row.id == update.id) {
                row.tool_name = Some(update.tool.clone());
                row.cost_per_shot = update.cost;
                row.review_id = Some(prepared.write.review_id.clone());
            }
        }
        let active = self.state.active_mut().unwrap();
        commit::<()>(active, &mut self.held, prepared, Ok(())).unwrap()
    }

    fn pending(&self) -> Vec<(String, i64, i64)> {
        phases(&self.active().accumulator.tool_stats)
    }
}

/// Phases as (tool, shots, per-shot cost).
fn phases(stats: &[(String, ToolStats)]) -> Vec<(String, i64, i64)> {
    stats
        .iter()
        .map(|(_, stats)| (stats.tool_name.clone(), stats.shots_fired, stats.cost_per_shot.0))
        .collect()
}

fn phase(tool: &str, shots: i64) -> (String, i64, i64) {
    (tool.to_string(), shots, price_of(tool).0)
}

#[test]
fn a_missed_switch_is_recorded_to_the_evidence_weapon_and_raises_the_cue() {
    let mut rig = Rig::new(arsenal());
    rig.press("Pistol");
    rig.hit(7.0);
    rig.now = 2.0;
    rig.hit(30.0);

    assert_eq!(rig.held.as_ref().map(|item| item.name.as_str()), Some("Pistol"));
    let cue = rig.active().attribution.mismatch().expect("the cue stands");
    assert_eq!(cue.declared, "Pistol");
    assert_eq!(cue.evidence, "Cannon");
    assert_eq!(cue.shots, 1);
    assert_eq!(rig.active().attribution.counts().unresolved, 0);
    assert_eq!(
        rig.pending(),
        vec![phase("Pistol", 1), phase("Cannon", 1)],
        "the evidence shot costs what the cannon costs, not the hotbar's pistol"
    );

    rig.loot();
    assert_eq!(rig.rows.len(), 1, "the agreeing pistol shot keeps no row");
    let row = &rig.rows[0];
    assert_eq!(row.kind, AttributionKind::Evidence);
    assert_eq!(row.hotbar_tool.as_deref(), Some("Pistol"));
    assert_eq!(row.tool_name.as_deref(), Some("Cannon"));
    assert_eq!(row.cost_per_shot, price_of("Cannon"));
    let candidates: Vec<(i64, &str, bool)> = row
        .candidates
        .iter()
        .map(|candidate| (candidate.equipment_id, candidate.name.as_str(), candidate.fits))
        .collect();
    assert_eq!(
        candidates,
        vec![(1, "Pistol", false), (2, "Cannon", true), (3, "Rifle", false)]
    );
}

#[test]
fn confirming_reprices_the_regime_and_declares_the_evidence_weapon() {
    let mut rig = Rig::new(arsenal());
    rig.press("Pistol");
    rig.hit(6.0); // only the pistol: proof it was in hand
    rig.jam(); // inherits the pistol, for now
    rig.loot();
    rig.jam();
    rig.now = 2.0;
    rig.hit(30.0); // only the cannon: the missed switch

    let prepared = rig.decide(MismatchDecision::Confirm).unwrap();
    assert_eq!(prepared.write.decision.as_str(), "confirmed");
    assert_eq!(prepared.write.repriced, 2);
    assert_eq!(prepared.write.cost_delta, 2 * (w(CANNON) - w(PISTOL)));
    assert!(rig.settle(MismatchDecision::Confirm));

    let kill = &rig.active().session.kills[0];
    assert_eq!(
        phases(&kill.tool_stats),
        vec![phase("Pistol", 1), phase("Cannon", 1)],
        "the settled jam moved to the cannon; the proven pistol hit did not"
    );
    assert_eq!(kill.cost_ped, w(PISTOL) + w(CANNON));
    assert_eq!(rig.pending(), vec![phase("Cannon", 2)]);
    assert_eq!(rig.held.as_ref().map(|item| item.name.as_str()), Some("Cannon"));
    assert!(rig.active().attribution.mismatch().is_none());
    // The cannon is declared now: its hits simply agree.
    rig.hit(30.0);
    assert!(rig.active().attribution.mismatch().is_none());

    let counts = seal(rig.active_mut(), s(3.0)).counts;
    assert_eq!(counts.evidenced, 3, "the evidence shot and the two confirmed jams");
    assert_eq!(counts.agreed, 2);
}

#[test]
fn keeping_reprices_the_evidence_back_and_marks_its_rows() {
    let mut rig = Rig::new(arsenal());
    rig.press("Pistol");
    rig.now = 2.0;
    rig.hit(30.0);
    rig.loot();
    rig.hit(31.0);
    let review = rig.decide(MismatchDecision::Keep).unwrap().write;
    assert_eq!(review.decision.as_str(), "kept");
    assert!(rig.settle(MismatchDecision::Keep));

    let kill = &rig.active().session.kills[0];
    assert_eq!(phases(&kill.tool_stats), vec![phase("Pistol", 1)]);
    assert_eq!(kill.cost_ped, w(PISTOL));
    assert_eq!(rig.pending(), vec![phase("Pistol", 1)]);
    // The settled row moved with its shot and names the decision.
    assert_eq!(rig.rows.len(), 1);
    assert_eq!(rig.rows[0].tool_name.as_deref(), Some("Pistol"));
    assert!(rig.rows[0].review_id.is_some());

    // The cannon's band no longer overrides the pistol this regime.
    rig.hit(30.0);
    assert!(rig.active().attribution.mismatch().is_none());
    assert_eq!(rig.pending(), vec![phase("Pistol", 2)]);

    // The pending row lands with the stop, already repriced.
    let closing = seal(rig.active_mut(), s(3.0));
    assert_eq!(closing.evidence.iter().filter(|row| row.review_id.is_some()).count(), 1);
    assert_eq!(closing.session.dangling_cost, 2 * w(PISTOL));
}

#[test]
fn a_decision_needs_a_session_and_a_standing_mismatch() {
    let idle = decide(&SessionState::Idle, MismatchDecision::Confirm, 0, Ped(0), &None);
    assert_eq!(idle.err(), Some(WeaponDecisionError::NoActiveSession));
    let mut rig = Rig::new(arsenal());
    rig.press("Pistol");
    rig.hit(7.0);
    for decision in [MismatchDecision::Confirm, MismatchDecision::Keep] {
        assert!(!rig.settle(decision));
    }
}

#[test]
fn a_decision_that_cannot_be_saved_changes_nothing() {
    let mut rig = Rig::new(arsenal());
    rig.press("Pistol");
    rig.hit(6.0);
    rig.jam();
    rig.loot();
    rig.now = 2.0;
    rig.hit(30.0);
    let kill_before = phases(&rig.active().session.kills[0].tool_stats);
    let pending_before = rig.pending();

    let prepared = rig.decide(MismatchDecision::Confirm).unwrap();
    let active = rig.state.active_mut().unwrap();
    let refused = commit::<&str>(active, &mut rig.held, prepared, Err("no such table"));
    assert_eq!(refused, Err(WeaponDecisionError::NotSaved));

    assert_eq!(phases(&rig.active().session.kills[0].tool_stats), kill_before);
    assert_eq!(rig.pending(), pending_before);
    assert_eq!(rig.held.as_ref().map(|item| item.name.as_str()), Some("Pistol"));
    assert_eq!(
        rig.active().attribution.mismatch().map(|cue| cue.evidence.as_str()),
        Some("Cannon")
    );
    assert_eq!(rig.active().attribution.declared(), Some("Pistol"));
    let kill = &rig.active().session.kills[0];
    assert_eq!(kill.tool_stats.len(), 1, "the settled jam stayed the pistol's");
    assert_eq!(kill.tool_stats[0].1.shots_fired, 2);
}

#[test]
fn unpriced_shots_settle_with_the_dangling_cost_and_the_session_keeps_its_tallies() {
    let mut rig = Rig::new(arsenal());
    rig.press("Pistol");
    rig.hit(7.0);
    // Beyond every carried weapon's reach, critical or not.
    rig.hit(200.0);
    assert_eq!(rig.active().attribution.counts().unresolved, 1);
    assert!(rig.active().attribution.mismatch().is_none());

    let closing = seal(rig.active_mut(), s(3.0));
    assert_eq!(closing.session.dangling_cost, w(PISTOL));
    assert_eq!(closing.evidence.len(), 1);
    let row = &closing.evidence[0];
    assert_eq!(row.kind, AttributionKind::Unresolved);
    assert_eq!(row.tool_name, None);
    assert_eq!(row.cost_per_shot, Ped(0));
    assert_eq!(row.amount, Some(u(200.0)));
    assert_eq!(row.hotbar_tool.as_deref(), Some("Pistol"));
    assert_eq!(closing.counts.agreed, 1);
    assert_eq!(closing.counts.evidenced, 0);
}

#[test]
fn the_previous_weapons_shot_after_a_switch_is_no_mismatch() {
    let mut rig = Rig::new(arsenal());
    rig.press("Cannon");
    rig.now = 5.0;
    rig.press("Pistol");
    rig.now = 5.5;
    rig.hit(30.0);
    assert!(rig.active().attribution.mismatch().is_none());
    assert_eq!(
        rig.pending(),
        vec![phase("Cannon", 1)],
        "the cannon's shot landing after the switch is the cannon's"
    );
    rig.now = 7.5;
    rig.hit(30.0);
    assert!(rig.active().attribution.mismatch().is_some());
}

#[test]
fn a_harvesting_press_resyncs_the_weapon_regime() {
    let mut rig = Rig::new(arsenal());
    rig.press("Pistol");
    rig.now = 2.0;
    rig.hit(30.0);
    assert!(rig.active().attribution.mismatch().is_some());
    assert!(press_harvest_tool(rig.active_mut()));
    assert!(rig.active().attribution.mismatch().is_none());
    assert!(!rig.settle(MismatchDecision::Keep));
}

/// Whatever the player presses and decides, every shot is counted once, every
/// kill's cost is its phases' sum, and the shots left unpriced are exactly the
/// unresolved rows no decision priced.
#[test]
fn decisions_conserve_shots_and_cost_over_a_long_session() {
    let mut rig = Rig::new(arsenal());
    let amounts = [3.0, 6.0, 9.0, 13.0, 18.0, 25.0, 30.0, 45.0, 200.0];
    let names = ["Pistol", "Cannon", "Rifle"];
    let mut shots = 0;
    let mut dealt: i128 = 0;
    let mut criticals = 0;
    let mut seed: u64 = 12345;
    for _ in 0..400 {
        seed = seed.wrapping_mul(6364136223846793005).wrapping_add(1442695040888963407);
        let roll = (seed >> 33) as usize;
        match roll % 15 {
            0..=5 => {
                let amount = u(amounts[(roll / 15) % amounts.len()]);
                let event = if roll % 2 == 0 {
                    criticals += 1;
                    CombatEvent::CriticalHit { amount }
                } else {
                    CombatEvent::DamageDealt { amount }
                };
                rig.event(event);
                dealt += amount as i128;
                shots += 1;
            }
            6 | 7 => {
                rig.jam();
                shots += 1;
            }
            8 => rig.press(names[(roll / 15) % names.len()]),
            9 | 10 => {
                rig.now += 3.0;
                rig.loot();
            }
            11 | 12 => rig.now += 2.0,
            13 => {
                rig.settle(MismatchDecision::Confirm);
            }
            _ => {
                rig.settle(MismatchDecision::Keep);
            }
        }
    }
    let active = rig.active();
    let mut counted: i64 = active.accumulator.tool_stats.iter().map(|(_, p)| p.shots_fired).sum();
    for kill in &active.session.kills {
        let cost: i128 = kill
            .tool_stats
            .iter()
            .map(|(_, p)| p.cost_per_shot.0 as i128 * p.shots_fired as i128)
            .sum();
        assert_eq!(cost, kill.cost_ped);
        counted += kill.tool_stats.iter().map(|(_, p)| p.shots_fired).sum::<i64>();
    }
    assert_eq!(counted, shots);
    let phases = || {
        let settled = active.session.kills.iter().flat_map(|kill| kill.tool_stats.iter());
        settled.chain(active.accumulator.tool_stats.iter()).map(|(_, phase)| phase)
    };
    assert_eq!(phases().map(|phase| phase.damage_dealt).sum::<i128>(), dealt);
    assert_eq!(phases().map(|phase| phase.critical_hits).sum::<i64>(), criticals);
    let unpriced = rig.rows.iter().filter(|row| row.tool_name.is_none()).count()
        + active.accumulator.evidence.iter().filter(|row| row.tool_name.is_none()).count();
    assert_eq!(unpriced as i64, active.attribution.counts().unresolved);
}

/// One offensive chat-log line of the capture.
#[derive(Clone, Copy)]
enum Line {
    Hit(f64),
    Jam,
    Miss,
}

/// The captured rotation: each offensive line with the whole second it printed
/// at, counted from the Electrocution opener.
const ROTATION: &[(u32, Line)] = &[
    (0, Line::Hit(129.2)),
    (0, Line::Hit(0.8)),
    (1, Line::Hit(53.0)),
    (2, Line::Hit(57.5)),
    (3, Line::Hit(90.0)),
    (3, Line::Hit(55.3)),
    (4, Line::Hit(147.7)),
    (4, Line::Hit(64.3)),
    (5, Line::Hit(144.8)),
    (6, Line::Hit(63.6)),
    (6, Line::Hit(162.5)),
    (7, Line::Hit(56.0)),
    (8, Line::Miss),
    (8, Line::Hit(55.3)),
    (9, Line::Hit(93.5)),
    (9, Line::Hit(58.3)),
    (10, Line::Hit(118.1)),
    (11, Line::Hit(70.4)),
    (11, Line::Hit(135.5)),
    (12, Line::Hit(68.1)),
    (12, Line::Hit(111.1)),
    (13, Line::Hit(126.7)),
    (13, Line::Hit(62.8)),
    (14, Line::Hit(157.3)),
    (14, Line::Hit(52.2)),
    (15, Line::Hit(171.3)),
    (15, Line::Hit(58.3)),
    (16, Line::Hit(138.3)),
    (17, Line::Hit(56.0)),
    (18, Line::Jam),
    (18, Line::Hit(68.1)),
    (19, Line::Hit(167.1)),
    (19, Line::Hit(62.1)),
    (20, Line::Hit(48.4)),
    (22, Line::Hit(51.5)),
    (23, Line::Hit(62.8)),
    (24, Line::Hit(37.8)),
    (25, Line::Hit(128.0)),
    (26, Line::Jam),
    (28, Line::Hit(89.8)),
    (29, Line::Hit(148.4)),
    (30, Line::Hit(86.9)),
    (31, Line::Hit(95.3)),
    (32, Line::Hit(99.4)),
    (34, Line::Hit(120.4)),
    (35, Line::Hit(146.2)),
    (36, Line::Hit(151.8)),
    (37, Line::Jam),
    (38, Line::Hit(142.2)),
    (39, Line::Hit(116.3)),
    (41, Line::Hit(154.0)),
    (42, Line::Hit(106.4)),
    (43, Line::Hit(151.9)),
    (44, Line::Jam),
    (45, Line::Hit(97.7)),
    (47, Line::Hit(168.2)),
    (48, Line::Hit(117.2)),
    (49, Line::Hit(119.2)),
    (50, Line::Hit(167.7)),
    (52, Line::Hit(103.2)),
];

#[test]
fn weapon_effects_tests_the_captured_rotation_bills_the_opener_once_and_the_primary_normally() {
    let mut rig = Rig::new(loadout());
    rig.press("Electrocution");
    for (index, (at, line)) in ROTATION.iter().enumerate() {
        // The switch to the primary lands between the opener's first tick and
        // its second.
        if index == 3 {
            rig.now = 1.5;
            rig.press("Mayhem");
        }
        let target = f64::from(*at);
        if target > rig.now {
            rig.now = target;
        }
        match line {
            Line::Hit(amount) => rig.hit(*amount),
            Line::Jam => rig.jam(),
            Line::Miss => {
                rig.event(CombatEvent::TargetMiss);
            }
        }
    }
    rig.loot();

    let kill = &rig.active().session.kills[0];
    assert_eq!(
        phases(&kill.tool_stats),
        vec![phase("Electrocution", 1), phase("Mayhem", 38)],
        "one opener, and every genuine primary activation, the miss included"
    );
    assert_eq!(kill.shots_fired, 39, "ticks are not shots");
    assert_eq!(kill.cost_ped, w(18.804076));
    assert_eq!(kill.damage_dealt, w(5565.9), "every damage line still counts");
    let ticks = rig
        .rows
        .iter()
        .filter(|row| row.kind == AttributionKind::EffectTick && row.effect_window_id.is_some())
        .count();
    assert_eq!(ticks, 21);
    assert_eq!(rig.rows.len(), 21, "nothing unresolved, nothing overriding the hotbar");
    assert_eq!(rig.windows.len(), 1);
    let window = &rig.windows[0];
    assert_eq!(window.session_id, rig.active().session.id);
    assert_eq!(window.hit_amount, u(129.2));
    assert_eq!(window.cost_per_shot, price_of("Electrocution"));
    assert_eq!(window.window.expires_at - window.window.started_at, s(25.0));
    assert_eq!(window.window.tick.max, u(75.0));
    assert!(
        rig.active().attribution.mismatch().is_none(),
        "ticks never raise a false switch"
    );
}

#[test]
fn staying_on_the_effect_weapon_bills_one_opener_per_cast() {
    let mut rig = Rig::new(loadout());
    rig.press("Electrocution");
    rig.hit(130.0);
    for _ in 0..10 {
        rig.now += 1.0;
        rig.hit(50.0);
    }
    // A second cast after the first effect has run out.
    rig.now += 20.0;
    rig.hit(120.0);
    rig.now += 1.0;
    rig.hit(60.0);
    rig.loot();
    let kill = &rig.active().session.kills[0];
    assert_eq!(phases(&kill.tool_stats), vec![phase("Electrocution", 2)]);
    assert_eq!(kill.shots_fired, 2);
    assert_eq!(kill.cost_ped, 2 * w(ELECTROCUTION));
    assert_eq!(rig.windows.len(), 2);
}

#[test]
fn a_jammed_or_missed_cast_is_a_shot_that_starts_no_effect() {
    let mut rig = Rig::new(loadout());
    rig.press("Electrocution");
    rig.jam();
    rig.event(CombatEvent::TargetMiss);
    assert_eq!(rig.active().attribution.effect_windows().len(), 0);
    rig.loot();
    let kill = &rig.active().session.kills[0];
    assert_eq!(phases(&kill.tool_stats), vec![phase("Electrocution", 2)]);
    assert_eq!(kill.shots_fired, 2);
    assert!(rig.windows.is_empty());
}

fn stored(rig: &Rig, withdrawn_at: Option<i64>) -> Vec<StoredWindow> {
    rig.windows
        .iter()
        .map(|activation| StoredWindow { window: activation.window.clone(), withdrawn_at })
        .collect()
}

#[test]
fn an_effect_outlives_a_restart_and_its_cost_stays_where_it_was_paid() {
    let mut first = Rig::new(loadout());
    first.press("Electrocution");
    first.hit(130.0);
    first.now = 1.0;
    first.hit(50.0);
    first.loot();
    let crashed = first.active().session.id.clone();

    // The next process starts a new session while the effect still ticks.
    let mut second = Rig::new(loadout());
    second.now = 4.0;
    let rows = stored(&first, None);
    assert_eq!(live_windows(&rows, s(4.0)).len(), 1);
    restore_windows(second.active_mut(), &rows, s(4.0));
    second.press("Mayhem");
    second.now = 5.0;
    second.hit(55.0);
    second.hit(150.0);
    let closing = seal(second.active_mut(), s(6.0));
    let tick = closing
        .evidence
        .iter()
        .find(|row| row.kind == AttributionKind::EffectTick)
        .unwrap();
    assert_eq!(tick.session_id, closing.session.id, "the tick lands in the new session");
    assert_eq!(
        tick.effect_window_id.as_deref(),
        Some(first.windows[0].window.id.as_str()),
        "and keeps the provenance of the cast that paid for it"
    );
    assert_eq!(first.windows[0].session_id, crashed);
    assert_eq!(closing.session.dangling_cost, w(MAYHEM));
    assert_eq!(first.active().session.kills[0].cost_ped, w(ELECTROCUTION));

    // Once the effect has run out, a new session starts without it.
    assert!(live_windows(&stored(&first, None), s(36.0)).is_empty());
}

#[test]
fn keeping_the_hotbar_weapon_takes_back_an_effect_its_evidence_opened() {
    let mut rig = Rig::new(vec![weapon(1, "Pistol", 5.0, 10.0), electrocution()]);
    rig.press("Pistol");
    rig.now = 1.0;
    // Only the chip explains it: a missed switch, and its effect opens.
    rig.hit(130.0);
    assert_eq!(rig.active().attribution.effect_windows().len(), 1);
    let withdrawn = rig.decide(MismatchDecision::Keep).unwrap().write.withdrawn;
    assert_eq!(withdrawn, vec![rig.windows[0].window.id.clone()]);
    assert!(rig.settle(MismatchDecision::Keep));
    assert_eq!(rig.active().attribution.effect_windows().len(), 0, "the cast is taken back");
    // A tick-shaped hit is no tick of it now.
    rig.now = 2.0;
    rig.hit(55.0);
    assert_eq!(rig.active().attribution.counts().effect_ticks, 0);
    // Nor after a restart: a taken-back window is never read back.
    assert!(live_windows(&stored(&rig, Some(s(1.5))), s(2.0)).is_empty());
}

#[test]
fn a_tick_stamps_the_context_it_lands_in() {
    let mut rig = Rig::new(loadout());
    rig.active_mut().intervals.open_session::<()>(Ok(1)).unwrap();
    rig.press("Electrocution");
    rig.hit(130.0);
    rig.active_mut().intervals.open_session::<()>(Ok(2)).unwrap();
    rig.now = 1.0;
    rig.hit(50.0);
    rig.loot();
    assert_eq!(rig.windows[0].context_id, Some(1));
    assert_eq!(rig.rows[0].context_id, Some(2));
}

#[test]
fn overlapping_casts_leave_their_shared_ticks_unclaimed_and_free() {
    let mut rig = Rig::new(loadout());
    rig.press("Electrocution");
    rig.hit(130.0);
    rig.now = 5.0;
    rig.hit(140.0);
    rig.now = 6.0;
    rig.hit(50.0);
    rig.loot();
    let kill = &rig.active().session.kills[0];
    assert_eq!(phases(&kill.tool_stats), vec![phase("Electrocution", 2)]);
    assert_eq!(rig.rows.len(), 1);
    assert_eq!(
        rig.rows[0].effect_window_id, None,
        "no cast is chosen by the order it opened in"
    );
    assert_eq!(rig.rows[0].effect_candidates.len(), 2);
}
