use hunt_tracker::enhancers::{on_enhancer_break, DamageEnhancerState};
use hunt_tracker::lifecycle::{prepare_session, StartConfig};
use hunt_tracker::phases::{
    book_shot, tool_stats_for_phase, unbook, weapon_cost, HuntingLooterLevels, ToolStats,
    UNPRICED_TOOL,
};
use hunt_tracker::session::ActiveSession;
use hunt_tracker::text::{
    decimal, eq_ignore_ascii_case, join, lower_has_run, place_name, same_lower_case, strip,
};
use hunt_tracker::units::{
    divide, is_near, rate_of, round_half_even, round_quotient, Ped, HUNDREDTH, TENTH, TEN_THOUSANDTH,
};

/// A printed figure in units.
fn u(value: f64) -> i64 {
    (value * 1e12).round() as i64
}

/// A sum in units.
fn w(value: f64) -> i128 {
    (value * 1e12).round() as i128
}

fn stats(tool: &str, cost: f64, shots: i64, damage: f64, crits: i64) -> (String, ToolStats) {
    let mut stats = ToolStats::new(tool, Ped(u(cost)), None);
    stats.shots_fired = shots;
    stats.damage_dealt = w(damage);
    stats.critical_hits = crits;
    (tool.to_string(), stats)
}

#[test]
fn unbooking_takes_one_shot_out_of_its_exact_phase() {
    let mut phases = vec![stats("Pistol", 0.1, 3, 30.0, 1), stats("Pistol", 0.2, 2, 20.0, 0)];
    assert!(unbook(&mut phases, Some("Pistol"), Ped(u(0.2)), u(8.0), false));
    assert_eq!(phases[1].1.shots_fired, 1);
    assert_eq!(phases[1].1.damage_dealt, w(12.0));
    assert_eq!(phases[0].1.shots_fired, 3, "the other phase is untouched");
    assert!(unbook(&mut phases, Some("Pistol"), Ped(u(0.1)), u(25.0), true));
    assert_eq!(phases[0].1.critical_hits, 0);
    assert_eq!(phases[0].1.damage_dealt, w(5.0));
    // No phase at that cost.
    assert!(!unbook(&mut phases, Some("Pistol"), Ped(u(0.3)), u(1.0), false));
    assert!(!unbook(&mut phases, Some("Cannon"), Ped(u(0.1)), u(1.0), false));
}

#[test]
fn a_phase_left_empty_disappears_and_unpriced_shots_leave_the_unknown_phase() {
    let mut phases = vec![stats(UNPRICED_TOOL, 0.0, 1, 9.0, 0), stats("Pistol", 0.1, 1, 0.0, 0)];
    assert!(unbook(&mut phases, None, Ped(0), u(9.0), false));
    assert_eq!(phases.len(), 1);
    assert_eq!(phases[0].0, "Pistol");
    // A countered shot carries no damage.
    assert!(unbook(&mut phases, Some("Pistol"), Ped(u(0.1)), 0, false));
    assert!(phases.is_empty());
    assert!(!unbook(&mut phases, None, Ped(0), 0, false));
}

#[test]
fn phased_tool_stats_split_on_cost_change() {
    let mut phases: Vec<(String, ToolStats)> = Vec::new();
    let mut count = |tool: &str, cost: i64| {
        let at = tool_stats_for_phase(&mut phases, tool, Ped(cost), None);
        phases[at].1.shots_fired += 1;
    };
    count("Rifle", u(0.05));
    // Within the tolerance: the same phase.
    count("Rifle", u(0.05) + 1);
    // A real cost change: a second phase keyed `Rifle#2`.
    count("Rifle", u(0.04));
    // A third: `Rifle#3`; a different tool keeps its bare key.
    count("Rifle", u(0.03));
    count("Pistol", u(0.02));
    // A cost difference of exactly the tolerance opens a phase: the comparison
    // is strict.
    count("Laser", 1_000);
    count("Laser", 2_000);
    let keys: Vec<(String, String, i64)> = phases
        .iter()
        .map(|(key, stats)| (key.clone(), stats.tool_name.clone(), stats.shots_fired))
        .collect();
    assert_eq!(
        keys,
        vec![
            ("Rifle".to_string(), "Rifle".to_string(), 2),
            ("Rifle#2".to_string(), "Rifle".to_string(), 1),
            ("Rifle#3".to_string(), "Rifle".to_string(), 1),
            ("Pistol".to_string(), "Pistol".to_string(), 1),
            ("Laser".to_string(), "Laser".to_string(), 1),
            ("Laser#2".to_string(), "Laser".to_string(), 1),
        ]
    );
}

#[test]
fn a_booked_shot_costs_its_price_and_unbooks_at_it() {
    let mut phases: Vec<(String, ToolStats)> = Vec::new();
    let cost =
        book_shot(&mut phases, Some("Pistol"), Ped(u(0.05)), None, Ped(0), u(7.0), true);
    assert_eq!(cost, Ped(u(0.05)));
    assert_eq!(weapon_cost(&phases), w(0.05));
    assert!(unbook(&mut phases, Some("Pistol"), cost, u(7.0), true));
    assert!(phases.is_empty());
    // A shot of no known weapon is counted without a cost.
    let cost = book_shot(&mut phases, None, Ped(u(9.0)), None, Ped(u(9.0)), u(7.0), false);
    assert_eq!(cost, Ped(0));
    assert_eq!(phases[0].0, "Unknown");
}

#[test]
fn damage_enhancer_state_arithmetic() {
    let mut state = DamageEnhancerState::full(3);
    assert_eq!(state.stacks, vec![100, 100, 100]);
    assert_eq!(state.active_slots(), 3);

    state.set_total(7);
    assert_eq!(state.stacks, vec![3, 2, 2], "the remainder front-loads");
    state.set_total(-5);
    assert_eq!(state.stacks, vec![0, 0, 0], "totals clamp at zero");

    state.set_total(2);
    assert_eq!(state.stacks, vec![1, 1, 0]);
    assert_eq!(state.active_slots(), 2);
    // A break with no remaining decrements the last positive slot and reports
    // the depletion.
    assert!(state.apply_break(None));
    assert_eq!(state.stacks, vec![1, 0, 0]);
    assert!(
        state.apply_break(Some(3)),
        "redistribution re-activating slots reports the change"
    );
    assert_eq!(state.stacks, vec![1, 1, 1]);

    let mut slotless = DamageEnhancerState::full(0);
    assert_eq!(slotless.stacks, Vec::<i64>::new());
    assert!(!slotless.apply_break(Some(50)), "no slots, no change");

    let negative = DamageEnhancerState::full(-2);
    assert_eq!(negative.stacks, Vec::<i64>::new());
}

#[test]
fn enhancer_breaks_filter_and_deplete_stacks() {
    let opening = prepare_session(
        StartConfig {
            session_name: String::new(),
            resolved: None,
            declared_boost: None,
            looters: HuntingLooterLevels { animal: 0, mutant: 0, robot: 0 },
            carried: Vec::new(),
            manual_mob: None,
        },
        0,
    );
    let mut active = ActiveSession::new(opening.session, opening.facets);
    // No weapon in hand, nothing to deplete.
    assert!(!on_enhancer_break(&mut active, "Damage Enhancer 5", true, 1));
    active.weapon_enhancers = Some(DamageEnhancerState::full(2));
    let stacks = |active: &ActiveSession| active.weapon_enhancers.as_ref().unwrap().stacks.clone();
    assert_eq!(stacks(&active), vec![100, 100]);

    // A non-damage enhancer never applies; a damage break naming a different
    // item never applies.
    assert!(!on_enhancer_break(&mut active, "Accuracy Enhancer 5", true, 150));
    assert!(!on_enhancer_break(&mut active, "Damage Enhancer 5", false, 150));
    assert_eq!(stacks(&active), vec![100, 100]);
    assert!(!active.dirty);

    // A matching break redistributes, front-loading the remainder.
    assert!(on_enhancer_break(&mut active, "Damage Enhancer 5", true, 151));
    assert_eq!(stacks(&active), vec![76, 75]);
    assert!(active.dirty);
    assert!(on_enhancer_break(&mut active, "damage enh", true, 150));
    assert_eq!(stacks(&active), vec![75, 75]);
}

#[test]
fn figures_round_half_to_even() {
    assert_eq!(round_half_even(w(0.125), HUNDREDTH), w(0.12));
    assert_eq!(round_half_even(w(0.135), HUNDREDTH), w(0.14));
    assert_eq!(round_half_even(w(-0.125), HUNDREDTH), w(-0.12));
    assert_eq!(round_half_even(w(0.25), TENTH), w(0.2));
    assert_eq!(round_half_even(w(1.23456), TEN_THOUSANDTH), w(1.2346));
    assert_eq!(round_quotient(7, 2), 4);
    assert_eq!(round_quotient(5, 2), 2);
    assert_eq!(round_quotient(-5, 2), -2);
    assert_eq!(rate_of(w(5.03), w(0.29)), w(17.3448));
    // A quotient just above a tie is rounded once, up.
    assert_eq!(rate_of(w(1.0), 1_999_800_019_997), w(0.5001));
    assert_eq!(rate_of(-w(1.0), 1_999_800_019_997), -w(0.5001));
    // An exact tie goes to the even step.
    assert_eq!(rate_of(50_005, 100_000), w(0.5));
    assert_eq!(rate_of(50_015, 100_000), w(0.5002));
    assert_eq!(divide(7, 2), (3, 1));
    assert_eq!(divide(-7, 2), (-4, 1));
    assert_eq!(divide(-8, 2), (-4, 0));
}

#[test]
fn two_figures_within_the_tolerance_are_one() {
    assert!(is_near(5, 5));
    assert!(is_near(0, 999));
    assert!(!is_near(0, 1000));
    assert!(!is_near(i64::MIN, i64::MAX));
}

#[test]
fn texts_compare_as_the_player_reads_them() {
    assert!(eq_ignore_ascii_case("Rotation 1", "rotation 1"));
    assert!(!eq_ignore_ascii_case("\u{c4}", "\u{e4}"), "only ASCII folds");
    assert!(same_lower_case("\u{c4}RGER", "\u{e4}rger"));
    assert!(!same_lower_case("Hero", "Villain"));
    assert!(lower_has_run("DAMAGE Enhancer", "damage"));
    assert!(!lower_has_run("Accuracy", "damage"));
    assert_eq!(strip("  a b\u{2003}", false), "a b");
    assert_eq!(strip("\u{1c}a\u{1c}", false), "\u{1c}a\u{1c}");
    assert_eq!(strip("\u{1c}a\u{1c}", true), "a");
    assert_eq!(strip("   ", true), "");
    assert_eq!(strip("\t\n\u{b}\u{c}\r \u{85}\u{a0}\u{1680}a", false), "a");
    assert_eq!(strip("a\u{2000}\u{200a}\u{2028}\u{2029}\u{202f}\u{205f}\u{3000}", false), "a");
    assert_eq!(strip("\u{200b}a\u{180e}", true), "\u{200b}a\u{180e}");
}

#[test]
fn names_are_listed_once_and_in_order() {
    let mut names: Vec<String> = Vec::new();
    for name in ["Rifle", "Cannon", "Rifle", "Pistol", "Can"] {
        place_name(&mut names, name);
    }
    assert_eq!(names, vec!["Can", "Cannon", "Pistol", "Rifle"]);
    assert_eq!(join(&names, ", "), "Can, Cannon, Pistol, Rifle");
    assert_eq!(decimal(120), "120");
    assert_eq!(decimal(0), "0");
}
