use hunt_tracker::activities::{IntervalPlan, TrackerCommandError};
use hunt_tracker::attribution::CarriedWeapon;
use hunt_tracker::commands::{
    activate_activity, deactivate_activity, release_declared_mob, set_declared_mob,
    set_skill_boost, settle_declaration,
};
use hunt_tracker::intervals::{ActiveActivity, ActivityKey, ActivityRef, IntervalKind};
use hunt_tracker::lifecycle::{
    activate, finish_stop, prepare_session, prime_demo, reload_config, seal, StartConfig,
};
use hunt_tracker::phases::HuntingLooterLevels;
use hunt_tracker::records::{DeclaredMob, TrackingSession};
use hunt_tracker::session::{ActiveSession, ResolvedDefinition, SessionFacets, SessionState};

const PERCENT: i128 = 1_000_000_000_000;

/// One stored interval row.
#[derive(Debug, PartialEq)]
struct Row {
    id: i64,
    kind: IntervalKind,
    label: Option<String>,
    ref_id: Option<i64>,
    magnitude: Option<i128>,
    ended: bool,
}

/// A tracker over a list of stored interval rows.
struct Rig {
    state: SessionState,
    rows: Vec<Row>,
    contexts: i64,
}

fn config() -> StartConfig {
    StartConfig {
        session_name: String::new(),
        resolved: Some(ResolvedDefinition {
            id: 1,
            name: "Default Tracking".to_string(),
            track_protection_costs: true,
        }),
        declared_boost: None,
        looters: HuntingLooterLevels { animal: 0, mutant: 0, robot: 0 },
        carried: Vec::new(),
        manual_mob: None,
    }
}

impl Rig {
    fn idle() -> Rig {
        Rig { state: SessionState::Idle, rows: Vec::new(), contexts: 0 }
    }

    fn started(config: StartConfig) -> Rig {
        let mut rig = Rig::idle();
        let opening = prepare_session(config, 0);
        let interval = opening.interval;
        activate(&mut rig.state, opening.session, opening.facets, opening.outfit);
        rig.contexts += 1;
        let context = rig.contexts;
        rig.active_mut().intervals.open_session::<()>(Ok(context)).unwrap();
        if let Some(opened) = interval {
            rig.settle(IntervalPlan::Open(opened));
        }
        rig
    }

    fn active(&self) -> &ActiveSession {
        self.state.active().unwrap()
    }

    fn active_mut(&mut self) -> &mut ActiveSession {
        self.state.active_mut().unwrap()
    }

    fn end(&mut self, ids: &[i64]) {
        for row in self.rows.iter_mut() {
            if ids.contains(&row.id) {
                row.ended = true;
            }
        }
    }

    /// Store what a plan writes, and settle it with the answer.
    fn settle(&mut self, plan: IntervalPlan) -> Vec<ActiveActivity> {
        let mut interval_id = 0;
        match &plan {
            IntervalPlan::Nothing => {}
            IntervalPlan::Close(target) => {
                if let Some(write) = self.active().intervals.plan_close(target) {
                    self.end(&write.ends);
                }
            }
            IntervalPlan::Open(opened) => {
                let write = self.active().intervals.plan_open(opened);
                self.end(&write.ends);
                interval_id = self.rows.len() as i64 + 1;
                self.rows.push(Row {
                    id: interval_id,
                    kind: opened.kind,
                    label: opened.label.clone(),
                    ref_id: opened.ref_id,
                    magnitude: opened.magnitude,
                    ended: false,
                });
            }
        }
        self.contexts += 1;
        let context = self.contexts;
        settle_declaration::<()>(self.active_mut(), plan, Ok((interval_id, context)))
    }

    fn declare(&mut self, activity: ActivityRef, additive: bool) -> Vec<ActiveActivity> {
        let plan = activate_activity(&self.state, &activity, additive).unwrap();
        self.settle(plan)
    }

    fn finish(&mut self, target: ActivityKey) -> Vec<ActiveActivity> {
        let plan = deactivate_activity(&self.state, &target).unwrap();
        self.settle(plan)
    }

    fn boost(&mut self, percent: Option<i64>) -> Option<i64> {
        let plan = set_skill_boost(&mut self.state, percent).unwrap();
        self.settle(plan.intervals);
        plan.row_mirror
    }

    fn stop(&mut self, now: i64) -> TrackingSession {
        let closing = seal(self.active_mut(), now);
        let ids = self.active().intervals.plan_close_session();
        self.end(&ids);
        self.active_mut().intervals.close_session::<()>(Ok(())).unwrap();
        finish_stop::<()>(&mut self.state, closing, Ok(())).unwrap()
    }

    fn quest_open(&self, quest: i64) -> bool {
        self.active().intervals.open_of_ref(IntervalKind::Quest, quest).is_some()
    }
}

fn quest_activity(quest_id: i64, name: &str) -> ActivityRef {
    ActivityRef::Quest { quest_id, name: name.to_string() }
}

fn segment_activity(name: &str) -> ActivityRef {
    ActivityRef::Segment { name: name.to_string() }
}

/// The standing set's names, in declaration order.
fn names(standing: &[ActiveActivity]) -> Vec<&str> {
    standing.iter().map(|activity| activity.name.as_str()).collect()
}

#[test]
fn a_session_opens_a_context_and_its_declared_modifier() {
    let rig = Rig::started(StartConfig { declared_boost: Some(50), ..config() });
    assert!(rig.active().intervals.context_id().is_some(), "opening context minted");
    assert_eq!(rig.active().intervals.modifier_magnitude(), Some(50 * PERCENT));
    assert_eq!(rig.rows.len(), 1);
    assert_eq!(rig.rows[0].kind.as_str(), "modifier");
    assert_eq!(rig.rows[0].magnitude, Some(50 * PERCENT));
    assert!(!rig.rows[0].ended);
}

#[test]
fn a_session_started_under_a_declared_zero_opens_its_baseline() {
    let rig = Rig::started(StartConfig { declared_boost: Some(0), ..config() });
    assert_eq!(
        rig.active().intervals.modifier_magnitude(),
        Some(0),
        "the declared baseline is in force from the session's first moment"
    );
    assert_eq!(
        rig.active().facets.skill_boost_percent, None,
        "the row mirror cannot hold a zero, and does not pretend to"
    );
    assert_eq!(rig.rows[0].magnitude, Some(0));
}

#[test]
fn a_session_started_under_a_negative_boost_declares_none() {
    let rig = Rig::started(StartConfig { declared_boost: Some(-5), ..config() });
    assert_eq!(rig.active().intervals.modifier_magnitude(), None);
    assert_eq!(rig.active().facets.skill_boost_percent, None);
    assert!(rig.rows.is_empty());
}

#[test]
fn co_activating_quests_stacks_and_closes_one_at_a_time() {
    let mut rig = Rig::started(config());
    let standing = rig.declare(quest_activity(11, "Daily: Carabok"), false);
    assert_eq!(names(&standing), vec!["Daily: Carabok"]);
    let standing = rig.declare(quest_activity(22, "Daily: Monura"), true);
    assert_eq!(
        names(&standing),
        vec!["Daily: Carabok", "Daily: Monura"],
        "declaration order, both standing"
    );
    assert!(rig.quest_open(11));
    assert!(rig.quest_open(22));

    // One finishes; the other keeps running.
    let standing = rig.finish(ActivityKey::Quest(11));
    assert_eq!(names(&standing), vec!["Daily: Monura"]);
    assert!(!rig.quest_open(11), "the completed quest's stretch closed");
    assert!(rig.quest_open(22), "the sibling daily is untouched");

    assert_eq!(rig.rows.len(), 2);
    assert_eq!(rig.rows[0].ref_id, Some(11));
    assert!(rig.rows[0].ended, "the closed stretch carries an end");
    assert_eq!(rig.rows[0].label.as_deref(), Some("Daily: Carabok"));
    assert_eq!(rig.rows[1].ref_id, Some(22));
    assert!(!rig.rows[1].ended, "the running stretch has no end yet");
}

#[test]
fn redeclaring_a_standing_quest_never_splits_its_stretch() {
    let mut rig = Rig::started(config());
    rig.declare(quest_activity(7, "Daily: Repeat"), false);
    rig.declare(quest_activity(7, "Daily: Repeat"), true);
    rig.declare(quest_activity(7, "Daily: Repeat"), false);
    assert_eq!(rig.rows.len(), 1, "one stretch, not two");
    assert!(!rig.rows[0].ended);
}

#[test]
fn the_switch_moves_between_quests_in_one_motion() {
    let mut rig = Rig::started(config());
    rig.declare(quest_activity(11, "Daily: Carabok"), false);
    let standing = rig.declare(quest_activity(22, "Daily: Monura"), false);
    assert_eq!(names(&standing), vec!["Daily: Monura"], "the switch closed the first");
    assert_eq!(rig.rows.len(), 2);
    assert_eq!(rig.rows[0].ref_id, Some(11));
    assert!(rig.rows[0].ended, "the switched-away stretch closed");
    assert_eq!(rig.rows[1].ref_id, Some(22));
    assert!(!rig.rows[1].ended, "the switched-to stretch runs");
}

#[test]
fn the_switch_seals_the_standing_activity_of_either_kind() {
    let mut rig = Rig::started(config());
    rig.declare(segment_activity("Rotation 1"), false);
    let standing = rig.declare(quest_activity(11, "Daily: Carabok"), false);
    assert_eq!(
        names(&standing),
        vec!["Daily: Carabok"],
        "the segment was sealed by the switch onto a quest"
    );
    let standing = rig.declare(segment_activity("Rotation 2"), false);
    assert_eq!(
        names(&standing),
        vec!["Rotation 2"],
        "and the quest stretch by the switch back onto a segment"
    );
    assert!(!rig.quest_open(11));
}

#[test]
fn co_activation_keeps_a_segment_running_inside_a_quest() {
    let mut rig = Rig::started(config());
    rig.declare(quest_activity(11, "Daily: Carabok"), false);
    let standing = rig.declare(segment_activity("Rotation 1"), true);
    assert_eq!(names(&standing), vec!["Daily: Carabok", "Rotation 1"]);
    assert_eq!(
        rig.active()
            .intervals
            .open_of_kind(IntervalKind::Segment)
            .and_then(|interval| interval.label.as_deref()),
        Some("Rotation 1")
    );
    assert!(rig.quest_open(11));
}

#[test]
fn a_context_can_name_a_quest_and_a_modifier_at_once() {
    let mut rig = Rig::started(config());
    rig.boost(Some(50));
    rig.declare(quest_activity(3, "Daily: Overlap"), false);
    assert_eq!(rig.active().intervals.modifier_magnitude(), Some(50 * PERCENT));
    assert!(rig.quest_open(3));
}

#[test]
fn stopping_the_session_closes_a_standing_stretch() {
    let mut rig = Rig::started(config());
    rig.declare(quest_activity(5, "Daily: Unfinished"), false);
    rig.stop(9);
    assert_eq!(rig.rows.iter().filter(|row| !row.ended).count(), 0);
    assert!(!rig.state.is_active());
}

#[test]
fn declaring_outside_a_session_records_nothing() {
    let rig = Rig::idle();
    assert_eq!(
        activate_activity(&rig.state, &quest_activity(1, "Daily: Idle"), false),
        Err(TrackerCommandError::NoActiveSession)
    );
    assert!(rig.rows.is_empty());
}

#[test]
fn a_segment_declaration_seals_the_standing_segment_even_co_activated() {
    let mut rig = Rig::started(config());
    rig.declare(segment_activity("  Boss: Kreltin  "), false);
    rig.declare(segment_activity("Boss: Feffoid"), true);
    let open = rig.active().intervals.open_of_kind(IntervalKind::Segment).unwrap();
    assert_eq!(open.label.as_deref(), Some("Boss: Feffoid"));
    assert_eq!(rig.rows.len(), 2);
    assert_eq!(
        rig.rows[0].label.as_deref(),
        Some("Boss: Kreltin"),
        "the name is kept verbatim, trimmed"
    );
    assert!(rig.rows[0].ended, "the first segment closed on the second's declaration");
    assert_eq!(rig.rows[1].label.as_deref(), Some("Boss: Feffoid"));
    assert!(!rig.rows[1].ended, "the standing segment has no end yet");
}

#[test]
fn ending_a_segment_matches_it_by_name_and_is_idempotent() {
    let mut rig = Rig::started(config());
    rig.declare(segment_activity("Rotation 1"), false);
    let standing = rig.finish(ActivityKey::Segment("Nothing here".into()));
    assert_eq!(
        names(&standing),
        vec!["Rotation 1"],
        "a name nothing is standing under changes nothing"
    );
    let standing = rig.finish(ActivityKey::Segment("rotation 1".into()));
    assert!(standing.is_empty(), "matched case-insensitively, as the control renders it");
    let standing = rig.finish(ActivityKey::Segment("Rotation 1".into()));
    assert!(standing.is_empty(), "and ending it again is a no-op");
}

#[test]
fn segments_are_session_scoped() {
    let idle = Rig::idle();
    assert!(activate_activity(&idle.state, &segment_activity("Idle"), false).is_err());
    assert!(deactivate_activity(&idle.state, &ActivityKey::Segment("Idle".into())).is_err());

    let mut rig = Rig::started(config());
    rig.declare(segment_activity("Rotation 1"), false);
    rig.stop(3);
    assert_eq!(rig.rows.iter().filter(|row| !row.ended).count(), 0);
}

#[test]
fn a_declared_zero_boost_is_distinct_from_no_declaration() {
    let mut rig = Rig::started(config());
    // Nothing declared: no modifier interval at all.
    assert_eq!(rig.active().intervals.modifier_magnitude(), None);
    // Declared unboosted: a real interval carrying zero.
    rig.boost(Some(0));
    assert_eq!(rig.active().intervals.modifier_magnitude(), Some(0));
    // Withdrawn: back to claiming nothing.
    rig.boost(None);
    assert_eq!(rig.active().intervals.modifier_magnitude(), None);
}

#[test]
fn a_boost_redeclaration_lands_on_the_session_row() {
    let mut rig = Rig::started(StartConfig { declared_boost: Some(50), ..config() });
    assert_eq!(rig.boost(Some(25)), Some(25));
    assert_eq!(rig.active().facets.skill_boost_percent, Some(25));
    assert_eq!(rig.boost(Some(0)), None, "the row cannot hold a declared zero");
    assert_eq!(rig.boost(Some(-1)), None);
    assert_eq!(rig.active().intervals.modifier_magnitude(), None);
    assert!(rig.active().dirty);
}

#[test]
fn a_failed_interval_write_leaves_the_declaration_unrecorded() {
    let mut rig = Rig::started(config());
    let plan = activate_activity(&rig.state, &quest_activity(1, "Daily: Lost"), false).unwrap();
    let standing = settle_declaration::<&str>(rig.active_mut(), plan, Err("disk full"));
    assert!(standing.is_empty());
    assert!(!rig.quest_open(1));
}

#[test]
fn session_facet_and_declared_mob_rules() {
    // No session: the declaration commands refuse.
    let mut idle = Rig::idle();
    assert_eq!(
        set_declared_mob(&mut idle.state, "Atrox", "Atrox", "Young"),
        Err(TrackerCommandError::NoActiveSession)
    );
    assert_eq!(
        set_skill_boost(&mut idle.state, Some(25)),
        Err(TrackerCommandError::NoActiveSession)
    );

    // The facets snapshot from the configuration: the name is trimmed, and a
    // non-positive boost reads as no boost at all.
    let mut rig = Rig::started(StartConfig {
        session_name: "  Team Hunt \u{1c}".to_string(),
        declared_boost: Some(50),
        manual_mob: Some(("Atrox".to_string(), "Young".to_string())),
        ..config()
    });
    assert_eq!(rig.active().facets.name.as_deref(), Some("Team Hunt"));
    assert_eq!(rig.active().facets.skill_boost_percent, Some(50));
    // The declared mob is independent of the name: both are in force.
    assert_eq!(rig.active().stamped_mob_name(), Some("Young Atrox"));

    // The two live facets move mid-session independently.
    set_declared_mob(&mut rig.state, "Old Atrox", "Atrox", "Old").unwrap();
    rig.boost(Some(25));
    assert_eq!(rig.active().stamped_mob_name(), Some("Old Atrox"));
    assert_eq!(rig.active().facets.skill_boost_percent, Some(25));
    assert_eq!(rig.active().facets.name.as_deref(), Some("Team Hunt"));

    // A boost that runs out clears to "no boost" rather than zero.
    rig.boost(None);
    assert_eq!(rig.active().facets.skill_boost_percent, None);

    // Releasing clears only the mob; the other facets stand.
    assert_eq!(release_declared_mob(&mut rig.state).as_deref(), Some("Old Atrox"));
    assert_eq!(release_declared_mob(&mut rig.state), None);
    assert_eq!(rig.active().stamped_mob_name(), None);
    assert_eq!(rig.active().facets.name.as_deref(), Some("Team Hunt"));
}

#[test]
fn reload_config_resyncs_the_declared_mob_from_the_live_config() {
    let mut rig = Rig::started(StartConfig {
        session_name: "Team".to_string(),
        manual_mob: Some(("Atrox".to_string(), "Young".to_string())),
        ..config()
    });
    let live = DeclaredMob::from_parts("Atrox".to_string(), "Young".to_string());
    reload_config(rig.active_mut(), Vec::new(), Some(live));
    assert_eq!(rig.active().stamped_mob_name(), Some("Young Atrox"));
    // The name facet is snapshotted at start, so a reload leaves it be.
    assert_eq!(rig.active().facets.name.as_deref(), Some("Team"));
}

#[test]
fn reload_clears_the_declaration_once_the_config_drops_it() {
    let mut rig = Rig::started(StartConfig {
        manual_mob: Some(("Atrox".to_string(), "Young".to_string())),
        ..config()
    });
    assert_eq!(rig.active().stamped_mob_name(), Some("Young Atrox"));
    reload_config(rig.active_mut(), Vec::new(), None);
    assert_eq!(rig.active().stamped_mob_name(), None);
    assert!(rig.active().declared_mob.is_none());
}

#[test]
fn a_mid_session_reload_adopts_the_new_carried_set_and_keeps_the_declared_weapon() {
    let mut rig = Rig::started(config());
    rig.active_mut().attribution.declare("Pistol", 1);
    let carried = CarriedWeapon {
        equipment_id: 4,
        name: "Carbine".to_string(),
        band: None,
        effect: None,
    };
    reload_config(rig.active_mut(), vec![carried], None);
    assert_eq!(rig.active().attribution.declared(), Some("Pistol"));
    assert_eq!(rig.active().attribution.carried().len(), 1);
    assert_eq!(rig.active().attribution.carried()[0].name, "Carbine");
}

#[test]
fn a_blank_configured_name_takes_the_resolved_definition_name() {
    let rig = Rig::started(StartConfig {
        session_name: "   ".to_string(),
        declared_boost: Some(0),
        ..config()
    });
    assert_eq!(rig.active().facets.name.as_deref(), Some("Default Tracking"));
    assert_eq!(rig.active().facets.skill_boost_percent, None);
    assert_eq!(rig.active().stamped_mob_name(), None);
    assert!(rig.active().declared_mob.is_none());
}

#[test]
fn a_stale_definition_selection_falls_through_to_the_default_and_keeps_the_name() {
    let rig = Rig::started(StartConfig { session_name: "Mine".to_string(), ..config() });
    assert_eq!(rig.active().facets.name.as_deref(), Some("Mine"));
    assert_eq!(rig.active().facets.definition_id, Some(1));
}

#[test]
fn protection_costs_are_followed_unless_the_definition_opts_out() {
    let mut opted_out = config();
    opted_out.resolved = Some(ResolvedDefinition {
        id: 2,
        name: "Quiet".to_string(),
        track_protection_costs: false,
    });
    assert!(!Rig::started(opted_out).active().facets.track_protection_costs);
    let mut unresolved = config();
    unresolved.resolved = None;
    let rig = Rig::started(unresolved);
    assert!(rig.active().facets.track_protection_costs);
    assert_eq!(rig.active().facets.name, None);
    assert_eq!(rig.active().facets.definition_id, None);
}

#[test]
fn prime_demo_activates_a_demo_session_and_stamps_its_mob() {
    let mut state = SessionState::Idle;
    assert!(!state.is_active(), "idle before priming");
    let session = TrackingSession {
        id: "demo".to_string(),
        start_time: 1_000_000_000_000,
        end_time: None,
        kills: Vec::new(),
        harvests: Vec::new(),
        dangling_cost: 0,
    };
    prime_demo(
        &mut state,
        session,
        Some(DeclaredMob::from_parts("Atrox".to_string(), String::new())),
        SessionFacets::default(),
    );
    assert!(state.is_active(), "priming activates the session");
    assert_eq!(state.active().unwrap().stamped_mob_name(), Some("Atrox"));
}

#[test]
fn every_session_gets_its_own_id() {
    let first = prepare_session(config(), 5).session;
    let second = prepare_session(config(), 5).session;
    assert_ne!(first.id, second.id);
    assert_eq!(first.id.len(), 36);
    assert_eq!(&first.id[14..15], "4");
    assert_eq!(first.start_time, 5);
    assert!(first.kills.is_empty());
}
