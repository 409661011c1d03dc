use hunt_tracker::doses::{
    adjust_live_cost, reprice_for_reload, ConsumableProfile, DoseChange,
    DoseEffect, DoseError, DoseOutcome, DoseRecord, DoseRemoval, DoseRuntime, DoseSource,
    DoseStart, LATER_DOSE_RUNS, WAKE_MAX,
};
use hunt_tracker::healing::HealingIntent;
use hunt_tracker::intervals::IntervalKind;
use hunt_tracker::lifecycle::{activate, prepare_session, StartConfig};
use hunt_tracker::phases::HuntingLooterLevels;
use hunt_tracker::session::{ActiveSession, SessionState};
use hunt_tracker::steps::before_message;

const PED: i128 = 1_000_000_000_000;
const SECOND: i64 = 1_000_000_000;
const PERCENT: i64 = 1_000_000_000_000;

fn consumable(
    equipment_id: i64,
    item_name: &str,
    seconds: i64,
    reload: i64,
    tt: i64,
    markup: i64,
) -> DoseStart {
    DoseStart {
        equipment_id,
        item_name: item_name.to_string(),
        profile: ConsumableProfile {
            duration: seconds * SECOND,
            effects: vec![DoseEffect {
                name: "Reload Speed Increased".to_string(),
                magnitude: Some(reload * PERCENT),
                unit: Some("%".to_string()),
            }],
            reload_speed_percent: reload * PERCENT,
            tt_value_ped: tt * PED as i64,
            markup_percent: markup * PERCENT,
            track_cost: true,
        },
    }
}

/// The Adrenaline Boost stimulant: +10% reload speed for an hour, a 3 PED dose
/// bought at 150%.
fn adrenaline() -> DoseStart {
    consumable(40, "Nanobots - Adrenaline Boost", 3600, 10, 3, 150)
}

/// A short, strong dose: +20% for a minute.
fn rush() -> DoseStart {
    consumable(41, "Rush Pill", 60, 20, 1, 100)
}

/// A tracker over a list of stored doses and interval rows.
struct Rig {
    state: SessionState,
    doses: DoseRuntime,
    rows: Vec<DoseRecord>,
    /// The session row's dose cost.
    row_cost: i128,
    /// Each interval row: its id, and when it ended.
    intervals: Vec<(i64, Option<i64>)>,
    now: i64,
}

fn session() -> SessionState {
    let opening = prepare_session(
        StartConfig {
            session_name: String::new(),
            resolved: None,
            declared_boost: None,
            looters: HuntingLooterLevels { animal: 0, mutant: 0, robot: 0 },
            carried: Vec::new(),
            manual_mob: None,
        },
        0,
    );
    let mut state = SessionState::Idle;
    activate(&mut state, opening.session, opening.facets, opening.outfit);
    state.active_mut().unwrap().intervals.open_session::<()>(Ok(1)).unwrap();
    state
}

impl Rig {
    fn idle() -> Rig {
        Rig {
            state: SessionState::Idle,
            doses: DoseRuntime::new(),
            rows: Vec::new(),
            row_cost: 0,
            intervals: Vec::new(),
            now: 0,
        }
    }

    fn started() -> Rig {
        let mut rig = Rig::idle();
        rig.start_session();
        rig
    }

    /// Start a session, with an interval for every dose that runs.
    fn start_session(&mut self) {
        self.state = session();
        for (at, opened) in self.doses.plan_session_intervals(self.now) {
            let id = self.intervals.len() as i64 + 1;
            self.intervals.push((id, None));
            let active = self.state.active_mut().unwrap();
            active
                .intervals
                .transition::<()>(&Vec::new(), Some(opened), Ok((id, 2)))
                .unwrap();
            self.doses.note_interval(at, Some(id));
            let dose = self.doses.running[at].clone();
            self.store(dose);
        }
        self.reprice();
    }

    fn store(&mut self, dose: DoseRecord) {
        match self.rows.iter().position(|row| row.id == dose.id) {
            Some(at) => self.rows[at] = dose,
            None => self.rows.push(dose),
        }
    }

    /// The reload speed the running doses put in effect: the strongest.
    fn reprice(&mut self) {
        let speed = self.doses.consumed_reload_at(self.now).into_iter().max().unwrap_or(0);
        if let Some(active) = self.state.active_mut() {
            let base = match &active.healing.intent {
                Some(intent) => intent.base_reload.unwrap_or(0),
                None => 0,
            };
            let effective = (base as i128 * 100 / (100 + (speed / PERCENT) as i128)) as i64;
            reprice_for_reload(active, speed, effective);
        }
    }

    /// End every dose whose expiry has passed, each at its own expiry.
    fn sweep(&mut self) -> bool {
        let ready = before_message(&mut self.doses, &self.state, self.now, ());
        if !ready.swept {
            return false;
        }
        for (id, at) in ready.endings {
            let active = self.state.active_mut().unwrap();
            active.intervals.close_ids::<()>(vec![id], Ok(3)).unwrap();
            self.intervals.iter_mut().find(|row| row.0 == id).unwrap().1 = Some(at);
        }
        self.reprice();
        true
    }

    fn advance(&mut self, seconds: i64) {
        self.now += seconds * SECOND;
        self.sweep();
    }

    /// Store a change, and adopt it.
    fn settle(&mut self, change: DoseChange) -> DoseRecord {
        let mut opened: Option<i64> = None;
        if let Some(active) = self.state.active_mut() {
            let close: Vec<i64> =
                change.closes.iter().copied().filter(|id| active.intervals.is_open(*id)).collect();
            if !close.is_empty() || change.opens.is_some() {
                for id in &close {
                    self.intervals.iter_mut().find(|row| row.0 == *id).unwrap().1 = Some(self.now);
                }
                let id = self.intervals.len() as i64 + 1;
                if change.opens.is_some() {
                    self.intervals.push((id, None));
                }
                let spec = change.opens.as_ref().map(|_| id);
                let opens = change.opens;
                active.intervals.transition::<()>(&close, opens, Ok((id, 4))).unwrap();
                opened = spec;
                let change = DoseChange { opens: None, ..change };
                return self.finish(change, opened);
            }
        }
        self.finish(change, opened)
    }

    fn finish(&mut self, change: DoseChange, opened: Option<i64>) -> DoseRecord {
        let gives_back = change.gives_back;
        let prior = change.prior.as_ref().map(|prior| prior.id.clone());
        let prior_row = change.prior.clone();
        let dose = self.doses.adopt(change, opened);
        if dose.session_id.is_some() && dose.cost_ped > 0 {
            self.row_cost += if gives_back { -dose.cost_ped } else { dose.cost_ped };
        }
        if let Some(active) = self.state.active_mut() {
            adjust_live_cost(active, &dose, gives_back);
        }
        self.store(dose.clone());
        if let Some(id) = prior {
            let running = self.doses.running.iter().find(|running| running.id == id).cloned();
            self.store(running.unwrap_or(prior_row.unwrap()));
        }
        self.reprice();
        dose
    }

    fn start(&mut self, start: DoseStart, source: DoseSource) -> DoseRecord {
        let place = self
            .state
            .active()
            .map(|active| (active.session.id.clone(), active.intervals.context_id()));
        let change = self.doses.plan_start(&start, source, None, self.now, place);
        self.settle(change)
    }

    fn remove(&mut self, id: &str, by: DoseRemoval) -> Result<DoseRecord, DoseError> {
        match DoseRuntime::plan_remove(&self.rows, id, by, self.now)? {
            DoseOutcome::Unchanged(dose) => Ok(dose),
            DoseOutcome::Change(change) => Ok(self.settle(change)),
        }
    }

    fn restore(&mut self, id: &str, by: DoseRemoval) -> Result<DoseRecord, DoseError> {
        match self.doses.plan_restore(&self.rows, id, by, self.now)? {
            DoseOutcome::Unchanged(dose) => Ok(dose),
            DoseOutcome::Change(change) => Ok(self.settle(change)),
        }
    }

    fn active(&self) -> &ActiveSession {
        self.state.active().unwrap()
    }

    fn reload(&self) -> i64 {
        self.active().reload_speed_percent
    }

    fn open_intervals(&self) -> usize {
        self.intervals.iter().filter(|row| row.1.is_none()).count()
    }

    fn row(&self, id: &str) -> &DoseRecord {
        self.rows.iter().find(|row| row.id == id).unwrap()
    }
}

#[test]
fn a_dose_books_its_cost_once_in_the_running_session_and_stands_as_an_interval() {
    let mut rig = Rig::started();
    let dose = rig.start(adrenaline(), DoseSource::Manual);
    assert_eq!(dose.source, DoseSource::Manual);
    assert_eq!(dose.session_id.as_deref(), Some(rig.active().session.id.as_str()));
    assert_eq!(dose.cost_ped, 4_500_000_000_000);
    assert_eq!(rig.row_cost, 4_500_000_000_000);
    assert_eq!(rig.active().consumable_cost, 4_500_000_000_000);
    assert_eq!(rig.open_intervals(), 1);
    let interval = rig.active().intervals.open_of_kind(IntervalKind::Consumable).unwrap();
    assert_eq!(interval.label.as_deref(), Some("Nanobots - Adrenaline Boost"));
    assert_eq!(interval.ref_id, Some(40));
    assert_eq!(interval.magnitude, Some(10 * PERCENT as i128));
    assert_eq!(dose.expires_at - dose.started_at, 3600 * SECOND);
    assert_eq!(rig.doses.consumed_reload_at(rig.now), vec![10 * PERCENT]);
    assert_eq!(rig.reload(), 10 * PERCENT);
    assert!(rig.active().dirty);
}

#[test]
fn an_untracked_item_or_a_dose_outside_a_session_books_nothing_and_still_counts() {
    let mut rig = Rig::idle();
    // Idle: the dose is recorded with no session and no cost.
    let idle = rig.start(adrenaline(), DoseSource::Manual);
    assert_eq!(idle.session_id, None);
    assert_eq!(idle.cost_ped, 0);
    assert!(idle.cost_tracked);
    assert_eq!(rig.doses.consumed_reload_at(rig.now), vec![10 * PERCENT]);

    // A session starting while it runs prices under it and carries its
    // context.
    rig.start_session();
    assert_eq!(rig.reload(), 10 * PERCENT);
    assert_eq!(rig.open_intervals(), 1);
    assert_eq!(rig.row_cost, 0);

    // Tracking off: recorded, counted, never booked.
    let mut untracked = rush();
    untracked.profile.track_cost = false;
    let dose = rig.start(untracked, DoseSource::Manual);
    assert_eq!(dose.cost_ped, 0);
    assert_eq!(rig.row_cost, 0);
    assert_eq!(rig.reload(), 20 * PERCENT);
}

#[test]
fn a_re_dose_ends_the_running_dose_where_it_starts_and_never_stacks() {
    let mut rig = Rig::started();
    let first = rig.start(adrenaline(), DoseSource::Manual);
    rig.advance(600);
    let second = rig.start(adrenaline(), DoseSource::Manual);
    assert_eq!(second.supersedes_dose_id.as_deref(), Some(first.id.as_str()));
    assert_eq!(rig.row(&first.id).superseded_at, Some(second.started_at));
    // Both doses were taken, so both are paid; their effect never doubles.
    assert_eq!(rig.row_cost, 9 * PED);
    assert_eq!(rig.doses.consumed_reload_at(rig.now), vec![10 * PERCENT]);
    assert_eq!(rig.open_intervals(), 1);
    assert_eq!(rig.intervals.len(), 2);
}

#[test]
fn expiry_ends_a_dose_at_its_absolute_expiry_and_reprices() {
    let mut rig = Rig::started();
    let dose = rig.start(rush(), DoseSource::Manual);
    assert_eq!(rig.reload(), 20 * PERCENT);
    // Well past the expiry before anything wakes the tracker: the interval
    // still ends at the expiry itself.
    rig.now += 95 * SECOND;
    assert!(rig.sweep());
    assert_eq!(rig.intervals[0].1, Some(dose.expires_at));
    assert_eq!(rig.reload(), 0);
    assert!(rig.doses.consumed_reload_at(rig.now).is_empty());
    // A second sweep finds nothing left to end.
    assert!(!rig.sweep());
}

#[test]
fn a_message_meets_no_dose_that_is_over() {
    let mut rig = Rig::started();
    let long = rig.start(adrenaline(), DoseSource::Manual);
    let short = rig.start(rush(), DoseSource::Manual);
    let at = short.expires_at + 5 * SECOND;
    let ready = before_message(&mut rig.doses, &rig.state, at, "press");
    assert_eq!(ready.message, "press");
    assert!(ready.swept);
    assert_eq!(ready.endings, vec![(short.interval_id.unwrap(), short.expires_at)]);
    assert_eq!(rig.doses.running.len(), 1);
    assert_eq!(rig.doses.running[0].id, long.id);
    assert_eq!(rig.doses.consumed_reload_at(at), vec![long.reload_speed_percent]);

    // With no session there is no interval to end; with nothing over, nothing
    // changes.
    let ready = before_message(&mut rig.doses, &SessionState::Idle, at, ());
    assert!(!ready.swept && ready.endings.is_empty());
    let ready = before_message(&mut rig.doses, &SessionState::Idle, long.expires_at, ());
    assert!(ready.swept && ready.endings.is_empty());
    assert!(rig.doses.running.is_empty());
}

#[test]
fn doses_end_in_the_order_of_their_expiries() {
    let mut rig = Rig::started();
    let long = rig.start(adrenaline(), DoseSource::Manual);
    let short = rig.start(rush(), DoseSource::Manual);
    let ended = rig.doses.sweep(4000 * SECOND);
    assert_eq!(
        ended.iter().map(|dose| dose.id.as_str()).collect::<Vec<_>>(),
        vec![short.id.as_str(), long.id.as_str()]
    );
}

#[test]
fn removing_a_dose_takes_back_its_cost_and_effect_and_restore_gives_them_back() {
    let mut rig = Rig::started();
    let first = rig.start(adrenaline(), DoseSource::Manual);
    rig.advance(60);
    let misclick = rig.start(adrenaline(), DoseSource::Manual);
    assert_eq!(rig.row_cost, 9 * PED);

    let removed = rig.remove(&misclick.id, DoseRemoval::Player).unwrap();
    assert!(removed.removed_at.is_some());
    // The misclick's cost comes back off, and the dose it ended runs again to
    // its own expiry.
    assert_eq!(rig.row_cost, 4_500_000_000_000);
    assert_eq!(rig.doses.running.len(), 1);
    assert_eq!(rig.doses.running[0].id, first.id);
    assert_eq!(rig.doses.running[0].expires_at, first.expires_at);
    assert_eq!(rig.open_intervals(), 1);

    // Removing it again changes nothing.
    rig.remove(&misclick.id, DoseRemoval::Player).unwrap();
    assert_eq!(rig.row_cost, 4_500_000_000_000);

    // Restoring is exact: the cost, the early end of the first dose, and one
    // running dose.
    let restored = rig.restore(&misclick.id, DoseRemoval::Player).unwrap();
    assert_eq!(restored.removed_at, None);
    assert_eq!(rig.row_cost, 9 * PED);
    assert_eq!(rig.row(&first.id).superseded_at, Some(misclick.started_at));
    assert_eq!(rig.doses.running.len(), 1);
    assert_eq!(rig.doses.running[0].id, misclick.id);
    assert_eq!(rig.open_intervals(), 1);
    // Restoring a standing dose changes nothing.
    rig.restore(&misclick.id, DoseRemoval::Player).unwrap();
    assert_eq!(rig.row_cost, 9 * PED);
}

#[test]
fn a_restore_is_refused_while_a_later_dose_of_the_item_runs() {
    let mut rig = Rig::started();
    let first = rig.start(adrenaline(), DoseSource::Manual);
    rig.remove(&first.id, DoseRemoval::Player).unwrap();
    rig.advance(30);
    rig.start(adrenaline(), DoseSource::Manual);
    assert_eq!(
        rig.restore(&first.id, DoseRemoval::Player),
        Err(DoseError::Refused(LATER_DOSE_RUNS))
    );
}

#[test]
fn a_dose_is_found_or_it_is_no_dose() {
    let mut rig = Rig::started();
    assert_eq!(rig.remove("nothing", DoseRemoval::Player), Err(DoseError::NotFound));
    assert_eq!(rig.restore("nothing", DoseRemoval::Player), Err(DoseError::NotFound));
    // A chain that names no stored dose is not followed in silence.
    let mut orphan = rig.start(rush(), DoseSource::Manual);
    orphan.supersedes_dose_id = Some("gone".to_string());
    rig.store(orphan.clone());
    assert_eq!(rig.remove(&orphan.id, DoseRemoval::Player), Err(DoseError::NotFound));
}

#[test]
fn a_dose_outlives_a_restart_by_its_persisted_expiry() {
    let mut rig = Rig::started();
    let dose = rig.start(adrenaline(), DoseSource::Manual);
    rig.now += 1200 * SECOND;
    // A fresh process reads the running doses back.
    let now = rig.now;
    let stored: Vec<DoseRecord> =
        rig.rows.iter().filter(|row| row.in_effect_at(now)).cloned().collect();
    rig.doses = DoseRuntime::new();
    rig.doses.restore::<()>(Ok(stored)).unwrap();
    assert_eq!(rig.doses.running.len(), 1);
    assert_eq!(rig.doses.running[0].id, dose.id);
    assert_eq!(rig.doses.running[0].expires_at, dose.expires_at);
    rig.start_session();
    assert_eq!(rig.reload(), 10 * PERCENT);
    // A failed read keeps what memory holds.
    assert_eq!(rig.doses.restore::<&str>(Err("locked")), Err("locked"));
    assert_eq!(rig.doses.running.len(), 1);
}

#[test]
fn a_consumable_hotbar_press_is_the_dose() {
    let mut rig = Rig::started();
    let dose = rig.start(adrenaline(), DoseSource::Hotbar);
    assert_eq!(rig.row(&dose.id).source, DoseSource::Hotbar);
    assert_eq!(rig.row_cost, 4_500_000_000_000);
    assert_eq!(rig.reload(), 10 * PERCENT);
}

#[test]
fn a_dose_shortens_the_held_healers_reload_at_once() {
    let mut rig = Rig::started();
    rig.state.active_mut().unwrap().healing.intent = Some(HealingIntent {
        equipment_id: 7,
        tool_name: "FAP".to_string(),
        reload: 2_500_000_000,
        base_reload: Some(2_500_000_000),
        reload_speed_percent: Some(0),
        effective_reload: Some(2_500_000_000),
    });
    rig.start(rush(), DoseSource::Manual);
    let intent = rig.active().healing.intent.as_ref().unwrap();
    // 2.5 seconds at +20%.
    assert_eq!(intent.reload, 2_083_333_333);
    assert_eq!(intent.reload_speed_percent, Some(20 * PERCENT));
    assert_eq!(intent.effective_reload, Some(2_083_333_333));
    // A healer without a base reload stays as it is.
    let intent = rig.state.active_mut().unwrap().healing.intent.as_mut().unwrap();
    intent.base_reload = None;
    intent.apply_reload_speed(0, 9);
    assert_eq!(intent.reload, 2_083_333_333);
}

#[test]
fn a_heal_with_an_on_use_buff_opens_a_dose_the_player_cannot_remove() {
    let mut rig = Rig::started();
    let mut buff = consumable(9, "Eir Mk 1", 8, 10, 0, 0);
    buff.profile.track_cost = false;
    let dose = rig.start(buff, DoseSource::OnUse);
    assert_eq!(dose.source, DoseSource::OnUse);
    assert_eq!(dose.expires_at - dose.started_at, 8 * SECOND);
    // The heal carries the cost; the buff books none and opens no interval.
    assert_eq!(rig.row_cost, 0);
    assert_eq!(rig.open_intervals(), 0);
    assert_eq!(rig.reload(), 10 * PERCENT);
    assert!(matches!(
        rig.remove(&dose.id, DoseRemoval::Player),
        Err(DoseError::Refused(_))
    ));
    // A correction of the heal removes it, and only it restores it.
    rig.remove(&dose.id, DoseRemoval::Correction).unwrap();
    assert!(matches!(
        rig.restore(&dose.id, DoseRemoval::Player),
        Err(DoseError::Refused(_))
    ));
    rig.restore(&dose.id, DoseRemoval::Correction).unwrap();
    assert_eq!(rig.reload(), 10 * PERCENT);
}

#[test]
fn the_wake_up_comes_a_moment_after_the_next_end() {
    let mut rig = Rig::idle();
    assert_eq!(rig.doses.next_wake(0), None);
    rig.start(adrenaline(), DoseSource::Manual);
    rig.start(rush(), DoseSource::Manual);
    assert_eq!(rig.doses.next_wake(0), Some(60 * SECOND + 50_000_000));
    assert_eq!(rig.doses.next_wake(61 * SECOND), Some(3539 * SECOND + 50_000_000));
    assert_eq!(rig.doses.next_wake(3600 * SECOND), None);
    // A long wait re-arms on waking.
    let mut week = adrenaline();
    week.profile.duration = 7 * 24 * 3600 * SECOND;
    let mut rig = Rig::idle();
    rig.start(week, DoseSource::Manual);
    assert_eq!(rig.doses.next_wake(0), Some(WAKE_MAX));
}

#[test]
fn a_speed_that_did_not_move_changes_nothing() {
    let mut rig = Rig::started();
    let active = rig.state.active_mut().unwrap();
    active.dirty = false;
    assert!(!reprice_for_reload(active, 999, 0), "within the tolerance");
    assert!(!active.dirty);
    assert!(reprice_for_reload(active, 1000, 0), "the tolerance is strict");
    assert!(active.dirty);
    assert_eq!(active.reload_speed_percent, 1000);
}

/// However doses of two items are started, removed, restored, and left to
/// expire, the session's dose cost is exactly what its standing doses booked,
/// the live total agrees with the row, and at most one dose of an item runs at
/// a time.
#[test]
fn a_sessions_dose_cost_is_exactly_its_standing_doses() {
    let mut rig = Rig::started();
    let mut ids: Vec<String> = Vec::new();
    let mut seed: u64 = 99;
    for _ in 0..400 {
        seed = seed.wrapping_mul(6364136223846793005).wrapping_add(1442695040888963407);
        let roll = (seed >> 33) as usize;
        let pick = (roll / 8) % ids.len().max(1);
        match roll % 8 {
            0 => ids.push(rig.start(adrenaline(), DoseSource::Manual).id),
            1 => ids.push(rig.start(rush(), DoseSource::Manual).id),
            2 | 3 if !ids.is_empty() => {
                let _ = rig.remove(&ids[pick].clone(), DoseRemoval::Player);
            }
            4 | 5 if !ids.is_empty() => {
                let _ = rig.restore(&ids[pick].clone(), DoseRemoval::Player);
            }
            _ => rig.advance((roll / 8 % 120) as i64 + 1),
        }
        let booked: i128 = rig
            .rows
            .iter()
            .filter(|row| row.removed_at.is_none())
            .map(|row| row.cost_ped)
            .sum();
        assert_eq!(booked, rig.row_cost);
        assert_eq!(rig.active().consumable_cost, rig.row_cost);
        for item in [40, 41] {
            let running = rig
                .doses
                .running
                .iter()
                .filter(|dose| dose.equipment_id == Some(item) && dose.in_effect_at(rig.now))
                .count();
            assert!(running <= 1);
        }
    }
    assert!(ids.len() > 50);
}
