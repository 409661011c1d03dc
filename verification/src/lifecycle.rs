//! The session lifecycle: what starting, stopping and recovering a session
//! decides, and the declarations that move while one runs.

use crate::activities;
use crate::activities::{boost_interval, usable_boost};
use crate::attribution::{AttributionCounts, CarriedWeapon};
use crate::evidence::{copy_rows, ShotEvidence};
use crate::ids;
use crate::ids::fresh_id;
use crate::intervals::{CloseScope, IntervalKind, IntervalSpec};
use crate::phases;
use crate::phases::HuntingLooterLevels;
use crate::records;
use crate::records::{DeclaredMob, TrackedView, TrackingSession};
use crate::regime::RuntimeView;
use crate::session;
use crate::session::{
    AccumulatorView, ActiveSession, ResolvedDefinition, SessionFacets, SessionState,
};
use crate::text;
use crate::text::copy_optional;
use crate::units;
use crate::units::{round_half_even, TEN_THOUSANDTH, WHOLE};
use vstd::prelude::*;

verus! {

/// A session that just started: its id and instant, and nothing in it.
pub open spec fn fresh_session(id: Seq<char>, now: i64) -> TrackedView {
    TrackedView {
        id,
        start_time: now,
        end_time: None,
        kills: Seq::empty(),
        harvests: Seq::empty(),
        dangling_cost: 0,
    }
}

/// A session that starts now, under an id.
pub fn new_session_with_id(id: String, now: i64) -> (session: TrackingSession)
    ensures
        session@ == fresh_session(id@, now),
{
    let session = TrackingSession {
        id,
        start_time: now,
        end_time: None,
        kills: Vec::new(),
        harvests: Vec::new(),
        dangling_cost: 0,
    };
    assert(session@ =~= fresh_session(id@, now));
    session
}

/// A session that starts now, under a fresh id.
pub fn new_session(now: i64) -> (session: TrackingSession)
    ensures
        ids::id_shape(session@.id),
        session@ == fresh_session(session@.id, now),
{
    new_session_with_id(fresh_id(), now)
}

/// What a session starts with beside its facets.
#[derive(Debug, PartialEq, Eq)]
pub struct Outfit {
    pub looters: HuntingLooterLevels,
    pub carried: Vec<CarriedWeapon>,
    pub declared_mob: Option<DeclaredMob>,
}

/// What a session starts from: the live configuration as it reads at that
/// moment.
#[derive(Debug, PartialEq, Eq)]
pub struct StartConfig {
    pub session_name: String,
    pub resolved: Option<ResolvedDefinition>,
    pub declared_boost: Option<i64>,
    pub looters: HuntingLooterLevels,
    pub carried: Vec<CarriedWeapon>,
    /// The declared (species, maturity), when one is configured.
    pub manual_mob: Option<(String, String)>,
}

/// A session about to start: what is stored of it, and what it is activated
/// with once it is.
#[derive(Debug, PartialEq, Eq)]
pub struct SessionOpening {
    pub session: TrackingSession,
    pub facets: SessionFacets,
    pub outfit: Outfit,
    /// The interval it opens under its declared boost.
    pub interval: Option<IntervalSpec>,
}

impl SessionOpening {
    /// Whether the opening takes everything from the configuration.
    pub open spec fn of(self, config: StartConfig, now: i64) -> bool {
        &&& self.session@ == fresh_session(self.session@.id, now)
        &&& self.facets@ == session::opening_facets(
            config.session_name@,
            config.resolved,
            config.declared_boost,
        )
        &&& self.outfit.looters == config.looters
        &&& self.outfit.carried == config.carried
        &&& match config.manual_mob {
            Some((species, maturity)) => {
                &&& self.outfit.declared_mob is Some
                &&& self.outfit.declared_mob->0.name@ == records::mob_name(species@, maturity@)
                &&& self.outfit.declared_mob->0.species == species
                &&& self.outfit.declared_mob->0.maturity == maturity
            },
            None => self.outfit.declared_mob is None,
        }
        &&& self.interval == opening_boost(config.declared_boost)
    }
}

/// The interval a session opens under its declared boost: a declaration of
/// zero is one, a negative one is none.
pub open spec fn opening_boost(declared_boost: Option<i64>) -> Option<IntervalSpec> {
    match activities::valid_boost(declared_boost) {
        Some(percent) => Some(
            IntervalSpec {
                kind: IntervalKind::Modifier,
                label: None,
                ref_id: None,
                magnitude: Some(activities::boost_magnitude(percent)),
                closes: CloseScope::SameKind,
            },
        ),
        None => None,
    }
}

/// Prepare a session from the live configuration, under a fresh id.
pub fn prepare_session(config: StartConfig, now: i64) -> (opening: SessionOpening)
    ensures
        opening.of(config, now),
        ids::id_shape(opening.session@.id),
{
    let facets = SessionFacets::at_start(
        config.session_name.as_str(),
        &config.resolved,
        config.declared_boost,
    );
    let interval: Option<IntervalSpec> = match usable_boost(config.declared_boost) {
        Some(percent) => Some(boost_interval(percent)),
        None => None,
    };
    let declared_mob: Option<DeclaredMob> = match config.manual_mob {
        Some((species, maturity)) => Some(DeclaredMob::from_parts(species, maturity)),
        None => None,
    };
    SessionOpening {
        session: new_session(now),
        facets,
        outfit: Outfit { looters: config.looters, carried: config.carried, declared_mob },
        interval,
    }
}

/// Activate a stored session. The fresh payload is the session reset: every
/// session-scoped field starts at its documented initial state, whatever stood
/// before.
pub fn activate(
    state: &mut SessionState,
    session: TrackingSession,
    facets: SessionFacets,
    outfit: Outfit,
)
    ensures
        match *final(state) {
            SessionState::Active(active) => {
                &&& active.starts(
                    session,
                    facets,
                    outfit.looters,
                    text::views(outfit.carried@),
                    Seq::empty(),
                    outfit.declared_mob,
                )
                &&& active.wf()
            },
            SessionState::Idle => false,
        },
{
    let mut active = ActiveSession::new(session, facets);
    active.hunting_looters = outfit.looters;
    active.attribution.set_carried(outfit.carried);
    active.declared_mob = outfit.declared_mob;
    *state = SessionState::Active(Box::new(active));
}

/// Prime the tracker with a fully-formed demo session: live at once, with its
/// declared mob.
pub fn prime_demo(
    state: &mut SessionState,
    session: TrackingSession,
    declared_mob: Option<DeclaredMob>,
    facets: SessionFacets,
)
    ensures
        match *final(state) {
            SessionState::Active(active) => {
                &&& active.starts(
                    session,
                    facets,
                    HuntingLooterLevels::unskilled(),
                    Seq::empty(),
                    Seq::empty(),
                    declared_mob,
                )
                &&& active.wf()
            },
            SessionState::Idle => false,
        },
{
    let mut active = ActiveSession::new(session, facets);
    active.declared_mob = declared_mob;
    *state = SessionState::Active(Box::new(active));
}

/// Bring the running session back in step with the live configuration: the
/// carried weapons and the declared mob.
pub fn reload_config(
    active: &mut ActiveSession,
    carried: Vec<CarriedWeapon>,
    declared_mob: Option<DeclaredMob>,
)
    ensures
        final(active).declared_mob == declared_mob,
        *final(active) == (ActiveSession {
            declared_mob,
            attribution: final(active).attribution,
            ..*old(active)
        }),
        old(active).attribution@.wf() ==> final(active).attribution@.wf(),
        final(active).attribution@ == (RuntimeView {
            carried: text::views(carried@),
            ..old(active).attribution@
        }),
{
    active.attribution.set_carried(carried);
    active.declared_mob = declared_mob;
}

/// What stopping a session stores.
#[derive(Debug, PartialEq, Eq)]
pub struct SessionClosing {
    pub session: TrackingSession,
    pub heal_cost: i128,
    pub session_name: Option<String>,
    pub skill_boost_percent: Option<i64>,
    /// Evidence of the shots after the last kill, which settles with the
    /// session's dangling cost.
    pub evidence: Vec<ShotEvidence>,
    pub counts: AttributionCounts,
}

/// A session as it ends: stamped with its end, the shots since its last kill and
/// their enhancers left as its dangling cost.
pub open spec fn ended_session(
    session: TrackedView,
    pending: AccumulatorView,
    now: i64,
) -> TrackedView {
    TrackedView {
        end_time: Some(now),
        dangling_cost: (phases::total_cost(pending.tool_stats) + pending.enhancer_cost) as i128,
        ..session
    }
}

/// Stamp a session's end: its shots since the last kill are its dangling cost.
/// Gives what is to be stored; the session stays live until it is.
pub fn seal(active: &mut ActiveSession, now: i64) -> (closing: SessionClosing)
    requires
        old(active).wf(),
        i128::MIN <= phases::total_cost(old(active).accumulator@.tool_stats) + old(
            active,
        ).accumulator@.enhancer_cost <= i128::MAX,
    ensures
        final(active).session@ == ended_session(
            old(active).session@,
            old(active).accumulator@,
            now,
        ),
        *final(active) == (ActiveSession { session: final(active).session, ..*old(active) }),
        closing.session@ == final(active).session@,
        closing.heal_cost == old(active).heal_cost,
        text::opt_view(closing.session_name) == old(active).facets@.name,
        closing.skill_boost_percent == old(active).facets@.skill_boost_percent,
        text::views(closing.evidence@) == old(active).accumulator@.evidence,
        closing.counts == old(active).attribution@.counts,
{
    let dangling: i128 = active.accumulator.total_cost();
    active.session.end_time = Some(now);
    active.session.dangling_cost = dangling;
    SessionClosing {
        session: active.session.clone(),
        heal_cost: active.heal_cost,
        session_name: copy_optional(&active.facets.name),
        skill_boost_percent: active.facets.skill_boost_percent,
        evidence: copy_rows(&active.accumulator.evidence),
        counts: active.attribution.counts(),
    }
}

/// Finish a stop. Once everything is stored the live session is dropped
/// wholesale, so nothing of it can survive into the next; a stop that could
/// not be stored leaves it live.
pub fn finish_stop<E>(
    state: &mut SessionState,
    closing: SessionClosing,
    written: Result<(), E>,
) -> (outcome: Result<TrackingSession, E>)
    ensures
        match written {
            Ok(_) => *final(state) is Idle && outcome == Ok::<TrackingSession, E>(closing.session),
            Err(error) => *final(state) == *old(state) && outcome == Err::<TrackingSession, E>(
                error,
            ),
        },
{
    match written {
        Ok(_) => {
            *state = SessionState::Idle;
            Ok(closing.session)
        },
        Err(error) => Err(error),
    }
}

/// Whether a settled tick changed the live readout; the change is then taken
/// up, so one tick is announced once.
pub fn take_dirty(active: &mut ActiveSession) -> (changed: bool)
    ensures
        changed == old(active).dirty,
        *final(active) == (ActiveSession { dirty: false, ..*old(active) }),
{
    let changed = active.dirty;
    active.dirty = false;
    changed
}

/// The end of a session left open: its latest kill or healing output, or its
/// start where there is none, or only one at the epoch.
pub open spec fn left_open_until(latest: Option<i64>, started_at: i64) -> i64 {
    if latest is Some && latest->0 != 0 {
        latest->0
    } else {
        started_at
    }
}

/// When a session left open by a crash ended: at its latest kill or healing
/// output, or where there is none, or only one at the epoch, at its start.
pub fn orphan_end(latest: Option<i64>, started_at: i64) -> (ended_at: i64)
    ensures
        ended_at == left_open_until(latest, started_at),
{
    match latest {
        Some(latest) => if latest != 0 {
            latest
        } else {
            started_at
        },
        None => started_at,
    }
}

/// What enhancer-break Shrapnel gives back: its value to four decimals, where it
/// is worth anything.
pub open spec fn rebate_of(value: int) -> Option<int> {
    if value > 0 {
        Some(units::rounded(value, TEN_THOUSANDTH as int))
    } else {
        None
    }
}

/// The session-end rebate on enhancer-break Shrapnel: its full value, to four
/// decimals, where there is any.
pub fn enhancer_rebate(value: i128) -> (rebate: Option<i128>)
    requires
        value <= i128::MAX - WHOLE,
    ensures
        match rebate {
            Some(rebate) => rebate_of(value as int) == Some(rebate as int),
            None => rebate_of(value as int) is None,
        },
{
    if value <= 0 {
        None
    } else {
        Some(round_half_even(value, TEN_THOUSANDTH))
    }
}

} // verus!
