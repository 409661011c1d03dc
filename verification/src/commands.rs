//! The declaration commands on the running session. Each needs a session to
//! act on; each is planned first, stored by the caller, and then settled with
//! what the store answered, so a write that cannot land leaves the declaration
//! unrecorded.

use crate::activities;
use crate::activities::{
    active_activities, plan_activation, plan_deactivation, plan_skill_boost, BoostPlan,
    IntervalPlan, TrackerCommandError,
};
use crate::intervals::{ActiveActivity, ActivityKey, ActivityRef};
use crate::records::DeclaredMob;
use crate::session::{ActiveSession, FacetsView, SessionState};
use crate::text;
use vstd::prelude::*;

verus! {

/// Declare the skill boost now in force. The in-memory facet moves at once;
/// the plan says what the session row and the intervals take.
pub fn set_skill_boost(state: &mut SessionState, percent: Option<i64>) -> (plan: Result<
    BoostPlan,
    TrackerCommandError,
>)
    ensures
        match *old(state) {
            SessionState::Idle => *final(state) is Idle && plan == Err::<
                BoostPlan,
                TrackerCommandError,
            >(TrackerCommandError::NoActiveSession),
            SessionState::Active(before) => {
                &&& plan is Ok
                &&& activities::declares_boost(plan->Ok_0, percent)
                &&& *final(state) matches SessionState::Active(after)
                &&& after.facets@ == (FacetsView {
                    skill_boost_percent: activities::positive_boost(percent),
                    ..before.facets@
                })
                &&& *after == (ActiveSession { facets: after.facets, dirty: true, ..*before })
            },
        },
{
    match state {
        SessionState::Idle => Err(TrackerCommandError::NoActiveSession),
        SessionState::Active(active) => {
            active.facets.set_boost(percent);
            active.dirty = true;
            Ok(plan_skill_boost(percent))
        },
    }
}

/// Declare an activity on the running session.
pub fn activate_activity(state: &SessionState, activity: &ActivityRef, additive: bool) -> (plan:
    Result<IntervalPlan, TrackerCommandError>)
    ensures
        match *state {
            SessionState::Idle => plan == Err::<IntervalPlan, TrackerCommandError>(
                TrackerCommandError::NoActiveSession,
            ),
            SessionState::Active(active) => plan is Ok && activities::activates(
                plan->Ok_0,
                active.intervals@,
                *activity,
                additive,
            ),
        },
{
    match state {
        SessionState::Idle => Err(TrackerCommandError::NoActiveSession),
        SessionState::Active(active) => Ok(plan_activation(&active.intervals, activity, additive)),
    }
}

/// End one standing activity, leaving the others running.
pub fn deactivate_activity(state: &SessionState, target: &ActivityKey) -> (plan: Result<
    IntervalPlan,
    TrackerCommandError,
>)
    ensures
        match *state {
            SessionState::Idle => plan == Err::<IntervalPlan, TrackerCommandError>(
                TrackerCommandError::NoActiveSession,
            ),
            SessionState::Active(active) => plan is Ok && activities::deactivates(
                plan->Ok_0,
                active.intervals@,
                *target,
            ),
        },
{
    match state {
        SessionState::Idle => Err(TrackerCommandError::NoActiveSession),
        SessionState::Active(active) => Ok(plan_deactivation(&active.intervals, target)),
    }
}

/// Settle a planned declaration with what the store answered, and give the
/// activities then in force. A write that did not land leaves the intervals as
/// they were.
pub fn settle_declaration<E>(
    active: &mut ActiveSession,
    plan: IntervalPlan,
    written: Result<(i64, i64), E>,
) -> (standing: Vec<ActiveActivity>)
    ensures
        final(active).intervals@ == plan.adopted(
            old(active).intervals@,
            match written {
                Ok(answer) => Some(answer),
                Err(_) => None,
            },
        ),
        *final(active) == (ActiveSession { intervals: final(active).intervals, ..*old(active) }),
        text::views(standing@) == activities::standing_activities(final(active).intervals@),
{
    let _ = plan.adopt(&mut active.intervals, written);
    active_activities(&active.intervals)
}

/// Immediately set the declared mob for kill stamping. A declaration needs a
/// session to act on.
pub fn set_declared_mob(
    state: &mut SessionState,
    name: &str,
    species: &str,
    maturity: &str,
) -> (outcome: Result<(), TrackerCommandError>)
    ensures
        match *old(state) {
            SessionState::Idle => outcome == Err::<(), TrackerCommandError>(
                TrackerCommandError::NoActiveSession,
            ) && *final(state) is Idle,
            SessionState::Active(before) => {
                &&& outcome is Ok
                &&& *final(state) matches SessionState::Active(after)
                &&& after.declared_mob is Some
                &&& after.declared_mob->0.name@ == name@
                &&& after.declared_mob->0.species@ == species@
                &&& after.declared_mob->0.maturity@ == maturity@
                &&& *after == (ActiveSession { declared_mob: after.declared_mob, ..*before })
            },
        },
{
    match state {
        SessionState::Idle => Err(TrackerCommandError::NoActiveSession),
        SessionState::Active(active) => {
            active.declared_mob = Some(
                DeclaredMob {
                    name: name.to_owned(),
                    species: species.to_owned(),
                    maturity: maturity.to_owned(),
                },
            );
            Ok(())
        },
    }
}

/// Clear the declared mob, giving the released name.
pub fn release_declared_mob(state: &mut SessionState) -> (released: Option<String>)
    ensures
        match *old(state) {
            SessionState::Idle => released is None && *final(state) is Idle,
            SessionState::Active(before) => {
                &&& text::opt_view(released) == (match before.declared_mob {
                    Some(mob) => Some(mob.name@),
                    None => None,
                })
                &&& *final(state) == SessionState::Active(
                    Box::new(ActiveSession { declared_mob: None, ..*before }),
                )
            },
        },
{
    match state {
        SessionState::Idle => None,
        SessionState::Active(active) => {
            let released: Option<String> = match &active.declared_mob {
                Some(mob) => Some(mob.name.clone()),
                None => None,
            };
            active.declared_mob = None;
            released
        },
    }
}

} // verus!
