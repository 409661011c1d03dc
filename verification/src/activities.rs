//! The Activities control and the skill-boost declaration: what a command
//! does to the session's intervals.
//!
//! A command is planned from the live state, the plan is written, and the
//! answer is adopted. A write that cannot land leaves the declaration
//! unrecorded, and the returned set echoes the state actually in force.

use crate::intervals;
use crate::intervals::{
    activity_kinds, ActiveActivity, ActivityKey, ActivityRef, ActivityView, CloseScope,
    CloseTarget, IntervalKind, IntervalSpec, IntervalState, IntervalView, IntervalsView,
    OpenInterval,
};
use crate::lists;
use crate::text;
use crate::text::strip;
use crate::units::WHOLE;
use vstd::prelude::*;

verus! {

/// Why a declaration command could not act: it needs a session to act on.
#[derive(Clone, Copy, Debug, PartialEq, Eq, Structural)]
pub enum TrackerCommandError {
    NoActiveSession,
}

impl TrackerCommandError {
    /// The words shown for it.
    pub fn message(&self) -> (words: &'static str)
        ensures
            words@ == "No active session"@,
    {
        match self {
            TrackerCommandError::NoActiveSession => "No active session",
        }
    }
}

/// What a command does to the intervals.
#[derive(Debug, PartialEq, Eq)]
pub enum IntervalPlan {
    /// Nothing: the declaration already stands.
    Nothing,
    /// End what the target picks.
    Close(CloseTarget),
    /// Open an interval.
    Open(IntervalSpec),
}

impl IntervalPlan {
    /// The state after the plan's write answered with an interval id and a
    /// context id, or failed.
    pub open spec fn adopted(
        self,
        state: IntervalsView,
        answered: Option<(i64, i64)>,
    ) -> IntervalsView {
        match (self, answered) {
            (IntervalPlan::Close(target), Some((_, context_id))) => {
                let closing = state.picked(target.test());
                if closing.len() == 0 {
                    state
                } else {
                    state.transitioned(closing, None, context_id)
                }
            },
            (IntervalPlan::Open(opened), Some((interval_id, context_id))) => state.transitioned(
                state.sealing(opened),
                Some(intervals::interval_of(opened, interval_id)),
                context_id,
            ),
            _ => state,
        }
    }

    /// Adopt what the plan's write answered; a failed write changes nothing.
    pub fn adopt<E>(self, state: &mut IntervalState, written: Result<(i64, i64), E>) -> (landed:
        bool)
        ensures
            landed == (self is Nothing || written is Ok || (self is Close && old(state)@.picked(
                self->Close_0.test(),
            ).len() == 0)),
            final(state)@ == self.adopted(
                old(state)@,
                match written {
                    Ok(answer) => Some(answer),
                    Err(_) => None,
                },
            ),
    {
        match self {
            IntervalPlan::Nothing => true,
            IntervalPlan::Close(target) => {
                let context: Result<i64, E> = match written {
                    Ok((_, context_id)) => Ok(context_id),
                    Err(error) => Err(error),
                };
                match state.close_matching(&target, context) {
                    Ok(_) => true,
                    Err(_) => false,
                }
            },
            IntervalPlan::Open(opened) => match state.open_interval(opened, written) {
                Ok(_) => true,
                Err(_) => false,
            },
        }
    }
}

/// The name an activity is declared under: a quest's name as given, a
/// segment's without surrounding white space.
pub open spec fn declared_label(activity: ActivityRef) -> Seq<char> {
    match activity {
        ActivityRef::Quest { name, .. } => name@,
        ActivityRef::Segment { name } => text::stripped(name@, false),
    }
}

/// The kind of stretch an activity opens.
pub open spec fn declared_kind(activity: ActivityRef) -> IntervalKind {
    match activity {
        ActivityRef::Quest { .. } => IntervalKind::Quest,
        ActivityRef::Segment { .. } => IntervalKind::Segment,
    }
}

/// The stretch of an activity that already stands: a quest's by the quest, a
/// segment's by its name, ASCII case aside.
pub open spec fn standing_stretch(state: IntervalsView, activity: ActivityRef) -> Option<
    IntervalView,
> {
    match activity {
        ActivityRef::Quest { quest_id, .. } => intervals::first_of(
            state.open,
            intervals::of_ref(IntervalKind::Quest, quest_id),
        ),
        ActivityRef::Segment { .. } => intervals::first_of(
            state.open,
            intervals::of_label(IntervalKind::Segment, declared_label(activity)),
        ),
    }
}

/// What an opening of this activity seals: nothing for a quest joining
/// others, the previous segment for a segment joining others, every activity
/// for a switch.
pub open spec fn declared_scope(closes: CloseScope, activity: ActivityRef, additive: bool) -> bool {
    if additive {
        match activity {
            ActivityRef::Quest { .. } => closes is Nothing,
            ActivityRef::Segment { .. } => closes is SameKind,
        }
    } else {
        closes is Kinds && closes->Kinds_0@ == seq![IntervalKind::Quest, IntervalKind::Segment]
    }
}

/// Whether a plan is what declaring an activity does: nothing or a seal of the
/// others where the activity already stands, else the opening of its stretch.
pub open spec fn activates(
    plan: IntervalPlan,
    state: IntervalsView,
    activity: ActivityRef,
    additive: bool,
) -> bool {
    match standing_stretch(state, activity) {
        Some(standing) => if additive {
            plan is Nothing
        } else {
            &&& plan is Close
            &&& plan->Close_0 is KindsExceptId
            &&& plan->Close_0->KindsExceptId_0@ == seq![
                IntervalKind::Quest,
                IntervalKind::Segment,
            ]
            &&& plan->Close_0->KindsExceptId_1 == standing.id
        },
        None => {
            &&& plan is Open
            &&& plan->Open_0.kind == declared_kind(activity)
            &&& text::opt_view(plan->Open_0.label) == Some(declared_label(activity))
            &&& plan->Open_0.ref_id == (match activity {
                ActivityRef::Quest { quest_id, .. } => Some(quest_id),
                ActivityRef::Segment { .. } => None,
            })
            &&& plan->Open_0.magnitude is None
            &&& declared_scope(plan->Open_0.closes, activity, additive)
        },
    }
}

/// What declaring an activity does.
///
/// The default is the one-tap switch, exclusive across both activity kinds: a
/// tap means "this is what I am doing now". `additive` is the deliberate
/// co-activation, and there each kind keeps its own standing rule: quests
/// stack, while a segment still seals the previous segment.
///
/// An already-standing activity never grows a duplicate stretch: the additive
/// re-declaration is nothing, and the exclusive one seals only the others.
pub fn plan_activation(state: &IntervalState, activity: &ActivityRef, additive: bool) -> (plan:
    IntervalPlan)
    ensures
        activates(plan, state@, *activity, additive),
{
    let (kind, ref_id, label): (IntervalKind, Option<i64>, String) = match activity {
        ActivityRef::Quest { quest_id, name } => (
            IntervalKind::Quest,
            Some(*quest_id),
            name.clone(),
        ),
        ActivityRef::Segment { name } => (
            IntervalKind::Segment,
            None,
            strip(name.as_str(), false),
        ),
    };
    let standing: Option<i64> = {
        let found: Option<&OpenInterval> = match activity {
            ActivityRef::Quest { quest_id, .. } => state.open_of_ref(
                IntervalKind::Quest,
                *quest_id,
            ),
            ActivityRef::Segment { .. } => state.open_of_label(
                IntervalKind::Segment,
                label.as_str(),
            ),
        };
        match found {
            Some(interval) => Some(interval.id),
            None => None,
        }
    };
    match standing {
        Some(keep_id) => if additive {
            IntervalPlan::Nothing
        } else {
            IntervalPlan::Close(CloseTarget::KindsExceptId(activity_kinds(), keep_id))
        },
        None => {
            let opened = IntervalSpec::new(kind).label(Some(label)).ref_id(ref_id);
            // Co-activation keeps each kind's own standing rule; the switch
            // seals every activity, whichever kind it is.
            let opened = if additive {
                match kind {
                    IntervalKind::Quest => opened.stacking(),
                    _ => opened,
                }
            } else {
                opened.closes(CloseScope::Kinds(activity_kinds()))
            };
            IntervalPlan::Open(opened)
        },
    }
}

/// Whether a plan is what ending an activity does.
pub open spec fn deactivates(
    plan: IntervalPlan,
    state: IntervalsView,
    target: ActivityKey,
) -> bool {
    match target {
        ActivityKey::Quest(quest_id) => plan == IntervalPlan::Close(
            CloseTarget::Ref(IntervalKind::Quest, quest_id),
        ),
        ActivityKey::Segment(name) => match intervals::first_of(
            state.open,
            intervals::of_label(IntervalKind::Segment, name@),
        ) {
            Some(interval) => {
                &&& plan is Close
                &&& plan->Close_0 is Ids
                &&& plan->Close_0->Ids_0@ == seq![interval.id]
            },
            None => plan is Nothing,
        },
    }
}

/// What ending one standing activity does: a quest's stretches end by the
/// quest, a segment's first stretch by its name. Ending one that is not
/// standing is nothing, so a stale control cannot fail the user.
pub fn plan_deactivation(state: &IntervalState, target: &ActivityKey) -> (plan: IntervalPlan)
    ensures
        deactivates(plan, state@, *target),
{
    match target {
        ActivityKey::Quest(quest_id) => IntervalPlan::Close(
            CloseTarget::Ref(IntervalKind::Quest, *quest_id),
        ),
        ActivityKey::Segment(name) => match state.open_of_label(
            IntervalKind::Segment,
            name.as_str(),
        ) {
            Some(interval) => {
                let mut ids: Vec<i64> = Vec::new();
                ids.push(interval.id);
                assert(ids@ =~= seq![interval.id]);
                IntervalPlan::Close(CloseTarget::Ids(ids))
            },
            None => IntervalPlan::Nothing,
        },
    }
}

/// The labelled activity intervals, as a test.
pub open spec fn shown_activity() -> spec_fn(IntervalView) -> bool {
    |interval: IntervalView| intervals::is_activity(interval.kind) && interval.label is Some
}

/// The chips of a run of intervals.
pub open spec fn chips(run: Seq<IntervalView>) -> Seq<ActivityView> {
    Seq::new(
        run.len(),
        |i: int|
            ActivityView { kind: run[i].kind, name: run[i].label->0, quest_id: run[i].ref_id },
    )
}

/// The standing activities, in the order they were opened.
pub open spec fn standing_activities(state: IntervalsView) -> Seq<ActivityView> {
    chips(
        state.open.filter(
            intervals::of_kinds(seq![IntervalKind::Quest, IntervalKind::Segment]),
        ).filter(shown_activity()),
    )
}

/// The standing activities, in the order they were opened: the ack every
/// Activities transition echoes. Opening order rather than recency, because
/// these render as a row of chips and a chip must not jump when another joins
/// it.
pub fn active_activities(state: &IntervalState) -> (activities: Vec<ActiveActivity>)
    ensures
        text::views(activities@) == standing_activities(state@),
{
    let open = state.open_of_kinds(&activity_kinds());
    let ghost all = text::views(open@);
    let ghost keep = shown_activity();
    let ghost kinds = intervals::of_kinds(seq![IntervalKind::Quest, IntervalKind::Segment]);
    let mut activities: Vec<ActiveActivity> = Vec::new();
    let mut i: usize = 0;
    proof {
        lists::filter_none(all, keep);
        lists::filter_kept(state@.open, kinds);
        assert(seq![IntervalKind::Quest, IntervalKind::Segment][0] == IntervalKind::Quest);
    }
    while i < open.len()
        invariant
            i <= open.len(),
            all == text::views(open@),
            all == state@.open.filter(kinds),
            keep == shown_activity(),
            kinds == intervals::of_kinds(seq![IntervalKind::Quest, IntervalKind::Segment]),
            forall|j: int| 0 <= j < all.len() ==> kinds(#[trigger] all[j]),
            text::views(activities@) =~= chips(all.take(i as int).filter(keep)),
        decreases open.len() - i,
    {
        let interval = &open[i];
        let ghost had = all.take(i as int).filter(keep);
        let ghost shown = text::views(activities@);
        proof {
            lists::filter_step(all, i as int, keep);
            assert(all[i as int] == interval@);
            assert(kinds(all[i as int]));
            assert(intervals::is_activity(interval.kind));
        }
        if let Some(label) = &interval.label {
            let chip = ActiveActivity {
                kind: interval.kind,
                name: label.clone(),
                quest_id: interval.ref_id,
            };
            let ghost seen = chip@;
            activities.push(chip);
            proof {
                assert(text::views(activities@) =~= shown.push(seen));
                assert(chips(had.push(all[i as int])) =~= chips(had).push(seen));
            }
        }
        i += 1;
    }
    proof {
        lists::filter_all(all, keep);
    }
    activities
}

/// A declared boost as a magnitude.
pub open spec fn boost_magnitude(percent: i64) -> i128 {
    (percent * WHOLE) as i128
}

/// What a skill-boost declaration moves: the facet and its row mirror, which
/// hold a positive boost or nothing, and the interval, which holds the full
/// declaration.
#[derive(Debug, PartialEq, Eq)]
pub struct BoostPlan {
    pub row_mirror: Option<i64>,
    pub intervals: IntervalPlan,
}

/// A declaration with the negative ones withdrawn.
pub open spec fn valid_boost(percent: Option<i64>) -> Option<i64> {
    if percent is Some && percent->0 >= 0 {
        percent
    } else {
        None
    }
}

/// The boost a session row can hold: a positive one.
pub open spec fn positive_boost(percent: Option<i64>) -> Option<i64> {
    if percent is Some && percent->0 > 0 {
        percent
    } else {
        None
    }
}

/// A declaration with the negative ones withdrawn.
pub fn usable_boost(percent: Option<i64>) -> (usable: Option<i64>)
    ensures
        usable == valid_boost(percent),
{
    match percent {
        Some(value) => if value >= 0 {
            Some(value)
        } else {
            None
        },
        None => None,
    }
}

/// The boost a session row can hold: a positive one.
pub fn row_boost(percent: Option<i64>) -> (row: Option<i64>)
    ensures
        row == positive_boost(percent),
{
    match percent {
        Some(value) => if value > 0 {
            Some(value)
        } else {
            None
        },
        None => None,
    }
}

/// The interval a declared boost opens.
pub fn boost_interval(percent: i64) -> (opened: IntervalSpec)
    ensures
        opened == (IntervalSpec {
            kind: IntervalKind::Modifier,
            label: None,
            ref_id: None,
            magnitude: Some(boost_magnitude(percent)),
            closes: CloseScope::SameKind,
        }),
        boost_magnitude(percent) == percent * WHOLE,
{
    IntervalSpec::new(IntervalKind::Modifier).magnitude(Some(percent as i128 * WHOLE as i128))
}

/// Whether a plan is what declaring a boost does: the row mirrors a positive
/// boost, and the interval holds the full declaration, or ends with it.
pub open spec fn declares_boost(plan: BoostPlan, percent: Option<i64>) -> bool {
    &&& plan.row_mirror == positive_boost(percent)
    &&& match valid_boost(percent) {
        Some(value) => plan.intervals == IntervalPlan::Open(
            IntervalSpec {
                kind: IntervalKind::Modifier,
                label: None,
                ref_id: None,
                magnitude: Some(boost_magnitude(value)),
                closes: CloseScope::SameKind,
            },
        ),
        None => plan.intervals == IntervalPlan::Close(
            CloseTarget::Kind(IntervalKind::Modifier),
        ),
    }
}

/// Declare the skill boost now in force. `percent` is three-state: `None`
/// withdraws the declaration entirely, while `Some(0)` declares
/// deliberately-unboosted play; only the second can serve as the baseline an
/// effect is measured against. A negative percentage withdraws it too.
pub fn plan_skill_boost(percent: Option<i64>) -> (plan: BoostPlan)
    ensures
        declares_boost(plan, percent),
{
    let percent = usable_boost(percent);
    let intervals = match percent {
        Some(value) => IntervalPlan::Open(boost_interval(value)),
        None => IntervalPlan::Close(CloseTarget::Kind(IntervalKind::Modifier)),
    };
    BoostPlan { row_mirror: row_boost(percent), intervals }
}

/// A magnitude as a whole percentage: cut towards zero, and held at the ends
/// of the integers it shows in.
pub open spec fn whole_percent(magnitude: int) -> int {
    let whole = if magnitude >= 0 {
        magnitude / (WHOLE as int)
    } else {
        -((-magnitude) / (WHOLE as int))
    };
    if whole > i64::MAX {
        i64::MAX as int
    } else if whole < i64::MIN {
        i64::MIN as int
    } else {
        whole
    }
}

/// A boost declared in whole percents shows as declared.
pub proof fn declared_boosts_show_as_declared(percent: i64)
    ensures
        boost_magnitude(percent) == percent * WHOLE,
        whole_percent(boost_magnitude(percent) as int) == percent,
{
    let unit = WHOLE as int;
    let value = percent as int;
    assert(value >= 0 ==> (value * unit) / unit == value) by (nonlinear_arith)
        requires
            unit == 1_000_000_000_000,
    ;
    assert(value < 0 ==> (-(value * unit)) / unit == -value) by (nonlinear_arith)
        requires
            unit == 1_000_000_000_000,
    ;
}

/// The boost a magnitude in force shows as.
pub fn shown_boost(magnitude: Option<i128>) -> (percent: Option<i64>)
    ensures
        match magnitude {
            Some(value) => percent is Some && percent->0 == whole_percent(value as int),
            None => percent is None,
        },
{
    match magnitude {
        Some(value) => {
            let unit: i128 = WHOLE as i128;
            if value >= 0 {
                let whole: i128 = value / unit;
                if whole > i64::MAX as i128 {
                    Some(i64::MAX)
                } else {
                    Some(whole as i64)
                }
            } else if value == i128::MIN {
                proof {
                    assert((-(i128::MIN as int)) / 1_000_000_000_000 > i64::MAX + 1);
                }
                Some(i64::MIN)
            } else {
                let whole: i128 = (-value) / unit;
                if whole > i64::MAX as i128 {
                    Some(i64::MIN)
                } else {
                    Some(-(whole as i64))
                }
            }
        },
        None => None,
    }
}

} // verus!
