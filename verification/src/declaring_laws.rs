//! What declarations open and close, and what a session starts under.

use crate::activities;
use crate::activities::{BoostPlan, IntervalPlan};
use crate::attribution::{WeaponView, WindowView};
use crate::intervals;
use crate::intervals::{
    ActivityKey, ActivityRef, ActivityView, CloseScope, CloseTarget, IntervalKind, IntervalSpec,
    IntervalView, IntervalsView,
};
use crate::lifecycle;
use crate::lifecycle::{SessionOpening, StartConfig};
use crate::lists;
use crate::phases;
use crate::phases::{HuntingLooterLevels, StatsView};
use crate::records;
use crate::records::{DeclaredMob, TrackedView, TrackingSession};
use crate::session;
use crate::session::{AccumulatorView, ActiveSession, ResolvedDefinition, SessionFacets};
use crate::text;
use crate::units;
use vstd::prelude::*;

verus! {

/// What an opening seals of what stands: nothing where it stacks, its own kind,
/// or any of the kinds named.
pub proof fn an_opening_seals_by_kind(
    closes: CloseScope,
    opening: IntervalKind,
    standing: IntervalKind,
)
    ensures
        closes is Nothing ==> !closes.covers(opening, standing),
        closes is SameKind ==> (closes.covers(opening, standing) <==> standing == opening),
        closes is Kinds ==> (closes.covers(opening, standing) <==> exists|i: int|
            0 <= i < closes->Kinds_0@.len() && #[trigger] closes->Kinds_0@[i] == standing),
{
}

/// What a close picks: a kind, a kind about one thing, given ids, or some kinds
/// all but one interval.
pub proof fn a_close_picks_by_its_target(target: CloseTarget, interval: IntervalView)
    ensures
        match target {
            CloseTarget::Kind(kind) => target.matches(interval) <==> interval.kind == kind,
            CloseTarget::Ref(kind, about) => target.matches(interval) <==> interval.kind == kind
                && interval.ref_id is Some && interval.ref_id->0 == about,
            CloseTarget::Ids(ids) => target.matches(interval) <==> exists|i: int|
                0 <= i < ids@.len() && #[trigger] ids@[i] == interval.id,
            CloseTarget::KindsExceptId(kinds, keep) => target.matches(interval)
                <==> interval.id != keep && exists|i: int|
                0 <= i < kinds@.len() && #[trigger] kinds@[i] == interval.kind,
        },
        target.test()(interval) == target.matches(interval),
{
}

/// What a transition leaves: every standing interval whose id it does not
/// close, in order, and what it opened behind them, under the new context.
pub proof fn a_transition_keeps_what_it_does_not_close(
    state: IntervalsView,
    closing: Seq<i64>,
    opened: Option<IntervalView>,
    context: i64,
)
    ensures
        ({
            let after = state.transitioned(closing, opened, context);
            let kept = state.open.filter(|interval: IntervalView| !closing.contains(interval.id));
            &&& after.context_id == Some(context)
            &&& opened is None ==> after.open == kept
            &&& opened is Some ==> after.open == kept.push(opened->0)
        }),
{
    assert(intervals::not_among(closing) =~= (|interval: IntervalView|
        !closing.contains(interval.id)));
}

/// An opened interval carries its declaration, under the id it was stored by.
pub proof fn an_interval_carries_its_declaration(opened: IntervalSpec, id: i64)
    ensures
        ({
            let interval = intervals::interval_of(opened, id);
            &&& interval.id == id
            &&& interval.kind == opened.kind
            &&& interval.ref_id == opened.ref_id
            &&& interval.magnitude == opened.magnitude
            &&& (interval.label is Some) == (opened.label is Some)
            &&& opened.label is Some ==> interval.label->0 == opened.label->0@
        }),
{
}

/// The first standing interval that meets a test is found, and none where none
/// does.
pub proof fn the_first_that_meets_is_found(
    open: Seq<IntervalView>,
    test: spec_fn(IntervalView) -> bool,
    at: int,
)
    ensures
        intervals::first_of(open, test) is None <==> (forall|i: int|
            0 <= i < open.len() ==> !test(#[trigger] open[i])),
        0 <= at < open.len() && test(open[at]) && (forall|i: int|
            0 <= i < at ==> !test(#[trigger] open[i])) ==> intervals::first_of(open, test) == Some(
            open[at],
        ),
    decreases open.len(),
{
    if open.len() > 0 && !test(open[0]) {
        let rest = open.skip(1);
        the_first_that_meets_is_found(rest, test, at - 1);
        assert forall|i: int| 0 <= i < rest.len() implies #[trigger] rest[i] == open[i + 1] by {}
        if intervals::first_of(open, test) is None {
            assert forall|i: int| 0 <= i < open.len() implies !test(#[trigger] open[i]) by {
                if i > 0 {
                    assert(rest[i - 1] == open[i]);
                }
            }
        }
        if 0 < at < open.len() {
            assert(rest[at - 1] == open[at]);
        }
    }
}

/// The modifier in force is the first standing modifier's magnitude, whatever
/// else stands.
pub proof fn the_first_modifier_is_in_force(state: IntervalsView, at: int)
    ensures
        (forall|i: int|
            0 <= i < state.open.len() ==> (#[trigger] state.open[i]).kind
                != IntervalKind::Modifier) ==> state.modifier() is None,
        0 <= at < state.open.len() && state.open[at].kind == IntervalKind::Modifier && (forall|
            i: int,
        |
            0 <= i < at ==> (#[trigger] state.open[i]).kind != IntervalKind::Modifier)
            ==> state.modifier() == state.open[at].magnitude,
{
    the_first_that_meets_is_found(state.open, intervals::of_kind(IntervalKind::Modifier), at);
}

/// A quest stands by what it is about, a segment by its name without
/// surrounding space and in any case of Latin letters.
pub proof fn an_activity_stands_by_its_name(state: IntervalsView, activity: ActivityRef)
    ensures
        activities::standing_stretch(state, activity) == intervals::first_of(
            state.open,
            |interval: IntervalView|
                match activity {
                    ActivityRef::Quest { quest_id, .. } => interval.kind == IntervalKind::Quest
                        && interval.ref_id == Some(quest_id),
                    ActivityRef::Segment { name } => interval.kind == IntervalKind::Segment
                        && interval.label is Some && text::same_ignoring_ascii_case(
                        interval.label->0,
                        text::stripped(name@, false),
                    ),
                },
        ),
{
    let test = |interval: IntervalView|
        match activity {
            ActivityRef::Quest { quest_id, .. } => interval.kind == IntervalKind::Quest
                && interval.ref_id == Some(quest_id),
            ActivityRef::Segment { name } => interval.kind == IntervalKind::Segment
                && interval.label is Some && text::same_ignoring_ascii_case(
                interval.label->0,
                text::stripped(name@, false),
            ),
        };
    match activity {
        ActivityRef::Quest { quest_id, .. } => {
            assert(intervals::of_ref(IntervalKind::Quest, quest_id) =~= test);
        },
        ActivityRef::Segment { name } => {
            assert(intervals::of_label(IntervalKind::Segment, text::stripped(name@, false))
                =~= test);
        },
    }
}

/// What a stored plan leaves standing: what its close picks is gone, what its
/// open seals is gone and its interval stands last under its stored id; a plan
/// that was not stored, and an empty one, change nothing.
pub proof fn a_stored_plan_takes_effect(
    plan: IntervalPlan,
    state: IntervalsView,
    answered: Option<(i64, i64)>,
)
    ensures
        ({
            let after = plan.adopted(state, answered);
            &&& answered is None || plan is Nothing ==> after == state
            &&& match (plan, answered) {
                (IntervalPlan::Close(target), Some((_, context))) => {
                    let picked = state.open.filter(
                        |interval: IntervalView| target.matches(interval),
                    );
                    let ids = Seq::new(picked.len(), |i: int| picked[i].id);
                    &&& picked.len() == 0 ==> after == state
                    &&& picked.len() > 0 ==> after.context_id == Some(context) && after.open
                        == state.open.filter(|interval: IntervalView| !ids.contains(interval.id))
                },
                (IntervalPlan::Open(opened), Some((id, context))) => {
                    let sealed = state.open.filter(
                        |interval: IntervalView| opened.closes.covers(opened.kind, interval.kind),
                    );
                    let ids = Seq::new(sealed.len(), |i: int| sealed[i].id);
                    &&& after.context_id == Some(context)
                    &&& after.open == state.open.filter(
                        |interval: IntervalView| !ids.contains(interval.id),
                    ).push(intervals::interval_of(opened, id))
                },
                _ => true,
            }
        }),
{
    match (plan, answered) {
        (IntervalPlan::Close(target), Some((_, context))) => {
            assert(target.test() =~= (|interval: IntervalView| target.matches(interval)));
            let picked = state.open.filter(target.test());
            let ids = Seq::new(picked.len(), |i: int| picked[i].id);
            assert(state.picked(target.test()) =~= ids);
            a_transition_keeps_what_it_does_not_close(state, ids, None, context);
        },
        (IntervalPlan::Open(opened), Some((id, context))) => {
            let seals = intervals::sealed_by(opened.closes, opened.kind);
            assert(seals =~= (|interval: IntervalView|
                opened.closes.covers(opened.kind, interval.kind)));
            let sealed = state.open.filter(seals);
            let ids = Seq::new(sealed.len(), |i: int| sealed[i].id);
            assert(state.sealing(opened) =~= ids);
            a_transition_keeps_what_it_does_not_close(
                state,
                ids,
                Some(intervals::interval_of(opened, id)),
                context,
            );
        },
        _ => {},
    }
}

/// Activating what stands already opens nothing: added to, nothing is planned;
/// switched to, every other quest and segment closes and it stays.
pub proof fn activating_what_stands_opens_nothing(
    plan: IntervalPlan,
    state: IntervalsView,
    activity: ActivityRef,
    additive: bool,
    other: IntervalView,
)
    requires
        activities::activates(plan, state, activity, additive),
        activities::standing_stretch(state, activity) is Some,
    ensures
        additive ==> plan is Nothing,
        !additive ==> plan is Close && (plan->Close_0.matches(other) <==> (other.kind
            == IntervalKind::Quest || other.kind == IntervalKind::Segment) && other.id
            != activities::standing_stretch(state, activity)->0.id),
{
    if !additive {
        let kinds = seq![IntervalKind::Quest, IntervalKind::Segment];
        assert(kinds[0] == IntervalKind::Quest && kinds[1] == IntervalKind::Segment);
    }
}

/// Activating what does not stand opens it. A switch seals every quest and
/// segment; an added quest seals nothing, an added segment the standing one.
pub proof fn activating_opens_what_does_not_stand(
    plan: IntervalPlan,
    state: IntervalsView,
    activity: ActivityRef,
    additive: bool,
    standing: IntervalKind,
)
    requires
        activities::activates(plan, state, activity, additive),
        activities::standing_stretch(state, activity) is None,
    ensures
        plan is Open,
        ({
            let opened = plan->Open_0;
            let sealed = opened.closes.covers(opened.kind, standing);
            &&& opened.magnitude is None
            &&& opened.label is Some
            &&& match activity {
                ActivityRef::Quest { quest_id, name } => opened.kind == IntervalKind::Quest
                    && opened.label->0@ == name@ && opened.ref_id == Some(quest_id),
                ActivityRef::Segment { name } => opened.kind == IntervalKind::Segment
                    && opened.label->0@ == text::stripped(name@, false) && opened.ref_id is None,
            }
            &&& !additive ==> (sealed <==> standing == IntervalKind::Quest || standing
                == IntervalKind::Segment)
            &&& additive && activity is Quest ==> !sealed
            &&& additive && activity is Segment ==> (sealed <==> standing == IntervalKind::Segment)
        }),
{
    if !additive {
        let kinds = seq![IntervalKind::Quest, IntervalKind::Segment];
        assert(kinds[0] == IntervalKind::Quest && kinds[1] == IntervalKind::Segment);
    }
}

/// Deactivating a quest closes every stretch of it; a segment, the first of its
/// name; one that does not stand, nothing.
pub proof fn deactivating_closes_its_stretch(
    plan: IntervalPlan,
    state: IntervalsView,
    target: ActivityKey,
    interval: IntervalView,
)
    requires
        activities::deactivates(plan, state, target),
    ensures
        match target {
            ActivityKey::Quest(quest_id) => plan is Close && (plan->Close_0.matches(interval)
                <==> interval.kind == IntervalKind::Quest && interval.ref_id == Some(quest_id)),
            ActivityKey::Segment(name) => {
                let first = intervals::first_of(
                    state.open,
                    intervals::of_label(IntervalKind::Segment, name@),
                );
                &&& first is None ==> plan is Nothing
                &&& first is Some ==> plan is Close && (plan->Close_0.matches(interval)
                    <==> interval.id == first->0.id)
            },
        },
{
    if let ActivityKey::Segment(name) = target {
        let first = intervals::first_of(
            state.open,
            intervals::of_label(IntervalKind::Segment, name@),
        );
        if first is Some {
            assert(plan->Close_0->Ids_0@[0] == first->0.id);
        }
    }
}

/// The activities shown are the standing quests and segments with a name, in
/// the order they were opened, each once.
pub proof fn standing_activities_are_shown(state: IntervalsView, interval: IntervalView)
    ensures
        ({
            let more = IntervalsView { open: state.open.push(interval), ..state };
            let before = activities::standing_activities(state);
            let after = activities::standing_activities(more);
            if (interval.kind == IntervalKind::Quest || interval.kind == IntervalKind::Segment)
                && interval.label is Some {
                after == before.push(
                    ActivityView {
                        kind: interval.kind,
                        name: interval.label->0,
                        quest_id: interval.ref_id,
                    },
                )
            } else {
                after == before
            }
        }),
        activities::standing_activities(IntervalsView { open: Seq::empty(), ..state }).len() == 0,
{
    let kinds = seq![IntervalKind::Quest, IntervalKind::Segment];
    assert(kinds[0] == IntervalKind::Quest && kinds[1] == IntervalKind::Segment);
    let of = intervals::of_kinds(kinds);
    let named = activities::shown_activity();
    let more = IntervalsView { open: state.open.push(interval), ..state };
    lists::filter_push(state.open, interval, of);
    lists::filter_push(state.open.filter(of), interval, named);
    lists::filter_none(state.open, of);
    lists::filter_none(state.open, named);
    if of(interval) && named(interval) {
        assert(activities::standing_activities(more) =~= activities::standing_activities(
            state,
        ).push(
            ActivityView {
                kind: interval.kind,
                name: interval.label->0,
                quest_id: interval.ref_id,
            },
        ));
    }
}

/// A declared boost that is not negative opens a modifier of that many percents
/// in place of the standing one; a negative or a withdrawn one closes it. The
/// session's row has it where it is positive.
pub proof fn a_boost_opens_its_modifier(
    plan: BoostPlan,
    percent: Option<i64>,
    standing: IntervalKind,
)
    requires
        activities::declares_boost(plan, percent),
    ensures
        plan.row_mirror == (match percent {
            Some(value) if value > 0 => Some(value),
            _ => None,
        }),
        match percent {
            Some(value) if value >= 0 => {
                let opened = plan.intervals->Open_0;
                &&& plan.intervals is Open
                &&& opened.kind == IntervalKind::Modifier
                &&& opened.label is None && opened.ref_id is None
                &&& opened.magnitude is Some && opened.magnitude->0 == value * 1_000_000_000_000
                &&& opened.closes.covers(opened.kind, standing) <==> standing
                    == IntervalKind::Modifier
            },
            _ => plan.intervals == IntervalPlan::Close(CloseTarget::Kind(IntervalKind::Modifier)),
        },
{
    if let Some(value) = percent {
        activities::declared_boosts_show_as_declared(value);
    }
}

/// A magnitude shows as its whole percents, a part of one dropped on either side
/// of zero, within what a percentage can be.
pub proof fn a_magnitude_shows_as_whole_percents(magnitude: int)
    ensures
        ({
            let shown = activities::whole_percent(magnitude);
            &&& 0 <= magnitude && shown < i64::MAX ==> shown * 1_000_000_000_000 <= magnitude < (
            shown + 1) * 1_000_000_000_000
            &&& magnitude < 0 && shown > i64::MIN ==> (shown - 1) * 1_000_000_000_000 < magnitude
                <= shown * 1_000_000_000_000
            &&& i64::MIN <= shown <= i64::MAX
        }),
{
}

/// The facets a session starts under: the configured name without surrounding
/// space, or else its definition's; protection costs followed unless the
/// definition says otherwise; a boost where it is above zero.
pub proof fn a_session_starts_under_its_facets(
    name: Seq<char>,
    resolved: Option<ResolvedDefinition>,
    boost: Option<i64>,
)
    ensures
        ({
            let facets = session::opening_facets(name, resolved, boost);
            let own = text::stripped(name, true);
            &&& own.len() > 0 ==> facets.name == Some(own)
            &&& own.len() == 0 && resolved is None ==> facets.name is None
            &&& own.len() == 0 && resolved is Some ==> facets.name == Some(resolved->0.name@)
            &&& resolved is None ==> facets.definition_id is None && facets.track_protection_costs
            &&& resolved is Some ==> facets.definition_id == Some(resolved->0.id)
                && facets.track_protection_costs == resolved->0.track_protection_costs
            &&& facets.skill_boost_percent == (match boost {
                Some(value) if value > 0 => Some(value),
                _ => None,
            })
        }),
{
}

/// A fresh session starts now, is open, and holds nothing.
pub proof fn a_fresh_session_holds_nothing(id: Seq<char>, now: i64, boost: Option<i64>)
    ensures
        ({
            let fresh = lifecycle::fresh_session(id, now);
            &&& fresh.id == id
            &&& fresh.start_time == now
            &&& fresh.end_time is None
            &&& fresh.kills.len() == 0
            &&& fresh.harvests.len() == 0
            &&& fresh.dangling_cost == 0
        }),
        match boost {
            Some(value) if value >= 0 => {
                let opened = lifecycle::opening_boost(boost);
                &&& opened is Some
                &&& opened->0.kind == IntervalKind::Modifier
                &&& opened->0.label is None && opened->0.ref_id is None
                &&& opened->0.magnitude is Some && opened->0.magnitude->0 == value
                    * 1_000_000_000_000
            },
            _ => lifecycle::opening_boost(boost) is None,
        },
{
    if let Some(value) = boost {
        activities::declared_boosts_show_as_declared(value);
    }
}

/// A declared creature stamps kills by its name, unless the name is empty.
pub proof fn a_named_creature_stamps(declared: Option<DeclaredMob>)
    ensures
        declared is None ==> session::stamped_name(declared) is None,
        declared is Some && declared->0.name@.len() == 0 ==> session::stamped_name(declared)
            is None,
        declared is Some && declared->0.name@.len() > 0 ==> session::stamped_name(declared) == Some(
            declared->0.name@,
        ),
{
}

/// A session about to start takes everything from its configuration: it starts
/// now and holds nothing; its facets, looter levels, carried weapons and
/// declared creature are those configured.
pub proof fn an_opening_takes_its_configuration(
    opening: SessionOpening,
    config: StartConfig,
    now: i64,
)
    requires
        opening.of(config, now),
    ensures
        opening.session@.start_time == now,
        opening.session@.end_time is None,
        opening.session@.kills.len() == 0 && opening.session@.harvests.len() == 0,
        opening.session@.dangling_cost == 0,
        opening.facets@ == session::opening_facets(
            config.session_name@,
            config.resolved,
            config.declared_boost,
        ),
        opening.outfit.looters == config.looters,
        opening.outfit.carried == config.carried,
        (opening.outfit.declared_mob is Some) == (config.manual_mob is Some),
        match (config.manual_mob, opening.outfit.declared_mob) {
            (Some((species, maturity)), Some(mob)) => mob.species == species && mob.maturity
                == maturity && mob.name@ == records::mob_name(species@, maturity@),
            _ => true,
        },
        (opening.interval is Some) == (config.declared_boost is Some && config.declared_boost->0
            >= 0),
        opening.interval is Some ==> opening.interval->0.kind == IntervalKind::Modifier
            && opening.interval->0.magnitude is Some && opening.interval->0.magnitude->0
            == config.declared_boost->0 * 1_000_000_000_000,
{
    if let Some(value) = config.declared_boost {
        activities::declared_boosts_show_as_declared(value);
    }
}

/// A session that starts has counted and cost nothing, believes nothing of its
/// weapons but what is carried and what effects are still open, and stands
/// under its facets and its declared creature.
pub proof fn a_session_starts_at_nothing(
    active: ActiveSession,
    began: TrackingSession,
    facets: SessionFacets,
    looters: HuntingLooterLevels,
    carried: Seq<WeaponView>,
    windows: Seq<WindowView>,
    mob: Option<DeclaredMob>,
)
    requires
        active.starts(began, facets, looters, carried, windows, mob),
    ensures
        active.session == began && active.facets == facets && active.declared_mob == mob,
        active.hunting_looters == looters,
        active.heal_cost == 0 && active.consumable_cost == 0,
        active.warnings@.len() == 0 && !active.protection_evidence_warning_emitted,
        active.accumulator@.shots_fired == 0 && active.accumulator@.critical_hits == 0,
        active.accumulator@.damage_dealt == 0 && active.accumulator@.damage_taken == 0,
        active.accumulator@.enhancer_cost == 0,
        active.accumulator@.tool_stats.len() == 0 && active.accumulator@.evidence.len() == 0,
        active.intervals@.open.len() == 0 && active.intervals@.context_id is None,
        active.weapon_enhancers is None && active.last_loot is None,
        active.guardrail_mismatch is None && active.harvest_press_floor == 0,
        active.reload_speed_percent == 0 && !active.dirty,
        ({
            let state = active.attribution@;
            &&& state.carried == carried && state.windows == windows
            &&& state.declared is None && state.previous is None
            &&& state.recording is None && state.mismatch is None
            &&& state.log.len() == 0 && state.next_seq == 0
            &&& state.counts.agreed == 0 && state.counts.evidenced == 0
            &&& state.counts.unresolved == 0 && state.counts.effect_ticks == 0
            &&& forall|tool: Seq<char>| !#[trigger] state.kept.contains(tool)
        }),
        active.healing.intent is None && active.healing.activations@.len() == 0,
        active.healing.effect_expiries@.len() == 0 && active.healing.activation_count == 0,
{
}

/// A close that picks nothing succeeds and changes nothing. One that picks
/// something takes effect where it was stored, and otherwise fails and changes
/// nothing.
pub proof fn a_close_takes_effect_where_stored(
    before: IntervalsView,
    after: IntervalsView,
    test: spec_fn(IntervalView) -> bool,
    answered: Option<i64>,
    succeeded: bool,
)
    requires
        intervals::closes_as(before, after, test, answered, succeeded),
    ensures
        ({
            let picked = before.open.filter(test);
            let ids = Seq::new(picked.len(), |i: int| picked[i].id);
            &&& succeeded == (picked.len() == 0 || answered is Some)
            &&& picked.len() == 0 || answered is None ==> after == before
            &&& picked.len() > 0 && answered is Some ==> after.context_id == answered && after.open
                == before.open.filter(|interval: IntervalView| !ids.contains(interval.id))
        }),
{
    let picked = before.open.filter(test);
    let ids = Seq::new(picked.len(), |i: int| picked[i].id);
    assert(before.picked(test) =~= ids);
    if answered is Some {
        a_transition_keeps_what_it_does_not_close(before, ids, None, answered->0);
    }
}

/// What a close hands back is every interval whose id it picked, in order.
pub proof fn a_close_hands_back_what_it_picked(
    before: IntervalsView,
    test: spec_fn(IntervalView) -> bool,
    closed: Seq<IntervalView>,
)
    requires
        intervals::closed_as(before, test, closed),
    ensures
        ({
            let picked = before.open.filter(test);
            closed == before.open.filter(
                |interval: IntervalView|
                    exists|i: int|
                        0 <= i < picked.len() && (#[trigger] picked[i]).id == interval.id,
            )
        }),
{
    let picked = before.open.filter(test);
    let ids = before.picked(test);
    let back = |interval: IntervalView|
        exists|i: int| 0 <= i < picked.len() && (#[trigger] picked[i]).id == interval.id;
    assert forall|interval: IntervalView| #[trigger]
        intervals::among(ids)(interval) == back(interval) by {
        if ids.contains(interval.id) {
            let i = choose|i: int| 0 <= i < ids.len() && ids[i] == interval.id;
            assert(picked[i].id == interval.id);
        }
        if back(interval) {
            let i = choose|i: int|
                0 <= i < picked.len() && (#[trigger] picked[i]).id == interval.id;
            assert(ids[i] == interval.id);
        }
    }
    assert(intervals::among(ids) =~= back);
}

/// A session ends now, with its kills and swings as they stand. The shots since
/// its last kill, each phase at its price, and their enhancers are left dangling;
/// one phase more adds its own.
pub proof fn a_session_ends_with_what_dangles(
    ending: TrackedView,
    pending: AccumulatorView,
    phase: (Seq<char>, StatsView),
    now: i64,
)
    ensures
        ({
            let ended = lifecycle::ended_session(ending, pending, now);
            let left = phases::total_cost(pending.tool_stats) + pending.enhancer_cost;
            &&& ended.end_time == Some(now)
            &&& ended.id == ending.id && ended.start_time == ending.start_time
            &&& ended.kills == ending.kills && ended.harvests == ending.harvests
            &&& i128::MIN <= left <= i128::MAX ==> ended.dangling_cost == left
            &&& pending.tool_stats.len() == 0 ==> left == pending.enhancer_cost
        }),
        ({
            let more = AccumulatorView { tool_stats: pending.tool_stats.push(phase), ..pending };
            let left = phases::total_cost(pending.tool_stats) + pending.enhancer_cost;
            let added = phase.1.cost_per_shot.0 * phase.1.shots_fired;
            i128::MIN <= left <= i128::MAX && i128::MIN <= left + added <= i128::MAX
                ==> lifecycle::ended_session(ending, more, now).dangling_cost
                == lifecycle::ended_session(ending, pending, now).dangling_cost + added
        }),
{
    phases::totals_push(pending.tool_stats, phase);
}

/// A session left open ended at its latest output, or at its start where there
/// is none or only one at the epoch.
pub proof fn a_session_left_open_ended_at_its_latest(latest: i64, started_at: i64)
    ensures
        lifecycle::left_open_until(None, started_at) == started_at,
        lifecycle::left_open_until(Some(0), started_at) == started_at,
        latest != 0 ==> lifecycle::left_open_until(Some(latest), started_at) == latest,
{
}

/// A rebate is the value to the nearest ten-thousandth of a PED, where there is
/// any value.
pub proof fn a_rebate_is_the_nearest_value(value: int)
    ensures
        lifecycle::rebate_of(value) is Some <==> value > 0,
        value > 0 ==> -100_000_000 <= 2 * (lifecycle::rebate_of(value)->0 - value) <= 100_000_000
            && lifecycle::rebate_of(value)->0 % 100_000_000 == 0,
{
    let nearest = units::half_even(value, 100_000_000);
    units::half_even_is_nearest(value, 100_000_000);
    assert(units::rounded(value, 100_000_000) == nearest * 100_000_000);
}

} // verus!
