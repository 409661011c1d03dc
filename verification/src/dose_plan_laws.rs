//! What a dose costs, how long it is in effect, and what starting, removing and
//! restoring one plans, in the doses' own figures.

use crate::doses;
use crate::doses::{
    ChangeView, ConsumableProfile, DoseChange, DoseError, DoseOutcome, DoseRecord, DoseRemoval,
    DoseSource, DoseStart, DoseView, Entering, Refusal,
};
use crate::intervals::{CloseScope, IntervalKind};
use crate::units;
use vstd::prelude::*;

verus! {

/// A followed item books its value at its markup, to the nearest unit: at a
/// markup of a hundred percent, its value. One not followed books nothing.
pub proof fn a_dose_books_its_value_at_its_markup(profile: ConsumableProfile)
    ensures
        !profile.track_cost ==> profile.booked() == 0,
        profile.track_cost ==> -100_000_000_000_000 <= 2 * (profile.booked()
            * 100_000_000_000_000 - profile.tt_value_ped * profile.markup_percent)
            <= 100_000_000_000_000,
        profile.track_cost && profile.markup_percent == 100_000_000_000_000 ==> profile.booked()
            == profile.tt_value_ped,
{
    let value = profile.tt_value_ped as int;
    units::half_even_is_nearest(value * profile.markup_percent, 100_000_000_000_000);
    if profile.markup_percent == 100_000_000_000_000 {
        units::half_even_unique(value * 100_000_000_000_000, 100_000_000_000_000, value);
    }
}

/// A dose ends when the next one of its item started, or when it expires,
/// whichever is first; it is in effect from its start until then, while it is
/// not removed.
pub proof fn a_dose_ends_at_the_earlier(dose: DoseView, now: int)
    ensures
        dose.ends_at() <= dose.expires_at,
        dose.superseded_at is None ==> dose.ends_at() == dose.expires_at,
        dose.superseded_at is Some ==> dose.ends_at() <= dose.superseded_at->0 && (dose.ends_at()
            == dose.superseded_at->0 || dose.ends_at() == dose.expires_at),
        dose.in_effect_at(now) <==> dose.removed_at is None && dose.started_at <= now
            && now < dose.expires_at && (dose.superseded_at is Some ==> now
            < dose.superseded_at->0),
{
}

/// A dose opens a consumable interval where it lasts at all and came with no
/// heal: under its item, at its reload speed where it has one, and beside
/// whatever stands.
pub proof fn a_dose_opens_its_interval(dose: DoseRecord)
    ensures
        ({
            let opened = doses::context_interval(dose);
            &&& opened is Some <==> dose@.source != DoseSource::OnUse && dose@.started_at
                < dose@.expires_at && (dose@.superseded_at is Some ==> dose@.started_at
                < dose@.superseded_at->0)
            &&& opened is Some ==> {
                &&& opened->0.kind == IntervalKind::Consumable
                &&& opened->0.label == Some(dose.item_name)
                &&& opened->0.ref_id == dose.equipment_id
                &&& opened->0.closes == CloseScope::Nothing
                &&& dose.reload_speed_percent == 0 ==> opened->0.magnitude is None
                &&& dose.reload_speed_percent != 0 ==> opened->0.magnitude is Some
                    && opened->0.magnitude->0 == dose.reload_speed_percent
            }
        }),
{
}

/// A stored dose is found by its id, the first where several have it.
pub proof fn the_first_with_an_id_is_found(rows: Seq<DoseView>, id: Seq<char>, at: int)
    ensures
        doses::find(rows, id) is None <==> (forall|i: int|
            0 <= i < rows.len() ==> (#[trigger] rows[i]).id != id),
        0 <= at < rows.len() && rows[at].id == id && (forall|i: int|
            0 <= i < at ==> (#[trigger] rows[i]).id != id) ==> doses::find(rows, id) == Some(
            rows[at],
        ),
    decreases rows.len(),
{
    if rows.len() > 0 && rows[0].id != id {
        let rest = rows.skip(1);
        the_first_with_an_id_is_found(rest, id, at - 1);
        assert forall|i: int| 0 <= i < rest.len() implies #[trigger] rest[i] == rows[i + 1] by {}
        if doses::find(rows, id) is None {
            assert forall|i: int| 0 <= i < rows.len() implies (#[trigger] rows[i]).id != id by {
                if i > 0 {
                    assert(rest[i - 1] == rows[i]);
                }
            }
        }
        if 0 < at < rows.len() {
            assert(rest[at - 1] == rows[at]);
        }
    }
}

/// The dose of an item that a new one takes over from: the first running one of
/// it that is in effect.
pub proof fn a_new_dose_takes_over_from_the_running_one(
    running: Seq<DoseView>,
    item: i64,
    now: int,
    at: int,
)
    ensures
        doses::running_prior(running, item, now) is None <==> (forall|i: int|
            0 <= i < running.len() ==> (#[trigger] running[i]).equipment_id != Some(item)
                || !running[i].in_effect_at(now)),
        0 <= at < running.len() && running[at].equipment_id == Some(item)
            && running[at].in_effect_at(now) && (forall|i: int|
            0 <= i < at ==> (#[trigger] running[i]).equipment_id != Some(item)
                || !running[i].in_effect_at(now)) ==> doses::running_prior(running, item, now)
            == Some(running[at]),
    decreases running.len(),
{
    if running.len() > 0 && !(running[0].equipment_id == Some(item) && running[0].in_effect_at(
        now,
    )) {
        let rest = running.skip(1);
        a_new_dose_takes_over_from_the_running_one(rest, item, now, at - 1);
        assert forall|i: int| 0 <= i < rest.len() implies #[trigger] rest[i] == running[i + 1] by {}
        if doses::running_prior(running, item, now) is None {
            assert forall|i: int| 0 <= i < running.len() implies (
            #[trigger] running[i]).equipment_id != Some(item) || !running[i].in_effect_at(now) by {
                if i > 0 {
                    assert(rest[i - 1] == running[i]);
                }
            }
        }
        if 0 < at < running.len() {
            assert(rest[at - 1] == running[at]);
        }
    }
}

/// A dose taken starts now and lasts its profile's time; it costs what its
/// profile books where a session runs, and nothing without one. It stands and
/// nothing has taken over from it.
pub proof fn a_dose_taken_starts_now(
    id: Seq<char>,
    start: DoseStart,
    source: DoseSource,
    activation: Option<Seq<char>>,
    now: i64,
    session: Option<(Seq<char>, Option<i64>)>,
    prior: Option<DoseView>,
)
    requires
        i64::MIN <= now + start.profile.duration <= i64::MAX,
    ensures
        ({
            let dose = doses::dose_taken(id, start, source, activation, now, session, prior);
            &&& dose.id == id
            &&& dose.equipment_id == Some(start.equipment_id)
            &&& dose.item_name == start.item_name@
            &&& dose.source == source
            &&& dose.started_at == now
            &&& dose.expires_at - dose.started_at == start.profile.duration
            &&& session is None ==> dose.cost_ped == 0 && dose.session_id is None
                && dose.context_id is None
            &&& session is Some ==> dose.cost_ped == start.profile.booked()
            &&& session is Some ==> (match session->0 {
                (session_id, context) => dose.session_id == Some(session_id) && dose.context_id
                    == context,
            })
            &&& dose.cost_tracked == start.profile.track_cost
            &&& dose.reload_speed_percent == start.profile.reload_speed_percent
            &&& dose.healing_activation_id == activation
            &&& prior is None ==> dose.supersedes_dose_id is None
            &&& prior is Some ==> dose.supersedes_dose_id == Some(prior->0.id)
            &&& dose.interval_id is None
            &&& dose.superseded_at is None
            &&& dose.removed_at is None && dose.removed_by is None
        }),
{
}

/// Starting a dose ends the one it takes over from at its own start, which
/// leaves the running ones with its interval; the new one enters where it lasts
/// at all, and its cost is booked.
pub proof fn starting_ends_the_prior(dose: DoseView, prior: Option<DoseView>)
    ensures
        ({
            let plan = doses::start_plan(dose, prior);
            &&& plan.dose == dose
            &&& prior is None ==> plan.prior is None && plan.leaves is None && plan.closes.len()
                == 0
            &&& prior is Some ==> {
                &&& plan.prior == Some(
                    DoseView { superseded_at: Some(dose.started_at), ..prior->0 },
                )
                &&& plan.leaves == Some(prior->0.id)
                &&& prior->0.interval_id is None ==> plan.closes.len() == 0
                &&& prior->0.interval_id is Some ==> plan.closes == seq![prior->0.interval_id->0]
            }
            &&& plan.entering == Entering::Dose <==> dose.ends_at() > dose.started_at
            &&& plan.entering != Entering::Prior
            &&& doses::cost_moved(plan.dose, plan.gives_back) == dose.cost_ped
        }),
{
}

/// Removing a dose marks it removed and takes it from the running ones with its
/// interval and its cost. Where it had taken over from a standing one, that one
/// lasts as if it had not, and runs again where it has not ended by then.
pub proof fn removing_gives_the_prior_its_time(
    dose: DoseView,
    prior: Option<DoseView>,
    by: DoseRemoval,
    now: i64,
)
    ensures
        ({
            let plan = doses::removal_plan(dose, prior, by, now);
            let back = prior is Some && prior->0.superseded_at == Some(dose.started_at);
            let before = DoseView { superseded_at: dose.superseded_at, ..prior->0 };
            &&& plan.dose == (DoseView { removed_at: Some(now), removed_by: Some(by), ..dose })
            &&& plan.leaves == Some(dose.id)
            &&& !back ==> plan.prior is None && plan.entering == Entering::Nobody
            &&& back ==> plan.prior == Some(before)
            &&& back && before.ends_at() > now ==> plan.entering == Entering::Prior
            &&& back && before.ends_at() <= now ==> plan.entering == Entering::Nobody
            &&& dose.interval_id is None ==> plan.closes.len() == 0
            &&& dose.interval_id is Some ==> plan.closes == seq![dose.interval_id->0]
            &&& doses::cost_moved(plan.dose, plan.gives_back) == -dose.cost_ped
        }),
{
}

/// Restoring a dose unmarks it and books its cost again. The standing dose that
/// began no later and was ended no otherwise than it ends at its start and
/// leaves the running ones; it enters itself where it is in effect.
pub proof fn restoring_takes_the_time_back(dose: DoseView, prior: Option<DoseView>, now: i64)
    ensures
        ({
            let plan = doses::restore_plan(dose, prior, now);
            let back = DoseView { removed_at: None, removed_by: None, ..dose };
            let taken = prior is Some && prior->0.started_at <= dose.started_at
                && prior->0.superseded_at == dose.superseded_at;
            &&& plan.dose == back
            &&& !taken ==> plan.prior is None && plan.leaves is None && plan.closes.len() == 0
            &&& taken ==> {
                &&& plan.prior == Some(
                    DoseView { superseded_at: Some(dose.started_at), ..prior->0 },
                )
                &&& plan.leaves == Some(prior->0.id)
                &&& prior->0.interval_id is None ==> plan.closes.len() == 0
                &&& prior->0.interval_id is Some ==> plan.closes == seq![prior->0.interval_id->0]
            }
            &&& plan.entering == Entering::Dose <==> back.in_effect_at(now as int)
            &&& plan.entering != Entering::Prior
            &&& doses::cost_moved(plan.dose, plan.gives_back) == dose.cost_ped
        }),
{
}

/// Which removals are refused: of an id nothing is stored under, and by the
/// player of a buff that came with a heal. One already removed stays so.
pub proof fn removing_is_refused_where(
    rows: Seq<DoseView>,
    id: Seq<char>,
    by: DoseRemoval,
    now: i64,
)
    ensures
        ({
            let found = doses::find(rows, id);
            let outcome = doses::removal(rows, id, by, now);
            let dose = found->0;
            let prior = doses::standing_prior_of(rows, dose);
            let heals = by == DoseRemoval::Player && dose.source == DoseSource::OnUse;
            &&& found is None ==> outcome == Err::<Option<ChangeView>, Refusal>(Refusal::NotFound)
            &&& found is Some && dose.removed_at is Some ==> outcome == Ok::<
                Option<ChangeView>,
                Refusal,
            >(None)
            &&& found is Some && dose.removed_at is None && heals ==> outcome == Err::<
                Option<ChangeView>,
                Refusal,
            >(Refusal::GoesWithHeal)
            &&& found is Some && dose.removed_at is None && !heals && prior is Err ==> outcome
                is Err
            &&& found is Some && dose.removed_at is None && !heals && prior is Ok ==> outcome
                == Ok::<Option<ChangeView>, Refusal>(
                Some(doses::removal_plan(dose, prior->Ok_0, by, now)),
            )
        }),
{
}

/// Which restorations are refused: of an id nothing is stored under, of a dose
/// another hand removed, and of one that would run beside a later dose of its
/// item. One that stands stays so.
pub proof fn restoring_is_refused_where(
    running: Seq<DoseView>,
    rows: Seq<DoseView>,
    id: Seq<char>,
    by: DoseRemoval,
    now: i64,
)
    ensures
        ({
            let found = doses::find(rows, id);
            let outcome = doses::restoration(running, rows, id, by, now);
            let dose = found->0;
            let back = DoseView { removed_at: None, removed_by: None, ..dose };
            let prior = doses::standing_prior_of(rows, back);
            let taken = prior->Ok_0 is Some && prior->Ok_0->0.started_at <= dose.started_at
                && prior->Ok_0->0.superseded_at == dose.superseded_at;
            let stacks = exists|i: int|
                0 <= i < running.len() && (#[trigger] running[i]).equipment_id == dose.equipment_id
                    && running[i].id != dose.id && !(taken && running[i].id
                    == prior->Ok_0->0.id);
            let removed = found is Some && dose.removed_at is Some;
            &&& found is None ==> outcome == Err::<Option<ChangeView>, Refusal>(Refusal::NotFound)
            &&& found is Some && dose.removed_at is None ==> outcome == Ok::<
                Option<ChangeView>,
                Refusal,
            >(None)
            &&& removed && dose.removed_by != Some(by) ==> outcome == Err::<
                Option<ChangeView>,
                Refusal,
            >(Refusal::RemovedWithHeal)
            &&& removed && dose.removed_by == Some(by) && prior is Err ==> outcome is Err
            &&& removed && dose.removed_by == Some(by) && prior is Ok && back.in_effect_at(
                now as int,
            ) && stacks ==> outcome == Err::<Option<ChangeView>, Refusal>(Refusal::LaterRuns)
            &&& removed && dose.removed_by == Some(by) && prior is Ok && !(back.in_effect_at(
                now as int,
            ) && stacks) ==> outcome == Ok::<Option<ChangeView>, Refusal>(
                Some(doses::restore_plan(dose, prior->Ok_0, now)),
            )
        }),
{
}

/// The standing dose behind one: the one it took over from, or, where that was
/// removed, the standing one behind that.
pub proof fn the_chain_is_walked_to_a_standing_dose(
    rows: Seq<DoseView>,
    link: Option<Seq<char>>,
    seen: Seq<Seq<char>>,
)
    ensures
        ({
            let found = doses::walked(rows, link, seen);
            let prior = doses::find(rows, link->0);
            &&& link is None ==> found == Ok::<Option<DoseView>, Refusal>(None)
            &&& link is Some && seen.contains(link->0) ==> found == Ok::<
                Option<DoseView>,
                Refusal,
            >(None)
            &&& link is Some && !seen.contains(link->0) && prior is None ==> found == Err::<
                Option<DoseView>,
                Refusal,
            >(Refusal::NotFound)
            &&& link is Some && !seen.contains(link->0) && prior is Some && prior->0.removed_at
                is None ==> found == Ok::<Option<DoseView>, Refusal>(prior)
            &&& link is Some && !seen.contains(link->0) && prior is Some && prior->0.removed_at
                is Some ==> found == doses::walked(
                rows,
                prior->0.supersedes_dose_id,
                seen.push(link->0),
            )
        }),
{
}

/// Adopting a change: the dose that leaves is gone, the one that enters is last,
/// under the interval opened for it, and every other runs on in its place.
pub proof fn adopting_swaps_one_for_another(
    running: Seq<DoseView>,
    change: ChangeView,
    interval: Option<i64>,
)
    ensures
        ({
            let after = doses::adopted(running, change, interval);
            let kept = running.filter(|dose: DoseView| change.leaves != Some(dose.id));
            &&& change.entering == Entering::Nobody ==> after == kept
            &&& change.entering == Entering::Dose ==> after == kept.push(
                if interval is Some {
                    DoseView { interval_id: interval, ..change.dose }
                } else {
                    change.dose
                },
            )
            &&& change.entering == Entering::Prior && change.prior is Some ==> after == kept.push(
                if interval is Some {
                    DoseView { interval_id: interval, ..change.prior->0 }
                } else {
                    change.prior->0
                },
            )
        }),
{
    assert(doses::remaining(change.leaves) =~= (|dose: DoseView| change.leaves != Some(dose.id)));
}

/// The next end among the running doses: the earliest that is still to come.
pub proof fn the_next_end_is_the_earliest(running: Seq<DoseView>, now: i64)
    ensures
        ({
            let next = doses::next_end(running, now);
            &&& next is None <==> (forall|i: int|
                0 <= i < running.len() ==> (#[trigger] running[i]).ends_at() <= now)
            &&& next is Some ==> next->0 > now && exists|i: int|
                0 <= i < running.len() && (#[trigger] running[i]).ends_at() == next->0
            &&& forall|i: int|
                0 <= i < running.len() && (#[trigger] running[i]).ends_at() > now ==> next is Some
                    && next->0 <= running[i].ends_at()
        }),
    decreases running.len(),
{
    if running.len() > 0 {
        let rest = running.drop_last();
        let last = running[running.len() - 1];
        the_next_end_is_the_earliest(rest, now);
        let next = doses::next_end(running, now);
        assert forall|i: int| 0 <= i < rest.len() implies #[trigger] rest[i] == running[i] by {}
        assert forall|i: int|
            0 <= i < running.len() && (#[trigger] running[i]).ends_at() > now implies next is Some
            && next->0 <= running[i].ends_at() by {
            if i < rest.len() {
                assert(rest[i] == running[i]);
            }
        }
        if next is Some {
            if last.ends_at() != next->0 {
                let i = choose|i: int|
                    0 <= i < rest.len() && (#[trigger] rest[i]).ends_at() == next->0;
                assert(running[i].ends_at() == next->0);
            }
            let k = choose|k: int|
                0 <= k < running.len() && (#[trigger] running[k]).ends_at() == next->0;
            assert(running[k].ends_at() > now);
        }
    }
}

/// How long to sleep until an end: a twentieth of a second past it, an hour at
/// most, and no time where that is over already.
pub proof fn a_wake_comes_past_the_end(end: int, now: int)
    ensures
        ({
            let delay = doses::wake_delay(end, now);
            &&& 0 <= delay <= 3_600_000_000_000
            &&& 0 <= end - now + 50_000_000 <= 3_600_000_000_000 ==> now + delay == end
                + 50_000_000
            &&& end - now + 50_000_000 < 0 ==> delay == 0
            &&& end - now + 50_000_000 > 3_600_000_000_000 ==> delay == 3_600_000_000_000
        }),
{
}

/// A dose is over from its end on, and otherwise lasts; it speeds reloading
/// while it is in effect and has a reload speed.
pub proof fn a_dose_is_over_or_lasts(dose: DoseView, now: i64)
    ensures
        doses::over_by(now)(dose) == (dose.ends_at() <= now),
        doses::lasting(now)(dose) == (now < dose.ends_at()),
        doses::end_of()(dose) == dose.ends_at(),
        doses::speeding(now)(dose) == (dose.removed_at is None && dose.started_at <= now
            && now < dose.ends_at() && dose.reload_speed_percent != 0),
{
}

/// The reload speeds of some doses are each dose's own, in their order.
pub proof fn speeds_are_the_doses_own(running: Seq<DoseView>, at: int)
    requires
        0 <= at < running.len(),
    ensures
        doses::speeds(running).len() == running.len(),
        doses::speeds(running)[at] == running[at].reload_speed_percent,
{
}

/// What a planned change is answered with: the change itself; the stored dose
/// where nothing is to change; and the refusal in its own words.
pub proof fn a_plan_is_answered(
    outcome: Result<DoseOutcome, DoseError>,
    plan: Result<Option<ChangeView>, Refusal>,
    rows: Seq<DoseView>,
    id: Seq<char>,
)
    requires
        DoseOutcome::is_plan(outcome, plan, rows, id),
    ensures
        (outcome is Ok) == (plan is Ok),
        plan is Ok && plan->Ok_0 is Some ==> outcome->Ok_0 is Change
            && outcome->Ok_0->Change_0@ == plan->Ok_0->0,
        plan is Ok && plan->Ok_0 is None ==> outcome->Ok_0 is Unchanged && doses::find(rows, id)
            == Some(outcome->Ok_0->Unchanged_0@),
        plan == Err::<Option<ChangeView>, Refusal>(Refusal::NotFound) ==> outcome->Err_0
            is NotFound,
        plan == Err::<Option<ChangeView>, Refusal>(Refusal::GoesWithHeal) ==> outcome->Err_0
            is Refused && outcome->Err_0->Refused_0@ == doses::BUFF_GOES_WITH_HEAL@,
        plan == Err::<Option<ChangeView>, Refusal>(Refusal::RemovedWithHeal) ==> outcome->Err_0
            is Refused && outcome->Err_0->Refused_0@ == doses::BUFF_REMOVED_WITH_HEAL@,
        plan == Err::<Option<ChangeView>, Refusal>(Refusal::LaterRuns) ==> outcome->Err_0
            is Refused && outcome->Err_0->Refused_0@ == doses::LATER_DOSE_RUNS@,
{
}

/// The interval a change opens is that of the dose that enters: the one changed,
/// or the one before it where it is in effect; a change that nobody enters by
/// opens none.
pub proof fn a_change_opens_the_entrants_interval(change: DoseChange, now: i64)
    requires
        change.opens_for_entering(now),
    ensures
        change.entering == Entering::Nobody ==> change.opens is None,
        change.entering == Entering::Dose ==> change.opens == doses::context_interval(change.dose),
        change.entering == Entering::Prior && change.prior is Some ==> ({
            let prior = change.prior->0;
            let runs = prior@.removed_at is None && prior@.started_at <= now
                && now < prior@.ends_at();
            &&& runs ==> change.opens == doses::context_interval(prior)
            &&& !runs ==> change.opens is None
        }),
{
}

} // verus!
