//! What holds of intervals and their transitions as a whole.

use crate::intervals;
use crate::intervals::{
    CloseScope, CloseTarget, IntervalKind, IntervalSpec, IntervalView, IntervalsView,
};
use crate::lists;
use vstd::prelude::*;

verus! {

/// The intervals a test does not pick, as a test.
pub open spec fn unpicked(test: spec_fn(IntervalView) -> bool) -> spec_fn(IntervalView) -> bool {
    |interval: IntervalView| !test(interval)
}

/// Two tests that agree on a run filter it alike.
proof fn filters_agree(
    run: Seq<IntervalView>,
    a: spec_fn(IntervalView) -> bool,
    b: spec_fn(IntervalView) -> bool,
)
    requires
        forall|i: int| 0 <= i < run.len() ==> a(#[trigger] run[i]) == b(run[i]),
    ensures
        run.filter(a) == run.filter(b),
    decreases run.len(),
{
    if run.len() == 0 {
        assert(run =~= Seq::empty());
        lists::filter_none(run, a);
        lists::filter_none(run, b);
    } else {
        let rest = run.drop_last();
        assert(run =~= rest.push(run.last()));
        assert forall|i: int| 0 <= i < rest.len() implies a(#[trigger] rest[i]) == b(rest[i]) by {
            assert(rest[i] == run[i]);
        }
        filters_agree(rest, a, b);
        lists::filter_push(rest, run.last(), a);
        lists::filter_push(rest, run.last(), b);
        assert(a(run[run.len() - 1]) == b(run[run.len() - 1]));
    }
}

/// A close ends exactly the intervals it picks: what it returns is what it
/// picked, and everything else stays as it was, in order.
pub proof fn a_close_ends_exactly_what_it_picks(
    state: IntervalsView,
    test: spec_fn(IntervalView) -> bool,
)
    requires
        state.distinct(),
    ensures
        state.open.filter(intervals::among(state.picked(test))) == state.open.filter(test),
        state.without(state.picked(test)) == state.open.filter(unpicked(test)),
{
    let picked = state.open.filter(test);
    let ids = state.picked(test);
    lists::filter_kept(state.open, test);
    assert forall|i: int| 0 <= i < state.open.len() implies intervals::among(ids)(
        #[trigger] state.open[i],
    ) == test(state.open[i]) by {
        let interval = state.open[i];
        if test(interval) {
            let k = choose|k: int| 0 <= k < picked.len() && picked[k] == interval;
            assert(ids[k] == interval.id);
        }
        if ids.contains(interval.id) {
            let k = choose|k: int| 0 <= k < ids.len() && ids[k] == interval.id;
            assert(test(picked[k]));
            let j = choose|j: int| 0 <= j < state.open.len() && state.open[j] == picked[k];
            assert(state.open[j].id == state.open[i].id);
            assert(j == i);
        }
    }
    filters_agree(state.open, intervals::among(ids), test);
    assert forall|i: int| 0 <= i < state.open.len() implies intervals::not_among(ids)(
        #[trigger] state.open[i],
    ) == unpicked(test)(state.open[i]) by {
        assert(intervals::among(ids)(state.open[i]) == test(state.open[i]));
    }
    filters_agree(state.open, intervals::not_among(ids), unpicked(test));
}

/// Closing again what was just closed finds nothing left to end.
pub proof fn closing_twice_ends_nothing_more(
    state: IntervalsView,
    test: spec_fn(IntervalView) -> bool,
    context_id: i64,
)
    requires
        state.distinct(),
    ensures
        state.transitioned(state.picked(test), None, context_id).picked(test).len() == 0,
{
    a_close_ends_exactly_what_it_picks(state, test);
    let rest = state.open.filter(unpicked(test));
    lists::filter_kept(state.open, unpicked(test));
    lists::filter_kept(rest, test);
    let again = rest.filter(test);
    if again.len() > 0 {
        assert(test(again[0]));
        let k = choose|k: int| 0 <= k < rest.len() && rest[k] == again[0];
        assert(unpicked(test)(rest[k]));
    }
}

/// Filtering keeps ids apart.
proof fn filtered_stays_distinct(run: Seq<IntervalView>, test: spec_fn(IntervalView) -> bool)
    requires
        (IntervalsView { open: run, context_id: None }).distinct(),
    ensures
        (IntervalsView { open: run.filter(test), context_id: None }).distinct(),
    decreases run.len(),
{
    if run.len() == 0 {
        assert(run =~= Seq::empty());
        lists::filter_none(run, test);
    } else {
        let rest = run.drop_last();
        let last = run.last();
        assert(run =~= rest.push(last));
        let before = IntervalsView { open: rest, context_id: None };
        assert(before.distinct()) by {
            assert forall|i: int, j: int| 0 <= i < j < rest.len() implies (
            #[trigger] rest[i]).id != (#[trigger] rest[j]).id by {
                assert(rest[i] == run[i] && rest[j] == run[j]);
            }
        }
        filtered_stays_distinct(rest, test);
        lists::filter_push(rest, last, test);
        lists::filter_kept(rest, test);
        let kept = run.filter(test);
        assert forall|i: int, j: int| 0 <= i < j < kept.len() implies (#[trigger] kept[i]).id != (
        #[trigger] kept[j]).id by {
            let older = rest.filter(test);
            assert(kept[i] == older[i]);
            if j < older.len() {
                assert(kept[j] == older[j]);
            } else {
                let k = choose|k: int| 0 <= k < rest.len() && rest[k] == older[i];
                assert(run[k].id != run[run.len() - 1].id);
            }
        }
    }
}

/// A transition keeps the open intervals apart, as long as the one it opens
/// has an id of its own.
pub proof fn transitions_keep_ids_apart(
    state: IntervalsView,
    closing: Seq<i64>,
    opened: Option<IntervalView>,
    context_id: i64,
)
    requires
        state.distinct(),
        opened is Some ==> !intervals::interval_ids(state.open).contains(opened->0.id),
    ensures
        state.transitioned(closing, opened, context_id).distinct(),
{
    let stays = intervals::not_among(closing);
    filtered_stays_distinct(state.open, stays);
    let kept = state.open.filter(stays);
    lists::filter_kept(state.open, stays);
    let after = state.transitioned(closing, opened, context_id);
    assert forall|i: int, j: int| 0 <= i < j < after.open.len() implies (
    #[trigger] after.open[i]).id != (#[trigger] after.open[j]).id by {
        assert((IntervalsView { open: kept, context_id: None }).distinct());
        assert(after.open[i] == kept[i]);
        if j < kept.len() {
            assert(after.open[j] == kept[j]);
        } else {
            let k = choose|k: int| 0 <= k < state.open.len() && state.open[k] == kept[i];
            assert(intervals::interval_ids(state.open)[k] == kept[i].id);
        }
    }
}

/// A kind that admits one at a time holds exactly the interval just opened.
pub proof fn opening_replaces_the_same_kind(
    state: IntervalsView,
    opened: IntervalSpec,
    interval_id: i64,
    context_id: i64,
)
    requires
        state.distinct(),
        opened.closes == CloseScope::SameKind,
    ensures
        state.transitioned(
            state.sealing(opened),
            Some(intervals::interval_of(opened, interval_id)),
            context_id,
        ).open.filter(intervals::of_kind(opened.kind)) == seq![
            intervals::interval_of(opened, interval_id),
        ],
{
    let sealed = intervals::sealed_by(opened.closes, opened.kind);
    let test = intervals::of_kind(opened.kind);
    a_close_ends_exactly_what_it_picks(state, sealed);
    let rest = state.open.filter(unpicked(sealed));
    none_left(state.open, sealed, test);
    lists::filter_push(rest, intervals::interval_of(opened, interval_id), test);
    assert(rest.filter(test).push(intervals::interval_of(opened, interval_id)) =~= seq![
        intervals::interval_of(opened, interval_id),
    ]);
}

/// What one test removed, a narrower test no longer finds.
proof fn none_left(
    run: Seq<IntervalView>,
    removed: spec_fn(IntervalView) -> bool,
    test: spec_fn(IntervalView) -> bool,
)
    requires
        forall|interval: IntervalView| #[trigger] test(interval) ==> removed(interval),
    ensures
        run.filter(unpicked(removed)).filter(test) == Seq::<IntervalView>::empty(),
{
    let rest = run.filter(unpicked(removed));
    lists::filter_kept(run, unpicked(removed));
    lists::filter_kept(rest, test);
    let found = rest.filter(test);
    if found.len() > 0 {
        assert(test(found[0]));
        let k = choose|k: int| 0 <= k < rest.len() && rest[k] == found[0];
        assert(unpicked(removed)(rest[k]));
    }
    assert(found =~= Seq::empty());
}

/// An exclusive switch leaves the declared activity as the only one standing,
/// whichever kind it and the ones before it were.
pub proof fn a_switch_leaves_only_its_target(
    state: IntervalsView,
    opened: IntervalSpec,
    interval_id: i64,
    context_id: i64,
)
    requires
        state.distinct(),
        intervals::is_activity(opened.kind),
        opened.closes is Kinds,
        opened.closes->Kinds_0@ == seq![IntervalKind::Quest, IntervalKind::Segment],
    ensures
        state.transitioned(
            state.sealing(opened),
            Some(intervals::interval_of(opened, interval_id)),
            context_id,
        ).open.filter(
            intervals::of_kinds(seq![IntervalKind::Quest, IntervalKind::Segment]),
        ) == seq![intervals::interval_of(opened, interval_id)],
{
    let kinds = seq![IntervalKind::Quest, IntervalKind::Segment];
    assert(kinds[0] == IntervalKind::Quest && kinds[1] == IntervalKind::Segment);
    let sealed = intervals::sealed_by(opened.closes, opened.kind);
    let test = intervals::of_kinds(kinds);
    a_close_ends_exactly_what_it_picks(state, sealed);
    let rest = state.open.filter(unpicked(sealed));
    none_left(state.open, sealed, test);
    lists::filter_push(rest, intervals::interval_of(opened, interval_id), test);
    assert(rest.filter(test).push(intervals::interval_of(opened, interval_id)) =~= seq![
        intervals::interval_of(opened, interval_id),
    ]);
}

/// Stacking seals nothing: everything standing stays, in order.
pub proof fn stacking_seals_nothing(state: IntervalsView, opened: IntervalSpec)
    requires
        opened.closes == CloseScope::Nothing,
    ensures
        state.sealing(opened).len() == 0,
        state.without(state.sealing(opened)) == state.open,
{
    let sealed = intervals::sealed_by(opened.closes, opened.kind);
    lists::filter_kept(state.open, sealed);
    let picked = state.open.filter(sealed);
    if picked.len() > 0 {
        assert(sealed(picked[0]));
    }
    let ids = state.sealing(opened);
    everything_stays(state.open, intervals::not_among(ids));
}

proof fn everything_stays(run: Seq<IntervalView>, test: spec_fn(IntervalView) -> bool)
    requires
        forall|i: int| 0 <= i < run.len() ==> test(#[trigger] run[i]),
    ensures
        run.filter(test) == run,
    decreases run.len(),
{
    if run.len() == 0 {
        assert(run =~= Seq::empty());
        lists::filter_none(run, test);
    } else {
        let rest = run.drop_last();
        assert(run =~= rest.push(run.last()));
        assert forall|i: int| 0 <= i < rest.len() implies test(#[trigger] rest[i]) by {
            assert(rest[i] == run[i]);
        }
        everything_stays(rest, test);
        lists::filter_push(rest, run.last(), test);
        assert(test(run[run.len() - 1]));
    }
}

/// A switch onto an activity already standing seals the other activities and
/// leaves it as it stands: its stretch is never split.
pub proof fn a_switch_onto_a_standing_activity_keeps_its_stretch(
    state: IntervalsView,
    target: CloseTarget,
    at: int,
    context_id: i64,
)
    requires
        state.distinct(),
        0 <= at < state.open.len(),
        intervals::is_activity(state.open[at].kind),
        target is KindsExceptId,
        target->KindsExceptId_0@ == seq![IntervalKind::Quest, IntervalKind::Segment],
        target->KindsExceptId_1 == state.open[at].id,
    ensures
        state.transitioned(state.picked(target.test()), None, context_id).open.filter(
            intervals::of_kinds(seq![IntervalKind::Quest, IntervalKind::Segment]),
        ) == seq![state.open[at]],
{
    let kinds = seq![IntervalKind::Quest, IntervalKind::Segment];
    assert(kinds[0] == IntervalKind::Quest && kinds[1] == IntervalKind::Segment);
    let test = target.test();
    let standing = intervals::of_kinds(kinds);
    a_close_ends_exactly_what_it_picks(state, test);
    let kept = state.open.filter(unpicked(test));
    lists::filter_kept(state.open, unpicked(test));
    let found = kept.filter(standing);
    lists::filter_kept(kept, standing);
    filtered_stays_distinct(state.open, unpicked(test));
    filtered_stays_distinct(kept, standing);
    assert forall|i: int| 0 <= i < found.len() implies #[trigger] found[i] == state.open[at] by {
        assert(standing(found[i]));
        let k = choose|k: int| 0 <= k < kept.len() && kept[k] == found[i];
        assert(unpicked(test)(kept[k]));
        let j = choose|j: int| 0 <= j < state.open.len() && state.open[j] == kept[k];
        assert(state.open[j].id == state.open[at].id);
        assert(j == at);
    }
    assert(unpicked(test)(state.open[at]));
    assert(kept.contains(state.open[at]));
    let k = choose|k: int| 0 <= k < kept.len() && kept[k] == state.open[at];
    assert(standing(kept[k]));
    assert(found.contains(state.open[at]));
    if found.len() > 1 {
        assert((IntervalsView { open: found, context_id: None }).distinct());
        assert(found[0].id != found[1].id);
    }
    assert(found =~= seq![state.open[at]]);
}

/// A declared zero is in force as zero; only the absence of a modifier is no
/// declaration.
pub proof fn a_declared_zero_is_not_an_absent_modifier(
    state: IntervalsView,
    opened: IntervalSpec,
    interval_id: i64,
    context_id: i64,
)
    requires
        state.distinct(),
        opened.kind == IntervalKind::Modifier,
        opened.closes == CloseScope::SameKind,
        opened.magnitude is Some,
    ensures
        state.transitioned(
            state.sealing(opened),
            Some(intervals::interval_of(opened, interval_id)),
            context_id,
        ).modifier() == opened.magnitude,
{
    opening_replaces_the_same_kind(state, opened, interval_id, context_id);
    let test = intervals::of_kind(IntervalKind::Modifier);
    let after = state.transitioned(
        state.sealing(opened),
        Some(intervals::interval_of(opened, interval_id)),
        context_id,
    );
    first_is_first_kept(after.open, test);
    assert(after.open.filter(test)[0] == intervals::interval_of(opened, interval_id));
}

/// The first interval a test picks is the first of those it keeps.
proof fn first_is_first_kept(run: Seq<IntervalView>, test: spec_fn(IntervalView) -> bool)
    ensures
        run.filter(test).len() == 0 ==> intervals::first_of(run, test) is None,
        run.filter(test).len() > 0 ==> intervals::first_of(run, test) == Some(
            run.filter(test)[0],
        ),
    decreases run.len(),
{
    if run.len() == 0 {
        assert(run =~= Seq::empty());
        lists::filter_none(run, test);
    } else {
        let head = seq![run[0]];
        let rest = run.skip(1);
        assert(run =~= head + rest);
        first_is_first_kept(rest, test);
        lists::filter_add(head, rest, test);
        lists::filter_none(Seq::<IntervalView>::empty(), test);
        assert(head =~= Seq::<IntervalView>::empty().push(run[0]));
        lists::filter_push(Seq::<IntervalView>::empty(), run[0], test);
    }
}

} // verus!
