//! What holds of the doses as a whole: what a session's doses cost, and that
//! the doses of an item never stack.

use crate::doses;
use crate::doses::{ChangeView, DoseRemoval, DoseView, Entering, Refusal};
use crate::lists;
use vstd::prelude::*;

verus! {

/// The stored doses with one of them written: in place of its older self, or
/// as a new one.
pub open spec fn stored(rows: Seq<DoseView>, dose: DoseView) -> Seq<DoseView> {
    if doses::find(rows, dose.id) is Some {
        Seq::new(
            rows.len(),
            |i: int|
                if rows[i].id == dose.id {
                    dose
                } else {
                    rows[i]
                },
        )
    } else {
        rows.push(dose)
    }
}

/// The stored doses after a change.
pub open spec fn written(
    rows: Seq<DoseView>,
    change: ChangeView,
    interval: Option<i64>,
) -> Seq<DoseView> {
    let first = match change.settled_prior(interval) {
        Some(prior) => stored(rows, prior),
        None => rows,
    };
    stored(first, change.settled_dose(interval))
}

/// Every stored dose has its own id.
pub open spec fn distinct(rows: Seq<DoseView>) -> bool {
    forall|i: int, j: int|
        0 <= i < j < rows.len() ==> (#[trigger] rows[i]).id != (#[trigger] rows[j]).id
}

/// What a standing dose booked to a session.
pub open spec fn booked_to(session: Seq<char>) -> spec_fn(DoseView) -> int {
    |dose: DoseView|
        if dose.session_id == Some(session) && dose.stands() {
            dose.cost_ped
        } else {
            0
        }
}

/// What a session's standing doses booked.
pub open spec fn standing_cost(rows: Seq<DoseView>, session: Seq<char>) -> int {
    lists::total(rows, booked_to(session))
}

/// What a change moves on a session's row: the cost of a dose of that session,
/// where it has one.
pub open spec fn row_moves(change: ChangeView, session: Seq<char>) -> int {
    if change.dose.session_id == Some(session) && change.dose.cost_ped > 0 {
        doses::cost_moved(change.dose, change.gives_back)
    } else {
        0
    }
}

/// No stored dose has a negative cost.
pub open spec fn costs_positive(rows: Seq<DoseView>) -> bool {
    forall|i: int| 0 <= i < rows.len() ==> (#[trigger] rows[i]).cost_ped >= 0
}

proof fn found_by_id(rows: Seq<DoseView>, at: int)
    requires
        distinct(rows),
        0 <= at < rows.len(),
    ensures
        doses::find(rows, rows[at].id) == Some(rows[at]),
{
    doses::found_is_stored(rows, rows[at].id);
    let found = doses::find(rows, rows[at].id)->0;
    let j = choose|j: int| 0 <= j < rows.len() && rows[j] == found;
    if j < at {
        assert(rows[j].id != rows[at].id);
    } else if at < j {
        assert(rows[at].id != rows[j].id);
    }
}

proof fn stored_totals(rows: Seq<DoseView>, dose: DoseView, figure: spec_fn(DoseView) -> int)
    requires
        distinct(rows),
    ensures
        lists::total(stored(rows, dose), figure) == lists::total(rows, figure) + figure(dose) - (
        match doses::find(rows, dose.id) {
            Some(old) => figure(old),
            None => 0,
        }),
{
    doses::found_is_stored(rows, dose.id);
    match doses::find(rows, dose.id) {
        Some(old) => {
            let at = choose|at: int| 0 <= at < rows.len() && rows[at] == old;
            assert(stored(rows, dose) =~= rows.update(at, dose)) by {
                assert forall|i: int| 0 <= i < rows.len() implies stored(rows, dose)[i]
                    == rows.update(at, dose)[i] by {
                    if i < at {
                        assert(rows[i].id != rows[at].id);
                    } else if at < i {
                        assert(rows[at].id != rows[i].id);
                    }
                }
            }
            lists::total_update(rows, at, dose, figure);
        },
        None => {
            lists::total_push(rows, dose, figure);
        },
    }
}

proof fn stored_keeps_others(rows: Seq<DoseView>, dose: DoseView, id: Seq<char>)
    requires
        distinct(rows),
    ensures
        distinct(stored(rows, dose)),
        id != dose.id ==> doses::find(stored(rows, dose), id) == doses::find(rows, id),
        doses::find(stored(rows, dose), dose.id) == Some(dose),
        forall|i: int|
            0 <= i < stored(rows, dose).len() ==> (#[trigger] stored(rows, dose)[i]) == dose || (
            rows.contains(stored(rows, dose)[i]) && stored(rows, dose)[i].id != dose.id),
        forall|i: int|
            0 <= i < rows.len() && (#[trigger] rows[i]).id != dose.id ==> stored(
                rows,
                dose,
            ).contains(rows[i]),
        stored(rows, dose).contains(dose),
{
    let after = stored(rows, dose);
    doses::found_is_stored(rows, dose.id);
    match doses::find(rows, dose.id) {
        Some(old) => {
            let at = choose|at: int| 0 <= at < rows.len() && rows[at] == old;
            assert(after[at] == dose);
            assert forall|i: int, j: int| 0 <= i < j < after.len() implies (#[trigger] after[i]).id
                != (#[trigger] after[j]).id by {
                assert(rows[i].id != rows[j].id);
            }
            assert forall|i: int| 0 <= i < rows.len() && (#[trigger] rows[i]).id
                != dose.id implies after.contains(rows[i]) by {
                assert(after[i] == rows[i]);
            }
        },
        None => {
            assert(after[rows.len() as int] == dose);
            assert forall|i: int, j: int| 0 <= i < j < after.len() implies (#[trigger] after[i]).id
                != (#[trigger] after[j]).id by {
                assert(after[i] == rows[i]);
                if j < rows.len() {
                    assert(after[j] == rows[j]);
                } else {
                    assert(rows[i].id != dose.id);
                }
            }
            assert forall|i: int| 0 <= i < rows.len() && (#[trigger] rows[i]).id
                != dose.id implies after.contains(rows[i]) by {
                assert(after[i] == rows[i]);
            }
        },
    }
    doses::found_is_stored(after, dose.id);
    let slot = choose|slot: int| 0 <= slot < after.len() && after[slot] == dose;
    found_by_id(after, slot);
    if id != dose.id {
        doses::found_is_stored(rows, id);
        doses::found_is_stored(after, id);
        match doses::find(rows, id) {
            Some(other) => {
                let at = choose|at: int| 0 <= at < rows.len() && rows[at] == other;
                let now = choose|now: int| 0 <= now < after.len() && after[now] == rows[at];
                found_by_id(after, now);
            },
            None => {
                if let Some(other) = doses::find(after, id) {
                    let at = choose|at: int| 0 <= at < after.len() && after[at] == other;
                    assert(rows.contains(after[at]));
                    let was = choose|was: int| 0 <= was < rows.len() && rows[was] == other;
                    assert(rows[was].id == id);
                }
            },
        }
    }
}

/// The standing dose a chain leads to is stored, was not passed on the way,
/// and is of the item the chain is of.
proof fn walked_stands(
    rows: Seq<DoseView>,
    link: Option<Seq<char>>,
    seen: Seq<Seq<char>>,
    item: Option<i64>,
)
    requires
        of_one_item(rows),
        forall|j: int|
            0 <= j < rows.len() && link == Some((#[trigger] rows[j]).id) ==> rows[j].equipment_id
                == item,
    ensures
        match doses::walked(rows, link, seen) {
            Ok(Some(prior)) => {
                &&& prior.stands()
                &&& !seen.contains(prior.id)
                &&& doses::find(rows, prior.id) == Some(prior)
                &&& rows.contains(prior)
                &&& prior.equipment_id == item
            },
            _ => true,
        },
    decreases lists::count(rows, doses::unseen(seen)),
{
    if let Some(id) = link {
        doses::found_is_stored(rows, id);
        if !seen.contains(id) && doses::find(rows, id) is Some {
            let prior = doses::find(rows, id)->0;
            let at = choose|at: int| 0 <= at < rows.len() && rows[at] == prior;
            assert(rows[at].equipment_id == item);
            if !prior.stands() {
                doses::seeing_leaves_fewer(rows, seen, id);
                assert(rows[at].id == id);
                assert forall|j: int|
                    0 <= j < rows.len() && prior.supersedes_dose_id == Some(
                        (#[trigger] rows[j]).id,
                    ) implies rows[j].equipment_id == item by {
                    assert(rows[at].supersedes_dose_id == Some(rows[j].id));
                }
                walked_stands(rows, prior.supersedes_dose_id, seen.push(id), item);
                if let Ok(Some(found)) = doses::walked(
                    rows,
                    prior.supersedes_dose_id,
                    seen.push(id),
                ) {
                    if seen.contains(found.id) {
                        let k = choose|k: int| 0 <= k < seen.len() && seen[k] == found.id;
                        assert(seen.push(id)[k] == found.id);
                    }
                }
            }
        }
    }
}

/// A dose replaces a dose of its own item.
pub open spec fn of_one_item(rows: Seq<DoseView>) -> bool {
    forall|i: int, j: int|
        0 <= i < rows.len() && 0 <= j < rows.len() && (#[trigger] rows[i]).supersedes_dose_id
            == Some((#[trigger] rows[j]).id) ==> rows[i].equipment_id == rows[j].equipment_id
}

/// From an instant on, no two standing doses of an item count at once.
pub open spec fn never_stacks(rows: Seq<DoseView>, from: int) -> bool {
    forall|i: int, j: int, at: int|
        0 <= i < rows.len() && 0 <= j < rows.len() && i != j && from <= at
            && rows[i].equipment_id is Some && rows[i].equipment_id == rows[j].equipment_id
            && #[trigger] rows[i].in_effect_at(at) ==> !(#[trigger] rows[j].in_effect_at(at))
}

/// What the stored doses and the running ones keep at every instant: ids and
/// lineages are sound, none starts ahead of the clock or was ended before it
/// started, what stands was removed by nobody, what runs is exactly what
/// stands and is not over, and no two doses of an item count at once from here
/// on.
pub open spec fn sound(rows: Seq<DoseView>, running: Seq<DoseView>, now: int) -> bool {
    &&& distinct(rows)
    &&& of_one_item(rows)
    &&& forall|i: int| 0 <= i < rows.len() ==> (#[trigger] rows[i]).started_at <= now
    &&& forall|i: int|
        0 <= i < rows.len() && (#[trigger] rows[i]).superseded_at is Some ==> rows[i].started_at
            <= rows[i].superseded_at->0
    &&& forall|i: int|
        0 <= i < rows.len() && (#[trigger] rows[i]).stands() ==> rows[i].removed_by is None
    &&& forall|i: int|
        0 <= i < running.len() ==> rows.contains(#[trigger] running[i]) && running[i].stands()
            && running[i].ends_at() > now
    &&& forall|i: int|
        0 <= i < rows.len() && (#[trigger] rows[i]).stands() && rows[i].ends_at() > now
            ==> running.contains(rows[i])
    &&& never_stacks(rows, now)
}

/// What a change leaves stored: the dose, the earlier dose it moved, and every
/// other dose as it was.
proof fn written_holds(rows: Seq<DoseView>, change: ChangeView, interval: Option<i64>)
    requires
        distinct(rows),
        change.prior is Some ==> change.prior->0.id != change.dose.id,
    ensures
        ({
            let after = written(rows, change, interval);
            let dose = change.settled_dose(interval);
            let prior = change.settled_prior(interval);
            &&& distinct(after)
            &&& after.contains(dose)
            &&& prior is Some ==> after.contains(prior->0)
            &&& forall|i: int|
                0 <= i < after.len() ==> (#[trigger] after[i]) == dose || prior == Some(after[i])
                    || (rows.contains(after[i]) && after[i].id != dose.id && (prior is None
                    || after[i].id != prior->0.id))
            &&& forall|i: int|
                0 <= i < rows.len() && (#[trigger] rows[i]).id != dose.id && (prior is None
                    || rows[i].id != prior->0.id) ==> after.contains(rows[i])
            &&& doses::find(after, dose.id) == Some(dose)
        }),
{
    let dose = change.settled_dose(interval);
    let prior = change.settled_prior(interval);
    let first = match prior {
        Some(prior) => stored(rows, prior),
        None => rows,
    };
    if let Some(prior) = prior {
        stored_keeps_others(rows, prior, dose.id);
    }
    stored_keeps_others(first, dose, dose.id);
    let after = written(rows, change, interval);
    if let Some(prior) = prior {
        let at = choose|at: int| 0 <= at < first.len() && first[at] == prior;
        assert(first[at].id != dose.id);
        assert(after.contains(first[at]));
    }
    assert forall|i: int| 0 <= i < after.len() implies (#[trigger] after[i]) == dose || prior
        == Some(after[i]) || (rows.contains(after[i]) && after[i].id != dose.id && (prior is None
        || after[i].id != prior->0.id)) by {
        if after[i] != dose {
            let k = choose|k: int| 0 <= k < first.len() && first[k] == after[i];
            assert(first[k] == after[i]);
        }
    }
    assert forall|i: int|
        0 <= i < rows.len() && (#[trigger] rows[i]).id != dose.id && (prior is None || rows[i].id
            != prior->0.id) implies after.contains(rows[i]) by {
        if prior is Some {
            assert(first.contains(rows[i]));
        }
        let k = choose|k: int| 0 <= k < first.len() && first[k] == rows[i];
        assert(first[k].id != dose.id);
    }
}

proof fn same_id_is_same(rows: Seq<DoseView>, a: DoseView, b: DoseView)
    requires
        distinct(rows),
        rows.contains(a),
        rows.contains(b),
        a.id == b.id,
    ensures
        a == b,
{
    let i = choose|i: int| 0 <= i < rows.len() && rows[i] == a;
    let j = choose|j: int| 0 <= j < rows.len() && rows[j] == b;
    if i < j {
        assert(rows[i].id != rows[j].id);
    } else if j < i {
        assert(rows[j].id != rows[i].id);
    }
}

proof fn counting_once(rows: Seq<DoseView>, from: int, a: DoseView, b: DoseView, at: int)
    requires
        never_stacks(rows, from),
        rows.contains(a),
        rows.contains(b),
        from <= at,
        a.equipment_id is Some,
        a.equipment_id == b.equipment_id,
        a.in_effect_at(at),
        b.in_effect_at(at),
    ensures
        a == b,
{
    let i = choose|i: int| 0 <= i < rows.len() && rows[i] == a;
    let j = choose|j: int| 0 <= j < rows.len() && rows[j] == b;
    if i != j {
        assert(rows[i].in_effect_at(at));
        assert(!rows[j].in_effect_at(at));
    }
}

/// Time passing keeps the doses sound, with what ended swept out.
pub proof fn time_keeps_the_doses_sound(
    rows: Seq<DoseView>,
    running: Seq<DoseView>,
    now: i64,
    later: i64,
)
    requires
        sound(rows, running, now as int),
        now <= later,
    ensures
        sound(rows, running.filter(doses::lasting(later)), later as int),
{
    let keep = doses::lasting(later);
    let after = running.filter(keep);
    lists::filter_kept(running, keep);
    assert forall|i: int| 0 <= i < after.len() implies rows.contains(#[trigger] after[i])
        && after[i].stands() && after[i].ends_at() > later by {
        assert(keep(after[i]));
        let k = choose|k: int| 0 <= k < running.len() && running[k] == after[i];
        assert(rows.contains(running[k]));
    }
    assert forall|i: int|
        0 <= i < rows.len() && (#[trigger] rows[i]).stands() && rows[i].ends_at()
            > later implies after.contains(rows[i]) by {
        assert(running.contains(rows[i]));
        let k = choose|k: int| 0 <= k < running.len() && running[k] == rows[i];
        assert(keep(running[k]));
    }
}

proof fn prior_runs(running: Seq<DoseView>, item: i64, now: int)
    ensures
        match doses::running_prior(running, item, now) {
            Some(prior) => running.contains(prior) && prior.equipment_id == Some(item)
                && prior.in_effect_at(now),
            None => forall|i: int|
                0 <= i < running.len() ==> !((#[trigger] running[i]).equipment_id == Some(item)
                    && running[i].in_effect_at(now)),
        },
    decreases running.len(),
{
    if running.len() > 0 && !(running[0].equipment_id == Some(item) && running[0].in_effect_at(
        now,
    )) {
        let rest = running.skip(1);
        prior_runs(rest, item, now);
        match doses::running_prior(rest, item, now) {
            Some(prior) => {
                let k = choose|k: int| 0 <= k < rest.len() && rest[k] == prior;
                assert(running[k + 1] == prior);
            },
            None => {
                assert forall|i: int| 0 <= i < running.len() implies !((
                #[trigger] running[i]).equipment_id == Some(item) && running[i].in_effect_at(
                    now,
                )) by {
                    if i > 0 {
                        assert(running[i] == rest[i - 1]);
                    }
                }
            },
        }
    } else if running.len() > 0 {
        assert(running.contains(running[0]));
    }
}

/// Starting a dose keeps the doses sound: a running dose of the item ends
/// where the new one starts, so the two never stack.
pub proof fn starting_keeps_the_doses_sound(
    rows: Seq<DoseView>,
    running: Seq<DoseView>,
    dose: DoseView,
    item: i64,
    now: i64,
    interval: Option<i64>,
)
    requires
        sound(rows, running, now as int),
        doses::find(rows, dose.id) is None,
        forall|i: int|
            0 <= i < rows.len() ==> (#[trigger] rows[i]).supersedes_dose_id != Some(dose.id),
        dose.equipment_id == Some(item),
        dose.started_at == now,
        dose.superseded_at is None,
        dose.removed_at is None,
        dose.removed_by is None,
        dose.supersedes_dose_id == (match doses::running_prior(running, item, now as int) {
            Some(prior) => Some(prior.id),
            None => None,
        }),
    ensures
        ({
            let change = doses::start_plan(
                dose,
                doses::running_prior(running, item, now as int),
            );
            sound(
                written(rows, change, interval),
                doses::adopted(running, change, interval),
                now as int,
            )
        }),
{
    let prior = doses::running_prior(running, item, now as int);
    let change = doses::start_plan(dose, prior);
    let taken = change.settled_dose(interval);
    let ended = change.settled_prior(interval);
    let after = written(rows, change, interval);
    let keep = doses::remaining(change.leaves);
    let still = running.filter(keep);
    let runs = doses::adopted(running, change, interval);
    prior_runs(running, item, now as int);
    doses::found_is_stored(rows, dose.id);
    if let Some(prior) = prior {
        let k = choose|k: int| 0 <= k < running.len() && running[k] == prior;
        assert(rows.contains(running[k]));
        let m = choose|m: int| 0 <= m < rows.len() && rows[m] == prior;
        assert(rows[m].id != dose.id);
    }
    written_holds(rows, change, interval);
    lists::filter_kept(running, keep);
    // Lineage.
    assert(of_one_item(after)) by {
        assert forall|i: int, j: int|
            0 <= i < after.len() && 0 <= j < after.len() && (
            #[trigger] after[i]).supersedes_dose_id == Some(
                (#[trigger] after[j]).id,
            ) implies after[i].equipment_id == after[j].equipment_id by {
            lineage_kept(rows, after, taken, prior, ended, i, j);
        }
    }
    // What runs is what stands and is not over.
    assert forall|i: int| 0 <= i < runs.len() implies after.contains(#[trigger] runs[i])
        && runs[i].stands() && runs[i].ends_at() > now by {
        if i < still.len() {
            assert(runs[i] == still[i]);
            assert(keep(still[i]));
            let k = choose|k: int| 0 <= k < running.len() && running[k] == still[i];
            assert(rows.contains(running[k]));
            let m = choose|m: int| 0 <= m < rows.len() && rows[m] == still[i];
            assert(rows[m].id != dose.id);
            assert(after.contains(rows[m]));
        } else {
            assert(runs[i] == taken);
        }
    }
    assert forall|i: int|
        0 <= i < after.len() && (#[trigger] after[i]).stands() && after[i].ends_at()
            > now implies runs.contains(after[i]) by {
        if after[i] == taken {
            assert(runs[still.len() as int] == taken);
        } else if ended == Some(after[i]) {
        } else {
            let m = choose|m: int| 0 <= m < rows.len() && rows[m] == after[i];
            assert(running.contains(rows[m]));
            let k = choose|k: int| 0 <= k < running.len() && running[k] == rows[m];
            assert(keep(running[k]));
            let at = choose|at: int| 0 <= at < still.len() && still[at] == running[k];
            assert(runs[at] == after[i]);
        }
    }
    // No two doses of an item count at once.
    assert(never_stacks(after, now as int)) by {
        assert forall|i: int, j: int, at: int|
            0 <= i < after.len() && 0 <= j < after.len() && i != j && now <= at
                && after[i].equipment_id is Some && after[i].equipment_id == after[j].equipment_id
                && #[trigger] after[i].in_effect_at(at) implies !(
        #[trigger] after[j].in_effect_at(at)) by {
            if after[j].in_effect_at(at) {
                assert(after[i].id != after[j].id) by {
                    if i < j {
                        assert(after[i].id != after[j].id);
                    } else {
                        assert(after[j].id != after[i].id);
                    }
                }
                start_pair(rows, running, dose, item, now, interval, after[i], after[j], at);
            }
        }
    }
    assert forall|i: int| 0 <= i < after.len() implies (#[trigger] after[i]).started_at <= now by {
        if after[i] != taken && ended != Some(after[i]) {
            let m = choose|m: int| 0 <= m < rows.len() && rows[m] == after[i];
            assert(rows[m].started_at <= now);
        }
    }
    assert forall|i: int|
        0 <= i < after.len() && (
        #[trigger] after[i]).superseded_at is Some implies after[i].started_at
        <= after[i].superseded_at->0 by {
        if after[i] != taken && ended != Some(after[i]) {
            let m = choose|m: int| 0 <= m < rows.len() && rows[m] == after[i];
            assert(rows[m].superseded_at is Some);
        }
    }
    assert forall|i: int| 0 <= i < after.len() && (
    #[trigger] after[i]).stands() implies after[i].removed_by is None by {
        if after[i] != taken {
            let m = choose|m: int| 0 <= m < rows.len() && rows[m] == if ended == Some(after[i]) {
                prior->0
            } else {
                after[i]
            };
            assert(rows[m].stands());
        }
    }
}

/// After a start, two doses of an item that count at once are one dose.
proof fn start_pair(
    rows: Seq<DoseView>,
    running: Seq<DoseView>,
    dose: DoseView,
    item: i64,
    now: i64,
    interval: Option<i64>,
    a: DoseView,
    b: DoseView,
    at: int,
)
    requires
        sound(rows, running, now as int),
        dose.equipment_id == Some(item),
        dose.started_at == now,
        ({
            let prior = doses::running_prior(running, item, now as int);
            let change = doses::start_plan(dose, prior);
            let taken = change.settled_dose(interval);
            let ended = change.settled_prior(interval);
            &&& a == taken || ended == Some(a) || (rows.contains(a) && (prior is None || a.id
                != prior->0.id))
            &&& b == taken || ended == Some(b) || (rows.contains(b) && (prior is None || b.id
                != prior->0.id))
        }),
        now <= at,
        a.equipment_id is Some,
        a.equipment_id == b.equipment_id,
        a.in_effect_at(at),
        b.in_effect_at(at),
    ensures
        a.id == b.id,
{
    let prior = doses::running_prior(running, item, now as int);
    let change = doses::start_plan(dose, prior);
    let taken = change.settled_dose(interval);
    let ended = change.settled_prior(interval);
    prior_runs(running, item, now as int);
    assert(ended != Some(a) && ended != Some(b));
    if a == taken && b != taken {
        start_clash(rows, running, item, now, b, at);
    } else if b == taken && a != taken {
        start_clash(rows, running, item, now, a, at);
    } else if a != taken && b != taken {
        counting_once(rows, now as int, a, b, at);
    }
}

/// A stored dose of an item that counts from now on is the running one.
proof fn start_clash(
    rows: Seq<DoseView>,
    running: Seq<DoseView>,
    item: i64,
    now: i64,
    other: DoseView,
    at: int,
)
    requires
        sound(rows, running, now as int),
        rows.contains(other),
        other.equipment_id == Some(item),
        now <= at,
        other.in_effect_at(at),
    ensures
        doses::running_prior(running, item, now as int) == Some(other),
{
    let m = choose|m: int| 0 <= m < rows.len() && rows[m] == other;
    assert(rows[m].started_at <= now);
    assert(running.contains(rows[m]));
    prior_runs(running, item, now as int);
    let k = choose|k: int| 0 <= k < running.len() && running[k] == other;
    assert(running[k].equipment_id == Some(item) && running[k].in_effect_at(now as int));
    let prior = doses::running_prior(running, item, now as int)->0;
    let p = choose|p: int| 0 <= p < running.len() && running[p] == prior;
    assert(rows.contains(running[p]));
    counting_once(rows, now as int, other, prior, now as int);
}

/// A change keeps every link within one item.
proof fn lineage_kept(
    rows: Seq<DoseView>,
    after: Seq<DoseView>,
    taken: DoseView,
    before: Option<DoseView>,
    moved: Option<DoseView>,
    i: int,
    j: int,
)
    requires
        of_one_item(rows),
        0 <= i < after.len(),
        0 <= j < after.len(),
        after[i].supersedes_dose_id == Some(after[j].id),
        forall|k: int|
            0 <= k < after.len() ==> (#[trigger] after[k]) == taken || moved == Some(after[k])
                || rows.contains(after[k]),
        before is Some ==> rows.contains(before->0),
        moved is Some ==> before is Some && moved->0.id == before->0.id
            && moved->0.equipment_id == before->0.equipment_id && moved->0.supersedes_dose_id
            == before->0.supersedes_dose_id,
        // The new dose is named by nobody, and names its prior.
        forall|k: int|
            0 <= k < rows.len() ==> (#[trigger] rows[k]).supersedes_dose_id != Some(taken.id),
        taken.supersedes_dose_id != Some(taken.id),
        taken.supersedes_dose_id is Some ==> before is Some && taken.supersedes_dose_id == Some(
            before->0.id,
        ) && taken.equipment_id == before->0.equipment_id,
        distinct(rows),
    ensures
        after[i].equipment_id == after[j].equipment_id,
{
    if after[j] == taken {
        if after[i] != taken {
            let source = if moved == Some(after[i]) {
                before->0
            } else {
                after[i]
            };
            let k = choose|k: int| 0 <= k < rows.len() && rows[k] == source;
            assert(rows[k].supersedes_dose_id != Some(taken.id));
        }
    } else {
        let target = if moved == Some(after[j]) {
            before->0
        } else {
            after[j]
        };
        assert(rows.contains(target));
        if after[i] == taken {
            same_id_is_same(rows, target, before->0);
        } else {
            let source = if moved == Some(after[i]) {
                before->0
            } else {
                after[i]
            };
            let a = choose|a: int| 0 <= a < rows.len() && rows[a] == source;
            let b = choose|b: int| 0 <= b < rows.len() && rows[b] == target;
            assert(rows[a].supersedes_dose_id == Some(rows[b].id));
        }
    }
}

/// A change of stored doses keeps every link within one item.
proof fn lineage_stays(
    rows: Seq<DoseView>,
    after: Seq<DoseView>,
    old: DoseView,
    new: DoseView,
    before: Option<DoseView>,
    moved: Option<DoseView>,
)
    requires
        of_one_item(rows),
        rows.contains(old),
        new.id == old.id,
        new.equipment_id == old.equipment_id,
        new.supersedes_dose_id == old.supersedes_dose_id,
        before is Some ==> rows.contains(before->0),
        moved is Some ==> before is Some && moved->0.id == before->0.id && moved->0.equipment_id
            == before->0.equipment_id && moved->0.supersedes_dose_id
            == before->0.supersedes_dose_id,
        forall|k: int|
            0 <= k < after.len() ==> (#[trigger] after[k]) == new || moved == Some(after[k])
                || rows.contains(after[k]),
    ensures
        of_one_item(after),
{
    assert forall|i: int, j: int|
        0 <= i < after.len() && 0 <= j < after.len() && (#[trigger] after[i]).supersedes_dose_id
            == Some((#[trigger] after[j]).id) implies after[i].equipment_id
        == after[j].equipment_id by {
        let source = if after[i] == new {
            old
        } else if moved == Some(after[i]) {
            before->0
        } else {
            after[i]
        };
        let target = if after[j] == new {
            old
        } else if moved == Some(after[j]) {
            before->0
        } else {
            after[j]
        };
        let a = choose|a: int| 0 <= a < rows.len() && rows[a] == source;
        let b = choose|b: int| 0 <= b < rows.len() && rows[b] == target;
        assert(rows[a].supersedes_dose_id == Some(rows[b].id));
    }
}

/// The standing dose a stored dose replaced: it is stored, another, and of the
/// same item.
proof fn prior_is_stored(rows: Seq<DoseView>, old: DoseView, dose: DoseView)
    requires
        of_one_item(rows),
        rows.contains(old),
        dose.id == old.id,
        dose.equipment_id == old.equipment_id,
        dose.supersedes_dose_id == old.supersedes_dose_id,
    ensures
        match doses::standing_prior_of(rows, dose) {
            Ok(Some(prior)) => {
                &&& prior.stands()
                &&& prior.id != dose.id
                &&& rows.contains(prior)
                &&& doses::find(rows, prior.id) == Some(prior)
                &&& prior.equipment_id == dose.equipment_id
            },
            _ => true,
        },
{
    let at = choose|at: int| 0 <= at < rows.len() && rows[at] == old;
    assert forall|j: int|
        0 <= j < rows.len() && dose.supersedes_dose_id == Some(
            (#[trigger] rows[j]).id,
        ) implies rows[j].equipment_id == dose.equipment_id by {
        assert(rows[at].supersedes_dose_id == Some(rows[j].id));
    }
    walked_stands(rows, dose.supersedes_dose_id, seq![dose.id], dose.equipment_id);
    if let Ok(Some(prior)) = doses::standing_prior_of(rows, dose) {
        assert(seq![dose.id][0] == dose.id);
    }
}

/// Whether no other dose of an item runs than this one.
pub open spec fn runs_alone(running: Seq<DoseView>, dose: DoseView) -> bool {
    forall|i: int|
        0 <= i < running.len() && dose.equipment_id is Some && (
        #[trigger] running[i]).equipment_id == dose.equipment_id ==> running[i].id == dose.id
}

/// Removing a dose keeps the doses sound. The dose that runs on in its place
/// must find no other of the item running: one taken after the removed dose
/// had run out would count beside it.
pub proof fn removing_keeps_the_doses_sound(
    rows: Seq<DoseView>,
    running: Seq<DoseView>,
    id: Seq<char>,
    by: DoseRemoval,
    now: i64,
    change: ChangeView,
    interval: Option<i64>,
)
    requires
        sound(rows, running, now as int),
        doses::removal(rows, id, by, now) == Ok::<Option<ChangeView>, Refusal>(Some(change)),
        change.entering == Entering::Prior ==> runs_alone(running, change.dose),
    ensures
        sound(
            written(rows, change, interval),
            doses::adopted(running, change, interval),
            now as int,
        ),
{
    doses::found_is_stored(rows, id);
    let dose = doses::find(rows, id)->0;
    prior_is_stored(rows, dose, dose);
    let before = doses::standing_prior_of(rows, dose)->Ok_0;
    let gone = change.settled_dose(interval);
    let back = change.settled_prior(interval);
    let after = written(rows, change, interval);
    let keep = doses::remaining(change.leaves);
    let still = running.filter(keep);
    let runs = doses::adopted(running, change, interval);
    written_holds(rows, change, interval);
    lists::filter_kept(running, keep);
    lineage_stays(rows, after, dose, gone, before, back);
    let d = choose|d: int| 0 <= d < rows.len() && rows[d] == dose;
    assert(rows[d].started_at <= now);
    if back is Some {
        let p = choose|p: int| 0 <= p < rows.len() && rows[p] == before->0;
        assert(rows[p].started_at <= now);
        assert(rows[p].superseded_at is Some);
        assert(before->0.ends_at() <= now);
    }
    assert forall|i: int| 0 <= i < runs.len() implies after.contains(#[trigger] runs[i])
        && runs[i].stands() && runs[i].ends_at() > now by {
        if i < still.len() {
            assert(runs[i] == still[i]);
            assert(keep(still[i]));
            let k = choose|k: int| 0 <= k < running.len() && running[k] == still[i];
            assert(rows.contains(running[k]));
            let m = choose|m: int| 0 <= m < rows.len() && rows[m] == still[i];
            if back is Some && rows[m].id == back->0.id {
                same_id_is_same(rows, rows[m], before->0);
            }
            assert(after.contains(rows[m]));
        } else {
            assert(Some(runs[i]) == back);
        }
    }
    assert forall|i: int|
        0 <= i < after.len() && (#[trigger] after[i]).stands() && after[i].ends_at()
            > now implies runs.contains(after[i]) by {
        if back == Some(after[i]) {
            assert(runs[still.len() as int] == after[i]);
        } else {
            let m = choose|m: int| 0 <= m < rows.len() && rows[m] == after[i];
            assert(running.contains(rows[m]));
            let k = choose|k: int| 0 <= k < running.len() && running[k] == rows[m];
            assert(keep(running[k]));
            let at = choose|at: int| 0 <= at < still.len() && still[at] == running[k];
            assert(runs[at] == after[i]);
        }
    }
    assert(never_stacks(after, now as int)) by {
        assert forall|i: int, j: int, at: int|
            0 <= i < after.len() && 0 <= j < after.len() && i != j && now <= at
                && after[i].equipment_id is Some && after[i].equipment_id == after[j].equipment_id
                && #[trigger] after[i].in_effect_at(at) implies !(
        #[trigger] after[j].in_effect_at(at)) by {
            if after[j].in_effect_at(at) {
                assert(after[i].id != after[j].id) by {
                    if i < j {
                        assert(after[i].id != after[j].id);
                    } else {
                        assert(after[j].id != after[i].id);
                    }
                }
                if back == Some(after[i]) {
                    counts_now(rows, running, after[j], now, at);
                } else if back == Some(after[j]) {
                    counts_now(rows, running, after[i], now, at);
                } else {
                    counting_once(rows, now as int, after[i], after[j], at);
                }
            }
        }
    }
    assert forall|i: int| 0 <= i < after.len() implies (#[trigger] after[i]).started_at <= now by {
        if after[i] != gone && back != Some(after[i]) {
            let m = choose|m: int| 0 <= m < rows.len() && rows[m] == after[i];
            assert(rows[m].started_at <= now);
        }
    }
    assert forall|i: int|
        0 <= i < after.len() && (
        #[trigger] after[i]).superseded_at is Some implies after[i].started_at
        <= after[i].superseded_at->0 by {
        if after[i] == gone {
            assert(rows[d].superseded_at is Some);
        } else if back == Some(after[i]) {
            assert(rows[d].superseded_at is Some);
        } else {
            let m = choose|m: int| 0 <= m < rows.len() && rows[m] == after[i];
            assert(rows[m].superseded_at is Some);
        }
    }
    assert forall|i: int| 0 <= i < after.len() && (
    #[trigger] after[i]).stands() implies after[i].removed_by is None by {
        if after[i] != gone {
            let m = choose|m: int| 0 <= m < rows.len() && rows[m] == if back == Some(after[i]) {
                before->0
            } else {
                after[i]
            };
            assert(rows[m].stands());
        }
    }
}

/// A stored dose that counts later runs now.
proof fn counts_now(
    rows: Seq<DoseView>,
    running: Seq<DoseView>,
    dose: DoseView,
    now: i64,
    at: int,
)
    requires
        sound(rows, running, now as int),
        rows.contains(dose),
        now <= at,
        dose.in_effect_at(at),
    ensures
        exists|k: int| 0 <= k < running.len() && #[trigger] running[k] == dose,
{
    let m = choose|m: int| 0 <= m < rows.len() && rows[m] == dose;
    assert(rows[m].stands());
    assert(running.contains(rows[m]));
}

/// Restoring a dose keeps the doses sound.
pub proof fn restoring_keeps_the_doses_sound(
    rows: Seq<DoseView>,
    running: Seq<DoseView>,
    id: Seq<char>,
    by: DoseRemoval,
    now: i64,
    change: ChangeView,
    interval: Option<i64>,
)
    requires
        sound(rows, running, now as int),
        doses::restoration(running, rows, id, by, now) == Ok::<Option<ChangeView>, Refusal>(
            Some(change),
        ),
    ensures
        sound(
            written(rows, change, interval),
            doses::adopted(running, change, interval),
            now as int,
        ),
{
    doses::found_is_stored(rows, id);
    let dose = doses::find(rows, id)->0;
    let given = doses::given_back(dose);
    prior_is_stored(rows, dose, given);
    let before = doses::standing_prior_of(rows, given)->Ok_0;
    let taken = doses::displaced(given, before);
    let again = change.settled_dose(interval);
    let ended = change.settled_prior(interval);
    let after = written(rows, change, interval);
    let keep = doses::remaining(change.leaves);
    let still = running.filter(keep);
    let runs = doses::adopted(running, change, interval);
    written_holds(rows, change, interval);
    lists::filter_kept(running, keep);
    lineage_stays(rows, after, dose, again, before, ended);
    let d = choose|d: int| 0 <= d < rows.len() && rows[d] == dose;
    assert(rows[d].started_at <= now);
    assert forall|i: int| 0 <= i < runs.len() implies after.contains(#[trigger] runs[i])
        && runs[i].stands() && runs[i].ends_at() > now by {
        if i < still.len() {
            assert(runs[i] == still[i]);
            assert(keep(still[i]));
            let k = choose|k: int| 0 <= k < running.len() && running[k] == still[i];
            assert(rows.contains(running[k]));
            let m = choose|m: int| 0 <= m < rows.len() && rows[m] == still[i];
            if rows[m].id == dose.id {
                same_id_is_same(rows, rows[m], dose);
            }
            assert(after.contains(rows[m]));
        } else {
            assert(runs[i] == again);
        }
    }
    assert forall|i: int|
        0 <= i < after.len() && (#[trigger] after[i]).stands() && after[i].ends_at()
            > now implies runs.contains(after[i]) by {
        if after[i] == again {
            assert(runs[still.len() as int] == again);
        } else if ended == Some(after[i]) {
        } else {
            let m = choose|m: int| 0 <= m < rows.len() && rows[m] == after[i];
            assert(running.contains(rows[m]));
            let k = choose|k: int| 0 <= k < running.len() && running[k] == rows[m];
            assert(keep(running[k]));
            let at = choose|at: int| 0 <= at < still.len() && still[at] == running[k];
            assert(runs[at] == after[i]);
        }
    }
    assert(never_stacks(after, now as int)) by {
        assert forall|i: int, j: int, at: int|
            0 <= i < after.len() && 0 <= j < after.len() && i != j && now <= at
                && after[i].equipment_id is Some && after[i].equipment_id == after[j].equipment_id
                && #[trigger] after[i].in_effect_at(at) implies !(
        #[trigger] after[j].in_effect_at(at)) by {
            if after[j].in_effect_at(at) {
                assert(after[i].id != after[j].id) by {
                    if i < j {
                        assert(after[i].id != after[j].id);
                    } else {
                        assert(after[j].id != after[i].id);
                    }
                }
                assert(ended != Some(after[i]) && ended != Some(after[j]));
                if after[i] == again {
                    restore_clash(rows, running, given, taken, now, after[j], at);
                } else if after[j] == again {
                    restore_clash(rows, running, given, taken, now, after[i], at);
                } else {
                    counting_once(rows, now as int, after[i], after[j], at);
                }
            }
        }
    }
    assert forall|i: int| 0 <= i < after.len() implies (#[trigger] after[i]).started_at <= now by {
        if after[i] != again {
            let source = if ended == Some(after[i]) {
                taken->0
            } else {
                after[i]
            };
            let m = choose|m: int| 0 <= m < rows.len() && rows[m] == source;
            assert(rows[m].started_at <= now);
        }
    }
    assert forall|i: int|
        0 <= i < after.len() && (
        #[trigger] after[i]).superseded_at is Some implies after[i].started_at
        <= after[i].superseded_at->0 by {
        if after[i] == again {
            assert(rows[d].superseded_at is Some);
        } else if ended != Some(after[i]) {
            let m = choose|m: int| 0 <= m < rows.len() && rows[m] == after[i];
            assert(rows[m].superseded_at is Some);
        }
    }
    assert forall|i: int| 0 <= i < after.len() && (
    #[trigger] after[i]).stands() implies after[i].removed_by is None by {
        if after[i] != again {
            let m = choose|m: int| 0 <= m < rows.len() && rows[m] == if ended == Some(after[i]) {
                taken->0
            } else {
                after[i]
            };
            assert(rows[m].stands());
        }
    }
}

/// A stored dose that would count beside a restored one is the earlier dose it
/// takes its stretch back from, or the restore is turned down.
proof fn restore_clash(
    rows: Seq<DoseView>,
    running: Seq<DoseView>,
    given: DoseView,
    taken: Option<DoseView>,
    now: i64,
    other: DoseView,
    at: int,
)
    requires
        sound(rows, running, now as int),
        rows.contains(other),
        other.equipment_id == given.equipment_id,
        other.id != given.id,
        given.started_at <= now,
        now <= at,
        given.in_effect_at(at),
        other.in_effect_at(at),
    ensures
        given.in_effect_at(now as int),
        doses::would_stack(running, given, taken) || (taken is Some && taken->0.id == other.id),
{
    let m = choose|m: int| 0 <= m < rows.len() && rows[m] == other;
    assert(rows[m].started_at <= now);
    assert(running.contains(rows[m]));
    let k = choose|k: int| 0 <= k < running.len() && running[k] == other;
    assert(running[k].equipment_id == given.equipment_id);
}

proof fn written_cost(
    rows: Seq<DoseView>,
    change: ChangeView,
    interval: Option<i64>,
    session: Seq<char>,
)
    requires
        distinct(rows),
        change.prior is Some ==> {
            let prior = change.prior->0;
            let old = doses::find(rows, prior.id);
            &&& prior.id != change.dose.id
            &&& old is Some
            &&& old->0.session_id == prior.session_id
            &&& old->0.cost_ped == prior.cost_ped
            &&& old->0.removed_at == prior.removed_at
        },
    ensures
        standing_cost(written(rows, change, interval), session) == standing_cost(rows, session)
            + booked_to(session)(change.dose) - (match doses::find(rows, change.dose.id) {
            Some(old) => booked_to(session)(old),
            None => 0,
        }),
{
    let figure = booked_to(session);
    let dose = change.settled_dose(interval);
    let first = match change.settled_prior(interval) {
        Some(prior) => {
            stored_totals(rows, prior, figure);
            stored_keeps_others(rows, prior, dose.id);
            stored(rows, prior)
        },
        None => rows,
    };
    stored_totals(first, dose, figure);
}

/// A session's dose cost stays exactly what its standing doses booked: a start
/// moves both by the same.
pub proof fn starting_books_once(
    rows: Seq<DoseView>,
    dose: DoseView,
    prior: Option<DoseView>,
    interval: Option<i64>,
    session: Seq<char>,
)
    requires
        distinct(rows),
        doses::find(rows, dose.id) is None,
        dose.stands(),
        dose.cost_ped >= 0,
        prior is Some ==> rows.contains(prior->0),
    ensures
        ({
            let change = doses::start_plan(dose, prior);
            standing_cost(written(rows, change, interval), session) == standing_cost(rows, session)
                + row_moves(change, session)
        }),
{
    let change = doses::start_plan(dose, prior);
    if let Some(prior) = prior {
        let at = choose|at: int| 0 <= at < rows.len() && rows[at] == prior;
        found_by_id(rows, at);
        doses::found_is_stored(rows, dose.id);
    }
    written_cost(rows, change, interval, session);
}

/// A session's dose cost stays exactly what its standing doses booked: a
/// removal takes back what the dose booked and no more.
pub proof fn removing_takes_back_once(
    rows: Seq<DoseView>,
    id: Seq<char>,
    by: DoseRemoval,
    now: i64,
    change: ChangeView,
    interval: Option<i64>,
    session: Seq<char>,
)
    requires
        distinct(rows),
        of_one_item(rows),
        costs_positive(rows),
        doses::removal(rows, id, by, now) == Ok::<Option<ChangeView>, Refusal>(Some(change)),
    ensures
        standing_cost(written(rows, change, interval), session) == standing_cost(rows, session)
            + row_moves(change, session),
{
    doses::found_is_stored(rows, id);
    let dose = doses::find(rows, id)->0;
    let at = choose|at: int| 0 <= at < rows.len() && rows[at] == dose;
    assert(rows[at].cost_ped >= 0);
    prior_is_stored(rows, dose, dose);
    written_cost(rows, change, interval, session);
}

/// A session's dose cost stays exactly what its standing doses booked: a
/// restore gives back what the dose booked and no more.
pub proof fn restoring_gives_back_once(
    rows: Seq<DoseView>,
    running: Seq<DoseView>,
    id: Seq<char>,
    by: DoseRemoval,
    now: i64,
    change: ChangeView,
    interval: Option<i64>,
    session: Seq<char>,
)
    requires
        distinct(rows),
        of_one_item(rows),
        costs_positive(rows),
        doses::restoration(running, rows, id, by, now) == Ok::<Option<ChangeView>, Refusal>(
            Some(change),
        ),
    ensures
        standing_cost(written(rows, change, interval), session) == standing_cost(rows, session)
            + row_moves(change, session),
{
    doses::found_is_stored(rows, id);
    let dose = doses::find(rows, id)->0;
    let at = choose|at: int| 0 <= at < rows.len() && rows[at] == dose;
    assert(rows[at].cost_ped >= 0);
    prior_is_stored(rows, dose, doses::given_back(dose));
    written_cost(rows, change, interval, session);
}

/// Removing a removed dose changes nothing.
pub proof fn removing_twice_changes_nothing(
    rows: Seq<DoseView>,
    id: Seq<char>,
    by: DoseRemoval,
    now: i64,
    change: ChangeView,
    interval: Option<i64>,
    again: DoseRemoval,
    later: i64,
)
    requires
        distinct(rows),
        of_one_item(rows),
        doses::removal(rows, id, by, now) == Ok::<Option<ChangeView>, Refusal>(Some(change)),
    ensures
        doses::removal(written(rows, change, interval), id, again, later) == Ok::<
            Option<ChangeView>,
            Refusal,
        >(None),
{
    doses::found_is_stored(rows, id);
    let dose = doses::find(rows, id)->0;
    prior_is_stored(rows, dose, dose);
    written_holds(rows, change, interval);
}

/// A chain that led to a standing dose still leads to it when that dose and a
/// dose already passed are written again.
proof fn walk_survives(
    rows: Seq<DoseView>,
    after: Seq<DoseView>,
    link: Option<Seq<char>>,
    seen: Seq<Seq<char>>,
    passed: Seq<char>,
    prior: DoseView,
    moved: DoseView,
)
    requires
        seen.contains(passed),
        doses::walked(rows, link, seen) == Ok::<Option<DoseView>, Refusal>(Some(prior)),
        moved.id == prior.id,
        moved.stands(),
        doses::find(after, prior.id) == Some(moved),
        doses::find(rows, prior.id) == Some(prior),
        forall|id: Seq<char>|
            id != passed && id != prior.id ==> #[trigger] doses::find(after, id) == doses::find(
                rows,
                id,
            ),
        prior.stands(),
    ensures
        doses::walked(after, link, seen) == Ok::<Option<DoseView>, Refusal>(Some(moved)),
    decreases lists::count(rows, doses::unseen(seen)),
{
    let id = link->0;
    if id != prior.id {
        assert(doses::find(after, id) == doses::find(rows, id));
        let step = doses::find(rows, id)->0;
        doses::found_is_stored(rows, id);
        if !step.stands() {
            doses::seeing_leaves_fewer(rows, seen, id);
            let at = choose|at: int| 0 <= at < rows.len() && rows[at] == step;
            assert(rows[at].id == id);
            let k = choose|k: int| 0 <= k < seen.len() && seen[k] == passed;
            assert(seen.push(id)[k] == passed);
            walk_survives(
                rows,
                after,
                step.supersedes_dose_id,
                seen.push(id),
                passed,
                prior,
                moved,
            );
        }
    }
}

/// A chain that led nowhere still leads nowhere when a dose already passed is
/// written again.
proof fn empty_walk_survives(
    rows: Seq<DoseView>,
    after: Seq<DoseView>,
    link: Option<Seq<char>>,
    seen: Seq<Seq<char>>,
    passed: Seq<char>,
)
    requires
        seen.contains(passed),
        doses::walked(rows, link, seen) == Ok::<Option<DoseView>, Refusal>(None),
        forall|id: Seq<char>|
            id != passed ==> #[trigger] doses::find(after, id) == doses::find(rows, id),
    ensures
        doses::walked(after, link, seen) == Ok::<Option<DoseView>, Refusal>(None),
    decreases lists::count(rows, doses::unseen(seen)),
{
    if link is Some && !seen.contains(link->0) {
        let id = link->0;
        assert(doses::find(after, id) == doses::find(rows, id));
        doses::found_is_stored(rows, id);
        let step = doses::find(rows, id)->0;
        doses::seeing_leaves_fewer(rows, seen, id);
        let at = choose|at: int| 0 <= at < rows.len() && rows[at] == step;
        assert(rows[at].id == id);
        let k = choose|k: int| 0 <= k < seen.len() && seen[k] == passed;
        assert(seen.push(id)[k] == passed);
        empty_walk_survives(rows, after, step.supersedes_dose_id, seen.push(id), passed);
    }
}

/// The ids of some doses.
pub open spec fn ids_of(doses: Seq<DoseView>) -> Set<Seq<char>> {
    Set::new(|id: Seq<char>| exists|i: int| 0 <= i < doses.len() && (#[trigger] doses[i]).id == id)
}

/// Whether at most one dose of an item runs.
pub open spec fn one_of_an_item(running: Seq<DoseView>) -> bool {
    forall|i: int, j: int|
        0 <= i < running.len() && 0 <= j < running.len() && (
        #[trigger] running[i]).equipment_id is Some && running[i].equipment_id == (
        #[trigger] running[j]).equipment_id ==> running[i].id == running[j].id
}

/// What removing a dose and giving it back leaves as it was: the dose, what
/// every session's doses cost, which doses run, and where the dose it had
/// replaced ended; and at most one dose of an item runs.
pub open spec fn as_before(
    rows: Seq<DoseView>,
    running: Seq<DoseView>,
    dose: DoseView,
    removal: ChangeView,
    back: ChangeView,
    rows_after: Seq<DoseView>,
    running_after: Seq<DoseView>,
) -> bool {
    &&& back.dose == dose
    &&& forall|session: Seq<char>| #[trigger]
        standing_cost(rows_after, session) == standing_cost(rows, session) && row_moves(
            removal,
            session,
        ) + row_moves(back, session) == 0
    &&& ids_of(running_after) == ids_of(running)
    &&& match doses::standing_prior_of(rows, dose) {
        Ok(Some(prior)) => {
            let now_stored = doses::find(rows_after, prior.id);
            now_stored is Some && now_stored->0.superseded_at == prior.superseded_at
        },
        _ => true,
    }
    &&& one_of_an_item(running_after)
}

/// Restoring is exact: a dose removed and given back by the same hand, with no
/// other command and no dose ending in between, leaves everything as it was.
/// It is turned down at most for a dose of no item. Left out is a dose whose
/// replaced dose stands but was not ended by it, and ends where it does: giving
/// it back ends that one.
pub proof fn restoring_is_exact(
    rows: Seq<DoseView>,
    running: Seq<DoseView>,
    id: Seq<char>,
    by: DoseRemoval,
    now: i64,
    change: ChangeView,
    interval: Option<i64>,
    later: i64,
    opened: Option<i64>,
)
    requires
        sound(rows, running, now as int),
        doses::removal(rows, id, by, now) == Ok::<Option<ChangeView>, Refusal>(Some(change)),
        now <= later,
        forall|i: int| 0 <= i < running.len() ==> (#[trigger] running[i]).ends_at() > later,
        change.prior is None ==> ({
            let dose = doses::find(rows, id)->0;
            doses::displaced(dose, doses::standing_prior_of(rows, dose)->Ok_0) is None
        }),
    ensures
        ({
            let dose = doses::find(rows, id)->0;
            let after = written(rows, change, interval);
            let runs = doses::adopted(running, change, interval);
            match doses::restoration(runs, after, id, by, later) {
                Ok(Some(back)) => as_before(
                    rows,
                    running,
                    dose,
                    change,
                    back,
                    written(after, back, opened),
                    doses::adopted(runs, back, opened),
                ),
                Ok(None) => false,
                Err(refusal) => refusal == Refusal::LaterRuns && dose.equipment_id is None,
            }
        }),
{
    doses::found_is_stored(rows, id);
    let dose = doses::find(rows, id)->0;
    prior_is_stored(rows, dose, dose);
    let before = doses::standing_prior_of(rows, dose)->Ok_0;
    let gone = change.settled_dose(interval);
    let moved = change.settled_prior(interval);
    let after = written(rows, change, interval);
    let runs = doses::adopted(running, change, interval);
    let keep = doses::remaining(change.leaves);
    let still = running.filter(keep);
    written_holds(rows, change, interval);
    lists::filter_kept(running, keep);
    let d = choose|d: int| 0 <= d < rows.len() && rows[d] == dose;
    assert(rows[d].stands() && rows[d].removed_by is None);
    assert(doses::given_back(gone) == dose);
    assert(seq![dose.id][0] == dose.id);
    chain_after_removal(rows, id, by, now, change, interval);
    let found = if change.prior is Some {
        moved
    } else {
        before
    };
    assert(doses::standing_prior_of(after, dose) == Ok::<Option<DoseView>, Refusal>(found));
    if let Some(prior) = before {
        let p = choose|p: int| 0 <= p < rows.len() && rows[p] == prior;
        if change.prior is Some {
            assert(rows[p].superseded_at is Some);
        }
    }
    let taken = doses::displaced(dose, found);
    assert(taken == (if change.prior is Some {
        moved
    } else {
        None
    }));
    if dose.in_effect_at(later as int) && doses::would_stack(runs, gone, taken)
        && dose.equipment_id is Some {
        let i = choose|i: int|
            0 <= i < runs.len() && (#[trigger] runs[i]).equipment_id == dose.equipment_id
                && runs[i].id != dose.id && (taken is None || taken->0.id != runs[i].id);
        if i < still.len() {
            assert(keep(still[i]));
            let k = choose|k: int| 0 <= k < running.len() && running[k] == still[i];
            assert(rows.contains(running[k]));
            let m = choose|m: int| 0 <= m < rows.len() && rows[m] == running[k];
            assert(rows[m].started_at <= now);
            assert(rows[d].started_at <= now);
            counting_once(rows, now as int, dose, running[k], now as int);
        }
    }
    if let Ok(Some(back)) = doses::restoration(runs, after, id, by, later) {
        assert(back == doses::restore_plan(gone, found, later));
        let last = written(after, back, opened);
        let runs_again = doses::adopted(runs, back, opened);
        written_holds(after, back, opened);
        assert forall|session: Seq<char>| #[trigger]
            standing_cost(last, session) == standing_cost(rows, session) && row_moves(
                change,
                session,
            ) + row_moves(back, session) == 0 by {
            if change.prior is Some {
                let prior = before->0;
                stored_keeps_others(rows, moved->0, dose.id);
                stored_keeps_others(stored(rows, moved->0), gone, moved->0.id);
            }
            written_cost(rows, change, interval, session);
            written_cost(after, back, opened, session);
        }
        if let Some(prior) = before {
            if change.prior is Some {
                let ended = back.settled_prior(opened)->0;
                let at = choose|at: int| 0 <= at < last.len() && last[at] == ended;
                found_by_id(last, at);
            } else {
                stored_keeps_others(rows, gone, prior.id);
                stored_keeps_others(after, back.settled_dose(opened), prior.id);
            }
        }
        same_doses_run(rows, running, id, by, now, change, interval, later, opened, back);
    }
}

/// After a removal the removed dose still leads to the dose it replaced, as
/// that now stands.
proof fn chain_after_removal(
    rows: Seq<DoseView>,
    id: Seq<char>,
    by: DoseRemoval,
    now: i64,
    change: ChangeView,
    interval: Option<i64>,
)
    requires
        distinct(rows),
        of_one_item(rows),
        doses::removal(rows, id, by, now) == Ok::<Option<ChangeView>, Refusal>(Some(change)),
    ensures
        doses::standing_prior_of(written(rows, change, interval), doses::find(rows, id)->0)
            == Ok::<Option<DoseView>, Refusal>(
            (if change.prior is Some {
                change.settled_prior(interval)
            } else {
                doses::standing_prior_of(rows, doses::find(rows, id)->0)->Ok_0
            }),
        ),
{
    doses::found_is_stored(rows, id);
    let dose = doses::find(rows, id)->0;
    prior_is_stored(rows, dose, dose);
    let before = doses::standing_prior_of(rows, dose)->Ok_0;
    let gone = change.settled_dose(interval);
    let moved = change.settled_prior(interval);
    let after = written(rows, change, interval);
    written_holds(rows, change, interval);
    assert(seq![dose.id][0] == dose.id);
    match before {
        Some(prior) => {
            let first = match moved {
                Some(moved) => stored(rows, moved),
                None => rows,
            };
            let kept = match moved {
                Some(moved) => moved,
                None => prior,
            };
            if let Some(moved) = moved {
                stored_keeps_others(rows, moved, dose.id);
            }
            stored_keeps_others(first, gone, prior.id);
            assert forall|other: Seq<char>|
                other != dose.id && other != prior.id implies #[trigger] doses::find(after, other)
                == doses::find(rows, other) by {
                if let Some(moved) = moved {
                    stored_keeps_others(rows, moved, other);
                }
                stored_keeps_others(first, gone, other);
            }
            walk_survives(
                rows,
                after,
                dose.supersedes_dose_id,
                seq![dose.id],
                dose.id,
                prior,
                kept,
            );
        },
        None => {
            assert forall|other: Seq<char>| other != dose.id implies #[trigger] doses::find(
                after,
                other,
            ) == doses::find(rows, other) by {
                stored_keeps_others(rows, gone, other);
            }
            empty_walk_survives(rows, after, dose.supersedes_dose_id, seq![dose.id], dose.id);
        },
    }
}

/// Whether a dose of this id and item is among some.
spec fn ran(running: Seq<DoseView>, dose: DoseView) -> bool {
    exists|k: int|
        0 <= k < running.len() && (#[trigger] running[k]).id == dose.id && running[k].equipment_id
            == dose.equipment_id
}

/// The doses that run once a removed dose was given back are those that ran
/// before it was removed.
proof fn same_doses_run(
    rows: Seq<DoseView>,
    running: Seq<DoseView>,
    id: Seq<char>,
    by: DoseRemoval,
    now: i64,
    change: ChangeView,
    interval: Option<i64>,
    later: i64,
    opened: Option<i64>,
    back: ChangeView,
)
    requires
        sound(rows, running, now as int),
        doses::removal(rows, id, by, now) == Ok::<Option<ChangeView>, Refusal>(Some(change)),
        now <= later,
        forall|i: int| 0 <= i < running.len() ==> (#[trigger] running[i]).ends_at() > later,
        back.dose == doses::find(rows, id)->0,
        back.entering == (if back.dose.in_effect_at(later as int) {
            Entering::Dose
        } else {
            Entering::Nobody
        }),
        back.leaves == (match change.settled_prior(interval) {
            Some(prior) => Some(prior.id),
            None => None,
        }),
    ensures
        ({
            let runs = doses::adopted(running, change, interval);
            let again = doses::adopted(runs, back, opened);
            ids_of(again) == ids_of(running) && one_of_an_item(again)
        }),
{
    doses::found_is_stored(rows, id);
    let dose = doses::find(rows, id)->0;
    prior_is_stored(rows, dose, dose);
    let before = doses::standing_prior_of(rows, dose)->Ok_0;
    let moved = change.settled_prior(interval);
    let keep = doses::remaining(change.leaves);
    let still = running.filter(keep);
    let runs = doses::adopted(running, change, interval);
    let stay = doses::remaining(back.leaves);
    let kept = runs.filter(stay);
    let again = doses::adopted(runs, back, opened);
    lists::filter_kept(running, keep);
    lists::filter_kept(runs, stay);
    let d = choose|d: int| 0 <= d < rows.len() && rows[d] == dose;
    assert(rows[d].started_at <= now && rows[d].stands());
    // Whatever runs again ran before.
    assert forall|i: int| 0 <= i < again.len() implies #[trigger] ran(running, again[i]) by {
        if i < kept.len() {
            assert(again[i] == kept[i]);
            assert(stay(kept[i]));
            let r = choose|r: int| 0 <= r < runs.len() && runs[r] == kept[i];
            if r < still.len() {
                assert(runs[r] == still[r]);
                let k = choose|k: int| 0 <= k < running.len() && running[k] == still[r];
                assert(running[k].id == again[i].id);
            }
        } else {
            assert(dose.ends_at() > now);
            assert(running.contains(rows[d]));
            let k = choose|k: int| 0 <= k < running.len() && running[k] == dose;
            assert(running[k].id == again[i].id);
        }
    }
    // Whatever ran before runs again.
    assert forall|k: int| 0 <= k < running.len() implies #[trigger] ids_of(again).contains(
        running[k].id,
    ) by {
        let one = running[k];
        assert(rows.contains(running[k]));
        if one.id == dose.id {
            same_id_is_same(rows, one, dose);
            assert(again[again.len() - 1].id == one.id);
        } else {
            assert(keep(running[k]));
            let s = choose|s: int| 0 <= s < still.len() && still[s] == one;
            assert(runs[s] == one);
            if moved is Some && moved->0.id == one.id {
                same_id_is_same(rows, one, before->0);
                assert(before->0.ends_at() <= now);
            }
            assert(stay(runs[s]));
            let i = choose|i: int| 0 <= i < kept.len() && kept[i] == runs[s];
            assert(again[i].id == one.id);
        }
    }
    assert forall|id: Seq<char>| ids_of(again).contains(id) == #[trigger] ids_of(running).contains(
        id,
    ) by {
        if ids_of(again).contains(id) {
            let i = choose|i: int| 0 <= i < again.len() && (#[trigger] again[i]).id == id;
            assert(ran(running, again[i]));
        }
        if ids_of(running).contains(id) {
            let k = choose|k: int| 0 <= k < running.len() && (#[trigger] running[k]).id == id;
            assert(ids_of(again).contains(running[k].id));
        }
    }
    assert(ids_of(again) =~= ids_of(running));
    assert forall|i: int, j: int|
        0 <= i < again.len() && 0 <= j < again.len() && (
        #[trigger] again[i]).equipment_id is Some && again[i].equipment_id == (
        #[trigger] again[j]).equipment_id implies again[i].id == again[j].id by {
        assert(ran(running, again[i]) && ran(running, again[j]));
        let a = choose|a: int|
            0 <= a < running.len() && (#[trigger] running[a]).id == again[i].id
                && running[a].equipment_id == again[i].equipment_id;
        let b = choose|b: int|
            0 <= b < running.len() && (#[trigger] running[b]).id == again[j].id
                && running[b].equipment_id == again[j].equipment_id;
        assert(rows.contains(running[a]) && rows.contains(running[b]));
        let m = choose|m: int| 0 <= m < rows.len() && rows[m] == running[a];
        let n = choose|n: int| 0 <= n < rows.len() && rows[n] == running[b];
        assert(rows[m].started_at <= now && rows[n].started_at <= now);
        counting_once(rows, now as int, running[a], running[b], now as int);
    }
}

} // verus!
