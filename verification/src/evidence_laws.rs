//! What holds of the stored evidence: the shots left unpriced are exactly the
//! unresolved rows no decision priced.

use crate::attribution::{
    AttributionKind, LocationView, Observation, RecordView, RepriceView,
};
use crate::combat;
use crate::combat::{PricingView, StampView};
use crate::decision;
use crate::decision::{LedgerView, UpdateView};
use crate::evidence;
use crate::evidence::{EvidenceView, MismatchDecision};
use crate::lists;
use crate::phases::LoadoutView;
use crate::records::KillView;
use crate::regime;
use crate::regime::RuntimeView;
use crate::regime_laws;
use crate::session::{AccumulatorView, ActiveSession};
use crate::units::Ped;
use vstd::prelude::*;

verus! {

/// Whether a row is of an unresolved shot that nothing priced yet.
pub open spec fn is_open(row: EvidenceView) -> bool {
    row.kind == AttributionKind::Unresolved && row.tool_name is None
}

/// One for every row that is still open.
pub open spec fn openness() -> spec_fn(EvidenceView) -> int {
    |row: EvidenceView|
        if is_open(row) {
            1int
        } else {
            0int
        }
}

/// What tells rows apart.
pub open spec fn row_key() -> spec_fn(EvidenceView) -> Option<Seq<char>> {
    |row: EvidenceView| Some(row.id)
}

/// What tells logged shots apart, where they have a row.
pub open spec fn record_key() -> spec_fn(RecordView) -> Option<Seq<char>> {
    |record: RecordView| record.evidence_id
}

/// What tells the shots of a decision apart, where they have a row.
pub open spec fn step_key() -> spec_fn(RepriceView) -> Option<Seq<char>> {
    |step: RepriceView| step.record.evidence_id
}

/// Whether a row is that of a logged shot: it has its id, and is open exactly
/// where the shot is unresolved.
pub open spec fn is_row_of(row: EvidenceView, record: RecordView) -> bool {
    &&& record.evidence_id == Some(row.id)
    &&& (row.kind == AttributionKind::Unresolved) == (record.attribution.kind()
        == AttributionKind::Unresolved)
    &&& row.kind == AttributionKind::Unresolved ==> row.tool_name is None
}

/// Whether a logged shot's row is among the rows: an unresolved shot has one,
/// and a shot that names one has it.
pub open spec fn has_its_row(rows: Seq<EvidenceView>, record: RecordView) -> bool {
    &&& record.attribution.kind() == AttributionKind::Unresolved ==> record.evidence_id is Some
    &&& record.evidence_id is Some ==> exists|k: int|
        0 <= k < rows.len() && is_row_of(#[trigger] rows[k], record)
}

/// What a session's rows keep, the stored ones and those since the last kill:
/// each has its own id, the tally of unpriced shots is the number of rows
/// still open, and every logged shot has the row it names.
pub open spec fn rows_tell_the_unpriced(rows: Seq<EvidenceView>, runtime: RuntimeView) -> bool {
    &&& lists::apart(rows, row_key())
    &&& lists::total(rows, openness()) == runtime.counts.unresolved
    &&& lists::apart(runtime.log, record_key())
    &&& forall|i: int|
        0 <= i < runtime.log.len() ==> has_its_row(rows, #[trigger] runtime.log[i])
}

/// A session that just started has no rows and nothing unpriced.
pub proof fn a_fresh_session_has_no_rows()
    ensures
        rows_tell_the_unpriced(Seq::empty(), RuntimeView::initial()),
{
}

proof fn rows_grow(rows: Seq<EvidenceView>, row: EvidenceView, record: RecordView)
    requires
        has_its_row(rows, record),
    ensures
        has_its_row(rows.push(row), record),
{
    if record.evidence_id is Some {
        let k = choose|k: int| 0 <= k < rows.len() && is_row_of(#[trigger] rows[k], record);
        assert(rows.push(row)[k] == rows[k]);
    }
}

/// A combat line under an id no row has yet keeps a row for the shot it leaves
/// unpriced, and for no other.
pub proof fn a_combat_line_keeps_its_row(
    stored: Seq<EvidenceView>,
    pending: AccumulatorView,
    runtime: RuntimeView,
    stamp: StampView,
    observation: Observation,
    at: i64,
    pricing: PricingView,
    row_id: Seq<char>,
    window_id: Seq<char>,
)
    requires
        rows_tell_the_unpriced(stored + pending.evidence, runtime),
        runtime.counts.unresolved < i64::MAX,
        forall|i: int|
            0 <= i < (stored + pending.evidence).len() ==> (#[trigger] (stored
                + pending.evidence)[i]).id != row_id,
    ensures
        ({
            let resolved = runtime.classified(observation, at as int);
            let after = combat::accumulated(
                pending,
                runtime,
                stamp,
                observation,
                at,
                resolved,
                pricing,
                row_id,
            );
            let next = combat::attributed(
                pending,
                runtime,
                observation,
                at,
                resolved,
                pricing,
                row_id,
                window_id,
            );
            rows_tell_the_unpriced(stored + after.evidence, next)
        }),
{
    let resolved = runtime.classified(observation, at as int);
    let after = combat::accumulated(
        pending,
        runtime,
        stamp,
        observation,
        at,
        resolved,
        pricing,
        row_id,
    );
    let next = combat::attributed(
        pending,
        runtime,
        observation,
        at,
        resolved,
        pricing,
        row_id,
        window_id,
    );
    let before = stored + pending.evidence;
    let rows = stored + after.evidence;
    let kept = evidence::row_kept(resolved.attribution, runtime.declared is Some);
    if kept {
        let row = after.evidence.last();
        assert(rows =~= before.push(row));
        lists::total_push(before, row, openness());
        assert(lists::apart(rows, row_key())) by {
            assert forall|i: int, j: int| 0 <= i < j < rows.len() implies row_key()(rows[i]) is None
                || #[trigger] row_key()(rows[i]) != #[trigger] row_key()(rows[j]) by {
                assert(rows[i] == before[i]);
                if j < before.len() {
                    assert(rows[j] == before[j]);
                    assert(row_key()(before[i]) != row_key()(before[j]));
                }
            }
        }
        assert forall|i: int| 0 <= i < runtime.log.len() implies has_its_row(
            rows,
            #[trigger] runtime.log[i],
        ) by {
            rows_grow(before, row, runtime.log[i]);
        }
    } else {
        assert(rows =~= before);
    }
    if !(resolved.attribution is EffectTick) {
        let record = next.log.last();
        let proof_of_declared = RuntimeView::proves_declared(record);
        let older = if proof_of_declared {
            runtime.log.filter(regime::of_kind(AttributionKind::Evidence))
        } else {
            runtime.log
        };
        assert(next.log =~= older.push(record));
        lists::filter_kept(runtime.log, regime::of_kind(AttributionKind::Evidence));
        lists::filter_stays_apart(
            runtime.log,
            regime::of_kind(AttributionKind::Evidence),
            record_key(),
        );
        if kept {
            assert(is_row_of(rows[rows.len() - 1], record));
        }
        assert forall|i: int| 0 <= i < older.len() implies has_its_row(rows, #[trigger] older[i])
            && (kept ==> older[i].evidence_id != Some(row_id)) by {
            let j = choose|j: int| 0 <= j < runtime.log.len() && runtime.log[j] == older[i];
            assert(has_its_row(before, runtime.log[j]));
            if older[i].evidence_id is Some {
                let k = choose|k: int|
                    0 <= k < before.len() && is_row_of(#[trigger] before[k], older[i]);
                assert(before[k].id != row_id);
            }
        }
        assert forall|i: int| 0 <= i < next.log.len() implies has_its_row(
            rows,
            #[trigger] next.log[i],
        ) by {
            if i < older.len() {
                assert(next.log[i] == older[i]);
            }
        }
        assert(lists::apart(next.log, record_key())) by {
            assert forall|i: int, j: int| 0 <= i < j < next.log.len() implies record_key()(
                next.log[i],
            ) is None || #[trigger] record_key()(next.log[i]) != #[trigger] record_key()(
                next.log[j],
            ) by {
                assert(next.log[i] == older[i]);
                if j < older.len() {
                    assert(next.log[j] == older[j]);
                    assert(record_key()(older[i]) is None || record_key()(older[i])
                        != record_key()(older[j]));
                }
            }
        }
    }
}

/// A settled kill stores its rows, and leaves the tally as it was.
pub proof fn a_settled_kill_stores_its_rows(
    stored: Seq<EvidenceView>,
    pending: AccumulatorView,
    runtime: RuntimeView,
    kill: Seq<char>,
)
    requires
        rows_tell_the_unpriced(stored + pending.evidence, runtime),
    ensures
        rows_tell_the_unpriced(
            (stored + pending.evidence) + AccumulatorView::empty().evidence,
            runtime.settling(kill),
        ),
{
    let rows = stored + pending.evidence;
    let after = runtime.settling(kill);
    assert(rows + AccumulatorView::empty().evidence =~= rows);
    same_records_keep_their_rows(rows, runtime.log, after.log);
}

/// A press starts a new regime, and leaves rows and tally as they were.
pub proof fn a_press_leaves_the_rows(
    rows: Seq<EvidenceView>,
    runtime: RuntimeView,
    tool: Seq<char>,
    at: i64,
)
    requires
        rows_tell_the_unpriced(rows, runtime),
    ensures
        rows_tell_the_unpriced(rows, runtime.declaring(tool, at)),
        rows_tell_the_unpriced(rows, runtime.floored()),
{
}

/// Whether two logs name the same rows, for shots that are unresolved alike.
pub open spec fn same_rows_named(before: Seq<RecordView>, after: Seq<RecordView>) -> bool {
    &&& before.len() == after.len()
    &&& forall|i: int|
        0 <= i < before.len() ==> (#[trigger] after[i]).evidence_id == before[i].evidence_id && (
        after[i].attribution.kind() == AttributionKind::Unresolved) == (
        before[i].attribution.kind() == AttributionKind::Unresolved)
}

proof fn same_records_keep_their_rows(
    rows: Seq<EvidenceView>,
    before: Seq<RecordView>,
    after: Seq<RecordView>,
)
    requires
        same_rows_named(before, after),
        lists::apart(before, record_key()),
        forall|i: int| 0 <= i < before.len() ==> has_its_row(rows, #[trigger] before[i]),
    ensures
        lists::apart(after, record_key()),
        forall|i: int| 0 <= i < after.len() ==> has_its_row(rows, #[trigger] after[i]),
{
    assert forall|i: int| 0 <= i < after.len() implies has_its_row(rows, #[trigger] after[i]) by {
        assert(has_its_row(rows, before[i]));
        if before[i].evidence_id is Some {
            let k = choose|k: int|
                0 <= k < rows.len() && is_row_of(#[trigger] rows[k], before[i]);
            assert(is_row_of(rows[k], after[i]));
        }
    }
    assert forall|i: int, j: int| 0 <= i < j < after.len() implies record_key()(after[i]) is None
        || #[trigger] record_key()(after[i]) != #[trigger] record_key()(after[j]) by {
        assert(record_key()(before[i]) is None || record_key()(before[i]) != record_key()(
            before[j],
        ));
    }
}

/// A row a decision moved to a weapon.
pub open spec fn priced_to(
    row: EvidenceView,
    tool: Seq<char>,
    price: Ped,
    review_id: Seq<char>,
) -> EvidenceView {
    EvidenceView {
        tool_name: Some(tool),
        cost_per_shot: price,
        review_id: Some(review_id),
        ..row
    }
}

/// The stored rows once a decision's updates are written.
pub open spec fn updated(
    stored: Seq<EvidenceView>,
    updates: Seq<UpdateView>,
    review_id: Seq<char>,
) -> Seq<EvidenceView>
    decreases updates.len(),
{
    if updates.len() == 0 {
        stored
    } else {
        let before = updated(stored, updates.drop_last(), review_id);
        let update = updates.last();
        let at = decision::row_at(before, update.id);
        if at < before.len() {
            before.update(at, priced_to(before[at], update.tool, update.cost, review_id))
        } else {
            before
        }
    }
}

/// A session's rows as a ledger leaves them: the stored ones with its updates,
/// and its buffer.
pub open spec fn rows_of(
    stored: Seq<EvidenceView>,
    ledger: LedgerView,
    review_id: Seq<char>,
) -> Seq<EvidenceView> {
    updated(stored, ledger.updates, review_id) + ledger.rows
}

/// One for every unresolved shot that moves.
pub open spec fn unresolved_step() -> spec_fn(RepriceView) -> int {
    |step: RepriceView|
        if step.record.attribution.kind() == AttributionKind::Unresolved {
            1int
        } else {
            0int
        }
}

/// One move that found its shot prices the shot's row, and no other.
proof fn a_move_prices_its_row(
    stored: Seq<EvidenceView>,
    ledger: LedgerView,
    step: RepriceView,
    price: Ped,
    review_id: Seq<char>,
)
    requires
        lists::apart(rows_of(stored, ledger, review_id), row_key()),
    ensures
        ({
            let before = rows_of(stored, ledger, review_id);
            let after = rows_of(stored, ledger.accounted(step, price, review_id), review_id);
            &&& after.len() == before.len()
            &&& forall|i: int|
                0 <= i < before.len() ==> #[trigger] after[i] == (if step.record.evidence_id
                    == Some(before[i].id) {
                    priced_to(before[i], step.to_tool, price, review_id)
                } else {
                    before[i]
                })
        }),
{
    let next = ledger.accounted(step, price, review_id);
    let held = updated(stored, ledger.updates, review_id);
    let before = rows_of(stored, ledger, review_id);
    let after = rows_of(stored, next, review_id);
    if let Some(id) = step.record.evidence_id {
        decision::row_found(ledger.rows, id);
        decision::row_found(held, id);
        let at = decision::row_at(ledger.rows, id);
        if at < ledger.rows.len() {
            let place = held.len() + at;
            assert(before[place].id == id);
            assert forall|i: int| 0 <= i < before.len() implies #[trigger] after[i] == (if Some(id)
                == Some(before[i].id) {
                priced_to(before[i], step.to_tool, price, review_id)
            } else {
                before[i]
            }) by {
                only_one_has_the_id(before, place, i);
            }
        } else {
            assert(next.updates.drop_last() =~= ledger.updates);
            let kept = decision::row_at(held, id);
            if kept < held.len() {
                assert(before[kept].id == id);
                assert forall|i: int| 0 <= i < before.len() implies #[trigger] after[i] == (if Some(
                    id,
                ) == Some(before[i].id) {
                    priced_to(before[i], step.to_tool, price, review_id)
                } else {
                    before[i]
                }) by {
                    only_one_has_the_id(before, kept, i);
                }
            } else {
                assert(after =~= before);
                assert forall|i: int| 0 <= i < before.len() implies (#[trigger] before[i]).id
                    != id by {
                    if i < held.len() {
                        assert(before[i] == held[i]);
                    } else {
                        assert(before[i] == ledger.rows[i - held.len()]);
                    }
                }
            }
        }
    }
}

proof fn only_one_has_the_id(rows: Seq<EvidenceView>, at: int, other: int)
    requires
        lists::apart(rows, row_key()),
        0 <= at < rows.len(),
        0 <= other < rows.len(),
    ensures
        rows[other].id == rows[at].id ==> other == at,
{
    if other < at {
        assert(row_key()(rows[other]) != row_key()(rows[at]));
    } else if at < other {
        assert(row_key()(rows[at]) != row_key()(rows[other]));
    }
}

/// Whether a decision moves the shot of a row.
pub open spec fn reached(steps: Seq<RepriceView>, id: Seq<char>) -> bool {
    exists|k: int| 0 <= k < steps.len() && (#[trigger] steps[k]).record.evidence_id == Some(id)
}

proof fn no_more_moves_than_steps(
    ledger: LedgerView,
    steps: Seq<RepriceView>,
    price: Ped,
    expected: Option<LoadoutView>,
    review_id: Seq<char>,
)
    ensures
        ledger.all_moved(steps, price, expected, review_id).repriced <= ledger.repriced
            + steps.len(),
    decreases steps.len(),
{
    if steps.len() > 0 {
        no_more_moves_than_steps(ledger, steps.drop_last(), price, expected, review_id);
    }
}

/// What a decision whose every move found its shot does to the rows: those of
/// the moved shots are priced, and no other.
proof fn moves_price_their_rows(
    stored: Seq<EvidenceView>,
    ledger: LedgerView,
    steps: Seq<RepriceView>,
    price: Ped,
    expected: Option<LoadoutView>,
    review_id: Seq<char>,
)
    requires
        lists::apart(rows_of(stored, ledger, review_id), row_key()),
        lists::apart(steps, step_key()),
        forall|k: int|
            0 <= k < steps.len() ==> has_its_row(
                rows_of(stored, ledger, review_id),
                (#[trigger] steps[k]).record,
            ),
        ledger.all_moved(steps, price, expected, review_id).repriced == ledger.repriced
            + steps.len(),
    ensures
        ({
            let before = rows_of(stored, ledger, review_id);
            let after = rows_of(
                stored,
                ledger.all_moved(steps, price, expected, review_id),
                review_id,
            );
            &&& after.len() == before.len()
            &&& forall|i: int|
                0 <= i < before.len() ==> (#[trigger] after[i]).id == before[i].id && after[i].kind
                    == before[i].kind && (!reached(steps, before[i].id) ==> after[i] == before[i])
            &&& lists::total(after, openness()) == lists::total(before, openness()) - lists::total(
                steps,
                unresolved_step(),
            )
        }),
    decreases steps.len(),
{
    if steps.len() > 0 {
        let rest = steps.drop_last();
        let step = steps.last();
        let before = rows_of(stored, ledger, review_id);
        let mid = ledger.all_moved(rest, price, expected, review_id);
        let held = rows_of(stored, mid, review_id);
        let after = rows_of(
            stored,
            ledger.all_moved(steps, price, expected, review_id),
            review_id,
        );
        no_more_moves_than_steps(ledger, rest, price, expected, review_id);
        assert(lists::apart(rest, step_key())) by {
            assert forall|i: int, j: int| 0 <= i < j < rest.len() implies step_key()(
                rest[i],
            ) is None || #[trigger] step_key()(rest[i]) != #[trigger] step_key()(rest[j]) by {
                assert(step_key()(steps[i]) is None || step_key()(steps[i]) != step_key()(
                    steps[j],
                ));
            }
        }
        assert forall|k: int| 0 <= k < rest.len() implies has_its_row(
            before,
            (#[trigger] rest[k]).record,
        ) by {
            assert(has_its_row(before, steps[k].record));
        }
        moves_price_their_rows(stored, ledger, rest, price, expected, review_id);
        same_ids_stay_apart(before, held);
        a_found_move_prices_its_row(stored, mid, step, price, expected, review_id);
        assert forall|i: int| 0 <= i < before.len() implies (#[trigger] after[i]).id
            == before[i].id && after[i].kind == before[i].kind && (!reached(steps, before[i].id)
            ==> after[i] == before[i]) by {
            assert(held[i].id == before[i].id);
            if !reached(steps, before[i].id) {
                assert(steps[steps.len() - 1].record.evidence_id != Some(before[i].id));
                if reached(rest, before[i].id) {
                    let k = choose|k: int|
                        0 <= k < rest.len() && (#[trigger] rest[k]).record.evidence_id == Some(
                            before[i].id,
                        );
                    assert(steps[k].record.evidence_id == Some(before[i].id));
                }
            }
        }
        assert(has_its_row(before, steps[steps.len() - 1].record));
        if let Some(id) = step.record.evidence_id {
            let k = choose|k: int|
                0 <= k < before.len() && is_row_of(#[trigger] before[k], step.record);
            assert(!reached(rest, id)) by {
                if reached(rest, id) {
                    let j = choose|j: int|
                        0 <= j < rest.len() && (#[trigger] rest[j]).record.evidence_id == Some(id);
                    assert(step_key()(steps[j]) is None || step_key()(steps[j]) != step_key()(
                        steps[steps.len() - 1],
                    ));
                }
            }
            assert(held[k] == before[k]);
            let moved = priced_to(held[k], step.to_tool, price, review_id);
            assert(after =~= held.update(k, moved)) by {
                assert forall|i: int| 0 <= i < held.len() implies after[i] == #[trigger] held.update(
                    k,
                    moved,
                )[i] by {
                    only_one_has_the_id(held, k, i);
                }
            }
            lists::total_update(held, k, moved, openness());
        } else {
            assert(after =~= held);
        }
    }
}

proof fn same_ids_stay_apart(before: Seq<EvidenceView>, after: Seq<EvidenceView>)
    requires
        lists::apart(before, row_key()),
        after.len() == before.len(),
        forall|i: int| 0 <= i < before.len() ==> (#[trigger] after[i]).id == before[i].id,
    ensures
        lists::apart(after, row_key()),
{
    assert forall|i: int, j: int| 0 <= i < j < after.len() implies row_key()(after[i]) is None
        || #[trigger] row_key()(after[i]) != #[trigger] row_key()(after[j]) by {
        assert(row_key()(before[i]) != row_key()(before[j]));
    }
}

proof fn a_found_move_prices_its_row(
    stored: Seq<EvidenceView>,
    ledger: LedgerView,
    step: RepriceView,
    price: Ped,
    expected: Option<LoadoutView>,
    review_id: Seq<char>,
)
    requires
        lists::apart(rows_of(stored, ledger, review_id), row_key()),
        ledger.moved(step, price, expected, review_id).repriced == ledger.repriced + 1,
    ensures
        ({
            let before = rows_of(stored, ledger, review_id);
            let after = rows_of(
                stored,
                ledger.moved(step, price, expected, review_id),
                review_id,
            );
            &&& after.len() == before.len()
            &&& forall|i: int|
                0 <= i < before.len() ==> #[trigger] after[i] == (if step.record.evidence_id
                    == Some(before[i].id) {
                    priced_to(before[i], step.to_tool, price, review_id)
                } else {
                    before[i]
                })
        }),
{
    match step.record.location {
        LocationView::Pending => {
            let found = decision::phases_after(ledger.pending, step, price, expected);
            let base = LedgerView { pending: found->0, ..ledger };
            assert(ledger.moved(step, price, expected, review_id) == base.accounted(
                step,
                price,
                review_id,
            ));
            a_move_prices_its_row(stored, base, step, price, review_id);
        },
        LocationView::Kill(id) => {
            let at = decision::last_kill(ledger.kills, id);
            let kill = ledger.kills[at];
            let found = decision::phases_after(kill.tool_stats, step, price, expected);
            let base = LedgerView {
                kills: ledger.kills.update(
                    at,
                    KillView {
                        tool_stats: found->0,
                        cost_ped: kill.cost_ped + price.0 - step.record.cost.0,
                        ..kill
                    },
                ),
                ..ledger.touching(at)
            };
            assert(ledger.moved(step, price, expected, review_id) == base.accounted(
                step,
                price,
                review_id,
            ));
            a_move_prices_its_row(stored, base, step, price, review_id);
        },
    }
}

proof fn rebooking_names_the_same_rows(runtime: RuntimeView, seq: u64, tool: Seq<char>, cost: Ped)
    ensures
        same_rows_named(runtime.log, runtime.rebooking(seq, tool, cost).log),
        runtime.rebooking(seq, tool, cost).counts == runtime.counts,
{
    position_is_a_place(runtime.log, seq);
}

proof fn position_is_a_place(log: Seq<RecordView>, seq: u64)
    ensures
        0 <= regime::position(log, seq) <= log.len(),
    decreases log.len(),
{
    if log.len() > 0 && log[0].seq != seq {
        position_is_a_place(log.skip(1), seq);
    }
}

/// Moving shots books their records anew, and changes neither what rows they
/// name nor the tallies.
proof fn moves_name_the_same_rows(
    ledger: LedgerView,
    steps: Seq<RepriceView>,
    price: Ped,
    expected: Option<LoadoutView>,
    review_id: Seq<char>,
)
    ensures
        ({
            let after = ledger.all_moved(steps, price, expected, review_id);
            &&& same_rows_named(ledger.runtime.log, after.runtime.log)
            &&& after.runtime.counts == ledger.runtime.counts
        }),
    decreases steps.len(),
{
    if steps.len() > 0 {
        moves_name_the_same_rows(ledger, steps.drop_last(), price, expected, review_id);
        let before = ledger.all_moved(steps.drop_last(), price, expected, review_id);
        let step = steps.last();
        rebooking_names_the_same_rows(before.runtime, step.seq, step.to_tool, price);
    }
}

/// The moves of logged shots: each has its row, and no two the same.
proof fn moves_have_their_rows(
    rows: Seq<EvidenceView>,
    records: Seq<RecordView>,
    to_tool: Seq<char>,
)
    requires
        lists::apart(records, record_key()),
        forall|i: int| 0 <= i < records.len() ==> has_its_row(rows, #[trigger] records[i]),
    ensures
        ({
            let steps = regime::reprices(records, to_tool);
            &&& lists::apart(steps, step_key())
            &&& forall|k: int|
                0 <= k < steps.len() ==> has_its_row(rows, (#[trigger] steps[k]).record)
            &&& lists::total(steps, unresolved_step()) == lists::count(
                records,
                regime::of_kind(AttributionKind::Unresolved),
            )
        }),
{
    let steps = regime::reprices(records, to_tool);
    assert forall|i: int, j: int| 0 <= i < j < steps.len() implies step_key()(steps[i]) is None
        || #[trigger] step_key()(steps[i]) != #[trigger] step_key()(steps[j]) by {
        assert(record_key()(records[i]) is None || record_key()(records[i]) != record_key()(
            records[j],
        ));
    }
    assert forall|k: int| 0 <= k < steps.len() implies has_its_row(
        rows,
        (#[trigger] steps[k]).record,
    ) by {
        assert(has_its_row(rows, records[k]));
    }
    unresolved_moves(records, to_tool);
}

proof fn unresolved_moves(records: Seq<RecordView>, to_tool: Seq<char>)
    ensures
        lists::total(regime::reprices(records, to_tool), unresolved_step()) == lists::count(
            records,
            regime::of_kind(AttributionKind::Unresolved),
        ),
    decreases records.len(),
{
    let kind = regime::of_kind(AttributionKind::Unresolved);
    if records.len() == 0 {
        lists::filter_none(records, kind);
        assert(records =~= Seq::empty());
    } else {
        let rest = records.drop_last();
        unresolved_moves(rest, to_tool);
        assert(records =~= rest.push(records.last()));
        lists::count_push(rest, records.last(), kind);
        assert(regime::reprices(records, to_tool).drop_last() =~= regime::reprices(rest, to_tool));
    }
}

/// The records a filter keeps of a log have their rows.
proof fn kept_records_have_their_rows(
    rows: Seq<EvidenceView>,
    log: Seq<RecordView>,
    keep: spec_fn(RecordView) -> bool,
)
    requires
        lists::apart(log, record_key()),
        forall|i: int| 0 <= i < log.len() ==> has_its_row(rows, #[trigger] log[i]),
    ensures
        lists::apart(log.filter(keep), record_key()),
        forall|i: int|
            0 <= i < log.filter(keep).len() ==> has_its_row(rows, #[trigger] log.filter(keep)[i]),
{
    lists::filter_stays_apart(log, keep, record_key());
    lists::filter_kept(log, keep);
    let kept = log.filter(keep);
    assert forall|i: int| 0 <= i < kept.len() implies has_its_row(rows, #[trigger] kept[i]) by {
        let j = choose|j: int| 0 <= j < log.len() && log[j] == kept[i];
        assert(has_its_row(rows, log[j]));
    }
}

/// A decision whose every move found its shot prices the rows of the
/// unresolved shots it moves, and the tally of unpriced shots stays the number
/// of rows still open.
pub proof fn a_decision_prices_what_it_resolves(
    stored: Seq<EvidenceView>,
    active: ActiveSession,
    decision: MismatchDecision,
    now: i64,
    price: Ped,
    expected: Option<LoadoutView>,
    review_id: Seq<char>,
)
    requires
        active.attribution@.wf(),
        active.attribution@.mismatch is Some,
        rows_tell_the_unpriced(stored + active.accumulator@.evidence, active.attribution@),
        ({
            let moves = decision::decided(active.attribution@, decision, now).0->0.moves;
            decision::closing_ledger(active, decision, now, price, expected, review_id).repriced
                == moves.len()
        }),
    ensures
        ({
            let ledger = decision::closing_ledger(
                active,
                decision,
                now,
                price,
                expected,
                review_id,
            );
            rows_tell_the_unpriced(rows_of(stored, ledger, review_id), ledger.runtime)
        }),
{
    let runtime = active.attribution@;
    let (made, decided) = decision::decided(runtime, decision, now);
    let steps = made->0.moves;
    let mismatch = runtime.mismatch->0;
    let opening = decision::opening_ledger(active, decided);
    let ledger = decision::closing_ledger(active, decision, now, price, expected, review_id);
    let before = stored + active.accumulator@.evidence;
    let after = rows_of(stored, ledger, review_id);
    assert(rows_of(stored, opening, review_id) == before);
    regime_laws::decisions_conserve_the_tallies(runtime, now);
    moves_name_the_same_rows(opening, steps, price, expected, review_id);
    match decision {
        MismatchDecision::Confirm => {
            let start = regime::walk_start(runtime.log, mismatch.evidence);
            regime::walk_in_range(runtime.log, mismatch.evidence);
            let recent = runtime.log.skip(start);
            assert(lists::apart(recent, record_key())) by {
                assert forall|i: int, j: int| 0 <= i < j < recent.len() implies record_key()(
                    recent[i],
                ) is None || #[trigger] record_key()(recent[i]) != #[trigger] record_key()(
                    recent[j],
                ) by {
                    assert(recent[i] == runtime.log[i + start]);
                    assert(recent[j] == runtime.log[j + start]);
                    assert(record_key()(runtime.log[i + start]) is None || record_key()(
                        runtime.log[i + start],
                    ) != record_key()(runtime.log[j + start]));
                }
            }
            assert forall|i: int| 0 <= i < recent.len() implies has_its_row(
                before,
                #[trigger] recent[i],
            ) by {
                assert(recent[i] == runtime.log[i + start]);
            }
            let records = runtime.confirmed_records(mismatch.evidence);
            kept_records_have_their_rows(before, recent, regime::movable(mismatch.evidence));
            moves_have_their_rows(before, records, mismatch.evidence);
            moves_price_their_rows(stored, opening, steps, price, expected, review_id);
            runtime.confirming_is_valid(now);
        },
        MismatchDecision::Keep => {
            let keep = regime::evidence_of(mismatch.evidence);
            let records = runtime.log.filter(keep);
            kept_records_have_their_rows(before, runtime.log, keep);
            moves_have_their_rows(before, records, mismatch.declared);
            moves_price_their_rows(stored, opening, steps, price, expected, review_id);
            lists::filter_kept(runtime.log, keep);
            no_unresolved_evidence(runtime.log, mismatch.evidence);
            assert(same_rows_named(runtime.log, decided.log));
            same_records_keep_their_rows(before, runtime.log, decided.log);
            same_records_keep_their_rows(before, decided.log, ledger.runtime.log);
            assert forall|i: int| 0 <= i < ledger.runtime.log.len() implies has_its_row(
                after,
                #[trigger] ledger.runtime.log[i],
            ) by {
                let record = ledger.runtime.log[i];
                assert(has_its_row(before, record));
                if record.evidence_id is Some {
                    let k = choose|k: int|
                        0 <= k < before.len() && is_row_of(#[trigger] before[k], record);
                    assert(after[k].id == before[k].id && after[k].kind == before[k].kind);
                    if before[k].kind == AttributionKind::Unresolved && reached(
                        steps,
                        before[k].id,
                    ) {
                        let j = choose|j: int|
                            0 <= j < steps.len() && (#[trigger] steps[j]).record.evidence_id
                                == Some(before[k].id);
                        assert(has_its_row(before, steps[j].record));
                        let other = choose|other: int|
                            0 <= other < before.len() && is_row_of(
                                #[trigger] before[other],
                                steps[j].record,
                            );
                        only_one_has_the_id(before, k, other);
                        assert(keep(records[j]));
                    }
                    assert(is_row_of(after[k], record));
                }
            }
        },
    }
    same_ids_stay_apart(before, after);
}

/// No evidence is unresolved.
proof fn no_unresolved_evidence(log: Seq<RecordView>, tool: Seq<char>)
    ensures
        lists::count(
            log.filter(regime::evidence_of(tool)),
            regime::of_kind(AttributionKind::Unresolved),
        ) == 0,
{
    let kept = log.filter(regime::evidence_of(tool));
    let kind = regime::of_kind(AttributionKind::Unresolved);
    lists::filter_kept(log, regime::evidence_of(tool));
    lists::filter_kept(kept, kind);
    if kept.filter(kind).len() > 0 {
        let record = kept.filter(kind)[0];
        let j = choose|j: int| 0 <= j < kept.len() && kept[j] == record;
        assert(regime::evidence_of(tool)(kept[j]));
    }
}

} // verus!
