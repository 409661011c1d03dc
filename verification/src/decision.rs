//! Live decisions on a standing weapon mismatch.
//!
//! A decision moves the regime's shots between weapons on copies of what it
//! may change, is written in one transaction, and takes effect only when the
//! write landed: memory and the database never disagree.

use crate::attribution::{
    Decision, DecisionView, LocationView, Reprice, RepriceView, ShotLocation,
};
use crate::combat;
use crate::combat::take_in_hand;
use crate::evidence::{
    copy_rows, EvidenceView, MismatchDecision, ShotEvidence, WeaponDecisionError,
};
use crate::ids;
use crate::ids::fresh_id;
use crate::lists;
use crate::phases;
use crate::phases::{
    have_room, move_shot, LoadoutView, OffensiveLoadoutEvidence, PhasesView, ToolStats,
};
use crate::records::{copy_kills, copy_phases, Kill, KillView, TrackedView};
use crate::regime;
use crate::regime::{AttributionRuntime, RuntimeView};
use crate::session::{AccumulatorView, ActiveSession, HeldItem, HotbarItemKind, SessionState};
use crate::text;
use crate::text::same_text;
use crate::units;
use crate::units::Ped;
use vstd::prelude::*;

verus! {

/// A stored row a decision moves to another weapon.
#[derive(Debug, PartialEq, Eq)]
pub struct RowUpdate {
    pub id: String,
    pub tool: String,
    pub cost: Ped,
}

/// A row update as contracts read it.
pub struct UpdateView {
    pub id: Seq<char>,
    pub tool: Seq<char>,
    pub cost: Ped,
}

impl View for RowUpdate {
    type V = UpdateView;

    open spec fn view(&self) -> UpdateView {
        UpdateView { id: self.id@, tool: self.tool@, cost: self.cost }
    }
}

/// Everything a decision may change, and what it has changed so far.
pub struct Ledger {
    pub pending: Vec<(String, ToolStats)>,
    pub kills: Vec<Kill>,
    pub rows: Vec<ShotEvidence>,
    pub runtime: AttributionRuntime,
    /// The kills a moved shot sits in, in the order first reached.
    pub touched: Vec<usize>,
    pub repriced: i64,
    pub cost_delta: i128,
    /// The rows already stored that move with their shots.
    pub updates: Vec<RowUpdate>,
}

/// A ledger as contracts read it.
#[verifier::ext_equal]
pub struct LedgerView {
    pub pending: PhasesView,
    pub kills: Seq<KillView>,
    pub rows: Seq<EvidenceView>,
    pub runtime: RuntimeView,
    pub touched: Seq<usize>,
    pub repriced: int,
    pub cost_delta: int,
    pub updates: Seq<UpdateView>,
}

impl View for Ledger {
    type V = LedgerView;

    open spec fn view(&self) -> LedgerView {
        LedgerView {
            pending: text::views(self.pending@),
            kills: text::views(self.kills@),
            rows: text::views(self.rows@),
            runtime: self.runtime@,
            touched: self.touched@,
            repriced: self.repriced as int,
            cost_delta: self.cost_delta as int,
            updates: text::views(self.updates@),
        }
    }
}

/// Where the last kill with this id stands; minus one when none has it.
pub open spec fn last_kill(kills: Seq<KillView>, id: Seq<char>) -> int
    decreases kills.len(),
{
    if kills.len() == 0 {
        -1
    } else if kills.last().id == id {
        kills.len() - 1
    } else {
        last_kill(kills.drop_last(), id)
    }
}

/// Where the first row with this id stands; the length when none has it.
pub open spec fn row_at(rows: Seq<EvidenceView>, id: Seq<char>) -> int
    decreases rows.len(),
{
    if rows.len() == 0 {
        0
    } else if rows[0].id == id {
        0
    } else {
        1 + row_at(rows.skip(1), id)
    }
}

/// What one move of a decision does to a list of phases.
pub open spec fn phases_after(
    list: PhasesView,
    step: RepriceView,
    price: Ped,
    expected: Option<LoadoutView>,
) -> Option<PhasesView> {
    phases::shot_moved(
        list,
        step.record.booked,
        step.record.cost,
        step.record.observation.size() as int,
        step.record.observation.is_critical(),
        step.to_tool,
        price,
        expected,
    )
}

impl LedgerView {
    /// The ledger after a shot whose phases moved is accounted for: it is
    /// counted and its cost difference booked; its row moves with it, in the
    /// buffer or, already stored, as an update; and its log record is booked
    /// anew.
    pub open spec fn accounted(
        self,
        step: RepriceView,
        price: Ped,
        review_id: Seq<char>,
    ) -> LedgerView {
        let base = LedgerView {
            repriced: self.repriced + 1,
            cost_delta: self.cost_delta + price.0 - step.record.cost.0,
            runtime: self.runtime.rebooking(step.seq, step.to_tool, price),
            ..self
        };
        match step.record.evidence_id {
            Some(id) => {
                let at = row_at(self.rows, id);
                if at < self.rows.len() {
                    LedgerView {
                        rows: self.rows.update(
                            at,
                            EvidenceView {
                                tool_name: Some(step.to_tool),
                                cost_per_shot: price,
                                review_id: Some(review_id),
                                ..self.rows[at]
                            },
                        ),
                        ..base
                    }
                } else {
                    LedgerView {
                        updates: self.updates.push(
                            UpdateView { id, tool: step.to_tool, cost: price },
                        ),
                        ..base
                    }
                }
            },
            None => base,
        }
    }

    /// The ledger with a kill noted as touched.
    pub open spec fn touching(self, at: int) -> LedgerView {
        if self.touched.contains(at as usize) {
            self
        } else {
            LedgerView { touched: self.touched.push(at as usize), ..self }
        }
    }

    /// The ledger after one move: the shot leaves the phase it was booked
    /// under for the weapon's phase at its price, in the accumulator or in
    /// the kill it settled into, whose cost follows. A shot no longer found
    /// there is left as recorded.
    pub open spec fn moved(
        self,
        step: RepriceView,
        price: Ped,
        expected: Option<LoadoutView>,
        review_id: Seq<char>,
    ) -> LedgerView {
        match step.record.location {
            LocationView::Pending => match phases_after(self.pending, step, price, expected) {
                Some(pending) => LedgerView { pending, ..self }.accounted(step, price, review_id),
                None => self,
            },
            LocationView::Kill(id) => {
                let at = last_kill(self.kills, id);
                if at < 0 {
                    self
                } else {
                    let base = self.touching(at);
                    match phases_after(self.kills[at].tool_stats, step, price, expected) {
                        Some(tool_stats) => LedgerView {
                            kills: self.kills.update(
                                at,
                                KillView {
                                    tool_stats,
                                    cost_ped: self.kills[at].cost_ped + price.0
                                        - step.record.cost.0,
                                    ..self.kills[at]
                                },
                            ),
                            ..base
                        }.accounted(step, price, review_id),
                        None => base,
                    }
                }
            },
        }
    }

    /// The ledger after every move, oldest first.
    pub open spec fn all_moved(
        self,
        steps: Seq<RepriceView>,
        price: Ped,
        expected: Option<LoadoutView>,
        review_id: Seq<char>,
    ) -> LedgerView
        decreases steps.len(),
    {
        if steps.len() == 0 {
            self
        } else {
            self.all_moved(steps.drop_last(), price, expected, review_id).moved(
                steps.last(),
                price,
                expected,
                review_id,
            )
        }
    }

    /// Whether `moves` more shots can move within the integers everything is
    /// kept in.
    pub open spec fn has_room(self, moves: nat) -> bool {
        &&& phases::phases_have_room(self.pending, 2 * moves)
        &&& self.pending.len() + moves < usize::MAX
        &&& forall|i: int|
            0 <= i < self.kills.len() ==> kill_has_room(#[trigger] self.kills[i], moves)
        &&& 0 <= self.repriced <= i64::MAX - moves
        &&& -i128::MAX + moves * 0x1_0000_0000_0000_0000 <= self.cost_delta <= i128::MAX - moves
            * 0x1_0000_0000_0000_0000
    }
}

/// Whether `moves` more shots can move within a kill.
pub open spec fn kill_has_room(kill: KillView, moves: nat) -> bool {
    &&& phases::phases_have_room(kill.tool_stats, 2 * moves)
    &&& kill.tool_stats.len() + moves < usize::MAX
    &&& -i128::MAX + moves * 0x1_0000_0000_0000_0000 <= kill.cost_ped <= i128::MAX - moves
        * 0x1_0000_0000_0000_0000
}

/// Where the last kill with an id stands is in the list, and it has the id.
pub proof fn last_kill_found(kills: Seq<KillView>, id: Seq<char>)
    ensures
        -1 <= last_kill(kills, id) < kills.len(),
        last_kill(kills, id) >= 0 ==> kills[last_kill(kills, id)].id == id,
    decreases kills.len(),
{
    if kills.len() > 0 && kills.last().id != id {
        last_kill_found(kills.drop_last(), id);
    }
}

/// Where the first row with an id stands has the id, and where none stands no
/// row has it.
pub proof fn row_found(rows: Seq<EvidenceView>, id: Seq<char>)
    ensures
        0 <= row_at(rows, id) <= rows.len(),
        row_at(rows, id) < rows.len() ==> rows[row_at(rows, id)].id == id,
        row_at(rows, id) == rows.len() ==> forall|i: int|
            0 <= i < rows.len() ==> (#[trigger] rows[i]).id != id,
    decreases rows.len(),
{
    if rows.len() > 0 && rows[0].id != id {
        let rest = rows.skip(1);
        row_found(rest, id);
        assert(forall|i: int| 1 <= i < rows.len() ==> #[trigger] rows[i] == rest[i - 1]);
    }
}

/// What one move leaves as it was, and the room it takes.
pub proof fn a_move_conserves_the_ledger(
    ledger: LedgerView,
    step: RepriceView,
    price: Ped,
    expected: Option<LoadoutView>,
    review_id: Seq<char>,
    room: nat,
)
    requires
        ledger.has_room(room + 1),
        forall|i: int|
            0 <= i < ledger.pending.len() ==> (#[trigger] ledger.pending[i]).1.shots_fired >= 0,
    ensures
        ({
            let after = ledger.moved(step, price, expected, review_id);
            &&& after.has_room(room)
            &&& phases::total_shots(after.pending) == phases::total_shots(ledger.pending)
            &&& forall|i: int|
                0 <= i < after.pending.len() ==> (#[trigger] after.pending[i]).1.shots_fired >= 0
            &&& after.kills.len() == ledger.kills.len()
            &&& after.rows.len() == ledger.rows.len()
        }),
{
    let after = ledger.moved(step, price, expected, review_id);
    let size = step.record.observation.size();
    let critical = step.record.observation.is_critical();
    phases::moving_conserves_the_shots(
        ledger.pending,
        step.record.booked,
        step.record.cost,
        size as int,
        critical,
        step.to_tool,
        price,
        expected,
    );
    assert(2 * (room + 1) == 2 * room + 2);
    phases::moving_takes_room(
        ledger.pending,
        step.record.booked,
        step.record.cost,
        size,
        critical,
        step.to_tool,
        price,
        expected,
        2 * room,
    );
    phases::room_shrinks(ledger.pending, 2 * (room + 1), 2 * room);
    if let Some(id) = step.record.evidence_id {
        row_found(ledger.rows, id);
    }
    if let LocationView::Kill(id) = step.record.location {
        last_kill_found(ledger.kills, id);
    }
    assert(after.kills.len() == ledger.kills.len());
    assert forall|i: int| 0 <= i < after.kills.len() implies kill_has_room(
        #[trigger] after.kills[i],
        room,
    ) by {
        let kill = ledger.kills[i];
        assert(kill_has_room(kill, room + 1));
        phases::room_shrinks(kill.tool_stats, 2 * (room + 1), 2 * room);
        assert(forall|j: int|
            0 <= j < kill.tool_stats.len() ==> (#[trigger] kill.tool_stats[j]).1.has_room(
                2 * (room + 1),
            ));
        assert(forall|j: int|
            0 <= j < kill.tool_stats.len() ==> (#[trigger] kill.tool_stats[j]).1.shots_fired >= 0);
        phases::moving_conserves_the_shots(
            kill.tool_stats,
            step.record.booked,
            step.record.cost,
            size as int,
            critical,
            step.to_tool,
            price,
            expected,
        );
        phases::moving_takes_room(
            kill.tool_stats,
            step.record.booked,
            step.record.cost,
            size,
            critical,
            step.to_tool,
            price,
            expected,
            2 * room,
        );
    }
}

fn find_last_kill(kills: &Vec<Kill>, id: &str) -> (at: Option<usize>)
    ensures
        match at {
            Some(at) => at == last_kill(text::views(kills@), id@) && at < kills.len(),
            None => last_kill(text::views(kills@), id@) == -1,
        },
{
    let ghost all = text::views(kills@);
    let mut i: usize = kills.len();
    assert(all.take(all.len() as int) =~= all);
    while i > 0
        invariant
            i <= kills.len(),
            all == text::views(kills@),
            last_kill(all, id@) == last_kill(all.take(i as int), id@),
        decreases i,
    {
        assert(all.take(i as int).last() == kills@[i as int - 1]@);
        if same_text(kills[i - 1].id.as_str(), id) {
            return Some(i - 1);
        }
        assert(all.take(i as int).drop_last() =~= all.take(i as int - 1));
        i -= 1;
    }
    None
}

fn find_row(rows: &Vec<ShotEvidence>, id: &str) -> (at: usize)
    ensures
        at == row_at(text::views(rows@), id@),
        at <= rows.len(),
{
    let ghost all = text::views(rows@);
    let mut i: usize = 0;
    assert(all.skip(0) =~= all);
    while i < rows.len()
        invariant
            i <= rows.len(),
            all == text::views(rows@),
            row_at(all, id@) == i + row_at(all.skip(i as int), id@),
        decreases rows.len() - i,
    {
        assert(all.skip(i as int)[0] == rows@[i as int]@);
        if same_text(rows[i].id.as_str(), id) {
            return i;
        }
        assert(all.skip(i as int).skip(1) =~= all.skip(i as int + 1));
        i += 1;
    }
    i
}

fn holds_index(list: &Vec<usize>, at: usize) -> (found: bool)
    ensures
        found == list@.contains(at),
{
    let mut i: usize = 0;
    while i < list.len()
        invariant
            i <= list.len(),
            forall|j: int| 0 <= j < i ==> list@[j] != at,
        decreases list.len() - i,
    {
        if list[i] == at {
            return true;
        }
        i += 1;
    }
    false
}

fn copy_loadout(expected: &Option<OffensiveLoadoutEvidence>) -> (copy: Option<
    OffensiveLoadoutEvidence,
>)
    ensures
        text::opt_view(copy) == text::opt_view(*expected),
{
    match expected {
        Some(loadout) => Some(loadout.clone()),
        None => None,
    }
}

impl Ledger {
    fn account(&mut self, step: &Reprice, price: Ped, review_id: &str)
        requires
            old(self)@.runtime.wf(),
            old(self)@.repriced < i64::MAX,
            i128::MIN <= old(self)@.cost_delta + price.0 - step@.record.cost.0 <= i128::MAX,
        ensures
            final(self)@ == old(self)@.accounted(step@, price, review_id@),
            final(self)@.runtime.wf(),
    {
        let ghost before = self@;
        self.repriced = self.repriced + 1;
        let gap: i128 = price.0 as i128 - step.record.cost.0 as i128;
        self.cost_delta = self.cost_delta + gap;
        self.runtime.rebook(step.seq, step.to_tool.as_str(), price);
        if let Some(id) = &step.record.evidence_id {
            let at: usize = find_row(&self.rows, id.as_str());
            if at < self.rows.len() {
                let mut row = self.rows[at].clone();
                row.tool_name = Some(step.to_tool.clone());
                row.cost_per_shot = price;
                row.review_id = Some(review_id.to_owned());
                let ghost changed = row@;
                assert(changed == (EvidenceView {
                    tool_name: Some(step@.to_tool),
                    cost_per_shot: price,
                    review_id: Some(review_id@),
                    ..before.rows[at as int]
                }));
                self.rows[at] = row;
                assert(self@.rows =~= before.rows.update(at as int, changed));
            } else {
                let update = RowUpdate { id: id.clone(), tool: step.to_tool.clone(), cost: price };
                let ghost added = update@;
                self.updates.push(update);
                assert(self@.updates =~= before.updates.push(added));
            }
        }
        assert(self@ =~= before.accounted(step@, price, review_id@));
    }

    /// Move one shot to the weapon it is repriced to.
    fn apply(
        &mut self,
        step: &Reprice,
        price: Ped,
        expected: &Option<OffensiveLoadoutEvidence>,
        review_id: &str,
        Ghost(room): Ghost<nat>,
    )
        requires
            old(self)@.runtime.wf(),
            old(self)@.has_room(room + 1),
            forall|i: int|
                0 <= i < old(self)@.pending.len() ==> (
                #[trigger] old(self)@.pending[i]).1.shots_fired >= 0,
        ensures
            final(self)@ == old(self)@.moved(
                step@,
                price,
                text::opt_view(*expected),
                review_id@,
            ),
            final(self)@.runtime.wf(),
    {
        let ghost before = self@;
        let ghost loadout = text::opt_view(*expected);
        let amount: i64 = step.record.observation.amount();
        let critical: bool = step.record.observation.critical();
        let booked: Option<&str> = match &step.record.booked {
            Some(tool) => Some(tool.as_str()),
            None => None,
        };
        match &step.record.location {
            ShotLocation::Pending => {
                proof {
                    phases::room_shrinks(before.pending, 2 * (room + 1), 2);
                }
                let found: bool = move_shot(
                    &mut self.pending,
                    booked,
                    step.record.cost,
                    amount,
                    critical,
                    step.to_tool.as_str(),
                    price,
                    copy_loadout(expected),
                );
                if found {
                    self.account(step, price, review_id);
                }
            },
            ShotLocation::Kill(id) => {
                let at: usize = match find_last_kill(&self.kills, id.as_str()) {
                    Some(at) => at,
                    None => {
                        return ;
                    },
                };
                if !holds_index(&self.touched, at) {
                    self.touched.push(at);
                }
                assert(self@ =~= before.touching(at as int));
                let mut kill = self.kills[at].clone();
                proof {
                    assert(before.kills[at as int] == kill@);
                    assert(kill_has_room(before.kills[at as int], room + 1));
                    phases::room_shrinks(kill@.tool_stats, 2 * (room + 1), 2);
                }
                let found: bool = move_shot(
                    &mut kill.tool_stats,
                    booked,
                    step.record.cost,
                    amount,
                    critical,
                    step.to_tool.as_str(),
                    price,
                    copy_loadout(expected),
                );
                if found {
                    let gap: i128 = price.0 as i128 - step.record.cost.0 as i128;
                    kill.cost_ped = kill.cost_ped + gap;
                    let ghost changed = kill@;
                    self.kills[at] = kill;
                    proof {
                        assert(self@.kills =~= before.kills.update(at as int, changed));
                    }
                    self.account(step, price, review_id);
                }
            },
        }
    }
}

/// A decision's write, detached from the session's state.
#[derive(Debug, PartialEq, Eq)]
pub struct DecisionWrite {
    pub review_id: String,
    pub session_id: String,
    pub decision: MismatchDecision,
    pub declared: String,
    pub evidence: String,
    pub since: i64,
    pub decided_at: i64,
    pub repriced: i64,
    pub cost_delta: i128,
    /// The kills to write anew, by their place in the prepared list.
    pub kills: Vec<usize>,
    pub row_updates: Vec<RowUpdate>,
    /// The effect windows taken back.
    pub withdrawn: Vec<String>,
}

/// A decision ready to be written, beside the state it takes effect with.
pub struct PreparedDecision {
    pub attribution: AttributionRuntime,
    pub tool_stats: Vec<(String, ToolStats)>,
    pub evidence: Vec<ShotEvidence>,
    pub kills: Vec<Kill>,
    pub write: DecisionWrite,
}

/// What the player's decision does to the attribution state, and its moves.
pub open spec fn decided(
    runtime: RuntimeView,
    decision: MismatchDecision,
    now: i64,
) -> (Option<DecisionView>, RuntimeView) {
    match decision {
        MismatchDecision::Confirm => (runtime.confirmation(), runtime.confirming(now)),
        MismatchDecision::Keep => (runtime.keep_decision(), runtime.keeping_declared()),
    }
}

/// The ledger a decision starts from.
pub open spec fn opening_ledger(active: ActiveSession, runtime: RuntimeView) -> LedgerView {
    LedgerView {
        pending: active.accumulator@.tool_stats,
        kills: active.session@.kills,
        rows: active.accumulator@.evidence,
        runtime,
        touched: Seq::empty(),
        repriced: 0,
        cost_delta: 0,
        updates: Seq::empty(),
    }
}

/// The ledger a decision ends with.
pub open spec fn closing_ledger(
    active: ActiveSession,
    decision: MismatchDecision,
    now: i64,
    price: Ped,
    expected: Option<LoadoutView>,
    review_id: Seq<char>,
) -> LedgerView {
    let (made, runtime) = decided(active.attribution@, decision, now);
    opening_ledger(active, runtime).all_moved(made->0.moves, price, expected, review_id)
}

/// Whether every shot the log holds can move within the integers everything
/// is kept in.
pub open spec fn can_decide(active: ActiveSession) -> bool {
    opening_ledger(active, active.attribution@).has_room(active.attribution@.log.len())
}

/// Whether every shot the log holds can move.
pub fn has_room_to_decide(active: &ActiveSession) -> (yes: bool)
    ensures
        yes == can_decide(*active),
{
    let logged: usize = active.attribution.log().len();
    let ghost ledger = opening_ledger(*active, active.attribution@);
    assert(active.attribution@.log.len() == logged);
    if logged as u128 > 0x3fff_ffff_ffff_ffff {
        return false;
    }
    let moves: u64 = logged as u64;
    let weight: i128 = moves as i128 * 0x1_0000_0000_0000_0000;
    if !have_room(&active.accumulator.tool_stats, 2 * moves)
        || active.accumulator.tool_stats.len() as u128 + moves as u128 >= usize::MAX as u128 {
        return false;
    }
    let kills = &active.session.kills;
    let mut i: usize = 0;
    while i < kills.len()
        invariant
            i <= kills.len(),
            text::views(kills@) == ledger.kills,
            ledger == opening_ledger(*active, active.attribution@),
            active.attribution@.log.len() == moves,
            moves <= 0x3fff_ffff_ffff_ffff,
            weight == moves * 0x1_0000_0000_0000_0000,
            forall|j: int|
                0 <= j < i ==> kill_has_room(#[trigger] ledger.kills[j], moves as nat),
        decreases kills.len() - i,
    {
        let kill = &kills[i];
        assert(ledger.kills[i as int] == kill@);
        let fits: bool = have_room(&kill.tool_stats, 2 * moves) && (kill.tool_stats.len() as u128)
            + (moves as u128) < usize::MAX as u128 && -i128::MAX + weight <= kill.cost_ped
            && kill.cost_ped <= i128::MAX - weight;
        assert(fits == kill_has_room(ledger.kills[i as int], moves as nat));
        if !fits {
            return false;
        }
        i += 1;
    }
    true
}

impl PreparedDecision {
    /// Whether this is a decision on the mismatch that stands in a session:
    /// every move of it booked, and the write saying exactly what moved.
    pub open spec fn is_of(
        self,
        active: ActiveSession,
        decision: MismatchDecision,
        now: i64,
        price: Ped,
        expected: Option<LoadoutView>,
    ) -> bool {
        let (made, _) = decided(active.attribution@, decision, now);
        let write = self.write;
        let ledger = closing_ledger(active, decision, now, price, expected, write.review_id@);
        &&& self.attribution@ == ledger.runtime
        &&& self.attribution@.wf()
        &&& text::views(self.tool_stats@) == ledger.pending
        &&& text::views(self.evidence@) == ledger.rows
        &&& text::views(self.kills@) == ledger.kills
        &&& phases::countable(ledger.pending)
        &&& phases::total_shots(ledger.pending) == active.accumulator@.shots_fired
        &&& write.session_id@ == active.session.id@
        &&& write.decision == decision
        &&& write.declared@ == made->0.mismatch.declared
        &&& write.evidence@ == made->0.mismatch.evidence
        &&& write.since == made->0.mismatch.since
        &&& write.decided_at == now
        &&& write.repriced == ledger.repriced
        &&& write.cost_delta == ledger.cost_delta
        &&& write.kills@ == ledger.touched
        &&& text::views(write.row_updates@) == ledger.updates
        &&& text::views(write.withdrawn@) == made->0.withdrawn
    }
}

/// Prepare a decision on a standing weapon mismatch under a given review id.
/// None when none stands (a stale control): there is then nothing to write.
/// `price` and `expected` are those of the weapon the shots move to.
pub fn prepare_with_id(
    active: &ActiveSession,
    decision: MismatchDecision,
    now: i64,
    price: Ped,
    expected: &Option<OffensiveLoadoutEvidence>,
    review_id: String,
) -> (prepared: Option<PreparedDecision>)
    requires
        active.wf(),
        can_decide(*active),
    ensures
        (prepared is Some) == (active.attribution@.mismatch is Some),
        prepared is Some ==> prepared->0.is_of(
            *active,
            decision,
            now,
            price,
            text::opt_view(*expected),
        ) && prepared->0.write.review_id@ == review_id@,
{
    let mut runtime = active.attribution.clone();
    let ghost before = active.attribution@;
    let made: Option<Decision> = match decision {
        MismatchDecision::Confirm => runtime.confirm(now),
        MismatchDecision::Keep => runtime.keep(),
    };
    let made: Decision = match made {
        Some(made) => made,
        None => {
            return None;
        },
    };
    let ghost steps = text::views(made.moves@);
    let ghost started = opening_ledger(*active, runtime@);
    let ghost room: nat = before.log.len();
    proof {
        moves_are_logged(before, decision, now);
        assert(steps.len() <= room);
    }
    let mut ledger = Ledger {
        pending: copy_phases(&active.accumulator.tool_stats),
        kills: copy_kills(&active.session.kills),
        rows: copy_rows(&active.accumulator.evidence),
        runtime,
        touched: Vec::new(),
        repriced: 0,
        cost_delta: 0,
        updates: Vec::new(),
    };
    proof {
        assert(ledger@ =~= started);
        assert(started.has_room(room)) by {
            let open = opening_ledger(*active, before);
            assert(open.has_room(room));
            assert forall|i: int| 0 <= i < started.kills.len() implies kill_has_room(
                #[trigger] started.kills[i],
                room,
            ) by {
                assert(kill_has_room(open.kills[i], room));
            }
        }
        assert(steps.take(0) =~= Seq::empty());
    }
    let mut i: usize = 0;
    while i < made.moves.len()
        invariant
            i <= made.moves.len(),
            steps == text::views(made.moves@),
            steps.len() <= room,
            ledger@ == started.all_moved(
                steps.take(i as int),
                price,
                text::opt_view(*expected),
                review_id@,
            ),
            ledger@.has_room((room - i) as nat),
            ledger@.runtime.wf(),
            phases::total_shots(ledger@.pending) == phases::total_shots(started.pending),
            forall|j: int|
                0 <= j < ledger@.pending.len() ==> (
                #[trigger] ledger@.pending[j]).1.shots_fired >= 0,
        decreases made.moves.len() - i,
    {
        let step = &made.moves[i];
        proof {
            let next = steps.take(i as int + 1);
            assert(next.drop_last() =~= steps.take(i as int));
            assert(next.last() == step@);
            a_move_conserves_the_ledger(
                ledger@,
                step@,
                price,
                text::opt_view(*expected),
                review_id@,
                (room - i - 1) as nat,
            );
        }
        ledger.apply(step, price, expected, review_id.as_str(), Ghost((room - i - 1) as nat));
        i += 1;
    }
    assert(steps.take(steps.len() as int) =~= steps);
    Some(
        PreparedDecision {
            attribution: ledger.runtime,
            tool_stats: ledger.pending,
            evidence: ledger.rows,
            kills: ledger.kills,
            write: DecisionWrite {
                review_id,
                session_id: active.session.id.clone(),
                decision,
                declared: made.mismatch.declared,
                evidence: made.mismatch.evidence,
                since: made.mismatch.since,
                decided_at: now,
                repriced: ledger.repriced,
                cost_delta: ledger.cost_delta,
                kills: ledger.touched,
                row_updates: ledger.updates,
                withdrawn: made.withdrawn,
            },
        },
    )
}

/// A decision moves no more shots than the log holds.
proof fn moves_are_logged(runtime: RuntimeView, decision: MismatchDecision, now: i64)
    ensures
        ({
            let (made, _) = decided(runtime, decision, now);
            made is Some ==> made->0.moves.len() <= runtime.log.len()
        }),
{
    if let Some(mismatch) = runtime.mismatch {
        let start = regime::walk_start(runtime.log, mismatch.evidence);
        regime::walk_in_range(runtime.log, mismatch.evidence);
        lists::filter_kept(runtime.log.skip(start), regime::movable(mismatch.evidence));
        lists::filter_kept(runtime.log, regime::evidence_of(mismatch.evidence));
    }
}

/// Prepare a decision on a standing weapon mismatch, under a fresh review id.
pub fn prepare(
    active: &ActiveSession,
    decision: MismatchDecision,
    now: i64,
    price: Ped,
    expected: &Option<OffensiveLoadoutEvidence>,
) -> (prepared: Option<PreparedDecision>)
    requires
        active.wf(),
        can_decide(*active),
    ensures
        (prepared is Some) == (active.attribution@.mismatch is Some),
        prepared is Some ==> prepared->0.is_of(
            *active,
            decision,
            now,
            price,
            text::opt_view(*expected),
        ) && ids::id_shape(prepared->0.write.review_id@),
{
    prepare_with_id(active, decision, now, price, expected, fresh_id())
}

/// Decide on the mismatch that stands in the running session. A decision needs
/// a session; with no mismatch standing (a stale control) there is nothing to
/// write.
pub fn decide(
    state: &SessionState,
    decision: MismatchDecision,
    now: i64,
    price: Ped,
    expected: &Option<OffensiveLoadoutEvidence>,
) -> (prepared: Result<Option<PreparedDecision>, WeaponDecisionError>)
    requires
        match *state {
            SessionState::Active(active) => active.wf() && can_decide(*active),
            SessionState::Idle => true,
        },
    ensures
        match *state {
            SessionState::Idle => prepared == Err::<
                Option<PreparedDecision>,
                WeaponDecisionError,
            >(WeaponDecisionError::NoActiveSession),
            SessionState::Active(active) => match prepared {
                Ok(Some(made)) => {
                    &&& active.attribution@.mismatch is Some
                    &&& made.is_of(*active, decision, now, price, text::opt_view(*expected))
                    &&& ids::id_shape(made.write.review_id@)
                },
                Ok(None) => active.attribution@.mismatch is None,
                Err(_) => false,
            },
        },
{
    match state {
        SessionState::Idle => Err(WeaponDecisionError::NoActiveSession),
        SessionState::Active(active) => Ok(prepare(active, decision, now, price, expected)),
    }
}

/// Let a prepared decision take effect when its write landed: the session
/// holds exactly the prepared state, and a confirmation puts the weapon it
/// declared in the hand. A write that failed changes nothing but asks for the
/// readout to be drawn again.
pub fn commit<E>(
    active: &mut ActiveSession,
    held: &mut Option<HeldItem>,
    prepared: PreparedDecision,
    written: Result<(), E>,
) -> (outcome: Result<bool, WeaponDecisionError>)
    requires
        old(active).wf(),
        prepared.attribution@.wf(),
        phases::countable(text::views(prepared.tool_stats@)),
        phases::total_shots(text::views(prepared.tool_stats@)) == old(
            active,
        ).accumulator@.shots_fired,
    ensures
        final(active).wf(),
        final(active).dirty,
        match written {
            Ok(_) => {
                &&& outcome == Ok::<bool, WeaponDecisionError>(true)
                &&& final(active).attribution == prepared.attribution
                &&& final(active).accumulator@ == (AccumulatorView {
                    tool_stats: text::views(prepared.tool_stats@),
                    evidence: text::views(prepared.evidence@),
                    ..old(active).accumulator@
                })
                &&& final(active).session@ == (TrackedView {
                    kills: text::views(prepared.kills@),
                    ..old(active).session@
                })
                &&& *final(active) == (ActiveSession {
                    attribution: final(active).attribution,
                    accumulator: final(active).accumulator,
                    session: final(active).session,
                    dirty: true,
                    ..*old(active)
                })
                &&& match (prepared.write.decision, prepared.attribution@.declared) {
                    (MismatchDecision::Confirm, Some(declared)) => combat::holds(
                        *final(held),
                        declared,
                        HotbarItemKind::Weapon,
                    ),
                    _ => *final(held) == *old(held),
                }
            },
            Err(_) => {
                &&& outcome == Err::<bool, WeaponDecisionError>(WeaponDecisionError::NotSaved)
                &&& *final(active) == (ActiveSession { dirty: true, ..*old(active) })
                &&& *final(held) == *old(held)
            },
        },
{
    active.dirty = true;
    match written {
        Ok(_) => {
            if prepared.write.decision == MismatchDecision::Confirm {
                if let Some(declared) = prepared.attribution.declared() {
                    let _ = take_in_hand(held, declared, HotbarItemKind::Weapon);
                }
            }
            active.attribution = prepared.attribution;
            active.accumulator.tool_stats = prepared.tool_stats;
            active.accumulator.evidence = prepared.evidence;
            active.session.kills = prepared.kills;
            Ok(true)
        },
        Err(_) => Err(WeaponDecisionError::NotSaved),
    }
}

/// Whatever moves, every kill keeps its shots, its place and everything but
/// its phases and cost; its cost stays its phases' sum to the tolerance of the
/// prices each move compared; and a kill no move reached is untouched.
pub proof fn decisions_conserve_every_kill(
    ledger: LedgerView,
    steps: Seq<RepriceView>,
    price: Ped,
    expected: Option<LoadoutView>,
    review_id: Seq<char>,
    at: int,
)
    requires
        0 <= at < ledger.kills.len(),
        forall|i: int|
            0 <= i < ledger.kills[at].tool_stats.len() ==> (
            #[trigger] ledger.kills[at].tool_stats[i]).1.shots_fired >= 0,
        ledger.kills.len() <= usize::MAX,
    ensures
        ({
            let after = ledger.all_moved(steps, price, expected, review_id);
            let kill = ledger.kills[at];
            let moved = after.kills[at];
            let drift = (moved.cost_ped - phases::total_cost(moved.tool_stats)) - (kill.cost_ped
                - phases::total_cost(kill.tool_stats));
            &&& after.kills.len() == ledger.kills.len()
            &&& phases::total_shots(moved.tool_stats) == phases::total_shots(kill.tool_stats)
            &&& moved == (KillView {
                tool_stats: moved.tool_stats,
                cost_ped: moved.cost_ped,
                ..kill
            })
            &&& -(2 * units::SAME_WITHIN * steps.len()) <= drift <= 2 * units::SAME_WITHIN
                * steps.len()
            &&& !after.touched.contains(at as usize) ==> moved == kill
            &&& forall|i: int|
                0 <= i < moved.tool_stats.len() ==> (#[trigger] moved.tool_stats[i]).1.shots_fired
                    >= 0
            &&& forall|place: usize|
                ledger.touched.contains(place) ==> #[trigger] after.touched.contains(place)
        }),
    decreases steps.len(),
{
    if steps.len() > 0 {
        let before = ledger.all_moved(steps.drop_last(), price, expected, review_id);
        decisions_conserve_every_kill(
            ledger,
            steps.drop_last(),
            price,
            expected,
            review_id,
            at,
        );
        let step = steps.last();
        let after = before.moved(step, price, expected, review_id);
        let kill = before.kills[at];
        phases::moving_conserves_the_shots(
            kill.tool_stats,
            step.record.booked,
            step.record.cost,
            step.record.observation.size() as int,
            step.record.observation.is_critical(),
            step.to_tool,
            price,
            expected,
        );
        if let LocationView::Kill(id) = step.record.location {
            last_kill_found(before.kills, id);
            let place = last_kill(before.kills, id);
            if place >= 0 {
                let touched = before.touching(place).touched;
                assert(touched.contains(place as usize)) by {
                    if !before.touched.contains(place as usize) {
                        assert(touched[before.touched.len() as int] == place as usize);
                    }
                }
                assert forall|other: usize| before.touched.contains(other) implies #[trigger]
                    touched.contains(other) by {
                    let k = choose|k: int| 0 <= k < before.touched.len() && before.touched[k]
                        == other;
                    assert(touched[k] == other);
                }
            }
        }
    }
}

/// A decision that moves nothing books nothing: the cost difference is the
/// difference of each moved shot's prices, shot by shot.
pub proof fn the_cost_difference_is_the_moved_shots(
    ledger: LedgerView,
    step: RepriceView,
    price: Ped,
    expected: Option<LoadoutView>,
    review_id: Seq<char>,
)
    ensures
        ({
            let after = ledger.moved(step, price, expected, review_id);
            ||| after.repriced == ledger.repriced && after.cost_delta == ledger.cost_delta
                && after.pending == ledger.pending && after.kills == ledger.kills && after.rows
                == ledger.rows && after.updates == ledger.updates && after.runtime
                == ledger.runtime
            ||| after.repriced == ledger.repriced + 1 && after.cost_delta == ledger.cost_delta
                + price.0 - step.record.cost.0
        }),
{
}

} // verus!
