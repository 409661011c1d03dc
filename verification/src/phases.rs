//! Weapon phases: the shots a weapon fired at one price, the damage they
//! dealt, and what they cost.
//!
//! A kill's shots are counted under phases keyed by the bare tool name, then
//! `name#2` and so on, in first-seen order: a price change opens a new phase,
//! so no shot is ever priced at another's cost.

use crate::text;
use crate::text::{cat, copy_optional, decimal, same_optional_text, same_text};
use crate::units;
use crate::units::{is_near, Ped, SAME_WITHIN};
use vstd::prelude::*;

verus! {

/// The phase an unpriced shot is counted under: no weapon is known, so the
/// shot is recorded without a cost.
pub const UNPRICED_TOOL: &'static str = "Unknown";

/// What a component of an offensive loadout is.
#[derive(Clone, Copy, Debug, PartialEq, Eq, Structural)]
pub enum OffensiveComponentKind {
    Weapon,
    Amplifier,
}

/// One component of an offensive loadout, at the money one use cycles.
#[derive(Debug, PartialEq, Eq)]
pub struct OffensiveComponentEvidence {
    pub kind: OffensiveComponentKind,
    pub catalog_id: Option<String>,
    pub name: String,
    pub efficiency_pct: Option<i64>,
    pub raw_tt_per_use: i128,
    pub consumed_premium_per_use: i128,
}

/// A loadout component as contracts read it.
pub struct ComponentView {
    pub kind: OffensiveComponentKind,
    pub catalog_id: Option<Seq<char>>,
    pub name: Seq<char>,
    pub efficiency_pct: Option<i64>,
    pub raw_tt_per_use: int,
    pub consumed_premium_per_use: int,
}

impl View for OffensiveComponentEvidence {
    type V = ComponentView;

    open spec fn view(&self) -> ComponentView {
        ComponentView {
            kind: self.kind,
            catalog_id: text::opt_view(self.catalog_id),
            name: self.name@,
            efficiency_pct: self.efficiency_pct,
            raw_tt_per_use: self.raw_tt_per_use as int,
            consumed_premium_per_use: self.consumed_premium_per_use as int,
        }
    }
}

impl Clone for OffensiveComponentEvidence {
    fn clone(&self) -> (copy: Self)
        ensures
            copy@ == self@,
    {
        OffensiveComponentEvidence {
            kind: self.kind,
            catalog_id: copy_optional(&self.catalog_id),
            name: self.name.clone(),
            efficiency_pct: self.efficiency_pct,
            raw_tt_per_use: self.raw_tt_per_use,
            consumed_premium_per_use: self.consumed_premium_per_use,
        }
    }
}

fn same_number(a: Option<i64>, b: Option<i64>) -> (same: bool)
    ensures
        same == (a == b),
{
    match (a, b) {
        (Some(left), Some(right)) => left == right,
        (None, None) => true,
        _ => false,
    }
}

impl OffensiveComponentEvidence {
    /// Whether two components are the same in every field.
    pub fn same(&self, other: &Self) -> (same: bool)
        ensures
            same == (self@ == other@),
    {
        self.kind == other.kind && same_optional_text(&self.catalog_id, &other.catalog_id) && same_text(
            self.name.as_str(),
            other.name.as_str(),
        ) && same_number(self.efficiency_pct, other.efficiency_pct) && self.raw_tt_per_use
            == other.raw_tt_per_use && self.consumed_premium_per_use
            == other.consumed_premium_per_use
    }
}

/// The three hunting-looter levels an expectation is computed under.
#[derive(Clone, Copy, Debug, PartialEq, Eq, Structural)]
pub struct HuntingLooterLevels {
    pub animal: i64,
    pub mutant: i64,
    pub robot: i64,
}

impl HuntingLooterLevels {
    /// No level in any of the three.
    pub open spec fn unskilled() -> HuntingLooterLevels {
        HuntingLooterLevels { animal: 0, mutant: 0, robot: 0 }
    }
}

/// How the looter levels enter an expectation.
#[derive(Clone, Copy, Debug, PartialEq, Eq, Structural)]
pub enum LooterSource {
    /// The mean of the three professions.
    ThreeLooterMean,
}

/// What a weapon's shots are expected to return, as evidence for a later
/// estimate.
#[derive(Debug, PartialEq, Eq)]
pub struct OffensiveLoadoutEvidence {
    pub components: Vec<OffensiveComponentEvidence>,
    pub looters: HuntingLooterLevels,
    pub looter_source: LooterSource,
}

/// Loadout evidence as contracts read it.
#[verifier::ext_equal]
pub struct LoadoutView {
    pub components: Seq<ComponentView>,
    pub looters: HuntingLooterLevels,
    pub looter_source: LooterSource,
}

impl View for OffensiveLoadoutEvidence {
    type V = LoadoutView;

    open spec fn view(&self) -> LoadoutView {
        LoadoutView {
            components: text::views(self.components@),
            looters: self.looters,
            looter_source: self.looter_source,
        }
    }
}

impl Clone for OffensiveLoadoutEvidence {
    fn clone(&self) -> (copy: Self)
        ensures
            copy@ == self@,
    {
        let mut components: Vec<OffensiveComponentEvidence> = Vec::new();
        let mut i: usize = 0;
        while i < self.components.len()
            invariant
                i <= self.components.len(),
                components.len() == i,
                forall|j: int|
                    0 <= j < i ==> (#[trigger] components@[j])@ == self.components@[j]@,
            decreases self.components.len() - i,
        {
            components.push(self.components[i].clone());
            i += 1;
        }
        assert(text::views(components@) =~= text::views(self.components@));
        OffensiveLoadoutEvidence {
            components,
            looters: self.looters,
            looter_source: self.looter_source,
        }
    }
}

impl OffensiveLoadoutEvidence {
    /// Whether two loadouts are the same, component by component.
    pub fn same(&self, other: &Self) -> (same: bool)
        ensures
            same == (self@ == other@),
    {
        if self.looters != other.looters || self.looter_source != other.looter_source
            || self.components.len() != other.components.len() {
            assert(self@.components.len() == self.components.len());
            return false;
        }
        let mut i: usize = 0;
        while i < self.components.len()
            invariant
                i <= self.components.len(),
                self.components.len() == other.components.len(),
                forall|j: int|
                    0 <= j < i ==> (#[trigger] self.components@[j])@ == other.components@[j]@,
            decreases self.components.len() - i,
        {
            if !self.components[i].same(&other.components[i]) {
                assert(self@.components[i as int] != other@.components[i as int]);
                return false;
            }
            i += 1;
        }
        assert(self@ =~= other@);
        true
    }
}

/// Whether two optional loadouts are the same, absence included.
pub fn same_loadout(
    a: &Option<OffensiveLoadoutEvidence>,
    b: &Option<OffensiveLoadoutEvidence>,
) -> (same: bool)
    ensures
        same == (text::opt_view(*a) == text::opt_view(*b)),
{
    match (a, b) {
        (Some(left), Some(right)) => left.same(right),
        (None, None) => true,
        _ => false,
    }
}

/// The shots of one phase.
#[derive(Debug, PartialEq, Eq)]
pub struct ToolStats {
    pub tool_name: String,
    pub shots_fired: i64,
    pub damage_dealt: i128,
    pub critical_hits: i64,
    pub cost_per_shot: Ped,
    pub expected_economics: Option<OffensiveLoadoutEvidence>,
}

/// A phase's shots as contracts read them.
pub struct StatsView {
    pub tool_name: Seq<char>,
    pub shots_fired: int,
    pub damage_dealt: int,
    pub critical_hits: int,
    pub cost_per_shot: Ped,
    pub expected_economics: Option<LoadoutView>,
}

impl View for ToolStats {
    type V = StatsView;

    open spec fn view(&self) -> StatsView {
        StatsView {
            tool_name: self.tool_name@,
            shots_fired: self.shots_fired as int,
            damage_dealt: self.damage_dealt as int,
            critical_hits: self.critical_hits as int,
            cost_per_shot: self.cost_per_shot,
            expected_economics: text::opt_view(self.expected_economics),
        }
    }
}

impl Clone for ToolStats {
    fn clone(&self) -> (copy: Self)
        ensures
            copy@ == self@,
    {
        ToolStats {
            tool_name: self.tool_name.clone(),
            shots_fired: self.shots_fired,
            damage_dealt: self.damage_dealt,
            critical_hits: self.critical_hits,
            cost_per_shot: self.cost_per_shot,
            expected_economics: match &self.expected_economics {
                Some(loadout) => Some(loadout.clone()),
                None => None,
            },
        }
    }
}

/// A phase with no shot in it yet.
pub open spec fn fresh(
    tool: Seq<char>,
    cost: Ped,
    expected: Option<LoadoutView>,
) -> StatsView {
    StatsView {
        tool_name: tool,
        shots_fired: 0,
        damage_dealt: 0,
        critical_hits: 0,
        cost_per_shot: cost,
        expected_economics: expected,
    }
}

impl ToolStats {
    /// A phase with no shot in it yet.
    pub fn new(
        tool_name: &str,
        cost_per_shot: Ped,
        expected_economics: Option<OffensiveLoadoutEvidence>,
    ) -> (stats: Self)
        ensures
            stats@ == fresh(tool_name@, cost_per_shot, text::opt_view(expected_economics)),
    {
        ToolStats {
            tool_name: tool_name.to_owned(),
            shots_fired: 0,
            damage_dealt: 0,
            critical_hits: 0,
            cost_per_shot,
            expected_economics,
        }
    }
}

/// The damage a printed magnitude adds: a shot that dealt none adds none.
pub open spec fn dealt(amount: int) -> int {
    if amount > 0 {
        amount
    } else {
        0
    }
}

impl StatsView {
    /// The phase with one more shot in it.
    pub open spec fn plus_shot(self, amount: int, critical: bool) -> StatsView {
        StatsView {
            shots_fired: self.shots_fired + 1,
            damage_dealt: self.damage_dealt + dealt(amount),
            critical_hits: self.critical_hits + (if critical {
                1int
            } else {
                0int
            }),
            ..self
        }
    }

    /// The phase with one shot taken out of it.
    pub open spec fn less_shot(self, amount: int, critical: bool) -> StatsView {
        StatsView {
            shots_fired: self.shots_fired - 1,
            damage_dealt: self.damage_dealt - dealt(amount),
            critical_hits: self.critical_hits - (if critical {
                1int
            } else {
                0int
            }),
            ..self
        }
    }

    /// Whether nothing is left in the phase: no shot, and no damage worth a
    /// figure.
    pub open spec fn is_spent(self) -> bool {
        self.shots_fired == 0 && units::near(self.damage_dealt, 0)
    }

    /// What the phase's shots cost.
    pub open spec fn cost(self) -> int {
        self.cost_per_shot.0 * self.shots_fired
    }

    /// Whether `shots` more shots can be counted into or out of the phase
    /// within the integers it is kept in.
    pub open spec fn has_room(self, shots: nat) -> bool {
        &&& 0 <= self.shots_fired <= i64::MAX - shots
        &&& -i64::MAX + shots <= self.critical_hits <= i64::MAX - shots
        &&& -i128::MAX + shots * 0x8000_0000_0000_0000 <= self.damage_dealt <= i128::MAX - shots
            * 0x8000_0000_0000_0000
    }
}

/// A kill's phases as contracts read them: each under its key.
pub type PhasesView = Seq<(Seq<char>, StatsView)>;

/// Whether `shots` more shots can be counted into or out of every phase, and
/// into a new one.
pub open spec fn phases_have_room(phases: PhasesView, shots: nat) -> bool {
    &&& shots <= i64::MAX
    &&& forall|i: int| 0 <= i < phases.len() ==> (#[trigger] phases[i]).1.has_room(shots)
}

/// All the shots of a kill.
pub open spec fn total_shots(phases: PhasesView) -> int
    decreases phases.len(),
{
    if phases.len() == 0 {
        0
    } else {
        total_shots(phases.drop_last()) + phases.last().1.shots_fired
    }
}

/// All the damage of a kill's shots.
pub open spec fn total_damage(phases: PhasesView) -> int
    decreases phases.len(),
{
    if phases.len() == 0 {
        0
    } else {
        total_damage(phases.drop_last()) + phases.last().1.damage_dealt
    }
}

/// All the criticals of a kill's shots.
pub open spec fn total_criticals(phases: PhasesView) -> int
    decreases phases.len(),
{
    if phases.len() == 0 {
        0
    } else {
        total_criticals(phases.drop_last()) + phases.last().1.critical_hits
    }
}

/// What a kill's shots cost.
pub open spec fn total_cost(phases: PhasesView) -> int
    decreases phases.len(),
{
    if phases.len() == 0 {
        0
    } else {
        total_cost(phases.drop_last()) + phases.last().1.cost()
    }
}

/// Phases that hold no negative number of shots, and no more in all than an
/// integer counts.
pub open spec fn countable(phases: PhasesView) -> bool {
    &&& forall|i: int| 0 <= i < phases.len() ==> (#[trigger] phases[i]).1.shots_fired >= 0
    &&& total_shots(phases) <= i64::MAX
}

/// Replacing one phase moves the totals by the difference.
pub proof fn totals_update(phases: PhasesView, at: int, phase: (Seq<char>, StatsView))
    requires
        0 <= at < phases.len(),
    ensures
        total_shots(phases.update(at, phase)) == total_shots(phases) - phases[at].1.shots_fired
            + phase.1.shots_fired,
        total_damage(phases.update(at, phase)) == total_damage(phases) - phases[at].1.damage_dealt
            + phase.1.damage_dealt,
        total_criticals(phases.update(at, phase)) == total_criticals(phases)
            - phases[at].1.critical_hits + phase.1.critical_hits,
        total_cost(phases.update(at, phase)) == total_cost(phases) - phases[at].1.cost()
            + phase.1.cost(),
    decreases phases.len(),
{
    let after = phases.update(at, phase);
    if at == phases.len() - 1 {
        assert(after.drop_last() =~= phases.drop_last());
    } else {
        assert(after.drop_last() =~= phases.drop_last().update(at, phase));
        totals_update(phases.drop_last(), at, phase);
    }
}

/// Removing one phase takes its share out of the totals.
pub proof fn totals_remove(phases: PhasesView, at: int)
    requires
        0 <= at < phases.len(),
    ensures
        total_shots(phases.remove(at)) == total_shots(phases) - phases[at].1.shots_fired,
        total_damage(phases.remove(at)) == total_damage(phases) - phases[at].1.damage_dealt,
        total_criticals(phases.remove(at)) == total_criticals(phases)
            - phases[at].1.critical_hits,
        total_cost(phases.remove(at)) == total_cost(phases) - phases[at].1.cost(),
    decreases phases.len(),
{
    let after = phases.remove(at);
    if at == phases.len() - 1 {
        assert(after =~= phases.drop_last());
    } else {
        assert(after.drop_last() =~= phases.drop_last().remove(at));
        assert(after.last() == phases.last());
        totals_remove(phases.drop_last(), at);
    }
}

/// Adding a phase adds its share to the totals.
pub proof fn totals_push(phases: PhasesView, phase: (Seq<char>, StatsView))
    ensures
        total_shots(phases.push(phase)) == total_shots(phases) + phase.1.shots_fired,
        total_damage(phases.push(phase)) == total_damage(phases) + phase.1.damage_dealt,
        total_criticals(phases.push(phase)) == total_criticals(phases) + phase.1.critical_hits,
        total_cost(phases.push(phase)) == total_cost(phases) + phase.1.cost(),
{
    assert(phases.push(phase).drop_last() =~= phases);
}

/// A run of countable phases costs no more than its shots at the highest
/// price.
pub proof fn total_cost_bound(phases: PhasesView)
    requires
        forall|i: int| 0 <= i < phases.len() ==> (#[trigger] phases[i]).1.shots_fired >= 0,
    ensures
        total_shots(phases) >= 0,
        -0x8000_0000_0000_0000 * total_shots(phases) <= total_cost(phases),
        total_cost(phases) <= 0x8000_0000_0000_0000 * total_shots(phases),
    decreases phases.len(),
{
    if phases.len() > 0 {
        let rest = phases.drop_last();
        assert forall|i: int| 0 <= i < rest.len() implies (#[trigger] rest[i]).1.shots_fired
            >= 0 by {
            assert(rest[i] == phases[i]);
        }
        total_cost_bound(rest);
        let last = phases.last().1;
        assert(phases[phases.len() - 1].1.shots_fired >= 0);
        let cost = last.cost_per_shot.0 as int;
        let shots = last.shots_fired;
        assert(-0x8000_0000_0000_0000 * shots <= cost * shots <= 0x8000_0000_0000_0000 * shots)
            by (nonlinear_arith)
            requires
                -0x8000_0000_0000_0000 <= cost <= 0x8000_0000_0000_0000,
                shots >= 0,
        ;
    }
}

/// The totals of the first phases of a countable run stay countable.
pub proof fn countable_take(phases: PhasesView, at: int)
    requires
        countable(phases),
        0 <= at <= phases.len(),
    ensures
        countable(phases.take(at)),
        total_shots(phases.take(at)) <= total_shots(phases),
    decreases phases.len() - at,
{
    if at == phases.len() {
        assert(phases.take(at) =~= phases);
    } else {
        countable_take(phases, at + 1);
        let next = phases.take(at + 1);
        assert(next.drop_last() =~= phases.take(at));
        assert(next.last() == phases[at]);
    }
}

/// Whether a list of phases can be counted.
pub fn can_add_up(phases: &Vec<(String, ToolStats)>) -> (yes: bool)
    ensures
        yes == countable(text::views(phases@)),
{
    let ghost all = text::views(phases@);
    let mut shots: i64 = 0;
    let mut negative: bool = false;
    let mut i: usize = 0;
    while i < phases.len()
        invariant
            i <= phases.len(),
            all == text::views(phases@),
            negative == exists|j: int| 0 <= j < i && (#[trigger] all[j]).1.shots_fired < 0,
        decreases phases.len() - i,
    {
        assert(all[i as int] == phases@[i as int]@);
        if phases[i].1.shots_fired < 0 {
            negative = true;
        }
        i += 1;
    }
    if negative {
        return false;
    }
    let mut k: usize = 0;
    while k < phases.len()
        invariant
            k <= phases.len(),
            all == text::views(phases@),
            forall|j: int| 0 <= j < all.len() ==> (#[trigger] all[j]).1.shots_fired >= 0,
            shots == total_shots(all.take(k as int)),
            0 <= shots,
        decreases phases.len() - k,
    {
        proof {
            assert(all[k as int] == phases@[k as int]@);
            let next = all.take(k as int + 1);
            assert(next.drop_last() =~= all.take(k as int));
            assert(next.last() == all[k as int]);
            shots_grow(all, k as int + 1);
        }
        let more: i64 = phases[k].1.shots_fired;
        if more > i64::MAX - shots {
            return false;
        }
        shots = shots + more;
        k += 1;
    }
    assert(all.take(all.len() as int) =~= all);
    true
}

proof fn shots_grow(phases: PhasesView, at: int)
    requires
        0 <= at <= phases.len(),
        forall|j: int| 0 <= j < phases.len() ==> (#[trigger] phases[j]).1.shots_fired >= 0,
    ensures
        total_shots(phases.take(at)) <= total_shots(phases),
    decreases phases.len() - at,
{
    if at == phases.len() {
        assert(phases.take(at) =~= phases);
    } else {
        shots_grow(phases, at + 1);
        let next = phases.take(at + 1);
        assert(next.drop_last() =~= phases.take(at));
        assert(next.last() == phases[at]);
    }
}

/// What a list of phases costs.
pub fn weapon_cost(phases: &Vec<(String, ToolStats)>) -> (cost: i128)
    requires
        countable(text::views(phases@)),
    ensures
        cost == total_cost(text::views(phases@)),
        -0x8000_0000_0000_0000 * i64::MAX <= cost <= 0x8000_0000_0000_0000 * i64::MAX,
{
    let ghost all = text::views(phases@);
    let mut cost: i128 = 0;
    let mut i: usize = 0;
    while i < phases.len()
        invariant
            i <= phases.len(),
            all == text::views(phases@),
            countable(all),
            cost == total_cost(all.take(i as int)),
        decreases phases.len() - i,
    {
        proof {
            let next = all.take(i as int + 1);
            assert(next.drop_last() =~= all.take(i as int));
            assert(next.last() == all[i as int]);
            countable_take(all, i as int);
            countable_take(all, i as int + 1);
            total_cost_bound(all.take(i as int));
            total_cost_bound(next);
            let price = all[i as int].1.cost_per_shot.0 as int;
            let shots = all[i as int].1.shots_fired;
            assert(-0x8000_0000_0000_0000 * shots <= price * shots <= 0x8000_0000_0000_0000
                * shots) by (nonlinear_arith)
                requires
                    -0x8000_0000_0000_0000 <= price <= 0x8000_0000_0000_0000,
                    shots >= 0,
            ;
        }
        let stats = &phases[i].1;
        cost = cost + stats.cost_per_shot.0 as i128 * stats.shots_fired as i128;
        i += 1;
    }
    proof {
        assert(all.take(all.len() as int) =~= all);
        total_cost_bound(all);
    }
    cost
}

/// Whether a phase is this weapon's at this price, expecting this return.
pub open spec fn is_phase(
    phase: StatsView,
    tool: Seq<char>,
    cost: Ped,
    expected: Option<LoadoutView>,
) -> bool {
    &&& phase.tool_name == tool
    &&& units::near(phase.cost_per_shot.0 as int, cost.0 as int)
    &&& phase.expected_economics == expected
}

/// Where the first phase of this weapon, price and expectation stands; the
/// length when none does.
pub open spec fn phase_at(
    phases: PhasesView,
    tool: Seq<char>,
    cost: Ped,
    expected: Option<LoadoutView>,
) -> int
    decreases phases.len(),
{
    if phases.len() == 0 {
        0
    } else if is_phase(phases[0].1, tool, cost, expected) {
        0
    } else {
        1 + phase_at(phases.skip(1), tool, cost, expected)
    }
}

/// How many phases a weapon has.
pub open spec fn phases_of(phases: PhasesView, tool: Seq<char>) -> nat
    decreases phases.len(),
{
    if phases.len() == 0 {
        0
    } else {
        phases_of(phases.drop_last(), tool) + (if phases.last().1.tool_name == tool {
            1nat
        } else {
            0nat
        })
    }
}

/// The key of a weapon's next phase: its bare name, then `name#2` and so on.
pub open spec fn next_key(phases: PhasesView, tool: Seq<char>) -> Seq<char> {
    let count = phases_of(phases, tool);
    if count == 0 {
        tool
    } else {
        tool + "#"@ + text::decimal_spec(count + 1)
    }
}

/// The phases with one for this weapon, price and expectation among them.
pub open spec fn with_phase(
    phases: PhasesView,
    tool: Seq<char>,
    cost: Ped,
    expected: Option<LoadoutView>,
) -> PhasesView {
    if phase_at(phases, tool, cost, expected) < phases.len() {
        phases
    } else {
        phases.push((next_key(phases, tool), fresh(tool, cost, expected)))
    }
}

/// The first phase found has what was sought.
pub proof fn phase_at_found(
    phases: PhasesView,
    tool: Seq<char>,
    cost: Ped,
    expected: Option<LoadoutView>,
)
    ensures
        ({
            let at = phase_at(phases, tool, cost, expected);
            &&& 0 <= at <= phases.len()
            &&& at < phases.len() ==> is_phase(phases[at].1, tool, cost, expected)
        }),
    decreases phases.len(),
{
    if phases.len() > 0 && !is_phase(phases[0].1, tool, cost, expected) {
        phase_at_found(phases.skip(1), tool, cost, expected);
    }
}

fn find_phase(
    phases: &Vec<(String, ToolStats)>,
    tool: &str,
    cost: Ped,
    expected: &Option<OffensiveLoadoutEvidence>,
) -> (at: usize)
    ensures
        at == phase_at(text::views(phases@), tool@, cost, text::opt_view(*expected)),
        at <= phases.len(),
{
    let ghost all = text::views(phases@);
    let ghost expected_view = text::opt_view(*expected);
    let mut i: usize = 0;
    assert(all.skip(0) =~= all);
    while i < phases.len()
        invariant
            i <= phases.len(),
            all == text::views(phases@),
            expected_view == text::opt_view(*expected),
            phase_at(all, tool@, cost, expected_view) == i + phase_at(
                all.skip(i as int),
                tool@,
                cost,
                expected_view,
            ),
        decreases phases.len() - i,
    {
        assert(all.skip(i as int)[0] == all[i as int]);
        let stats = &phases[i].1;
        assert(all[i as int].1 == stats@);
        if same_text(stats.tool_name.as_str(), tool) && is_near(stats.cost_per_shot.0, cost.0)
            && same_loadout(&stats.expected_economics, expected) {
            return i;
        }
        assert(all.skip(i as int).skip(1) =~= all.skip(i as int + 1));
        i += 1;
    }
    i
}

fn count_phases(phases: &Vec<(String, ToolStats)>, tool: &str) -> (count: usize)
    ensures
        count == phases_of(text::views(phases@), tool@),
        count <= phases.len(),
{
    let ghost all = text::views(phases@);
    let mut count: usize = 0;
    let mut i: usize = 0;
    while i < phases.len()
        invariant
            i <= phases.len(),
            all == text::views(phases@),
            count <= i,
            count == phases_of(all.take(i as int), tool@),
        decreases phases.len() - i,
    {
        proof {
            let next = all.take(i as int + 1);
            assert(next.drop_last() =~= all.take(i as int));
            assert(next.last() == all[i as int]);
            assert(all[i as int].1 == phases@[i as int].1@);
        }
        if same_text(phases[i].1.tool_name.as_str(), tool) {
            count = count + 1;
        }
        i += 1;
    }
    assert(all.take(all.len() as int) =~= all);
    count
}

/// The place of the phase for this weapon at this price: an existing phase
/// within the price tolerance, or a new one keyed `name`, then `name#2`...
pub fn tool_stats_for_phase(
    tool_stats: &mut Vec<(String, ToolStats)>,
    tool_name: &str,
    cost_per_shot: Ped,
    expected_economics: Option<OffensiveLoadoutEvidence>,
) -> (at: usize)
    requires
        old(tool_stats)@.len() < usize::MAX,
    ensures
        ({
            let before = text::views(old(tool_stats)@);
            let expected = text::opt_view(expected_economics);
            &&& at == phase_at(before, tool_name@, cost_per_shot, expected)
            &&& text::views(final(tool_stats)@) == with_phase(
                before,
                tool_name@,
                cost_per_shot,
                expected,
            )
            &&& at < final(tool_stats)@.len()
        }),
{
    let ghost before = text::views(tool_stats@);
    let at: usize = find_phase(tool_stats, tool_name, cost_per_shot, &expected_economics);
    if at < tool_stats.len() {
        return at;
    }
    let count: usize = count_phases(tool_stats, tool_name);
    let key: String = if count == 0 {
        tool_name.to_owned()
    } else {
        let mut key = cat(tool_name, "#");
        key.append(decimal(count + 1).as_str());
        key
    };
    assert(key@ == next_key(before, tool_name@));
    let ghost expected = text::opt_view(expected_economics);
    tool_stats.push((key, ToolStats::new(tool_name, cost_per_shot, expected_economics)));
    assert(text::views(tool_stats@) =~= with_phase(before, tool_name@, cost_per_shot, expected));
    at
}

/// Count one shot into a phase.
pub fn count_shot(stats: &mut ToolStats, amount: i64, critical: bool)
    requires
        old(stats)@.has_room(1),
    ensures
        final(stats)@ == old(stats)@.plus_shot(amount as int, critical),
{
    stats.shots_fired = stats.shots_fired + 1;
    if amount > 0 {
        stats.damage_dealt = stats.damage_dealt + amount as i128;
    }
    if critical {
        stats.critical_hits = stats.critical_hits + 1;
    }
}

/// Whether a phase holds a shot booked under this weapon at this price.
pub open spec fn holds_shot(phase: StatsView, tool: Seq<char>, cost: Ped) -> bool {
    &&& phase.tool_name == tool
    &&& units::near(phase.cost_per_shot.0 as int, cost.0 as int)
    &&& phase.shots_fired > 0
}

/// Where the first phase holding such a shot stands; the length when none
/// does.
pub open spec fn shot_at(phases: PhasesView, tool: Seq<char>, cost: Ped) -> int
    decreases phases.len(),
{
    if phases.len() == 0 {
        0
    } else if holds_shot(phases[0].1, tool, cost) {
        0
    } else {
        1 + shot_at(phases.skip(1), tool, cost)
    }
}

/// The first phase found holds the shot.
pub proof fn shot_at_found(phases: PhasesView, tool: Seq<char>, cost: Ped)
    ensures
        ({
            let at = shot_at(phases, tool, cost);
            &&& 0 <= at <= phases.len()
            &&& at < phases.len() ==> holds_shot(phases[at].1, tool, cost)
        }),
    decreases phases.len(),
{
    if phases.len() > 0 && !holds_shot(phases[0].1, tool, cost) {
        shot_at_found(phases.skip(1), tool, cost);
    }
}

/// The weapon a shot is counted under: its own, or the unpriced one.
pub open spec fn booked_tool(booked: Option<Seq<char>>) -> Seq<char> {
    match booked {
        Some(tool) => tool,
        None => UNPRICED_TOOL@,
    }
}

/// The phases with one shot taken out of the phase at a place; a phase left
/// with nothing in it disappears.
pub open spec fn without_shot(
    phases: PhasesView,
    at: int,
    amount: int,
    critical: bool,
) -> PhasesView {
    let left = phases[at].1.less_shot(amount, critical);
    if left.is_spent() {
        phases.remove(at)
    } else {
        phases.update(at, (phases[at].0, left))
    }
}

fn find_shot(phases: &Vec<(String, ToolStats)>, tool: &str, cost: Ped) -> (at: usize)
    ensures
        at == shot_at(text::views(phases@), tool@, cost),
        at <= phases.len(),
{
    let ghost all = text::views(phases@);
    let mut i: usize = 0;
    assert(all.skip(0) =~= all);
    while i < phases.len()
        invariant
            i <= phases.len(),
            all == text::views(phases@),
            shot_at(all, tool@, cost) == i + shot_at(all.skip(i as int), tool@, cost),
        decreases phases.len() - i,
    {
        assert(all.skip(i as int)[0] == all[i as int]);
        let stats = &phases[i].1;
        assert(all[i as int].1 == stats@);
        if same_text(stats.tool_name.as_str(), tool) && is_near(stats.cost_per_shot.0, cost.0)
            && stats.shots_fired > 0 {
            return i;
        }
        assert(all.skip(i as int).skip(1) =~= all.skip(i as int + 1));
        i += 1;
    }
    i
}

/// Take one shot out of the phase it was booked under. A phase left with
/// nothing in it disappears. False when no phase holds the shot: nothing then
/// changes.
pub fn unbook(
    tool_stats: &mut Vec<(String, ToolStats)>,
    booked: Option<&str>,
    cost: Ped,
    amount: i64,
    critical: bool,
) -> (found: bool)
    requires
        phases_have_room(text::views(old(tool_stats)@), 1),
    ensures
        ({
            let before = text::views(old(tool_stats)@);
            let at = shot_at(before, booked_tool(text::opt_view(booked)), cost);
            &&& found == (at < before.len())
            &&& text::views(final(tool_stats)@) == (if found {
                without_shot(before, at, amount as int, critical)
            } else {
                before
            })
        }),
{
    let ghost before = text::views(tool_stats@);
    let tool: &str = match booked {
        Some(tool) => tool,
        None => UNPRICED_TOOL,
    };
    let at: usize = find_shot(tool_stats, tool, cost);
    if at == tool_stats.len() {
        return false;
    }
    proof {
        shot_at_found(before, tool@, cost);
        assert(before[at as int].1.has_room(1));
        assert(before[at as int] == (tool_stats@[at as int].0@, tool_stats@[at as int].1@));
    }
    let mut stats = tool_stats[at].1.clone();
    stats.shots_fired = stats.shots_fired - 1;
    if amount > 0 {
        stats.damage_dealt = stats.damage_dealt - amount as i128;
    }
    if critical {
        stats.critical_hits = stats.critical_hits - 1;
    }
    let ghost left = stats@;
    assert(left == before[at as int].1.less_shot(amount as int, critical));
    if stats.shots_fired == 0 && -(SAME_WITHIN as i128) < stats.damage_dealt && stats.damage_dealt
        < SAME_WITHIN as i128 {
        tool_stats.remove(at);
        assert(text::views(tool_stats@) =~= before.remove(at as int));
    } else {
        let key = tool_stats[at].0.clone();
        tool_stats[at] = (key, stats);
        assert(text::views(tool_stats@) =~= before.update(
            at as int,
            (before[at as int].0, left),
        ));
    }
    true
}

/// Where the first phase of this key stands; the length when none does.
pub open spec fn key_at(phases: PhasesView, key: Seq<char>) -> int
    decreases phases.len(),
{
    if phases.len() == 0 {
        0
    } else if phases[0].0 == key {
        0
    } else {
        1 + key_at(phases.skip(1), key)
    }
}

/// The key a shot without a price is counted under: its weapon's name, or the
/// unpriced one.
pub open spec fn costless_key(tool: Option<Seq<char>>) -> Seq<char> {
    match tool {
        Some(name) => if name.len() > 0 {
            name
        } else {
            UNPRICED_TOOL@
        },
        None => UNPRICED_TOOL@,
    }
}

/// The key a shot without a price is counted under.
pub fn costless_phase_key<'a>(tool: Option<&'a str>) -> (key: &'a str)
    ensures
        key@ == costless_key(text::opt_view(tool)),
{
    match tool {
        Some(name) => if name.is_empty() {
            UNPRICED_TOOL
        } else {
            name
        },
        None => UNPRICED_TOOL,
    }
}

/// The phases, and the place among them, a shot is counted into: its weapon's
/// phase at its price, or, without a price, the phase of its key, which takes
/// the library's price once when it has a weapon and no price of its own.
pub open spec fn booking_phase(
    phases: PhasesView,
    tool: Option<Seq<char>>,
    price: Ped,
    expected: Option<LoadoutView>,
    library: Ped,
) -> (PhasesView, int) {
    if tool is Some && price.0 > 0 {
        (
            with_phase(phases, tool->0, price, expected),
            phase_at(phases, tool->0, price, expected),
        )
    } else {
        let key = costless_key(tool);
        let at = key_at(phases, key);
        let base = if at < phases.len() {
            phases
        } else {
            phases.push((key, fresh(key, Ped(0), None)))
        };
        if tool is Some && base[at].1.cost_per_shot.0 <= 0 && library.0 > 0 {
            (base.update(at, (base[at].0, StatsView { cost_per_shot: library, ..base[at].1 })), at)
        } else {
            (base, at)
        }
    }
}

/// The phases after a shot is counted into one of them.
pub open spec fn booked_shot(
    base: PhasesView,
    at: int,
    amount: int,
    critical: bool,
) -> PhasesView {
    base.update(at, (base[at].0, base[at].1.plus_shot(amount, critical)))
}

/// The phase of a key, when there is one, has it.
pub proof fn key_at_found(phases: PhasesView, key: Seq<char>)
    ensures
        0 <= key_at(phases, key) <= phases.len(),
        key_at(phases, key) < phases.len() ==> phases[key_at(phases, key)].0 == key,
    decreases phases.len(),
{
    if phases.len() > 0 && phases[0].0 != key {
        key_at_found(phases.skip(1), key);
    }
}

/// A shot is counted into one phase, whose price is what it is booked at: all
/// shots grow by one, all damage by what it dealt, the cost by that price
/// when the phase kept its own.
pub proof fn booking_adds_one_shot(
    phases: PhasesView,
    tool: Option<Seq<char>>,
    price: Ped,
    expected: Option<LoadoutView>,
    library: Ped,
    amount: int,
    critical: bool,
)
    ensures
        ({
            let (base, at) = booking_phase(phases, tool, price, expected, library);
            let after = booked_shot(base, at, amount, critical);
            &&& 0 <= at < base.len()
            &&& total_shots(after) == total_shots(phases) + 1
            &&& total_damage(after) == total_damage(phases) + dealt(amount)
            &&& total_cost(after) == total_cost(base) + base[at].1.cost_per_shot.0
            &&& tool is Some && price.0 > 0 ==> total_cost(base) == total_cost(phases)
                && units::near(base[at].1.cost_per_shot.0 as int, price.0 as int)
        }),
{
    let (base, at) = booking_phase(phases, tool, price, expected, library);
    if tool is Some && price.0 > 0 {
        phase_at_found(phases, tool->0, price, expected);
        if at == phases.len() {
            let phase = (next_key(phases, tool->0), fresh(tool->0, price, expected));
            totals_push(phases, phase);
            no_shots_cost_nothing(phase.1);
        }
    } else {
        let key = costless_key(tool);
        key_at_found(phases, key);
        let first = if at < phases.len() {
            phases
        } else {
            phases.push((key, fresh(key, Ped(0), None)))
        };
        if at == phases.len() {
            totals_push(phases, (key, fresh(key, Ped(0), None)));
        }
        totals_update(
            first,
            at,
            (first[at].0, StatsView { cost_per_shot: library, ..first[at].1 }),
        );
    }
    totals_update(base, at, (base[at].0, base[at].1.plus_shot(amount, critical)));
    let cost = base[at].1.cost_per_shot.0 as int;
    let shots = base[at].1.shots_fired;
    assert(cost * (shots + 1) == cost * shots + cost) by (nonlinear_arith);
}

/// Counting a shot leaves no phase with a negative number of shots.
pub proof fn booking_keeps_shots_positive(
    phases: PhasesView,
    tool: Option<Seq<char>>,
    price: Ped,
    expected: Option<LoadoutView>,
    library: Ped,
    amount: int,
    critical: bool,
)
    requires
        forall|i: int| 0 <= i < phases.len() ==> (#[trigger] phases[i]).1.shots_fired >= 0,
    ensures
        ({
            let (base, at) = booking_phase(phases, tool, price, expected, library);
            let after = booked_shot(base, at, amount, critical);
            forall|i: int| 0 <= i < after.len() ==> (#[trigger] after[i]).1.shots_fired >= 0
        }),
{
    let (base, at) = booking_phase(phases, tool, price, expected, library);
    let after = booked_shot(base, at, amount, critical);
    if tool is Some && price.0 > 0 {
        phase_at_found(phases, tool->0, price, expected);
    } else {
        key_at_found(phases, costless_key(tool));
    }
    assert forall|i: int| 0 <= i < after.len() implies (#[trigger] after[i]).1.shots_fired >= 0 by {
        if i < phases.len() {
            assert(phases[i].1.shots_fired >= 0);
        }
    }
}

proof fn no_shots_cost_nothing(stats: StatsView)
    requires
        stats.shots_fired == 0,
    ensures
        stats.cost() == 0,
{
    let cost = stats.cost_per_shot.0 as int;
    assert(cost * 0 == 0) by (nonlinear_arith);
}

fn find_key(phases: &Vec<(String, ToolStats)>, key: &str) -> (at: usize)
    ensures
        at == key_at(text::views(phases@), key@),
        at <= phases.len(),
{
    let ghost all = text::views(phases@);
    let mut i: usize = 0;
    assert(all.skip(0) =~= all);
    while i < phases.len()
        invariant
            i <= phases.len(),
            all == text::views(phases@),
            key_at(all, key@) == i + key_at(all.skip(i as int), key@),
        decreases phases.len() - i,
    {
        assert(all.skip(i as int)[0] == all[i as int]);
        assert(all[i as int].0 == phases@[i as int].0@);
        if same_text(phases[i].0.as_str(), key) {
            return i;
        }
        assert(all.skip(i as int).skip(1) =~= all.skip(i as int + 1));
        i += 1;
    }
    i
}

/// Count one shot into the phase for its weapon, and return the per-shot cost
/// it was booked at. `price` is the weapon's current cost and `library` what
/// the equipment library asks for the costless key; a shot with no weapon is
/// counted under the unpriced phase at no cost: a price is never guessed.
pub fn book_shot(
    tool_stats: &mut Vec<(String, ToolStats)>,
    tool: Option<&str>,
    price: Ped,
    expected_economics: Option<OffensiveLoadoutEvidence>,
    library: Ped,
    amount: i64,
    critical: bool,
) -> (cost: Ped)
    requires
        old(tool_stats)@.len() < usize::MAX,
        phases_have_room(text::views(old(tool_stats)@), 1),
    ensures
        ({
            let (base, at) = booking_phase(
                text::views(old(tool_stats)@),
                text::opt_view(tool),
                price,
                text::opt_view(expected_economics),
                library,
            );
            &&& text::views(final(tool_stats)@) == booked_shot(base, at, amount as int, critical)
            &&& cost == base[at].1.cost_per_shot
        }),
{
    let ghost before = text::views(tool_stats@);
    let ghost tool_view = text::opt_view(tool);
    let ghost expected = text::opt_view(expected_economics);
    let ghost (base, place) = booking_phase(before, tool_view, price, expected, library);
    let priced: Option<&str> = match tool {
        Some(name) => if price.is_positive() {
            Some(name)
        } else {
            None
        },
        None => None,
    };
    let at: usize = match priced {
        Some(name) => tool_stats_for_phase(tool_stats, name, price, expected_economics),
        None => {
            let key: &str = costless_phase_key(tool);
            let at: usize = find_key(tool_stats, key);
            if at == tool_stats.len() {
                tool_stats.push((key.to_owned(), ToolStats::new(key, Ped(0), None)));
                assert(text::views(tool_stats@) =~= before.push(
                    (key@, fresh(key@, Ped(0), None)),
                ));
            }
            let ghost first = text::views(tool_stats@);
            assert(first[at as int] == (tool_stats@[at as int].0@, tool_stats@[at as int].1@));
            // A named weapon the profile lookup could not price may still
            // have a library cost; it resolves once, for a still-costless
            // phase. The unpriced phase never looks one up.
            if tool.is_some() && !tool_stats[at].1.cost_per_shot.is_positive()
                && library.is_positive() {
                let key = tool_stats[at].0.clone();
                let mut stats = tool_stats[at].1.clone();
                stats.cost_per_shot = library;
                let ghost changed = stats@;
                tool_stats[at] = (key, stats);
                assert(text::views(tool_stats@) =~= first.update(
                    at as int,
                    (first[at as int].0, changed),
                ));
            }
            at
        },
    };
    assert(text::views(tool_stats@) == base);
    assert(at == place);
    proof {
        if priced is Some {
            phase_at_found(before, tool_view->0, price, expected);
        } else {
            key_at_found(before, costless_key(tool_view));
        }
        assert(base[at as int] == (tool_stats@[at as int].0@, tool_stats@[at as int].1@));
        assert(base[at as int].1.has_room(1)) by {
            if at < before.len() {
                assert(before[at as int].1.has_room(1));
            }
        }
    }
    let key = tool_stats[at].0.clone();
    let mut stats = tool_stats[at].1.clone();
    count_shot(&mut stats, amount, critical);
    let cost: Ped = stats.cost_per_shot;
    let ghost counted = stats@;
    tool_stats[at] = (key, stats);
    assert(text::views(tool_stats@) =~= base.update(at as int, (base[at as int].0, counted)));
    cost
}

/// Room for more shots is room for fewer.
pub proof fn room_shrinks(phases: PhasesView, more: nat, fewer: nat)
    requires
        phases_have_room(phases, more),
        fewer <= more,
    ensures
        phases_have_room(phases, fewer),
{
    assert forall|i: int| 0 <= i < phases.len() implies (#[trigger] phases[i]).1.has_room(
        fewer,
    ) by {
        assert(phases[i].1.has_room(more));
    }
}

/// The phases after one shot moves from the phase holding it to a weapon's
/// phase at a price; None when no phase holds it.
pub open spec fn shot_moved(
    phases: PhasesView,
    booked: Option<Seq<char>>,
    cost: Ped,
    amount: int,
    critical: bool,
    to_tool: Seq<char>,
    price: Ped,
    expected: Option<LoadoutView>,
) -> Option<PhasesView> {
    let from = shot_at(phases, booked_tool(booked), cost);
    if from < phases.len() {
        let left = without_shot(phases, from, amount, critical);
        let to = phase_at(left, to_tool, price, expected);
        Some(booked_shot(with_phase(left, to_tool, price, expected), to, amount, critical))
    } else {
        None
    }
}

/// The phase that disappears when a shot is taken out of it, as the shot
/// leaves it: with no shot, and whatever else was still counted in it.
pub open spec fn emptied(
    phases: PhasesView,
    booked: Option<Seq<char>>,
    cost: Ped,
    amount: int,
    critical: bool,
) -> Option<StatsView> {
    let at = shot_at(phases, booked_tool(booked), cost);
    let left = phases[at].1.less_shot(amount, critical);
    if at < phases.len() && left.is_spent() {
        Some(left)
    } else {
        None
    }
}

/// Moving a shot keeps every shot counted exactly once, no phase negative,
/// and the damage to the tolerance within which an emptied phase is dropped;
/// the phases' cost moves from the price the shot was booked at to the one it
/// moved to, each to the tolerance prices are compared with.
pub proof fn moving_conserves_the_shots(
    phases: PhasesView,
    booked: Option<Seq<char>>,
    cost: Ped,
    amount: int,
    critical: bool,
    to_tool: Seq<char>,
    price: Ped,
    expected: Option<LoadoutView>,
)
    requires
        forall|i: int| 0 <= i < phases.len() ==> (#[trigger] phases[i]).1.shots_fired >= 0,
    ensures
        match shot_moved(phases, booked, cost, amount, critical, to_tool, price, expected) {
            Some(after) => {
                &&& total_shots(after) == total_shots(phases)
                &&& units::near(total_damage(after), total_damage(phases))
                &&& total_damage(after) == total_damage(phases) - (match emptied(
                    phases,
                    booked,
                    cost,
                    amount,
                    critical,
                ) {
                    Some(left) => left.damage_dealt,
                    None => 0,
                })
                &&& total_criticals(after) == total_criticals(phases) - (match emptied(
                    phases,
                    booked,
                    cost,
                    amount,
                    critical,
                ) {
                    Some(left) => left.critical_hits,
                    None => 0,
                })
                &&& forall|i: int| 0 <= i < after.len() ==> (#[trigger] after[i]).1.shots_fired >= 0
                &&& -2 * units::SAME_WITHIN < total_cost(after) - total_cost(phases) - (price.0
                    - cost.0) < 2 * units::SAME_WITHIN
                &&& after.len() <= phases.len() + 1
            },
            None => true,
        },
{
    let from = shot_at(phases, booked_tool(booked), cost);
    shot_at_found(phases, booked_tool(booked), cost);
    if from < phases.len() {
        let left = without_shot(phases, from, amount, critical);
        let phase = phases[from].1.less_shot(amount, critical);
        totals_update(phases, from, (phases[from].0, phase));
        totals_remove(phases, from);
        let paid = phases[from].1.cost_per_shot.0 as int;
        let shots = phases[from].1.shots_fired;
        assert(paid * (shots - 1) == paid * shots - paid) by (nonlinear_arith);
        if phase.is_spent() {
            no_shots_cost_nothing(phase);
            assert(shots == 1);
            assert(paid * shots == paid) by (nonlinear_arith)
                requires
                    shots == 1,
            ;
        }
        assert forall|i: int| 0 <= i < left.len() implies (#[trigger] left[i]).1.shots_fired
            >= 0 by {
            if phase.is_spent() {
                if i < from {
                    assert(left[i] == phases[i]);
                } else {
                    assert(left[i] == phases[i + 1]);
                }
            } else if i != from {
                assert(left[i] == phases[i]);
            }
        }
        let to = phase_at(left, to_tool, price, expected);
        phase_at_found(left, to_tool, price, expected);
        let base = with_phase(left, to_tool, price, expected);
        if to == left.len() {
            let opened = (next_key(left, to_tool), fresh(to_tool, price, expected));
            totals_push(left, opened);
            no_shots_cost_nothing(opened.1);
        }
        let grown = base[to].1.plus_shot(amount, critical);
        totals_update(base, to, (base[to].0, grown));
        let asked = base[to].1.cost_per_shot.0 as int;
        let count = base[to].1.shots_fired;
        assert(asked * (count + 1) == asked * count + asked) by (nonlinear_arith);
        let after = booked_shot(base, to, amount, critical);
        assert forall|i: int| 0 <= i < after.len() implies (#[trigger] after[i]).1.shots_fired
            >= 0 by {
            if i < left.len() {
                assert(left[i].1.shots_fired >= 0);
            }
        }
    }
}

/// Moving a shot takes the room of two.
pub proof fn moving_takes_room(
    phases: PhasesView,
    booked: Option<Seq<char>>,
    cost: Ped,
    amount: i64,
    critical: bool,
    to_tool: Seq<char>,
    price: Ped,
    expected: Option<LoadoutView>,
    room: nat,
)
    requires
        phases_have_room(phases, room + 2),
    ensures
        match shot_moved(
            phases,
            booked,
            cost,
            amount as int,
            critical,
            to_tool,
            price,
            expected,
        ) {
            Some(after) => phases_have_room(after, room),
            None => true,
        },
{
    let amount = amount as int;
    let from = shot_at(phases, booked_tool(booked), cost);
    shot_at_found(phases, booked_tool(booked), cost);
    if from < phases.len() {
        let left = without_shot(phases, from, amount, critical);
        let phase = phases[from].1.less_shot(amount, critical);
        assert(phases[from].1.has_room(room + 2));
        assert forall|i: int| 0 <= i < left.len() implies (#[trigger] left[i]).1.has_room(
            room + 1,
        ) by {
            if phase.is_spent() {
                if i < from {
                    assert(left[i] == phases[i]);
                    assert(phases[i].1.has_room(room + 2));
                } else {
                    assert(left[i] == phases[i + 1]);
                    assert(phases[i + 1].1.has_room(room + 2));
                }
            } else if i != from {
                assert(left[i] == phases[i]);
                assert(phases[i].1.has_room(room + 2));
            }
        }
        let to = phase_at(left, to_tool, price, expected);
        phase_at_found(left, to_tool, price, expected);
        let base = with_phase(left, to_tool, price, expected);
        let after = booked_shot(base, to, amount, critical);
        assert forall|i: int| 0 <= i < after.len() implies (#[trigger] after[i]).1.has_room(
            room,
        ) by {
            if i < left.len() {
                assert(left[i].1.has_room(room + 1));
            }
        }
    }
}

/// Move one shot from the phase holding it to a weapon's phase at a price.
/// False when no phase holds it: nothing then changes.
pub fn move_shot(
    tool_stats: &mut Vec<(String, ToolStats)>,
    booked: Option<&str>,
    cost: Ped,
    amount: i64,
    critical: bool,
    to_tool: &str,
    price: Ped,
    expected: Option<OffensiveLoadoutEvidence>,
) -> (found: bool)
    requires
        phases_have_room(text::views(old(tool_stats)@), 2),
        old(tool_stats)@.len() < usize::MAX,
    ensures
        match shot_moved(
            text::views(old(tool_stats)@),
            text::opt_view(booked),
            cost,
            amount as int,
            critical,
            to_tool@,
            price,
            text::opt_view(expected),
        ) {
            Some(after) => found && text::views(final(tool_stats)@) == after,
            None => !found && *final(tool_stats) == *old(tool_stats),
        },
{
    let ghost before = text::views(tool_stats@);
    proof {
        room_shrinks(before, 2, 1);
        shot_at_found(before, booked_tool(text::opt_view(booked)), cost);
    }
    let count: usize = tool_stats.len();
    let tool: &str = match booked {
        Some(tool) => tool,
        None => UNPRICED_TOOL,
    };
    if find_shot(tool_stats, tool, cost) == count {
        return false;
    }
    let _ = unbook(tool_stats, booked, cost, amount, critical);
    let ghost left = text::views(tool_stats@);
    proof {
        let from = shot_at(before, booked_tool(text::opt_view(booked)), cost);
        assert(before[from].1.has_room(2));
        assert forall|i: int| 0 <= i < left.len() implies (#[trigger] left[i]).1.has_room(1) by {
            let phase = before[from].1.less_shot(amount as int, critical);
            if phase.is_spent() {
                if i < from {
                    assert(left[i] == before[i]);
                    assert(before[i].1.has_room(2));
                } else {
                    assert(left[i] == before[i + 1]);
                    assert(before[i + 1].1.has_room(2));
                }
            } else if i != from {
                assert(left[i] == before[i]);
                assert(before[i].1.has_room(2));
            }
        }
    }
    let ghost expected_view = text::opt_view(expected);
    let at: usize = tool_stats_for_phase(tool_stats, to_tool, price, expected);
    let ghost base = text::views(tool_stats@);
    proof {
        assert(base[at as int] == (tool_stats@[at as int].0@, tool_stats@[at as int].1@));
        phase_at_found(left, to_tool@, price, expected_view);
        if at < left.len() {
            assert(base == left);
            assert(left[at as int].1.has_room(1));
        } else {
            assert(base[at as int].1 == fresh(to_tool@, price, expected_view));
        }
        assert(base[at as int].1.has_room(1));
    }
    let key = tool_stats[at].0.clone();
    let mut stats = tool_stats[at].1.clone();
    count_shot(&mut stats, amount, critical);
    let ghost counted = stats@;
    tool_stats[at] = (key, stats);
    assert(text::views(tool_stats@) =~= base.update(at as int, (base[at as int].0, counted)));
    true
}

/// Whether `shots` more shots can be counted into or out of every phase.
pub fn have_room(phases: &Vec<(String, ToolStats)>, shots: u64) -> (yes: bool)
    ensures
        yes == phases_have_room(text::views(phases@), shots as nat),
{
    if shots > i64::MAX as u64 {
        return false;
    }
    let ghost all = text::views(phases@);
    let margin: i64 = shots as i64;
    let weight: i128 = margin as i128 * 0x8000_0000_0000_0000;
    let mut i: usize = 0;
    while i < phases.len()
        invariant
            i <= phases.len(),
            all == text::views(phases@),
            margin == shots,
            shots <= i64::MAX,
            weight == shots * 0x8000_0000_0000_0000,
            forall|j: int| 0 <= j < i ==> (#[trigger] all[j]).1.has_room(shots as nat),
        decreases phases.len() - i,
    {
        let stats = &phases[i].1;
        assert(all[i as int].1 == stats@);
        let fits: bool = 0 <= stats.shots_fired && stats.shots_fired <= i64::MAX - margin
            && -i64::MAX + margin <= stats.critical_hits && stats.critical_hits <= i64::MAX
            - margin && -i128::MAX + weight <= stats.damage_dealt && stats.damage_dealt
            <= i128::MAX - weight;
        assert(fits == all[i as int].1.has_room(shots as nat));
        if !fits {
            return false;
        }
        i += 1;
    }
    true
}

} // verus!
