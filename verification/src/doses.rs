//! The consumable dose lifecycle: booking, re-dosing, expiry, removal and
//! exact restore.
//!
//! A dose is stored as it starts, with an absolute expiry, so the lifecycle
//! survives any restart. A change is first planned, without moving anything;
//! the caller stores the plan and then has the runtime adopt it, so a failed
//! write leaves everything as it was.

use crate::healing::{HealingIntent, HealingRuntime};
use crate::ids;
use crate::ids::fresh_id;
use crate::intervals;
use crate::intervals::{CloseScope, IntervalKind, IntervalSpec, IntervalState};
use crate::lists;
use crate::session::ActiveSession;
use crate::text;
use crate::text::{copy_optional, holds_text, is_text, same_text};
use crate::units;
use crate::units::{is_near, round_quotient};
use vstd::prelude::*;

verus! {

/// How long after a dose's expiry the wake-up fires, so the clock reads past
/// the expiry when it does.
pub const WAKE_GRACE: i64 = 50_000_000;

/// The longest a single wake-up sleeps; a longer wait re-arms on waking.
pub const WAKE_MAX: i64 = 3_600_000_000_000;

/// One effect of a dose.
#[derive(Debug, PartialEq, Eq)]
pub struct DoseEffect {
    pub name: String,
    pub magnitude: Option<i64>,
    pub unit: Option<String>,
}

/// An effect as contracts read it.
pub struct EffectView {
    pub name: Seq<char>,
    pub magnitude: Option<i64>,
    pub unit: Option<Seq<char>>,
}

impl View for DoseEffect {
    type V = EffectView;

    open spec fn view(&self) -> EffectView {
        EffectView {
            name: self.name@,
            magnitude: self.magnitude,
            unit: text::opt_view(self.unit),
        }
    }
}

impl Clone for DoseEffect {
    fn clone(&self) -> (copy: Self)
        ensures
            copy@ == self@,
    {
        DoseEffect {
            name: self.name.clone(),
            magnitude: self.magnitude,
            unit: copy_optional(&self.unit),
        }
    }
}

/// A copy of a list of effects.
fn copy_effects(effects: &Vec<DoseEffect>) -> (copy: Vec<DoseEffect>)
    ensures
        text::views(copy@) == text::views(effects@),
{
    let mut copy: Vec<DoseEffect> = Vec::new();
    let mut i: usize = 0;
    while i < effects.len()
        invariant
            i <= effects.len(),
            copy.len() == i,
            forall|j: int| 0 <= j < i ==> (#[trigger] copy@[j])@ == effects@[j]@,
        decreases effects.len() - i,
    {
        copy.push(effects[i].clone());
        i += 1;
    }
    assert(text::views(copy@) =~= text::views(effects@));
    copy
}

/// One dose of a consumable as it stands in the library.
#[derive(Debug, PartialEq, Eq)]
pub struct ConsumableProfile {
    pub duration: i64,
    pub effects: Vec<DoseEffect>,
    /// What the effects add to the reload speed.
    pub reload_speed_percent: i64,
    pub tt_value_ped: i64,
    pub markup_percent: i64,
    pub track_cost: bool,
}

/// A hundred percent.
pub const HUNDRED_PERCENT: i128 = 100_000_000_000_000;

impl ConsumableProfile {
    /// What a dose books: its value at its markup, for an item whose cost is
    /// followed.
    pub open spec fn booked(&self) -> int {
        if self.track_cost {
            units::half_even(self.tt_value_ped * self.markup_percent, HUNDRED_PERCENT as int)
        } else {
            0
        }
    }

    /// What a dose books.
    pub fn booked_cost_ped(&self) -> (cost: i128)
        ensures
            cost == self.booked(),
            self.tt_value_ped >= 0 && self.markup_percent >= 0 ==> cost >= 0,
            -0x4000_0000_0000_0000_0000_0000_0000_0000 <= cost
                <= 0x4000_0000_0000_0000_0000_0000_0000_0000,
    {
        if self.track_cost {
            proof {
                let a = self.tt_value_ped as int;
                let b = self.markup_percent as int;
                assert(-0x4000_0000_0000_0000_0000_0000_0000_0000 <= a * b
                    <= 0x4000_0000_0000_0000_0000_0000_0000_0000) by (nonlinear_arith)
                    requires
                        -0x8000_0000_0000_0000 <= a <= 0x8000_0000_0000_0000,
                        -0x8000_0000_0000_0000 <= b <= 0x8000_0000_0000_0000,
                ;
                assert(a >= 0 && b >= 0 ==> a * b >= 0) by (nonlinear_arith);
            }
            round_quotient(
                self.tt_value_ped as i128 * self.markup_percent as i128,
                HUNDRED_PERCENT,
            )
        } else {
            0
        }
    }
}

/// A dose to start: the item and one dose of it as it stands now.
#[derive(Debug, PartialEq, Eq)]
pub struct DoseStart {
    pub equipment_id: i64,
    pub item_name: String,
    pub profile: ConsumableProfile,
}

/// What started a dose.
#[derive(Clone, Copy, Debug, PartialEq, Eq, Structural)]
pub enum DoseSource {
    /// The consumable's hotbar key.
    Hotbar,
    /// The player, by hand.
    Manual,
    /// A paid heal of a tool with an on-use buff.
    OnUse,
}

/// What removed a dose.
#[derive(Clone, Copy, Debug, PartialEq, Eq, Structural)]
pub enum DoseRemoval {
    /// The player.
    Player,
    /// A correction of the heal it came with.
    Correction,
}

/// A heal's buff is not the player's to remove.
pub const BUFF_GOES_WITH_HEAL: &'static str =
    "A heal's buff goes with the heal; correct the heal instead";

/// A buff removed with its heal is not the player's to restore.
pub const BUFF_REMOVED_WITH_HEAL: &'static str =
    "This buff was removed with its heal; undo the heal's correction to restore it";

/// A restored dose would stack.
pub const LATER_DOSE_RUNS: &'static str = "A later dose of this item is running; remove it first";

/// Why a dose command changed nothing.
#[derive(Debug, PartialEq, Eq)]
pub enum DoseError {
    NotFound,
    Refused(&'static str),
    Db(String),
}

/// Why a dose command is turned down.
pub enum Refusal {
    /// No stored dose has the id.
    NotFound,
    /// A heal's buff is not the player's to remove.
    GoesWithHeal,
    /// A buff removed with its heal comes back only with it.
    RemovedWithHeal,
    /// Another dose of the item runs.
    LaterRuns,
}

impl DoseError {
    /// Whether the error says why.
    pub open spec fn says(self, refusal: Refusal) -> bool {
        match (self, refusal) {
            (DoseError::NotFound, Refusal::NotFound) => true,
            (DoseError::Refused(why), Refusal::GoesWithHeal) => why@ == BUFF_GOES_WITH_HEAL@,
            (DoseError::Refused(why), Refusal::RemovedWithHeal) => why@
                == BUFF_REMOVED_WITH_HEAL@,
            (DoseError::Refused(why), Refusal::LaterRuns) => why@ == LATER_DOSE_RUNS@,
            _ => false,
        }
    }

    /// What the player reads.
    pub fn message(&self) -> (text: String)
        ensures
            text@ == (match *self {
                DoseError::NotFound => "No such dose"@,
                DoseError::Refused(why) => why@,
                DoseError::Db(error) => error@,
            }),
    {
        match self {
            DoseError::NotFound => "No such dose".to_owned(),
            DoseError::Refused(why) => (*why).to_owned(),
            DoseError::Db(error) => error.clone(),
        }
    }
}

/// One dose.
#[derive(Debug, PartialEq, Eq)]
pub struct DoseRecord {
    pub id: String,
    pub equipment_id: Option<i64>,
    pub item_name: String,
    pub source: DoseSource,
    /// The session running when it was taken.
    pub session_id: Option<String>,
    /// The context it was taken in.
    pub context_id: Option<i64>,
    /// The context interval it stands as.
    pub interval_id: Option<i64>,
    pub started_at: i64,
    pub expires_at: i64,
    pub cost_ped: i128,
    pub cost_tracked: bool,
    pub effects: Vec<DoseEffect>,
    pub reload_speed_percent: i64,
    /// The paid heal that opened it, for an on-use buff.
    pub healing_activation_id: Option<String>,
    /// The dose of the item it replaced.
    pub supersedes_dose_id: Option<String>,
    /// When a later dose of the item ended it.
    pub superseded_at: Option<i64>,
    pub removed_at: Option<i64>,
    pub removed_by: Option<DoseRemoval>,
}

/// A dose as contracts read it.
#[verifier::ext_equal]
pub struct DoseView {
    pub id: Seq<char>,
    pub equipment_id: Option<i64>,
    pub item_name: Seq<char>,
    pub source: DoseSource,
    pub session_id: Option<Seq<char>>,
    pub context_id: Option<i64>,
    pub interval_id: Option<i64>,
    pub started_at: i64,
    pub expires_at: i64,
    pub cost_ped: int,
    pub cost_tracked: bool,
    pub effects: Seq<EffectView>,
    pub reload_speed_percent: i64,
    pub healing_activation_id: Option<Seq<char>>,
    pub supersedes_dose_id: Option<Seq<char>>,
    pub superseded_at: Option<i64>,
    pub removed_at: Option<i64>,
    pub removed_by: Option<DoseRemoval>,
}

impl View for DoseRecord {
    type V = DoseView;

    open spec fn view(&self) -> DoseView {
        DoseView {
            id: self.id@,
            equipment_id: self.equipment_id,
            item_name: self.item_name@,
            source: self.source,
            session_id: text::opt_view(self.session_id),
            context_id: self.context_id,
            interval_id: self.interval_id,
            started_at: self.started_at,
            expires_at: self.expires_at,
            cost_ped: self.cost_ped as int,
            cost_tracked: self.cost_tracked,
            effects: text::views(self.effects@),
            reload_speed_percent: self.reload_speed_percent,
            healing_activation_id: text::opt_view(self.healing_activation_id),
            supersedes_dose_id: text::opt_view(self.supersedes_dose_id),
            superseded_at: self.superseded_at,
            removed_at: self.removed_at,
            removed_by: self.removed_by,
        }
    }
}

impl Clone for DoseRecord {
    fn clone(&self) -> (copy: Self)
        ensures
            copy@ == self@,
            copy.item_name == self.item_name,
    {
        DoseRecord {
            id: self.id.clone(),
            equipment_id: self.equipment_id,
            item_name: self.item_name.clone(),
            source: self.source,
            session_id: copy_optional(&self.session_id),
            context_id: self.context_id,
            interval_id: self.interval_id,
            started_at: self.started_at,
            expires_at: self.expires_at,
            cost_ped: self.cost_ped,
            cost_tracked: self.cost_tracked,
            effects: copy_effects(&self.effects),
            reload_speed_percent: self.reload_speed_percent,
            healing_activation_id: copy_optional(&self.healing_activation_id),
            supersedes_dose_id: copy_optional(&self.supersedes_dose_id),
            superseded_at: self.superseded_at,
            removed_at: self.removed_at,
            removed_by: self.removed_by,
        }
    }
}

impl DoseView {
    /// When the dose ends: at its expiry, or where a later dose of its item
    /// ended it first.
    pub open spec fn ends_at(self) -> i64 {
        match self.superseded_at {
            Some(at) => if at < self.expires_at {
                at
            } else {
                self.expires_at
            },
            None => self.expires_at,
        }
    }

    /// Whether the dose stands: it was not removed.
    pub open spec fn stands(self) -> bool {
        self.removed_at is None
    }

    /// Whether the dose counts at an instant.
    pub open spec fn in_effect_at(self, now: int) -> bool {
        self.stands() && self.started_at <= now < self.ends_at()
    }

    /// Whether the dose stands for a context interval: a timed one does. A
    /// heal's on-use buff lasts seconds and belongs to the heal's own
    /// provenance, so it opens none.
    pub open spec fn opens_interval(self) -> bool {
        self.source != DoseSource::OnUse && self.ends_at() > self.started_at
    }
}

/// The context interval a timed dose stands for in the running session.
pub open spec fn context_interval(dose: DoseRecord) -> Option<IntervalSpec> {
    if dose@.opens_interval() {
        Some(
            IntervalSpec {
                kind: IntervalKind::Consumable,
                label: Some(dose.item_name),
                ref_id: dose.equipment_id,
                magnitude: if dose.reload_speed_percent != 0 {
                    Some(dose.reload_speed_percent as i128)
                } else {
                    None
                },
                closes: CloseScope::Nothing,
            },
        )
    } else {
        None
    }
}

impl DoseRecord {
    /// When the dose ends.
    pub fn ends_at(&self) -> (at: i64)
        ensures
            at == self@.ends_at(),
    {
        match self.superseded_at {
            Some(at) => if at < self.expires_at {
                at
            } else {
                self.expires_at
            },
            None => self.expires_at,
        }
    }

    /// Whether the dose counts at an instant.
    pub fn in_effect_at(&self, now: i64) -> (yes: bool)
        ensures
            yes == self@.in_effect_at(now as int),
    {
        self.removed_at.is_none() && self.started_at <= now && now < self.ends_at()
    }

    /// The context interval a timed dose stands for in the running session.
    pub fn interval_spec(&self) -> (opened: Option<IntervalSpec>)
        ensures
            opened == context_interval(*self),
    {
        if self.source == DoseSource::OnUse || self.ends_at() <= self.started_at {
            return None;
        }
        let magnitude: Option<i128> = if self.reload_speed_percent != 0 {
            Some(self.reload_speed_percent as i128)
        } else {
            None
        };
        Some(
            IntervalSpec::new(IntervalKind::Consumable).label(
                Some(self.item_name.clone()),
            ).ref_id(self.equipment_id).magnitude(magnitude).stacking(),
        )
    }
}

/// A stored dose by its id.
pub open spec fn find(rows: Seq<DoseView>, id: Seq<char>) -> Option<DoseView>
    decreases rows.len(),
{
    if rows.len() == 0 {
        None
    } else if rows[0].id == id {
        Some(rows[0])
    } else {
        find(rows.skip(1), id)
    }
}

/// A stored dose by its id: which row holds it.
pub fn find_dose(rows: &Vec<DoseRecord>, id: &str) -> (at: Option<usize>)
    ensures
        match at {
            Some(at) => at < rows.len() && find(text::views(rows@), id@) == Some(rows@[at as int]@),
            None => find(text::views(rows@), id@) is None,
        },
{
    let ghost all = text::views(rows@);
    let mut i: usize = 0;
    assert(all.skip(0) =~= all);
    while i < rows.len()
        invariant
            i <= rows.len(),
            all == text::views(rows@),
            find(all, id@) == find(all.skip(i as int), id@),
        decreases rows.len() - i,
    {
        let ghost rest = all.skip(i as int);
        assert(rest[0] == rows@[i as int]@);
        assert(rest.skip(1) =~= all.skip(i as int + 1));
        if same_text(rows[i].id.as_str(), id) {
            return Some(i);
        }
        i += 1;
    }
    None
}

/// A dose whose id was not looked at yet.
pub open spec fn unseen(seen: Seq<Seq<char>>) -> spec_fn(DoseView) -> bool {
    |dose: DoseView| !seen.contains(dose.id)
}

/// What is found was stored, under that id.
pub proof fn found_is_stored(rows: Seq<DoseView>, id: Seq<char>)
    ensures
        match find(rows, id) {
            Some(dose) => dose.id == id && rows.contains(dose),
            None => forall|i: int| 0 <= i < rows.len() ==> (#[trigger] rows[i]).id != id,
        },
    decreases rows.len(),
{
    if rows.len() > 0 {
        let rest = rows.skip(1);
        found_is_stored(rest, id);
        if rows[0].id == id {
            assert(rows.contains(rows[0]));
        } else {
            match find(rest, id) {
                Some(dose) => {
                    let at = choose|at: int| 0 <= at < rest.len() && rest[at] == dose;
                    assert(rows[at + 1] == dose);
                },
                None => {
                    assert forall|i: int| 0 <= i < rows.len() implies (#[trigger] rows[i]).id
                        != id by {
                        if i > 0 {
                            assert(rows[i] == rest[i - 1]);
                        }
                    }
                },
            }
        }
    }
}

/// Looking at one more stored dose leaves fewer to look at.
pub proof fn seeing_leaves_fewer(rows: Seq<DoseView>, seen: Seq<Seq<char>>, id: Seq<char>)
    ensures
        lists::count(rows, unseen(seen.push(id))) <= lists::count(rows, unseen(seen)),
        !seen.contains(id) && (exists|i: int| 0 <= i < rows.len() && (#[trigger] rows[i]).id == id)
            ==> lists::count(rows, unseen(seen.push(id))) < lists::count(rows, unseen(seen)),
    decreases rows.len(),
{
    let more = seen.push(id);
    assert(forall|x: Seq<char>| #[trigger]
        more.contains(x) <==> seen.contains(x) || x == id) by {
        assert forall|x: Seq<char>| #[trigger] more.contains(x) <==> seen.contains(x) || x
            == id by {
            if seen.contains(x) {
                let at = choose|at: int| 0 <= at < seen.len() && seen[at] == x;
                assert(more[at] == x);
            }
            if x == id {
                assert(more[seen.len() as int] == x);
            }
        }
    }
    if rows.len() == 0 {
        lists::filter_none(rows, unseen(seen));
        lists::filter_none(rows, unseen(more));
        assert(rows =~= Seq::empty());
    } else {
        let rest = rows.drop_last();
        let last = rows.last();
        seeing_leaves_fewer(rest, seen, id);
        assert(rows =~= rest.push(last));
        lists::count_push(rest, last, unseen(seen));
        lists::count_push(rest, last, unseen(more));
        if exists|i: int| 0 <= i < rows.len() && (#[trigger] rows[i]).id == id {
            let at = choose|at: int| 0 <= at < rows.len() && (#[trigger] rows[at]).id == id;
            if at < rest.len() {
                assert(rest[at].id == id);
            }
        }
    }
}

/// The first standing dose along a re-dose chain, past those since removed:
/// nothing where the chain ends or turns back on itself, an error where a link
/// names no stored dose.
pub open spec fn walked(
    rows: Seq<DoseView>,
    link: Option<Seq<char>>,
    seen: Seq<Seq<char>>,
) -> Result<Option<DoseView>, Refusal>
    decreases lists::count(rows, unseen(seen)),
    via walking_ends
{
    match link {
        None => Ok(None),
        Some(id) => if seen.contains(id) {
            Ok(None)
        } else {
            match find(rows, id) {
                None => Err(Refusal::NotFound),
                Some(prior) => if prior.stands() {
                    Ok(Some(prior))
                } else {
                    walked(rows, prior.supersedes_dose_id, seen.push(id))
                },
            }
        },
    }
}

#[via_fn]
proof fn walking_ends(rows: Seq<DoseView>, link: Option<Seq<char>>, seen: Seq<Seq<char>>) {
    if let Some(id) = link {
        found_is_stored(rows, id);
        seeing_leaves_fewer(rows, seen, id);
        if let Some(prior) = find(rows, id) {
            let at = choose|at: int| 0 <= at < rows.len() && rows[at] == prior;
            assert(rows[at].id == id);
        }
    }
}

/// The dose a dose replaced, looking past any since removed.
pub open spec fn standing_prior_of(rows: Seq<DoseView>, dose: DoseView) -> Result<
    Option<DoseView>,
    Refusal,
> {
    walked(rows, dose.supersedes_dose_id, seq![dose.id])
}

/// The dose a dose replaced, looking past any since removed: the earliest link
/// of the item's re-dose chain still standing.
pub fn standing_prior(rows: &Vec<DoseRecord>, dose: &DoseRecord) -> (prior: Result<
    Option<usize>,
    DoseError,
>)
    ensures
        match prior {
            Ok(Some(at)) => at < rows.len() && standing_prior_of(text::views(rows@), dose@) == Ok::<
                Option<DoseView>,
                Refusal,
            >(Some(rows@[at as int]@)),
            Ok(None) => standing_prior_of(text::views(rows@), dose@) == Ok::<
                Option<DoseView>,
                Refusal,
            >(None),
            Err(error) => standing_prior_of(text::views(rows@), dose@) == Err::<
                Option<DoseView>,
                Refusal,
            >(Refusal::NotFound) && error == DoseError::NotFound,
        },
{
    let ghost all = text::views(rows@);
    let mut link: Option<String> = copy_optional(&dose.supersedes_dose_id);
    let mut seen: Vec<String> = Vec::new();
    seen.push(dose.id.clone());
    assert(text::views(seen@) =~= seq![dose@.id]);
    loop
        invariant
            all == text::views(rows@),
            standing_prior_of(all, dose@) == walked(
                all,
                text::opt_view(link),
                text::views(seen@),
            ),
        decreases lists::count(all, unseen(text::views(seen@))),
    {
        let id: String = match &link {
            Some(id) => id.clone(),
            None => {
                return Ok(None);
            },
        };
        if holds_text(&seen, id.as_str()) {
            return Ok(None);
        }
        let at: usize = match find_dose(rows, id.as_str()) {
            Some(at) => at,
            None => {
                return Err(DoseError::NotFound);
            },
        };
        if rows[at].removed_at.is_none() {
            return Ok(Some(at));
        }
        proof {
            found_is_stored(all, id@);
            seeing_leaves_fewer(all, text::views(seen@), id@);
            assert(all[at as int].id == id@);
            assert(text::views(seen@.push(id)) =~= text::views(seen@).push(id@));
        }
        link = copy_optional(&rows[at].supersedes_dose_id);
        seen.push(id);
    }
}

/// Which dose starts to run with a change.
#[derive(Clone, Copy, Debug, PartialEq, Eq, Structural)]
pub enum Entering {
    Nobody,
    Dose,
    Prior,
}

/// A planned change of the doses.
#[derive(Debug, PartialEq, Eq)]
pub struct DoseChange {
    /// The dose the command is about, as it stands after.
    pub dose: DoseRecord,
    /// The earlier dose of the item that the change moves, as it stands after.
    pub prior: Option<DoseRecord>,
    /// The dose that no longer runs.
    pub leaves: Option<String>,
    pub entering: Entering,
    /// The context intervals that end with the change, where they are open.
    pub closes: Vec<i64>,
    /// The context interval that opens with the change, in a running session:
    /// that of the dose that starts to run.
    pub opens: Option<IntervalSpec>,
    /// Whether the dose's cost comes back off its session instead of being
    /// booked to it.
    pub gives_back: bool,
}

/// A planned change as contracts read it.
#[verifier::ext_equal]
pub struct ChangeView {
    pub dose: DoseView,
    pub prior: Option<DoseView>,
    pub leaves: Option<Seq<char>>,
    pub entering: Entering,
    pub closes: Seq<i64>,
    pub gives_back: bool,
}

impl View for DoseChange {
    type V = ChangeView;

    open spec fn view(&self) -> ChangeView {
        ChangeView {
            dose: self.dose@,
            prior: text::opt_view(self.prior),
            leaves: text::opt_view(self.leaves),
            entering: self.entering,
            closes: self.closes@,
            gives_back: self.gives_back,
        }
    }
}

/// An interval as a list of one, or of none.
pub open spec fn as_list(interval: Option<i64>) -> Seq<i64> {
    match interval {
        Some(id) => seq![id],
        None => Seq::empty(),
    }
}

fn listed(interval: Option<i64>) -> (ids: Vec<i64>)
    ensures
        ids@ == as_list(interval),
{
    let mut ids: Vec<i64> = Vec::new();
    if let Some(id) = interval {
        ids.push(id);
    }
    assert(ids@ =~= as_list(interval));
    ids
}

/// The running dose of an item that counts at an instant.
pub open spec fn running_prior(running: Seq<DoseView>, item: i64, now: int) -> Option<DoseView>
    decreases running.len(),
{
    if running.len() == 0 {
        None
    } else if running[0].equipment_id == Some(item) && running[0].in_effect_at(now) {
        Some(running[0])
    } else {
        running_prior(running.skip(1), item, now)
    }
}

/// The dose a start takes.
pub open spec fn dose_taken(
    id: Seq<char>,
    start: DoseStart,
    source: DoseSource,
    activation: Option<Seq<char>>,
    now: i64,
    session: Option<(Seq<char>, Option<i64>)>,
    prior: Option<DoseView>,
) -> DoseView {
    DoseView {
        id,
        equipment_id: Some(start.equipment_id),
        item_name: start.item_name@,
        source,
        session_id: match session {
            Some((session_id, _)) => Some(session_id),
            None => None,
        },
        context_id: match session {
            Some((_, context)) => context,
            None => None,
        },
        interval_id: None,
        started_at: now,
        expires_at: (now + start.profile.duration) as i64,
        cost_ped: if session is Some {
            start.profile.booked()
        } else {
            0
        },
        cost_tracked: start.profile.track_cost,
        effects: text::views(start.profile.effects@),
        reload_speed_percent: start.profile.reload_speed_percent,
        healing_activation_id: activation,
        supersedes_dose_id: match prior {
            Some(prior) => Some(prior.id),
            None => None,
        },
        superseded_at: None,
        removed_at: None,
        removed_by: None,
    }
}

/// A dose ended by a later one, or run on where that one went.
pub open spec fn ended_at(dose: DoseView, at: Option<i64>) -> DoseView {
    DoseView { superseded_at: at, ..dose }
}

/// What a start changes: a running dose of the same item ends where the new
/// one starts, so the two never stack.
pub open spec fn start_plan(dose: DoseView, prior: Option<DoseView>) -> ChangeView {
    ChangeView {
        dose,
        prior: match prior {
            Some(prior) => Some(ended_at(prior, Some(dose.started_at))),
            None => None,
        },
        leaves: match prior {
            Some(prior) => Some(prior.id),
            None => None,
        },
        entering: if dose.ends_at() > dose.started_at {
            Entering::Dose
        } else {
            Entering::Nobody
        },
        closes: match prior {
            Some(prior) => as_list(prior.interval_id),
            None => Seq::empty(),
        },
        gives_back: false,
    }
}

/// The earlier dose a removal gives its stretch back to: the standing one that
/// this dose ended.
pub open spec fn resumed(dose: DoseView, prior: Option<DoseView>) -> Option<DoseView> {
    match prior {
        Some(prior) => if prior.superseded_at == Some(dose.started_at) {
            Some(ended_at(prior, dose.superseded_at))
        } else {
            None
        },
        None => None,
    }
}

/// What a removal changes: the dose stops counting, and the earlier dose it
/// ended runs on in its place, to its own expiry or until a later dose that
/// had already replaced this one.
pub open spec fn removal_plan(
    dose: DoseView,
    prior: Option<DoseView>,
    by: DoseRemoval,
    now: i64,
) -> ChangeView {
    let back = resumed(dose, prior);
    ChangeView {
        dose: DoseView { removed_at: Some(now), removed_by: Some(by), ..dose },
        prior: back,
        leaves: Some(dose.id),
        entering: match back {
            Some(prior) => if prior.ends_at() > now {
                Entering::Prior
            } else {
                Entering::Nobody
            },
            None => Entering::Nobody,
        },
        closes: as_list(dose.interval_id),
        gives_back: true,
    }
}

/// What a removal does: nothing to a dose already removed, and a heal's buff
/// is not the player's to remove.
pub open spec fn removal(
    rows: Seq<DoseView>,
    id: Seq<char>,
    by: DoseRemoval,
    now: i64,
) -> Result<Option<ChangeView>, Refusal> {
    match find(rows, id) {
        None => Err(Refusal::NotFound),
        Some(dose) => if !dose.stands() {
            Ok(None)
        } else if by == DoseRemoval::Player && dose.source == DoseSource::OnUse {
            Err(Refusal::GoesWithHeal)
        } else {
            match standing_prior_of(rows, dose) {
                Err(refusal) => Err(refusal),
                Ok(prior) => Ok(Some(removal_plan(dose, prior, by, now))),
            }
        },
    }
}

/// A removed dose as it stands again.
pub open spec fn given_back(dose: DoseView) -> DoseView {
    DoseView { removed_at: None, removed_by: None, ..dose }
}

/// The earlier dose a restored dose takes its stretch back from: the standing
/// one that runs where it would, to the same end.
pub open spec fn displaced(dose: DoseView, prior: Option<DoseView>) -> Option<DoseView> {
    match prior {
        Some(prior) => if prior.started_at <= dose.started_at && prior.superseded_at
            == dose.superseded_at {
            Some(prior)
        } else {
            None
        },
        None => None,
    }
}

/// Whether another running dose of the item would stack with a restored one.
pub open spec fn would_stack(
    running: Seq<DoseView>,
    dose: DoseView,
    prior: Option<DoseView>,
) -> bool {
    exists|i: int|
        0 <= i < running.len() && (#[trigger] running[i]).equipment_id == dose.equipment_id
            && running[i].id != dose.id && (prior is None || prior->0.id != running[i].id)
}

/// What a restore changes: the dose counts again for whatever is left of its
/// run, ending the earlier dose of its item where it started, as before.
pub open spec fn restore_plan(
    dose: DoseView,
    prior: Option<DoseView>,
    now: i64,
) -> ChangeView {
    let back = given_back(dose);
    let taken = displaced(back, prior);
    ChangeView {
        dose: back,
        prior: match taken {
            Some(prior) => Some(ended_at(prior, Some(back.started_at))),
            None => None,
        },
        leaves: match taken {
            Some(prior) => Some(prior.id),
            None => None,
        },
        entering: if back.in_effect_at(now as int) {
            Entering::Dose
        } else {
            Entering::Nobody
        },
        closes: match taken {
            Some(prior) => as_list(prior.interval_id),
            None => Seq::empty(),
        },
        gives_back: false,
    }
}

/// What a restore does: nothing to a dose that stands; a dose comes back only
/// by what removed it, and not while another dose of its item would stack with
/// it.
pub open spec fn restoration(
    running: Seq<DoseView>,
    rows: Seq<DoseView>,
    id: Seq<char>,
    by: DoseRemoval,
    now: i64,
) -> Result<Option<ChangeView>, Refusal> {
    match find(rows, id) {
        None => Err(Refusal::NotFound),
        Some(dose) => if dose.stands() {
            Ok(None)
        } else if dose.removed_by != Some(by) {
            Err(Refusal::RemovedWithHeal)
        } else {
            match standing_prior_of(rows, given_back(dose)) {
                Err(refusal) => Err(refusal),
                Ok(prior) => if given_back(dose).in_effect_at(now as int) && would_stack(
                    running,
                    dose,
                    displaced(given_back(dose), prior),
                ) {
                    Err(Refusal::LaterRuns)
                } else {
                    Ok(Some(restore_plan(dose, prior, now)))
                },
            }
        },
    }
}

/// What a dose command came to.
#[derive(Debug, PartialEq, Eq)]
pub enum DoseOutcome {
    /// The dose was already as the command asks.
    Unchanged(DoseRecord),
    /// A change to store and adopt.
    Change(DoseChange),
}

impl DoseOutcome {
    /// Whether the outcome is what a command does to a stored dose.
    pub open spec fn is_plan(
        outcome: Result<DoseOutcome, DoseError>,
        plan: Result<Option<ChangeView>, Refusal>,
        rows: Seq<DoseView>,
        id: Seq<char>,
    ) -> bool {
        match plan {
            Ok(Some(change)) => match outcome {
                Ok(DoseOutcome::Change(planned)) => planned@ == change,
                _ => false,
            },
            Ok(None) => match outcome {
                Ok(DoseOutcome::Unchanged(dose)) => find(rows, id) == Some(dose@),
                _ => false,
            },
            Err(refusal) => match outcome {
                Err(error) => error.says(refusal),
                _ => false,
            },
        }
    }
}

impl DoseChange {
    /// Whether the interval that opens is the one of the dose that starts to
    /// run.
    pub open spec fn opens_for_entering(self, now: i64) -> bool {
        self.opens == (match self.entering {
            Entering::Dose => context_interval(self.dose),
            Entering::Prior => if self.prior->0@.in_effect_at(now as int) {
                context_interval(self.prior->0)
            } else {
                None
            },
            Entering::Nobody => None,
        })
    }
}

/// The doses still running.
#[derive(Debug, PartialEq, Eq)]
pub struct DoseRuntime {
    pub running: Vec<DoseRecord>,
}

impl View for DoseRuntime {
    type V = Seq<DoseView>;

    open spec fn view(&self) -> Seq<DoseView> {
        text::views(self.running@)
    }
}

impl DoseRuntime {
    fn find_prior(&self, item: i64, now: i64) -> (prior: Option<usize>)
        ensures
            match prior {
                Some(at) => at < self.running.len() && running_prior(self@, item, now as int)
                    == Some(self.running@[at as int]@),
                None => running_prior(self@, item, now as int) is None,
            },
    {
        let ghost all = self@;
        let mut i: usize = 0;
        assert(all.skip(0) =~= all);
        while i < self.running.len()
            invariant
                i <= self.running.len(),
                all == self@,
                running_prior(all, item, now as int) == running_prior(
                    all.skip(i as int),
                    item,
                    now as int,
                ),
            decreases self.running.len() - i,
        {
            let dose = &self.running[i];
            let ghost rest = all.skip(i as int);
            assert(rest[0] == dose@);
            assert(rest.skip(1) =~= all.skip(i as int + 1));
            if dose.equipment_id == Some(item) && dose.in_effect_at(now) {
                return Some(i);
            }
            i += 1;
        }
        None
    }

    /// Plan a dose taken now, under an id. A running dose of the same item
    /// ends where this one starts; a cost-followed item books its dose cost to
    /// the running session, in the context the dose was taken in, and none
    /// outside a session.
    pub fn plan_start_with_id(
        &self,
        id: String,
        start: &DoseStart,
        source: DoseSource,
        activation_id: Option<String>,
        now: i64,
        session: Option<(String, Option<i64>)>,
    ) -> (change: DoseChange)
        requires
            i64::MIN <= now + start.profile.duration <= i64::MAX,
        ensures
            ({
                let prior = running_prior(self@, start.equipment_id, now as int);
                let place = match session {
                    Some((session_id, context)) => Some((session_id@, context)),
                    None => None,
                };
                change@ == start_plan(
                    dose_taken(
                        id@,
                        *start,
                        source,
                        text::opt_view(activation_id),
                        now,
                        place,
                        prior,
                    ),
                    prior,
                )
            }),
            change.opens_for_entering(now),
    {
        let cost_ped: i128 = if session.is_some() {
            start.profile.booked_cost_ped()
        } else {
            0
        };
        let found = self.find_prior(start.equipment_id, now);
        let mut prior: Option<DoseRecord> = None;
        let mut leaves: Option<String> = None;
        let mut supersedes: Option<String> = None;
        let mut closes: Vec<i64> = Vec::new();
        if let Some(at) = found {
            let mut ended = self.running[at].clone();
            leaves = Some(ended.id.clone());
            supersedes = Some(ended.id.clone());
            closes = listed(ended.interval_id);
            ended.superseded_at = Some(now);
            prior = Some(ended);
        }
        let (session_id, context_id): (Option<String>, Option<i64>) = match session {
            Some((session_id, context)) => (Some(session_id), context),
            None => (None, None),
        };
        let dose = DoseRecord {
            id,
            equipment_id: Some(start.equipment_id),
            item_name: start.item_name.clone(),
            source,
            session_id,
            context_id,
            interval_id: None,
            started_at: now,
            expires_at: now + start.profile.duration,
            cost_ped,
            cost_tracked: start.profile.track_cost,
            effects: copy_effects(&start.profile.effects),
            reload_speed_percent: start.profile.reload_speed_percent,
            healing_activation_id: activation_id,
            supersedes_dose_id: supersedes,
            superseded_at: None,
            removed_at: None,
            removed_by: None,
        };
        let opens = dose.interval_spec();
        let entering = if dose.ends_at() > now {
            Entering::Dose
        } else {
            Entering::Nobody
        };
        let change = DoseChange { dose, prior, leaves, entering, closes, opens, gives_back: false };
        proof {
            let ended = running_prior(self@, start.equipment_id, now as int);
            assert(change@.closes =~= (match ended {
                Some(prior) => as_list(prior.interval_id),
                None => Seq::empty(),
            }));
        }
        change
    }

    /// Plan a dose taken now, under a fresh id.
    pub fn plan_start(
        &self,
        start: &DoseStart,
        source: DoseSource,
        activation_id: Option<String>,
        now: i64,
        session: Option<(String, Option<i64>)>,
    ) -> (change: DoseChange)
        requires
            i64::MIN <= now + start.profile.duration <= i64::MAX,
        ensures
            ids::id_shape(change.dose.id@),
            ({
                let prior = running_prior(self@, start.equipment_id, now as int);
                let place = match session {
                    Some((session_id, context)) => Some((session_id@, context)),
                    None => None,
                };
                change@ == start_plan(
                    dose_taken(
                        change.dose.id@,
                        *start,
                        source,
                        text::opt_view(activation_id),
                        now,
                        place,
                        prior,
                    ),
                    prior,
                )
            }),
            change.opens_for_entering(now),
    {
        let id = fresh_id();
        self.plan_start_with_id(id, start, source, activation_id, now, session)
    }

    /// Plan the removal of a stored dose: its effect stops counting, any cost
    /// it booked comes back off its session, and the earlier dose of the item
    /// it ended runs on in its place. Removing a removed dose changes nothing.
    pub fn plan_remove(
        rows: &Vec<DoseRecord>,
        id: &str,
        by: DoseRemoval,
        now: i64,
    ) -> (outcome: Result<DoseOutcome, DoseError>)
        ensures
            DoseOutcome::is_plan(
                outcome,
                removal(text::views(rows@), id@, by, now),
                text::views(rows@),
                id@,
            ),
            match outcome {
                Ok(DoseOutcome::Change(change)) => change.opens_for_entering(now),
                _ => true,
            },
    {
        let at: usize = match find_dose(rows, id) {
            Some(at) => at,
            None => {
                return Err(DoseError::NotFound);
            },
        };
        let dose = &rows[at];
        if dose.removed_at.is_some() {
            return Ok(DoseOutcome::Unchanged(dose.clone()));
        }
        if by == DoseRemoval::Player && dose.source == DoseSource::OnUse {
            return Err(DoseError::Refused(BUFF_GOES_WITH_HEAL));
        }
        let found: Option<usize> = match standing_prior(rows, dose) {
            Ok(found) => found,
            Err(error) => {
                return Err(error);
            },
        };
        let mut prior: Option<DoseRecord> = None;
        let mut opens: Option<IntervalSpec> = None;
        let mut entering = Entering::Nobody;
        if let Some(earlier) = found {
            if rows[earlier].superseded_at == Some(dose.started_at) {
                let mut back = rows[earlier].clone();
                back.superseded_at = dose.superseded_at;
                if back.ends_at() > now {
                    entering = Entering::Prior;
                    if back.in_effect_at(now) {
                        opens = back.interval_spec();
                    }
                }
                prior = Some(back);
            }
        }
        let mut removed = dose.clone();
        removed.removed_at = Some(now);
        removed.removed_by = Some(by);
        Ok(
            DoseOutcome::Change(
                DoseChange {
                    closes: listed(dose.interval_id),
                    leaves: Some(dose.id.clone()),
                    dose: removed,
                    prior,
                    entering,
                    opens,
                    gives_back: true,
                },
            ),
        )
    }

    fn stacks_with(&self, dose: &DoseRecord, prior: &Option<DoseRecord>) -> (yes: bool)
        ensures
            yes == would_stack(self@, dose@, text::opt_view(*prior)),
    {
        let ghost all = self@;
        let mut i: usize = 0;
        while i < self.running.len()
            invariant
                i <= self.running.len(),
                all == self@,
                forall|j: int|
                    0 <= j < i ==> !((#[trigger] all[j]).equipment_id == dose@.equipment_id
                        && all[j].id != dose@.id && (*prior is None || prior->0@.id != all[j].id)),
            decreases self.running.len() - i,
        {
            let running = &self.running[i];
            assert(all[i as int] == running@);
            let other: bool = match prior {
                Some(prior) => !same_text(prior.id.as_str(), running.id.as_str()),
                None => true,
            };
            if running.equipment_id == dose.equipment_id && !same_text(
                running.id.as_str(),
                dose.id.as_str(),
            ) && other {
                return true;
            }
            i += 1;
        }
        false
    }

    /// Plan giving a removed dose back exactly: its cost returns to its
    /// session and its effect counts again for whatever is left of its run,
    /// ending the earlier dose of its item where it started, as before. A dose
    /// a heal correction removed comes back only when that correction is
    /// undone.
    pub fn plan_restore(
        &self,
        rows: &Vec<DoseRecord>,
        id: &str,
        by: DoseRemoval,
        now: i64,
    ) -> (outcome: Result<DoseOutcome, DoseError>)
        ensures
            DoseOutcome::is_plan(
                outcome,
                restoration(self@, text::views(rows@), id@, by, now),
                text::views(rows@),
                id@,
            ),
            match outcome {
                Ok(DoseOutcome::Change(change)) => change.opens_for_entering(now),
                _ => true,
            },
    {
        let at: usize = match find_dose(rows, id) {
            Some(at) => at,
            None => {
                return Err(DoseError::NotFound);
            },
        };
        if rows[at].removed_at.is_none() {
            return Ok(DoseOutcome::Unchanged(rows[at].clone()));
        }
        if rows[at].removed_by != Some(by) {
            return Err(DoseError::Refused(BUFF_REMOVED_WITH_HEAL));
        }
        let mut dose = rows[at].clone();
        dose.removed_at = None;
        dose.removed_by = None;
        assert(dose@ == given_back(rows@[at as int]@));
        let running_now: bool = dose.in_effect_at(now);
        let found: Option<usize> = match standing_prior(rows, &dose) {
            Ok(found) => found,
            Err(error) => {
                return Err(error);
            },
        };
        let mut prior: Option<DoseRecord> = None;
        if let Some(earlier) = found {
            if rows[earlier].started_at <= dose.started_at && rows[earlier].superseded_at
                == dose.superseded_at {
                prior = Some(rows[earlier].clone());
            }
        }
        if running_now && self.stacks_with(&dose, &prior) {
            return Err(DoseError::Refused(LATER_DOSE_RUNS));
        }
        let mut leaves: Option<String> = None;
        let mut closes: Vec<i64> = Vec::new();
        let mut ended: Option<DoseRecord> = None;
        if let Some(mut earlier) = prior {
            leaves = Some(earlier.id.clone());
            closes = listed(earlier.interval_id);
            earlier.superseded_at = Some(dose.started_at);
            ended = Some(earlier);
        }
        let (entering, opens): (Entering, Option<IntervalSpec>) = if running_now {
            (Entering::Dose, dose.interval_spec())
        } else {
            (Entering::Nobody, None)
        };
        let change = DoseChange {
            dose,
            prior: ended,
            leaves,
            entering,
            closes,
            opens,
            gives_back: false,
        };
        proof {
            let taken = displaced(change@.dose, match found {
                Some(earlier) => Some(rows@[earlier as int]@),
                None => None,
            });
            assert(change@.closes =~= (match taken {
                Some(prior) => as_list(prior.interval_id),
                None => Seq::empty(),
            }));
        }
        Ok(DoseOutcome::Change(change))
    }
}

impl ChangeView {
    /// The dose as stored: with the interval that opened, where it is the one
    /// that starts to run.
    pub open spec fn settled_dose(self, interval: Option<i64>) -> DoseView {
        if self.entering == Entering::Dose && interval is Some {
            DoseView { interval_id: interval, ..self.dose }
        } else {
            self.dose
        }
    }

    /// The earlier dose as stored: with the interval that opened, where it is
    /// the one that starts to run.
    pub open spec fn settled_prior(self, interval: Option<i64>) -> Option<DoseView> {
        match self.prior {
            Some(prior) => if self.entering == Entering::Prior && interval is Some {
                Some(DoseView { interval_id: interval, ..prior })
            } else {
                Some(prior)
            },
            None => None,
        }
    }

    /// The dose that starts to run, as stored.
    pub open spec fn entrant(self, interval: Option<i64>) -> Option<DoseView> {
        match self.entering {
            Entering::Dose => Some(self.settled_dose(interval)),
            Entering::Prior => self.settled_prior(interval),
            Entering::Nobody => None,
        }
    }
}

/// A dose other than the one that leaves.
pub open spec fn remaining(leaves: Option<Seq<char>>) -> spec_fn(DoseView) -> bool {
    |dose: DoseView| leaves != Some(dose.id)
}

/// The running doses after a change.
pub open spec fn adopted(
    running: Seq<DoseView>,
    change: ChangeView,
    interval: Option<i64>,
) -> Seq<DoseView> {
    let kept = running.filter(remaining(change.leaves));
    match change.entrant(interval) {
        Some(dose) => kept.push(dose),
        None => kept,
    }
}

/// A dose that is over by an instant.
pub open spec fn over_by(now: i64) -> spec_fn(DoseView) -> bool {
    |dose: DoseView| dose.ends_at() <= now
}

/// A dose that is not over by an instant.
pub open spec fn lasting(now: i64) -> spec_fn(DoseView) -> bool {
    |dose: DoseView| dose.ends_at() > now
}

/// When a dose ends, as a sort key.
pub open spec fn end_of() -> spec_fn(DoseView) -> int {
    |dose: DoseView| dose.ends_at() as int
}

fn place_by_end(ended: &mut Vec<DoseRecord>, dose: DoseRecord)
    ensures
        text::views(final(ended)@) == lists::placed(text::views(old(ended)@), dose@, end_of()),
{
    let ghost before = text::views(ended@);
    let ghost added = dose@;
    let end: i64 = dose.ends_at();
    let mut at: usize = ended.len();
    while at > 0 && ended[at - 1].ends_at() > end
        invariant
            at <= ended.len(),
            *ended == *old(ended),
            before == text::views(ended@),
            end == added.ends_at(),
            forall|i: int|
                at <= i < before.len() ==> end_of()(#[trigger] before[i]) > end_of()(added),
        decreases at,
    {
        assert(before[at - 1] == ended@[at - 1]@);
        at -= 1;
    }
    proof {
        if at > 0 {
            assert(before[at - 1] == ended@[at - 1]@);
        }
        lists::placed_is_inserted(before, added, end_of(), at as int);
    }
    ended.insert(at, dose);
    assert(text::views(ended@) =~= before.insert(at as int, added));
}

/// A dose that adds to the reload speed at an instant.
pub open spec fn speeding(now: i64) -> spec_fn(DoseView) -> bool {
    |dose: DoseView| dose.in_effect_at(now as int) && dose.reload_speed_percent != 0
}

/// What each of some doses adds to the reload speed.
pub open spec fn speeds(doses: Seq<DoseView>) -> Seq<i64> {
    Seq::new(doses.len(), |i: int| doses[i].reload_speed_percent)
}

/// The earliest end after an instant.
pub open spec fn next_end(running: Seq<DoseView>, now: i64) -> Option<i64>
    decreases running.len(),
{
    if running.len() == 0 {
        None
    } else {
        let rest = next_end(running.drop_last(), now);
        let end = running.last().ends_at();
        if end > now && (rest is None || end < rest->0) {
            Some(end)
        } else {
            rest
        }
    }
}

/// How long to sleep until a dose is over: a moment past its end, and no
/// longer than one wake-up sleeps.
pub open spec fn wake_delay(end: int, now: int) -> int {
    let delay = end - now + WAKE_GRACE;
    if delay < 0 {
        0
    } else if delay > WAKE_MAX {
        WAKE_MAX as int
    } else {
        delay
    }
}

impl DoseRuntime {
    /// No dose runs.
    pub fn new() -> (runtime: Self)
        ensures
            runtime@.len() == 0,
    {
        DoseRuntime { running: Vec::new() }
    }

    /// Adopt the stored running doses. A failed read keeps what memory holds.
    pub fn restore<E>(&mut self, read: Result<Vec<DoseRecord>, E>) -> (outcome: Result<(), E>)
        ensures
            match read {
                Ok(running) => final(self)@ == text::views(running@) && outcome is Ok,
                Err(error) => *final(self) == *old(self) && outcome == Err::<(), E>(error),
            },
    {
        match read {
            Ok(running) => {
                self.running = running;
                Ok(())
            },
            Err(error) => Err(error),
        }
    }

    /// Adopt a stored change, with the interval it opened. Gives the dose the
    /// command is about, as it stands now.
    pub fn adopt(&mut self, change: DoseChange, interval: Option<i64>) -> (dose: DoseRecord)
        ensures
            final(self)@ == adopted(old(self)@, change@, interval),
            dose@ == change@.settled_dose(interval),
    {
        let ghost planned = change@;
        let ghost all = self@;
        let ghost keep = remaining(planned.leaves);
        let mut before: Vec<DoseRecord> = Vec::new();
        std::mem::swap(&mut before, &mut self.running);
        let mut kept: Vec<DoseRecord> = Vec::new();
        let mut i: usize = 0;
        proof {
            lists::filter_none(all, keep);
            assert(text::views(kept@) =~= all.take(0).filter(keep));
        }
        while i < before.len()
            invariant
                i <= before.len(),
                all == text::views(before@),
                planned == change@,
                keep == remaining(planned.leaves),
                text::views(kept@) == all.take(i as int).filter(keep),
            decreases before.len() - i,
        {
            let dose = &before[i];
            let ghost had = text::views(kept@);
            proof {
                assert(all[i as int] == dose@);
                lists::filter_step(all, i as int, keep);
            }
            if !is_text(&change.leaves, dose.id.as_str()) {
                let copy = dose.clone();
                kept.push(copy);
                assert(text::views(kept@) =~= had.push(dose@));
            }
            i += 1;
        }
        proof {
            lists::filter_all(all, keep);
        }
        let DoseChange { dose: changed, prior, entering, .. } = change;
        let mut dose = changed;
        match entering {
            Entering::Dose => {
                if interval.is_some() {
                    dose.interval_id = interval;
                }
                let ghost had = text::views(kept@);
                let copy = dose.clone();
                kept.push(copy);
                assert(text::views(kept@) =~= had.push(dose@));
            },
            Entering::Prior => {
                if let Some(mut back) = prior {
                    if interval.is_some() {
                        back.interval_id = interval;
                    }
                    let ghost had = text::views(kept@);
                    let ghost entered = back@;
                    kept.push(back);
                    assert(text::views(kept@) =~= had.push(entered));
                }
            },
            Entering::Nobody => {},
        }
        self.running = kept;
        dose
    }

    /// End every dose whose expiry has passed. Gives the ended doses in the
    /// order they ended, each to be closed at its own end.
    pub fn sweep(&mut self, now: i64) -> (ended: Vec<DoseRecord>)
        ensures
            final(self)@ == old(self)@.filter(lasting(now)),
            text::views(ended@) == lists::ordered(old(self)@.filter(over_by(now)), end_of()),
    {
        let ghost all = self@;
        let mut before: Vec<DoseRecord> = Vec::new();
        std::mem::swap(&mut before, &mut self.running);
        let mut running: Vec<DoseRecord> = Vec::new();
        let mut ended: Vec<DoseRecord> = Vec::new();
        let mut i: usize = 0;
        proof {
            lists::filter_none(all, lasting(now));
            lists::filter_none(all, over_by(now));
            assert(text::views(running@) =~= all.take(0).filter(lasting(now)));
            assert(text::views(ended@) =~= lists::ordered(
                all.take(0).filter(over_by(now)),
                end_of(),
            ));
        }
        while i < before.len()
            invariant
                i <= before.len(),
                all == text::views(before@),
                text::views(running@) == all.take(i as int).filter(lasting(now)),
                text::views(ended@) == lists::ordered(
                    all.take(i as int).filter(over_by(now)),
                    end_of(),
                ),
            decreases before.len() - i,
        {
            let dose = before[i].clone();
            let ghost had = text::views(running@);
            let ghost over = all.take(i as int).filter(over_by(now));
            let ghost seen = dose@;
            proof {
                assert(all[i as int] == dose@);
                lists::filter_step(all, i as int, lasting(now));
                lists::filter_step(all, i as int, over_by(now));
                assert(over.push(seen).drop_last() =~= over);
            }
            if dose.ends_at() <= now {
                place_by_end(&mut ended, dose);
            } else {
                running.push(dose);
                assert(text::views(running@) =~= had.push(seen));
            }
            i += 1;
        }
        proof {
            lists::filter_all(all, lasting(now));
            lists::filter_all(all, over_by(now));
        }
        self.running = running;
        ended
    }

    /// Whether any running dose is over.
    pub fn any_over(&self, now: i64) -> (yes: bool)
        ensures
            yes == exists|i: int| 0 <= i < self@.len() && (#[trigger] self@[i]).ends_at() <= now,
    {
        let ghost all = self@;
        let mut i: usize = 0;
        while i < self.running.len()
            invariant
                i <= self.running.len(),
                all == self@,
                forall|j: int| 0 <= j < i ==> (#[trigger] all[j]).ends_at() > now,
            decreases self.running.len() - i,
        {
            assert(all[i as int] == self.running@[i as int]@);
            if self.running[i].ends_at() <= now {
                return true;
            }
            i += 1;
        }
        false
    }

    /// What the running doses add to the reload speed at an instant, each that
    /// adds anything.
    pub fn consumed_reload_at(&self, now: i64) -> (percents: Vec<i64>)
        ensures
            percents@ == speeds(self@.filter(speeding(now))),
    {
        let ghost all = self@;
        let ghost keep = speeding(now);
        let mut percents: Vec<i64> = Vec::new();
        let mut i: usize = 0;
        proof {
            lists::filter_none(all, keep);
            assert(percents@ =~= speeds(all.take(0).filter(keep)));
        }
        while i < self.running.len()
            invariant
                i <= self.running.len(),
                all == self@,
                keep == speeding(now),
                percents@ == speeds(all.take(i as int).filter(keep)),
            decreases self.running.len() - i,
        {
            let dose = &self.running[i];
            let ghost had = all.take(i as int).filter(keep);
            proof {
                assert(all[i as int] == dose@);
                lists::filter_step(all, i as int, keep);
            }
            if dose.in_effect_at(now) && dose.reload_speed_percent != 0 {
                percents.push(dose.reload_speed_percent);
                assert(speeds(had.push(dose@)) =~= speeds(had).push(dose@.reload_speed_percent));
            }
            i += 1;
        }
        proof {
            lists::filter_all(all, keep);
        }
        percents
    }

    /// How long until the next running dose is over; nothing where none has
    /// its end ahead.
    pub fn next_wake(&self, now: i64) -> (delay: Option<i64>)
        ensures
            match next_end(self@, now) {
                Some(end) => delay is Some && delay->0 == wake_delay(end as int, now as int),
                None => delay is None,
            },
    {
        let ghost all = self@;
        let mut next: Option<i64> = None;
        let mut i: usize = 0;
        while i < self.running.len()
            invariant
                i <= self.running.len(),
                all == self@,
                next == next_end(all.take(i as int), now),
            decreases self.running.len() - i,
        {
            proof {
                let more = all.take(i as int + 1);
                assert(more.drop_last() =~= all.take(i as int));
                assert(more.last() == self.running@[i as int]@);
            }
            let end: i64 = self.running[i].ends_at();
            if end > now {
                next = match next {
                    Some(best) => if end < best {
                        Some(end)
                    } else {
                        Some(best)
                    },
                    None => Some(end),
                };
            }
            i += 1;
        }
        assert(all.take(all.len() as int) =~= all);
        match next {
            Some(end) => {
                let delay: i128 = end as i128 - now as i128 + WAKE_GRACE as i128;
                if delay < 0 {
                    Some(0)
                } else if delay > WAKE_MAX as i128 {
                    Some(WAKE_MAX)
                } else {
                    Some(delay as i64)
                }
            },
            None => None,
        }
    }

    /// The context intervals to open for the running doses when a session
    /// starts: which dose, and its interval.
    pub fn plan_session_intervals(&self, now: i64) -> (wanted: Vec<(usize, IntervalSpec)>)
        ensures
            forall|k: int|
                0 <= k < wanted.len() ==> (#[trigger] wanted@[k]).0 < self.running.len()
                    && self@[wanted@[k].0 as int].in_effect_at(now as int) && context_interval(
                    self.running@[wanted@[k].0 as int],
                ) == Some(wanted@[k].1),
            forall|k: int, m: int| 0 <= k < m < wanted.len() ==> wanted@[k].0 < wanted@[m].0,
            forall|i: int|
                0 <= i < self.running.len() && (#[trigger] self@[i]).in_effect_at(now as int)
                    && self@[i].opens_interval() ==> exists|k: int|
                    0 <= k < wanted.len() && (#[trigger] wanted@[k]).0 == i,
    {
        let mut wanted: Vec<(usize, IntervalSpec)> = Vec::new();
        let mut i: usize = 0;
        while i < self.running.len()
            invariant
                i <= self.running.len(),
                forall|k: int|
                    0 <= k < wanted.len() ==> (#[trigger] wanted@[k]).0 < i
                        && self@[wanted@[k].0 as int].in_effect_at(now as int) && context_interval(
                        self.running@[wanted@[k].0 as int],
                    ) == Some(wanted@[k].1),
                forall|k: int, m: int| 0 <= k < m < wanted.len() ==> wanted@[k].0 < wanted@[m].0,
                forall|j: int|
                    0 <= j < i && (#[trigger] self@[j]).in_effect_at(now as int)
                        && self@[j].opens_interval() ==> exists|k: int|
                        0 <= k < wanted.len() && (#[trigger] wanted@[k]).0 == j,
            decreases self.running.len() - i,
        {
            let dose = &self.running[i];
            let ghost had = wanted@;
            assert(self@[i as int] == dose@);
            if dose.in_effect_at(now) {
                if let Some(opened) = dose.interval_spec() {
                    wanted.push((i, opened));
                    assert(wanted@[had.len() as int].0 == i);
                    assert forall|j: int|
                        0 <= j < i + 1 && (#[trigger] self@[j]).in_effect_at(now as int)
                            && self@[j].opens_interval() implies exists|k: int|
                        0 <= k < wanted.len() && (#[trigger] wanted@[k]).0 == j by {
                        if j < i {
                            let k = choose|k: int| 0 <= k < had.len() && (#[trigger] had[k]).0 == j;
                            assert(wanted@[k].0 == j);
                        }
                    }
                }
            }
            i += 1;
        }
        wanted
    }

    /// Note the interval that opened for a running dose.
    pub fn note_interval(&mut self, at: usize, interval: Option<i64>)
        requires
            at < old(self).running.len(),
        ensures
            final(self)@ == old(self)@.update(
                at as int,
                (DoseView { interval_id: interval, ..old(self)@[at as int] }),
            ),
    {
        let ghost before = self@;
        let mut dose = self.running[at].clone();
        dose.interval_id = interval;
        self.running[at] = dose;
        assert(self@ =~= before.update(
            at as int,
            (DoseView { interval_id: interval, ..before[at as int] }),
        ));
    }
}

/// The interval an ended dose closes, and when: its own, where it is open, at
/// the dose's own end.
pub fn interval_ending(dose: &DoseRecord, intervals: &IntervalState) -> (closes: Option<(i64, i64)>)
    ensures
        closes == (match dose.interval_id {
            Some(id) => if intervals::interval_ids(intervals@.open).contains(id) {
                Some((id, dose@.ends_at()))
            } else {
                None
            },
            None => None,
        }),
{
    match dose.interval_id {
        Some(id) => if intervals.is_open(id) {
            Some((id, dose.ends_at()))
        } else {
            None
        },
        None => None,
    }
}

/// What a change moves on its dose's session.
pub open spec fn cost_moved(dose: DoseView, gives_back: bool) -> int {
    if gives_back {
        -dose.cost_ped
    } else {
        dose.cost_ped
    }
}

/// Mirror a cost moved on the running session's row in its live total. A dose
/// of another session moves nothing.
pub fn adjust_live_cost(active: &mut ActiveSession, dose: &DoseRecord, gives_back: bool)
    requires
        i128::MIN <= old(active).consumable_cost + cost_moved(dose@, gives_back) <= i128::MAX,
    ensures
        *final(active) == (if dose@.session_id == Some(old(active).session@.id) {
            ActiveSession {
                consumable_cost: final(active).consumable_cost,
                dirty: true,
                ..*old(active)
            }
        } else {
            *old(active)
        }),
        dose@.session_id == Some(old(active).session@.id) ==> final(active).consumable_cost
            == old(active).consumable_cost + cost_moved(dose@, gives_back),
{
    if is_text(&dose.session_id, active.session.id.as_str()) {
        if gives_back {
            active.consumable_cost = active.consumable_cost - dose.cost_ped;
        } else {
            active.consumable_cost = active.consumable_cost + dose.cost_ped;
        }
        active.dirty = true;
    }
}

/// Take the reload speed in effect: a speed that did not move changes nothing,
/// and one that did is taken, and the session is to be shown and re-priced.
/// `effective` is the held healer's reload under the speed.
pub fn reprice_for_reload(active: &mut ActiveSession, speed: i64, effective: i64) -> (moved: bool)
    ensures
        moved == !units::near(old(active).reload_speed_percent as int, speed as int),
        !moved ==> *final(active) == *old(active),
        moved ==> {
            &&& final(active).reload_speed_percent == speed
            &&& final(active).dirty
            &&& final(active).healing.intent == (match old(active).healing.intent {
                Some(intent) => Some(
                    if intent.base_reload is Some {
                        HealingIntent {
                            reload: effective,
                            reload_speed_percent: Some(speed),
                            effective_reload: Some(effective),
                            ..intent
                        }
                    } else {
                        intent
                    },
                ),
                None => None,
            })
            &&& *final(active) == (ActiveSession {
                reload_speed_percent: speed,
                dirty: true,
                healing: HealingRuntime {
                    intent: final(active).healing.intent,
                    ..old(active).healing
                },
                ..*old(active)
            })
        },
{
    if is_near(active.reload_speed_percent, speed) {
        return false;
    }
    active.reload_speed_percent = speed;
    if let Some(intent) = &mut active.healing.intent {
        intent.apply_reload_speed(speed, effective);
    }
    active.dirty = true;
    true
}

} // verus!
