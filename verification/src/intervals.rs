//! The session-interval engine: intervals and the contexts that stamp events
//! with them.
//!
//! A session is not uniform. A pill holds for part of it, a quest spans a
//! stretch, and a player-drawn segment slices one run. All are the same
//! primitive and differ only by [`IntervalKind`].
//!
//! Opening or closing any interval mints a fresh context; every event written
//! afterwards stamps that context. A transition is planned from the live
//! state, written as one transaction, and adopted in memory with what the
//! write answered: a write that failed changes nothing.

use crate::lists;
use crate::text;
use crate::text::{copy_optional, eq_ignore_ascii_case, same_text};
use vstd::prelude::*;

verus! {

/// What an interval records.
#[derive(Clone, Copy, Debug, PartialEq, Eq, Structural)]
pub enum IntervalKind {
    /// A skill-affecting modifier in force (a pill, a ring). Carries a
    /// magnitude, where zero means "declared, nothing in force".
    Modifier,
    /// A player-drawn slice of the session; sequential, so opening one closes
    /// the standing one.
    Segment,
    /// The stretch a declared quest spans.
    Quest,
    /// A consumable's dose in force.
    Consumable,
    /// A protection loadout declared during play. Retired: nothing opens one,
    /// but the kind is still read so older sessions stay interpretable.
    Protection,
}

impl IntervalKind {
    /// The word a stored row carries.
    pub open spec fn word(self) -> Seq<char> {
        match self {
            IntervalKind::Modifier => "modifier"@,
            IntervalKind::Segment => "segment"@,
            IntervalKind::Quest => "quest"@,
            IntervalKind::Consumable => "consumable"@,
            IntervalKind::Protection => "protection"@,
        }
    }

    /// The kind a stored word names; no other text is a kind.
    pub open spec fn read(value: Seq<char>) -> Option<Self> {
        if value == "modifier"@ {
            Some(IntervalKind::Modifier)
        } else if value == "segment"@ {
            Some(IntervalKind::Segment)
        } else if value == "quest"@ {
            Some(IntervalKind::Quest)
        } else if value == "consumable"@ {
            Some(IntervalKind::Consumable)
        } else if value == "protection"@ {
            Some(IntervalKind::Protection)
        } else {
            None
        }
    }

    /// Every kind reads back from its own word, and what reads as a kind is
    /// that kind's word.
    pub proof fn words_round_trip(self, value: Seq<char>)
        ensures
            Self::read(self.word()) == Some(self),
            Self::read(value) is Some ==> Self::read(value)->0.word() == value,
    {
        reveal_strlit("modifier");
        reveal_strlit("segment");
        reveal_strlit("quest");
        reveal_strlit("consumable");
        reveal_strlit("protection");
        assert("modifier"@.len() == 8 && "segment"@.len() == 7 && "quest"@.len() == 5);
        assert("consumable"@[0] == 'c' && "protection"@[0] == 'p');
        assert("consumable"@.len() == 10 && "protection"@.len() == 10);
    }

    /// The word a stored row carries.
    pub fn as_str(self) -> (word: &'static str)
        ensures
            word@ == self.word(),
    {
        match self {
            IntervalKind::Modifier => "modifier",
            IntervalKind::Segment => "segment",
            IntervalKind::Quest => "quest",
            IntervalKind::Consumable => "consumable",
            IntervalKind::Protection => "protection",
        }
    }

    /// Read a stored word back; no other text is a kind.
    pub fn parse(value: &str) -> (kind: Option<Self>)
        ensures
            kind == Self::read(value@),
    {
        if same_text(value, "modifier") {
            Some(IntervalKind::Modifier)
        } else if same_text(value, "segment") {
            Some(IntervalKind::Segment)
        } else if same_text(value, "quest") {
            Some(IntervalKind::Quest)
        } else if same_text(value, "consumable") {
            Some(IntervalKind::Consumable)
        } else if same_text(value, "protection") {
            Some(IntervalKind::Protection)
        } else {
            None
        }
    }
}

/// The two interval kinds the Activities control declares, and the set an
/// exclusive switch seals.
pub open spec fn is_activity(kind: IntervalKind) -> bool {
    kind is Quest || kind is Segment
}

/// The two interval kinds the Activities control declares.
pub fn activity_kinds() -> (kinds: Vec<IntervalKind>)
    ensures
        kinds@ == seq![IntervalKind::Quest, IntervalKind::Segment],
        forall|kind: IntervalKind| #[trigger] kinds@.contains(kind) == is_activity(kind),
{
    let mut kinds: Vec<IntervalKind> = Vec::new();
    kinds.push(IntervalKind::Quest);
    kinds.push(IntervalKind::Segment);
    proof {
        assert(kinds@ =~= seq![IntervalKind::Quest, IntervalKind::Segment]);
        assert forall|kind: IntervalKind| #[trigger] kinds@.contains(kind) == is_activity(
            kind,
        ) by {
            if kind is Quest {
                assert(kinds@[0] == kind);
            }
            if kind is Segment {
                assert(kinds@[1] == kind);
            }
        }
    }
    kinds
}

/// A declaration of what the play from now on is. A quest stretch is
/// identified by the quest it advances and labelled with its name; a segment
/// is identified by the name the player gave it.
#[derive(Debug, PartialEq, Eq)]
pub enum ActivityRef {
    Quest { quest_id: i64, name: String },
    Segment { name: String },
}

/// Which standing activity a deactivation ends. A quest needs only its id.
#[derive(Debug, PartialEq, Eq)]
pub enum ActivityKey {
    Quest(i64),
    Segment(String),
}

/// One standing activity, as the Activities control renders it.
#[derive(Debug, PartialEq, Eq)]
pub struct ActiveActivity {
    pub kind: IntervalKind,
    pub name: String,
    pub quest_id: Option<i64>,
}

/// A standing activity as contracts read it.
pub struct ActivityView {
    pub kind: IntervalKind,
    pub name: Seq<char>,
    pub quest_id: Option<i64>,
}

impl View for ActiveActivity {
    type V = ActivityView;

    open spec fn view(&self) -> ActivityView {
        ActivityView { kind: self.kind, name: self.name@, quest_id: self.quest_id }
    }
}

/// Which standing intervals an open seals in the same transaction. The scope
/// is a property of the gesture, not of the kind.
#[derive(Debug, PartialEq, Eq)]
pub enum CloseScope {
    /// Stack: nothing standing is sealed.
    Nothing,
    /// Seal the standing intervals of the opening kind.
    SameKind,
    /// Seal the standing intervals of any of these kinds, for a switch whose
    /// target may be of a different kind than what it replaces.
    Kinds(Vec<IntervalKind>),
}

impl CloseScope {
    /// Whether an open interval falls in scope for an open of `opening`.
    pub open spec fn covers(self, opening: IntervalKind, standing: IntervalKind) -> bool {
        match self {
            CloseScope::Nothing => false,
            CloseScope::SameKind => standing == opening,
            CloseScope::Kinds(kinds) => kinds@.contains(standing),
        }
    }

    /// Whether an open interval falls in scope for an open of `opening`.
    pub fn seals(&self, opening: IntervalKind, standing: IntervalKind) -> (sealed: bool)
        ensures
            sealed == self.covers(opening, standing),
    {
        match self {
            CloseScope::Nothing => false,
            CloseScope::SameKind => standing == opening,
            CloseScope::Kinds(kinds) => holds_kind(kinds, standing),
        }
    }
}

fn holds_kind(kinds: &Vec<IntervalKind>, kind: IntervalKind) -> (found: bool)
    ensures
        found == kinds@.contains(kind),
{
    let mut i: usize = 0;
    while i < kinds.len()
        invariant
            i <= kinds.len(),
            forall|j: int| 0 <= j < i ==> kinds@[j] != kind,
        decreases kinds.len() - i,
    {
        if kinds[i] == kind {
            return true;
        }
        i += 1;
    }
    false
}

fn holds_id(ids: &Vec<i64>, id: i64) -> (found: bool)
    ensures
        found == ids@.contains(id),
{
    let mut i: usize = 0;
    while i < ids.len()
        invariant
            i <= ids.len(),
            forall|j: int| 0 <= j < i ==> ids@[j] != id,
        decreases ids.len() - i,
    {
        if ids[i] == id {
            return true;
        }
        i += 1;
    }
    false
}

/// What to open, as one value rather than a run of positional arguments.
#[derive(Debug, PartialEq, Eq)]
pub struct IntervalSpec {
    pub kind: IntervalKind,
    pub label: Option<String>,
    pub ref_id: Option<i64>,
    pub magnitude: Option<i128>,
    /// What this open seals first; same-kind by default, which is the rule
    /// for every kind that admits one at a time.
    pub closes: CloseScope,
}

impl IntervalSpec {
    /// An interval of a kind, with nothing said of it yet.
    pub fn new(kind: IntervalKind) -> (spec_: Self)
        ensures
            spec_ == (IntervalSpec {
                kind,
                label: None,
                ref_id: None,
                magnitude: None,
                closes: CloseScope::SameKind,
            }),
    {
        IntervalSpec {
            kind,
            label: None,
            ref_id: None,
            magnitude: None,
            closes: CloseScope::SameKind,
        }
    }

    /// Label it.
    pub fn label(self, label: Option<String>) -> (spec_: Self)
        ensures
            spec_ == (IntervalSpec { label, ..self }),
    {
        IntervalSpec {
            kind: self.kind,
            label,
            ref_id: self.ref_id,
            magnitude: self.magnitude,
            closes: self.closes,
        }
    }

    /// Point it at what it stands for.
    pub fn ref_id(self, ref_id: Option<i64>) -> (spec_: Self)
        ensures
            spec_ == (IntervalSpec { ref_id, ..self }),
    {
        IntervalSpec {
            kind: self.kind,
            label: self.label,
            ref_id,
            magnitude: self.magnitude,
            closes: self.closes,
        }
    }

    /// Give it a magnitude.
    pub fn magnitude(self, magnitude: Option<i128>) -> (spec_: Self)
        ensures
            spec_ == (IntervalSpec { magnitude, ..self }),
    {
        IntervalSpec {
            kind: self.kind,
            label: self.label,
            ref_id: self.ref_id,
            magnitude,
            closes: self.closes,
        }
    }

    /// Let it stack: nothing standing is sealed.
    pub fn stacking(self) -> (spec_: Self)
        ensures
            spec_ == (IntervalSpec { closes: CloseScope::Nothing, ..self }),
    {
        self.closes(CloseScope::Nothing)
    }

    /// Seal the standing intervals of a scope instead of only the opening
    /// kind's.
    pub fn closes(self, scope: CloseScope) -> (spec_: Self)
        ensures
            spec_ == (IntervalSpec { closes: scope, ..self }),
    {
        IntervalSpec {
            kind: self.kind,
            label: self.label,
            ref_id: self.ref_id,
            magnitude: self.magnitude,
            closes: scope,
        }
    }
}

/// One open interval, as the live session holds it.
#[derive(Debug, PartialEq, Eq)]
pub struct OpenInterval {
    pub id: i64,
    pub kind: IntervalKind,
    pub label: Option<String>,
    pub ref_id: Option<i64>,
    pub magnitude: Option<i128>,
}

/// An open interval as contracts read it.
pub struct IntervalView {
    pub id: i64,
    pub kind: IntervalKind,
    pub label: Option<Seq<char>>,
    pub ref_id: Option<i64>,
    pub magnitude: Option<i128>,
}

impl View for OpenInterval {
    type V = IntervalView;

    open spec fn view(&self) -> IntervalView {
        IntervalView {
            id: self.id,
            kind: self.kind,
            label: text::opt_view(self.label),
            ref_id: self.ref_id,
            magnitude: self.magnitude,
        }
    }
}

impl Clone for OpenInterval {
    fn clone(&self) -> (copy: Self)
        ensures
            copy@ == self@,
    {
        OpenInterval {
            id: self.id,
            kind: self.kind,
            label: copy_optional(&self.label),
            ref_id: self.ref_id,
            magnitude: self.magnitude,
        }
    }
}

/// The interval an opening of `opened` with this id stands for.
pub open spec fn interval_of(opened: IntervalSpec, id: i64) -> IntervalView {
    IntervalView {
        id,
        kind: opened.kind,
        label: text::opt_view(opened.label),
        ref_id: opened.ref_id,
        magnitude: opened.magnitude,
    }
}

/// The session's live interval state: which intervals are open, and the
/// context that identifies that set for stamping.
#[derive(Debug, PartialEq, Eq)]
pub struct IntervalState {
    open: Vec<OpenInterval>,
    context_id: Option<i64>,
}

/// The interval state as contracts read it.
#[verifier::ext_equal]
pub struct IntervalsView {
    pub open: Seq<IntervalView>,
    pub context_id: Option<i64>,
}

impl View for IntervalState {
    type V = IntervalsView;

    closed spec fn view(&self) -> IntervalsView {
        IntervalsView { open: text::views(self.open@), context_id: self.context_id }
    }
}

/// The ids of a run of intervals.
pub open spec fn interval_ids(open: Seq<IntervalView>) -> Seq<i64> {
    Seq::new(open.len(), |i: int| open[i].id)
}

/// Which open intervals a close ends.
#[derive(Debug, PartialEq, Eq)]
pub enum CloseTarget {
    /// Every one of a kind.
    Kind(IntervalKind),
    /// The ones of a kind pointing at one thing.
    Ref(IntervalKind, i64),
    /// The ones with these ids.
    Ids(Vec<i64>),
    /// Every one of these kinds but the one with an id.
    KindsExceptId(Vec<IntervalKind>, i64),
}

impl CloseTarget {
    /// Whether the close ends this interval.
    pub open spec fn matches(self, interval: IntervalView) -> bool {
        match self {
            CloseTarget::Kind(kind) => interval.kind == kind,
            CloseTarget::Ref(kind, ref_id) => interval.kind == kind && interval.ref_id == Some(
                ref_id,
            ),
            CloseTarget::Ids(ids) => ids@.contains(interval.id),
            CloseTarget::KindsExceptId(kinds, keep_id) => kinds@.contains(interval.kind)
                && interval.id != keep_id,
        }
    }

    /// The intervals the close ends, as a test.
    pub open spec fn test(self) -> spec_fn(IntervalView) -> bool {
        |interval: IntervalView| self.matches(interval)
    }

    fn ends(&self, interval: &OpenInterval) -> (ends: bool)
        ensures
            ends == self.matches(interval@),
    {
        match self {
            CloseTarget::Kind(kind) => interval.kind == *kind,
            CloseTarget::Ref(kind, ref_id) => interval.kind == *kind && (match interval.ref_id {
                Some(id) => id == *ref_id,
                None => false,
            }),
            CloseTarget::Ids(ids) => holds_id(ids, interval.id),
            CloseTarget::KindsExceptId(kinds, keep_id) => holds_kind(kinds, interval.kind)
                && interval.id != *keep_id,
        }
    }
}

/// The intervals an opening seals, as a test.
pub open spec fn sealed_by(closes: CloseScope, opening: IntervalKind) -> spec_fn(
    IntervalView,
) -> bool {
    |interval: IntervalView| closes.covers(opening, interval.kind)
}

/// The intervals with one of these ids, as a test.
pub open spec fn among(ids: Seq<i64>) -> spec_fn(IntervalView) -> bool {
    |interval: IntervalView| ids.contains(interval.id)
}

/// The intervals with none of these ids, as a test.
pub open spec fn not_among(ids: Seq<i64>) -> spec_fn(IntervalView) -> bool {
    |interval: IntervalView| !ids.contains(interval.id)
}

/// The rows a transition touches: those it ends, and those that stay members
/// of the context it mints.
#[derive(Debug, PartialEq, Eq)]
pub struct IntervalWrite {
    pub ends: Vec<i64>,
    pub keeps: Vec<i64>,
}

impl IntervalsView {
    /// The ids a test picks.
    pub open spec fn picked(self, test: spec_fn(IntervalView) -> bool) -> Seq<i64> {
        interval_ids(self.open.filter(test))
    }

    /// What stays open when these ids end.
    pub open spec fn without(self, ids: Seq<i64>) -> Seq<IntervalView> {
        self.open.filter(not_among(ids))
    }

    /// The ids an opening seals.
    pub open spec fn sealing(self, opened: IntervalSpec) -> Seq<i64> {
        self.picked(sealed_by(opened.closes, opened.kind))
    }

    /// The state after these intervals ended and, when one opened, it joined
    /// the rest, under the context that says so.
    pub open spec fn transitioned(
        self,
        closing: Seq<i64>,
        opened: Option<IntervalView>,
        context_id: i64,
    ) -> IntervalsView {
        IntervalsView {
            open: match opened {
                Some(interval) => self.without(closing).push(interval),
                None => self.without(closing),
            },
            context_id: Some(context_id),
        }
    }

    /// No two open intervals share an id.
    pub open spec fn distinct(self) -> bool {
        forall|i: int, j: int|
            0 <= i < j < self.open.len() ==> (#[trigger] self.open[i]).id != (
            #[trigger] self.open[j]).id
    }
}

/// The first open interval a test picks.
pub open spec fn first_of(open: Seq<IntervalView>, test: spec_fn(IntervalView) -> bool) -> Option<
    IntervalView,
>
    decreases open.len(),
{
    if open.len() == 0 {
        None
    } else if test(open[0]) {
        Some(open[0])
    } else {
        first_of(open.skip(1), test)
    }
}

/// The intervals of a kind, as a test.
pub open spec fn of_kind(kind: IntervalKind) -> spec_fn(IntervalView) -> bool {
    |interval: IntervalView| interval.kind == kind
}

/// The intervals of any of these kinds, as a test.
pub open spec fn of_kinds(kinds: Seq<IntervalKind>) -> spec_fn(IntervalView) -> bool {
    |interval: IntervalView| kinds.contains(interval.kind)
}

/// The intervals of a kind pointing at one thing, as a test.
pub open spec fn of_ref(kind: IntervalKind, ref_id: i64) -> spec_fn(IntervalView) -> bool {
    |interval: IntervalView| interval.kind == kind && interval.ref_id == Some(ref_id)
}

/// The intervals of a kind with one label, ASCII case aside, as a test.
pub open spec fn of_label(kind: IntervalKind, label: Seq<char>) -> spec_fn(IntervalView) -> bool {
    |interval: IntervalView|
        interval.kind == kind && interval.label is Some && text::same_ignoring_ascii_case(
            interval.label->0,
            label,
        )
}

impl IntervalsView {
    /// The modifier magnitude in force. None when no modifier is declared at
    /// all, which is a different fact from a declared zero.
    pub open spec fn modifier(self) -> Option<i128> {
        match first_of(self.open, of_kind(IntervalKind::Modifier)) {
            Some(interval) => interval.magnitude,
            None => None,
        }
    }
}

impl Default for IntervalState {
    fn default() -> (state: Self)
        ensures
            state@ == (IntervalsView { open: Seq::empty(), context_id: None }),
    {
        let state = IntervalState { open: Vec::new(), context_id: None };
        assert(state@.open =~= Seq::empty());
        state
    }
}

impl IntervalState {
    /// A state read back from its open intervals and their context.
    pub fn restored(open: Vec<OpenInterval>, context_id: Option<i64>) -> (state: Self)
        ensures
            state@ == (IntervalsView { open: text::views(open@), context_id }),
    {
        IntervalState { open, context_id }
    }

    /// The context every event written right now stamps. None only before the
    /// session's opening context has been minted.
    pub fn context_id(&self) -> (context: Option<i64>)
        ensures
            context == self@.context_id,
    {
        self.context_id
    }

    /// Whether an interval with this id is open.
    pub fn is_open(&self, id: i64) -> (yes: bool)
        ensures
            yes == interval_ids(self@.open).contains(id),
    {
        let ghost ids = interval_ids(self@.open);
        let mut i: usize = 0;
        while i < self.open.len()
            invariant
                i <= self.open.len(),
                ids == interval_ids(text::views(self.open@)),
                forall|j: int| 0 <= j < i ==> ids[j] != id,
            decreases self.open.len() - i,
        {
            assert(ids[i as int] == self.open@[i as int].id);
            if self.open[i].id == id {
                return true;
            }
            i += 1;
        }
        false
    }

    /// The open interval of a kind that admits only one at a time.
    pub fn open_of_kind(&self, kind: IntervalKind) -> (found: Option<&OpenInterval>)
        ensures
            text::opt_view(found) == first_of(self@.open, of_kind(kind)),
    {
        let ghost all = self@.open;
        let ghost test = of_kind(kind);
        let mut i: usize = 0;
        assert(all.skip(0) =~= all);
        while i < self.open.len()
            invariant
                i <= self.open.len(),
                all == text::views(self.open@),
                test == of_kind(kind),
                first_of(all, test) == first_of(all.skip(i as int), test),
            decreases self.open.len() - i,
        {
            assert(all.skip(i as int)[0] == self.open@[i as int]@);
            if self.open[i].kind == kind {
                return Some(&self.open[i]);
            }
            assert(all.skip(i as int).skip(1) =~= all.skip(i as int + 1));
            i += 1;
        }
        None
    }

    /// Every open interval of any of these kinds, in the order it was opened:
    /// opening order keeps a chip from jumping when another activity joins it.
    pub fn open_of_kinds(&self, kinds: &Vec<IntervalKind>) -> (found: Vec<OpenInterval>)
        ensures
            text::views(found@) == self@.open.filter(of_kinds(kinds@)),
    {
        let ghost all = self@.open;
        let ghost keep = of_kinds(kinds@);
        let mut found: Vec<OpenInterval> = Vec::new();
        let mut i: usize = 0;
        proof {
            lists::filter_none(all, keep);
        }
        while i < self.open.len()
            invariant
                i <= self.open.len(),
                all == text::views(self.open@),
                keep == of_kinds(kinds@),
                text::views(found@) =~= all.take(i as int).filter(keep),
            decreases self.open.len() - i,
        {
            proof {
                lists::filter_step(all, i as int, keep);
                assert(all[i as int] == self.open@[i as int]@);
            }
            if holds_kind(kinds, self.open[i].kind) {
                found.push(self.open[i].clone());
            }
            i += 1;
        }
        proof {
            lists::filter_all(all, keep);
        }
        found
    }

    /// The open interval of a stacking kind that points at `ref_id`.
    pub fn open_of_ref(&self, kind: IntervalKind, ref_id: i64) -> (found: Option<&OpenInterval>)
        ensures
            text::opt_view(found) == first_of(self@.open, of_ref(kind, ref_id)),
    {
        let ghost all = self@.open;
        let ghost test = of_ref(kind, ref_id);
        let mut i: usize = 0;
        assert(all.skip(0) =~= all);
        while i < self.open.len()
            invariant
                i <= self.open.len(),
                all == text::views(self.open@),
                test == of_ref(kind, ref_id),
                first_of(all, test) == first_of(all.skip(i as int), test),
            decreases self.open.len() - i,
        {
            assert(all.skip(i as int)[0] == self.open@[i as int]@);
            let points: bool = match self.open[i].ref_id {
                Some(id) => id == ref_id,
                None => false,
            };
            if self.open[i].kind == kind && points {
                return Some(&self.open[i]);
            }
            assert(all.skip(i as int).skip(1) =~= all.skip(i as int + 1));
            i += 1;
        }
        None
    }

    /// The open interval of a kind carrying this label, compared
    /// case-insensitively: how a segment activity is identified, since a
    /// segment carries no reference of its own.
    pub fn open_of_label(&self, kind: IntervalKind, label: &str) -> (found: Option<&OpenInterval>)
        ensures
            text::opt_view(found) == first_of(self@.open, of_label(kind, label@)),
    {
        let ghost all = self@.open;
        let ghost test = of_label(kind, label@);
        let mut i: usize = 0;
        assert(all.skip(0) =~= all);
        while i < self.open.len()
            invariant
                i <= self.open.len(),
                all == text::views(self.open@),
                test == of_label(kind, label@),
                first_of(all, test) == first_of(all.skip(i as int), test),
            decreases self.open.len() - i,
        {
            assert(all.skip(i as int)[0] == self.open@[i as int]@);
            let named: bool = match &self.open[i].label {
                Some(open) => eq_ignore_ascii_case(open.as_str(), label),
                None => false,
            };
            if self.open[i].kind == kind && named {
                return Some(&self.open[i]);
            }
            assert(all.skip(i as int).skip(1) =~= all.skip(i as int + 1));
            i += 1;
        }
        None
    }

    /// The modifier magnitude in force. None when no modifier is declared at
    /// all, which is a different fact from a declared zero.
    pub fn modifier_magnitude(&self) -> (magnitude: Option<i128>)
        ensures
            magnitude == self@.modifier(),
    {
        match self.open_of_kind(IntervalKind::Modifier) {
            Some(interval) => interval.magnitude,
            None => None,
        }
    }

    fn ids_without(&self, ids: &Vec<i64>) -> (kept: Vec<i64>)
        ensures
            kept@ == interval_ids(self@.without(ids@)),
    {
        let ghost all = self@.open;
        let ghost keep = not_among(ids@);
        let mut kept: Vec<i64> = Vec::new();
        let mut i: usize = 0;
        proof {
            lists::filter_none(all, keep);
        }
        while i < self.open.len()
            invariant
                i <= self.open.len(),
                all == text::views(self.open@),
                keep == not_among(ids@),
                kept@ =~= interval_ids(all.take(i as int).filter(keep)),
            decreases self.open.len() - i,
        {
            let ghost had = all.take(i as int).filter(keep);
            proof {
                lists::filter_step(all, i as int, keep);
                assert(all[i as int] == self.open@[i as int]@);
                assert(interval_ids(had.push(all[i as int])) =~= interval_ids(had).push(
                    all[i as int].id,
                ));
            }
            if !holds_id(ids, self.open[i].id) {
                kept.push(self.open[i].id);
            }
            i += 1;
        }
        proof {
            lists::filter_all(all, keep);
        }
        kept
    }

    fn sealed_ids(&self, opened: &IntervalSpec) -> (ids: Vec<i64>)
        ensures
            ids@ == self@.sealing(*opened),
    {
        let ghost all = self@.open;
        let ghost keep = sealed_by(opened.closes, opened.kind);
        let mut ids: Vec<i64> = Vec::new();
        let mut i: usize = 0;
        proof {
            lists::filter_none(all, keep);
        }
        while i < self.open.len()
            invariant
                i <= self.open.len(),
                all == text::views(self.open@),
                keep == sealed_by(opened.closes, opened.kind),
                ids@ =~= interval_ids(all.take(i as int).filter(keep)),
            decreases self.open.len() - i,
        {
            let ghost had = all.take(i as int).filter(keep);
            proof {
                lists::filter_step(all, i as int, keep);
                assert(all[i as int] == self.open@[i as int]@);
                assert(interval_ids(had.push(all[i as int])) =~= interval_ids(had).push(
                    all[i as int].id,
                ));
            }
            if opened.closes.seals(opened.kind, self.open[i].kind) {
                ids.push(self.open[i].id);
            }
            i += 1;
        }
        proof {
            lists::filter_all(all, keep);
        }
        ids
    }

    fn matching_ids(&self, target: &CloseTarget) -> (ids: Vec<i64>)
        ensures
            ids@ == self@.picked(target.test()),
    {
        let ghost all = self@.open;
        let ghost keep = target.test();
        let mut ids: Vec<i64> = Vec::new();
        let mut i: usize = 0;
        proof {
            lists::filter_none(all, keep);
        }
        while i < self.open.len()
            invariant
                i <= self.open.len(),
                all == text::views(self.open@),
                keep == target.test(),
                ids@ =~= interval_ids(all.take(i as int).filter(keep)),
            decreases self.open.len() - i,
        {
            let ghost had = all.take(i as int).filter(keep);
            proof {
                lists::filter_step(all, i as int, keep);
                assert(all[i as int] == self.open@[i as int]@);
                assert(interval_ids(had.push(all[i as int])) =~= interval_ids(had).push(
                    all[i as int].id,
                ));
            }
            if target.ends(&self.open[i]) {
                ids.push(self.open[i].id);
            }
            i += 1;
        }
        proof {
            lists::filter_all(all, keep);
        }
        ids
    }

    /// The rows opening this interval ends, and those that stay in the
    /// context it mints beside it.
    pub fn plan_open(&self, opened: &IntervalSpec) -> (write: IntervalWrite)
        ensures
            write.ends@ == self@.sealing(*opened),
            write.keeps@ == interval_ids(self@.without(self@.sealing(*opened))),
    {
        let ends = self.sealed_ids(opened);
        let keeps = self.ids_without(&ends);
        IntervalWrite { ends, keeps }
    }

    /// The rows this close ends, and those that stay in the narrower context
    /// it mints. None when it ends nothing: there is then nothing to write.
    pub fn plan_close(&self, target: &CloseTarget) -> (write: Option<IntervalWrite>)
        ensures
            match write {
                Some(write) => {
                    &&& write.ends@ == self@.picked(target.test())
                    &&& write.ends@.len() > 0
                    &&& write.keeps@ == interval_ids(
                        self@.without(self@.picked(target.test())),
                    )
                },
                None => self@.picked(target.test()).len() == 0,
            },
    {
        let ends = self.matching_ids(target);
        if ends.len() == 0 {
            None
        } else {
            let keeps = self.ids_without(&ends);
            Some(IntervalWrite { ends, keeps })
        }
    }

    /// The rows a change ends and keeps that closes these ids and may open an
    /// interval beside.
    pub fn plan_transition(&self, close: &Vec<i64>) -> (write: IntervalWrite)
        ensures
            write.ends@ == close@,
            write.keeps@ == interval_ids(self@.without(close@)),
    {
        let keeps = self.ids_without(close);
        let mut ends: Vec<i64> = Vec::new();
        let mut i: usize = 0;
        while i < close.len()
            invariant
                i <= close.len(),
                ends@ =~= close@.take(i as int),
            decreases close.len() - i,
        {
            ends.push(close[i]);
            i += 1;
        }
        IntervalWrite { ends, keeps }
    }

    fn split(&mut self, ids: &Vec<i64>) -> (closed: Vec<OpenInterval>)
        ensures
            text::views(closed@) == old(self)@.open.filter(among(ids@)),
            final(self)@ == (IntervalsView {
                open: old(self)@.without(ids@),
                context_id: old(self)@.context_id,
            }),
    {
        let ghost all = self@.open;
        let ghost ends = among(ids@);
        let ghost stays = not_among(ids@);
        let mut closed: Vec<OpenInterval> = Vec::new();
        let mut keeping: Vec<OpenInterval> = Vec::new();
        let mut i: usize = 0;
        proof {
            lists::filter_none(all, ends);
            lists::filter_none(all, stays);
        }
        while i < self.open.len()
            invariant
                i <= self.open.len(),
                all == text::views(self.open@),
                ends == among(ids@),
                stays == not_among(ids@),
                text::views(closed@) =~= all.take(i as int).filter(ends),
                text::views(keeping@) =~= all.take(i as int).filter(stays),
                self.context_id == old(self).context_id,
            decreases self.open.len() - i,
        {
            proof {
                lists::filter_step(all, i as int, ends);
                lists::filter_step(all, i as int, stays);
                assert(all[i as int] == self.open@[i as int]@);
            }
            let interval = self.open[i].clone();
            if holds_id(ids, interval.id) {
                closed.push(interval);
            } else {
                keeping.push(interval);
            }
            i += 1;
        }
        proof {
            lists::filter_all(all, ends);
            lists::filter_all(all, stays);
        }
        self.open = keeping;
        closed
    }

    /// Adopt the session's opening context: the empty set. An event stamped
    /// with it was recorded with nothing declared. `written` is what minting
    /// the context answered; a failure changes nothing.
    pub fn open_session<E>(&mut self, written: Result<i64, E>) -> (outcome: Result<(), E>)
        ensures
            match written {
                Ok(context_id) => outcome == Ok::<(), E>(()) && final(self)@ == (IntervalsView {
                    open: Seq::empty(),
                    context_id: Some(context_id),
                }),
                Err(error) => outcome == Err::<(), E>(error) && *final(self) == *old(self),
            },
    {
        match written {
            Ok(context_id) => {
                self.open = Vec::new();
                self.context_id = Some(context_id);
                assert(self@.open =~= Seq::empty());
                Ok(())
            },
            Err(error) => Err(error),
        }
    }

    /// Open an interval and adopt the context that includes it.
    ///
    /// The scope of `opened` seals the standing intervals it names first, in
    /// the same motion: declaring a new modifier replaces the standing one
    /// rather than stacking a second silently. `written` is the interval id
    /// and the context id the transaction answered; a failure leaves the live
    /// set exactly as it was, so events keep stamping a context that still
    /// describes them.
    pub fn open_interval<E>(&mut self, opened: IntervalSpec, written: Result<(i64, i64), E>) -> (
    outcome: Result<i64, E>)
        ensures
            match written {
                Ok((interval_id, context_id)) => outcome == Ok::<i64, E>(interval_id)
                    && final(self)@ == old(self)@.transitioned(
                    old(self)@.sealing(opened),
                    Some(interval_of(opened, interval_id)),
                    context_id,
                ),
                Err(error) => outcome == Err::<i64, E>(error) && *final(self) == *old(self),
            },
    {
        match written {
            Ok((interval_id, context_id)) => {
                let closing = self.sealed_ids(&opened);
                let _ = self.split(&closing);
                let ghost rest = self@.open;
                self.open.push(
                    OpenInterval {
                        id: interval_id,
                        kind: opened.kind,
                        label: opened.label,
                        ref_id: opened.ref_id,
                        magnitude: opened.magnitude,
                    },
                );
                self.context_id = Some(context_id);
                assert(self@.open =~= rest.push(interval_of(opened, interval_id)));
                Ok(interval_id)
            },
            Err(error) => Err(error),
        }
    }

    /// Close these ids and, when one opens, open an interval beside what
    /// stays: one change, one context. `written` is the opened interval's id
    /// and the context id; a failure changes nothing.
    pub fn transition<E>(
        &mut self,
        close: &Vec<i64>,
        opened: Option<IntervalSpec>,
        written: Result<(i64, i64), E>,
    ) -> (outcome: Result<Option<i64>, E>)
        ensures
            match written {
                Ok((interval_id, context_id)) => match opened {
                    Some(opened) => outcome == Ok::<Option<i64>, E>(Some(interval_id))
                        && final(self)@ == old(self)@.transitioned(
                        close@,
                        Some(interval_of(opened, interval_id)),
                        context_id,
                    ),
                    None => outcome == Ok::<Option<i64>, E>(None) && final(self)@
                        == old(self)@.transitioned(close@, None, context_id),
                },
                Err(error) => outcome == Err::<Option<i64>, E>(error) && *final(self)
                    == *old(self),
            },
    {
        match written {
            Ok((interval_id, context_id)) => {
                let _ = self.split(close);
                let ghost rest = self@.open;
                self.context_id = Some(context_id);
                match opened {
                    Some(opened) => {
                        self.open.push(
                            OpenInterval {
                                id: interval_id,
                                kind: opened.kind,
                                label: opened.label,
                                ref_id: opened.ref_id,
                                magnitude: opened.magnitude,
                            },
                        );
                        assert(self@.open =~= rest.push(interval_of(opened, interval_id)));
                        Ok(Some(interval_id))
                    },
                    None => Ok(None),
                }
            },
            Err(error) => Err(error),
        }
    }

    /// The shared close transition: end the matching intervals and adopt the
    /// narrower context. Nothing to end is no write at all; a failed write
    /// leaves the standing set and its context untouched. Returns what was
    /// closed.
    pub fn close_matching<E>(&mut self, target: &CloseTarget, written: Result<i64, E>) -> (outcome:
        Result<Vec<OpenInterval>, E>)
        ensures
            ({
                let closing = old(self)@.picked(target.test());
                if closing.len() == 0 {
                    outcome is Ok && outcome->Ok_0@.len() == 0 && *final(self) == *old(self)
                } else {
                    match written {
                        Ok(context_id) => {
                            &&& outcome is Ok
                            &&& text::views(outcome->Ok_0@) == old(self)@.open.filter(
                                among(closing),
                            )
                            &&& final(self)@ == old(self)@.transitioned(closing, None, context_id)
                        },
                        Err(error) => outcome == Err::<Vec<OpenInterval>, E>(error)
                            && *final(self) == *old(self),
                    }
                }
            }),
    {
        let closing = self.matching_ids(target);
        if closing.len() == 0 {
            return Ok(Vec::new());
        }
        match written {
            Ok(context_id) => {
                let closed = self.split(&closing);
                self.context_id = Some(context_id);
                Ok(closed)
            },
            Err(error) => Err(error),
        }
    }

    /// Close every open interval of a kind and adopt the narrower context.
    /// Returns what was closed.
    pub fn close_kind<E>(&mut self, kind: IntervalKind, written: Result<i64, E>) -> (outcome: Result<
        Vec<OpenInterval>,
        E,
    >)
        ensures
            closes_as(
                old(self)@,
                final(self)@,
                CloseTarget::Kind(kind).test(),
                result_of(written),
                outcome is Ok,
            ),
            outcome is Ok ==> closed_as(
                old(self)@,
                CloseTarget::Kind(kind).test(),
                text::views(outcome->Ok_0@),
            ),
            outcome is Err ==> written is Err && outcome->Err_0 == written->Err_0,
    {
        let target = CloseTarget::Kind(kind);
        let outcome = self.close_matching(&target, written);
        proof {
            closed_nothing(old(self)@, target.test());
            if outcome is Ok && outcome->Ok_0@.len() == 0 {
                assert(text::views(outcome->Ok_0@) =~= Seq::empty());
            }
        }
        outcome
    }

    /// Close the open interval of a kind that points at `ref_id`, and adopt
    /// the narrower context: a stacking kind ends one member at a time, so
    /// finishing one quest does not end the others. Returns what was closed.
    pub fn close_ref<E>(&mut self, kind: IntervalKind, ref_id: i64, written: Result<i64, E>) -> (
    outcome: Result<Vec<OpenInterval>, E>)
        ensures
            closes_as(
                old(self)@,
                final(self)@,
                CloseTarget::Ref(kind, ref_id).test(),
                result_of(written),
                outcome is Ok,
            ),
            outcome is Ok ==> closed_as(
                old(self)@,
                CloseTarget::Ref(kind, ref_id).test(),
                text::views(outcome->Ok_0@),
            ),
            outcome is Err ==> written is Err && outcome->Err_0 == written->Err_0,
    {
        let target = CloseTarget::Ref(kind, ref_id);
        let outcome = self.close_matching(&target, written);
        proof {
            closed_nothing(old(self)@, target.test());
            if outcome is Ok && outcome->Ok_0@.len() == 0 {
                assert(text::views(outcome->Ok_0@) =~= Seq::empty());
            }
        }
        outcome
    }

    /// Close specific open intervals by id, and adopt the narrower context:
    /// how a kind without a reference of its own ends exactly the one the
    /// user named.
    pub fn close_ids<E>(&mut self, ids: Vec<i64>, written: Result<i64, E>) -> (outcome: Result<
        Vec<OpenInterval>,
        E,
    >)
        ensures
            closes_as(
                old(self)@,
                final(self)@,
                CloseTarget::Ids(ids).test(),
                result_of(written),
                outcome is Ok,
            ),
            outcome is Ok ==> closed_as(
                old(self)@,
                CloseTarget::Ids(ids).test(),
                text::views(outcome->Ok_0@),
            ),
            outcome is Err ==> written is Err && outcome->Err_0 == written->Err_0,
    {
        let target = CloseTarget::Ids(ids);
        let outcome = self.close_matching(&target, written);
        proof {
            closed_nothing(old(self)@, target.test());
            if outcome is Ok && outcome->Ok_0@.len() == 0 {
                assert(text::views(outcome->Ok_0@) =~= Seq::empty());
            }
        }
        outcome
    }

    /// Close every open interval of these kinds except the one with
    /// `keep_id`, and adopt the narrower context: the exclusive switch onto an
    /// activity that is already standing, whose stretch survives intact.
    pub fn close_kinds_except_id<E>(
        &mut self,
        kinds: Vec<IntervalKind>,
        keep_id: i64,
        written: Result<i64, E>,
    ) -> (outcome: Result<Vec<OpenInterval>, E>)
        ensures
            closes_as(
                old(self)@,
                final(self)@,
                CloseTarget::KindsExceptId(kinds, keep_id).test(),
                result_of(written),
                outcome is Ok,
            ),
            outcome is Ok ==> closed_as(
                old(self)@,
                CloseTarget::KindsExceptId(kinds, keep_id).test(),
                text::views(outcome->Ok_0@),
            ),
            outcome is Err ==> written is Err && outcome->Err_0 == written->Err_0,
    {
        let target = CloseTarget::KindsExceptId(kinds, keep_id);
        let outcome = self.close_matching(&target, written);
        proof {
            closed_nothing(old(self)@, target.test());
            if outcome is Ok && outcome->Ok_0@.len() == 0 {
                assert(text::views(outcome->Ok_0@) =~= Seq::empty());
            }
        }
        outcome
    }

    /// The rows still open at the session's end.
    pub fn plan_close_session(&self) -> (ids: Vec<i64>)
        ensures
            ids@ == interval_ids(self@.open),
    {
        let mut ids: Vec<i64> = Vec::new();
        let mut i: usize = 0;
        while i < self.open.len()
            invariant
                i <= self.open.len(),
                ids.len() == i,
                forall|j: int| 0 <= j < i ==> ids@[j] == (#[trigger] self.open@[j]).id,
            decreases self.open.len() - i,
        {
            ids.push(self.open[i].id);
            i += 1;
        }
        assert(ids@ =~= interval_ids(self@.open));
        ids
    }

    /// Close everything still open at the session's end, so no interval
    /// outlives the session that owns it. A failed write changes nothing.
    pub fn close_session<E>(&mut self, written: Result<(), E>) -> (outcome: Result<(), E>)
        ensures
            match written {
                Ok(_) => outcome == Ok::<(), E>(()) && final(self)@ == (IntervalsView {
                    open: Seq::empty(),
                    context_id: None,
                }),
                Err(error) => outcome == Err::<(), E>(error) && *final(self) == *old(self),
            },
    {
        match written {
            Ok(_) => {
                self.open = Vec::new();
                self.context_id = None;
                assert(self@.open =~= Seq::empty());
                Ok(())
            },
            Err(error) => Err(error),
        }
    }
}

/// What a write answered, without its error.
pub open spec fn result_of<E>(written: Result<i64, E>) -> Option<i64> {
    match written {
        Ok(context_id) => Some(context_id),
        Err(_) => None,
    }
}

/// What a close does: with nothing to end, nothing; with a context answered,
/// the picked intervals end under it; with the write failed, nothing.
pub open spec fn closes_as(
    before: IntervalsView,
    after: IntervalsView,
    test: spec_fn(IntervalView) -> bool,
    answered: Option<i64>,
    succeeded: bool,
) -> bool {
    let closing = before.picked(test);
    if closing.len() == 0 {
        succeeded && after == before
    } else {
        match answered {
            Some(context_id) => succeeded && after == before.transitioned(
                closing,
                None,
                context_id,
            ),
            None => !succeeded && after == before,
        }
    }
}

/// What a close returns: the intervals whose ids it ended, in opening order.
pub open spec fn closed_as(
    before: IntervalsView,
    test: spec_fn(IntervalView) -> bool,
    closed: Seq<IntervalView>,
) -> bool {
    closed == before.open.filter(among(before.picked(test)))
}

/// Nothing picked, nothing closed.
proof fn closed_nothing(state: IntervalsView, test: spec_fn(IntervalView) -> bool)
    ensures
        state.picked(test).len() == 0 ==> state.open.filter(among(state.picked(test))) == Seq::<
            IntervalView,
        >::empty(),
{
    let ids = state.picked(test);
    if ids.len() == 0 {
        lists::filter_kept(state.open, among(ids));
        let closed = state.open.filter(among(ids));
        if closed.len() > 0 {
            assert(among(ids)(closed[0]));
        }
        assert(closed =~= Seq::empty());
    }
}

} // verus!
