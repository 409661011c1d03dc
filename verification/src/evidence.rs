//! Stored weapon evidence.
//!
//! Most shots agree with the declared weapon and live only in the kill's
//! per-weapon phases. The shots worth keeping individually are the ones a
//! player may want to see or correct: evidence that overrode a declared
//! weapon, shots left unpriced, and effect ticks. Their rows are buffered
//! with the kill accumulator and written with the kill they settle into (or
//! with the session's stop, for shots after its last kill), so a row exists
//! exactly when its shot's cost does.

use crate::attribution::{
    Attribution, AttributionKind, AttributionView, Observation, Resolved, ResolvedView, WeaponView,
};
use crate::ids;
use crate::ids::fresh_id;
use crate::regime::{AttributionRuntime, RuntimeView};
use crate::text;
use crate::text::{copy_optional, copy_texts, holds_text};
use crate::units::Ped;
use vstd::prelude::*;

verus! {

/// What the player decided about a standing mismatch.
#[derive(Clone, Copy, Debug, PartialEq, Eq, Structural)]
pub enum MismatchDecision {
    /// The evidence is right: record the evidence weapon from now, and
    /// reprice the regime's shots it plausibly fired.
    Confirm,
    /// The hotbar is right: reprice the evidence shots back to the declared
    /// weapon, and stop that weapon's evidence overriding it this regime.
    Keep,
}

impl MismatchDecision {
    /// The word a stored review carries.
    pub open spec fn word(self) -> Seq<char> {
        match self {
            MismatchDecision::Confirm => "confirmed"@,
            MismatchDecision::Keep => "kept"@,
        }
    }

    /// The word a stored review carries.
    pub fn as_str(self) -> (word: &'static str)
        ensures
            word@ == self.word(),
    {
        match self {
            MismatchDecision::Confirm => "confirmed",
            MismatchDecision::Keep => "kept",
        }
    }

    /// The two words differ.
    pub proof fn words_differ(a: Self, b: Self)
        ensures
            a.word() == b.word() ==> a == b,
    {
        reveal_strlit("confirmed");
        reveal_strlit("kept");
        assert("confirmed"@.len() == 9 && "kept"@.len() == 4);
    }
}

/// Why a mismatch decision could not be made.
#[derive(Clone, Copy, Debug, PartialEq, Eq, Structural)]
pub enum WeaponDecisionError {
    NoActiveSession,
    NotSaved,
}

impl WeaponDecisionError {
    /// The words shown for it.
    pub fn message(&self) -> (words: &'static str)
        ensures
            words@ == (match self {
                WeaponDecisionError::NoActiveSession => "No active session"@,
                WeaponDecisionError::NotSaved => "The decision could not be saved; nothing changed"@,
            }),
    {
        match self {
            WeaponDecisionError::NoActiveSession => "No active session",
            WeaponDecisionError::NotSaved => "The decision could not be saved; nothing changed",
        }
    }
}

/// One carried weapon as a stored row offers it for review.
#[derive(Debug, PartialEq, Eq)]
pub struct Candidate {
    pub equipment_id: i64,
    pub name: String,
    pub fits: bool,
}

/// A candidate as contracts read it.
pub struct CandidateView {
    pub equipment_id: i64,
    pub name: Seq<char>,
    pub fits: bool,
}

impl View for Candidate {
    type V = CandidateView;

    open spec fn view(&self) -> CandidateView {
        CandidateView { equipment_id: self.equipment_id, name: self.name@, fits: self.fits }
    }
}

/// One stored shot.
#[derive(Debug, PartialEq, Eq)]
pub struct ShotEvidence {
    pub id: String,
    pub session_id: String,
    pub context_id: Option<i64>,
    pub observed_at: i64,
    /// None for a countered shot.
    pub amount: Option<i64>,
    pub critical: bool,
    pub kind: AttributionKind,
    /// The weapon the hotbar declared at the time.
    pub hotbar_tool: Option<String>,
    /// The weapon the shot is priced to; None while unpriced.
    pub tool_name: Option<String>,
    pub cost_per_shot: Ped,
    pub candidates: Vec<Candidate>,
    pub reason: String,
    /// The window that alone explains a tick.
    pub effect_window_id: Option<String>,
    /// Every open window that could explain the shot.
    pub effect_candidates: Vec<String>,
    pub review_id: Option<String>,
}

/// A stored shot as contracts read it.
#[verifier::ext_equal]
pub struct EvidenceView {
    pub id: Seq<char>,
    pub session_id: Seq<char>,
    pub context_id: Option<i64>,
    pub observed_at: i64,
    pub amount: Option<i64>,
    pub critical: bool,
    pub kind: AttributionKind,
    pub hotbar_tool: Option<Seq<char>>,
    pub tool_name: Option<Seq<char>>,
    pub cost_per_shot: Ped,
    pub candidates: Seq<CandidateView>,
    pub reason: Seq<char>,
    pub effect_window_id: Option<Seq<char>>,
    pub effect_candidates: Seq<Seq<char>>,
    pub review_id: Option<Seq<char>>,
}

impl View for ShotEvidence {
    type V = EvidenceView;

    open spec fn view(&self) -> EvidenceView {
        EvidenceView {
            id: self.id@,
            session_id: self.session_id@,
            context_id: self.context_id,
            observed_at: self.observed_at,
            amount: self.amount,
            critical: self.critical,
            kind: self.kind,
            hotbar_tool: text::opt_view(self.hotbar_tool),
            tool_name: text::opt_view(self.tool_name),
            cost_per_shot: self.cost_per_shot,
            candidates: text::views(self.candidates@),
            reason: self.reason@,
            effect_window_id: text::opt_view(self.effect_window_id),
            effect_candidates: text::views(self.effect_candidates@),
            review_id: text::opt_view(self.review_id),
        }
    }
}

impl Clone for ShotEvidence {
    fn clone(&self) -> (copy: Self)
        ensures
            copy@ == self@,
    {
        let mut candidates: Vec<Candidate> = Vec::new();
        let mut i: usize = 0;
        while i < self.candidates.len()
            invariant
                i <= self.candidates.len(),
                candidates.len() == i,
                forall|j: int|
                    0 <= j < i ==> (#[trigger] candidates@[j])@ == self.candidates@[j]@,
            decreases self.candidates.len() - i,
        {
            let candidate = &self.candidates[i];
            candidates.push(
                Candidate {
                    equipment_id: candidate.equipment_id,
                    name: candidate.name.clone(),
                    fits: candidate.fits,
                },
            );
            i += 1;
        }
        assert(text::views(candidates@) =~= text::views(self.candidates@));
        ShotEvidence {
            id: self.id.clone(),
            session_id: self.session_id.clone(),
            context_id: self.context_id,
            observed_at: self.observed_at,
            amount: self.amount,
            critical: self.critical,
            kind: self.kind,
            hotbar_tool: copy_optional(&self.hotbar_tool),
            tool_name: copy_optional(&self.tool_name),
            cost_per_shot: self.cost_per_shot,
            candidates,
            reason: self.reason.clone(),
            effect_window_id: copy_optional(&self.effect_window_id),
            effect_candidates: copy_texts(&self.effect_candidates),
            review_id: copy_optional(&self.review_id),
        }
    }
}

/// A copy of a list of stored shots.
pub fn copy_rows(rows: &Vec<ShotEvidence>) -> (copy: Vec<ShotEvidence>)
    ensures
        text::views(copy@) == text::views(rows@),
{
    let mut copy: Vec<ShotEvidence> = Vec::new();
    let mut i: usize = 0;
    while i < rows.len()
        invariant
            i <= rows.len(),
            copy.len() == i,
            forall|j: int| 0 <= j < i ==> (#[trigger] copy@[j])@ == rows@[j]@,
        decreases rows.len() - i,
    {
        copy.push(rows[i].clone());
        i += 1;
    }
    assert(text::views(copy@) =~= text::views(rows@));
    copy
}

/// The carried weapons as a row offers them: a countered shot fits none.
pub open spec fn offered(
    carried: Seq<WeaponView>,
    fits: Seq<Seq<char>>,
    landed: bool,
) -> Seq<CandidateView> {
    Seq::new(
        carried.len(),
        |i: int|
            CandidateView {
                equipment_id: carried[i].equipment_id,
                name: carried[i].name,
                fits: landed && fits.contains(carried[i].name),
            },
    )
}

/// The row of a shot, under an id.
pub open spec fn row_of(
    id: Seq<char>,
    session_id: Seq<char>,
    context_id: Option<i64>,
    runtime: RuntimeView,
    observation: Observation,
    observed_at: i64,
    resolved: ResolvedView,
    tool_name: Option<Seq<char>>,
    cost_per_shot: Ped,
) -> EvidenceView {
    EvidenceView {
        id,
        session_id,
        context_id,
        observed_at,
        amount: match observation {
            Observation::Hit { amount, .. } => Some(amount),
            Observation::Countered => None,
        },
        critical: observation.is_critical(),
        kind: resolved.attribution.kind(),
        hotbar_tool: runtime.declared,
        tool_name,
        cost_per_shot,
        candidates: offered(runtime.carried, resolved.fits, observation is Hit),
        reason: resolved.reason,
        effect_window_id: match resolved.attribution {
            AttributionView::EffectTick { window_id } => window_id,
            _ => None,
        },
        effect_candidates: resolved.windows,
        review_id: None,
    }
}

/// Whether a shot's state keeps a stored row. Agreement is the silent
/// default, and evidence with nothing declared is simply how shots are
/// attributed without the hotbar listener: neither is worth a row per shot.
pub open spec fn row_kept(attribution: AttributionView, declared: bool) -> bool {
    match attribution {
        AttributionView::Agrees { .. } => false,
        AttributionView::Evidence { .. } => declared,
        _ => true,
    }
}

impl ShotEvidence {
    /// Whether a shot's state keeps a stored row: evidence that overrode a
    /// declared weapon, an unpriced shot, and an effect tick do.
    pub fn keeps_row(attribution: &Attribution, runtime: &AttributionRuntime) -> (keeps: bool)
        ensures
            keeps == row_kept(attribution@, runtime@.declared is Some),
    {
        match attribution {
            Attribution::Agrees { .. } => false,
            Attribution::Evidence { .. } => runtime.declared().is_some(),
            Attribution::Unresolved => true,
            Attribution::EffectTick { .. } => true,
        }
    }

    /// The row of a shot under a given id.
    pub fn with_id(
        id: String,
        session_id: &str,
        context_id: Option<i64>,
        runtime: &AttributionRuntime,
        observation: Observation,
        observed_at: i64,
        resolved: &Resolved,
        tool_name: Option<String>,
        cost_per_shot: Ped,
    ) -> (row: Self)
        ensures
            row@ == row_of(
                id@,
                session_id@,
                context_id,
                runtime@,
                observation,
                observed_at,
                resolved@,
                text::opt_view(tool_name),
                cost_per_shot,
            ),
    {
        let (amount, critical): (Option<i64>, bool) = match observation {
            Observation::Hit { amount, critical } => (Some(amount), critical),
            Observation::Countered => (None, false),
        };
        let carried = runtime.carried();
        let mut candidates: Vec<Candidate> = Vec::new();
        let mut i: usize = 0;
        while i < carried.len()
            invariant
                i <= carried.len(),
                candidates.len() == i,
                text::views(carried@) == runtime@.carried,
                amount is Some == observation is Hit,
                forall|j: int|
                    0 <= j < i ==> (#[trigger] candidates@[j])@ == offered(
                        runtime@.carried,
                        resolved@.fits,
                        observation is Hit,
                    )[j],
            decreases carried.len() - i,
        {
            let weapon = &carried[i];
            assert(runtime@.carried[i as int] == weapon@);
            candidates.push(
                Candidate {
                    equipment_id: weapon.equipment_id,
                    name: weapon.name.clone(),
                    fits: amount.is_some() && holds_text(&resolved.fits, weapon.name.as_str()),
                },
            );
            i += 1;
        }
        assert(text::views(candidates@) =~= offered(
            runtime@.carried,
            resolved@.fits,
            observation is Hit,
        ));
        let effect_window_id: Option<String> = match &resolved.attribution {
            Attribution::EffectTick { window_id } => copy_optional(window_id),
            _ => None,
        };
        let hotbar_tool: Option<String> = match runtime.declared() {
            Some(tool) => Some(tool.to_owned()),
            None => None,
        };
        ShotEvidence {
            id,
            session_id: session_id.to_owned(),
            context_id,
            observed_at,
            amount,
            critical,
            kind: resolved.attribution.kind(),
            hotbar_tool,
            tool_name,
            cost_per_shot,
            candidates,
            reason: resolved.reason.clone(),
            effect_window_id,
            effect_candidates: copy_texts(&resolved.windows),
            review_id: None,
        }
    }

    /// The row of a shot, under a fresh id.
    pub fn for_shot(
        session_id: &str,
        context_id: Option<i64>,
        runtime: &AttributionRuntime,
        observation: Observation,
        observed_at: i64,
        resolved: &Resolved,
        tool_name: Option<String>,
        cost_per_shot: Ped,
    ) -> (row: Self)
        ensures
            ids::id_shape(row.id@),
            row@ == row_of(
                row.id@,
                session_id@,
                context_id,
                runtime@,
                observation,
                observed_at,
                resolved@,
                text::opt_view(tool_name),
                cost_per_shot,
            ),
    {
        Self::with_id(
            fresh_id(),
            session_id,
            context_id,
            runtime,
            observation,
            observed_at,
            resolved,
            tool_name,
            cost_per_shot,
        )
    }
}

} // verus!
