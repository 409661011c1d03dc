//! The live session: everything that exists exactly while a session runs.
//!
//! It is built when a session starts and dropped wholesale when it stops, so
//! no session-scoped field can leak into idle state or arrive stale in the
//! next session.

use crate::activities;
use crate::activities::{row_boost, usable_boost};
use crate::attribution::{WeaponView, WindowView};
use crate::enhancers::DamageEnhancerState;
use crate::evidence::{EvidenceView, ShotEvidence};
use crate::harvest::GuardrailMismatch;
use crate::healing::HealingRuntime;
use crate::intervals::IntervalState;
use crate::phases;
use crate::phases::{have_room, weapon_cost, HuntingLooterLevels, PhasesView, ToolStats};
use crate::records::{DeclaredMob, TrackingSession};
use crate::regime::{AttributionRuntime, RuntimeView};
use crate::text;
use crate::text::strip;
use vstd::prelude::*;

verus! {

/// What the hotbar put in the hand.
#[derive(Clone, Copy, Debug, PartialEq, Eq, Structural)]
pub enum HotbarItemKind {
    Weapon,
    Healing,
    Harvesting,
    Consumable,
}

/// The one item currently held in the game. Display truth only; each
/// accounting domain keeps its own attribution state.
#[derive(Debug, PartialEq, Eq)]
pub struct HeldItem {
    pub name: String,
    pub kind: HotbarItemKind,
}

/// The session-scoped facets, taken from the live configuration at session
/// start. Independent and optional: None means "not declared", never a
/// guessed default.
#[derive(Debug, PartialEq, Eq)]
pub struct SessionFacets {
    /// The user-designated session name, immutable for the session's life.
    pub name: Option<String>,
    /// The session definition this session is an instance of.
    pub definition_id: Option<i64>,
    /// Whether defensive hits are recorded for later armour costing.
    pub track_protection_costs: bool,
    /// The skill boost the session runs under, as the pill's labelled
    /// percentage.
    pub skill_boost_percent: Option<i64>,
}

/// Facets as contracts read them.
pub struct FacetsView {
    pub name: Option<Seq<char>>,
    pub definition_id: Option<i64>,
    pub track_protection_costs: bool,
    pub skill_boost_percent: Option<i64>,
}

impl View for SessionFacets {
    type V = FacetsView;

    open spec fn view(&self) -> FacetsView {
        FacetsView {
            name: text::opt_view(self.name),
            definition_id: self.definition_id,
            track_protection_costs: self.track_protection_costs,
            skill_boost_percent: self.skill_boost_percent,
        }
    }
}

impl Default for SessionFacets {
    fn default() -> (facets: Self)
        ensures
            facets@ == (FacetsView {
                name: None,
                definition_id: None,
                track_protection_costs: false,
                skill_boost_percent: None,
            }),
    {
        SessionFacets {
            name: None,
            definition_id: None,
            track_protection_costs: false,
            skill_boost_percent: None,
        }
    }
}

/// A session definition as it resolved when a session started.
#[derive(Debug, PartialEq, Eq)]
pub struct ResolvedDefinition {
    pub id: i64,
    pub name: String,
    pub track_protection_costs: bool,
}

/// The facets a session starts under: the configured name without surrounding
/// space, or the resolved definition's when there is none; protection costs
/// tracked unless the definition opts out; the boost where it is positive.
pub open spec fn opening_facets(
    configured_name: Seq<char>,
    resolved: Option<ResolvedDefinition>,
    declared_boost: Option<i64>,
) -> FacetsView {
    let name = text::stripped(configured_name, true);
    FacetsView {
        name: if name.len() > 0 {
            Some(name)
        } else {
            match resolved {
                Some(definition) => Some(definition.name@),
                None => None,
            }
        },
        definition_id: match resolved {
            Some(definition) => Some(definition.id),
            None => None,
        },
        track_protection_costs: match resolved {
            Some(definition) => definition.track_protection_costs,
            None => true,
        },
        skill_boost_percent: activities::positive_boost(declared_boost),
    }
}

impl SessionFacets {
    /// The facets a session starts under. The configured name is the user's
    /// own declaration and wins; only when there is none does the resolved
    /// definition name the session.
    pub fn at_start(
        configured_name: &str,
        resolved: &Option<ResolvedDefinition>,
        declared_boost: Option<i64>,
    ) -> (facets: Self)
        ensures
            facets@ == opening_facets(configured_name@, *resolved, declared_boost),
    {
        let trimmed = strip(configured_name, true);
        let name: Option<String> = if !trimmed.as_str().is_empty() {
            Some(trimmed)
        } else {
            match resolved {
                Some(definition) => Some(definition.name.clone()),
                None => None,
            }
        };
        let (definition_id, track): (Option<i64>, bool) = match resolved {
            Some(definition) => (Some(definition.id), definition.track_protection_costs),
            None => (None, true),
        };
        SessionFacets {
            name,
            definition_id,
            track_protection_costs: track,
            skill_boost_percent: row_boost(usable_boost(declared_boost)),
        }
    }

    /// The facets with another boost declared.
    pub fn set_boost(&mut self, percent: Option<i64>)
        ensures
            final(self)@ == (FacetsView {
                skill_boost_percent: activities::positive_boost(percent),
                ..old(self)@
            }),
    {
        self.skill_boost_percent = row_boost(percent);
    }
}

/// Combat stats since the last kill (or session start).
#[derive(Debug, PartialEq, Eq)]
pub struct Accumulator {
    pub shots_fired: i64,
    pub damage_dealt: i128,
    pub damage_taken: i128,
    pub critical_hits: i64,
    pub enhancer_cost: i128,
    /// Keyed by phase key (the bare tool name, then `name#2`...), in
    /// first-seen order.
    pub tool_stats: Vec<(String, ToolStats)>,
    /// Stored weapon evidence for this kill's shots, written with it.
    pub evidence: Vec<ShotEvidence>,
}

/// Combat stats as contracts read them.
#[verifier::ext_equal]
pub struct AccumulatorView {
    pub shots_fired: int,
    pub damage_dealt: int,
    pub damage_taken: int,
    pub critical_hits: int,
    pub enhancer_cost: int,
    pub tool_stats: PhasesView,
    pub evidence: Seq<EvidenceView>,
}

impl View for Accumulator {
    type V = AccumulatorView;

    open spec fn view(&self) -> AccumulatorView {
        AccumulatorView {
            shots_fired: self.shots_fired as int,
            damage_dealt: self.damage_dealt as int,
            damage_taken: self.damage_taken as int,
            critical_hits: self.critical_hits as int,
            enhancer_cost: self.enhancer_cost as int,
            tool_stats: text::views(self.tool_stats@),
            evidence: text::views(self.evidence@),
        }
    }
}

impl AccumulatorView {
    /// No combat yet.
    pub open spec fn empty() -> AccumulatorView {
        AccumulatorView {
            shots_fired: 0,
            damage_dealt: 0,
            damage_taken: 0,
            critical_hits: 0,
            enhancer_cost: 0,
            tool_stats: Seq::empty(),
            evidence: Seq::empty(),
        }
    }

    /// What every accumulator keeps: its shots are exactly its phases' shots,
    /// of which no phase has a negative number.
    pub open spec fn wf(self) -> bool {
        &&& phases::countable(self.tool_stats)
        &&& phases::total_shots(self.tool_stats) == self.shots_fired
    }

    /// Whether one more shot can be counted within the integers it is kept
    /// in.
    pub open spec fn has_room(self) -> bool {
        &&& self.shots_fired < i64::MAX
        &&& self.critical_hits < i64::MAX
        &&& self.damage_dealt <= i128::MAX - i64::MAX
        &&& phases::phases_have_room(self.tool_stats, 1)
        &&& self.tool_stats.len() < usize::MAX
    }
}

impl Default for Accumulator {
    fn default() -> (accumulator: Self)
        ensures
            accumulator@ == AccumulatorView::empty(),
            accumulator@.wf(),
    {
        let accumulator = Accumulator {
            shots_fired: 0,
            damage_dealt: 0,
            damage_taken: 0,
            critical_hits: 0,
            enhancer_cost: 0,
            tool_stats: Vec::new(),
            evidence: Vec::new(),
        };
        assert(accumulator@ =~= AccumulatorView::empty());
        accumulator
    }
}

impl Accumulator {
    /// Start over: the next kill's combat.
    pub fn reset(&mut self)
        ensures
            final(self)@ == AccumulatorView::empty(),
            final(self)@.wf(),
    {
        *self = Accumulator::default();
    }

    /// Whether one more shot can be counted.
    pub fn can_count(&self) -> (yes: bool)
        ensures
            yes == self@.has_room(),
    {
        self.shots_fired < i64::MAX && self.critical_hits < i64::MAX && self.damage_dealt
            <= i128::MAX - i64::MAX as i128 && have_room(&self.tool_stats, 1)
            && self.tool_stats.len() < usize::MAX
    }

    /// What the accumulated shots cost.
    pub fn weapon_cost(&self) -> (cost: i128)
        requires
            self@.wf(),
        ensures
            cost == phases::total_cost(self@.tool_stats),
            -0x8000_0000_0000_0000 * i64::MAX <= cost <= 0x8000_0000_0000_0000 * i64::MAX,
    {
        weapon_cost(&self.tool_stats)
    }

    /// What the accumulated combat costs, enhancers included.
    pub fn total_cost(&self) -> (cost: i128)
        requires
            self@.wf(),
            i128::MIN <= phases::total_cost(self@.tool_stats) + self@.enhancer_cost <= i128::MAX,
        ensures
            cost == phases::total_cost(self@.tool_stats) + self@.enhancer_cost,
    {
        self.weapon_cost() + self.enhancer_cost
    }
}

/// A loot group's dedup identity: its total to four decimals, how many items
/// it has, and its first item's name.
#[derive(Debug, PartialEq, Eq)]
pub struct LootFingerprint {
    pub total: i128,
    pub items: usize,
    pub first_item: String,
}

/// A dedup identity as contracts read it.
pub struct FingerprintView {
    pub total: i128,
    pub items: usize,
    pub first_item: Seq<char>,
}

impl View for LootFingerprint {
    type V = FingerprintView;

    open spec fn view(&self) -> FingerprintView {
        FingerprintView { total: self.total, items: self.items, first_item: self.first_item@ }
    }
}

/// Everything that exists exactly while a session runs.
pub struct ActiveSession {
    pub session: TrackingSession,
    pub accumulator: Accumulator,
    /// Whether an event since the last flushed tick changed the live readout.
    pub dirty: bool,
    /// Heal cost accrued this session.
    pub heal_cost: i128,
    /// What the session's standing doses booked.
    pub consumable_cost: i128,
    pub protection_evidence_warning_emitted: bool,
    pub warnings: Vec<String>,
    /// The declared mob that kills take their stamp from.
    pub declared_mob: Option<DeclaredMob>,
    pub facets: SessionFacets,
    pub intervals: IntervalState,
    pub attribution: AttributionRuntime,
    pub healing: HealingRuntime,
    /// The damage enhancers of the weapon last resolved, where its profile is
    /// known.
    pub weapon_enhancers: Option<DamageEnhancerState>,
    /// The last recorded loot group's dedup identity and instant.
    pub last_loot: Option<(LootFingerprint, i64)>,
    /// The standing harvest-guardrail disagreement.
    pub guardrail_mismatch: Option<GuardrailMismatch>,
    /// The harvest-list index no attribution pass may walk below.
    pub harvest_press_floor: usize,
    /// The looter levels captured at session start.
    pub hunting_looters: HuntingLooterLevels,
    /// The reload speed the session's weapons and healer are priced under.
    pub reload_speed_percent: i64,
}

/// The mob name a kill stamps or the readout shows: the declared mob's
/// display name when it is set and non-empty.
pub open spec fn stamped_name(declared: Option<DeclaredMob>) -> Option<Seq<char>> {
    match declared {
        Some(mob) => if mob.name@.len() > 0 {
            Some(mob.name@)
        } else {
            None
        },
        None => None,
    }
}

impl ActiveSession {
    /// What every live session keeps.
    pub open spec fn wf(&self) -> bool {
        self.accumulator@.wf() && self.attribution@.wf()
    }

    /// Whether this is a session at its start: what it is given, and every
    /// other session-scoped field at its documented initial state.
    pub open spec fn starts(
        self,
        session: TrackingSession,
        facets: SessionFacets,
        looters: HuntingLooterLevels,
        carried: Seq<WeaponView>,
        windows: Seq<WindowView>,
        declared_mob: Option<DeclaredMob>,
    ) -> bool {
        &&& self.session == session
        &&& self.accumulator@ == AccumulatorView::empty()
        &&& !self.dirty
        &&& self.heal_cost == 0
        &&& self.consumable_cost == 0
        &&& !self.protection_evidence_warning_emitted
        &&& self.warnings@.len() == 0
        &&& self.declared_mob == declared_mob
        &&& self.facets == facets
        &&& self.intervals@.open.len() == 0
        &&& self.intervals@.context_id is None
        &&& self.attribution@ == (RuntimeView { carried, windows, ..RuntimeView::initial() })
        &&& self.healing.untouched()
        &&& self.weapon_enhancers is None
        &&& self.last_loot is None
        &&& self.guardrail_mismatch is None
        &&& self.harvest_press_floor == 0
        &&& self.hunting_looters == looters
        &&& self.reload_speed_percent == 0
    }

    /// A session at its documented initial state.
    pub fn new(session: TrackingSession, facets: SessionFacets) -> (active: Self)
        ensures
            active.starts(
                session,
                facets,
                HuntingLooterLevels::unskilled(),
                Seq::empty(),
                Seq::empty(),
                None,
            ),
            active.wf(),
    {
        ActiveSession {
            session,
            accumulator: Accumulator::default(),
            dirty: false,
            heal_cost: 0,
            consumable_cost: 0,
            protection_evidence_warning_emitted: false,
            warnings: Vec::new(),
            declared_mob: None,
            facets,
            intervals: IntervalState::default(),
            attribution: AttributionRuntime::default(),
            healing: HealingRuntime::default(),
            weapon_enhancers: None,
            last_loot: None,
            guardrail_mismatch: None,
            harvest_press_floor: 0,
            hunting_looters: HuntingLooterLevels { animal: 0, mutant: 0, robot: 0 },
            reload_speed_percent: 0,
        }
    }

    /// The mob name a kill stamps or the readout shows: an empty declared
    /// name behaves as unset.
    pub fn stamped_mob_name(&self) -> (name: Option<&str>)
        ensures
            text::opt_view(name) == stamped_name(self.declared_mob),
    {
        match &self.declared_mob {
            Some(mob) => if mob.name.as_str().is_empty() {
                None
            } else {
                Some(mob.name.as_str())
            },
            None => None,
        }
    }

    /// Say something once: a warning already standing is not repeated.
    pub fn warn_once(&mut self, message: &str)
        ensures
            text::views(final(self).warnings@) == (if text::views(
                old(self).warnings@,
            ).contains(message@) {
                text::views(old(self).warnings@)
            } else {
                text::views(old(self).warnings@).push(message@)
            }),
            *final(self) == (ActiveSession {
                warnings: final(self).warnings,
                dirty: true,
                ..*old(self)
            }),
    {
        let ghost before = text::views(self.warnings@);
        if !text::holds_text(&self.warnings, message) {
            self.warnings.push(message.to_owned());
            assert(text::views(self.warnings@) =~= before.push(message@));
        }
        self.dirty = true;
    }
}

/// The session typestate: everything session-scoped lives inside the active
/// payload and cannot exist without a session.
pub enum SessionState {
    Idle,
    Active(Box<ActiveSession>),
}

impl SessionState {
    /// Whether a session runs.
    pub fn is_active(&self) -> (yes: bool)
        ensures
            yes == (self is Active),
    {
        match self {
            SessionState::Idle => false,
            SessionState::Active(_) => true,
        }
    }

    /// The running session.
    pub fn active(&self) -> (active: Option<&ActiveSession>)
        ensures
            match active {
                Some(active) => *self == SessionState::Active(Box::new(*active)),
                None => self is Idle,
            },
    {
        match self {
            SessionState::Idle => None,
            SessionState::Active(active) => Some(active),
        }
    }

    /// The running session, to change.
    pub fn active_mut(&mut self) -> (active: Option<&mut ActiveSession>)
        ensures
            match active {
                Some(active) => *old(self) == SessionState::Active(Box::new(*active))
                    && *final(self) == SessionState::Active(Box::new(*final(active))),
                None => *old(self) is Idle && *final(self) is Idle,
            },
    {
        match self {
            SessionState::Idle => None,
            SessionState::Active(active) => Some(active),
        }
    }
}

} // verus!
