//! Unified weapon attribution: which weapon an offensive chat-log line came
//! from, and therefore what it cost.
//!
//! One engine, no modes. A hotbar press declares the weapon in hand and is
//! the primary signal; each carried weapon's damage band quietly validates
//! it. Every observation resolves to one of four states:
//!
//! - **Agrees**: the declared weapon explains it (its band fits, it has no
//!   band to contradict, the hit undershoots its band, or the previous
//!   weapon's shot is still landing just after a switch). Priced to that
//!   weapon.
//! - **Effect tick**: an open effect window an earlier paid activation owns
//!   explains the magnitude. No shot and no cost.
//! - **Evidence**: the magnitude fits exactly one carried weapon, and it is
//!   not the declared one (a missed switch), or nothing is declared at all
//!   (no hotbar signal). Priced to the weapon the evidence names.
//! - **Unresolved**: no honest single source. Recorded without a price.
//!
//! Evidence may only override belief inside the current intent regime. A
//! regime starts at a weapon or harvesting-tool press (or the session start),
//! and at an explicit decision on a standing mismatch.
//!
//! A weapon with a declared damage-over-time effect opens an effect window
//! with every paid hit: for the effect's duration its ticks are outcomes of
//! that one activation, a second source running beside the weapon in hand.

use crate::text;
use crate::text::{copy_optional, copy_texts, same_text};
use crate::units::Ped;
use vstd::prelude::*;

verus! {

/// A critical hit reaches at most this multiple of a weapon's maximum.
pub const CRITICAL_REACH: i64 = 3;

/// Chat-log damage prints to one decimal, so a printed figure can sit up to
/// half a step outside the band it was rolled from.
pub const DISPLAY_TOLERANCE: i64 = 50_000_000_000;

/// After a hotbar switch, a shot the previous weapon already fired can still
/// arrive for this long.
pub const SWITCH_TAIL: i64 = 1_250_000_000;

/// How far two clock readings of one moment can disagree.
pub const CLOCK_SLACK: i64 = 50_000_000;

/// The damage one regular hit of a weapon can deal at full skill.
#[derive(Clone, Copy, Debug, PartialEq, Eq, Structural)]
pub struct DamageBand {
    pub min: i64,
    pub max: i64,
}

impl DamageBand {
    /// A hit the band holds: a regular hit inside it, a critical anywhere
    /// from its floor to its critical reach, each with the display tolerance.
    pub open spec fn holds(self, amount: int, critical: bool) -> bool {
        let ceiling = if critical {
            self.max * CRITICAL_REACH
        } else {
            self.max as int
        };
        self.min - DISPLAY_TOLERANCE <= amount <= ceiling + DISPLAY_TOLERANCE
    }

    /// A hit short of the band's floor.
    pub open spec fn is_above(self, amount: int) -> bool {
        amount < self.min - DISPLAY_TOLERANCE
    }

    /// Whether a hit of this size can have come from the weapon. A regular
    /// hit lands inside the band; a critical anywhere from the band's floor
    /// (armour can absorb a critical's bonus) to its critical reach.
    pub fn fits(&self, amount: i64, critical: bool) -> (fits: bool)
        ensures
            fits == self.holds(amount as int, critical),
    {
        let ceiling: i128 = if critical {
            self.max as i128 * CRITICAL_REACH as i128
        } else {
            self.max as i128
        };
        let amount: i128 = amount as i128;
        amount >= self.min as i128 - DISPLAY_TOLERANCE as i128 && amount <= ceiling
            + DISPLAY_TOLERANCE as i128
    }

    /// Whether the hit falls short of the band's floor.
    pub fn undershoots(&self, amount: i64) -> (short: bool)
        ensures
            short == self.is_above(amount as int),
    {
        (amount as i128) < self.min as i128 - DISPLAY_TOLERANCE as i128
    }
}

/// How a declared damage-over-time effect lands its damage.
#[derive(Clone, Copy, Debug, PartialEq, Eq, Structural)]
pub enum WeaponEffectMode {
    /// The activation prints a hit of its own, then ticks follow.
    Compound,
    /// The activation's first outcome is already a tick.
    OverTime,
}

/// The damage-over-time effect a weapon's paid hit starts.
#[derive(Clone, Copy, Debug, PartialEq, Eq, Structural)]
pub struct WeaponEffectProfile {
    pub mode: WeaponEffectMode,
    /// The outcome a compound activation prints itself.
    pub hit_min: Option<i64>,
    pub hit_max: Option<i64>,
    /// How long the effect ticks, in nanoseconds.
    pub duration: i64,
    /// The damage of one tick.
    pub tick_min: i64,
    pub tick_max: i64,
    /// The time between two ticks, in nanoseconds, when it is known.
    pub tick_period: Option<i64>,
}

impl WeaponEffectProfile {
    /// The band a tick is checked against.
    pub open spec fn tick(self) -> DamageBand {
        DamageBand { min: self.tick_min, max: self.tick_max }
    }

    /// The band the activation's own outcome is checked against: the declared
    /// hit of a compound effect, else the tick, by which an effect without a
    /// hit of its own is confirmed.
    pub open spec fn activation(self) -> DamageBand {
        match (self.mode, self.hit_min, self.hit_max) {
            (WeaponEffectMode::Compound, Some(min), Some(max)) => DamageBand { min, max },
            _ => self.tick(),
        }
    }

    /// The band the activation's own outcome is checked against.
    pub fn activation_band(&self) -> (band: DamageBand)
        ensures
            band == self.activation(),
    {
        match (self.mode, self.hit_min, self.hit_max) {
            (WeaponEffectMode::Compound, Some(min), Some(max)) => DamageBand { min, max },
            _ => self.tick_band(),
        }
    }

    /// The band a tick is checked against.
    pub fn tick_band(&self) -> (band: DamageBand)
        ensures
            band == self.tick(),
    {
        DamageBand { min: self.tick_min, max: self.tick_max }
    }
}

/// What a stored weapon's properties say about its damage: its declared
/// effect, and its catalogue damage figures as far as there are any.
#[derive(Clone, Copy, Debug, PartialEq, Eq, Structural)]
pub struct WeaponProps {
    pub effect: Option<WeaponEffectProfile>,
    pub damage_min: Option<i64>,
    pub damage_max: Option<i64>,
}

impl WeaponProps {
    /// The band the properties give: the declared effect's activation band,
    /// else the catalogue figures where both stand and the maximum is
    /// positive.
    pub open spec fn band(self) -> Option<DamageBand> {
        match self.effect {
            Some(effect) => Some(effect.activation()),
            None => match (self.damage_min, self.damage_max) {
                (Some(min), Some(max)) => if max > 0 {
                    Some(DamageBand { min, max })
                } else {
                    None
                },
                _ => None,
            },
        }
    }
}

/// A stored weapon's regular-hit band at full skill: the outcome its declared
/// effect's activation prints, when it declares one, else its catalogue
/// damage. None when neither gives a usable figure.
pub fn damage_band_from_props(props: &WeaponProps) -> (band: Option<DamageBand>)
    ensures
        band == props.band(),
{
    match props.effect {
        Some(effect) => Some(effect.activation_band()),
        None => match (props.damage_min, props.damage_max) {
            (Some(min), Some(max)) => if max > 0 {
                Some(DamageBand { min, max })
            } else {
                None
            },
            _ => None,
        },
    }
}

/// One weapon the player carries, as the guardrail sees it.
#[derive(Debug, PartialEq, Eq)]
pub struct CarriedWeapon {
    pub equipment_id: i64,
    pub name: String,
    /// None when the catalogue exposes no usable damage figure: the weapon
    /// can then never be named by evidence, and never contradicted by it.
    pub band: Option<DamageBand>,
    /// The damage-over-time effect each paid hit starts, when declared.
    pub effect: Option<WeaponEffectProfile>,
}

/// A carried weapon as contracts read it.
pub struct WeaponView {
    pub equipment_id: i64,
    pub name: Seq<char>,
    pub band: Option<DamageBand>,
    pub effect: Option<WeaponEffectProfile>,
}

impl View for CarriedWeapon {
    type V = WeaponView;

    open spec fn view(&self) -> WeaponView {
        WeaponView {
            equipment_id: self.equipment_id,
            name: self.name@,
            band: self.band,
            effect: self.effect,
        }
    }
}

impl Clone for CarriedWeapon {
    fn clone(&self) -> (copy: Self)
        ensures
            copy@ == self@,
    {
        CarriedWeapon {
            equipment_id: self.equipment_id,
            name: self.name.clone(),
            band: self.band,
            effect: self.effect,
        }
    }
}

impl WeaponView {
    /// Whether the weapon has a band and the band holds the hit.
    pub open spec fn explains(self, amount: int, critical: bool) -> bool {
        self.band is Some && self.band->0.holds(amount, critical)
    }
}

impl CarriedWeapon {
    /// A stored weapon as attribution sees it: the band its shots are checked
    /// against and the effect its paid hits start.
    pub fn from_props(equipment_id: i64, name: String, props: &WeaponProps) -> (weapon: Self)
        ensures
            weapon@ == (WeaponView {
                equipment_id,
                name: name@,
                band: props.band(),
                effect: props.effect,
            }),
    {
        CarriedWeapon {
            equipment_id,
            name,
            band: damage_band_from_props(props),
            effect: props.effect,
        }
    }
}

/// One offensive chat-log observation.
#[derive(Clone, Copy, Debug, PartialEq, Eq, Structural)]
pub enum Observation {
    /// A hit with its printed magnitude.
    Hit { amount: i64, critical: bool },
    /// A jam, dodge, evade, or miss: a shot was fired, but no magnitude says
    /// by what.
    Countered,
}

impl Observation {
    /// The printed magnitude, zero for a countered shot.
    pub open spec fn size(self) -> i64 {
        match self {
            Observation::Hit { amount, .. } => amount,
            Observation::Countered => 0,
        }
    }

    /// Whether it printed as a critical hit.
    pub open spec fn is_critical(self) -> bool {
        match self {
            Observation::Hit { critical, .. } => critical,
            Observation::Countered => false,
        }
    }

    /// The printed magnitude, zero for a countered shot.
    pub fn amount(self) -> (amount: i64)
        ensures
            amount == self.size(),
    {
        match self {
            Observation::Hit { amount, .. } => amount,
            Observation::Countered => 0,
        }
    }

    /// Whether it printed as a critical hit.
    pub fn critical(self) -> (critical: bool)
        ensures
            critical == self.is_critical(),
    {
        match self {
            Observation::Hit { critical, .. } => critical,
            Observation::Countered => false,
        }
    }
}

/// Why an observation agrees with a weapon.
#[derive(Clone, Copy, Debug, PartialEq, Eq, Structural)]
pub enum AgreeReason {
    /// Its band fits the magnitude.
    Fits,
    /// It has no band to validate against.
    Unvalidated,
    /// The hit falls short of its band and no other weapon explains it.
    BelowBand,
    /// The previous weapon's shot, landing just after the switch.
    InFlight,
    /// A countered shot inherits the declared weapon.
    Countered,
    /// The player kept the declared weapon over this evidence.
    Kept,
}

/// How one observation resolved: the four product states.
#[derive(Debug, PartialEq, Eq)]
pub enum Attribution {
    Agrees { tool: String, reason: AgreeReason },
    /// `window_id` names the window when exactly one explains the tick; with
    /// several, the candidates travel on [`Resolved::windows`].
    EffectTick { window_id: Option<String> },
    /// `confirmed` marks a shot the player's confirmation priced rather than
    /// its own magnitude.
    Evidence { tool: String, confirmed: bool },
    Unresolved,
}

/// An attribution as contracts read it.
pub enum AttributionView {
    Agrees { tool: Seq<char>, reason: AgreeReason },
    EffectTick { window_id: Option<Seq<char>> },
    Evidence { tool: Seq<char>, confirmed: bool },
    Unresolved,
}

impl View for Attribution {
    type V = AttributionView;

    open spec fn view(&self) -> AttributionView {
        match self {
            Attribution::Agrees { tool, reason } => AttributionView::Agrees {
                tool: tool@,
                reason: *reason,
            },
            Attribution::EffectTick { window_id } => AttributionView::EffectTick {
                window_id: text::opt_view(*window_id),
            },
            Attribution::Evidence { tool, confirmed } => AttributionView::Evidence {
                tool: tool@,
                confirmed: *confirmed,
            },
            Attribution::Unresolved => AttributionView::Unresolved,
        }
    }
}

impl Clone for Attribution {
    fn clone(&self) -> (copy: Self)
        ensures
            copy@ == self@,
    {
        match self {
            Attribution::Agrees { tool, reason } => Attribution::Agrees {
                tool: tool.clone(),
                reason: *reason,
            },
            Attribution::EffectTick { window_id } => Attribution::EffectTick {
                window_id: copy_optional(window_id),
            },
            Attribution::Evidence { tool, confirmed } => Attribution::Evidence {
                tool: tool.clone(),
                confirmed: *confirmed,
            },
            Attribution::Unresolved => Attribution::Unresolved,
        }
    }
}

impl AttributionView {
    /// The weapon the shot is priced to, when it has one.
    pub open spec fn priced(self) -> Option<Seq<char>> {
        match self {
            AttributionView::Agrees { tool, .. } => Some(tool),
            AttributionView::Evidence { tool, .. } => Some(tool),
            AttributionView::EffectTick { .. } => None,
            AttributionView::Unresolved => None,
        }
    }

    /// The state, without its details.
    pub open spec fn kind(self) -> AttributionKind {
        match self {
            AttributionView::Agrees { .. } => AttributionKind::Agrees,
            AttributionView::EffectTick { .. } => AttributionKind::EffectTick,
            AttributionView::Evidence { .. } => AttributionKind::Evidence,
            AttributionView::Unresolved => AttributionKind::Unresolved,
        }
    }
}

impl Attribution {
    /// The weapon the shot is priced to, when it has one. An effect tick is
    /// not a shot at all.
    pub fn priced_tool(&self) -> (tool: Option<&str>)
        ensures
            text::opt_view(tool) == self@.priced(),
    {
        match self {
            Attribution::Agrees { tool, .. } => Some(tool.as_str()),
            Attribution::Evidence { tool, .. } => Some(tool.as_str()),
            Attribution::EffectTick { .. } => None,
            Attribution::Unresolved => None,
        }
    }

    /// The persisted evidence classification, for the states that keep a row:
    /// evidence that overrode a declared weapon, unresolved shots, and effect
    /// ticks.
    pub fn kind(&self) -> (kind: AttributionKind)
        ensures
            kind == self@.kind(),
    {
        match self {
            Attribution::Agrees { .. } => AttributionKind::Agrees,
            Attribution::EffectTick { .. } => AttributionKind::EffectTick,
            Attribution::Evidence { .. } => AttributionKind::Evidence,
            Attribution::Unresolved => AttributionKind::Unresolved,
        }
    }
}

/// The closed classification vocabulary a stored evidence row carries.
#[derive(Clone, Copy, Debug, PartialEq, Eq, Structural)]
pub enum AttributionKind {
    Agrees,
    EffectTick,
    Evidence,
    Unresolved,
}

impl AttributionKind {
    /// The word a stored row carries.
    pub open spec fn word(self) -> Seq<char> {
        match self {
            AttributionKind::Agrees => "agrees"@,
            AttributionKind::EffectTick => "effect_tick"@,
            AttributionKind::Evidence => "evidence"@,
            AttributionKind::Unresolved => "unresolved"@,
        }
    }

    /// The word a stored row carries.
    pub fn as_str(self) -> (word: &'static str)
        ensures
            word@ == self.word(),
    {
        match self {
            AttributionKind::Agrees => "agrees",
            AttributionKind::EffectTick => "effect_tick",
            AttributionKind::Evidence => "evidence",
            AttributionKind::Unresolved => "unresolved",
        }
    }

    /// The kind a stored word names; no other text is a kind.
    pub open spec fn read(value: Seq<char>) -> Option<Self> {
        if value == "agrees"@ {
            Some(AttributionKind::Agrees)
        } else if value == "effect_tick"@ {
            Some(AttributionKind::EffectTick)
        } else if value == "evidence"@ {
            Some(AttributionKind::Evidence)
        } else if value == "unresolved"@ {
            Some(AttributionKind::Unresolved)
        } else {
            None
        }
    }

    /// Every kind reads back from its own word, and what reads as a kind is
    /// that kind's word.
    pub proof fn words_round_trip(self, value: Seq<char>)
        ensures
            Self::read(self.word()) == Some(self),
            Self::read(value) is Some ==> Self::read(value)->0.word() == value,
    {
        reveal_strlit("agrees");
        reveal_strlit("effect_tick");
        reveal_strlit("evidence");
        reveal_strlit("unresolved");
        assert("agrees"@.len() == 6 && "effect_tick"@.len() == 11);
        assert("evidence"@.len() == 8 && "unresolved"@.len() == 10);
    }

    /// Read a stored word back; no other text is a kind.
    pub fn parse(value: &str) -> (kind: Option<Self>)
        ensures
            kind == Self::read(value@),
    {
        if same_text(value, "agrees") {
            Some(AttributionKind::Agrees)
        } else if same_text(value, "effect_tick") {
            Some(AttributionKind::EffectTick)
        } else if same_text(value, "evidence") {
            Some(AttributionKind::Evidence)
        } else if same_text(value, "unresolved") {
            Some(AttributionKind::Unresolved)
        } else {
            None
        }
    }
}

/// A classification together with the carried weapons whose band fits the
/// observation (every carried weapon, for a countered shot), the open effect
/// windows that could explain it, and the reason a stored row records.
#[derive(Debug, PartialEq, Eq)]
pub struct Resolved {
    pub attribution: Attribution,
    pub fits: Vec<String>,
    /// The ids of the open windows that explain the observation: the tick
    /// candidates of an effect tick, and the effects an unresolved hit could
    /// equally have been a tick of.
    pub windows: Vec<String>,
    pub reason: String,
}

/// A classification as contracts read it.
#[verifier::ext_equal]
pub struct ResolvedView {
    pub attribution: AttributionView,
    pub fits: Seq<Seq<char>>,
    pub windows: Seq<Seq<char>>,
    pub reason: Seq<char>,
}

impl View for Resolved {
    type V = ResolvedView;

    open spec fn view(&self) -> ResolvedView {
        ResolvedView {
            attribution: self.attribution@,
            fits: text::views(self.fits@),
            windows: text::views(self.windows@),
            reason: self.reason@,
        }
    }
}

/// An open window of an effect some earlier paid activation owns. Its ticks
/// are outcomes of that activation, never new shots.
#[derive(Debug, PartialEq, Eq)]
pub struct OffensiveEffectWindow {
    pub id: String,
    /// The weapon whose paid hit opened it.
    pub tool: String,
    pub equipment_id: Option<i64>,
    pub started_at: i64,
    pub expires_at: i64,
    pub tick: DamageBand,
}

/// An effect window as contracts read it.
pub struct WindowView {
    pub id: Seq<char>,
    pub tool: Seq<char>,
    pub equipment_id: Option<i64>,
    pub started_at: i64,
    pub expires_at: i64,
    pub tick: DamageBand,
}

impl View for OffensiveEffectWindow {
    type V = WindowView;

    open spec fn view(&self) -> WindowView {
        WindowView {
            id: self.id@,
            tool: self.tool@,
            equipment_id: self.equipment_id,
            started_at: self.started_at,
            expires_at: self.expires_at,
            tick: self.tick,
        }
    }
}

impl Clone for OffensiveEffectWindow {
    fn clone(&self) -> (copy: Self)
        ensures
            copy@ == self@,
    {
        OffensiveEffectWindow {
            id: self.id.clone(),
            tool: self.tool.clone(),
            equipment_id: self.equipment_id,
            started_at: self.started_at,
            expires_at: self.expires_at,
            tick: self.tick,
        }
    }
}

impl WindowView {
    /// Whether the window, with the delivery tail past its expiry, is not yet
    /// over at `at`.
    pub open spec fn lasts_to(self, at: int) -> bool {
        at <= self.expires_at + SWITCH_TAIL
    }

    /// Whether an observation at `at` falls inside the window, allowing the
    /// delivery tail past its expiry.
    pub open spec fn live(self, at: int) -> bool {
        self.started_at <= at + CLOCK_SLACK && self.lasts_to(at)
    }

    /// Whether a tick of this window explains the hit.
    pub open spec fn ticks(self, at: int, amount: int, critical: bool) -> bool {
        self.live(at) && self.tick.holds(amount, critical)
    }

    /// Whether the hit is short of this window's ticks, whose floor sits
    /// below a rival's (no rival: any floor does).
    pub open spec fn reaches_down(self, at: int, amount: int, rival: Option<int>) -> bool {
        &&& self.live(at)
        &&& self.tick.is_above(amount)
        &&& rival is Some ==> self.tick.min < rival->0
    }
}

impl OffensiveEffectWindow {
    /// Whether the window, with its delivery tail, is not yet over at `at`.
    pub fn outlasts(&self, at: i64) -> (lasts: bool)
        ensures
            lasts == self@.lasts_to(at as int),
    {
        at as i128 <= self.expires_at as i128 + SWITCH_TAIL as i128
    }

    /// Whether an observation at `at` falls inside the window, allowing the
    /// delivery tail past its expiry.
    pub fn live_at(&self, at: i64) -> (live: bool)
        ensures
            live == self@.live(at as int),
    {
        self.started_at as i128 <= at as i128 + CLOCK_SLACK as i128 && self.outlasts(at)
    }
}

/// A standing disagreement between the declared weapon and the evidence.
#[derive(Debug, PartialEq, Eq)]
pub struct WeaponMismatch {
    /// What the hotbar declared.
    pub declared: String,
    /// What the evidence says is being fired, and what is being recorded.
    pub evidence: String,
    /// When the evidence first contradicted the declared weapon.
    pub since: i64,
    /// Shots recorded to the evidence weapon since then.
    pub shots: i64,
}

/// A mismatch as contracts read it.
pub struct MismatchView {
    pub declared: Seq<char>,
    pub evidence: Seq<char>,
    pub since: i64,
    pub shots: int,
}

impl View for WeaponMismatch {
    type V = MismatchView;

    open spec fn view(&self) -> MismatchView {
        MismatchView {
            declared: self.declared@,
            evidence: self.evidence@,
            since: self.since,
            shots: self.shots as int,
        }
    }
}

impl Clone for WeaponMismatch {
    fn clone(&self) -> (copy: Self)
        ensures
            copy@ == self@,
    {
        WeaponMismatch {
            declared: self.declared.clone(),
            evidence: self.evidence.clone(),
            since: self.since,
            shots: self.shots,
        }
    }
}

/// Where a logged shot's cost currently sits.
#[derive(Debug, PartialEq, Eq)]
pub enum ShotLocation {
    /// In the kill accumulator, not yet settled into a kill.
    Pending,
    /// Settled into the kill with this id.
    Kill(String),
}

/// A shot location as contracts read it.
pub enum LocationView {
    Pending,
    Kill(Seq<char>),
}

impl View for ShotLocation {
    type V = LocationView;

    open spec fn view(&self) -> LocationView {
        match self {
            ShotLocation::Pending => LocationView::Pending,
            ShotLocation::Kill(id) => LocationView::Kill(id@),
        }
    }
}

impl Clone for ShotLocation {
    fn clone(&self) -> (copy: Self)
        ensures
            copy@ == self@,
    {
        match self {
            ShotLocation::Pending => ShotLocation::Pending,
            ShotLocation::Kill(id) => ShotLocation::Kill(id.clone()),
        }
    }
}

/// One shot of the current regime, remembered so a decision on a standing
/// mismatch can reprice it.
#[derive(Debug, PartialEq, Eq)]
pub struct ShotRecord {
    pub seq: u64,
    pub observed_at: i64,
    pub observation: Observation,
    pub attribution: Attribution,
    pub fits: Vec<String>,
    /// Open effect windows that could equally explain it.
    pub windows: Vec<String>,
    pub location: ShotLocation,
    /// The shot's stored evidence row, when its state keeps one.
    pub evidence_id: Option<String>,
    /// The weapon whose phase the shot is counted under (None: unpriced).
    pub booked: Option<String>,
    /// The per-shot cost booked for it (zero when unpriced).
    pub cost: Ped,
    /// The effect window its hit opened, when its weapon declares one.
    pub opened_window: Option<String>,
}

/// A logged shot as contracts read it.
#[verifier::ext_equal]
pub struct RecordView {
    pub seq: u64,
    pub observed_at: i64,
    pub observation: Observation,
    pub attribution: AttributionView,
    pub fits: Seq<Seq<char>>,
    pub windows: Seq<Seq<char>>,
    pub location: LocationView,
    pub evidence_id: Option<Seq<char>>,
    pub booked: Option<Seq<char>>,
    pub cost: Ped,
    pub opened_window: Option<Seq<char>>,
}

impl View for ShotRecord {
    type V = RecordView;

    open spec fn view(&self) -> RecordView {
        RecordView {
            seq: self.seq,
            observed_at: self.observed_at,
            observation: self.observation,
            attribution: self.attribution@,
            fits: text::views(self.fits@),
            windows: text::views(self.windows@),
            location: self.location@,
            evidence_id: text::opt_view(self.evidence_id),
            booked: text::opt_view(self.booked),
            cost: self.cost,
            opened_window: text::opt_view(self.opened_window),
        }
    }
}

impl Clone for ShotRecord {
    fn clone(&self) -> (copy: Self)
        ensures
            copy@ == self@,
    {
        ShotRecord {
            seq: self.seq,
            observed_at: self.observed_at,
            observation: self.observation,
            attribution: self.attribution.clone(),
            fits: copy_texts(&self.fits),
            windows: copy_texts(&self.windows),
            location: self.location.clone(),
            evidence_id: copy_optional(&self.evidence_id),
            booked: copy_optional(&self.booked),
            cost: self.cost,
            opened_window: copy_optional(&self.opened_window),
        }
    }
}

/// One logged shot a decision moves to another weapon, with the record as it
/// stood before the decision (where its cost sits, and at what).
#[derive(Debug, PartialEq, Eq)]
pub struct Reprice {
    pub seq: u64,
    pub to_tool: String,
    pub record: ShotRecord,
}

/// A reprice as contracts read it.
pub struct RepriceView {
    pub seq: u64,
    pub to_tool: Seq<char>,
    pub record: RecordView,
}

impl View for Reprice {
    type V = RepriceView;

    open spec fn view(&self) -> RepriceView {
        RepriceView { seq: self.seq, to_tool: self.to_tool@, record: self.record@ }
    }
}

/// A decision on a standing mismatch, ready to be priced.
#[derive(Debug, PartialEq, Eq)]
pub struct Decision {
    pub mismatch: WeaponMismatch,
    pub moves: Vec<Reprice>,
    /// Effect windows the decision took back: those the evidence shots a keep
    /// repriced had opened.
    pub withdrawn: Vec<String>,
}

/// A decision as contracts read it.
#[verifier::ext_equal]
pub struct DecisionView {
    pub mismatch: MismatchView,
    pub moves: Seq<RepriceView>,
    pub withdrawn: Seq<Seq<char>>,
}

impl View for Decision {
    type V = DecisionView;

    open spec fn view(&self) -> DecisionView {
        DecisionView {
            mismatch: self.mismatch@,
            moves: text::views(self.moves@),
            withdrawn: text::views(self.withdrawn@),
        }
    }
}

/// Session tallies of how shots resolved, as they stand after decisions.
#[derive(Clone, Copy, Debug, PartialEq, Eq, Structural)]
pub struct AttributionCounts {
    pub agreed: i64,
    pub evidenced: i64,
    pub unresolved: i64,
    pub effect_ticks: i64,
}

impl Default for AttributionCounts {
    fn default() -> (counts: Self)
        ensures
            counts == (AttributionCounts {
                agreed: 0,
                evidenced: 0,
                unresolved: 0,
                effect_ticks: 0,
            }),
    {
        AttributionCounts { agreed: 0, evidenced: 0, unresolved: 0, effect_ticks: 0 }
    }
}

impl AttributionCounts {
    /// Every tallied observation.
    pub open spec fn total(self) -> int {
        self.agreed + self.evidenced + self.unresolved + self.effect_ticks
    }
}

} // verus!
