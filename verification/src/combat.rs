//! The combat stream: shot recording with weapon attribution and cost
//! phases, defensive hits, and hotbar presses.

use crate::attribution::{
    Attribution, LocationView, Observation, RecordView, ResolvedView, ShotLocation, ShotRecord,
};
use crate::effects;
use crate::effects::EffectActivation;
use crate::evidence;
use crate::evidence::ShotEvidence;
use crate::ids;
use crate::ids::fresh_id;
use crate::phases;
use crate::phases::{book_shot, LoadoutView, OffensiveLoadoutEvidence};
use crate::regime::RuntimeView;
use crate::session::{AccumulatorView, ActiveSession, HeldItem, HotbarItemKind, SessionState};
use crate::text;
use crate::text::{copy_optional, copy_texts, same_text};
use crate::units::Ped;
use vstd::prelude::*;

verus! {

/// What the weapon a shot is priced to costs and is expected to return.
#[derive(Debug, PartialEq, Eq)]
pub struct ShotPricing {
    /// The weapon's current cost, zero when its profile gives none.
    pub price: Ped,
    pub expected: Option<OffensiveLoadoutEvidence>,
    /// What the equipment library asks for the key of a costless shot.
    pub library: Ped,
}

/// Pricing as contracts read it.
pub struct PricingView {
    pub price: Ped,
    pub expected: Option<LoadoutView>,
    pub library: Ped,
}

impl View for ShotPricing {
    type V = PricingView;

    open spec fn view(&self) -> PricingView {
        PricingView {
            price: self.price,
            expected: text::opt_view(self.expected),
            library: self.library,
        }
    }
}

/// Where a shot is recorded: the session, and the context in force.
pub struct StampView {
    pub session_id: Seq<char>,
    pub context_id: Option<i64>,
}

/// The stamp of a session's shots right now.
pub open spec fn stamp_of(active: ActiveSession) -> StampView {
    StampView { session_id: active.session.id@, context_id: active.intervals@.context_id }
}

/// The phases a shot lands among, and where.
pub open spec fn landing(
    accumulator: AccumulatorView,
    resolved: ResolvedView,
    pricing: PricingView,
) -> (phases::PhasesView, int) {
    let tool = resolved.attribution.priced();
    if tool is Some {
        phases::booking_phase(
            accumulator.tool_stats,
            tool,
            pricing.price,
            pricing.expected,
            pricing.library,
        )
    } else {
        phases::booking_phase(accumulator.tool_stats, None, Ped(0), None, Ped(0))
    }
}

/// The per-shot cost a shot is booked at.
pub open spec fn booked_cost(
    accumulator: AccumulatorView,
    resolved: ResolvedView,
    pricing: PricingView,
) -> Ped {
    let (base, at) = landing(accumulator, resolved, pricing);
    base[at].1.cost_per_shot
}

/// The accumulator after a shot or a tick: a tick counts its damage and keeps
/// its row, but no shot and no cost; a shot is counted into its phase, and
/// keeps a row when its state does.
pub open spec fn accumulated(
    accumulator: AccumulatorView,
    runtime: RuntimeView,
    stamp: StampView,
    observation: Observation,
    at: i64,
    resolved: ResolvedView,
    pricing: PricingView,
    row_id: Seq<char>,
) -> AccumulatorView {
    let damage = accumulator.damage_dealt + phases::dealt(observation.size() as int);
    if resolved.attribution is EffectTick {
        AccumulatorView {
            damage_dealt: damage,
            evidence: accumulator.evidence.push(
                evidence::row_of(
                    row_id,
                    stamp.session_id,
                    stamp.context_id,
                    runtime,
                    observation,
                    at,
                    resolved,
                    None,
                    Ped(0),
                ),
            ),
            ..accumulator
        }
    } else {
        let (base, place) = landing(accumulator, resolved, pricing);
        AccumulatorView {
            shots_fired: accumulator.shots_fired + 1,
            damage_dealt: damage,
            critical_hits: accumulator.critical_hits + (if observation.is_critical() {
                1int
            } else {
                0int
            }),
            tool_stats: phases::booked_shot(
                base,
                place,
                observation.size() as int,
                observation.is_critical(),
            ),
            evidence: if evidence::row_kept(resolved.attribution, runtime.declared is Some) {
                accumulator.evidence.push(
                    evidence::row_of(
                        row_id,
                        stamp.session_id,
                        stamp.context_id,
                        runtime,
                        observation,
                        at,
                        resolved,
                        resolved.attribution.priced(),
                        booked_cost(accumulator, resolved, pricing),
                    ),
                )
            } else {
                accumulator.evidence
            },
            ..accumulator
        }
    }
}

/// The window a shot opens: its weapon's declared effect, when it is priced
/// to a carried weapon that declares one and it landed.
pub open spec fn opened_window(
    runtime: RuntimeView,
    resolved: ResolvedView,
    observation: Observation,
) -> bool {
    &&& resolved.attribution.priced() is Some
    &&& effects::opener(runtime, resolved.attribution.priced()->0, observation) is Some
}

/// The attribution state after a shot or a tick: the classification is
/// applied; a shot's effect opens and the shot is remembered.
pub open spec fn attributed(
    accumulator: AccumulatorView,
    runtime: RuntimeView,
    observation: Observation,
    at: i64,
    resolved: ResolvedView,
    pricing: PricingView,
    row_id: Seq<char>,
    window_id: Seq<char>,
) -> RuntimeView {
    let applied = runtime.applied(resolved, at);
    if resolved.attribution is EffectTick {
        applied
    } else {
        let opens = opened_window(runtime, resolved, observation);
        let opened = if opens {
            RuntimeView {
                windows: applied.windows.push(
                    effects::window_of(
                        window_id,
                        effects::opener(
                            runtime,
                            resolved.attribution.priced()->0,
                            observation,
                        )->0,
                        at,
                    ),
                ),
                ..applied
            }
        } else {
            applied
        };
        opened.remembering(
            RecordView {
                seq: runtime.next_seq as u64,
                observed_at: at,
                observation,
                attribution: resolved.attribution,
                fits: resolved.fits,
                windows: resolved.windows,
                location: LocationView::Pending,
                evidence_id: if evidence::row_kept(
                    resolved.attribution,
                    runtime.declared is Some,
                ) {
                    Some(row_id)
                } else {
                    None
                },
                booked: resolved.attribution.priced(),
                cost: booked_cost(accumulator, resolved, pricing),
                opened_window: if opens {
                    Some(window_id)
                } else {
                    None
                },
            },
        )
    }
}

/// Whether a shot left this effect to be stored: the window it opened and the
/// effect its weapon declares, with the session it was fired in and what it
/// cost.
pub open spec fn effect_of_shot(
    activation: EffectActivation,
    active: ActiveSession,
    observation: Observation,
    at: i64,
    pricing: PricingView,
    window_id: Seq<char>,
) -> bool {
    let runtime = active.attribution@;
    let resolved = runtime.classified(observation, at as int);
    &&& activation.window@ == effects::window_of(
        window_id,
        effects::opener(runtime, resolved.attribution.priced()->0, observation)->0,
        at,
    )
    &&& Some(activation.profile) == effects::opener(
        runtime,
        resolved.attribution.priced()->0,
        observation,
    )->0.effect
    &&& activation.session_id@ == active.session.id@
    &&& activation.context_id == active.intervals@.context_id
    &&& activation.hit_amount == observation.size()
    &&& activation.critical == observation.is_critical()
    &&& activation.cost_per_shot == booked_cost(active.accumulator@, resolved, pricing)
}

/// Record one offensive observation under given ids for the row and the
/// effect window it may make.
pub fn record_shot_with_ids(
    active: &mut ActiveSession,
    observation: Observation,
    observed_at: i64,
    pricing: ShotPricing,
    row_id: String,
    window_id: String,
) -> (activation: Option<EffectActivation>)
    requires
        old(active).wf(),
        old(active).accumulator@.has_room(),
        old(active).attribution@.next_seq < i64::MAX,
        effects::ends_in_range(old(active).attribution@, observed_at),
    ensures
        final(active).wf(),
        ({
            let runtime = old(active).attribution@;
            let resolved = runtime.classified(observation, observed_at as int);
            &&& final(active).accumulator@ == accumulated(
                old(active).accumulator@,
                runtime,
                stamp_of(*old(active)),
                observation,
                observed_at,
                resolved,
                pricing@,
                row_id@,
            )
            &&& final(active).attribution@ == attributed(
                old(active).accumulator@,
                runtime,
                observation,
                observed_at,
                resolved,
                pricing@,
                row_id@,
                window_id@,
            )
            &&& (activation is Some) == opened_window(runtime, resolved, observation)
            &&& activation is Some ==> effect_of_shot(
                activation->0,
                *old(active),
                observation,
                observed_at,
                pricing@,
                window_id@,
            )
        }),
        *final(active) == (ActiveSession {
            accumulator: final(active).accumulator,
            attribution: final(active).attribution,
            dirty: true,
            ..*old(active)
        }),
{
    let ghost runtime = active.attribution@;
    let ghost before = active.accumulator@;
    let resolved = active.attribution.classify(observation, observed_at);
    let seq: u64 = active.attribution.apply(&resolved, observed_at);
    let ghost applied = active.attribution@;
    active.dirty = true;
    let amount: i64 = observation.amount();
    let critical: bool = observation.critical();
    if amount > 0 {
        active.accumulator.damage_dealt = active.accumulator.damage_dealt + amount as i128;
    }
    let tick: bool = match &resolved.attribution {
        Attribution::EffectTick { .. } => true,
        _ => false,
    };
    if tick {
        let row = ShotEvidence::with_id(
            row_id,
            active.session.id.as_str(),
            active.intervals.context_id(),
            &active.attribution,
            observation,
            observed_at,
            &resolved,
            None,
            Ped(0),
        );
        let ghost written = row@;
        active.accumulator.evidence.push(row);
        proof {
            assert(text::views(active.accumulator.evidence@) =~= before.evidence.push(written));
            assert(written == evidence::row_of(
                row_id@,
                active.session.id@,
                active.intervals@.context_id,
                runtime,
                observation,
                observed_at,
                resolved@,
                None,
                Ped(0),
            ));
        }
        return None;
    }
    active.accumulator.shots_fired = active.accumulator.shots_fired + 1;
    if critical {
        active.accumulator.critical_hits = active.accumulator.critical_hits + 1;
    }
    let tool: Option<String> = match resolved.attribution.priced_tool() {
        Some(tool) => Some(tool.to_owned()),
        None => None,
    };
    proof {
        phases::booking_adds_one_shot(
            before.tool_stats,
            resolved@.attribution.priced(),
            pricing.price,
            text::opt_view(pricing.expected),
            pricing.library,
            amount as int,
            critical,
        );
        phases::booking_adds_one_shot(
            before.tool_stats,
            None,
            Ped(0),
            None,
            Ped(0),
            amount as int,
            critical,
        );
        if resolved@.attribution.priced() is Some {
            phases::booking_keeps_shots_positive(
                before.tool_stats,
                resolved@.attribution.priced(),
                pricing.price,
                text::opt_view(pricing.expected),
                pricing.library,
                amount as int,
                critical,
            );
        } else {
            phases::booking_keeps_shots_positive(
                before.tool_stats,
                None,
                Ped(0),
                None,
                Ped(0),
                amount as int,
                critical,
            );
        }
    }
    let cost: Ped = match &tool {
        Some(name) => book_shot(
            &mut active.accumulator.tool_stats,
            Some(name.as_str()),
            pricing.price,
            pricing.expected,
            pricing.library,
            amount,
            critical,
        ),
        None => book_shot(
            &mut active.accumulator.tool_stats,
            None,
            Ped(0),
            None,
            Ped(0),
            amount,
            critical,
        ),
    };
    assert(cost == booked_cost(before, resolved@, pricing@));
    let keeps: bool = ShotEvidence::keeps_row(&resolved.attribution, &active.attribution);
    let evidence_id: Option<String> = if keeps {
        let row = ShotEvidence::with_id(
            row_id.clone(),
            active.session.id.as_str(),
            active.intervals.context_id(),
            &active.attribution,
            observation,
            observed_at,
            &resolved,
            copy_optional(&tool),
            cost,
        );
        let ghost written = row@;
        active.accumulator.evidence.push(row);
        assert(text::views(active.accumulator.evidence@) =~= before.evidence.push(written));
        assert(written == evidence::row_of(
            row_id@,
            active.session.id@,
            active.intervals@.context_id,
            runtime,
            observation,
            observed_at,
            resolved@,
            resolved@.attribution.priced(),
            cost,
        ));
        Some(row_id)
    } else {
        None
    };
    let activation: Option<EffectActivation> = match &tool {
        Some(name) => EffectActivation::with_id(
            window_id,
            active.session.id.as_str(),
            active.intervals.context_id(),
            &active.attribution,
            name.as_str(),
            observation,
            observed_at,
            cost,
        ),
        None => None,
    };
    let opened_id: Option<String> = match &activation {
        Some(activation) => {
            active.attribution.open_effect_window(activation.window.clone());
            Some(activation.window.id.clone())
        },
        None => None,
    };
    let record = ShotRecord {
        seq,
        observed_at,
        observation,
        attribution: resolved.attribution.clone(),
        fits: copy_texts(&resolved.fits),
        windows: copy_texts(&resolved.windows),
        location: ShotLocation::Pending,
        evidence_id,
        booked: tool,
        cost,
        opened_window: opened_id,
    };
    proof {
        let kind = resolved@.attribution.kind();
        assert(active.attribution@.logged(kind) == applied.logged(kind));
    }
    active.attribution.remember(record);
    assert(active.accumulator@ =~= accumulated(
        before,
        runtime,
        stamp_of(*old(active)),
        observation,
        observed_at,
        resolved@,
        pricing@,
        row_id@,
    ));
    activation
}

/// Accumulate one offensive observation: a hit, or a jam, dodge, evade or
/// miss countered shot. Attribution names the weapon (or leaves the shot
/// unpriced); an effect tick is damage an earlier activation already paid
/// for, so it counts no shot and books no cost. Returns the effect the shot
/// opened, to be stored.
pub fn record_offensive_shot(
    active: &mut ActiveSession,
    observation: Observation,
    observed_at: i64,
    pricing: ShotPricing,
) -> (activation: Option<EffectActivation>)
    requires
        old(active).wf(),
        old(active).accumulator@.has_room(),
        old(active).attribution@.next_seq < i64::MAX,
        effects::ends_in_range(old(active).attribution@, observed_at),
    ensures
        final(active).wf(),
        ({
            let runtime = old(active).attribution@;
            let resolved = runtime.classified(observation, observed_at as int);
            &&& exists|row_id: Seq<char>, window_id: Seq<char>|
                {
                    &&& #[trigger] ids::id_shape(row_id)
                    &&& #[trigger] ids::id_shape(window_id)
                    &&& final(active).accumulator@ == accumulated(
                        old(active).accumulator@,
                        runtime,
                        stamp_of(*old(active)),
                        observation,
                        observed_at,
                        resolved,
                        pricing@,
                        row_id,
                    )
                    &&& final(active).attribution@ == attributed(
                        old(active).accumulator@,
                        runtime,
                        observation,
                        observed_at,
                        resolved,
                        pricing@,
                        row_id,
                        window_id,
                    )
                    &&& activation is Some ==> effect_of_shot(
                        activation->0,
                        *old(active),
                        observation,
                        observed_at,
                        pricing@,
                        window_id,
                    )
                }
            &&& (activation is Some) == opened_window(runtime, resolved, observation)
        }),
        *final(active) == (ActiveSession {
            accumulator: final(active).accumulator,
            attribution: final(active).attribution,
            dirty: true,
            ..*old(active)
        }),
{
    let row_id = fresh_id();
    let window_id = fresh_id();
    let ghost row = row_id@;
    let ghost window = window_id@;
    let activation = record_shot_with_ids(
        active,
        observation,
        observed_at,
        pricing,
        row_id,
        window_id,
    );
    assert(ids::id_shape(row) && ids::id_shape(window));
    activation
}

/// A parsed combat line of the chat log.
#[derive(Clone, Copy, Debug, PartialEq, Eq, Structural)]
pub enum CombatEvent {
    DamageDealt { amount: i64 },
    CriticalHit { amount: i64 },
    TargetDodge,
    TargetEvade,
    TargetJam,
    TargetMiss,
    DamageReceived { amount: i64 },
    SelfHeal { amount: i64 },
    PlayerDodge,
    PlayerEvade,
    PlayerJam,
    MobMiss,
    Deflect,
}

/// The offensive observation a combat line is, when it is one.
pub open spec fn observed(event: CombatEvent) -> Option<Observation> {
    match event {
        CombatEvent::DamageDealt { amount } => Some(Observation::Hit { amount, critical: false }),
        CombatEvent::CriticalHit { amount } => Some(Observation::Hit { amount, critical: true }),
        CombatEvent::TargetDodge => Some(Observation::Countered),
        CombatEvent::TargetEvade => Some(Observation::Countered),
        CombatEvent::TargetJam => Some(Observation::Countered),
        CombatEvent::TargetMiss => Some(Observation::Countered),
        _ => None,
    }
}

/// The offensive observation a combat line is, when it is one: a shot of the
/// player's that landed, or that the target countered.
pub fn offensive_observation(event: CombatEvent) -> (observation: Option<Observation>)
    ensures
        observation == observed(event),
{
    match event {
        CombatEvent::DamageDealt { amount } => Some(Observation::Hit { amount, critical: false }),
        CombatEvent::CriticalHit { amount } => Some(Observation::Hit { amount, critical: true }),
        CombatEvent::TargetDodge => Some(Observation::Countered),
        CombatEvent::TargetEvade => Some(Observation::Countered),
        CombatEvent::TargetJam => Some(Observation::Countered),
        CombatEvent::TargetMiss => Some(Observation::Countered),
        _ => None,
    }
}

/// One defensive event, as it is stored for later armour costing.
#[derive(Debug, PartialEq, Eq)]
pub struct DefenceEvidence {
    pub session_id: String,
    pub context_id: Option<i64>,
    pub damage: Option<i64>,
    pub deflected: bool,
}

/// What a combat line left to be stored.
#[derive(Debug, PartialEq, Eq)]
pub struct CombatOutcome {
    /// The effect window a paid hit opened.
    pub activation: Option<EffectActivation>,
    /// The defensive event, where the session tracks protection costs.
    pub defence: Option<DefenceEvidence>,
    /// Damage the healing runtime correlates lifesteal with.
    pub damage_note: Option<i64>,
}

/// The run after a line that is no shot: damage received is taken, and no other
/// line changes it.
pub open spec fn after_defence(run: AccumulatorView, event: CombatEvent) -> AccumulatorView {
    match event {
        CombatEvent::DamageReceived { amount } => AccumulatorView {
            damage_taken: run.damage_taken + amount,
            ..run
        },
        _ => run,
    }
}

/// The defensive event a line is, as damage taken and whether it deflected.
pub open spec fn defended(event: CombatEvent) -> Option<(Option<i64>, bool)> {
    match event {
        CombatEvent::DamageReceived { amount } => Some((Some(amount), false)),
        CombatEvent::Deflect => Some((None, true)),
        _ => None,
    }
}

/// Absorb a parsed combat line. Offensive lines are recorded as shots or
/// ticks; a received hit counts its damage; a received hit or a deflection is
/// handed back for storing where the session tracks protection costs; a heal
/// is left to the healing runtime, and the player's own defences do not move
/// the session. `pricing` is that of the weapon the line resolves to.
pub fn absorb_combat(
    active: &mut ActiveSession,
    event: CombatEvent,
    observed_at: i64,
    pricing: ShotPricing,
) -> (outcome: CombatOutcome)
    requires
        old(active).wf(),
        old(active).accumulator@.has_room(),
        -i128::MAX - i64::MIN <= old(active).accumulator@.damage_taken <= i128::MAX - i64::MAX,
        old(active).attribution@.next_seq < i64::MAX,
        effects::ends_in_range(old(active).attribution@, observed_at),
    ensures
        final(active).wf(),
        match observed(event) {
            Some(observation) => {
                let runtime = old(active).attribution@;
                let resolved = runtime.classified(observation, observed_at as int);
                &&& final(active).dirty
                &&& *final(active) == (ActiveSession {
                    accumulator: final(active).accumulator,
                    attribution: final(active).attribution,
                    dirty: true,
                    ..*old(active)
                })
                &&& outcome.defence is None
                &&& (outcome.activation is Some) == opened_window(runtime, resolved, observation)
                &&& exists|row_id: Seq<char>, window_id: Seq<char>|
                    {
                        &&& #[trigger] ids::id_shape(row_id)
                        &&& #[trigger] ids::id_shape(window_id)
                        &&& final(active).accumulator@ == accumulated(
                            old(active).accumulator@,
                            runtime,
                            stamp_of(*old(active)),
                            observation,
                            observed_at,
                            resolved,
                            pricing@,
                            row_id,
                        )
                        &&& final(active).attribution@ == attributed(
                            old(active).accumulator@,
                            runtime,
                            observation,
                            observed_at,
                            resolved,
                            pricing@,
                            row_id,
                            window_id,
                        )
                        &&& outcome.activation is Some ==> effect_of_shot(
                            outcome.activation->0,
                            *old(active),
                            observation,
                            observed_at,
                            pricing@,
                            window_id,
                        )
                    }
            },
            None => {
                &&& outcome.activation is None
                &&& (outcome.defence is Some) == (defended(event) is Some
                    && old(active).facets.track_protection_costs)
                &&& outcome.defence is Some ==> {
                    &&& outcome.defence->0.session_id@ == old(active).session.id@
                    &&& outcome.defence->0.context_id == old(active).intervals@.context_id
                    &&& Some((outcome.defence->0.damage, outcome.defence->0.deflected))
                        == defended(event)
                }
                &&& final(active).accumulator@ == after_defence(old(active).accumulator@, event)
                &&& match event {
                    CombatEvent::DamageReceived { .. } => {
                        &&& *final(active) == (ActiveSession {
                            accumulator: final(active).accumulator,
                            dirty: true,
                            ..*old(active)
                        })
                    },
                    _ => *final(active) == *old(active),
                }
            },
        },
        outcome.damage_note == (match observed(event) {
            Some(Observation::Hit { amount, .. }) => Some(amount),
            _ => None,
        }),
{
    let mut outcome = CombatOutcome { activation: None, defence: None, damage_note: None };
    match offensive_observation(event) {
        Some(observation) => {
            outcome.activation = record_offensive_shot(active, observation, observed_at, pricing);
            outcome.damage_note = match observation {
                Observation::Hit { amount, .. } => Some(amount),
                Observation::Countered => None,
            };
            return outcome;
        },
        None => {},
    }
    let (damage, deflected): (Option<i64>, bool) = match event {
        CombatEvent::DamageReceived { amount } => {
            active.accumulator.damage_taken = active.accumulator.damage_taken + amount as i128;
            active.dirty = true;
            (Some(amount), false)
        },
        CombatEvent::Deflect => (None, true),
        _ => {
            return outcome;
        },
    };
    if active.facets.track_protection_costs {
        outcome.defence = Some(
            DefenceEvidence {
                session_id: active.session.id.clone(),
                context_id: active.intervals.context_id(),
                damage,
                deflected,
            },
        );
    }
    outcome
}

/// A defensive event could not be stored: say so once for the session.
pub fn note_defence_failure(active: &mut ActiveSession)
    ensures
        text::views(final(active).warnings@) == (if old(
            active,
        ).protection_evidence_warning_emitted {
            text::views(old(active).warnings@)
        } else {
            text::views(old(active).warnings@).push(
                "Protection accounting degraded: defensive evidence could not be saved"@,
            )
        }),
        *final(active) == (ActiveSession {
            warnings: final(active).warnings,
            protection_evidence_warning_emitted: true,
            dirty: true,
            ..*old(active)
        }),
{
    let ghost before = text::views(active.warnings@);
    if !active.protection_evidence_warning_emitted {
        let message = "Protection accounting degraded: defensive evidence could not be saved";
        active.warnings.push(message.to_owned());
        assert(text::views(active.warnings@) =~= before.push(message@));
        active.protection_evidence_warning_emitted = true;
    }
    active.dirty = true;
}

/// An effect window could not be stored: say so once. The window stays in
/// memory, where its ticks are still ticks.
pub fn note_effect_failure(active: &mut ActiveSession)
    ensures
        ({
            let message =
                "A weapon effect could not be saved; after a restart its ticks are judged by damage alone"@;
            text::views(final(active).warnings@) == (if text::views(
                old(active).warnings@,
            ).contains(message) {
                text::views(old(active).warnings@)
            } else {
                text::views(old(active).warnings@).push(message)
            })
        }),
        *final(active) == (ActiveSession {
            warnings: final(active).warnings,
            dirty: true,
            ..*old(active)
        }),
{
    active.warn_once(
        "A weapon effect could not be saved; after a restart its ticks are judged by damage alone",
    );
}

/// Whether the hand holds this item as this kind.
pub open spec fn holds(held: Option<HeldItem>, name: Seq<char>, kind: HotbarItemKind) -> bool {
    held is Some && held->0.name@ == name && held->0.kind == kind
}

/// Put an item in the hand; true when the hand changed.
pub fn take_in_hand(held: &mut Option<HeldItem>, name: &str, kind: HotbarItemKind) -> (changed:
    bool)
    ensures
        changed == !holds(*old(held), name@, kind),
        holds(*final(held), name@, kind),
{
    let changed: bool = match held {
        Some(item) => !same_text(item.name.as_str(), name) || item.kind != kind,
        None => true,
    };
    *held = Some(HeldItem { name: name.to_owned(), kind });
    changed
}

/// A hotbar weapon press in a running session: the pressed weapon is declared
/// from here and a new attribution regime starts. A standing cue of either
/// guardrail is resolved by it, and no evidence may reach back past it. True
/// when the readout changed: a cue was cleared, or the declared weapon moved.
pub fn press_weapon(active: &mut ActiveSession, tool_name: &str, pressed_at: i64) -> (changed: bool)
    requires
        old(active).wf(),
    ensures
        final(active).wf(),
        final(active).attribution@ == old(active).attribution@.declaring(tool_name@, pressed_at),
        changed == (old(active).guardrail_mismatch is Some || old(
            active,
        ).attribution@.mismatch is Some || old(active).attribution@.declared != Some(tool_name@)),
        *final(active) == (ActiveSession {
            attribution: final(active).attribution,
            guardrail_mismatch: None,
            harvest_press_floor: old(active).session.harvests.len(),
            ..*old(active)
        }),
{
    let cleared: bool = active.guardrail_mismatch.is_some()
        || active.attribution.mismatch().is_some();
    active.guardrail_mismatch = None;
    active.harvest_press_floor = active.session.harvests.len();
    let declared_changed: bool = match active.attribution.declared() {
        Some(declared) => !same_text(declared, tool_name),
        None => true,
    };
    active.attribution.declare(tool_name, pressed_at);
    cleared || declared_changed
}

/// A harvesting-tool press in a running session re-syncs the belief with the
/// game: both guardrails' cues are resolved, and no evidence may reach back
/// past it. True when a cue was cleared.
pub fn press_harvest_tool(active: &mut ActiveSession) -> (changed: bool)
    requires
        old(active).wf(),
    ensures
        final(active).wf(),
        final(active).attribution@ == old(active).attribution@.floored(),
        changed == (old(active).guardrail_mismatch is Some || old(
            active,
        ).attribution@.mismatch is Some),
        *final(active) == (ActiveSession {
            attribution: final(active).attribution,
            guardrail_mismatch: None,
            harvest_press_floor: old(active).session.harvests.len(),
            ..*old(active)
        }),
{
    let cleared: bool = active.guardrail_mismatch.is_some()
        || active.attribution.mismatch().is_some();
    active.guardrail_mismatch = None;
    active.harvest_press_floor = active.session.harvests.len();
    active.attribution.resync();
    cleared
}

/// A hotbar weapon press: the hand holds the weapon, and in a running session
/// it is declared. Gives the session whose readout changed, to be shown anew.
/// A press that names no weapon does nothing.
pub fn on_weapon_press(
    state: &mut SessionState,
    held: &mut Option<HeldItem>,
    tool_name: &str,
    pressed_at: i64,
) -> (nudge: Option<String>)
    requires
        match *old(state) {
            SessionState::Active(active) => active.wf(),
            SessionState::Idle => true,
        },
    ensures
        tool_name@.len() == 0 ==> *final(state) == *old(state) && *final(held) == *old(held)
            && nudge is None,
        tool_name@.len() > 0 ==> {
            &&& holds(*final(held), tool_name@, HotbarItemKind::Weapon)
            &&& match *old(state) {
                SessionState::Idle => *final(state) is Idle && nudge is None,
                SessionState::Active(before) => {
                    &&& *final(state) matches SessionState::Active(after)
                    &&& after.wf()
                    &&& after.attribution@ == before.attribution@.declaring(
                        tool_name@,
                        pressed_at,
                    )
                    &&& *after == (ActiveSession {
                        attribution: after.attribution,
                        guardrail_mismatch: None,
                        harvest_press_floor: before.session.harvests.len(),
                        ..*before
                    })
                    &&& text::opt_view(nudge) == (if !holds(
                        *old(held),
                        tool_name@,
                        HotbarItemKind::Weapon,
                    ) || before.guardrail_mismatch is Some || before.attribution@.mismatch is Some
                        || before.attribution@.declared != Some(tool_name@) {
                        Some(before.session@.id)
                    } else {
                        None
                    })
                },
            }
        },
{
    if tool_name.is_empty() {
        return None;
    }
    let hand_changed = take_in_hand(held, tool_name, HotbarItemKind::Weapon);
    match state {
        SessionState::Idle => None,
        SessionState::Active(active) => {
            let changed = press_weapon(active, tool_name, pressed_at);
            if hand_changed || changed {
                Some(active.session.id.clone())
            } else {
                None
            }
        },
    }
}

/// A hotbar heal-tool equip: the hand now holds the healer. Gives the session
/// whose readout changed, to be shown anew.
pub fn on_heal_tool_changed(
    state: &SessionState,
    held: &mut Option<HeldItem>,
    tool_name: &str,
) -> (nudge: Option<String>)
    ensures
        holds(*final(held), tool_name@, HotbarItemKind::Healing),
        text::opt_view(nudge) == (match *state {
            SessionState::Active(active) => if !holds(
                *old(held),
                tool_name@,
                HotbarItemKind::Healing,
            ) {
                Some(active.session@.id)
            } else {
                None
            },
            SessionState::Idle => None,
        }),
{
    let changed = take_in_hand(held, tool_name, HotbarItemKind::Healing);
    match state {
        SessionState::Active(active) => if changed {
            Some(active.session.id.clone())
        } else {
            None
        },
        SessionState::Idle => None,
    }
}

/// What is recorded bills each activation once: an effect tick adds no shot,
/// no cost and no phase, and every other observation adds exactly one shot.
pub proof fn ticks_never_bill(
    accumulator: AccumulatorView,
    runtime: RuntimeView,
    stamp: StampView,
    observation: Observation,
    at: i64,
    pricing: PricingView,
    row_id: Seq<char>,
)
    ensures
        ({
            let resolved = runtime.classified(observation, at as int);
            let after = accumulated(
                accumulator,
                runtime,
                stamp,
                observation,
                at,
                resolved,
                pricing,
                row_id,
            );
            if resolved.attribution is EffectTick {
                &&& after.shots_fired == accumulator.shots_fired
                &&& after.tool_stats == accumulator.tool_stats
                &&& after.critical_hits == accumulator.critical_hits
                &&& after.evidence.last().cost_per_shot == Ped(0)
                &&& after.evidence.last().tool_name is None
            } else {
                &&& after.shots_fired == accumulator.shots_fired + 1
                &&& phases::total_shots(after.tool_stats) == phases::total_shots(
                    accumulator.tool_stats,
                ) + 1
            }
        }),
{
    let resolved = runtime.classified(observation, at as int);
    phases::booking_adds_one_shot(
        accumulator.tool_stats,
        resolved.attribution.priced(),
        pricing.price,
        pricing.expected,
        pricing.library,
        observation.size() as int,
        observation.is_critical(),
    );
    phases::booking_adds_one_shot(
        accumulator.tool_stats,
        None,
        Ped(0),
        None,
        Ped(0),
        observation.size() as int,
        observation.is_critical(),
    );
}

} // verus!
