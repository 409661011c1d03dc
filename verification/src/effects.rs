//! Damage-over-time effect windows.
//!
//! A paid hit of a weapon with a declared damage-over-time effect opens a
//! window for the effect's duration, measured from the moment the hit was
//! observed. The window goes into attribution at once (the very next line may
//! be its first tick) and is stored straight after, so it outlives the
//! process: every session start reads back each window whose absolute expiry
//! is still ahead, whichever session paid for it. Expiry is a comparison with
//! the clock, never a timer.
//!
//! The window carries no cost: the activation's price lives with its shot, in
//! the kill the shot settles into.

use crate::attribution::{
    Observation, OffensiveEffectWindow, WeaponEffectProfile, WeaponView, WindowView,
};
use crate::ids;
use crate::ids::fresh_id;
use crate::lists;
use crate::regime;
use crate::regime::{AttributionRuntime, RuntimeView};
use crate::text;
use crate::text::sorts_before;
use crate::units::Ped;
use vstd::prelude::*;

verus! {

/// One paid hit that opened an effect, as its window row keeps it.
#[derive(Debug, PartialEq, Eq)]
pub struct EffectActivation {
    pub window: OffensiveEffectWindow,
    pub session_id: String,
    pub context_id: Option<i64>,
    pub hit_amount: i64,
    pub critical: bool,
    pub cost_per_shot: Ped,
    pub profile: WeaponEffectProfile,
}

/// The weapon a shot of `tool` opens an effect for: a carried one that
/// declares one, whose shot landed.
pub open spec fn opener(runtime: RuntimeView, tool: Seq<char>, observation: Observation) -> Option<
    WeaponView,
> {
    match regime::named(runtime.carried, tool) {
        Some(weapon) => if observation is Hit && weapon.effect is Some {
            Some(weapon)
        } else {
            None
        },
        None => None,
    }
}

/// The window an effect opens: it ticks from the hit for the effect's
/// duration.
pub open spec fn window_of(id: Seq<char>, weapon: WeaponView, observed_at: i64) -> WindowView {
    let ends = observed_at + weapon.effect->0.duration;
    WindowView {
        id,
        tool: weapon.name,
        equipment_id: Some(weapon.equipment_id),
        started_at: observed_at,
        expires_at: ends as i64,
        tick: weapon.effect->0.tick(),
    }
}

/// Whether every declared effect's end can be counted from this moment.
pub open spec fn ends_in_range(runtime: RuntimeView, observed_at: i64) -> bool {
    forall|i: int|
        0 <= i < runtime.carried.len() && (#[trigger] runtime.carried[i]).effect is Some
            ==> i64::MIN <= observed_at + runtime.carried[i].effect->0.duration <= i64::MAX
}

/// Whether every declared effect's end can be counted from this moment.
pub fn ends_fit(runtime: &AttributionRuntime, observed_at: i64) -> (yes: bool)
    ensures
        yes == ends_in_range(runtime@, observed_at),
{
    let carried = runtime.carried();
    let mut i: usize = 0;
    while i < carried.len()
        invariant
            i <= carried.len(),
            text::views(carried@) == runtime@.carried,
            forall|j: int|
                0 <= j < i && (#[trigger] runtime@.carried[j]).effect is Some ==> i64::MIN
                    <= observed_at + runtime@.carried[j].effect->0.duration <= i64::MAX,
        decreases carried.len() - i,
    {
        assert(runtime@.carried[i as int] == carried@[i as int]@);
        if let Some(effect) = carried[i].effect {
            let ends: i128 = observed_at as i128 + effect.duration as i128;
            if ends < i64::MIN as i128 || ends > i64::MAX as i128 {
                return false;
            }
        }
        i += 1;
    }
    true
}

/// A weapon found by name is one of those carried.
proof fn named_is_carried(carried: Seq<WeaponView>, tool: Seq<char>)
    ensures
        regime::named(carried, tool) is Some ==> carried.contains(regime::named(carried, tool)->0)
            && regime::named(carried, tool)->0.name == tool,
    decreases carried.len(),
{
    if carried.len() > 0 && carried[0].name != tool {
        let rest = carried.skip(1);
        named_is_carried(rest, tool);
        if regime::named(rest, tool) is Some {
            let found = regime::named(rest, tool)->0;
            let i = choose|i: int| 0 <= i < rest.len() && rest[i] == found;
            assert(carried[i + 1] == found);
        }
    }
}

impl EffectActivation {
    /// The effect a priced shot opens, under a given window id: a hit (a jam,
    /// dodge, evade, or miss lands nothing, so starts nothing) of a carried
    /// weapon that declares one.
    pub fn with_id(
        id: String,
        session_id: &str,
        context_id: Option<i64>,
        runtime: &AttributionRuntime,
        tool: &str,
        observation: Observation,
        observed_at: i64,
        cost_per_shot: Ped,
    ) -> (activation: Option<Self>)
        requires
            ends_in_range(runtime@, observed_at),
        ensures
            match opener(runtime@, tool@, observation) {
                Some(weapon) => {
                    &&& activation is Some
                    &&& activation->0.window@ == window_of(id@, weapon, observed_at)
                    &&& activation->0.window.expires_at == observed_at + weapon.effect->0.duration
                    &&& activation->0.session_id@ == session_id@
                    &&& activation->0.context_id == context_id
                    &&& activation->0.hit_amount == observation.size()
                    &&& activation->0.critical == observation.is_critical()
                    &&& activation->0.cost_per_shot == cost_per_shot
                    &&& activation->0.profile == weapon.effect->0
                },
                None => activation is None,
            },
    {
        let (amount, critical): (i64, bool) = match observation {
            Observation::Hit { amount, critical } => (amount, critical),
            Observation::Countered => {
                return None;
            },
        };
        match runtime.effect_of(tool) {
            Some((weapon, profile)) => {
                proof {
                    named_is_carried(runtime@.carried, tool@);
                    let i = choose|i: int|
                        0 <= i < runtime@.carried.len() && runtime@.carried[i] == weapon@;
                    assert(runtime@.carried[i].effect is Some);
                }
                Some(
                    EffectActivation {
                        window: OffensiveEffectWindow {
                            id,
                            tool: weapon.name.clone(),
                            equipment_id: Some(weapon.equipment_id),
                            started_at: observed_at,
                            expires_at: observed_at + profile.duration,
                            tick: profile.tick_band(),
                        },
                        session_id: session_id.to_owned(),
                        context_id,
                        hit_amount: amount,
                        critical,
                        cost_per_shot,
                        profile,
                    },
                )
            },
            None => None,
        }
    }

    /// The effect a priced shot opens, under a fresh window id.
    pub fn for_shot(
        session_id: &str,
        context_id: Option<i64>,
        runtime: &AttributionRuntime,
        tool: &str,
        observation: Observation,
        observed_at: i64,
        cost_per_shot: Ped,
    ) -> (activation: Option<Self>)
        requires
            ends_in_range(runtime@, observed_at),
        ensures
            match opener(runtime@, tool@, observation) {
                Some(weapon) => {
                    &&& activation is Some
                    &&& ids::id_shape(activation->0.window.id@)
                    &&& activation->0.window@ == window_of(
                        activation->0.window.id@,
                        weapon,
                        observed_at,
                    )
                    &&& activation->0.session_id@ == session_id@
                    &&& activation->0.context_id == context_id
                    &&& activation->0.hit_amount == observation.size()
                    &&& activation->0.critical == observation.is_critical()
                    &&& activation->0.cost_per_shot == cost_per_shot
                    &&& activation->0.profile == weapon.effect->0
                },
                None => activation is None,
            },
    {
        Self::with_id(
            fresh_id(),
            session_id,
            context_id,
            runtime,
            tool,
            observation,
            observed_at,
            cost_per_shot,
        )
    }
}

/// A window as it is stored, with when a decision took it back.
#[derive(Debug, PartialEq, Eq)]
pub struct StoredWindow {
    pub window: OffensiveEffectWindow,
    pub withdrawn_at: Option<i64>,
}

/// A stored window as contracts read it.
pub struct StoredWindowView {
    pub window: WindowView,
    pub withdrawn_at: Option<i64>,
}

impl View for StoredWindow {
    type V = StoredWindowView;

    open spec fn view(&self) -> StoredWindowView {
        StoredWindowView { window: self.window@, withdrawn_at: self.withdrawn_at }
    }
}

/// The windows still able to explain a tick at `now`: not over with the
/// delivery tail, and taken back by no decision.
pub open spec fn still_live(now: int) -> spec_fn(StoredWindowView) -> bool {
    |stored: StoredWindowView| stored.window.lasts_to(now) && stored.withdrawn_at is None
}

/// One window opening before another, or with it and sorting no later by id.
pub open spec fn opens_before(a: WindowView, b: WindowView) -> bool {
    a.started_at < b.started_at || (a.started_at == b.started_at && !text::lex_less(b.id, a.id))
}

/// A window put in its place among windows in opening order, after those it
/// does not open before.
pub open spec fn insert_window(sorted: Seq<WindowView>, window: WindowView) -> Seq<WindowView>
    decreases sorted.len(),
{
    if sorted.len() == 0 {
        seq![window]
    } else if opens_before(sorted.last(), window) {
        sorted.push(window)
    } else {
        insert_window(sorted.drop_last(), window).push(sorted.last())
    }
}

/// Windows in opening order.
pub open spec fn in_opening_order(windows: Seq<StoredWindowView>) -> Seq<WindowView>
    decreases windows.len(),
{
    if windows.len() == 0 {
        Seq::empty()
    } else {
        insert_window(in_opening_order(windows.drop_last()), windows.last().window)
    }
}

fn comes_before(a: &OffensiveEffectWindow, b: &OffensiveEffectWindow) -> (before: bool)
    ensures
        before == opens_before(a@, b@),
{
    a.started_at < b.started_at || (a.started_at == b.started_at && !sorts_before(
        b.id.as_str(),
        a.id.as_str(),
    ))
}

fn place_window(sorted: &mut Vec<OffensiveEffectWindow>, window: OffensiveEffectWindow)
    ensures
        text::views(final(sorted)@) == insert_window(text::views(old(sorted)@), window@),
{
    let ghost before = text::views(sorted@);
    let ghost placed = window@;
    let mut at: usize = sorted.len();
    assert(before.take(at as int) =~= before);
    assert(before.skip(at as int) =~= Seq::empty());
    assert(insert_window(before, placed) + Seq::<WindowView>::empty() =~= insert_window(
        before,
        placed,
    ));
    while at > 0 && !comes_before(&sorted[at - 1], &window)
        invariant
            at <= sorted.len(),
            sorted@ == old(sorted)@,
            before == text::views(old(sorted)@),
            placed == window@,
            insert_window(before, placed) == insert_window(before.take(at as int), placed)
                + before.skip(at as int),
        decreases at,
    {
        proof {
            let head = before.take(at as int);
            assert(head.last() == before[at as int - 1]);
            assert(head.drop_last() =~= before.take(at as int - 1));
            let rest = insert_window(before.take(at as int - 1), placed);
            assert(rest.push(before[at as int - 1]) + before.skip(at as int) =~= rest
                + before.skip(at as int - 1));
        }
        at -= 1;
    }
    proof {
        let head = before.take(at as int);
        if at > 0 {
            assert(head.last() == before[at as int - 1]);
        }
        assert(insert_window(head, placed) =~= head.push(placed));
        assert(head.push(placed) + before.skip(at as int) =~= before.insert(at as int, placed));
    }
    sorted.insert(at, window);
    assert(text::views(sorted@) =~= before.insert(at as int, placed));
}

/// Every window still able to explain a tick at `now`, in the order it
/// opened.
pub fn live_windows(stored: &Vec<StoredWindow>, now: i64) -> (live: Vec<OffensiveEffectWindow>)
    ensures
        text::views(live@) == in_opening_order(
            text::views(stored@).filter(still_live(now as int)),
        ),
{
    let ghost all = text::views(stored@);
    let ghost keep = still_live(now as int);
    let mut live: Vec<OffensiveEffectWindow> = Vec::new();
    let mut i: usize = 0;
    proof {
        lists::filter_none(all, keep);
        assert(text::views(live@) =~= Seq::empty());
    }
    while i < stored.len()
        invariant
            i <= stored.len(),
            all == text::views(stored@),
            keep == still_live(now as int),
            text::views(live@) == in_opening_order(all.take(i as int).filter(keep)),
        decreases stored.len() - i,
    {
        let row = &stored[i];
        proof {
            lists::filter_step(all, i as int, keep);
            assert(all[i as int] == row@);
            let had = all.take(i as int).filter(keep);
            assert(had.push(row@).drop_last() =~= had);
        }
        if row.window.outlasts(now) && row.withdrawn_at.is_none() {
            place_window(&mut live, row.window.clone());
        }
        i += 1;
    }
    proof {
        lists::filter_all(all, keep);
    }
    live
}

} // verus!
