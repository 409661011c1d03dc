//! What the live session knows of healing, and how its readout reads it.

use crate::text;
use vstd::prelude::*;

verus! {

/// The held healer's declared reload.
#[derive(Debug, PartialEq, Eq)]
pub struct HealingIntent {
    pub equipment_id: i64,
    pub tool_name: String,
    /// How long the healer reloads under the speed in effect.
    pub reload: i64,
    /// How long it reloads at no speed, when its profile says so.
    pub base_reload: Option<i64>,
    /// The reload speed its profile was timed under.
    pub reload_speed_percent: Option<i64>,
    /// The reload its profile was timed at.
    pub effective_reload: Option<i64>,
}

impl HealingIntent {
    /// Re-time the held healer under a new reload speed in effect, at the
    /// reload that speed makes of its base. A profile without a base reload
    /// stays as it is.
    pub fn apply_reload_speed(&mut self, speed_percent: i64, effective: i64)
        ensures
            *final(self) == (if old(self).base_reload is Some {
                HealingIntent {
                    reload: effective,
                    reload_speed_percent: Some(speed_percent),
                    effective_reload: Some(effective),
                    ..*old(self)
                }
            } else {
                *old(self)
            }),
    {
        if let Some(_) = self.base_reload {
            self.reload = effective;
            self.reload_speed_percent = Some(speed_percent);
            self.effective_reload = Some(effective);
        }
    }
}

/// What the live readout reads of healing.
#[derive(Debug, PartialEq, Eq)]
pub struct HealingRuntime {
    pub intent: Option<HealingIntent>,
    /// When each open heal-over-time effect expires.
    pub effect_expiries: Vec<i64>,
    /// Which healer was used when, in the order they were used.
    pub activations: Vec<(i64, i64)>,
    pub activation_count: i64,
    pub direct_output_count: i64,
    pub effect_output_count: i64,
    pub passive_output_count: i64,
    pub unattributed_output_count: i64,
}

impl HealingRuntime {
    /// Nothing was healed yet and no healer is held.
    pub open spec fn untouched(self) -> bool {
        &&& self.intent is None
        &&& self.effect_expiries@.len() == 0
        &&& self.activations@.len() == 0
        &&& self.activation_count == 0
        &&& self.direct_output_count == 0
        &&& self.effect_output_count == 0
        &&& self.passive_output_count == 0
        &&& self.unattributed_output_count == 0
    }
}

impl Default for HealingRuntime {
    fn default() -> (healing: Self)
        ensures
            healing.untouched(),
    {
        HealingRuntime {
            intent: None,
            effect_expiries: Vec::new(),
            activations: Vec::new(),
            activation_count: 0,
            direct_output_count: 0,
            effect_output_count: 0,
            passive_output_count: 0,
            unattributed_output_count: 0,
        }
    }
}

/// When a healer was last used.
pub open spec fn last_use(activations: Seq<(i64, i64)>, equipment_id: i64) -> Option<i64>
    decreases activations.len(),
{
    if activations.len() == 0 {
        None
    } else if activations.last().0 == equipment_id {
        Some(activations.last().1)
    } else {
        last_use(activations.drop_last(), equipment_id)
    }
}

/// The latest expiry that is not past.
pub open spec fn latest_standing(expiries: Seq<i64>, now: i64) -> Option<i64>
    decreases expiries.len(),
{
    if expiries.len() == 0 {
        None
    } else {
        let rest = latest_standing(expiries.drop_last(), now);
        let last = expiries.last();
        if last >= now && (rest is None || rest->0 <= last) {
            Some(last)
        } else {
            rest
        }
    }
}

/// The latest standing expiry is one of them, not past, and none is later.
pub proof fn the_latest_expiry_stands(expiries: Seq<i64>, now: i64)
    ensures
        match latest_standing(expiries, now) {
            Some(until) => until >= now && expiries.contains(until) && forall|i: int|
                0 <= i < expiries.len() ==> #[trigger] expiries[i] <= until,
            None => forall|i: int| 0 <= i < expiries.len() ==> #[trigger] expiries[i] < now,
        },
    decreases expiries.len(),
{
    if expiries.len() > 0 {
        let rest = expiries.drop_last();
        the_latest_expiry_stands(rest, now);
        assert(expiries.last() == expiries[expiries.len() - 1]);
        assert forall|i: int| 0 <= i < expiries.len() implies #[trigger] expiries[i]
            == expiries.last() || (i < rest.len() && expiries[i] == rest[i]) by {}
        if let Some(until) = latest_standing(rest, now) {
            let at = choose|at: int| 0 <= at < rest.len() && rest[at] == until;
            assert(expiries[at] == until);
        }
    }
}

impl HealingRuntime {
    /// When a healer was last used.
    pub fn last_activation_at(&self, equipment_id: i64) -> (at: Option<i64>)
        ensures
            at == last_use(self.activations@, equipment_id),
    {
        let ghost all = self.activations@;
        let mut i: usize = self.activations.len();
        assert(all.take(i as int) =~= all);
        while i > 0
            invariant
                i <= self.activations.len(),
                all == self.activations@,
                last_use(all, equipment_id) == last_use(all.take(i as int), equipment_id),
            decreases i,
        {
            let ghost run = all.take(i as int);
            assert(run.last() == all[i - 1]);
            assert(run.drop_last() =~= all.take(i - 1));
            if self.activations[i - 1].0 == equipment_id {
                return Some(self.activations[i - 1].1);
            }
            i -= 1;
        }
        None
    }

    /// The latest effect expiry that is not past.
    pub fn effect_until(&self, now: i64) -> (until: Option<i64>)
        ensures
            until == latest_standing(self.effect_expiries@, now),
    {
        let ghost all = self.effect_expiries@;
        let mut until: Option<i64> = None;
        let mut i: usize = 0;
        while i < self.effect_expiries.len()
            invariant
                i <= self.effect_expiries.len(),
                all == self.effect_expiries@,
                until == latest_standing(all.take(i as int), now),
            decreases self.effect_expiries.len() - i,
        {
            proof {
                let next = all.take(i as int + 1);
                assert(next.drop_last() =~= all.take(i as int));
                assert(next.last() == all[i as int]);
            }
            let expires: i64 = self.effect_expiries[i];
            if expires >= now {
                until = match until {
                    Some(best) => if best <= expires {
                        Some(expires)
                    } else {
                        Some(best)
                    },
                    None => Some(expires),
                };
            }
            i += 1;
        }
        assert(all.take(all.len() as int) =~= all);
        until
    }

    /// When the held healer can be used again, if it cannot yet.
    pub fn cooldown_until(&self, now: i64) -> (until: Option<i128>)
        ensures
            until == cooling_until(*self, now),
    {
        match &self.intent {
            Some(intent) => match self.last_activation_at(intent.equipment_id) {
                Some(last) => {
                    let until: i128 = last as i128 + intent.reload as i128;
                    if until > now as i128 {
                        Some(until)
                    } else {
                        None
                    }
                },
                None => None,
            },
            None => None,
        }
    }
}

/// When the held healer can be used again, if it cannot yet.
pub open spec fn cooling_until(healing: HealingRuntime, now: i64) -> Option<i128> {
    match healing.intent {
        Some(intent) => match last_use(healing.activations@, intent.equipment_id) {
            Some(last) => if last + intent.reload > now {
                Some((last + intent.reload) as i128)
            } else {
                None
            },
            None => None,
        },
        None => None,
    }
}

/// What healing is doing.
#[derive(Clone, Copy, Debug, PartialEq, Eq, Structural)]
pub enum HealingState {
    /// A heal-over-time effect runs.
    Effect,
    /// The held healer reloads.
    Cooldown,
    /// A healer is held and could be used.
    Ready,
    /// No healer is held.
    Passive,
}

impl HealingState {
    /// What the readout calls the state.
    pub open spec fn word(self) -> Seq<char> {
        match self {
            HealingState::Effect => "effect"@,
            HealingState::Cooldown => "cooldown"@,
            HealingState::Ready => "ready"@,
            HealingState::Passive => "passive"@,
        }
    }

    /// What the readout calls the state.
    pub fn as_str(self) -> (word: &'static str)
        ensures
            word@ == self.word(),
    {
        match self {
            HealingState::Effect => "effect",
            HealingState::Cooldown => "cooldown",
            HealingState::Ready => "ready",
            HealingState::Passive => "passive",
        }
    }
}

/// The readout of healing.
#[derive(Debug, PartialEq, Eq)]
pub struct HealingReadout {
    pub tool_name: Option<String>,
    pub state: HealingState,
    pub cooldown_until: Option<i128>,
    pub effect_until: Option<i64>,
    pub activation_count: i64,
    pub direct_output_count: i64,
    pub effect_output_count: i64,
    pub passive_output_count: i64,
    pub unattributed_output_count: i64,
}

/// The name of the held healer.
pub open spec fn held_healer(healing: HealingRuntime) -> Option<Seq<char>> {
    match healing.intent {
        Some(intent) => Some(intent.tool_name@),
        None => None,
    }
}

impl HealingReadout {
    /// Whether this is what healing reads as at an instant: a running effect
    /// first, next a reload, next a held healer.
    pub open spec fn of(self, healing: HealingRuntime, now: i64) -> bool {
        &&& text::opt_view(self.tool_name) == held_healer(healing)
        &&& self.effect_until == latest_standing(healing.effect_expiries@, now)
        &&& self.cooldown_until == cooling_until(healing, now)
        &&& self.state == (if self.effect_until is Some {
            HealingState::Effect
        } else if self.cooldown_until is Some {
            HealingState::Cooldown
        } else if healing.intent is Some {
            HealingState::Ready
        } else {
            HealingState::Passive
        })
        &&& self.activation_count == healing.activation_count
        &&& self.direct_output_count == healing.direct_output_count
        &&& self.effect_output_count == healing.effect_output_count
        &&& self.passive_output_count == healing.passive_output_count
        &&& self.unattributed_output_count == healing.unattributed_output_count
    }
}

/// Read healing at an instant.
pub fn read_healing(healing: &HealingRuntime, now: i64) -> (readout: HealingReadout)
    ensures
        readout.of(*healing, now),
{
    let effect_until = healing.effect_until(now);
    let cooldown_until = healing.cooldown_until(now);
    let tool_name: Option<String> = match &healing.intent {
        Some(intent) => Some(intent.tool_name.clone()),
        None => None,
    };
    let state = if effect_until.is_some() {
        HealingState::Effect
    } else if cooldown_until.is_some() {
        HealingState::Cooldown
    } else if tool_name.is_some() {
        HealingState::Ready
    } else {
        HealingState::Passive
    };
    HealingReadout {
        tool_name,
        state,
        cooldown_until,
        effect_until,
        activation_count: healing.activation_count,
        direct_output_count: healing.direct_output_count,
        effect_output_count: healing.effect_output_count,
        passive_output_count: healing.passive_output_count,
        unattributed_output_count: healing.unattributed_output_count,
    }
}

} // verus!
