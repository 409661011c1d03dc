//! The attribution runtime: the carried weapons, what the hotbar declared,
//! the standing mismatch, the open effect windows, and the log of the current
//! intent regime.
//!
//! The engine is pure state over observations; pricing, persistence, and the
//! kill accumulator belong to the tracker that drives it.

use crate::attribution::{
    AgreeReason, Attribution, AttributionCounts, AttributionKind, AttributionView, CarriedWeapon,
    DamageBand, Decision, DecisionView, LocationView, MismatchView, Observation,
    OffensiveEffectWindow, RecordView, Reprice, RepriceView, Resolved, ResolvedView, ShotLocation,
    ShotRecord, WeaponEffectProfile, WeaponMismatch, WeaponView, WindowView, CLOCK_SLACK,
    SWITCH_TAIL,
};
use crate::lists;
use crate::text;
use crate::text::{
    cat, cat3, copy_optional, copy_texts, holds_text, join, place_name, same_text,
};
use crate::units;
use crate::units::{is_near, Ped};
use vstd::prelude::*;

verus! {

/// The session's attribution state.
pub struct AttributionRuntime {
    carried: Vec<CarriedWeapon>,
    /// The weapon the latest press declared. None before any press, and
    /// always when the hotbar listener is off.
    declared: Option<String>,
    /// The weapon declared before the latest switch, and when the switch was
    /// pressed.
    previous: Option<(String, i64)>,
    /// With nothing declared: the weapon evidence last named.
    recording: Option<String>,
    mismatch: Option<WeaponMismatch>,
    /// Evidence weapons the player kept the declared weapon over, this
    /// regime.
    kept: Vec<String>,
    effect_windows: Vec<OffensiveEffectWindow>,
    log: Vec<ShotRecord>,
    next_seq: u64,
    counts: AttributionCounts,
}

/// The attribution state as contracts read it.
#[verifier::ext_equal]
pub struct RuntimeView {
    pub carried: Seq<WeaponView>,
    pub declared: Option<Seq<char>>,
    pub previous: Option<(Seq<char>, i64)>,
    pub recording: Option<Seq<char>>,
    pub mismatch: Option<MismatchView>,
    pub kept: Set<Seq<char>>,
    pub windows: Seq<WindowView>,
    pub log: Seq<RecordView>,
    pub next_seq: int,
    pub counts: AttributionCounts,
}

impl View for AttributionRuntime {
    type V = RuntimeView;

    closed spec fn view(&self) -> RuntimeView {
        RuntimeView {
            carried: text::views(self.carried@),
            declared: text::opt_view(self.declared),
            previous: match self.previous {
                Some((tool, at)) => Some((tool@, at)),
                None => None,
            },
            recording: text::opt_view(self.recording),
            mismatch: text::opt_view(self.mismatch),
            kept: text::views(self.kept@).to_set(),
            windows: text::views(self.effect_windows@),
            log: text::views(self.log@),
            next_seq: self.next_seq as int,
            counts: self.counts,
        }
    }
}

/// The first carried weapon of this name.
pub open spec fn named(carried: Seq<WeaponView>, tool: Seq<char>) -> Option<WeaponView>
    decreases carried.len(),
{
    if carried.len() == 0 {
        None
    } else if carried[0].name == tool {
        Some(carried[0])
    } else {
        named(carried.skip(1), tool)
    }
}

/// The band of the first carried weapon of this name.
pub open spec fn band_named(carried: Seq<WeaponView>, tool: Seq<char>) -> Option<DamageBand> {
    match named(carried, tool) {
        Some(weapon) => weapon.band,
        None => None,
    }
}

/// The names of a run of weapons.
pub open spec fn names(weapons: Seq<WeaponView>) -> Seq<Seq<char>> {
    Seq::new(weapons.len(), |i: int| weapons[i].name)
}

/// The ids of a run of windows.
pub open spec fn ids(windows: Seq<WindowView>) -> Seq<Seq<char>> {
    Seq::new(windows.len(), |i: int| windows[i].id)
}

/// The weapons that opened a run of windows.
pub open spec fn owners(windows: Seq<WindowView>) -> Seq<Seq<char>> {
    Seq::new(windows.len(), |i: int| windows[i].tool)
}

/// The weapons whose band holds a hit.
pub open spec fn explaining(amount: int, critical: bool) -> spec_fn(WeaponView) -> bool {
    |weapon: WeaponView| weapon.explains(amount, critical)
}

/// The windows whose ticks explain a hit.
pub open spec fn ticking(at: int, amount: int, critical: bool) -> spec_fn(WindowView) -> bool {
    |window: WindowView| window.ticks(at, amount, critical)
}

/// The windows a hit is short of, below a rival's floor.
pub open spec fn reaching(at: int, amount: int, rival: Option<int>) -> spec_fn(WindowView) -> bool {
    |window: WindowView| window.reaches_down(at, amount, rival)
}

/// Every name but one.
pub open spec fn other_than(name: Seq<char>) -> spec_fn(Seq<char>) -> bool {
    |other: Seq<char>| other != name
}

/// Every name outside a list.
pub open spec fn outside(list: Seq<Seq<char>>) -> spec_fn(Seq<char>) -> bool {
    |name: Seq<char>| !list.contains(name)
}

/// The windows whose floor is the lowest of the run, within the tolerance.
pub open spec fn lowest(run: Seq<WindowView>) -> spec_fn(WindowView) -> bool {
    |window: WindowView|
        forall|i: int|
            0 <= i < run.len() ==> window.tick.min - (#[trigger] run[i]).tick.min
                < units::SAME_WITHIN
}

/// Whether one weapon opened every window.
pub open spec fn all_owned_by(windows: Seq<WindowView>, tool: Seq<char>) -> bool {
    forall|i: int| 0 <= i < windows.len() ==> (#[trigger] windows[i]).tool == tool
}

/// The lowest floor among the carried bands a hit is short of.
pub open spec fn weapon_floor(carried: Seq<WeaponView>, amount: int) -> Option<int>
    decreases carried.len(),
{
    if carried.len() == 0 {
        None
    } else {
        let before = weapon_floor(carried.drop_last(), amount);
        match carried.last().band {
            Some(band) => if band.is_above(amount) {
                match before {
                    Some(floor) => if band.min < floor {
                        Some(band.min as int)
                    } else {
                        before
                    },
                    None => Some(band.min as int),
                }
            } else {
                before
            },
            None => before,
        }
    }
}

/// A hit explained as a tick of these windows.
pub open spec fn tick_of(
    windows: Seq<WindowView>,
    fits: Seq<Seq<char>>,
    reason: Seq<char>,
) -> ResolvedView {
    ResolvedView {
        attribution: AttributionView::EffectTick {
            window_id: if windows.len() == 1 {
                Some(windows[0].id)
            } else {
                None
            },
        },
        fits,
        windows: ids(windows),
        reason: if windows.len() == 1 {
            reason
        } else {
            reason + "; several open effects explain it"@
        },
    }
}

/// A hit that a weapon and these open windows explain alike.
pub open spec fn concurrent_with(
    windows: Seq<WindowView>,
    fits: Seq<Seq<char>>,
    rival: Seq<char>,
) -> ResolvedView {
    ResolvedView {
        attribution: AttributionView::Unresolved,
        fits,
        windows: ids(windows),
        reason: "fits "@ + rival + " and a tick of the open "@ + text::join_spec(
            text::sorted_names(owners(windows)),
            " and "@,
        ) + " effect"@,
    }
}

/// A shot a weapon explains without a word.
pub open spec fn agreed(
    tool: Seq<char>,
    reason: AgreeReason,
    fits: Seq<Seq<char>>,
) -> ResolvedView {
    ResolvedView {
        attribution: AttributionView::Agrees { tool, reason },
        fits,
        windows: Seq::empty(),
        reason: Seq::empty(),
    }
}

/// A shot the evidence prices.
pub open spec fn evidenced(
    tool: Seq<char>,
    fits: Seq<Seq<char>>,
    reason: Seq<char>,
) -> ResolvedView {
    ResolvedView {
        attribution: AttributionView::Evidence { tool, confirmed: false },
        fits,
        windows: Seq::empty(),
        reason,
    }
}

/// A shot with no honest single source.
pub open spec fn unresolved(fits: Seq<Seq<char>>, reason: Seq<char>) -> ResolvedView {
    ResolvedView {
        attribution: AttributionView::Unresolved,
        fits,
        windows: Seq::empty(),
        reason,
    }
}

impl RuntimeView {
    /// Nothing observed, declared or carried.
    pub open spec fn initial() -> RuntimeView {
        RuntimeView {
            carried: Seq::empty(),
            declared: None,
            previous: None,
            recording: None,
            mismatch: None,
            kept: Set::empty(),
            windows: Seq::empty(),
            log: Seq::empty(),
            next_seq: 0,
            counts: AttributionCounts { agreed: 0, evidenced: 0, unresolved: 0, effect_ticks: 0 },
        }
    }

    /// The weapon shots are being recorded to: the evidence weapon of a
    /// standing mismatch, else the declared weapon, else the weapon evidence
    /// last named.
    pub open spec fn recorded(self) -> Option<Seq<char>> {
        match self.mismatch {
            Some(mismatch) => Some(mismatch.evidence),
            None => match self.declared {
                Some(declared) => Some(declared),
                None => self.recording,
            },
        }
    }

    /// The carried weapons whose band holds the hit.
    pub open spec fn fitting(self, amount: int, critical: bool) -> Seq<Seq<char>> {
        names(self.carried.filter(explaining(amount, critical)))
    }

    /// The open windows whose tick band holds the hit.
    pub open spec fn ticks(self, at: int, amount: int, critical: bool) -> Seq<WindowView> {
        self.windows.filter(ticking(at, amount, critical))
    }

    /// The open windows that best explain a hit short of every band: those
    /// whose tick floor is the nearest above it, below a rival's floor.
    pub open spec fn nearest(self, at: int, amount: int, rival: Option<int>) -> Seq<WindowView> {
        let short = self.windows.filter(reaching(at, amount, rival));
        short.filter(lowest(short))
    }

    /// The previous weapon, when its shot may still be landing and its band
    /// holds the hit.
    pub open spec fn in_flight(self, at: int, amount: int, critical: bool) -> Option<Seq<char>> {
        match self.previous {
            Some((tool, switched_at)) => {
                let band = band_named(self.carried, tool);
                if switched_at - CLOCK_SLACK <= at && at - switched_at <= SWITCH_TAIL && band is Some
                    && band->0.holds(amount, critical) {
                    Some(tool)
                } else {
                    None
                }
            },
            None => None,
        }
    }

    /// What a hit resolves to with nothing declared.
    pub open spec fn undeclared_hit(self, amount: int, critical: bool, at: int) -> ResolvedView {
        let fits = self.fitting(amount, critical);
        let ticks = self.ticks(at, amount, critical);
        if ticks.len() > 0 {
            let rivals = fits.filter(outside(owners(ticks)));
            if rivals.len() == 0 {
                tick_of(ticks, fits, "a tick of an open effect"@)
            } else if rivals.len() == 1 {
                concurrent_with(ticks, fits, rivals[0])
            } else {
                concurrent_with(ticks, fits, "several carried weapons"@)
            }
        } else if fits.len() == 1 {
            evidenced(fits[0], fits, "fits only "@ + fits[0])
        } else if fits.len() == 0 {
            let near = self.nearest(at, amount, weapon_floor(self.carried, amount));
            if near.len() > 0 {
                tick_of(near, fits, "short of every band, nearest an open effect's ticks"@)
            } else {
                unresolved(fits, "fits no carried weapon"@)
            }
        } else {
            unresolved(fits, "fits several carried weapons"@)
        }
    }

    /// What a hit the declared weapon's band does not hold resolves to, with
    /// no effect ticking and no earlier shot in flight.
    pub open spec fn contradicting_hit(
        self,
        declared: Seq<char>,
        band: DamageBand,
        amount: int,
        critical: bool,
        at: int,
    ) -> ResolvedView {
        let fits = self.fitting(amount, critical);
        let others = fits.filter(other_than(declared));
        if others.len() == 1 {
            if self.kept.contains(others[0]) {
                agreed(declared, AgreeReason::Kept, fits)
            } else {
                evidenced(
                    others[0],
                    fits,
                    "fits only "@ + others[0] + ", not the hotbar's "@ + declared,
                )
            }
        } else if others.len() == 0 {
            if band.is_above(amount) {
                let near = self.nearest(at, amount, Some(band.min as int));
                if near.len() > 0 {
                    tick_of(near, fits, "short of every band, nearest an open effect's ticks"@)
                } else {
                    agreed(declared, AgreeReason::BelowBand, fits)
                }
            } else {
                unresolved(fits, "exceeds every carried weapon's reach"@)
            }
        } else {
            unresolved(fits, "fits several carried weapons other than the hotbar's"@)
        }
    }

    /// What a hit resolves to with a weapon declared.
    pub open spec fn declared_hit(
        self,
        declared: Seq<char>,
        amount: int,
        critical: bool,
        at: int,
    ) -> ResolvedView {
        let fits = self.fitting(amount, critical);
        let ticks = self.ticks(at, amount, critical);
        let band = band_named(self.carried, declared);
        if band is None || band->0.holds(amount, critical) {
            if ticks.len() == 0 {
                agreed(
                    declared,
                    if band is Some {
                        AgreeReason::Fits
                    } else {
                        AgreeReason::Unvalidated
                    },
                    fits,
                )
            } else if all_owned_by(ticks, declared) {
                tick_of(ticks, fits, "a tick of the effect in hand"@)
            } else {
                concurrent_with(ticks, fits, "the hotbar's "@ + declared)
            }
        } else {
            let landing = self.in_flight(at, amount, critical);
            if ticks.len() > 0 {
                if landing is Some && !all_owned_by(ticks, landing->0) {
                    concurrent_with(ticks, fits, landing->0 + "'s shot still landing"@)
                } else {
                    tick_of(ticks, fits, "a tick of an open effect"@)
                }
            } else if landing is Some {
                agreed(landing->0, AgreeReason::InFlight, fits)
            } else {
                self.contradicting_hit(declared, band->0, amount, critical, at)
            }
        }
    }

    /// What a countered shot resolves to: the weapon being recorded.
    pub open spec fn countered(self) -> ResolvedView {
        let fits = names(self.carried);
        match self.mismatch {
            Some(mismatch) => evidenced(
                mismatch.evidence,
                fits,
                "a countered shot while "@ + mismatch.evidence + " is recorded"@,
            ),
            None => match self.declared {
                Some(declared) => agreed(declared, AgreeReason::Countered, fits),
                None => match self.recording {
                    Some(recording) => evidenced(
                        recording,
                        fits,
                        "a countered shot while "@ + recording + " is recorded"@,
                    ),
                    None => unresolved(fits, "a countered shot with no weapon known"@),
                },
            },
        }
    }

    /// What an observation resolves to.
    pub open spec fn classified(self, observation: Observation, at: int) -> ResolvedView {
        match observation {
            Observation::Countered => self.countered(),
            Observation::Hit { amount, critical } => match self.declared {
                Some(declared) => self.declared_hit(declared, amount as int, critical, at),
                None => self.undeclared_hit(amount as int, critical, at),
            },
        }
    }
}

impl AttributionRuntime {
    /// The weapons carried.
    pub fn carried(&self) -> (carried: &Vec<CarriedWeapon>)
        ensures
            text::views(carried@) == self@.carried,
    {
        &self.carried
    }

    fn weapon_of(&self, tool: &str) -> (weapon: Option<&CarriedWeapon>)
        ensures
            text::opt_view(weapon) == named(self@.carried, tool@),
    {
        let ghost all = self@.carried;
        let mut i: usize = 0;
        assert(all.skip(0) =~= all);
        while i < self.carried.len()
            invariant
                i <= self.carried.len(),
                all == text::views(self.carried@),
                named(all, tool@) == named(all.skip(i as int), tool@),
            decreases self.carried.len() - i,
        {
            assert(all.skip(i as int)[0] == all[i as int]);
            if same_text(self.carried[i].name.as_str(), tool) {
                return Some(&self.carried[i]);
            }
            assert(all.skip(i as int).skip(1) =~= all.skip(i as int + 1));
            i += 1;
        }
        None
    }

    /// The carried weapon's band, when it is carried and has one.
    pub fn band_of(&self, tool: &str) -> (band: Option<DamageBand>)
        ensures
            band == band_named(self@.carried, tool@),
    {
        match self.weapon_of(tool) {
            Some(weapon) => weapon.band,
            None => None,
        }
    }

    /// The carried weapon's declared effect, when it has one.
    pub fn effect_of(&self, tool: &str) -> (found: Option<(&CarriedWeapon, WeaponEffectProfile)>)
        ensures
            match found {
                Some((weapon, effect)) => named(self@.carried, tool@) == Some(weapon@)
                    && weapon.effect == Some(effect),
                None => named(self@.carried, tool@) is None || named(
                    self@.carried,
                    tool@,
                )->0.effect is None,
            },
    {
        match self.weapon_of(tool) {
            Some(weapon) => match weapon.effect {
                Some(effect) => Some((weapon, effect)),
                None => None,
            },
            None => None,
        }
    }

    fn fitting(&self, amount: i64, critical: bool) -> (fits: Vec<String>)
        ensures
            text::views(fits@) == self@.fitting(amount as int, critical),
    {
        let ghost all = self@.carried;
        let ghost keep = explaining(amount as int, critical);
        let mut fits: Vec<String> = Vec::new();
        let mut i: usize = 0;
        proof {
            lists::filter_none(all, keep);
        }
        while i < self.carried.len()
            invariant
                i <= self.carried.len(),
                all == text::views(self.carried@),
                keep == explaining(amount as int, critical),
                text::views(fits@) =~= names(all.take(i as int).filter(keep)),
            decreases self.carried.len() - i,
        {
            proof {
                lists::filter_step(all, i as int, keep);
            }
            let weapon = &self.carried[i];
            assert(weapon@ == all[i as int]);
            let explains: bool = match weapon.band {
                Some(band) => band.fits(amount, critical),
                None => false,
            };
            assert(explains == keep(all[i as int]));
            let ghost before = all.take(i as int).filter(keep);
            let ghost had = text::views(fits@);
            if explains {
                fits.push(weapon.name.clone());
                assert(text::views(fits@) =~= had.push(weapon@.name));
                assert(names(before.push(weapon@)) =~= names(before).push(weapon@.name));
            }
            i += 1;
        }
        proof {
            lists::filter_all(all, keep);
        }
        fits
    }

    fn ticking(&self, at: i64, amount: i64, critical: bool) -> (found: Vec<OffensiveEffectWindow>)
        ensures
            text::views(found@) == self@.ticks(at as int, amount as int, critical),
    {
        let ghost all = self@.windows;
        let ghost keep = ticking(at as int, amount as int, critical);
        let mut found: Vec<OffensiveEffectWindow> = Vec::new();
        let mut i: usize = 0;
        proof {
            lists::filter_none(all, keep);
        }
        while i < self.effect_windows.len()
            invariant
                i <= self.effect_windows.len(),
                all == text::views(self.effect_windows@),
                keep == ticking(at as int, amount as int, critical),
                text::views(found@) =~= all.take(i as int).filter(keep),
            decreases self.effect_windows.len() - i,
        {
            proof {
                lists::filter_step(all, i as int, keep);
            }
            let window = &self.effect_windows[i];
            assert(window@ == all[i as int]);
            if window.live_at(at) && window.tick.fits(amount, critical) {
                found.push(window.clone());
            }
            i += 1;
        }
        proof {
            lists::filter_all(all, keep);
        }
        found
    }

    fn reaching(&self, at: i64, amount: i64, rival: Option<i64>) -> (found: Vec<
        OffensiveEffectWindow,
    >)
        ensures
            text::views(found@) == self@.windows.filter(
                reaching(
                    at as int,
                    amount as int,
                    (match rival {
                        Some(floor) => Some(floor as int),
                        None => None,
                    }),
                ),
            ),
    {
        let ghost all = self@.windows;
        let ghost floor: Option<int> = match rival {
            Some(floor) => Some(floor as int),
            None => None,
        };
        let ghost keep = reaching(at as int, amount as int, floor);
        let mut found: Vec<OffensiveEffectWindow> = Vec::new();
        let mut i: usize = 0;
        proof {
            lists::filter_none(all, keep);
        }
        while i < self.effect_windows.len()
            invariant
                i <= self.effect_windows.len(),
                all == text::views(self.effect_windows@),
                floor == (match rival {
                    Some(floor) => Some(floor as int),
                    None => None,
                }),
                keep == reaching(at as int, amount as int, floor),
                text::views(found@) =~= all.take(i as int).filter(keep),
            decreases self.effect_windows.len() - i,
        {
            proof {
                lists::filter_step(all, i as int, keep);
            }
            let window = &self.effect_windows[i];
            assert(window@ == all[i as int]);
            let below: bool = match rival {
                Some(floor) => window.tick.min < floor,
                None => true,
            };
            if window.live_at(at) && window.tick.undershoots(amount) && below {
                found.push(window.clone());
            }
            i += 1;
        }
        proof {
            lists::filter_all(all, keep);
        }
        found
    }

    /// The open windows that best explain a hit short of every band.
    fn nearest_below(&self, at: i64, amount: i64, rival: Option<i64>) -> (found: Vec<
        OffensiveEffectWindow,
    >)
        ensures
            text::views(found@) == self@.nearest(
                at as int,
                amount as int,
                (match rival {
                    Some(floor) => Some(floor as int),
                    None => None,
                }),
            ),
    {
        let short = self.reaching(at, amount, rival);
        let ghost all = text::views(short@);
        let ghost keep = lowest(all);
        let mut found: Vec<OffensiveEffectWindow> = Vec::new();
        proof {
            lists::filter_none(all, keep);
        }
        if short.len() == 0 {
            assert(all =~= Seq::empty());
            return found;
        }
        let mut nearest: i64 = short[0].tick.min;
        let ghost mut holder: int = 0;
        let mut i: usize = 1;
        while i < short.len()
            invariant
                1 <= i <= short.len(),
                all == text::views(short@),
                0 <= holder < i,
                all[holder].tick.min == nearest,
                forall|j: int| 0 <= j < i ==> nearest <= (#[trigger] all[j]).tick.min,
            decreases short.len() - i,
        {
            assert(short[i as int]@ == all[i as int]);
            if short[i].tick.min < nearest {
                nearest = short[i].tick.min;
                proof {
                    holder = i as int;
                }
            }
            i += 1;
        }
        i = 0;
        while i < short.len()
            invariant
                i <= short.len(),
                all == text::views(short@),
                keep == lowest(all),
                0 <= holder < all.len(),
                all[holder].tick.min == nearest,
                forall|j: int| 0 <= j < all.len() ==> nearest <= (#[trigger] all[j]).tick.min,
                text::views(found@) =~= all.take(i as int).filter(keep),
            decreases short.len() - i,
        {
            proof {
                lists::filter_step(all, i as int, keep);
                assert(short[i as int]@ == all[i as int]);
                assert(keep(all[i as int]) == (all[i as int].tick.min - nearest
                    < units::SAME_WITHIN));
            }
            if is_near(short[i].tick.min, nearest) {
                found.push(short[i].clone());
            }
            i += 1;
        }
        proof {
            lists::filter_all(all, keep);
        }
        found
    }
}

fn window_ids(windows: &Vec<OffensiveEffectWindow>) -> (found: Vec<String>)
    ensures
        text::views(found@) == ids(text::views(windows@)),
{
    let mut found: Vec<String> = Vec::new();
    let mut i: usize = 0;
    while i < windows.len()
        invariant
            i <= windows.len(),
            found.len() == i,
            forall|j: int| 0 <= j < i ==> (#[trigger] found@[j])@ == windows@[j].id@,
        decreases windows.len() - i,
    {
        found.push(windows[i].id.clone());
        i += 1;
    }
    assert(text::views(found@) =~= ids(text::views(windows@)));
    found
}

fn owner_names(windows: &Vec<OffensiveEffectWindow>) -> (found: Vec<String>)
    ensures
        text::views(found@) == owners(text::views(windows@)),
{
    let mut found: Vec<String> = Vec::new();
    let mut i: usize = 0;
    while i < windows.len()
        invariant
            i <= windows.len(),
            found.len() == i,
            forall|j: int| 0 <= j < i ==> (#[trigger] found@[j])@ == windows@[j].tool@,
        decreases windows.len() - i,
    {
        found.push(windows[i].tool.clone());
        i += 1;
    }
    assert(text::views(found@) =~= owners(text::views(windows@)));
    found
}

fn sorted_owners(windows: &Vec<OffensiveEffectWindow>) -> (found: Vec<String>)
    ensures
        text::views(found@) == text::sorted_names(owners(text::views(windows@))),
{
    let ghost all = owners(text::views(windows@));
    let mut found: Vec<String> = Vec::new();
    let mut i: usize = 0;
    assert(text::views(found@) =~= Seq::empty());
    assert(all.take(0) =~= Seq::empty());
    while i < windows.len()
        invariant
            i <= windows.len(),
            all == owners(text::views(windows@)),
            text::views(found@) == text::sorted_names(all.take(i as int)),
        decreases windows.len() - i,
    {
        proof {
            let next = all.take(i as int + 1);
            assert(next.drop_last() =~= all.take(i as int));
            assert(next.last() == windows@[i as int].tool@);
        }
        place_name(&mut found, windows[i].tool.as_str());
        i += 1;
    }
    assert(all.take(all.len() as int) =~= all);
    found
}

fn owned_by(windows: &Vec<OffensiveEffectWindow>, tool: &str) -> (all: bool)
    ensures
        all == all_owned_by(text::views(windows@), tool@),
{
    let ghost run = text::views(windows@);
    let mut i: usize = 0;
    while i < windows.len()
        invariant
            i <= windows.len(),
            run == text::views(windows@),
            forall|j: int| 0 <= j < i ==> (#[trigger] run[j]).tool == tool@,
        decreases windows.len() - i,
    {
        assert(run[i as int] == windows@[i as int]@);
        if !same_text(windows[i].tool.as_str(), tool) {
            return false;
        }
        i += 1;
    }
    true
}

fn effect_tick(windows: &Vec<OffensiveEffectWindow>, fits: Vec<String>, reason: &str) -> (resolved:
    Resolved)
    ensures
        resolved@ == tick_of(text::views(windows@), text::views(fits@), reason@),
{
    let window_ids = window_ids(windows);
    let one: bool = windows.len() == 1;
    let window_id: Option<String> = if one {
        Some(windows[0].id.clone())
    } else {
        None
    };
    let reason = if one {
        reason.to_owned()
    } else {
        cat(reason, "; several open effects explain it")
    };
    Resolved {
        attribution: Attribution::EffectTick { window_id },
        fits,
        windows: window_ids,
        reason,
    }
}

fn concurrent(windows: &Vec<OffensiveEffectWindow>, fits: Vec<String>, rival: &str) -> (resolved:
    Resolved)
    ensures
        resolved@ == concurrent_with(text::views(windows@), text::views(fits@), rival@),
{
    let owners = sorted_owners(windows);
    let mut reason = cat3("fits ", rival, " and a tick of the open ");
    reason.append(join(&owners, " and ").as_str());
    reason.append(" effect");
    Resolved {
        attribution: Attribution::Unresolved,
        fits,
        windows: window_ids(windows),
        reason,
    }
}

fn agree(tool: &str, reason: AgreeReason, fits: Vec<String>) -> (resolved: Resolved)
    ensures
        resolved@ == agreed(tool@, reason, text::views(fits@)),
{
    let resolved = Resolved {
        attribution: Attribution::Agrees { tool: tool.to_owned(), reason },
        fits,
        windows: Vec::new(),
        reason: String::new(),
    };
    assert(resolved@ =~= agreed(tool@, reason, text::views(fits@)));
    resolved
}

fn evidence(tool: &str, fits: Vec<String>, reason: String) -> (resolved: Resolved)
    ensures
        resolved@ == evidenced(tool@, text::views(fits@), reason@),
{
    let resolved = Resolved {
        attribution: Attribution::Evidence { tool: tool.to_owned(), confirmed: false },
        fits,
        windows: Vec::new(),
        reason,
    };
    assert(resolved@ =~= evidenced(tool@, text::views(fits@), reason@));
    resolved
}

fn unpriced(fits: Vec<String>, reason: &str) -> (resolved: Resolved)
    ensures
        resolved@ == unresolved(text::views(fits@), reason@),
{
    let resolved = Resolved {
        attribution: Attribution::Unresolved,
        fits,
        windows: Vec::new(),
        reason: reason.to_owned(),
    };
    assert(resolved@ =~= unresolved(text::views(fits@), reason@));
    resolved
}

fn names_other_than(fits: &Vec<String>, name: &str) -> (found: Vec<String>)
    ensures
        text::views(found@) == text::views(fits@).filter(other_than(name@)),
{
    let ghost all = text::views(fits@);
    let ghost keep = other_than(name@);
    let mut found: Vec<String> = Vec::new();
    let mut i: usize = 0;
    proof {
        lists::filter_none(all, keep);
    }
    while i < fits.len()
        invariant
            i <= fits.len(),
            all == text::views(fits@),
            keep == other_than(name@),
            text::views(found@) =~= all.take(i as int).filter(keep),
        decreases fits.len() - i,
    {
        proof {
            lists::filter_step(all, i as int, keep);
        }
        if !same_text(fits[i].as_str(), name) {
            found.push(fits[i].clone());
        }
        i += 1;
    }
    proof {
        lists::filter_all(all, keep);
    }
    found
}

fn names_outside(fits: &Vec<String>, list: &Vec<String>) -> (found: Vec<String>)
    ensures
        text::views(found@) == text::views(fits@).filter(outside(text::views(list@))),
{
    let ghost all = text::views(fits@);
    let ghost keep = outside(text::views(list@));
    let mut found: Vec<String> = Vec::new();
    let mut i: usize = 0;
    proof {
        lists::filter_none(all, keep);
    }
    while i < fits.len()
        invariant
            i <= fits.len(),
            all == text::views(fits@),
            keep == outside(text::views(list@)),
            text::views(found@) =~= all.take(i as int).filter(keep),
        decreases fits.len() - i,
    {
        proof {
            lists::filter_step(all, i as int, keep);
        }
        if !holds_text(list, fits[i].as_str()) {
            found.push(fits[i].clone());
        }
        i += 1;
    }
    proof {
        lists::filter_all(all, keep);
    }
    found
}

impl AttributionRuntime {
    fn carried_names(&self) -> (found: Vec<String>)
        ensures
            text::views(found@) == names(self@.carried),
    {
        let mut found: Vec<String> = Vec::new();
        let mut i: usize = 0;
        while i < self.carried.len()
            invariant
                i <= self.carried.len(),
                found.len() == i,
                forall|j: int| 0 <= j < i ==> (#[trigger] found@[j])@ == self.carried@[j].name@,
            decreases self.carried.len() - i,
        {
            found.push(self.carried[i].name.clone());
            i += 1;
        }
        assert(text::views(found@) =~= names(self@.carried));
        found
    }

    fn nearest_weapon_floor(&self, amount: i64) -> (floor: Option<i64>)
        ensures
            weapon_floor(self@.carried, amount as int) == (match floor {
                Some(floor) => Some(floor as int),
                None => None,
            }),
    {
        let ghost all = self@.carried;
        let mut floor: Option<i64> = None;
        let mut i: usize = 0;
        while i < self.carried.len()
            invariant
                i <= self.carried.len(),
                all == text::views(self.carried@),
                weapon_floor(all.take(i as int), amount as int) == (match floor {
                    Some(floor) => Some(floor as int),
                    None => None,
                }),
            decreases self.carried.len() - i,
        {
            proof {
                let next = all.take(i as int + 1);
                assert(next.drop_last() =~= all.take(i as int));
                assert(next.last() == self.carried@[i as int]@);
            }
            if let Some(band) = self.carried[i].band {
                if band.undershoots(amount) {
                    floor = match floor {
                        Some(lowest) => if band.min < lowest {
                            Some(band.min)
                        } else {
                            Some(lowest)
                        },
                        None => Some(band.min),
                    };
                }
            }
            i += 1;
        }
        assert(all.take(all.len() as int) =~= all);
        floor
    }

    /// The previous weapon, when its shot may still be landing and its band
    /// holds the hit.
    fn landing(&self, at: i64, amount: i64, critical: bool) -> (tool: Option<String>)
        ensures
            text::opt_view(tool) == self@.in_flight(at as int, amount as int, critical),
    {
        match &self.previous {
            Some((previous, switched_at)) => {
                let gap: i128 = at as i128 - *switched_at as i128;
                let in_tail: bool = gap >= -(CLOCK_SLACK as i128) && gap <= SWITCH_TAIL as i128;
                let holds: bool = match self.band_of(previous.as_str()) {
                    Some(band) => band.fits(amount, critical),
                    None => false,
                };
                if in_tail && holds {
                    Some(previous.clone())
                } else {
                    None
                }
            },
            None => None,
        }
    }

    /// Classify a hit with no weapon declared. An open effect explains its
    /// ticks unless a carried weapon other than the effect's own also fits:
    /// with nothing declared, that weapon is a second live source.
    fn classify_undeclared(&self, amount: i64, critical: bool, at: i64) -> (resolved: Resolved)
        ensures
            resolved@ == self@.undeclared_hit(amount as int, critical, at as int),
    {
        let fits = self.fitting(amount, critical);
        let ticking = self.ticking(at, amount, critical);
        if ticking.len() > 0 {
            let owners = owner_names(&ticking);
            let rivals = names_outside(&fits, &owners);
            if rivals.len() == 0 {
                effect_tick(&ticking, fits, "a tick of an open effect")
            } else if rivals.len() == 1 {
                concurrent(&ticking, fits, rivals[0].as_str())
            } else {
                concurrent(&ticking, fits, "several carried weapons")
            }
        } else if fits.len() == 1 {
            let only = fits[0].clone();
            let reason = cat("fits only ", only.as_str());
            evidence(only.as_str(), fits, reason)
        } else if fits.len() == 0 {
            // A carried weapon whose floor sits nearer rivals the effect;
            // with nothing declared, that leaves the hit unresolved.
            let rival = self.nearest_weapon_floor(amount);
            let nearer = self.nearest_below(at, amount, rival);
            if nearer.len() > 0 {
                effect_tick(
                    &nearer,
                    fits,
                    "short of every band, nearest an open effect's ticks",
                )
            } else {
                unpriced(fits, "fits no carried weapon")
            }
        } else {
            unpriced(fits, "fits several carried weapons")
        }
    }

    /// Classify a hit the declared weapon's band does not hold, with no
    /// effect ticking and no earlier shot landing.
    fn classify_contradicting(
        &self,
        declared: &str,
        band: DamageBand,
        amount: i64,
        critical: bool,
        at: i64,
    ) -> (resolved: Resolved)
        ensures
            resolved@ == self@.contradicting_hit(
                declared@,
                band,
                amount as int,
                critical,
                at as int,
            ),
    {
        let fits = self.fitting(amount, critical);
        let others = names_other_than(&fits, declared);
        if others.len() == 1 {
            let only = others[0].as_str();
            if self.is_kept(only) {
                agree(declared, AgreeReason::Kept, fits)
            } else {
                let mut reason = cat3("fits only ", only, ", not the hotbar's ");
                reason.append(declared);
                evidence(only, fits, reason)
            }
        } else if others.len() == 0 {
            if band.undershoots(amount) {
                let nearer = self.nearest_below(at, amount, Some(band.min));
                if nearer.len() > 0 {
                    effect_tick(
                        &nearer,
                        fits,
                        "short of every band, nearest an open effect's ticks",
                    )
                } else {
                    agree(declared, AgreeReason::BelowBand, fits)
                }
            } else {
                unpriced(fits, "exceeds every carried weapon's reach")
            }
        } else {
            unpriced(fits, "fits several carried weapons other than the hotbar's")
        }
    }

    /// Whether the player kept the declared weapon over this one.
    pub fn is_kept(&self, tool: &str) -> (kept: bool)
        ensures
            kept == self@.kept.contains(tool@),
    {
        holds_text(&self.kept, tool)
    }

    fn classify_declared(&self, declared: &str, amount: i64, critical: bool, at: i64) -> (resolved:
        Resolved)
        ensures
            resolved@ == self@.declared_hit(declared@, amount as int, critical, at as int),
    {
        let ticking = self.ticking(at, amount, critical);
        // A declared weapon with no band cannot be contradicted, so it
        // explains every hit, and competes with any effect ticking beside it
        // exactly as a fitting band does.
        let declared_band = self.band_of(declared);
        let (holds, reason): (bool, AgreeReason) = match declared_band {
            Some(band) => (band.fits(amount, critical), AgreeReason::Fits),
            None => (true, AgreeReason::Unvalidated),
        };
        if holds {
            let fits = self.fitting(amount, critical);
            if ticking.len() == 0 {
                return agree(declared, reason, fits);
            }
            if owned_by(&ticking, declared) {
                return effect_tick(&ticking, fits, "a tick of the effect in hand");
            }
            return concurrent(&ticking, fits, cat("the hotbar's ", declared).as_str());
        }
        let band: DamageBand = declared_band.unwrap();
        let landing = self.landing(at, amount, critical);
        if ticking.len() > 0 {
            let fits = self.fitting(amount, critical);
            return match &landing {
                Some(previous) => if owned_by(&ticking, previous.as_str()) {
                    effect_tick(&ticking, fits, "a tick of an open effect")
                } else {
                    concurrent(
                        &ticking,
                        fits,
                        cat(previous.as_str(), "'s shot still landing").as_str(),
                    )
                },
                None => effect_tick(&ticking, fits, "a tick of an open effect"),
            };
        }
        match &landing {
            Some(previous) => {
                let fits = self.fitting(amount, critical);
                agree(previous.as_str(), AgreeReason::InFlight, fits)
            },
            None => self.classify_contradicting(declared, band, amount, critical, at),
        }
    }

    fn classify_countered(&self) -> (resolved: Resolved)
        ensures
            resolved@ == self@.countered(),
    {
        let fits = self.carried_names();
        match &self.mismatch {
            Some(mismatch) => {
                let tool = mismatch.evidence.as_str();
                let reason = cat3("a countered shot while ", tool, " is recorded");
                evidence(tool, fits, reason)
            },
            None => match &self.declared {
                Some(declared) => agree(declared.as_str(), AgreeReason::Countered, fits),
                None => match &self.recording {
                    Some(recording) => {
                        let tool = recording.as_str();
                        let reason = cat3("a countered shot while ", tool, " is recorded");
                        evidence(tool, fits, reason)
                    },
                    None => unpriced(fits, "a countered shot with no weapon known"),
                },
            },
        }
    }

    /// Classify one observation without changing any state.
    pub fn classify(&self, observation: Observation, at: i64) -> (resolved: Resolved)
        ensures
            resolved@ == self@.classified(observation, at as int),
    {
        match observation {
            Observation::Countered => self.classify_countered(),
            Observation::Hit { amount, critical } => match &self.declared {
                Some(declared) => self.classify_declared(declared.as_str(), amount, critical, at),
                None => self.classify_undeclared(amount, critical, at),
            },
        }
    }
}

/// The records of one state.
pub open spec fn of_kind(kind: AttributionKind) -> spec_fn(RecordView) -> bool {
    |record: RecordView| record.attribution.kind() == kind
}

/// The records of evidence naming one weapon.
pub open spec fn evidence_of(tool: Seq<char>) -> spec_fn(RecordView) -> bool {
    |record: RecordView|
        match record.attribution {
            AttributionView::Evidence { tool: named, .. } => named == tool,
            _ => false,
        }
}

/// The records of evidence naming one weapon whose hit opened an effect.
pub open spec fn opener_of(tool: Seq<char>) -> spec_fn(RecordView) -> bool {
    |record: RecordView| evidence_of(tool)(record) && record.opened_window is Some
}

/// A record proving that the weapon evidence names was not yet in hand: a hit
/// the declared weapon's band holds and the evidence's does not, a previous
/// weapon's shot, or a shot the player vouched for.
pub open spec fn bounds_walk(record: RecordView, evidence: Seq<char>) -> bool {
    match record.attribution {
        AttributionView::Agrees { reason, .. } => match reason {
            AgreeReason::Fits => !record.fits.contains(evidence),
            AgreeReason::InFlight => true,
            AgreeReason::Kept => true,
            _ => false,
        },
        _ => false,
    }
}

/// Where the walk back from the newest record stops: just past the last
/// record that bounds it.
pub open spec fn walk_start(log: Seq<RecordView>, evidence: Seq<char>) -> int
    decreases log.len(),
{
    if log.len() == 0 {
        0
    } else if bounds_walk(log.last(), evidence) {
        log.len() as int
    } else {
        walk_start(log.drop_last(), evidence)
    }
}

/// The records a confirmation moves: an agreeing shot the evidence weapon
/// plausibly fired, and an unresolved one with no magnitude, or with one the
/// evidence fits and no open effect explains.
pub open spec fn movable(evidence: Seq<char>) -> spec_fn(RecordView) -> bool {
    |record: RecordView|
        match record.attribution {
            AttributionView::Agrees { .. } => !bounds_walk(record, evidence),
            AttributionView::Unresolved => record.observation is Countered || (
            record.fits.contains(evidence) && record.windows.len() == 0),
            _ => false,
        }
}

/// Records to move to one weapon.
pub open spec fn reprices(records: Seq<RecordView>, to_tool: Seq<char>) -> Seq<RepriceView> {
    Seq::new(
        records.len(),
        |i: int| RepriceView { seq: records[i].seq, to_tool, record: records[i] },
    )
}

/// The windows a run of records opened.
pub open spec fn opened(records: Seq<RecordView>) -> Seq<Seq<char>> {
    Seq::new(records.len(), |i: int| records[i].opened_window->0)
}

/// A record the player kept for the declared weapon.
pub open spec fn kept_for(record: RecordView, declared: Seq<char>) -> RecordView {
    RecordView {
        attribution: AttributionView::Agrees { tool: declared, reason: AgreeReason::Kept },
        opened_window: None,
        ..record
    }
}

/// A log with the evidence of one weapon kept for the declared one.
pub open spec fn keeping(
    log: Seq<RecordView>,
    evidence: Seq<char>,
    declared: Seq<char>,
) -> Seq<RecordView> {
    Seq::new(
        log.len(),
        |i: int|
            if evidence_of(evidence)(log[i]) {
                kept_for(log[i], declared)
            } else {
                log[i]
            },
    )
}

/// The windows no list of ids names.
pub open spec fn not_withdrawn(withdrawn: Seq<Seq<char>>) -> spec_fn(WindowView) -> bool {
    |window: WindowView| !withdrawn.contains(window.id)
}

/// The windows not yet over.
pub open spec fn lasting(at: int) -> spec_fn(WindowView) -> bool {
    |window: WindowView| window.lasts_to(at)
}

/// A record settled into a kill, when it was still pending.
pub open spec fn settled(record: RecordView, kill: Seq<char>) -> RecordView {
    if record.location is Pending {
        RecordView { location: LocationView::Kill(kill), ..record }
    } else {
        record
    }
}

/// Where the first record of this sequence number stands; the length when
/// none has it.
pub open spec fn position(log: Seq<RecordView>, seq: u64) -> int
    decreases log.len(),
{
    if log.len() == 0 {
        0
    } else if log[0].seq == seq {
        0
    } else {
        1 + position(log.skip(1), seq)
    }
}

/// The tallies after one more observation of a state.
pub open spec fn counted(counts: AttributionCounts, kind: AttributionKind) -> AttributionCounts {
    match kind {
        AttributionKind::Agrees => AttributionCounts {
            agreed: (counts.agreed + 1) as i64,
            ..counts
        },
        AttributionKind::EffectTick => AttributionCounts {
            effect_ticks: (counts.effect_ticks + 1) as i64,
            ..counts
        },
        AttributionKind::Evidence => AttributionCounts {
            evidenced: (counts.evidenced + 1) as i64,
            ..counts
        },
        AttributionKind::Unresolved => AttributionCounts {
            unresolved: (counts.unresolved + 1) as i64,
            ..counts
        },
    }
}

/// One tally.
pub open spec fn tallied(counts: AttributionCounts, kind: AttributionKind) -> int {
    match kind {
        AttributionKind::Agrees => counts.agreed as int,
        AttributionKind::EffectTick => counts.effect_ticks as int,
        AttributionKind::Evidence => counts.evidenced as int,
        AttributionKind::Unresolved => counts.unresolved as int,
    }
}

impl RuntimeView {
    /// How many logged shots are in a state.
    pub open spec fn logged(self, kind: AttributionKind) -> nat {
        lists::count(self.log, of_kind(kind))
    }

    /// What every state keeps: the tallies partition the observations, none
    /// falls below the shots the log still holds of its state, and a standing
    /// mismatch counts no more shots than were observed.
    pub open spec fn wf(self) -> bool {
        &&& 0 <= self.next_seq <= i64::MAX
        &&& self.counts.total() == self.next_seq
        &&& forall|kind: AttributionKind| #[trigger]
            self.logged(kind) <= tallied(self.counts, kind)
        &&& self.mismatch is Some ==> 0 <= self.mismatch->0.shots <= self.next_seq
    }

    /// A new regime: no evidence may reach back past this point.
    pub open spec fn floored(self) -> RuntimeView {
        RuntimeView { mismatch: None, kept: Set::empty(), log: Seq::empty(), ..self }
    }

    /// The state after a weapon press.
    pub open spec fn declaring(self, tool: Seq<char>, at: i64) -> RuntimeView {
        RuntimeView {
            declared: Some(tool),
            previous: match self.declared {
                Some(previous) => if previous != tool {
                    Some((previous, at))
                } else {
                    None
                },
                None => None,
            },
            recording: None,
            ..self.floored()
        }
    }

    /// The mismatch after evidence of `tool` at `at`.
    pub open spec fn mismatch_after(self, tool: Seq<char>, at: i64) -> Option<MismatchView> {
        match self.declared {
            Some(declared) => if declared == tool {
                self.mismatch
            } else if self.mismatch is Some && self.mismatch->0.evidence == tool {
                Some(
                    MismatchView {
                        shots: self.mismatch->0.shots + 1,
                        ..self.mismatch->0
                    },
                )
            } else {
                Some(MismatchView { declared, evidence: tool, since: at, shots: 1 })
            },
            None => self.mismatch,
        }
    }

    /// The state after absorbing a classified observation.
    pub open spec fn applied(self, resolved: ResolvedView, at: i64) -> RuntimeView {
        let next = RuntimeView {
            windows: self.windows.filter(lasting(at as int)),
            counts: counted(self.counts, resolved.attribution.kind()),
            next_seq: self.next_seq + 1,
            ..self
        };
        match resolved.attribution {
            AttributionView::Agrees { reason, .. } => if reason is Fits && self.mismatch is Some
                && !resolved.fits.contains(self.mismatch->0.evidence) {
                RuntimeView { mismatch: None, ..next }
            } else {
                next
            },
            AttributionView::Evidence { tool, .. } => RuntimeView {
                mismatch: self.mismatch_after(tool, at),
                recording: if self.declared is None {
                    Some(tool)
                } else {
                    self.recording
                },
                ..next
            },
            _ => next,
        }
    }

    /// Whether a record proves the declared weapon was in hand.
    pub open spec fn proves_declared(record: RecordView) -> bool {
        match record.attribution {
            AttributionView::Agrees { reason, .. } => reason is Fits && record.fits.len() == 1,
            _ => false,
        }
    }

    /// The state after remembering a shot: a proof of the declared weapon
    /// forgets everything older but the evidence.
    pub open spec fn remembering(self, record: RecordView) -> RuntimeView {
        let older = if Self::proves_declared(record) {
            self.log.filter(of_kind(AttributionKind::Evidence))
        } else {
            self.log
        };
        RuntimeView { log: older.push(record), ..self }
    }

    /// The state after every pending shot settled into a kill.
    pub open spec fn settling(self, kill: Seq<char>) -> RuntimeView {
        RuntimeView {
            log: Seq::new(self.log.len(), |i: int| settled(self.log[i], kill)),
            ..self
        }
    }

    /// The records a confirmation moves, oldest first.
    pub open spec fn confirmed_records(self, evidence: Seq<char>) -> Seq<RecordView> {
        self.log.skip(walk_start(self.log, evidence)).filter(movable(evidence))
    }

    /// The decision a confirmation makes.
    pub open spec fn confirmation(self) -> Option<DecisionView> {
        match self.mismatch {
            Some(mismatch) => Some(
                DecisionView {
                    mismatch,
                    moves: reprices(self.confirmed_records(mismatch.evidence), mismatch.evidence),
                    withdrawn: Seq::empty(),
                },
            ),
            None => None,
        }
    }

    /// The state after a confirmation: the evidence weapon is declared, in a
    /// new regime, and the moved shots are tallied as evidence.
    pub open spec fn confirming(self, at: i64) -> RuntimeView {
        match self.mismatch {
            Some(mismatch) => {
                let moved = self.confirmed_records(mismatch.evidence);
                RuntimeView {
                    counts: AttributionCounts {
                        agreed: (self.counts.agreed - lists::count(
                            moved,
                            of_kind(AttributionKind::Agrees),
                        )) as i64,
                        unresolved: (self.counts.unresolved - lists::count(
                            moved,
                            of_kind(AttributionKind::Unresolved),
                        )) as i64,
                        evidenced: (self.counts.evidenced + moved.len()) as i64,
                        ..self.counts
                    },
                    ..self.declaring(mismatch.evidence, at)
                }
            },
            None => self,
        }
    }

    /// The decision a keep makes.
    pub open spec fn keep_decision(self) -> Option<DecisionView> {
        match self.mismatch {
            Some(mismatch) => Some(
                DecisionView {
                    mismatch,
                    moves: reprices(
                        self.log.filter(evidence_of(mismatch.evidence)),
                        mismatch.declared,
                    ),
                    withdrawn: opened(self.log.filter(opener_of(mismatch.evidence))),
                },
            ),
            None => None,
        }
    }

    /// The state after a keep: the evidence shots are the declared weapon's
    /// again, and the effects they opened are gone.
    pub open spec fn keeping_declared(self) -> RuntimeView {
        match self.mismatch {
            Some(mismatch) => {
                let moved = lists::count(self.log, evidence_of(mismatch.evidence));
                RuntimeView {
                    mismatch: None,
                    kept: self.kept.insert(mismatch.evidence),
                    log: keeping(self.log, mismatch.evidence, mismatch.declared),
                    windows: self.windows.filter(
                        not_withdrawn(opened(self.log.filter(opener_of(mismatch.evidence)))),
                    ),
                    counts: AttributionCounts {
                        agreed: (self.counts.agreed + moved) as i64,
                        evidenced: (self.counts.evidenced - moved) as i64,
                        ..self.counts
                    },
                    ..self
                }
            },
            None => self,
        }
    }

    /// The state with the first record of a sequence number booked anew.
    pub open spec fn rebooking(self, seq: u64, tool: Seq<char>, cost: Ped) -> RuntimeView {
        let at = position(self.log, seq);
        if at < self.log.len() {
            RuntimeView {
                log: self.log.update(
                    at,
                    RecordView { booked: Some(tool), cost, ..self.log[at] },
                ),
                ..self
            }
        } else {
            self
        }
    }

    /// The state with an opened window on the first record of a sequence
    /// number.
    pub open spec fn marking(self, seq: u64, window: Seq<char>) -> RuntimeView {
        let at = position(self.log, seq);
        if at < self.log.len() {
            RuntimeView {
                log: self.log.update(
                    at,
                    RecordView { opened_window: Some(window), ..self.log[at] },
                ),
                ..self
            }
        } else {
            self
        }
    }
}

impl Default for AttributionRuntime {
    fn default() -> (runtime: Self)
        ensures
            runtime@ == RuntimeView::initial(),
            runtime@.wf(),
    {
        let runtime = AttributionRuntime {
            carried: Vec::new(),
            declared: None,
            previous: None,
            recording: None,
            mismatch: None,
            kept: Vec::new(),
            effect_windows: Vec::new(),
            log: Vec::new(),
            next_seq: 0,
            counts: AttributionCounts { agreed: 0, evidenced: 0, unresolved: 0, effect_ticks: 0 },
        };
        proof {
            assert(runtime@.kept =~= Set::empty());
            assert(runtime@.carried =~= Seq::empty());
            assert(runtime@.windows =~= Seq::empty());
            assert(runtime@.log =~= Seq::empty());
            empty_log(runtime@);
        }
        runtime
    }
}

proof fn empty_log(state: RuntimeView)
    requires
        state.log.len() == 0,
    ensures
        forall|kind: AttributionKind| #[trigger] state.logged(kind) == 0,
{
    assert forall|kind: AttributionKind| #[trigger] state.logged(kind) == 0 by {
        assert(state.log =~= Seq::empty());
        lists::filter_none(state.log, of_kind(kind));
    }
}

/// Replacing one record by another of the same state leaves every tally.
proof fn same_kind_update(log: Seq<RecordView>, at: int, record: RecordView, kind: AttributionKind)
    requires
        0 <= at < log.len(),
        record.attribution.kind() == log[at].attribution.kind(),
    ensures
        lists::count(log.update(at, record), of_kind(kind)) == lists::count(log, of_kind(kind)),
{
    let keep = of_kind(kind);
    let head = log.take(at);
    let tail = log.skip(at + 1);
    assert(log =~= head.push(log[at]) + tail);
    assert(log.update(at, record) =~= head.push(record) + tail);
    lists::count_add(head.push(log[at]), tail, keep);
    lists::count_add(head.push(record), tail, keep);
    lists::count_push(head, log[at], keep);
    lists::count_push(head, record, keep);
}

/// Two logs with the same states have the same tallies.
proof fn same_kinds(a: Seq<RecordView>, b: Seq<RecordView>, kind: AttributionKind)
    requires
        a.len() == b.len(),
        forall|i: int|
            0 <= i < a.len() ==> (#[trigger] a[i]).attribution.kind() == b[i].attribution.kind(),
    ensures
        lists::count(a, of_kind(kind)) == lists::count(b, of_kind(kind)),
    decreases a.len(),
{
    if a.len() == 0 {
        assert(a =~= b);
    } else {
        let keep = of_kind(kind);
        let last = a.len() - 1;
        assert(a =~= a.drop_last().push(a[last]));
        assert(b =~= b.drop_last().push(b[last]));
        same_kinds(a.drop_last(), b.drop_last(), kind);
        lists::count_push(a.drop_last(), a[last], keep);
        lists::count_push(b.drop_last(), b[last], keep);
    }
}

/// What keeping does to the tallies of a log.
proof fn keeping_tallies(log: Seq<RecordView>, evidence: Seq<char>, declared: Seq<char>)
    ensures
        forall|kind: AttributionKind| #[trigger]
            lists::count(keeping(log, evidence, declared), of_kind(kind)) == lists::count(
                log,
                of_kind(kind),
            ) + (match kind {
                AttributionKind::Agrees => lists::count(log, evidence_of(evidence)) as int,
                AttributionKind::Evidence => -(lists::count(log, evidence_of(evidence)) as int),
                _ => 0int,
            }),
    decreases log.len(),
{
    let after = keeping(log, evidence, declared);
    if log.len() == 0 {
        assert(log =~= Seq::empty());
        assert(after =~= Seq::empty());
        lists::filter_none(log, evidence_of(evidence));
        assert forall|kind: AttributionKind| #[trigger]
            lists::count(after, of_kind(kind)) == 0 && lists::count(log, of_kind(kind)) == 0 by {
            lists::filter_none(log, of_kind(kind));
        }
    } else {
        let last = log.len() - 1;
        let rest = log.drop_last();
        keeping_tallies(rest, evidence, declared);
        assert(log =~= rest.push(log[last]));
        assert(after =~= keeping(rest, evidence, declared).push(after[last]));
        lists::count_push(rest, log[last], evidence_of(evidence));
        assert forall|kind: AttributionKind| #[trigger]
            lists::count(after, of_kind(kind)) == lists::count(log, of_kind(kind)) + (match kind {
                AttributionKind::Agrees => lists::count(log, evidence_of(evidence)) as int,
                AttributionKind::Evidence => -(lists::count(log, evidence_of(evidence)) as int),
                _ => 0int,
            }) by {
            lists::count_push(rest, log[last], of_kind(kind));
            lists::count_push(keeping(rest, evidence, declared), after[last], of_kind(kind));
            assert(lists::count(keeping(rest, evidence, declared), of_kind(kind)) >= 0);
        }
    }
}

impl AttributionRuntime {
    /// Replace the carried set (session start, or a configuration reload).
    /// The regime's shots stay as recorded; only later observations see the
    /// new bands.
    pub fn set_carried(&mut self, carried: Vec<CarriedWeapon>)
        ensures
            final(self)@ == (RuntimeView { carried: text::views(carried@), ..old(self)@ }),
            old(self)@.wf() ==> final(self)@.wf(),
    {
        self.carried = carried;
        proof {
            if old(self)@.wf() {
                assert forall|kind: AttributionKind| #[trigger]
                    self@.logged(kind) <= tallied(self@.counts, kind) by {
                    assert(self@.logged(kind) == old(self)@.logged(kind));
                }
            }
        }
    }

    /// The weapon the hotbar declared.
    pub fn declared(&self) -> (tool: Option<&str>)
        ensures
            text::opt_view(tool) == self@.declared,
    {
        match &self.declared {
            Some(tool) => Some(tool.as_str()),
            None => None,
        }
    }

    /// The weapon shots are being recorded to right now: the evidence weapon
    /// of a standing mismatch, else the declared weapon, else the weapon
    /// evidence last named.
    pub fn recording(&self) -> (tool: Option<&str>)
        ensures
            text::opt_view(tool) == self@.recorded(),
    {
        match &self.mismatch {
            Some(mismatch) => Some(mismatch.evidence.as_str()),
            None => match &self.declared {
                Some(declared) => Some(declared.as_str()),
                None => match &self.recording {
                    Some(recording) => Some(recording.as_str()),
                    None => None,
                },
            },
        }
    }

    /// The standing mismatch.
    pub fn mismatch(&self) -> (mismatch: Option<&WeaponMismatch>)
        ensures
            text::opt_view(mismatch) == self@.mismatch,
    {
        match &self.mismatch {
            Some(mismatch) => Some(mismatch),
            None => None,
        }
    }

    /// The tallies.
    pub fn counts(&self) -> (counts: AttributionCounts)
        ensures
            counts == self@.counts,
    {
        self.counts
    }

    /// The shots of the current regime a decision could still reach.
    pub fn log(&self) -> (log: &Vec<ShotRecord>)
        ensures
            text::views(log@) == self@.log,
    {
        &self.log
    }

    /// How many observations have been absorbed.
    pub fn observed(&self) -> (seq: u64)
        ensures
            seq == self@.next_seq,
    {
        self.next_seq
    }

    /// Open an effect window whose ticks are outcomes of an earlier paid
    /// activation.
    pub fn open_effect_window(&mut self, window: OffensiveEffectWindow)
        ensures
            final(self)@ == (RuntimeView {
                windows: old(self)@.windows.push(window@),
                ..old(self)@
            }),
            old(self)@.wf() ==> final(self)@.wf(),
    {
        self.effect_windows.push(window);
        proof {
            assert(self@.windows =~= old(self)@.windows.push(window@));
            assert forall|kind: AttributionKind| #[trigger]
                self@.logged(kind) == old(self)@.logged(kind) by {}
        }
    }

    /// Adopt the persisted effect windows as the live ones (a session's
    /// start: effects paid for before it keep ticking into it).
    pub fn set_effect_windows(&mut self, windows: Vec<OffensiveEffectWindow>)
        ensures
            final(self)@ == (RuntimeView { windows: text::views(windows@), ..old(self)@ }),
            old(self)@.wf() ==> final(self)@.wf(),
    {
        self.effect_windows = windows;
        proof {
            assert forall|kind: AttributionKind| #[trigger]
                self@.logged(kind) == old(self)@.logged(kind) by {}
        }
    }

    /// The open effect windows.
    pub fn effect_windows(&self) -> (windows: &Vec<OffensiveEffectWindow>)
        ensures
            text::views(windows@) == self@.windows,
    {
        &self.effect_windows
    }

    fn floor(&mut self)
        requires
            old(self)@.wf(),
        ensures
            final(self)@ == old(self)@.floored(),
            final(self)@.wf(),
    {
        self.mismatch = None;
        self.kept = Vec::new();
        self.log = Vec::new();
        proof {
            assert(self@.kept =~= Set::empty());
            assert(self@.log =~= Seq::empty());
            empty_log(self@);
            old(self)@.counts_positive();
        }
    }

    /// A weapon press: the pressed weapon is declared from here, a new regime
    /// starts, and the previous weapon's shots may still land for a moment.
    pub fn declare(&mut self, tool: &str, at: i64)
        requires
            old(self)@.wf(),
        ensures
            final(self)@ == old(self)@.declaring(tool@, at),
            final(self)@.wf(),
    {
        self.floor();
        self.previous = match &self.declared {
            Some(previous) => if same_text(previous.as_str(), tool) {
                None
            } else {
                Some((previous.clone(), at))
            },
            None => None,
        };
        self.declared = Some(tool.to_owned());
        self.recording = None;
        proof {
            assert forall|kind: AttributionKind| #[trigger]
                self@.logged(kind) == old(self)@.floored().logged(kind) by {}
        }
    }

    /// A harvesting-tool press re-syncs the belief with the game: a new regime
    /// starts with the declared weapon unchanged.
    pub fn resync(&mut self)
        requires
            old(self)@.wf(),
        ensures
            final(self)@ == old(self)@.floored(),
            final(self)@.wf(),
    {
        self.floor();
    }
}

/// The four states partition a log.
proof fn kinds_partition(log: Seq<RecordView>)
    ensures
        log.len() == lists::count(log, of_kind(AttributionKind::Agrees)) + lists::count(
            log,
            of_kind(AttributionKind::EffectTick),
        ) + lists::count(log, of_kind(AttributionKind::Evidence)) + lists::count(
            log,
            of_kind(AttributionKind::Unresolved),
        ),
    decreases log.len(),
{
    if log.len() == 0 {
        assert(log =~= Seq::empty());
        lists::filter_none(log, of_kind(AttributionKind::Agrees));
        lists::filter_none(log, of_kind(AttributionKind::EffectTick));
        lists::filter_none(log, of_kind(AttributionKind::Evidence));
        lists::filter_none(log, of_kind(AttributionKind::Unresolved));
    } else {
        let rest = log.drop_last();
        assert(log =~= rest.push(log.last()));
        kinds_partition(rest);
        lists::count_push(rest, log.last(), of_kind(AttributionKind::Agrees));
        lists::count_push(rest, log.last(), of_kind(AttributionKind::EffectTick));
        lists::count_push(rest, log.last(), of_kind(AttributionKind::Evidence));
        lists::count_push(rest, log.last(), of_kind(AttributionKind::Unresolved));
    }
}

impl RuntimeView {
    /// The log of a valid state never outgrows the observations.
    pub proof fn log_is_bounded(self)
        requires
            self.wf(),
        ensures
            self.log.len() <= self.next_seq,
    {
        kinds_partition(self.log);
        assert(self.logged(AttributionKind::Agrees) <= tallied(
            self.counts,
            AttributionKind::Agrees,
        ));
        assert(self.logged(AttributionKind::Evidence) <= tallied(
            self.counts,
            AttributionKind::Evidence,
        ));
        assert(self.logged(AttributionKind::Unresolved) <= tallied(
            self.counts,
            AttributionKind::Unresolved,
        ));
        assert(self.logged(AttributionKind::EffectTick) <= tallied(
            self.counts,
            AttributionKind::EffectTick,
        ));
    }

    /// No tally of a valid state is negative.
    pub proof fn counts_positive(self)
        requires
            self.wf(),
        ensures
            forall|kind: AttributionKind| #[trigger] tallied(self.counts, kind) >= 0,
            self.counts.agreed >= 0,
            self.counts.evidenced >= 0,
            self.counts.unresolved >= 0,
            self.counts.effect_ticks >= 0,
    {
        assert(self.logged(AttributionKind::Agrees) >= 0);
        assert(self.logged(AttributionKind::Evidence) >= 0);
        assert(self.logged(AttributionKind::Unresolved) >= 0);
        assert(self.logged(AttributionKind::EffectTick) >= 0);
    }
}

fn windows_lasting(windows: &Vec<OffensiveEffectWindow>, at: i64) -> (found: Vec<
    OffensiveEffectWindow,
>)
    ensures
        text::views(found@) == text::views(windows@).filter(lasting(at as int)),
{
    let ghost all = text::views(windows@);
    let ghost keep = lasting(at as int);
    let mut found: Vec<OffensiveEffectWindow> = Vec::new();
    let mut i: usize = 0;
    proof {
        lists::filter_none(all, keep);
    }
    while i < windows.len()
        invariant
            i <= windows.len(),
            all == text::views(windows@),
            keep == lasting(at as int),
            text::views(found@) =~= all.take(i as int).filter(keep),
        decreases windows.len() - i,
    {
        proof {
            lists::filter_step(all, i as int, keep);
        }
        let window = &windows[i];
        assert(window@ == all[i as int]);
        if window.outlasts(at) {
            found.push(window.clone());
        }
        i += 1;
    }
    proof {
        lists::filter_all(all, keep);
    }
    found
}

fn windows_standing(windows: &Vec<OffensiveEffectWindow>, withdrawn: &Vec<String>) -> (found: Vec<
    OffensiveEffectWindow,
>)
    ensures
        text::views(found@) == text::views(windows@).filter(
            not_withdrawn(text::views(withdrawn@)),
        ),
{
    let ghost all = text::views(windows@);
    let ghost keep = not_withdrawn(text::views(withdrawn@));
    let mut found: Vec<OffensiveEffectWindow> = Vec::new();
    let mut i: usize = 0;
    proof {
        lists::filter_none(all, keep);
    }
    while i < windows.len()
        invariant
            i <= windows.len(),
            all == text::views(windows@),
            keep == not_withdrawn(text::views(withdrawn@)),
            text::views(found@) =~= all.take(i as int).filter(keep),
        decreases windows.len() - i,
    {
        proof {
            lists::filter_step(all, i as int, keep);
        }
        let window = &windows[i];
        assert(window@ == all[i as int]);
        if !holds_text(withdrawn, window.id.as_str()) {
            found.push(window.clone());
        }
        i += 1;
    }
    proof {
        lists::filter_all(all, keep);
    }
    found
}

fn evidence_records(log: &Vec<ShotRecord>) -> (found: Vec<ShotRecord>)
    ensures
        text::views(found@) == text::views(log@).filter(of_kind(AttributionKind::Evidence)),
{
    let ghost all = text::views(log@);
    let ghost keep = of_kind(AttributionKind::Evidence);
    let mut found: Vec<ShotRecord> = Vec::new();
    let mut i: usize = 0;
    proof {
        lists::filter_none(all, keep);
    }
    while i < log.len()
        invariant
            i <= log.len(),
            all == text::views(log@),
            keep == of_kind(AttributionKind::Evidence),
            text::views(found@) =~= all.take(i as int).filter(keep),
        decreases log.len() - i,
    {
        proof {
            lists::filter_step(all, i as int, keep);
        }
        let record = &log[i];
        assert(record@ == all[i as int]);
        if record.attribution.kind() == AttributionKind::Evidence {
            found.push(record.clone());
        }
        i += 1;
    }
    proof {
        lists::filter_all(all, keep);
    }
    found
}

fn bounds(record: &ShotRecord, evidence: &str) -> (stops: bool)
    ensures
        stops == bounds_walk(record@, evidence@),
{
    match &record.attribution {
        Attribution::Agrees { reason, .. } => match reason {
            AgreeReason::Fits => !holds_text(&record.fits, evidence),
            AgreeReason::InFlight => true,
            AgreeReason::Kept => true,
            AgreeReason::BelowBand => false,
            AgreeReason::Countered => false,
            AgreeReason::Unvalidated => false,
        },
        _ => false,
    }
}

fn moves(record: &ShotRecord, evidence: &str) -> (yes: bool)
    ensures
        yes == movable(evidence@)(record@),
{
    match &record.attribution {
        Attribution::Agrees { .. } => !bounds(record, evidence),
        // A hit an open effect could equally have ticked stays as recorded:
        // the decision is about weapons, not effects.
        Attribution::Unresolved => match record.observation {
            Observation::Countered => true,
            Observation::Hit { .. } => holds_text(&record.fits, evidence) && record.windows.len()
                == 0,
        },
        _ => false,
    }
}

fn names_evidence(record: &ShotRecord, evidence: &str) -> (yes: bool)
    ensures
        yes == evidence_of(evidence@)(record@),
{
    match &record.attribution {
        Attribution::Evidence { tool, .. } => same_text(tool.as_str(), evidence),
        _ => false,
    }
}

impl AttributionRuntime {
    /// Absorb a classified observation: update the regime's mismatch, the
    /// weapon being recorded, and the tallies. Returns the sequence number the
    /// shot is remembered under once [`Self::remember`] logs it.
    pub fn apply(&mut self, resolved: &Resolved, at: i64) -> (seq: u64)
        requires
            old(self)@.wf(),
            old(self)@.next_seq < i64::MAX,
        ensures
            seq == old(self)@.next_seq,
            final(self)@ == old(self)@.applied(resolved@, at),
            final(self)@.wf(),
            final(self)@.logged(resolved@.attribution.kind()) < tallied(
                final(self)@.counts,
                resolved@.attribution.kind(),
            ),
    {
        proof {
            self@.counts_positive();
        }
        self.effect_windows = windows_lasting(&self.effect_windows, at);
        match &resolved.attribution {
            Attribution::Agrees { reason, .. } => {
                self.counts.agreed = self.counts.agreed + 1;
                // A hit only the declared weapon's band explains (and not the
                // standing evidence weapon's) proves the declared weapon is
                // in hand: the mismatch is over.
                if *reason == AgreeReason::Fits {
                    let over: bool = match &self.mismatch {
                        Some(mismatch) => !holds_text(
                            &resolved.fits,
                            mismatch.evidence.as_str(),
                        ),
                        None => false,
                    };
                    if over {
                        self.mismatch = None;
                    }
                }
            },
            Attribution::EffectTick { .. } => {
                self.counts.effect_ticks = self.counts.effect_ticks + 1;
            },
            Attribution::Evidence { tool, .. } => {
                self.counts.evidenced = self.counts.evidenced + 1;
                match &self.declared {
                    Some(declared) => {
                        if !same_text(declared.as_str(), tool.as_str()) {
                            let next: WeaponMismatch = match &self.mismatch {
                                Some(mismatch) => if same_text(
                                    mismatch.evidence.as_str(),
                                    tool.as_str(),
                                ) {
                                    WeaponMismatch {
                                        declared: mismatch.declared.clone(),
                                        evidence: mismatch.evidence.clone(),
                                        since: mismatch.since,
                                        shots: mismatch.shots + 1,
                                    }
                                } else {
                                    WeaponMismatch {
                                        declared: declared.clone(),
                                        evidence: tool.clone(),
                                        since: at,
                                        shots: 1,
                                    }
                                },
                                None => WeaponMismatch {
                                    declared: declared.clone(),
                                    evidence: tool.clone(),
                                    since: at,
                                    shots: 1,
                                },
                            };
                            self.mismatch = Some(next);
                        }
                    },
                    None => {
                        self.recording = Some(tool.clone());
                    },
                }
            },
            Attribution::Unresolved => {
                self.counts.unresolved = self.counts.unresolved + 1;
            },
        }
        let seq: u64 = self.next_seq;
        self.next_seq = self.next_seq + 1;
        proof {
            let before = old(self)@;
            assert(self@ =~= before.applied(resolved@, at));
            assert forall|kind: AttributionKind| #[trigger]
                self@.logged(kind) <= tallied(self@.counts, kind) by {
                assert(self@.logged(kind) == before.logged(kind));
            }
            let kind = resolved@.attribution.kind();
            assert(self@.logged(kind) == before.logged(kind));
        }
        seq
    }

    /// Remember a priced shot of the current regime, for a later decision. A
    /// hit only the declared weapon explains proves it was in hand, so no
    /// decision can reach past it: everything older that a decision could not
    /// move anyway is forgotten, which bounds the log to the evidence of the
    /// regime plus the shots since the last proof.
    pub fn remember(&mut self, record: ShotRecord)
        requires
            old(self)@.wf(),
            old(self)@.logged(record@.attribution.kind()) < tallied(
                old(self)@.counts,
                record@.attribution.kind(),
            ),
        ensures
            final(self)@ == old(self)@.remembering(record@),
            final(self)@.wf(),
    {
        let proves: bool = match &record.attribution {
            Attribution::Agrees { reason, .. } => *reason == AgreeReason::Fits && record.fits.len()
                == 1,
            _ => false,
        };
        let ghost before = self@;
        if proves {
            self.log = evidence_records(&self.log);
        }
        let ghost older = self@.log;
        self.log.push(record);
        proof {
            assert(self@.log =~= older.push(record@));
            assert forall|kind: AttributionKind| #[trigger]
                self@.logged(kind) <= tallied(self@.counts, kind) by {
                lists::count_filtered(
                    before.log,
                    of_kind(AttributionKind::Evidence),
                    of_kind(kind),
                );
                lists::count_push(older, record@, of_kind(kind));
                assert(before.logged(kind) <= tallied(before.counts, kind));
            }
        }
    }

    /// Every pending shot settled into this kill.
    pub fn settle_kill(&mut self, kill_id: &str)
        requires
            old(self)@.wf(),
        ensures
            final(self)@ == old(self)@.settling(kill_id@),
            final(self)@.wf(),
    {
        let ghost before = self@;
        let mut log: Vec<ShotRecord> = Vec::new();
        let mut i: usize = 0;
        while i < self.log.len()
            invariant
                i <= self.log.len(),
                log.len() == i,
                before.log == text::views(self.log@),
                forall|j: int|
                    0 <= j < i ==> (#[trigger] log@[j])@ == settled(before.log[j], kill_id@),
            decreases self.log.len() - i,
        {
            let mut record = self.log[i].clone();
            let pending: bool = match &record.location {
                ShotLocation::Pending => true,
                ShotLocation::Kill(_) => false,
            };
            if pending {
                record.location = ShotLocation::Kill(kill_id.to_owned());
            }
            assert(record@ == settled(before.log[i as int], kill_id@));
            log.push(record);
            i += 1;
        }
        self.log = log;
        proof {
            assert(self@.log =~= before.settling(kill_id@).log);
            assert forall|kind: AttributionKind| #[trigger]
                self@.logged(kind) <= tallied(self@.counts, kind) by {
                same_kinds(self@.log, before.log, kind);
                assert(before.logged(kind) <= tallied(before.counts, kind));
            }
        }
    }

    /// Confirm the evidence weapon: it becomes the declared weapon from now,
    /// and the regime's shots it plausibly fired are repriced to it. Walking
    /// back from the newest shot, a hit that fits the declared weapon but not
    /// the evidence one proves the switch came later, and a shot the player
    /// already vouched for (kept) or a previous weapon's in-flight shot bounds
    /// the walk the same way. Before those, a countered shot, a hit either
    /// weapon explains, a hit short of every band, and an unresolved hit the
    /// evidence weapon fits (unless an open effect could equally have ticked
    /// it) all move.
    pub fn confirm(&mut self, at: i64) -> (decision: Option<Decision>)
        requires
            old(self)@.wf(),
        ensures
            text::opt_view(decision) == old(self)@.confirmation(),
            final(self)@ == old(self)@.confirming(at),
            final(self)@.wf(),
    {
        let mismatch: WeaponMismatch = match &self.mismatch {
            Some(mismatch) => mismatch.clone(),
            None => {
                return None;
            },
        };
        let evidence = mismatch.evidence.as_str();
        let ghost log = self@.log;
        let mut start: usize = self.log.len();
        assert(log.take(log.len() as int) =~= log);
        while start > 0 && !bounds(&self.log[start - 1], evidence)
            invariant
                start <= self.log.len(),
                log == text::views(self.log@),
                walk_start(log, evidence@) == walk_start(log.take(start as int), evidence@),
            decreases start,
        {
            assert(log.take(start as int).drop_last() =~= log.take(start as int - 1));
            start -= 1;
        }
        proof {
            if start > 0 {
                assert(log.take(start as int).last() == self.log@[start as int - 1]@);
            }
        }
        let ghost reach = log.skip(start as int);
        let ghost keep = movable(evidence@);
        let ghost agrees = of_kind(AttributionKind::Agrees);
        let ghost open = of_kind(AttributionKind::Unresolved);
        let mut moved: Vec<Reprice> = Vec::new();
        let mut agreed: i64 = 0;
        let mut unresolved: i64 = 0;
        let mut i: usize = start;
        proof {
            lists::filter_none(reach, keep);
            lists::filter_none(Seq::<RecordView>::empty(), agrees);
            lists::filter_none(Seq::<RecordView>::empty(), open);
            old(self)@.counts_positive();
            old(self)@.log_is_bounded();
        }
        while i < self.log.len()
            invariant
                start <= i <= self.log.len(),
                log == text::views(self.log@),
                reach == log.skip(start as int),
                keep == movable(evidence@),
                agrees == of_kind(AttributionKind::Agrees),
                open == of_kind(AttributionKind::Unresolved),
                evidence@ == mismatch.evidence@,
                text::views(moved@) =~= reprices(
                    reach.take(i as int - start as int).filter(keep),
                    evidence@,
                ),
                agreed == lists::count(reach.take(i as int - start as int).filter(keep), agrees),
                unresolved == lists::count(reach.take(i as int - start as int).filter(keep), open),
                agreed + unresolved <= i - start,
                self.log.len() <= i64::MAX,
            decreases self.log.len() - i,
        {
            let ghost k = i as int - start as int;
            let ghost had = reach.take(k).filter(keep);
            proof {
                lists::filter_step(reach, k, keep);
                assert(reach[k] == self.log@[i as int]@);
                lists::count_push(had, reach[k], agrees);
                lists::count_push(had, reach[k], open);
            }
            let record = &self.log[i];
            if moves(record, evidence) {
                match &record.attribution {
                    Attribution::Agrees { .. } => {
                        agreed = agreed + 1;
                    },
                    Attribution::Unresolved => {
                        unresolved = unresolved + 1;
                    },
                    _ => {},
                }
                let ghost moved_before = text::views(moved@);
                moved.push(
                    Reprice { seq: record.seq, to_tool: evidence.to_owned(), record: record.clone() },
                );
                assert(text::views(moved@) =~= moved_before.push(
                    RepriceView { seq: reach[k].seq, to_tool: evidence@, record: reach[k] },
                ));
                assert(reprices(had.push(reach[k]), evidence@) =~= reprices(had, evidence@).push(
                    RepriceView { seq: reach[k].seq, to_tool: evidence@, record: reach[k] },
                ));
            }
            i += 1;
        }
        let ghost all = reach.filter(keep);
        proof {
            lists::filter_all(reach, keep);
            old(self)@.confirming_is_valid(at);
        }
        let ghost before = self@;
        self.counts.agreed = self.counts.agreed - agreed;
        self.counts.unresolved = self.counts.unresolved - unresolved;
        self.counts.evidenced = self.counts.evidenced + (agreed + unresolved);
        // The confirmation is the player's own declaration: a new regime with
        // the evidence weapon in hand.
        self.previous = match &self.declared {
            Some(previous) => if same_text(previous.as_str(), evidence) {
                None
            } else {
                Some((previous.clone(), at))
            },
            None => None,
        };
        self.declared = Some(evidence.to_owned());
        self.recording = None;
        self.mismatch = None;
        self.kept = Vec::new();
        self.log = Vec::new();
        proof {
            assert(self@.kept =~= Set::empty());
            assert(self@.log =~= Seq::empty());
            assert(self@ =~= before.confirming(at));
        }
        let decision = Decision { mismatch, moves: moved, withdrawn: Vec::new() };
        assert(decision@.withdrawn =~= Seq::empty());
        assert(decision@ =~= before.confirmation()->0);
        Some(decision)
    }
}

impl RuntimeView {
    /// A confirmation of a valid state leaves a valid state, its moved shots
    /// tallied as evidence.
    pub proof fn confirming_is_valid(self, at: i64)
        requires
            self.wf(),
        ensures
            self.confirming(at).wf(),
            match self.mismatch {
                Some(mismatch) => {
                    let moved = self.confirmed_records(mismatch.evidence);
                    let agreed = lists::count(moved, of_kind(AttributionKind::Agrees));
                    let open = lists::count(moved, of_kind(AttributionKind::Unresolved));
                    &&& agreed + open == moved.len()
                    &&& agreed <= self.counts.agreed
                    &&& open <= self.counts.unresolved
                    &&& self.confirming(at).counts.agreed == self.counts.agreed - agreed
                    &&& self.confirming(at).counts.unresolved == self.counts.unresolved - open
                    &&& self.confirming(at).counts.evidenced == self.counts.evidenced + moved.len()
                },
                None => true,
            },
    {
        self.counts_positive();
        if let Some(mismatch) = self.mismatch {
            let evidence = mismatch.evidence;
            let start = walk_start(self.log, evidence);
            walk_in_range(self.log, evidence);
            let reach = self.log.skip(start);
            let keep = movable(evidence);
            let agrees = of_kind(AttributionKind::Agrees);
            let open = of_kind(AttributionKind::Unresolved);
            let moved = reach.filter(keep);
            lists::count_filtered(reach, keep, agrees);
            lists::count_filtered(reach, keep, open);
            assert(self.log =~= self.log.take(start) + reach);
            lists::count_add(self.log.take(start), reach, agrees);
            lists::count_add(self.log.take(start), reach, open);
            assert(self.logged(AttributionKind::Agrees) <= tallied(
                self.counts,
                AttributionKind::Agrees,
            ));
            assert(self.logged(AttributionKind::Unresolved) <= tallied(
                self.counts,
                AttributionKind::Unresolved,
            ));
            lists::filter_kept(reach, keep);
            moved_split(moved, evidence);
            empty_log(self.confirming(at));
        }
    }

    /// A keep of a valid state leaves a valid state, its shots tallied as
    /// agreeing.
    pub proof fn keeping_is_valid(self)
        requires
            self.wf(),
        ensures
            self.keeping_declared().wf(),
            match self.mismatch {
                Some(mismatch) => {
                    let moved = lists::count(self.log, evidence_of(mismatch.evidence));
                    &&& moved <= self.counts.evidenced
                    &&& self.keeping_declared().counts.agreed == self.counts.agreed + moved
                    &&& self.keeping_declared().counts.evidenced == self.counts.evidenced - moved
                },
                None => true,
            },
    {
        self.counts_positive();
        if let Some(mismatch) = self.mismatch {
            let after = self.keeping_declared();
            evidence_is_of_kind(self.log, mismatch.evidence);
            assert(self.logged(AttributionKind::Evidence) <= tallied(
                self.counts,
                AttributionKind::Evidence,
            ));
            keeping_tallies(self.log, mismatch.evidence, mismatch.declared);
            assert forall|kind: AttributionKind| #[trigger]
                after.logged(kind) <= tallied(after.counts, kind) by {
                assert(self.logged(kind) <= tallied(self.counts, kind));
            }
        }
    }
}

/// The walk back stops inside the log.
pub proof fn walk_in_range(log: Seq<RecordView>, evidence: Seq<char>)
    ensures
        0 <= walk_start(log, evidence) <= log.len(),
    decreases log.len(),
{
    if log.len() > 0 {
        walk_in_range(log.drop_last(), evidence);
    }
}

/// What moves is either an agreeing shot or an unresolved one.
proof fn moved_split(moved: Seq<RecordView>, evidence: Seq<char>)
    requires
        forall|i: int| 0 <= i < moved.len() ==> movable(evidence)(#[trigger] moved[i]),
    ensures
        lists::count(moved, of_kind(AttributionKind::Agrees)) + lists::count(
            moved,
            of_kind(AttributionKind::Unresolved),
        ) == moved.len(),
    decreases moved.len(),
{
    if moved.len() == 0 {
        assert(moved =~= Seq::empty());
        lists::filter_none(moved, of_kind(AttributionKind::Agrees));
        lists::filter_none(moved, of_kind(AttributionKind::Unresolved));
    } else {
        let rest = moved.drop_last();
        assert(moved =~= rest.push(moved.last()));
        assert(movable(evidence)(moved[moved.len() - 1]));
        moved_split(rest, evidence);
        lists::count_push(rest, moved.last(), of_kind(AttributionKind::Agrees));
        lists::count_push(rest, moved.last(), of_kind(AttributionKind::Unresolved));
    }
}

impl AttributionRuntime {
    /// Keep the declared weapon: the regime's evidence shots of the mismatch's
    /// weapon are repriced back to the declared weapon, and that weapon's
    /// evidence stops overriding it until the next regime. An effect one of
    /// those shots opened is taken back with it: the player says no such cast
    /// happened, so it explains no later tick.
    pub fn keep(&mut self) -> (decision: Option<Decision>)
        requires
            old(self)@.wf(),
        ensures
            text::opt_view(decision) == old(self)@.keep_decision(),
            final(self)@ == old(self)@.keeping_declared(),
            final(self)@.wf(),
    {
        let mismatch: WeaponMismatch = match &self.mismatch {
            Some(mismatch) => mismatch.clone(),
            None => {
                return None;
            },
        };
        let evidence = mismatch.evidence.as_str();
        let declared = mismatch.declared.as_str();
        let ghost before = self@;
        let ghost all = self@.log;
        let ghost named = evidence_of(evidence@);
        let ghost openers = opener_of(evidence@);
        let mut log: Vec<ShotRecord> = Vec::new();
        let mut moved: Vec<Reprice> = Vec::new();
        let mut withdrawn: Vec<String> = Vec::new();
        let mut hits: i64 = 0;
        let mut i: usize = 0;
        proof {
            lists::filter_none(all, named);
            lists::filter_none(all, openers);
            before.log_is_bounded();
            before.counts_positive();
        }
        while i < self.log.len()
            invariant
                i <= self.log.len(),
                all == text::views(self.log@),
                named == evidence_of(evidence@),
                openers == opener_of(evidence@),
                log.len() == i,
                forall|j: int|
                    0 <= j < i ==> (#[trigger] log@[j])@ == keeping(
                        all,
                        evidence@,
                        declared@,
                    )[j],
                text::views(moved@) =~= reprices(all.take(i as int).filter(named), declared@),
                text::views(withdrawn@) =~= opened(all.take(i as int).filter(openers)),
                hits == moved.len(),
                hits <= i,
                self.log.len() <= i64::MAX,
            decreases self.log.len() - i,
        {
            proof {
                lists::filter_step(all, i as int, named);
                lists::filter_step(all, i as int, openers);
                assert(all[i as int] == self.log@[i as int]@);
            }
            let mut record = self.log[i].clone();
            if names_evidence(&record, evidence) {
                let ghost had = all.take(i as int).filter(named);
                let ghost moved_before = text::views(moved@);
                moved.push(
                    Reprice { seq: record.seq, to_tool: declared.to_owned(), record: record.clone() },
                );
                hits = hits + 1;
                proof {
                    let step = RepriceView {
                        seq: all[i as int].seq,
                        to_tool: declared@,
                        record: all[i as int],
                    };
                    assert(text::views(moved@) =~= moved_before.push(step));
                    assert(reprices(had.push(all[i as int]), declared@) =~= reprices(
                        had,
                        declared@,
                    ).push(step));
                }
                if let Some(window) = &record.opened_window {
                    let ghost had = all.take(i as int).filter(openers);
                    let ghost taken = text::views(withdrawn@);
                    withdrawn.push(window.clone());
                    assert(text::views(withdrawn@) =~= taken.push(window@));
                    assert(opened(had.push(all[i as int])) =~= opened(had).push(window@));
                }
                record.attribution = Attribution::Agrees {
                    tool: declared.to_owned(),
                    reason: AgreeReason::Kept,
                };
                record.opened_window = None;
                assert(record@ == kept_for(all[i as int], declared@));
            }
            log.push(record);
            i += 1;
        }
        proof {
            lists::filter_all(all, named);
            lists::filter_all(all, openers);
            before.keeping_is_valid();
        }
        self.log = log;
        self.counts.evidenced = self.counts.evidenced - hits;
        self.counts.agreed = self.counts.agreed + hits;
        self.effect_windows = windows_standing(&self.effect_windows, &withdrawn);
        let ghost kept = text::views(self.kept@);
        self.kept.push(mismatch.evidence.clone());
        self.mismatch = None;
        proof {
            assert(self@.log =~= keeping(all, evidence@, declared@));
            assert(text::views(self.kept@) =~= kept.push(evidence@));
            assert forall|name: Seq<char>|
                kept.push(evidence@).to_set().contains(name) == kept.to_set().insert(
                    evidence@,
                ).contains(name) by {
                if kept.contains(name) {
                    let j = choose|j: int| 0 <= j < kept.len() && kept[j] == name;
                    assert(kept.push(evidence@)[j] == name);
                }
                if name == evidence@ {
                    assert(kept.push(evidence@)[kept.len() as int] == name);
                }
            }
            assert(self@.kept =~= before.kept.insert(evidence@));
            assert(self@ =~= before.keeping_declared());
        }
        let decision = Decision { mismatch, moves: moved, withdrawn };
        assert(decision@ =~= before.keep_decision()->0);
        Some(decision)
    }

    fn position_of(&self, seq: u64) -> (at: usize)
        ensures
            at == position(self@.log, seq),
            at <= self@.log.len(),
    {
        let ghost all = self@.log;
        let mut i: usize = 0;
        assert(all.skip(0) =~= all);
        while i < self.log.len()
            invariant
                i <= self.log.len(),
                all == text::views(self.log@),
                position(all, seq) == i + position(all.skip(i as int), seq),
            decreases self.log.len() - i,
        {
            assert(all.skip(i as int)[0] == self.log@[i as int]@);
            if self.log[i].seq == seq {
                return i;
            }
            assert(all.skip(i as int).skip(1) =~= all.skip(i as int + 1));
            i += 1;
        }
        i
    }

    /// Book a logged shot under another weapon, at its cost. A shot no longer
    /// logged is left alone.
    pub fn rebook(&mut self, seq: u64, tool: &str, cost: Ped)
        requires
            old(self)@.wf(),
        ensures
            final(self)@ == old(self)@.rebooking(seq, tool@, cost),
            final(self)@.wf(),
    {
        let ghost before = self@;
        let at: usize = self.position_of(seq);
        if at < self.log.len() {
            let mut record = self.log[at].clone();
            record.booked = Some(tool.to_owned());
            record.cost = cost;
            let ghost changed = record@;
            self.log[at] = record;
            proof {
                assert(self@.log =~= before.log.update(at as int, changed));
                assert forall|kind: AttributionKind| #[trigger]
                    self@.logged(kind) <= tallied(self@.counts, kind) by {
                    same_kind_update(before.log, at as int, changed, kind);
                    assert(before.logged(kind) <= tallied(before.counts, kind));
                }
            }
        }
    }

    /// Note the effect window a logged shot opened. A shot no longer logged
    /// is left alone.
    pub fn mark_opened(&mut self, seq: u64, window: &str)
        requires
            old(self)@.wf(),
        ensures
            final(self)@ == old(self)@.marking(seq, window@),
            final(self)@.wf(),
    {
        let ghost before = self@;
        let at: usize = self.position_of(seq);
        if at < self.log.len() {
            let mut record = self.log[at].clone();
            record.opened_window = Some(window.to_owned());
            let ghost changed = record@;
            self.log[at] = record;
            proof {
                assert(self@.log =~= before.log.update(at as int, changed));
                assert forall|kind: AttributionKind| #[trigger]
                    self@.logged(kind) <= tallied(self@.counts, kind) by {
                    same_kind_update(before.log, at as int, changed, kind);
                    assert(before.logged(kind) <= tallied(before.counts, kind));
                }
            }
        }
    }
}

/// Evidence naming a weapon is evidence.
proof fn evidence_is_of_kind(log: Seq<RecordView>, evidence: Seq<char>)
    ensures
        lists::count(log, evidence_of(evidence)) <= lists::count(
            log,
            of_kind(AttributionKind::Evidence),
        ),
    decreases log.len(),
{
    if log.len() == 0 {
        assert(log =~= Seq::empty());
        lists::filter_none(log, evidence_of(evidence));
    } else {
        let rest = log.drop_last();
        assert(log =~= rest.push(log.last()));
        evidence_is_of_kind(rest, evidence);
        lists::count_push(rest, log.last(), evidence_of(evidence));
        lists::count_push(rest, log.last(), of_kind(AttributionKind::Evidence));
    }
}

impl Clone for AttributionRuntime {
    fn clone(&self) -> (copy: Self)
        ensures
            copy@ == self@,
    {
        let mut carried: Vec<CarriedWeapon> = Vec::new();
        let mut i: usize = 0;
        while i < self.carried.len()
            invariant
                i <= self.carried.len(),
                carried.len() == i,
                forall|j: int| 0 <= j < i ==> (#[trigger] carried@[j])@ == self.carried@[j]@,
            decreases self.carried.len() - i,
        {
            carried.push(self.carried[i].clone());
            i += 1;
        }
        let mut windows: Vec<OffensiveEffectWindow> = Vec::new();
        i = 0;
        while i < self.effect_windows.len()
            invariant
                i <= self.effect_windows.len(),
                windows.len() == i,
                forall|j: int|
                    0 <= j < i ==> (#[trigger] windows@[j])@ == self.effect_windows@[j]@,
            decreases self.effect_windows.len() - i,
        {
            windows.push(self.effect_windows[i].clone());
            i += 1;
        }
        let mut log: Vec<ShotRecord> = Vec::new();
        i = 0;
        while i < self.log.len()
            invariant
                i <= self.log.len(),
                log.len() == i,
                forall|j: int| 0 <= j < i ==> (#[trigger] log@[j])@ == self.log@[j]@,
            decreases self.log.len() - i,
        {
            log.push(self.log[i].clone());
            i += 1;
        }
        let copy = AttributionRuntime {
            carried,
            declared: copy_optional(&self.declared),
            previous: match &self.previous {
                Some((tool, at)) => Some((tool.clone(), *at)),
                None => None,
            },
            recording: copy_optional(&self.recording),
            mismatch: match &self.mismatch {
                Some(mismatch) => Some(mismatch.clone()),
                None => None,
            },
            kept: copy_texts(&self.kept),
            effect_windows: windows,
            log,
            next_seq: self.next_seq,
            counts: self.counts,
        };
        proof {
            assert(copy@.carried =~= self@.carried);
            assert(copy@.windows =~= self@.windows);
            assert(copy@.log =~= self@.log);
            assert(copy@ =~= self@);
        }
        copy
    }
}

} // verus!
