//! Which weapon a combat line is taken for, in the figures of bands, windows and
//! instants, and what taking it so changes.

use crate::attribution::{
    AgreeReason, AttributionKind, AttributionView, DamageBand, MismatchView, Observation,
    ResolvedView, WeaponEffectMode, WeaponProps, WeaponView, WindowView,
};
use crate::lists;
use crate::regime;
use crate::regime::RuntimeView;
use vstd::prelude::*;

verus! {

/// Whether a printed amount may be a hit of a band: within it, a critical
/// reaching three times as high, to the twentieth that printing rounds away.
pub open spec fn in_band(band: DamageBand, amount: int, critical: bool) -> bool {
    &&& band.min <= amount + 50_000_000_000
    &&& amount - 50_000_000_000 <= (if critical {
        3 * band.max
    } else {
        band.max as int
    })
}

/// Whether a printed amount is short of a band, beyond what printing rounds.
pub open spec fn short_of(band: DamageBand, amount: int) -> bool {
    amount + 50_000_000_000 < band.min
}

/// Whether a window is open at an instant: from a twentieth of a second before
/// its start until a second and a quarter past its end.
pub open spec fn open_at(window: WindowView, at: int) -> bool {
    window.started_at - 50_000_000 <= at <= window.expires_at + 1_250_000_000
}

/// Bands hold, and amounts fall short of them, to the twentieth; a band that an
/// amount falls short of does not hold it.
pub proof fn a_band_holds_to_the_twentieth(band: DamageBand, amount: int, critical: bool)
    ensures
        band.holds(amount, critical) == in_band(band, amount, critical),
        band.is_above(amount) == short_of(band, amount),
        band.is_above(amount) ==> !band.holds(amount, critical),
        band.holds(amount, false) && 0 <= band.max ==> band.holds(amount, true),
{
}

/// A window ticks where it is open and its ticks may print the amount.
pub proof fn an_open_window_ticks(window: WindowView, at: int, amount: int, critical: bool)
    ensures
        window.live(at) == open_at(window, at),
        window.lasts_to(at) == (at <= window.expires_at + 1_250_000_000),
        window.ticks(at, amount, critical) == (open_at(window, at) && in_band(
            window.tick,
            amount,
            critical,
        )),
{
}

/// A weapon's band: its effect's where it has one, a compound activation's own
/// hit or else a tick; otherwise its catalogue figures, where both stand and the
/// larger is above zero.
pub proof fn a_weapon_prints_its_band(props: WeaponProps)
    ensures
        match props.effect {
            Some(effect) => props.band() == Some(
                if effect.mode == WeaponEffectMode::Compound && effect.hit_min is Some
                    && effect.hit_max is Some {
                    DamageBand { min: effect.hit_min->0, max: effect.hit_max->0 }
                } else {
                    DamageBand { min: effect.tick_min, max: effect.tick_max }
                },
            ),
            None => if props.damage_min is Some && props.damage_max is Some && props.damage_max->0
                > 0 {
                props.band() == Some(
                    DamageBand { min: props.damage_min->0, max: props.damage_max->0 },
                )
            } else {
                props.band() is None
            },
        },
{
}

/// The kinds of attribution have words of their own, and each word is read back
/// as its kind.
pub proof fn a_kind_is_read_back(kind: AttributionKind, other: AttributionKind)
    ensures
        AttributionKind::read(kind.word()) == Some(kind),
        kind.word() == other.word() ==> kind == other,
{
    reveal_strlit("agrees");
    reveal_strlit("effect_tick");
    reveal_strlit("evidence");
    reveal_strlit("unresolved");
    assert("agrees"@.len() == 6);
    assert("effect_tick"@.len() == 11);
    assert("evidence"@.len() == 8);
    assert("unresolved"@.len() == 10);
}

/// A carried weapon is found by its name, the first where several have it.
pub proof fn the_first_of_a_name_is_found(carried: Seq<WeaponView>, tool: Seq<char>, at: int)
    ensures
        (regime::named(carried, tool) is None) <==> (forall|i: int|
            0 <= i < carried.len() ==> (#[trigger] carried[i]).name != tool),
        0 <= at < carried.len() && carried[at].name == tool && (forall|i: int|
            0 <= i < at ==> (#[trigger] carried[i]).name != tool) ==> regime::named(carried, tool)
            == Some(carried[at]) && regime::band_named(carried, tool) == carried[at].band,
    decreases carried.len(),
{
    if carried.len() > 0 && carried[0].name != tool {
        let rest = carried.skip(1);
        the_first_of_a_name_is_found(rest, tool, at - 1);
        assert forall|i: int| 0 <= i < rest.len() implies #[trigger] rest[i] == carried[i + 1] by {}
        if regime::named(carried, tool) is None {
            assert forall|i: int| 0 <= i < carried.len() implies (#[trigger] carried[i]).name
                != tool by {
                if i > 0 {
                    assert(rest[i - 1] == carried[i]);
                }
            }
        }
        if 0 < at < carried.len() {
            assert(rest[at - 1] == carried[at]);
        }
    }
}

/// The weapons that fit an amount are those carried whose band holds it, in the
/// order they are carried: one weapon more is one fit more, or none.
pub proof fn a_weapon_fits_by_its_band(
    state: RuntimeView,
    weapon: WeaponView,
    amount: int,
    critical: bool,
)
    ensures
        ({
            let more = RuntimeView { carried: state.carried.push(weapon), ..state };
            let fits = weapon.band is Some && in_band(weapon.band->0, amount, critical);
            more.fitting(amount, critical) == (if fits {
                state.fitting(amount, critical).push(weapon.name)
            } else {
                state.fitting(amount, critical)
            })
        }),
        ({
            let none = RuntimeView { carried: Seq::empty(), ..state };
            none.fitting(amount, critical).len() == 0
        }),
{
    let keep = regime::explaining(amount, critical);
    let more = RuntimeView { carried: state.carried.push(weapon), ..state };
    lists::filter_push(state.carried, weapon, keep);
    lists::filter_none(state.carried, keep);
    if keep(weapon) {
        assert(more.fitting(amount, critical) =~= state.fitting(amount, critical).push(
            weapon.name,
        ));
    }
}

/// The windows that tick an amount are those open whose ticks may print it, in
/// their order: one window more is one more, or none.
pub proof fn a_window_ticks_by_its_band(
    state: RuntimeView,
    window: WindowView,
    at: int,
    amount: int,
    critical: bool,
)
    ensures
        ({
            let more = RuntimeView { windows: state.windows.push(window), ..state };
            more.ticks(at, amount, critical) == (if open_at(window, at) && in_band(
                window.tick,
                amount,
                critical,
            ) {
                state.ticks(at, amount, critical).push(window)
            } else {
                state.ticks(at, amount, critical)
            })
        }),
        ({
            let none = RuntimeView { windows: Seq::empty(), ..state };
            none.ticks(at, amount, critical).len() == 0
        }),
{
    let keep = regime::ticking(at, amount, critical);
    lists::filter_push(state.windows, window, keep);
    lists::filter_none(state.windows, keep);
}

/// Whether a window's ticks are above an amount, below a rival's floor where
/// there is one, while it is open.
pub open spec fn reaches(window: WindowView, at: int, amount: int, rival: Option<int>) -> bool {
    open_at(window, at) && short_of(window.tick, amount) && (rival is Some ==> window.tick.min
        < rival->0)
}

/// The windows nearest an amount short of every band: those open whose ticks
/// are above it and below the rival's floor, none of which is lower by a
/// billionth or more.
pub proof fn the_nearest_windows_are_lowest(
    state: RuntimeView,
    window: WindowView,
    at: int,
    amount: int,
    rival: Option<int>,
)
    ensures
        state.nearest(at, amount, rival).contains(window) <==> {
            &&& state.windows.contains(window)
            &&& reaches(window, at, amount, rival)
            &&& forall|i: int|
                0 <= i < state.windows.len() && reaches(
                    #[trigger] state.windows[i],
                    at,
                    amount,
                    rival,
                ) ==> window.tick.min - state.windows[i].tick.min < 1_000
        },
{
    let keep = regime::reaching(at, amount, rival);
    let short = state.windows.filter(keep);
    let low = regime::lowest(short);
    let near = state.nearest(at, amount, rival);
    lists::filter_kept(state.windows, keep);
    lists::filter_kept(short, low);
    if near.contains(window) {
        let j = choose|j: int| 0 <= j < near.len() && near[j] == window;
        assert(low(near[j]) && short.contains(near[j]));
        let k = choose|k: int| 0 <= k < short.len() && short[k] == window;
        assert(keep(short[k]));
        assert forall|i: int|
            0 <= i < state.windows.len() && reaches(
                #[trigger] state.windows[i],
                at,
                amount,
                rival,
            ) implies window.tick.min - state.windows[i].tick.min < 1_000 by {
            assert(keep(state.windows[i]));
            assert(short.contains(state.windows[i]));
            let l = choose|l: int| 0 <= l < short.len() && short[l] == state.windows[i];
            assert(short[l] == state.windows[i]);
        }
    }
    if state.windows.contains(window) && reaches(window, at, amount, rival) && (forall|i: int|
        0 <= i < state.windows.len() && reaches(#[trigger] state.windows[i], at, amount, rival)
            ==> window.tick.min - state.windows[i].tick.min < 1_000) {
        let i = choose|i: int| 0 <= i < state.windows.len() && state.windows[i] == window;
        assert(keep(state.windows[i]));
        assert(short.contains(window));
        let k = choose|k: int| 0 <= k < short.len() && short[k] == window;
        assert forall|l: int| 0 <= l < short.len() implies window.tick.min - (
        #[trigger] short[l]).tick.min < 1_000 by {
            assert(keep(short[l]) && state.windows.contains(short[l]));
            let m = choose|m: int| 0 <= m < state.windows.len() && state.windows[m] == short[l];
            assert(reaches(state.windows[m], at, amount, rival));
        }
        assert(low(short[k]));
        assert(near.contains(window));
    }
}

/// The lowest floor above an amount among the carried bands: one of them, and
/// none is lower; there is none where no band is above the amount.
pub proof fn the_floor_is_the_lowest_above(carried: Seq<WeaponView>, amount: int)
    ensures
        ({
            let floor = regime::weapon_floor(carried, amount);
            &&& floor is None <==> (forall|i: int|
                0 <= i < carried.len() && (#[trigger] carried[i]).band is Some ==> !short_of(
                    carried[i].band->0,
                    amount,
                ))
            &&& floor is Some ==> exists|i: int|
                0 <= i < carried.len() && (#[trigger] carried[i]).band is Some && short_of(
                    carried[i].band->0,
                    amount,
                ) && carried[i].band->0.min == floor->0
            &&& forall|i: int|
                0 <= i < carried.len() && (#[trigger] carried[i]).band is Some && short_of(
                    carried[i].band->0,
                    amount,
                ) ==> floor is Some && floor->0 <= carried[i].band->0.min
        }),
    decreases carried.len(),
{
    if carried.len() > 0 {
        let rest = carried.drop_last();
        let last = carried[carried.len() - 1];
        the_floor_is_the_lowest_above(rest, amount);
        let floor = regime::weapon_floor(carried, amount);
        let before = regime::weapon_floor(rest, amount);
        assert forall|i: int| 0 <= i < rest.len() implies #[trigger] rest[i] == carried[i] by {}
        assert forall|i: int|
            0 <= i < carried.len() && (#[trigger] carried[i]).band is Some && short_of(
                carried[i].band->0,
                amount,
            ) implies floor is Some && floor->0 <= carried[i].band->0.min by {
            if i < rest.len() {
                assert(rest[i] == carried[i]);
            }
        }
        if floor is Some {
            if before == floor && !(last.band is Some && short_of(last.band->0, amount)
                && last.band->0.min == floor->0) {
                let i = choose|i: int|
                    0 <= i < rest.len() && (#[trigger] rest[i]).band is Some && short_of(
                        rest[i].band->0,
                        amount,
                    ) && rest[i].band->0.min == before->0;
                assert(carried[i] == rest[i]);
                assert(carried[i].band->0.min == floor->0);
            } else {
                assert(carried[carried.len() - 1].band->0.min == floor->0);
            }
            let k = choose|i: int|
                0 <= i < carried.len() && (#[trigger] carried[i]).band is Some && short_of(
                    carried[i].band->0,
                    amount,
                ) && carried[i].band->0.min == floor->0;
            assert(short_of(carried[k].band->0, amount));
        }
    }
}

/// What a hit is taken for where nothing is declared. With effects open that
/// explain it, it is a tick where every weapon that fits owns one of them, and
/// unresolved otherwise. Without one, a single fit is evidence; several are
/// unresolved; and with none it is a tick of the nearest open effect below
/// every band above it, if there is one.
pub proof fn an_undeclared_hit_is_taken_for(
    state: RuntimeView,
    amount: i64,
    critical: bool,
    at: int,
)
    requires
        state.declared is None,
    ensures
        ({
            let resolved = state.classified(Observation::Hit { amount, critical }, at);
            let fits = state.fitting(amount as int, critical);
            let ticks = state.ticks(at, amount as int, critical);
            let near = state.nearest(
                at,
                amount as int,
                regime::weapon_floor(state.carried, amount as int),
            );
            let owned = forall|i: int|
                0 <= i < fits.len() ==> exists|j: int|
                    0 <= j < ticks.len() && (#[trigger] ticks[j]).tool == #[trigger] fits[i];
            &&& resolved.fits == fits
            &&& ticks.len() > 0 && owned ==> is_tick_of(resolved, ticks)
            &&& ticks.len() > 0 && !owned ==> is_contested_by(resolved, ticks)
            &&& ticks.len() == 0 && fits.len() == 1 ==> resolved.attribution == (
            AttributionView::Evidence { tool: fits[0], confirmed: false })
                && resolved.windows.len() == 0
            &&& ticks.len() == 0 && fits.len() > 1 ==> is_unexplained(resolved)
            &&& ticks.len() == 0 && fits.len() == 0 && near.len() > 0 ==> is_tick_of(resolved, near)
            &&& ticks.len() == 0 && fits.len() == 0 && near.len() == 0 ==> is_unexplained(resolved)
        }),
{
    let fits = state.fitting(amount as int, critical);
    let ticks = state.ticks(at, amount as int, critical);
    let owners = regime::owners(ticks);
    let away = regime::outside(owners);
    let rivals = fits.filter(away);
    lists::filter_kept(fits, away);
    assert forall|i: int| 0 <= i < fits.len() implies (owners.contains(#[trigger] fits[i]) <==> (
    exists|j: int| 0 <= j < ticks.len() && (#[trigger] ticks[j]).tool == fits[i])) by {
        if owners.contains(fits[i]) {
            let j = choose|j: int| 0 <= j < owners.len() && owners[j] == fits[i];
            assert(ticks[j].tool == fits[i]);
        }
        if exists|j: int| 0 <= j < ticks.len() && (#[trigger] ticks[j]).tool == fits[i] {
            let j = choose|j: int| 0 <= j < ticks.len() && (#[trigger] ticks[j]).tool == fits[i];
            assert(owners[j] == fits[i]);
        }
    }
    if rivals.len() > 0 {
        assert(away(rivals[0]) && fits.contains(rivals[0]));
        let i = choose|i: int| 0 <= i < fits.len() && fits[i] == rivals[0];
        assert(!owners.contains(fits[i]));
    } else {
        assert forall|i: int| 0 <= i < fits.len() implies owners.contains(#[trigger] fits[i]) by {
            if !owners.contains(fits[i]) {
                assert(away(fits[i]));
                assert(rivals.contains(fits[i]));
            }
        }
    }
}

/// A tick of one of some windows: of the one where there is one, and of none in
/// particular where there are several; all are cited.
pub open spec fn is_tick_of(resolved: ResolvedView, windows: Seq<WindowView>) -> bool {
    &&& resolved.attribution == AttributionView::EffectTick {
        window_id: if windows.len() == 1 {
            Some(windows[0].id)
        } else {
            None
        },
    }
    &&& resolved.windows.len() == windows.len()
    &&& forall|i: int|
        0 <= i < windows.len() ==> #[trigger] resolved.windows[i] == windows[i].id
}

/// Unresolved between a weapon and some windows, which are cited.
pub open spec fn is_contested_by(resolved: ResolvedView, windows: Seq<WindowView>) -> bool {
    &&& resolved.attribution == AttributionView::Unresolved
    &&& resolved.windows.len() == windows.len()
    &&& forall|i: int|
        0 <= i < windows.len() ==> #[trigger] resolved.windows[i] == windows[i].id
}

/// Unresolved, with no window that explains it.
pub open spec fn is_unexplained(resolved: ResolvedView) -> bool {
    resolved.attribution == AttributionView::Unresolved && resolved.windows.len() == 0
}

/// What a hit is taken for that the declared weapon may have printed, or whose
/// band is not known: the declared weapon's where no open effect explains it,
/// a tick where only its own do, and unresolved otherwise.
pub proof fn a_hit_in_hand_is_taken_for(
    state: RuntimeView,
    declared: Seq<char>,
    amount: i64,
    critical: bool,
    at: int,
)
    requires
        state.declared == Some(declared),
        ({
            let band = regime::band_named(state.carried, declared);
            band is Some ==> in_band(band->0, amount as int, critical)
        }),
    ensures
        ({
            let resolved = state.classified(Observation::Hit { amount, critical }, at);
            let ticks = state.ticks(at, amount as int, critical);
            let own = forall|i: int|
                0 <= i < ticks.len() ==> (#[trigger] ticks[i]).tool == declared;
            &&& resolved.fits == state.fitting(amount as int, critical)
            &&& ticks.len() == 0 ==> resolved.attribution == (AttributionView::Agrees {
                tool: declared,
                reason: if regime::band_named(state.carried, declared) is Some {
                    AgreeReason::Fits
                } else {
                    AgreeReason::Unvalidated
                },
            }) && resolved.windows.len() == 0
            &&& ticks.len() > 0 && own ==> is_tick_of(resolved, ticks)
            &&& ticks.len() > 0 && !own ==> is_contested_by(resolved, ticks)
        }),
{
}

/// Whether a weapon put away may still have a shot in flight: its band holds
/// the hit, seen between a twentieth of a second before the switch and a second
/// and a quarter after it.
pub open spec fn may_land(
    state: RuntimeView,
    tool: Seq<char>,
    amount: int,
    critical: bool,
    at: int,
) -> bool {
    match state.previous {
        Some((previous, switched_at)) => {
            let band = regime::band_named(state.carried, tool);
            &&& previous == tool
            &&& switched_at - 50_000_000 <= at <= switched_at + 1_250_000_000
            &&& band is Some
            &&& in_band(band->0, amount, critical)
        },
        None => false,
    }
}

/// What a hit is taken for that the declared weapon cannot have printed. Open
/// effects that explain it make it a tick, unless the weapon put away may have
/// a shot landing and does not own them all; without them it is that weapon's
/// shot in flight, where it may land.
pub proof fn a_hit_out_of_hand_is_taken_for(
    state: RuntimeView,
    declared: Seq<char>,
    tool: Seq<char>,
    amount: i64,
    critical: bool,
    at: int,
)
    requires
        state.declared == Some(declared),
        ({
            let band = regime::band_named(state.carried, declared);
            band is Some && !in_band(band->0, amount as int, critical)
        }),
    ensures
        ({
            let resolved = state.classified(Observation::Hit { amount, critical }, at);
            let ticks = state.ticks(at, amount as int, critical);
            let lands = may_land(state, tool, amount as int, critical, at);
            let own = forall|i: int| 0 <= i < ticks.len() ==> (#[trigger] ticks[i]).tool == tool;
            &&& resolved.fits == state.fitting(amount as int, critical)
            &&& ticks.len() > 0 && lands && own ==> is_tick_of(resolved, ticks)
            &&& ticks.len() > 0 && lands && !own ==> is_contested_by(resolved, ticks)
            &&& ticks.len() > 0 && !lands && (state.previous is Some
                ==> tool == match state.previous->0 {
                (previous, _) => previous,
            }) ==> is_tick_of(resolved, ticks)
            &&& ticks.len() == 0 && lands ==> resolved.attribution == (AttributionView::Agrees {
                tool,
                reason: AgreeReason::InFlight,
            }) && resolved.windows.len() == 0
        }),
{
}

/// What a hit is taken for that neither the declared weapon, nor an open effect,
/// nor a shot in flight explains. One other weapon that fits is evidence, or the
/// declared weapon's where the player kept it; several are unresolved. With
/// none, a hit short of the declared band is a tick of the nearest open effect
/// below that band, or else the declared weapon's; one above it is unresolved.
pub proof fn a_contradicting_hit_is_taken_for(
    state: RuntimeView,
    declared: Seq<char>,
    amount: i64,
    critical: bool,
    at: int,
)
    requires
        state.declared == Some(declared),
        ({
            let band = regime::band_named(state.carried, declared);
            band is Some && !in_band(band->0, amount as int, critical)
        }),
        state.ticks(at, amount as int, critical).len() == 0,
        forall|tool: Seq<char>|
            !#[trigger] may_land(state, tool, amount as int, critical, at),
    ensures
        ({
            let resolved = state.classified(Observation::Hit { amount, critical }, at);
            let band = regime::band_named(state.carried, declared)->0;
            let fits = state.fitting(amount as int, critical);
            let others = fits.filter(|name: Seq<char>| name != declared);
            let near = state.nearest(at, amount as int, Some(band.min as int));
            &&& resolved.fits == fits
            &&& others.len() == 1 && !state.kept.contains(others[0]) ==> resolved.attribution == (
            AttributionView::Evidence { tool: others[0], confirmed: false })
                && resolved.windows.len() == 0
            &&& others.len() == 1 && state.kept.contains(others[0]) ==> resolved.attribution == (
            AttributionView::Agrees { tool: declared, reason: AgreeReason::Kept })
                && resolved.windows.len() == 0
            &&& others.len() > 1 ==> is_unexplained(resolved)
            &&& others.len() == 0 && short_of(band, amount as int) && near.len() > 0 ==> is_tick_of(
                resolved,
                near,
            )
            &&& others.len() == 0 && short_of(band, amount as int) && near.len() == 0
                ==> resolved.attribution == (AttributionView::Agrees {
                tool: declared,
                reason: AgreeReason::BelowBand,
            }) && resolved.windows.len() == 0
            &&& others.len() == 0 && !short_of(band, amount as int) ==> is_unexplained(resolved)
        }),
{
    assert(regime::other_than(declared) =~= (|name: Seq<char>| name != declared));
    let landing = state.in_flight(at, amount as int, critical);
    if landing is Some {
        assert(may_land(state, landing->0, amount as int, critical, at));
    }
}

/// A countered shot is the mismatch's weapon's, else the declared one's, else
/// the recorded one's, else unresolved; every carried weapon may have fired it.
pub proof fn a_countered_shot_is_taken_for(state: RuntimeView, at: int)
    ensures
        ({
            let resolved = state.classified(Observation::Countered, at);
            &&& resolved.windows.len() == 0
            &&& resolved.fits.len() == state.carried.len()
            &&& forall|i: int|
                0 <= i < state.carried.len() ==> #[trigger] resolved.fits[i]
                    == state.carried[i].name
            &&& resolved.attribution == (match (state.mismatch, state.declared, state.recording) {
                (Some(mismatch), _, _) => AttributionView::Evidence {
                    tool: mismatch.evidence,
                    confirmed: false,
                },
                (None, Some(declared), _) => AttributionView::Agrees {
                    tool: declared,
                    reason: AgreeReason::Countered,
                },
                (None, None, Some(recording)) => AttributionView::Evidence {
                    tool: recording,
                    confirmed: false,
                },
                (None, None, None) => AttributionView::Unresolved,
            })
        }),
{
}

/// The weapon shown as in use: the mismatch's, else the declared one, else the
/// recorded one.
pub proof fn the_recorded_weapon_is_the_latest_belief(state: RuntimeView)
    ensures
        state.mismatch is Some ==> state.recorded() == Some(state.mismatch->0.evidence),
        state.mismatch is None && state.declared is Some ==> state.recorded() == state.declared,
        state.mismatch is None && state.declared is None ==> state.recorded() == state.recording,
{
}

/// What taking a shot for something changes: it is numbered and tallied once,
/// under its kind; windows more than a second and a quarter past their end are
/// dropped, and the others stay in order.
pub proof fn a_shot_is_tallied_once(
    state: RuntimeView,
    resolved: ResolvedView,
    at: i64,
    window: WindowView,
)
    requires
        state.counts.agreed < i64::MAX,
        state.counts.evidenced < i64::MAX,
        state.counts.unresolved < i64::MAX,
        state.counts.effect_ticks < i64::MAX,
    ensures
        ({
            let after = state.applied(resolved, at);
            let one = |kind: bool|
                if kind {
                    1int
                } else {
                    0int
                };
            &&& after.next_seq == state.next_seq + 1
            &&& after.counts.agreed == state.counts.agreed + one(resolved.attribution is Agrees)
            &&& after.counts.evidenced == state.counts.evidenced + one(
                resolved.attribution is Evidence,
            )
            &&& after.counts.unresolved == state.counts.unresolved + one(
                resolved.attribution is Unresolved,
            )
            &&& after.counts.effect_ticks == state.counts.effect_ticks + one(
                resolved.attribution is EffectTick,
            )
            &&& after.windows == state.windows.filter(
                |window: WindowView| at <= window.expires_at + 1_250_000_000,
            )
            &&& after.carried == state.carried
            &&& after.declared == state.declared
            &&& after.previous == state.previous
            &&& after.kept == state.kept
            &&& after.log == state.log
        }),
{
    assert(regime::lasting(at as int) =~= (|window: WindowView|
        at <= window.expires_at + 1_250_000_000));
}

/// What taking a shot for something does to the mismatch. Evidence against a
/// declaration opens one or counts its next shot, and evidence of another
/// weapon opens that one's; a hit that fits the declared weapon and not the
/// mismatch's ends it; nothing else changes it. Evidence where nothing is
/// declared is recorded, and nothing else is.
pub proof fn evidence_opens_and_a_fit_ends_a_mismatch(
    state: RuntimeView,
    resolved: ResolvedView,
    at: i64,
)
    ensures
        ({
            let after = state.applied(resolved, at);
            match resolved.attribution {
                AttributionView::Evidence { tool, .. } => {
                    &&& after.recording == (if state.declared is None {
                        Some(tool)
                    } else {
                        state.recording
                    })
                    &&& state.declared is None || state.declared == Some(tool) ==> after.mismatch
                        == state.mismatch
                    &&& state.declared is Some && state.declared->0 != tool && state.mismatch
                        is Some && state.mismatch->0.evidence == tool ==> after.mismatch == Some(
                        MismatchView {
                            shots: state.mismatch->0.shots + 1,
                            ..state.mismatch->0
                        },
                    )
                    &&& state.declared is Some && state.declared->0 != tool && (state.mismatch
                        is Some ==> state.mismatch->0.evidence != tool) ==> after.mismatch == Some(
                        MismatchView {
                            declared: state.declared->0,
                            evidence: tool,
                            since: at,
                            shots: 1,
                        },
                    )
                },
                AttributionView::Agrees { reason, .. } => {
                    &&& after.recording == state.recording
                    &&& after.mismatch == (if reason == AgreeReason::Fits && state.mismatch is Some
                        && !resolved.fits.contains(state.mismatch->0.evidence) {
                        None
                    } else {
                        state.mismatch
                    })
                },
                _ => after.mismatch == state.mismatch && after.recording == state.recording,
            }
        }),
{
}

/// A declaration names the weapon in hand; another weapon in hand before may
/// still have a shot in flight. It ends a mismatch, what the player kept and
/// what was logged and recorded, and changes nothing else.
pub proof fn declaring_starts_over(state: RuntimeView, tool: Seq<char>, at: i64)
    ensures
        ({
            let after = state.declaring(tool, at);
            &&& after.declared == Some(tool)
            &&& state.declared is Some && state.declared->0 != tool ==> after.previous == Some(
                (state.declared->0, at),
            )
            &&& state.declared is None || state.declared->0 == tool ==> after.previous is None
            &&& after.recording is None
            &&& after.mismatch is None
            &&& after.log.len() == 0
            &&& forall|name: Seq<char>| !#[trigger] after.kept.contains(name)
            &&& after.carried == state.carried
            &&& after.windows == state.windows
            &&& after.next_seq == state.next_seq
            &&& after.counts == state.counts
        }),
        ({
            let after = state.floored();
            &&& after.mismatch is None
            &&& after.log.len() == 0
            &&& forall|name: Seq<char>| !#[trigger] after.kept.contains(name)
            &&& after.declared == state.declared
            &&& after.previous == state.previous
            &&& after.recording == state.recording
            &&& after.carried == state.carried
            &&& after.windows == state.windows
            &&& after.next_seq == state.next_seq
            &&& after.counts == state.counts
        }),
{
}

} // verus!
