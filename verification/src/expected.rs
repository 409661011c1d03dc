//! The offensive spend an expectation is computed from: every phase at the
//! money it actually cycled.

use crate::phases::{
    ComponentView, OffensiveComponentEvidence, OffensiveComponentKind, PhasesView, StatsView,
    ToolStats,
};
use crate::records::{Kill, KillView};
use crate::text;
use vstd::prelude::*;

verus! {

/// How many uses a phase counts: its shots, none below zero.
pub open spec fn uses(stats: StatsView) -> int {
    if stats.shots_fired > 0 {
        stats.shots_fired
    } else {
        0
    }
}

/// A component at the money a number of uses cycles.
pub open spec fn scaled(component: ComponentView, uses: int) -> ComponentView {
    ComponentView {
        raw_tt_per_use: component.raw_tt_per_use * uses,
        consumed_premium_per_use: component.consumed_premium_per_use * uses,
        ..component
    }
}

/// What a phase cycled: its loadout's components, each for all its shots. A
/// priced phase without evidence is one weapon of unknown efficiency.
pub open spec fn cycled_stats(stats: StatsView) -> Seq<ComponentView> {
    match stats.expected_economics {
        Some(loadout) => Seq::new(
            loadout.components.len(),
            |i: int| scaled(loadout.components[i], uses(stats)),
        ),
        None => if stats.shots_fired > 0 && stats.cost_per_shot.0 > 0 {
            seq![
                ComponentView {
                    kind: OffensiveComponentKind::Weapon,
                    catalog_id: None,
                    name: stats.tool_name,
                    efficiency_pct: None,
                    raw_tt_per_use: stats.cost(),
                    consumed_premium_per_use: 0,
                },
            ]
        } else {
            Seq::empty()
        },
    }
}

/// What a kill's phases cycled, in their order.
pub open spec fn cycled_phases(phases: PhasesView) -> Seq<ComponentView>
    decreases phases.len(),
{
    if phases.len() == 0 {
        Seq::empty()
    } else {
        cycled_phases(phases.drop_last()) + cycled_stats(phases.last().1)
    }
}

/// What a run of kills cycled, in their order.
pub open spec fn cycled_kills(kills: Seq<KillView>) -> Seq<ComponentView>
    decreases kills.len(),
{
    if kills.len() == 0 {
        Seq::empty()
    } else {
        cycled_kills(kills.drop_last()) + cycled_phases(kills.last().tool_stats)
    }
}

/// Whether one component's spend over a number of uses fits an integer.
pub open spec fn fits(component: ComponentView, uses: int) -> bool {
    &&& i128::MIN <= component.raw_tt_per_use * uses <= i128::MAX
    &&& i128::MIN <= component.consumed_premium_per_use * uses <= i128::MAX
}

/// Whether what a phase cycled fits the integers it is kept in.
pub open spec fn scalable(stats: StatsView) -> bool {
    match stats.expected_economics {
        Some(loadout) => forall|i: int|
            0 <= i < loadout.components.len() ==> fits(
                #[trigger] loadout.components[i],
                uses(stats),
            ),
        None => true,
    }
}

/// Whether what a kill's phases cycled fits the integers it is kept in.
pub open spec fn all_scalable(phases: PhasesView) -> bool {
    forall|i: int| 0 <= i < phases.len() ==> scalable((#[trigger] phases[i]).1)
}

/// Whether a product fits an integer.
fn product_fits(a: i128, b: i64) -> (yes: bool)
    ensures
        yes == (i128::MIN <= a * b <= i128::MAX),
{
    match a.checked_mul(b as i128) {
        Some(_) => true,
        None => false,
    }
}

/// Whether what a kill's phases cycled fits the integers it is kept in.
pub fn can_scale(phases: &Vec<(String, ToolStats)>) -> (yes: bool)
    ensures
        yes == all_scalable(text::views(phases@)),
{
    let ghost all = text::views(phases@);
    let mut i: usize = 0;
    while i < phases.len()
        invariant
            i <= phases.len(),
            all == text::views(phases@),
            forall|j: int| 0 <= j < i ==> scalable((#[trigger] all[j]).1),
        decreases phases.len() - i,
    {
        let stats = &phases[i].1;
        assert(all[i as int].1 == stats@);
        let uses: i64 = if stats.shots_fired > 0 {
            stats.shots_fired
        } else {
            0
        };
        if let Some(loadout) = &stats.expected_economics {
            let mut k: usize = 0;
            while k < loadout.components.len()
                invariant
                    k <= loadout.components.len(),
                    i < phases.len(),
                    all == text::views(phases@),
                    all[i as int].1 == stats@,
                    stats.expected_economics == Some(*loadout),
                    uses == self::uses(stats@),
                    forall|j: int|
                        0 <= j < k ==> fits(
                            #[trigger] text::views(loadout.components@)[j],
                            uses as int,
                        ),
                decreases loadout.components.len() - k,
            {
                let component = &loadout.components[k];
                assert(loadout@.components[k as int] == component@);
                if !product_fits(component.raw_tt_per_use, uses) || !product_fits(
                    component.consumed_premium_per_use,
                    uses,
                ) {
                    assert(!fits(loadout@.components[k as int], uses as int));
                    assert(!scalable(all[i as int].1));
                    return false;
                }
                k += 1;
            }
        }
        assert(scalable(all[i as int].1));
        i += 1;
    }
    true
}

/// Add what a phase cycled.
fn add_cycled(cycled: &mut Vec<OffensiveComponentEvidence>, stats: &ToolStats)
    requires
        scalable(stats@),
    ensures
        text::views(final(cycled)@) == text::views(old(cycled)@) + cycled_stats(stats@),
{
    let ghost before = text::views(cycled@);
    match &stats.expected_economics {
        None => {
            if stats.shots_fired > 0 && stats.cost_per_shot.is_positive() {
                proof {
                    let price = stats.cost_per_shot.0 as int;
                    let shots = stats.shots_fired as int;
                    assert(0 <= price * shots <= i64::MAX * i64::MAX) by (nonlinear_arith)
                        requires
                            0 <= price <= i64::MAX,
                            0 <= shots <= i64::MAX,
                    ;
                }
                let component = OffensiveComponentEvidence {
                    kind: OffensiveComponentKind::Weapon,
                    catalog_id: None,
                    name: stats.tool_name.clone(),
                    efficiency_pct: None,
                    raw_tt_per_use: stats.cost_per_shot.0 as i128 * stats.shots_fired as i128,
                    consumed_premium_per_use: 0,
                };
                let ghost added = component@;
                cycled.push(component);
                assert(text::views(cycled@) =~= before + seq![added]);
                assert(seq![added] =~= cycled_stats(stats@));
            } else {
                assert(text::views(cycled@) =~= before + cycled_stats(stats@));
            }
        },
        Some(loadout) => {
            let uses: i64 = if stats.shots_fired > 0 {
                stats.shots_fired
            } else {
                0
            };
            let ghost whole = cycled_stats(stats@);
            let mut i: usize = 0;
            assert(before =~= before + whole.take(0));
            while i < loadout.components.len()
                invariant
                    i <= loadout.components.len(),
                    stats.expected_economics == Some(*loadout),
                    uses == self::uses(stats@),
                    scalable(stats@),
                    whole == cycled_stats(stats@),
                    text::views(cycled@) == before + whole.take(i as int),
                decreases loadout.components.len() - i,
            {
                let component = &loadout.components[i];
                let ghost had = text::views(cycled@);
                assert(loadout@.components[i as int] == component@);
                assert(fits(loadout@.components[i as int], uses as int));
                let mut more = component.clone();
                more.raw_tt_per_use = component.raw_tt_per_use * uses as i128;
                more.consumed_premium_per_use = component.consumed_premium_per_use * uses as i128;
                let ghost added = more@;
                cycled.push(more);
                proof {
                    assert(whole[i as int] == added);
                    assert(text::views(cycled@) =~= had.push(added));
                    assert(before + whole.take(i as int + 1) =~= (before + whole.take(
                        i as int,
                    )).push(added));
                }
                i += 1;
            }
            assert(whole.take(whole.len() as int) =~= whole);
        },
    }
}

/// Add what a kill's phases cycled.
pub fn add_cycled_phases(
    cycled: &mut Vec<OffensiveComponentEvidence>,
    phases: &Vec<(String, ToolStats)>,
)
    requires
        all_scalable(text::views(phases@)),
    ensures
        text::views(final(cycled)@) == text::views(old(cycled)@) + cycled_phases(
            text::views(phases@),
        ),
{
    let ghost before = text::views(cycled@);
    let ghost all = text::views(phases@);
    let mut i: usize = 0;
    proof {
        assert(all.take(0) =~= Seq::empty());
        assert(before =~= before + cycled_phases(all.take(0)));
    }
    while i < phases.len()
        invariant
            i <= phases.len(),
            all == text::views(phases@),
            all_scalable(all),
            text::views(cycled@) == before + cycled_phases(all.take(i as int)),
        decreases phases.len() - i,
    {
        proof {
            assert(all[i as int] == phases@[i as int]@);
            let next = all.take(i as int + 1);
            assert(next.drop_last() =~= all.take(i as int));
            assert(next.last() == all[i as int]);
        }
        add_cycled(cycled, &phases[i].1);
        assert(text::views(cycled@) =~= before + cycled_phases(all.take(i as int + 1)));
        i += 1;
    }
    assert(all.take(all.len() as int) =~= all);
}

/// What a run of kills cycled, in their order.
pub fn cycled_by_kills(kills: &Vec<Kill>) -> (cycled: Vec<OffensiveComponentEvidence>)
    requires
        forall|i: int|
            0 <= i < kills.len() ==> all_scalable((#[trigger] text::views(kills@)[i]).tool_stats),
    ensures
        text::views(cycled@) == cycled_kills(text::views(kills@)),
{
    let ghost all = text::views(kills@);
    let mut cycled: Vec<OffensiveComponentEvidence> = Vec::new();
    let mut i: usize = 0;
    proof {
        assert(all.take(0) =~= Seq::empty());
        assert(text::views(cycled@) =~= cycled_kills(all.take(0)));
    }
    while i < kills.len()
        invariant
            i <= kills.len(),
            all == text::views(kills@),
            forall|j: int|
                0 <= j < all.len() ==> all_scalable((#[trigger] all[j]).tool_stats),
            text::views(cycled@) == cycled_kills(all.take(i as int)),
        decreases kills.len() - i,
    {
        proof {
            assert(all[i as int] == kills@[i as int]@);
            let next = all.take(i as int + 1);
            assert(next.drop_last() =~= all.take(i as int));
            assert(next.last() == all[i as int]);
        }
        add_cycled_phases(&mut cycled, &kills[i].tool_stats);
        i += 1;
    }
    assert(all.take(all.len() as int) =~= all);
    cycled
}

} // verus!
