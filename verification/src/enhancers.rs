//! Damage enhancers: the stacks a weapon carries and what a break leaves.

use crate::session::ActiveSession;
use crate::text;
use crate::text::lower_has_run;
use vstd::prelude::*;

verus! {

/// How many enhancers a full slot holds.
pub const FULL_STACK: i64 = 100;

/// The damage enhancers slotted into a weapon, slot by slot.
#[derive(Debug, PartialEq, Eq)]
pub struct DamageEnhancerState {
    pub stacks: Vec<i64>,
}

/// How many of the first slots a total fills one higher than the rest.
pub open spec fn share(total: int, slots: int, slot: int) -> int {
    total / slots + (if slot < total % slots {
        1int
    } else {
        0int
    })
}

/// A total spread evenly over slots, the remainder over the first ones; a
/// negative total is none.
pub open spec fn spread(total: int, slots: nat) -> Seq<i64> {
    let whole = if total > 0 {
        total
    } else {
        0
    };
    Seq::new(slots, |i: int| share(whole, slots as int, i) as i64)
}

/// How many slots still hold an enhancer.
pub open spec fn active(stacks: Seq<i64>) -> nat
    decreases stacks.len(),
{
    if stacks.len() == 0 {
        0
    } else {
        active(stacks.drop_last()) + (if stacks.last() > 0 {
            1nat
        } else {
            0nat
        })
    }
}

/// What is left after one break with no count: one fewer in the last slot
/// that holds any.
pub open spec fn one_fewer(stacks: Seq<i64>) -> Seq<i64>
    decreases stacks.len(),
{
    if stacks.len() == 0 {
        stacks
    } else if stacks.last() > 0 {
        stacks.drop_last().push((stacks.last() - 1) as i64)
    } else {
        one_fewer(stacks.drop_last()).push(stacks.last())
    }
}

impl DamageEnhancerState {
    /// A weapon with this many slots, each full; a negative number is none.
    pub fn full(slots: i64) -> (state: Self)
        ensures
            state.stacks@ == Seq::new(
                (if slots > 0 {
                    slots as nat
                } else {
                    0nat
                }),
                |i: int| FULL_STACK,
            ),
            forall|i: int| 0 <= i < state.stacks@.len() ==> #[trigger] state.stacks@[i] == 100,
    {
        let mut stacks: Vec<i64> = Vec::new();
        let mut i: i64 = 0;
        while i < slots
            invariant
                i >= 0,
                slots > 0 ==> i <= slots,
                slots <= 0 ==> i == 0,
                stacks@ =~= Seq::new(i as nat, |j: int| FULL_STACK),
            decreases slots - i,
        {
            stacks.push(FULL_STACK);
            i += 1;
        }
        DamageEnhancerState { stacks }
    }

    /// How many slots still hold an enhancer.
    pub fn active_slots(&self) -> (slots: usize)
        ensures
            slots == active(self.stacks@),
            slots <= self.stacks.len(),
    {
        let mut slots: usize = 0;
        let mut i: usize = 0;
        while i < self.stacks.len()
            invariant
                i <= self.stacks.len(),
                slots <= i,
                slots == active(self.stacks@.take(i as int)),
            decreases self.stacks.len() - i,
        {
            proof {
                let next = self.stacks@.take(i as int + 1);
                assert(next.drop_last() =~= self.stacks@.take(i as int));
                assert(next.last() == self.stacks@[i as int]);
            }
            if self.stacks[i] > 0 {
                slots += 1;
            }
            i += 1;
        }
        assert(self.stacks@.take(self.stacks.len() as int) =~= self.stacks@);
        slots
    }

    /// Spread a total over the slots, the remainder over the first ones.
    pub fn set_total(&mut self, total: i64)
        requires
            old(self).stacks.len() <= i64::MAX,
        ensures
            final(self).stacks@ == spread(total as int, old(self).stacks@.len()),
    {
        let slots: usize = self.stacks.len();
        let mut stacks: Vec<i64> = Vec::new();
        if slots > 0 {
            let whole: i64 = if total > 0 {
                total
            } else {
                0
            };
            let each: i64 = whole / (slots as i64);
            let rest: i64 = whole % (slots as i64);
            proof {
                assert(0 <= each <= whole && 0 <= rest < slots && (rest > 0 ==> each < whole)) by {
                    let w = whole as int;
                    let n = slots as int;
                    assert(0 <= w / n <= w && 0 <= w % n < n && w == n * (w / n) + w % n)
                        by (nonlinear_arith)
                        requires
                            w >= 0,
                            n > 0,
                    ;
                    if w % n > 0 {
                        assert(w / n < w) by (nonlinear_arith)
                            requires
                                w >= 0,
                                n > 0,
                                w % n > 0,
                                w == n * (w / n) + w % n,
                                w / n >= 0,
                        ;
                    }
                }
            }
            let mut i: usize = 0;
            while i < slots
                invariant
                    i <= slots,
                    slots <= i64::MAX,
                    slots == old(self).stacks@.len(),
                    whole == (if total > 0 {
                        total as int
                    } else {
                        0
                    }),
                    slots > 0,
                    each == whole as int / slots as int,
                    rest == whole as int % slots as int,
                    rest > 0 ==> each < whole,
                    stacks.len() == i,
                    forall|j: int|
                        0 <= j < i ==> stacks@[j] == spread(total as int, slots as nat)[j],
                decreases slots - i,
            {
                if (i as i64) < rest {
                    stacks.push(each + 1);
                } else {
                    stacks.push(each);
                }
                i += 1;
            }
        }
        self.stacks = stacks;
        assert(self.stacks@ =~= spread(total as int, old(self).stacks@.len()));
    }

    fn drop_one(&mut self)
        ensures
            final(self).stacks@ == one_fewer(old(self).stacks@),
    {
        let ghost before = self.stacks@;
        let mut at: usize = self.stacks.len();
        assert(before.take(at as int) =~= before);
        assert(one_fewer(before) + before.skip(at as int) =~= one_fewer(before));
        while at > 0 && self.stacks[at - 1] <= 0
            invariant
                at <= self.stacks.len(),
                self.stacks@ == before,
                one_fewer(before) == one_fewer(before.take(at as int)) + before.skip(at as int),
            decreases at,
        {
            proof {
                let head = before.take(at as int);
                assert(head.drop_last() =~= before.take(at as int - 1));
                assert(head.last() == before[at as int - 1]);
                let rest = one_fewer(before.take(at as int - 1));
                assert(rest.push(before[at as int - 1]) + before.skip(at as int) =~= rest
                    + before.skip(at as int - 1));
            }
            at -= 1;
        }
        proof {
            let head = before.take(at as int);
            if at > 0 {
                assert(head.last() == before[at as int - 1]);
                assert(one_fewer(head) + before.skip(at as int) =~= before.update(
                    at as int - 1,
                    (before[at as int - 1] - 1) as i64,
                ));
            } else {
                assert(head =~= Seq::empty());
                assert(one_fewer(head) + before.skip(0) =~= before);
            }
        }
        if at > 0 {
            let left: i64 = self.stacks[at - 1] - 1;
            self.stacks[at - 1] = left;
        }
    }

    /// Apply a break: the total that remains is spread anew, or, with no
    /// count, the last slot holding any loses one. True when the number of
    /// active slots changed.
    pub fn apply_break(&mut self, remaining: Option<i64>) -> (changed: bool)
        requires
            old(self).stacks.len() <= i64::MAX,
        ensures
            final(self).stacks@ == (match remaining {
                Some(total) => spread(total as int, old(self).stacks@.len()),
                None => one_fewer(old(self).stacks@),
            }),
            changed == (active(final(self).stacks@) != active(old(self).stacks@)),
    {
        let before: usize = self.active_slots();
        match remaining {
            Some(total) => self.set_total(total),
            None => self.drop_one(),
        }
        self.active_slots() != before
    }
}

/// Whether a reported break is one of the weapon in hand: it has slots, the
/// enhancer's name speaks of damage, and the item is that weapon.
pub open spec fn breaks_the_weapon(
    state: Option<DamageEnhancerState>,
    enhancer_name: Seq<char>,
    names_weapon: bool,
) -> bool {
    state is Some && state->0.stacks@.len() > 0 && text::contains_run(
        text::lower_case(enhancer_name),
        "damage"@,
    ) && names_weapon
}

/// Absorb an enhancer break reported for some item, which is the weapon in
/// hand or not (`names_weapon`). Where it applies, the stacks are spread anew
/// over what remains, for future shots, and the readout changed. True when it
/// applied; an ignored break leaves the session unchanged.
pub fn on_enhancer_break(
    active: &mut ActiveSession,
    enhancer_name: &str,
    names_weapon: bool,
    remaining: i64,
) -> (applied: bool)
    requires
        old(active).weapon_enhancers is Some ==> old(active).weapon_enhancers->0.stacks@.len()
            <= i64::MAX,
    ensures
        applied == breaks_the_weapon(
            old(active).weapon_enhancers,
            enhancer_name@,
            names_weapon,
        ),
        applied ==> final(active).weapon_enhancers is Some
            && final(active).weapon_enhancers->0.stacks@ == spread(
            remaining as int,
            old(active).weapon_enhancers->0.stacks@.len(),
        ) && *final(active) == (ActiveSession {
            weapon_enhancers: final(active).weapon_enhancers,
            dirty: true,
            ..*old(active)
        }),
        !applied ==> *final(active) == *old(active),
{
    let applies: bool = match &active.weapon_enhancers {
        Some(weapon) => weapon.stacks.len() > 0 && lower_has_run(enhancer_name, "damage")
            && names_weapon,
        None => false,
    };
    if applies {
        active.dirty = true;
        if let Some(weapon) = &mut active.weapon_enhancers {
            let _ = weapon.apply_break(Some(remaining));
        }
    }
    applies
}

/// What is spread adds up to what there was: no enhancer is lost or made.
pub proof fn spreading_keeps_the_total(total: int, slots: nat)
    requires
        slots > 0,
        0 <= total <= i64::MAX,
    ensures
        sum(spread(total, slots)) == total,
{
    partial_sum(total, slots, slots);
    assert(spread(total, slots).take(slots as int) =~= spread(total, slots));
    let n = slots as int;
    assert(n * (total / n) + total % n == total) by (nonlinear_arith)
        requires
            n > 0,
    ;
    assert(0 <= total % n < n) by (nonlinear_arith)
        requires
            n > 0,
    ;
}

/// All the enhancers of some slots.
pub open spec fn sum(stacks: Seq<i64>) -> int
    decreases stacks.len(),
{
    if stacks.len() == 0 {
        0
    } else {
        sum(stacks.drop_last()) + stacks.last()
    }
}

proof fn partial_sum(total: int, slots: nat, upto: nat)
    requires
        slots > 0,
        0 <= total <= i64::MAX,
        upto <= slots,
    ensures
        sum(spread(total, slots).take(upto as int)) == upto * (total / (slots as int)) + (if upto
            < total % (slots as int) {
            upto as int
        } else {
            total % (slots as int)
        }),
    decreases upto,
{
    let all = spread(total, slots);
    let n = slots as int;
    let q = total / n;
    let r = total % n;
    assert(0 <= r < n && 0 <= q <= total && (r > 0 ==> q < total)) by {
        assert(0 <= r < n && 0 <= q <= total && total == n * q + r) by (nonlinear_arith)
            requires
                n > 0,
                total >= 0,
                q == total / n,
                r == total % n,
        ;
        if r > 0 {
            assert(q < total) by (nonlinear_arith)
                requires
                    n > 0,
                    r > 0,
                    q >= 0,
                    total == n * q + r,
            ;
        }
    }
    if upto > 0 {
        partial_sum(total, slots, (upto - 1) as nat);
        let next = all.take(upto as int);
        assert(next.drop_last() =~= all.take(upto as int - 1));
        assert(next.last() == all[upto as int - 1]);
        let u = upto as int;
        assert(u * q == (u - 1) * q + q) by (nonlinear_arith);
    } else {
        assert(all.take(0) =~= Seq::empty());
        assert(0 * q == 0) by (nonlinear_arith);
    }
}

} // verus!
