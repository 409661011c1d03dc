//! What stands beside the shots: effect windows, damage enhancers, the healer in
//! hand, and the texts that name things.

use crate::attribution::{Observation, WeaponEffectProfile, WeaponView, WindowView};
use crate::effects;
use crate::effects::StoredWindowView;
use crate::enhancers;
use crate::enhancers::DamageEnhancerState;
use crate::healing;
use crate::healing::{HealingReadout, HealingRuntime, HealingState};
use crate::regime;
use crate::regime::RuntimeView;
use crate::text;
use vstd::prelude::*;

verus! {

/// A hit opens an effect where its weapon is carried and has one; a countered
/// shot opens none.
pub proof fn a_hit_opens_its_weapons_effect(
    runtime: RuntimeView,
    tool: Seq<char>,
    observation: Observation,
)
    ensures
        ({
            let weapon = regime::named(runtime.carried, tool);
            let opener = effects::opener(runtime, tool, observation);
            &&& observation == Observation::Countered ==> opener is None
            &&& weapon is None ==> opener is None
            &&& weapon is Some && weapon->0.effect is None ==> opener is None
            &&& weapon is Some && weapon->0.effect is Some && observation is Hit ==> opener == weapon
        }),
{
}

/// A window opens with its hit, for as long as the effect lasts, and ticks as
/// the effect does.
pub proof fn a_window_lasts_as_its_effect(
    id: Seq<char>,
    weapon: WeaponView,
    effect: WeaponEffectProfile,
    at: i64,
)
    requires
        weapon.effect == Some(effect),
        i64::MIN <= at + effect.duration <= i64::MAX,
    ensures
        ({
            let window = effects::window_of(id, weapon, at);
            &&& window.id == id
            &&& window.tool == weapon.name
            &&& window.equipment_id == Some(weapon.equipment_id)
            &&& window.started_at == at
            &&& window.expires_at - window.started_at == effect.duration
            &&& window.tick.min == effect.tick_min
            &&& window.tick.max == effect.tick_max
        }),
{
}

/// A stored window is live until a second and a quarter past its end, unless it
/// was withdrawn.
pub proof fn a_stored_window_is_live_until_its_tail(stored: StoredWindowView, now: int)
    ensures
        effects::still_live(now)(stored) == (now <= stored.window.expires_at + 1_250_000_000
            && stored.withdrawn_at is None),
{
}

/// Stored windows come back in the order they opened, those of one instant by
/// their ids, and each once.
pub proof fn windows_come_back_in_opening_order(windows: Seq<StoredWindowView>)
    ensures
        ({
            let sorted = effects::in_opening_order(windows);
            &&& sorted.len() == windows.len()
            &&& sorted.to_multiset() == Seq::new(
                windows.len(),
                |i: int| windows[i].window,
            ).to_multiset()
            &&& forall|i: int, j: int|
                0 <= i < j < sorted.len() ==> {
                    ||| (#[trigger] sorted[i]).started_at < (#[trigger] sorted[j]).started_at
                    ||| sorted[i].started_at == sorted[j].started_at && !text::lex_less(
                        sorted[j].id,
                        sorted[i].id,
                    )
                }
        }),
    decreases windows.len(),
{
    broadcast use vstd::seq_lib::group_to_multiset_ensures;

    let all = Seq::new(windows.len(), |i: int| windows[i].window);
    if windows.len() == 0 {
        assert(effects::in_opening_order(windows) =~= all);
    } else {
        let rest = windows.drop_last();
        windows_come_back_in_opening_order(rest);
        let before = effects::in_opening_order(rest);
        inserting_keeps_the_order(before, windows.last().window);
        assert(all =~= Seq::new(rest.len(), |i: int| rest[i].window).push(windows.last().window));
    }
}

spec fn opening_order(windows: Seq<WindowView>) -> bool {
    forall|i: int, j: int|
        0 <= i < j < windows.len() ==> {
            ||| (#[trigger] windows[i]).started_at < (#[trigger] windows[j]).started_at
            ||| windows[i].started_at == windows[j].started_at && !text::lex_less(
                windows[j].id,
                windows[i].id,
            )
        }
}

proof fn inserting_keeps_the_order(sorted: Seq<WindowView>, window: WindowView)
    requires
        opening_order(sorted),
    ensures
        ({
            let after = effects::insert_window(sorted, window);
            &&& after.len() == sorted.len() + 1
            &&& after.to_multiset() == sorted.to_multiset().insert(window)
            &&& opening_order(after)
            &&& forall|i: int|
                0 <= i < after.len() ==> after[i] == window || sorted.contains(#[trigger] after[i])
        }),
    decreases sorted.len(),
{
    broadcast use vstd::seq_lib::group_to_multiset_ensures;

    let after = effects::insert_window(sorted, window);
    if sorted.len() == 0 {
        assert(after =~= sorted.push(window));
    } else if effects::opens_before(sorted.last(), window) {
        let last = sorted[sorted.len() - 1];
        assert forall|i: int, j: int| 0 <= i < j < after.len() implies {
            ||| (#[trigger] after[i]).started_at < (#[trigger] after[j]).started_at
            ||| after[i].started_at == after[j].started_at && !text::lex_less(
                after[j].id,
                after[i].id,
            )
        } by {
            if j == sorted.len() && i < sorted.len() - 1 {
                assert(after[i] == sorted[i]);
                order_chains(sorted[i], last, window);
            }
        }
        assert forall|i: int| 0 <= i < after.len() implies after[i] == window || sorted.contains(
            #[trigger] after[i],
        ) by {
            if i < sorted.len() {
                assert(after[i] == sorted[i]);
            }
        }
    } else {
        let rest = sorted.drop_last();
        let last = sorted[sorted.len() - 1];
        assert forall|i: int| 0 <= i < rest.len() implies #[trigger] rest[i] == sorted[i] by {}
        inserting_keeps_the_order(rest, window);
        let inner = effects::insert_window(rest, window);
        text::lex_less_is_total(window.id, last.id);
        assert(sorted =~= rest.push(last));
        assert(after =~= inner.push(last));
        assert forall|i: int, j: int| 0 <= i < j < after.len() implies {
            ||| (#[trigger] after[i]).started_at < (#[trigger] after[j]).started_at
            ||| after[i].started_at == after[j].started_at && !text::lex_less(
                after[j].id,
                after[i].id,
            )
        } by {
            if j < inner.len() {
                assert(after[i] == inner[i] && after[j] == inner[j]);
            } else {
                assert(after[i] == inner[i]);
                if inner[i] != window {
                    assert(rest.contains(inner[i]));
                    let k = choose|k: int| 0 <= k < rest.len() && rest[k] == inner[i];
                    assert(sorted[k] == rest[k]);
                }
            }
        }
        assert forall|i: int| 0 <= i < after.len() implies after[i] == window || sorted.contains(
            #[trigger] after[i],
        ) by {
            if i < inner.len() {
                assert(after[i] == inner[i]);
                if inner[i] != window {
                    let k = choose|k: int| 0 <= k < rest.len() && rest[k] == inner[i];
                    assert(sorted[k] == rest[k]);
                }
            } else {
                assert(after[i] == last);
            }
        }
        assert(inner.push(last).to_multiset() =~= sorted.to_multiset().insert(window));
    }
}

proof fn order_chains(a: WindowView, b: WindowView, c: WindowView)
    requires
        effects::opens_before(a, b),
        effects::opens_before(b, c),
    ensures
        effects::opens_before(a, c),
{
    text::lex_less_is_total(a.id, b.id);
    text::lex_less_is_total(b.id, c.id);
    text::lex_less_is_total(a.id, c.id);
    if text::lex_less(c.id, a.id) && text::lex_less(a.id, b.id) {
        text::lex_less_is_transitive(c.id, a.id, b.id);
    }
}

/// Enhancers are spread over the slots as evenly as they divide: no two stacks
/// differ by more than one, and no stack is larger than an earlier one.
pub proof fn enhancers_spread_evenly(total: int, slots: nat, i: int, j: int)
    requires
        total <= i64::MAX,
        0 <= i <= j < slots,
    ensures
        ({
            let stacks = enhancers::spread(total, slots);
            &&& stacks.len() == slots
            &&& stacks[j] <= stacks[i] <= stacks[j] + 1
            &&& stacks[j] >= 0
            &&& total <= 0 ==> stacks[i] == 0
        }),
{
    let n = slots as int;
    let whole = if total > 0 {
        total
    } else {
        0
    };
    assert(0 <= whole / n <= whole) by (nonlinear_arith)
        requires
            n > 0,
            whole >= 0,
    ;
    assert(0 <= whole % n < n && whole == (whole / n) * n + whole % n) by (nonlinear_arith)
        requires
            n > 0,
            whole >= 0,
    ;
    if whole % n > 0 {
        assert(whole / n + 1 <= whole) by (nonlinear_arith)
            requires
                n > 0,
                whole % n > 0,
                whole / n >= 0,
                whole == (whole / n) * n + whole % n,
        ;
    }
}

/// A stack counts as active where something is left of it.
pub proof fn a_stack_is_active_while_it_lasts(stacks: Seq<i64>, stack: i64)
    ensures
        enhancers::active(stacks.push(stack)) == enhancers::active(stacks) + (if stack > 0 {
            1int
        } else {
            0int
        }),
        enhancers::active(Seq::empty()) == 0,
        enhancers::sum(stacks.push(stack)) == enhancers::sum(stacks) + stack,
        enhancers::sum(Seq::empty()) == 0,
{
    assert(stacks.push(stack).drop_last() =~= stacks);
}

/// A break takes one enhancer off the last stack that has any, and changes no
/// other; with none left it takes nothing.
pub proof fn a_break_takes_one_off_the_last_stack(stacks: Seq<i64>, at: int)
    requires
        0 <= at < stacks.len(),
    ensures
        ({
            let after = enhancers::one_fewer(stacks);
            let last = stacks[at] > 0 && forall|i: int|
                at < i < stacks.len() ==> #[trigger] stacks[i] <= 0;
            &&& after.len() == stacks.len()
            &&& after[at] == stacks[at] - (if last {
                1int
            } else {
                0int
            })
        }),
    decreases stacks.len(),
{
    let rest = stacks.drop_last();
    assert(stacks[stacks.len() - 1] == stacks.last());
    one_fewer_keeps_length(rest);
    if stacks.last() <= 0 && at < rest.len() {
        a_break_takes_one_off_the_last_stack(rest, at);
        assert forall|i: int| 0 <= i < rest.len() implies #[trigger] rest[i] == stacks[i] by {}
        if forall|i: int| at < i < rest.len() ==> #[trigger] rest[i] <= 0 {
            assert forall|i: int| at < i < stacks.len() implies #[trigger] stacks[i] <= 0 by {
                if i < rest.len() {
                    assert(rest[i] == stacks[i]);
                }
            }
        }
    }
}

proof fn one_fewer_keeps_length(stacks: Seq<i64>)
    ensures
        enhancers::one_fewer(stacks).len() == stacks.len(),
    decreases stacks.len(),
{
    if stacks.len() > 0 && stacks.last() <= 0 {
        one_fewer_keeps_length(stacks.drop_last());
    }
}

/// A break is the weapon's where its damage enhancers are known and there are
/// slots for them, the enhancer's name says damage in any case of letters, and
/// the line names the weapon.
pub proof fn a_break_is_the_weapons(
    state: Option<DamageEnhancerState>,
    name: Seq<char>,
    names_weapon: bool,
)
    ensures
        enhancers::breaks_the_weapon(state, name, names_weapon) <==> {
            &&& state is Some
            &&& state->0.stacks@.len() > 0
            &&& names_weapon
            &&& exists|at: int|
                0 <= at && at + 6 <= text::lower_case(name).len() && #[trigger] text::lower_case(
                    name,
                ).subrange(at, at + 6) == "damage"@
        },
{
    reveal_strlit("damage");
    let low = text::lower_case(name);
    let run = "damage"@;
    assert(run.len() == 6);
    if text::contains_run(low, run) {
        let at = choose|at: int|
            0 <= at && at + run.len() <= low.len() && #[trigger] low.subrange(at, at + run.len())
                == run;
        assert(low.subrange(at, at + 6) == run);
    }
    if exists|at: int| 0 <= at && at + 6 <= low.len() && #[trigger] low.subrange(at, at + 6) == run {
        let at = choose|at: int|
            0 <= at && at + 6 <= low.len() && #[trigger] low.subrange(at, at + 6) == run;
        assert(low.subrange(at, at + run.len()) == run);
    }
}

/// A healer was last used at its latest use, whatever other healers were used
/// since.
pub proof fn the_last_use_is_the_latest(uses: Seq<(i64, i64)>, healer: i64, at: i64, asked: i64)
    ensures
        healing::last_use(uses.push((healer, at)), asked) == (if healer == asked {
            Some(at)
        } else {
            healing::last_use(uses, asked)
        }),
        healing::last_use(Seq::empty(), asked) is None,
{
    assert(uses.push((healer, at)).drop_last() =~= uses);
}

/// The healer in hand cools down from its last use for its reload, and no
/// longer; without one in hand, or before its first use, nothing cools down.
pub proof fn a_healer_cools_for_its_reload(healing: HealingRuntime, now: i64)
    ensures
        healing.intent is None ==> healing::cooling_until(healing, now) is None,
        healing.intent is Some ==> ({
            let last = healing::last_use(healing.activations@, healing.intent->0.equipment_id);
            let until = last->0 + healing.intent->0.reload;
            let cooling = healing::cooling_until(healing, now);
            &&& last is None ==> cooling is None
            &&& last is Some && until <= now ==> cooling is None
            &&& last is Some && until > now ==> cooling is Some && cooling->0 == until
        }),
{
}

/// What the healing readout says: an open effect first, else a cooldown, else
/// ready where a healer is in hand, else passive; with its name and counts.
pub proof fn a_healing_readout_says_what_stands(
    read: HealingReadout,
    healing: HealingRuntime,
    now: i64,
)
    requires
        read.of(healing, now),
    ensures
        read.state == HealingState::Effect <==> read.effect_until is Some,
        read.state == HealingState::Cooldown <==> read.effect_until is None && read.cooldown_until
            is Some,
        read.state == HealingState::Ready <==> read.effect_until is None && read.cooldown_until
            is None && healing.intent is Some,
        read.state == HealingState::Passive <==> read.effect_until is None && read.cooldown_until
            is None && healing.intent is None,
        read.effect_until is Some <==> exists|i: int|
            0 <= i < healing.effect_expiries@.len() && #[trigger] healing.effect_expiries@[i]
                >= now,
        read.effect_until is Some ==> forall|i: int|
            0 <= i < healing.effect_expiries@.len() ==> #[trigger] healing.effect_expiries@[i]
                <= read.effect_until->0,
        (read.tool_name is Some) == (healing.intent is Some),
        healing.intent is Some ==> read.tool_name->0@ == healing.intent->0.tool_name@,
        read.cooldown_until == healing::cooling_until(healing, now),
        read.activation_count == healing.activation_count,
        read.direct_output_count == healing.direct_output_count,
        read.effect_output_count == healing.effect_output_count,
        read.passive_output_count == healing.passive_output_count,
        read.unattributed_output_count == healing.unattributed_output_count,
{
    let expiries = healing.effect_expiries@;
    healing::the_latest_expiry_stands(expiries, now);
    if read.effect_until is Some {
        let i = choose|i: int| 0 <= i < expiries.len() && expiries[i] == read.effect_until->0;
        assert(expiries[i] >= now);
    }
}

/// A joined text holds its parts in order with the separator between each two.
pub proof fn joining_separates(values: Seq<Seq<char>>, value: Seq<char>, separator: Seq<char>)
    ensures
        text::join_spec(Seq::empty(), separator).len() == 0,
        values.len() == 0 ==> text::join_spec(values.push(value), separator) == value,
        values.len() > 0 ==> text::join_spec(values.push(value), separator) == text::join_spec(
            values,
            separator,
        ) + separator + value,
{
    assert(values.push(value).drop_last() =~= values);
}

/// A number is written by its digits, the highest first: its last digit behind
/// the number without it.
pub proof fn a_number_is_written_by_its_digits(value: nat, digit: nat)
    requires
        digit < 10,
    ensures
        ({
            let written = text::decimal_spec(digit);
            written.len() == 1 && written[0] as u32 == 48 + digit
        }),
        value > 0 ==> text::decimal_spec((10 * value + digit) as nat) == text::decimal_spec(value)
            + text::decimal_spec(digit),
{
    reveal_strlit("0");
    reveal_strlit("1");
    reveal_strlit("2");
    reveal_strlit("3");
    reveal_strlit("4");
    reveal_strlit("5");
    reveal_strlit("6");
    reveal_strlit("7");
    reveal_strlit("8");
    reveal_strlit("9");
    let all = 10 * value + digit;
    assert(all / 10 == value && all % 10 == digit);
}

/// A stripped text is the text without what is stripped at either end: nothing
/// of it is left there, and nothing else is gone.
pub proof fn stripping_takes_the_ends(text: Seq<char>, wide: bool)
    ensures
        ({
            let left = text::stripped(text, wide);
            &&& left.len() > 0 ==> !text::strips(left[0], wide) && !text::strips(left.last(), wide)
            &&& exists|lead: int|
                0 <= lead && lead + left.len() <= text.len() && #[trigger] text.subrange(
                    lead,
                    lead + left.len(),
                ) == left && (forall|i: int|
                    (0 <= i < lead || lead + left.len() <= i < text.len())
                        ==> text::strips(#[trigger] text[i], wide))
        }),
{
    let fore = text::without_lead(text, wide);
    let left = text::stripped(text, wide);
    leading(text, wide);
    trailing(fore, wide);
    let lead = text.len() - fore.len();
    assert(text.subrange(lead, lead + left.len()) =~= left);
    assert forall|i: int|
        (0 <= i < lead || lead + left.len() <= i < text.len()) implies text::strips(
        #[trigger] text[i],
        wide,
    ) by {
        if i >= lead {
            assert(text[i] == fore[i - lead]);
        }
    }
    if left.len() > 0 {
        assert(left[0] == fore[0]);
    }
}

proof fn leading(text: Seq<char>, wide: bool)
    ensures
        ({
            let left = text::without_lead(text, wide);
            &&& left.len() <= text.len()
            &&& left == text.skip(text.len() - left.len())
            &&& left.len() > 0 ==> !text::strips(left[0], wide)
            &&& forall|i: int|
                0 <= i < text.len() - left.len() ==> text::strips(#[trigger] text[i], wide)
        }),
    decreases text.len(),
{
    let left = text::without_lead(text, wide);
    if text.len() > 0 && text::strips(text[0], wide) {
        let rest = text.skip(1);
        leading(rest, wide);
        assert(left =~= text.skip(text.len() - left.len()));
        assert forall|i: int| 0 <= i < text.len() - left.len() implies text::strips(
            #[trigger] text[i],
            wide,
        ) by {
            if i > 0 {
                assert(text[i] == rest[i - 1]);
            }
        }
    } else {
        assert(left =~= text.skip(0));
    }
}

proof fn trailing(text: Seq<char>, wide: bool)
    ensures
        ({
            let left = text::without_trail(text, wide);
            &&& left.len() <= text.len()
            &&& left == text.take(left.len() as int)
            &&& left.len() > 0 ==> !text::strips(left.last(), wide)
            &&& forall|i: int| left.len() <= i < text.len() ==> text::strips(#[trigger] text[i], wide)
        }),
    decreases text.len(),
{
    let left = text::without_trail(text, wide);
    if text.len() > 0 && text::strips(text.last(), wide) {
        let rest = text.drop_last();
        trailing(rest, wide);
        assert(left =~= text.take(left.len() as int));
        assert forall|i: int| left.len() <= i < text.len() implies text::strips(
            #[trigger] text[i],
            wide,
        ) by {
            if i < rest.len() {
                assert(text[i] == rest[i]);
            }
        }
    } else {
        assert(left =~= text.take(text.len() as int));
    }
}

/// What is stripped: white space, and around a name the four separators of
/// information too.
pub proof fn space_is_stripped(c: char)
    ensures
        text::strips(c, false) <==> {
            let code = c as u32;
            ||| code == 0x20 || code == 0x9 || code == 0xa || code == 0xb || code == 0xc || code
                == 0xd
            ||| code == 0x85 || code == 0xa0 || code == 0x1680
            ||| 0x2000 <= code <= 0x200a
            ||| code == 0x2028 || code == 0x2029 || code == 0x202f || code == 0x205f || code
                == 0x3000
        },
        text::strips(c, true) <==> text::strips(c, false) || c as u32 == 0x1c || c as u32 == 0x1d
            || c as u32 == 0x1e || c as u32 == 0x1f,
{
}

/// Two texts are the same but for the case of Latin letters exactly where they
/// are as long and each two characters are equal, or a letter and its capital,
/// thirty-two code points apart.
pub proof fn case_is_ignored_in_latin_letters(a: Seq<char>, b: Seq<char>)
    ensures
        text::same_ignoring_ascii_case(a, b) <==> a.len() == b.len() && forall|i: int|
            0 <= i < a.len() ==> {
                let one = #[trigger] a[i] as u32;
                let other = b[i] as u32;
                ||| one == other
                ||| 65 <= one <= 90 && other == one + 32
                ||| 65 <= other <= 90 && one == other + 32
            },
{
    if text::same_ignoring_ascii_case(a, b) {
        assert forall|i: int| 0 <= i < a.len() implies {
            let one = #[trigger] a[i] as u32;
            let other = b[i] as u32;
            ||| one == other
            ||| 65 <= one <= 90 && other == one + 32
            ||| 65 <= other <= 90 && one == other + 32
        } by {
            assert(text::ascii_lower(a[i]) == text::ascii_lower(b[i]));
        }
    }
    if a.len() == b.len() && forall|i: int|
        0 <= i < a.len() ==> {
            let one = #[trigger] a[i] as u32;
            let other = b[i] as u32;
            ||| one == other
            ||| 65 <= one <= 90 && other == one + 32
            ||| 65 <= other <= 90 && one == other + 32
        } {
        assert forall|i: int|
            #![trigger a[i]]
            0 <= i < a.len() implies text::ascii_lower(a[i]) == text::ascii_lower(b[i]) by {
            let one = a[i] as u32;
        }
    }
}

/// A text sorts before another where it is the beginning of it, or where its
/// first character that differs has the lower code point.
pub proof fn texts_sort_by_their_first_difference(a: Seq<char>, b: Seq<char>, at: int)
    requires
        0 <= at <= a.len(),
        at <= b.len(),
        a.take(at) == b.take(at),
        at < a.len() && at < b.len() ==> a[at] != b[at],
    ensures
        at == a.len() ==> text::lex_less(a, b) == (at < b.len()),
        at == b.len() ==> !text::lex_less(a, b),
        at < a.len() && at < b.len() ==> text::lex_less(a, b) == ((a[at] as u32) < (b[at] as u32)),
    decreases at,
{
    if at > 0 {
        assert(a[0] == a.take(at)[0] && b[0] == b.take(at)[0]);
        assert(a.skip(1).take(at - 1) =~= a.take(at).skip(1));
        assert(b.skip(1).take(at - 1) =~= b.take(at).skip(1));
        texts_sort_by_their_first_difference(a.skip(1), b.skip(1), at - 1);
    }
}

} // verus!
