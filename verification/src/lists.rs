//! Facts about filtered and counted sequences that loops lean on.

use vstd::prelude::*;

verus! {

/// Filtering one element further.
pub proof fn filter_step<A>(values: Seq<A>, at: int, keep: spec_fn(A) -> bool)
    requires
        0 <= at < values.len(),
    ensures
        values.take(at + 1).filter(keep) == (if keep(values[at]) {
            values.take(at).filter(keep).push(values[at])
        } else {
            values.take(at).filter(keep)
        }),
{
    assert(values.take(at + 1).drop_last() =~= values.take(at));
    reveal(Seq::filter);
}

/// Filtering everything.
pub proof fn filter_all<A>(values: Seq<A>, keep: spec_fn(A) -> bool)
    ensures
        values.take(values.len() as int).filter(keep) == values.filter(keep),
{
    assert(values.take(values.len() as int) =~= values);
}

/// Filtering nothing.
pub proof fn filter_none<A>(values: Seq<A>, keep: spec_fn(A) -> bool)
    ensures
        values.take(0).filter(keep) == Seq::<A>::empty(),
        Seq::<A>::empty().filter(keep) == Seq::<A>::empty(),
{
    assert(values.take(0) =~= Seq::<A>::empty());
    reveal(Seq::filter);
}

/// A filtered sequence ends with its last kept element.
pub proof fn filter_push<A>(values: Seq<A>, value: A, keep: spec_fn(A) -> bool)
    ensures
        values.push(value).filter(keep) == (if keep(value) {
            values.filter(keep).push(value)
        } else {
            values.filter(keep)
        }),
{
    assert(values.push(value).drop_last() =~= values);
    reveal(Seq::filter);
}

/// Filtering distributes over two sequences in a row.
pub proof fn filter_add<A>(first: Seq<A>, second: Seq<A>, keep: spec_fn(A) -> bool)
    ensures
        (first + second).filter(keep) == first.filter(keep) + second.filter(keep),
    decreases second.len(),
{
    if second.len() == 0 {
        assert(first + second =~= first);
        filter_none(second, keep);
        assert(second =~= Seq::<A>::empty());
        assert(first.filter(keep) + second.filter(keep) =~= first.filter(keep));
    } else {
        let rest = second.drop_last();
        let last = second.last();
        filter_add(first, rest, keep);
        assert(first + second =~= (first + rest).push(last));
        assert(second =~= rest.push(last));
        filter_push(first + rest, last, keep);
        filter_push(rest, last, keep);
        assert(first.filter(keep) + rest.filter(keep).push(last) =~= (first.filter(keep)
            + rest.filter(keep)).push(last));
    }
}

/// What a filter keeps was there, and passes it.
pub proof fn filter_kept<A>(values: Seq<A>, keep: spec_fn(A) -> bool)
    ensures
        forall|i: int|
            #![trigger values.filter(keep)[i]]
            0 <= i < values.filter(keep).len() ==> keep(values.filter(keep)[i])
                && values.contains(values.filter(keep)[i]),
        values.filter(keep).len() <= values.len(),
        forall|i: int|
            0 <= i < values.len() && keep(#[trigger] values[i]) ==> values.filter(keep).contains(
                values[i],
            ),
    decreases values.len(),
{
    if values.len() == 0 {
        filter_none(values, keep);
        assert(values =~= Seq::<A>::empty());
    } else {
        let rest = values.drop_last();
        let last = values.last();
        filter_kept(rest, keep);
        assert(values =~= rest.push(last));
        filter_push(rest, last, keep);
        let kept = values.filter(keep);
        assert forall|i: int| #![trigger kept[i]] 0 <= i < kept.len() implies keep(kept[i])
            && values.contains(kept[i]) by {
            if i < rest.filter(keep).len() {
                assert(kept[i] == rest.filter(keep)[i]);
                let j = choose|j: int| 0 <= j < rest.len() && rest[j] == kept[i];
                assert(values[j] == kept[i]);
            } else {
                assert(values[values.len() - 1] == kept[i]);
            }
        }
        assert forall|i: int| 0 <= i < values.len() && keep(#[trigger] values[i]) implies kept.contains(
            values[i],
        ) by {
            if i < rest.len() {
                assert(values[i] == rest[i]);
                let j = choose|j: int|
                    0 <= j < rest.filter(keep).len() && rest.filter(keep)[j] == rest[i];
                assert(kept[j] == values[i]);
            } else {
                assert(kept[kept.len() - 1] == last);
            }
        }
    }
}

/// Whether no two elements have the same key.
pub open spec fn apart<A, B>(values: Seq<A>, key: spec_fn(A) -> Option<B>) -> bool {
    forall|i: int, j: int|
        0 <= i < j < values.len() ==> key(values[i]) is None || #[trigger] key(values[i])
            != #[trigger] key(values[j])
}

/// A filter keeps elements apart that a key keeps apart: an element without
/// one is like no other.
pub proof fn filter_stays_apart<A, B>(
    values: Seq<A>,
    keep: spec_fn(A) -> bool,
    key: spec_fn(A) -> Option<B>,
)
    requires
        apart(values, key),
    ensures
        apart(values.filter(keep), key),
    decreases values.len(),
{
    if values.len() == 0 {
        filter_none(values, keep);
        assert(values =~= Seq::<A>::empty());
    } else {
        let rest = values.drop_last();
        let last = values.last();
        assert(values =~= rest.push(last));
        assert(apart(rest, key)) by {
            assert forall|i: int, j: int| 0 <= i < j < rest.len() implies key(rest[i]) is None
                || #[trigger] key(rest[i]) != #[trigger] key(rest[j]) by {
                assert(rest[i] == values[i] && rest[j] == values[j]);
            }
        }
        filter_stays_apart(rest, keep, key);
        filter_push(rest, last, keep);
        filter_kept(rest, keep);
        let older = rest.filter(keep);
        let kept = values.filter(keep);
        assert forall|i: int, j: int| 0 <= i < j < kept.len() implies key(kept[i]) is None
            || #[trigger] key(kept[i]) != #[trigger] key(kept[j]) by {
            assert(kept[i] == older[i]);
            if j < older.len() {
                assert(kept[j] == older[j]);
            } else {
                let k = choose|k: int| 0 <= k < rest.len() && rest[k] == older[i];
                assert(key(values[k]) is None || key(values[k]) != key(values[values.len() - 1]));
            }
        }
    }
}

/// How many elements pass a test.
pub open spec fn count<A>(values: Seq<A>, keep: spec_fn(A) -> bool) -> nat {
    values.filter(keep).len()
}

/// Counting one element further.
pub proof fn count_push<A>(values: Seq<A>, value: A, keep: spec_fn(A) -> bool)
    ensures
        count(values.push(value), keep) == count(values, keep) + (if keep(value) {
            1nat
        } else {
            0nat
        }),
{
    filter_push(values, value, keep);
}

/// Counting two sequences in a row.
pub proof fn count_add<A>(first: Seq<A>, second: Seq<A>, keep: spec_fn(A) -> bool)
    ensures
        count(first + second, keep) == count(first, keep) + count(second, keep),
{
    filter_add(first, second, keep);
}

/// Dropping elements never raises a count.
pub proof fn count_filtered<A>(
    values: Seq<A>,
    first: spec_fn(A) -> bool,
    keep: spec_fn(A) -> bool,
)
    ensures
        count(values.filter(first), keep) <= count(values, keep),
        count(values.filter(first), keep) <= values.filter(first).len(),
    decreases values.len(),
{
    filter_kept(values.filter(first), keep);
    if values.len() == 0 {
        filter_none(values, first);
        filter_none(values, keep);
        assert(values =~= Seq::<A>::empty());
    } else {
        let rest = values.drop_last();
        assert(values =~= rest.push(values.last()));
        count_filtered(rest, first, keep);
        filter_push(rest, values.last(), first);
        count_push(rest, values.last(), keep);
        count_push(rest.filter(first), values.last(), keep);
    }
}

/// The sum of a figure over a sequence.
pub open spec fn total<A>(values: Seq<A>, figure: spec_fn(A) -> int) -> int
    decreases values.len(),
{
    if values.len() == 0 {
        0
    } else {
        total(values.drop_last(), figure) + figure(values.last())
    }
}

/// Summing one element further.
pub proof fn total_step<A>(values: Seq<A>, at: int, figure: spec_fn(A) -> int)
    requires
        0 <= at < values.len(),
    ensures
        total(values.take(at + 1), figure) == total(values.take(at), figure) + figure(values[at]),
{
    assert(values.take(at + 1).drop_last() =~= values.take(at));
}

/// Summing everything.
pub proof fn total_all<A>(values: Seq<A>, figure: spec_fn(A) -> int)
    ensures
        total(values.take(values.len() as int), figure) == total(values, figure),
        total(values.take(0), figure) == 0,
{
    assert(values.take(values.len() as int) =~= values);
}

/// A sum with one more element.
pub proof fn total_push<A>(values: Seq<A>, value: A, figure: spec_fn(A) -> int)
    ensures
        total(values.push(value), figure) == total(values, figure) + figure(value),
{
    assert(values.push(value).drop_last() =~= values);
}

/// A total changes by what one replaced element changes.
pub proof fn total_update<A>(values: Seq<A>, at: int, value: A, figure: spec_fn(A) -> int)
    requires
        0 <= at < values.len(),
    ensures
        total(values.update(at, value), figure) == total(values, figure) + figure(value) - figure(
            values[at],
        ),
    decreases values.len(),
{
    let after = values.update(at, value);
    if at == values.len() - 1 {
        assert(after.drop_last() =~= values.drop_last());
    } else {
        total_update(values.drop_last(), at, value, figure);
        assert(after.drop_last() =~= values.drop_last().update(at, value));
    }
}

/// A sum over two sequences in a row.
pub proof fn total_add<A>(first: Seq<A>, second: Seq<A>, figure: spec_fn(A) -> int)
    ensures
        total(first + second, figure) == total(first, figure) + total(second, figure),
    decreases second.len(),
{
    if second.len() == 0 {
        assert(first + second =~= first);
    } else {
        assert((first + second).drop_last() =~= first + second.drop_last());
        total_add(first, second.drop_last(), figure);
    }
}

/// A sum does not depend on the order of its elements.
pub proof fn total_reordered<A>(first: Seq<A>, second: Seq<A>, figure: spec_fn(A) -> int)
    requires
        first.to_multiset() == second.to_multiset(),
    ensures
        total(first, figure) == total(second, figure),
    decreases first.len(),
{
    broadcast use vstd::seq_lib::group_to_multiset_ensures;

    assert(first.len() == first.to_multiset().len());
    assert(second.len() == second.to_multiset().len());
    if first.len() > 0 {
        let last = first.last();
        assert(first.contains(last));
        assert(first.to_multiset().count(last) > 0);
        assert(second.contains(last));
        let at = choose|i: int| 0 <= i < second.len() && second[i] == last;
        let rest = second.remove(at);
        assert(first.drop_last() =~= first.remove(first.len() - 1));
        total_reordered(first.drop_last(), rest, figure);
        assert(rest =~= second.take(at) + second.skip(at + 1));
        assert(second =~= second.take(at).push(last) + second.skip(at + 1));
        total_add(second.take(at), second.skip(at + 1), figure);
        total_add(second.take(at).push(last), second.skip(at + 1), figure);
        total_push(second.take(at), last, figure);
    }
}

/// Where a figure never exceeds another in size, its partial sums stay within
/// the other's whole sum.
pub proof fn total_within<A>(
    values: Seq<A>,
    at: int,
    figure: spec_fn(A) -> int,
    weight: spec_fn(A) -> int,
)
    requires
        0 <= at <= values.len(),
        forall|value: A| #![trigger weight(value)] -weight(value) <= figure(value) <= weight(value),
    ensures
        -total(values, weight) <= total(values.take(at), figure) <= total(values, weight),
        0 <= total(values.take(at), weight) <= total(values, weight),
        0 <= total(values, weight),
    decreases values.len(), at,
{
    if values.len() == 0 {
        assert(values.take(at) =~= values);
    } else if at == values.len() {
        assert(values.take(at) =~= values);
        let rest = values.drop_last();
        total_within(rest, rest.len() as int, figure, weight);
        assert(rest.take(rest.len() as int) =~= rest);
        assert(-weight(values.last()) <= figure(values.last()) <= weight(values.last()));
    } else {
        let rest = values.drop_last();
        assert(rest.take(at) =~= values.take(at));
        total_within(rest, at, figure, weight);
        assert(-weight(values.last()) <= figure(values.last()) <= weight(values.last()));
    }
}

/// A value put into its place: after everything whose key is not larger.
pub open spec fn placed<A>(values: Seq<A>, value: A, key: spec_fn(A) -> int) -> Seq<A>
    decreases values.len(),
{
    if values.len() == 0 || key(values.last()) <= key(value) {
        values.push(value)
    } else {
        placed(values.drop_last(), value, key).push(values.last())
    }
}

/// Values by rising key; those of one key stay in the order they came.
pub open spec fn ordered<A>(values: Seq<A>, key: spec_fn(A) -> int) -> Seq<A>
    decreases values.len(),
{
    if values.len() == 0 {
        values
    } else {
        placed(ordered(values.drop_last(), key), values.last(), key)
    }
}

/// Placing a value is inserting it behind the last whose key is not larger.
pub proof fn placed_is_inserted<A>(values: Seq<A>, value: A, key: spec_fn(A) -> int, at: int)
    requires
        0 <= at <= values.len(),
        at > 0 ==> key(values[at - 1]) <= key(value),
        forall|i: int| at <= i < values.len() ==> key(#[trigger] values[i]) > key(value),
    ensures
        placed(values, value, key) == values.insert(at, value),
    decreases values.len(),
{
    if at == values.len() {
        assert(values.insert(at, value) =~= values.push(value));
    } else {
        let rest = values.drop_last();
        assert(values.last() == values[values.len() - 1]);
        placed_is_inserted(rest, value, key, at);
        assert(rest.insert(at, value).push(values.last()) =~= values.insert(at, value));
    }
}

proof fn placed_keeps<A>(
    values: Seq<A>,
    value: A,
    key: spec_fn(A) -> int,
    figure: spec_fn(A) -> int,
    same: int,
)
    ensures
        total(placed(values, value, key), figure) == total(values, figure) + figure(value),
        placed(values, value, key).len() == values.len() + 1,
        placed(values, value, key).to_multiset() == values.to_multiset().insert(value),
        placed(values, value, key).filter(|a: A| key(a) == same) == (if key(value) == same {
            values.filter(|a: A| key(a) == same).push(value)
        } else {
            values.filter(|a: A| key(a) == same)
        }),
    decreases values.len(),
{
    broadcast use vstd::seq_lib::group_to_multiset_ensures;

    let keep = |a: A| key(a) == same;
    if values.len() == 0 || key(values.last()) <= key(value) {
        total_push(values, value, figure);
        filter_push(values, value, keep);
    } else {
        let rest = values.drop_last();
        let last = values.last();
        placed_keeps(rest, value, key, figure, same);
        total_push(placed(rest, value, key), last, figure);
        total_push(rest, last, figure);
        assert(rest.push(last) =~= values);
        filter_push(placed(rest, value, key), last, keep);
        filter_push(rest, last, keep);
        assert(rest.to_multiset().insert(value).insert(last) =~= rest.to_multiset().insert(
            last,
        ).insert(value));
    }
}

proof fn placed_is_sorted<A>(values: Seq<A>, value: A, key: spec_fn(A) -> int)
    requires
        forall|i: int, j: int|
            0 <= i <= j < values.len() ==> key(#[trigger] values[i]) <= key(#[trigger] values[j]),
    ensures
        ({
            let after = placed(values, value, key);
            &&& after.len() == values.len() + 1
            &&& forall|i: int, j: int|
                0 <= i <= j < after.len() ==> key(#[trigger] after[i]) <= key(#[trigger] after[j])
            &&& key(after.last()) == (if values.len() == 0 || key(values.last()) <= key(value) {
                key(value)
            } else {
                key(values.last())
            })
        }),
    decreases values.len(),
{
    if values.len() > 0 && key(values.last()) > key(value) {
        let rest = values.drop_last();
        placed_is_sorted(rest, value, key);
        let before = placed(rest, value, key);
        assert(before.last() == before[before.len() - 1]);
        if rest.len() > 0 {
            assert(rest.last() == values[values.len() - 2]);
        }
    }
}

/// Ordering sorts, keeps every value and what they sum to, and leaves those of
/// one key in the order they came.
pub proof fn ordering_only_interleaves<A>(
    values: Seq<A>,
    key: spec_fn(A) -> int,
    figure: spec_fn(A) -> int,
    same: int,
)
    ensures
        ({
            let after = ordered(values, key);
            &&& after.len() == values.len()
            &&& forall|i: int, j: int|
                0 <= i <= j < after.len() ==> key(#[trigger] after[i]) <= key(#[trigger] after[j])
            &&& after.to_multiset() == values.to_multiset()
            &&& total(after, figure) == total(values, figure)
            &&& after.filter(|a: A| key(a) == same) == values.filter(|a: A| key(a) == same)
        }),
    decreases values.len(),
{
    broadcast use vstd::seq_lib::group_to_multiset_ensures;

    if values.len() > 0 {
        let rest = values.drop_last();
        let last = values.last();
        ordering_only_interleaves(rest, key, figure, same);
        placed_keeps(ordered(rest, key), last, key, figure, same);
        placed_is_sorted(ordered(rest, key), last, key);
        filter_push(rest, last, |a: A| key(a) == same);
        assert(rest.push(last) =~= values);
    }
}

} // verus!
