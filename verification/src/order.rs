//! Stable ordering of records by their integer keys.

use vstd::prelude::*;

verus! {

/// A record that is ordered and found again by one integer.
pub trait Keyed: Sized {
    spec fn sort_key(&self) -> int;

    fn key(&self) -> (key: u64)
        ensures
            key == self.sort_key(),
    ;
}

impl Keyed for u64 {
    open spec fn sort_key(&self) -> int {
        *self as int
    }

    fn key(&self) -> (key: u64) {
        *self
    }
}

impl Keyed for u16 {
    open spec fn sort_key(&self) -> int {
        *self as int
    }

    fn key(&self) -> (key: u64) {
        *self as u64
    }
}

impl Keyed for usize {
    open spec fn sort_key(&self) -> int {
        *self as int
    }

    fn key(&self) -> (key: u64) {
        *self as u64
    }
}

/// Keys never decrease.
pub open spec fn sorted<T: Keyed>(items: Seq<T>) -> bool {
    forall|i: int, j: int|
        #![trigger items[i], items[j]]
        0 <= i < j < items.len() ==> items[i].sort_key() <= items[j].sort_key()
}

/// Keys strictly increase, so that no two items share one.
pub open spec fn strictly_sorted<T: Keyed>(items: Seq<T>) -> bool {
    forall|i: int, j: int|
        #![trigger items[i], items[j]]
        0 <= i < j < items.len() ==> items[i].sort_key() < items[j].sort_key()
}

/// No two positions hold the same key.
pub open spec fn distinct_keys<T: Keyed>(items: Seq<T>) -> bool {
    forall|i: int, j: int|
        #![trigger items[i], items[j]]
        0 <= i < j < items.len() ==> items[i].sort_key() != items[j].sort_key()
}

/// Same items, each as often.
pub open spec fn permutation<T>(left: Seq<T>, right: Seq<T>) -> bool {
    left.to_multiset() == right.to_multiset()
}

pub proof fn lemma_permutation_contains<T>(left: Seq<T>, right: Seq<T>)
    requires
        permutation(left, right),
    ensures
        left.len() == right.len(),
        forall|item: T| left.contains(item) <==> right.contains(item),
{
    left.to_multiset_ensures();
    right.to_multiset_ensures();
    assert forall|item: T| left.contains(item) <==> right.contains(item) by {
        assert(left.contains(item) <==> left.to_multiset().count(item) > 0);
        assert(right.contains(item) <==> right.to_multiset().count(item) > 0);
    }
}

/// A sorted permutation of items with distinct keys is strictly sorted.
pub proof fn lemma_sorted_distinct_is_strict<T: Keyed>(original: Seq<T>, ordered: Seq<T>)
    requires
        distinct_keys(original),
        sorted(ordered),
        permutation(original, ordered),
    ensures
        strictly_sorted(ordered),
{
    assert(original.no_duplicates());
    original.lemma_multiset_has_no_duplicates();
    ordered.to_multiset_ensures();
    ordered.lemma_multiset_has_no_duplicates_conv();
    lemma_permutation_contains(original, ordered);
    assert forall|i: int, j: int| #![trigger ordered[i], ordered[j]] 0 <= i < j
        < ordered.len() implies ordered[i].sort_key() < ordered[j].sort_key() by {
        assert(ordered[i] != ordered[j]);
        assert(ordered.contains(ordered[i]));
        assert(ordered.contains(ordered[j]));
        let a = choose|a: int| 0 <= a < original.len() && original[a] == ordered[i];
        let b = choose|b: int| 0 <= b < original.len() && original[b] == ordered[j];
        assert(a != b);
        if a < b {
            assert(original[a].sort_key() != original[b].sort_key());
        } else {
            assert(original[b].sort_key() != original[a].sort_key());
        }
    }
}

/// Two strictly sorted sequences with the same items are the same sequence.
pub proof fn lemma_strictly_sorted_unique<T: Keyed>(left: Seq<T>, right: Seq<T>)
    requires
        strictly_sorted(left),
        strictly_sorted(right),
        forall|item: T| left.contains(item) <==> right.contains(item),
    ensures
        left == right,
    decreases left.len(),
{
    if left.len() == 0 {
        if right.len() > 0 {
            assert(right.contains(right[0]));
            assert(left.contains(right[0]));
        }
        assert(left =~= right);
    } else {
        assert(left.contains(left.last()));
        assert(right.contains(left.last()));
        let at = choose|at: int| 0 <= at < right.len() && right[at] == left.last();
        assert(right.contains(right.last()));
        assert(left.contains(right.last()));
        let back = choose|back: int| 0 <= back < left.len() && left[back] == right.last();
        if at < right.len() - 1 {
            assert(right[at].sort_key() < right[right.len() - 1].sort_key());
            if back < left.len() - 1 {
                assert(left[back].sort_key() < left[left.len() - 1].sort_key());
            }
        }
        assert(left.last() == right.last());
        let shorter_left = left.drop_last();
        let shorter_right = right.drop_last();
        assert forall|item: T| shorter_left.contains(item) <==> shorter_right.contains(item) by {
            if shorter_left.contains(item) {
                let i = choose|i: int| 0 <= i < shorter_left.len() && shorter_left[i] == item;
                assert(left[i] == item);
                assert(left.contains(item));
                let k = choose|k: int| 0 <= k < right.len() && right[k] == item;
                assert(left[i].sort_key() < left[left.len() - 1].sort_key());
                assert(k < right.len() - 1);
                assert(shorter_right[k] == item);
            }
            if shorter_right.contains(item) {
                let i = choose|i: int| 0 <= i < shorter_right.len() && shorter_right[i] == item;
                assert(right[i] == item);
                assert(right.contains(item));
                let k = choose|k: int| 0 <= k < left.len() && left[k] == item;
                assert(right[i].sort_key() < right[right.len() - 1].sort_key());
                assert(k < left.len() - 1);
                assert(shorter_left[k] == item);
            }
        }
        lemma_strictly_sorted_unique(shorter_left, shorter_right);
        assert(left =~= shorter_left.push(left.last()));
        assert(right =~= shorter_right.push(right.last()));
    }
}

/// Insert one item behind every item whose key is not larger.
fn insert_sorted<T: Keyed>(items: &mut Vec<T>, item: T)
    requires
        sorted(old(items)@),
    ensures
        sorted(final(items)@),
        permutation(final(items)@, old(items)@.push(item)),
        final(items)@.len() == old(items)@.len() + 1,
{
    let key: u64 = item.key();
    let mut position: usize = items.len();
    while position > 0 && items[position - 1].key() > key
        invariant
            position <= items@.len(),
            key == item.sort_key(),
            sorted(items@),
            forall|i: int| position <= i < items@.len() ==> (#[trigger] items@[i]).sort_key() > key,
        decreases position,
    {
        position = position - 1;
    }
    let ghost before = items@;
    proof {
        vstd::seq_lib::to_multiset_insert(before, position as int, item);
        vstd::seq_lib::to_multiset_build(before, item);
        if position > 0 {
            assert forall|i: int| 0 <= i < position implies (#[trigger] before[i]).sort_key()
                <= key by {
                assert(before[position - 1].sort_key() <= key);
            }
        }
    }
    items.insert(position, item);
    proof {
        let after = items@;
        assert(after =~= before.insert(position as int, item));
        assert forall|i: int, j: int| #![trigger after[i], after[j]] 0 <= i < j
            < after.len() implies after[i].sort_key() <= after[j].sort_key() by {
            let source_i = if i < position {
                i
            } else {
                i - 1
            };
            let source_j = if j < position {
                j
            } else {
                j - 1
            };
            if i == position {
                assert(after[j] == before[source_j]);
            } else if j == position {
                assert(after[i] == before[source_i]);
            } else {
                assert(after[i] == before[source_i]);
                assert(after[j] == before[source_j]);
            }
        }
    }
}

/// Sort records by key. Records with equal keys may leave in any order.
pub fn sort_by_key<T: Keyed>(items: Vec<T>) -> (ordered: Vec<T>)
    ensures
        sorted(ordered@),
        permutation(items@, ordered@),
        ordered@.len() == items@.len(),
{
    let mut source = items;
    let mut ordered: Vec<T> = Vec::new();
    let ghost all = source@;
    proof {
        ordered@.to_multiset_ensures();
        assert(ordered@.to_multiset() =~= vstd::multiset::Multiset::<T>::empty()) by {
            assert(ordered@.to_multiset().len() == 0);
        }
        assert(source@.to_multiset().add(ordered@.to_multiset()) =~= all.to_multiset());
    }
    while source.len() > 0
        invariant
            sorted(ordered@),
            source@.to_multiset().add(ordered@.to_multiset()) == all.to_multiset(),
            source@.len() + ordered@.len() == all.len(),
        decreases source@.len(),
    {
        let ghost left = source@;
        let ghost done = ordered@;
        match source.pop() {
            Some(item) => {
                insert_sorted(&mut ordered, item);
                proof {
                    assert(left =~= source@.push(item));
                    vstd::seq_lib::to_multiset_build(source@, item);
                    vstd::seq_lib::to_multiset_build(done, item);
                    assert(source@.to_multiset().add(ordered@.to_multiset())
                        =~= left.to_multiset().add(done.to_multiset()));
                }
            },
            None => {},
        }
    }
    proof {
        assert(source@ =~= Seq::<T>::empty());
        source@.to_multiset_ensures();
        assert(source@.to_multiset() =~= vstd::multiset::Multiset::<T>::empty()) by {
            assert(source@.to_multiset().len() == 0);
        }
        assert(source@.to_multiset().add(ordered@.to_multiset()) =~= ordered@.to_multiset());
    }
    ordered
}

/// Sort identifiers and drop repetitions.
pub fn sort_unique(ids: Vec<u64>) -> (unique: Vec<u64>)
    ensures
        strictly_sorted(unique@),
        forall|id: u64| unique@.contains(id) <==> ids@.contains(id),
{
    let ordered = sort_by_key(ids);
    proof {
        lemma_permutation_contains(ids@, ordered@);
    }
    let mut unique: Vec<u64> = Vec::new();
    let mut index: usize = 0;
    while index < ordered.len()
        invariant
            index <= ordered@.len(),
            sorted(ordered@),
            strictly_sorted(unique@),
            forall|id: u64| unique@.contains(id) <==> ordered@.take(index as int).contains(id),
            unique@.len() > 0 ==> index > 0 && unique@.last() == ordered@[index - 1],
        decreases ordered@.len() - index,
    {
        let id: u64 = ordered[index];
        let ghost before = unique@;
        let ghost seen = ordered@.take(index as int);
        proof {
            assert(ordered@.take(index + 1) =~= seen.push(id));
        }
        if unique.len() == 0 || unique[unique.len() - 1] != id {
            unique.push(id);
            proof {
                lemma_append_unique(before, seen, id);
                assert forall|k: int| 0 <= k < before.len() implies (#[trigger] before[k]) < id by {
                    assert(before[k].sort_key() <= before.last().sort_key());
                    assert(ordered@[index - 1].sort_key() <= ordered@[index as int].sort_key());
                }
                assert(strictly_sorted(unique@));
            }
        } else {
            proof {
                assert(before.contains(before.last()));
                assert forall|other: u64| seen.push(id).contains(other) <==> before.contains(
                    other,
                ) by {
                    lemma_push_contains(seen, id, other);
                }
            }
        }
        index = index + 1;
    }
    proof {
        assert(ordered@.take(ordered@.len() as int) =~= ordered@);
    }
    unique
}

pub proof fn lemma_push_contains<T>(items: Seq<T>, item: T, other: T)
    ensures
        items.push(item).contains(other) <==> items.contains(other) || item == other,
{
    if items.contains(other) {
        let i = choose|i: int| 0 <= i < items.len() && items[i] == other;
        assert(items.push(item)[i] == other);
    }
    assert(items.push(item)[items.len() as int] == item);
    if items.push(item).contains(other) && item != other {
        let i = choose|i: int| 0 <= i < items.len() + 1 && items.push(item)[i] == other;
        assert(items[i] == other);
    }
}

proof fn lemma_append_unique(unique: Seq<u64>, seen: Seq<u64>, id: u64)
    requires
        forall|other: u64| unique.contains(other) <==> seen.contains(other),
    ensures
        forall|other: u64| unique.push(id).contains(other) <==> seen.push(id).contains(other),
{
    assert forall|other: u64| unique.push(id).contains(other) <==> seen.push(id).contains(other) by {
        lemma_push_contains(unique, id, other);
        lemma_push_contains(seen, id, other);
    }
}

/// The sum of an amount over the items that are kept.
pub open spec fn total<T>(
    items: Seq<T>,
    keep: spec_fn(T) -> bool,
    amount: spec_fn(T) -> int,
) -> int
    decreases items.len(),
{
    if items.len() == 0 {
        0
    } else {
        total(items.drop_last(), keep, amount) + if keep(items.last()) {
            amount(items.last())
        } else {
            0
        }
    }
}

/// With amounts that are never negative a prefix never sums to more.
pub proof fn lemma_total_prefix<T>(
    items: Seq<T>,
    keep: spec_fn(T) -> bool,
    amount: spec_fn(T) -> int,
    length: int,
)
    requires
        0 <= length <= items.len(),
        forall|item: T| #[trigger] amount(item) >= 0,
    ensures
        0 <= total(items.take(length), keep, amount) <= total(items, keep, amount),
    decreases items.len(),
{
    if length == items.len() {
        assert(items.take(length) =~= items);
        if items.len() > 0 {
            lemma_total_prefix(items.drop_last(), keep, amount, length - 1);
            assert(items.drop_last().take(length - 1) =~= items.drop_last());
        }
    } else {
        lemma_total_prefix(items.drop_last(), keep, amount, length);
        assert(items.drop_last().take(length) =~= items.take(length));
    }
}

pub proof fn lemma_total_push<T>(
    items: Seq<T>,
    item: T,
    keep: spec_fn(T) -> bool,
    amount: spec_fn(T) -> int,
)
    ensures
        total(items.push(item), keep, amount) == total(items, keep, amount) + if keep(item) {
            amount(item)
        } else {
            0
        },
{
    assert(items.push(item).drop_last() =~= items);
}

/// Replacing an item changes a sum by the difference.
pub proof fn lemma_total_update<T>(
    items: Seq<T>,
    position: int,
    item: T,
    keep: spec_fn(T) -> bool,
    amount: spec_fn(T) -> int,
)
    requires
        0 <= position < items.len(),
    ensures
        total(items.update(position, item), keep, amount) == total(
            items,
            keep,
            amount,
        ) - (if keep(items[position]) {
            amount(items[position])
        } else {
            0
        }) + (if keep(item) {
            amount(item)
        } else {
            0
        }),
    decreases items.len(),
{
    let shorter = items.drop_last();
    if position == items.len() - 1 {
        assert(items.update(position, item).drop_last() =~= shorter);
    } else {
        lemma_total_update(shorter, position, item, keep, amount);
        assert(items.update(position, item).drop_last() =~= shorter.update(position, item));
    }
}

/// Whether an identifier occurs.
pub fn contains_id(ids: &[u64], id: u64) -> (found: bool)
    ensures
        found == ids@.contains(id),
{
    let mut index: usize = 0;
    while index < ids.len()
        invariant
            index <= ids@.len(),
            forall|i: int| 0 <= i < index ==> ids@[i] != id,
        decreases ids@.len() - index,
    {
        if ids[index] == id {
            assert(ids@[index as int] == id);
            return true;
        }
        index = index + 1;
    }
    false
}

/// A copy of every element.
pub fn copy_all<T: Copy>(items: &[T]) -> (copied: Vec<T>)
    ensures
        copied@ == items@,
{
    let mut copied: Vec<T> = Vec::new();
    let mut index: usize = 0;
    while index < items.len()
        invariant
            index <= items@.len(),
            copied@ == items@.take(index as int),
        decreases items@.len() - index,
    {
        copied.push(items[index]);
        index = index + 1;
        assert(copied@ =~= items@.take(index as int));
    }
    assert(items@.take(items@.len() as int) =~= items@);
    copied
}

/// A sequence with one more item, behind everything that does not stand after it.
pub open spec fn placed<T>(
    ordered: Seq<T>,
    item: T,
    before: spec_fn(T, T) -> bool,
) -> Seq<T>
    decreases ordered.len(),
{
    if ordered.len() == 0 || !before(item, ordered.last()) {
        ordered.push(item)
    } else {
        placed(ordered.drop_last(), item, before).push(ordered.last())
    }
}

/// The items in order; those that rank alike keep their places relative to each other.
pub open spec fn stable_sorted<T>(items: Seq<T>, before: spec_fn(T, T) -> bool) -> Seq<T>
    decreases items.len(),
{
    if items.len() == 0 {
        items
    } else {
        placed(stable_sorted(items.drop_last(), before), items.last(), before)
    }
}

/// Items with an order of their own.
pub trait Ranked: Sized {
    spec fn ranks_before(self, other: Self) -> bool;

    fn is_before(&self, other: &Self) -> (answer: bool)
        ensures
            answer == self.ranks_before(*other),
    ;
}

impl Ranked for u64 {
    open spec fn ranks_before(self, other: Self) -> bool {
        self < other
    }

    fn is_before(&self, other: &Self) -> (answer: bool) {
        *self < *other
    }
}

/// The order of a ranked type.
pub open spec fn rank_order<T: Ranked>() -> spec_fn(T, T) -> bool {
    |left: T, right: T| left.ranks_before(right)
}

proof fn lemma_placed_at<T>(ordered: Seq<T>, item: T, before: spec_fn(T, T) -> bool, at: int)
    requires
        0 <= at <= ordered.len(),
        forall|i: int| at <= i < ordered.len() ==> before(item, #[trigger] ordered[i]),
        at > 0 ==> !before(item, ordered[at - 1]),
    ensures
        placed(ordered, item, before) == ordered.insert(at, item),
    decreases ordered.len(),
{
    if at == ordered.len() {
        assert(ordered.insert(at, item) =~= ordered.push(item));
    } else {
        let rest = ordered.drop_last();
        assert(before(item, ordered.last()));
        assert forall|i: int| at <= i < rest.len() implies before(item, #[trigger] rest[i]) by {
            assert(rest[i] == ordered[i]);
        }
        lemma_placed_at(rest, item, before, at);
        assert(ordered.insert(at, item) =~= rest.insert(at, item).push(ordered.last()));
    }
}

/// Sort without changing the relative order of items that rank alike.
pub fn sort_stable<T: Ranked>(items: Vec<T>) -> (ordered: Vec<T>)
    ensures
        ordered@ == stable_sorted(items@, rank_order::<T>()),
{
    let ghost whole = items@;
    let ghost before = rank_order::<T>();
    let mut ordered: Vec<T> = Vec::new();
    proof {
        assert(whole.take(0) =~= Seq::<T>::empty());
    }
    for item in it: items
        invariant
            it.seq() == whole,
            before == rank_order::<T>(),
            ordered@ == stable_sorted(whole.take(it.index()), before),
    {
        let ghost done = it.index();
        let mut at: usize = ordered.len();
        while at > 0 && item.is_before(&ordered[at - 1])
            invariant
                at <= ordered@.len(),
                before == rank_order::<T>(),
                forall|i: int| at <= i < ordered@.len() ==> before(item, #[trigger] ordered@[i]),
            decreases at,
        {
            at = at - 1;
        }
        proof {
            lemma_placed_at(ordered@, item, before, at as int);
            assert(whole.take(done + 1).drop_last() =~= whole.take(done));
            assert(whole.take(done + 1).last() == item);
        }
        ordered.insert(at, item);
    }
    proof {
        assert(whole.take(whole.len() as int) =~= whole);
    }
    ordered
}

/// Sorting commutes with a change of representation that keeps the order.
pub proof fn lemma_sort_commutes<T, U>(
    items: Seq<T>,
    shown: spec_fn(T) -> U,
    before: spec_fn(T, T) -> bool,
    shown_before: spec_fn(U, U) -> bool,
)
    requires
        forall|a: T, b: T| #[trigger] before(a, b) == shown_before(shown(a), shown(b)),
    ensures
        stable_sorted(items, before).map_values(shown) == stable_sorted(
            items.map_values(shown),
            shown_before,
        ),
    decreases items.len(),
{
    if items.len() > 0 {
        let rest = items.drop_last();
        lemma_sort_commutes(rest, shown, before, shown_before);
        assert(items.map_values(shown).drop_last() =~= rest.map_values(shown));
        lemma_placed_commutes(
            stable_sorted(rest, before),
            items.last(),
            shown,
            before,
            shown_before,
        );
    } else {
        assert(items.map_values(shown) =~= Seq::<U>::empty());
        assert(stable_sorted(items, before).map_values(shown) =~= Seq::<U>::empty());
    }
}

proof fn lemma_placed_commutes<T, U>(
    ordered: Seq<T>,
    item: T,
    shown: spec_fn(T) -> U,
    before: spec_fn(T, T) -> bool,
    shown_before: spec_fn(U, U) -> bool,
)
    requires
        forall|a: T, b: T| #[trigger] before(a, b) == shown_before(shown(a), shown(b)),
    ensures
        placed(ordered, item, before).map_values(shown) == placed(
            ordered.map_values(shown),
            shown(item),
            shown_before,
        ),
    decreases ordered.len(),
{
    if ordered.len() == 0 {
        assert(ordered.push(item).map_values(shown) =~= ordered.map_values(shown).push(
            shown(item),
        ));
    } else if !before(item, ordered.last()) {
        assert(ordered.push(item).map_values(shown) =~= ordered.map_values(shown).push(
            shown(item),
        ));
    } else {
        let rest = ordered.drop_last();
        lemma_placed_commutes(rest, item, shown, before, shown_before);
        assert(ordered.map_values(shown).drop_last() =~= rest.map_values(shown));
        assert(placed(rest, item, before).push(ordered.last()).map_values(shown) =~= placed(
            rest,
            item,
            before,
        ).map_values(shown).push(shown(ordered.last())));
    }
}

/// No item stands before one that ranks before it.
pub open spec fn in_order<T>(items: Seq<T>, before: spec_fn(T, T) -> bool) -> bool {
    forall|i: int, j: int|
        #![trigger items[i], items[j]]
        0 <= i < j < items.len() ==> !before(items[j], items[i])
}

/// Sorting yields the same items, in order.
pub proof fn stable_sort_orders<T>(items: Seq<T>, before: spec_fn(T, T) -> bool)
    requires
        forall|a: T, b: T| #[trigger] before(a, b) ==> !before(b, a),
        forall|a: T, b: T, c: T|
            #![trigger before(b, a), before(c, b)]
            !before(b, a) && !before(c, b) ==> !before(c, a),
    ensures
        permutation(stable_sorted(items, before), items),
        in_order(stable_sorted(items, before), before),
    decreases items.len(),
{
    broadcast use vstd::seq_lib::group_to_multiset_ensures;

    if items.len() > 0 {
        let rest = items.drop_last();
        stable_sort_orders(rest, before);
        lemma_placed_in_order(stable_sorted(rest, before), items.last(), before);
        assert(items =~= rest.push(items.last()));
    }
}

proof fn lemma_placed_in_order<T>(ordered: Seq<T>, item: T, before: spec_fn(T, T) -> bool)
    requires
        in_order(ordered, before),
        forall|a: T, b: T| #[trigger] before(a, b) ==> !before(b, a),
        forall|a: T, b: T, c: T|
            #![trigger before(b, a), before(c, b)]
            !before(b, a) && !before(c, b) ==> !before(c, a),
    ensures
        in_order(placed(ordered, item, before), before),
        placed(ordered, item, before).to_multiset() == ordered.to_multiset().insert(item),
        forall|i: int|
            0 <= i < placed(ordered, item, before).len() ==> {
                let x = #[trigger] placed(ordered, item, before)[i];
                x == item || ordered.contains(x)
            },
    decreases ordered.len(),
{
    broadcast use vstd::seq_lib::group_to_multiset_ensures;

    let after = placed(ordered, item, before);
    if ordered.len() == 0 || !before(item, ordered.last()) {
        assert forall|i: int, j: int| #![trigger after[i], after[j]] 0 <= i < j
            < after.len() implies !before(after[j], after[i]) by {
            if j == ordered.len() && i < ordered.len() - 1 {
                assert(!before(ordered.last(), ordered[i]));
            }
        }
        assert forall|i: int| 0 <= i < after.len() implies {
            let x = #[trigger] after[i];
            x == item || ordered.contains(x)
        } by {
            if i < ordered.len() {
                assert(ordered[i] == after[i]);
            }
        }
    } else {
        let rest = ordered.drop_last();
        let last = ordered.last();
        lemma_placed_in_order(rest, item, before);
        let inner = placed(rest, item, before);
        assert forall|i: int| 0 <= i < after.len() implies {
            let x = #[trigger] after[i];
            x == item || ordered.contains(x)
        } by {
            if i < inner.len() {
                assert(after[i] == inner[i]);
                if inner[i] != item {
                    let k = choose|k: int| 0 <= k < rest.len() && rest[k] == inner[i];
                    assert(ordered[k] == inner[i]);
                }
            } else {
                assert(ordered[ordered.len() - 1] == after[i]);
            }
        }
        assert forall|i: int, j: int| #![trigger after[i], after[j]] 0 <= i < j
            < after.len() implies !before(after[j], after[i]) by {
            if j < inner.len() {
                assert(!before(inner[j], inner[i]));
            } else {
                let x = inner[i];
                assert(x == item || rest.contains(x));
                if x != item {
                    let k = choose|k: int| 0 <= k < rest.len() && rest[k] == x;
                    assert(!before(ordered[ordered.len() - 1], ordered[k]));
                }
            }
        }
        assert(ordered =~= rest.push(last));
        assert(rest.to_multiset().insert(item).insert(last) =~= rest.to_multiset().insert(
            last,
        ).insert(item));
    }
}

/// Keep the items that a predicate accepts.
pub fn retain_with<T, F: Fn(&T) -> bool>(
    items: Vec<T>,
    keep: F,
    Ghost(wanted): Ghost<spec_fn(T) -> bool>,
) -> (kept: Vec<T>)
    requires
        forall|item: T| #[trigger] keep.requires((&item,)),
        forall|item: T, answer: bool|
            #[trigger] keep.ensures((&item,), answer) ==> answer == wanted(item),
    ensures
        kept@ == items@.filter(wanted),
{
    let ghost whole = items@;
    let mut kept: Vec<T> = Vec::new();
    proof {
        reveal(Seq::filter);
        assert(whole.take(0) =~= Seq::<T>::empty());
    }
    for item in it: items
        invariant
            it.seq() == whole,
            forall|item: T| #[trigger] keep.requires((&item,)),
            forall|item: T, answer: bool|
                #[trigger] keep.ensures((&item,), answer) ==> answer == wanted(item),
            kept@ == whole.take(it.index()).filter(wanted),
    {
        let ghost done = it.index();
        let ghost before = kept@;
        if keep(&item) {
            kept.push(item);
        }
        proof {
            reveal(Seq::filter);
            assert(whole.take(done + 1).drop_last() =~= whole.take(done));
            assert(whole.take(done + 1).last() == item);
        }
    }
    proof {
        assert(whole.take(whole.len() as int) =~= whole);
    }
    kept
}

/// Filtering commutes with a change of representation that keeps the verdict.
pub proof fn lemma_filter_commutes<T, U>(
    items: Seq<T>,
    shown: spec_fn(T) -> U,
    wanted: spec_fn(T) -> bool,
    shown_wanted: spec_fn(U) -> bool,
)
    requires
        forall|a: T| #[trigger] wanted(a) == shown_wanted(shown(a)),
    ensures
        items.filter(wanted).map_values(shown) == items.map_values(shown).filter(shown_wanted),
    decreases items.len(),
{
    reveal(Seq::filter);
    if items.len() > 0 {
        let rest = items.drop_last();
        lemma_filter_commutes(rest, shown, wanted, shown_wanted);
        assert(items.map_values(shown).drop_last() =~= rest.map_values(shown));
        if wanted(items.last()) {
            assert(rest.filter(wanted).push(items.last()).map_values(shown) =~= rest.filter(
                wanted,
            ).map_values(shown).push(shown(items.last())));
        }
    } else {
        assert(items.filter(wanted).map_values(shown) =~= Seq::<U>::empty());
        assert(items.map_values(shown) =~= Seq::<U>::empty());
    }
}

/// What passes a filter is what stood in the sequence and satisfies the predicate.
pub proof fn lemma_filter_contains<T>(items: Seq<T>, wanted: spec_fn(T) -> bool, item: T)
    ensures
        items.filter(wanted).contains(item) <==> items.contains(item) && wanted(item),
    decreases items.len(),
{
    reveal(Seq::filter);
    if items.len() > 0 {
        let rest = items.drop_last();
        lemma_filter_contains(rest, wanted, item);
        assert(items =~= rest.push(items.last()));
        lemma_push_contains(rest, items.last(), item);
        lemma_push_contains(rest.filter(wanted), items.last(), item);
    }
}

/// What the first entries amount to: each contributes an item, or nothing, or the failure that
/// ends it all.
pub open spec fn collected<U, E>(
    entry: spec_fn(int) -> Option<Result<U, E>>,
    count: nat,
) -> Result<Seq<U>, E>
    decreases count,
{
    if count == 0 {
        Ok(Seq::empty())
    } else {
        match collected(entry, (count - 1) as nat) {
            Err(error) => Err(error),
            Ok(rest) => match entry(count - 1) {
                None => Ok(rest),
                Some(Ok(item)) => Ok(rest.push(item)),
                Some(Err(error)) => Err(error),
            },
        }
    }
}

/// A failure is not mended by later entries.
pub proof fn lemma_collected_fail<U, E>(
    entry: spec_fn(int) -> Option<Result<U, E>>,
    count: nat,
    whole: nat,
)
    requires
        count <= whole,
        collected(entry, count) is Err,
    ensures
        collected(entry, whole) == collected(entry, count),
    decreases whole - count,
{
    if count < whole {
        lemma_collected_fail(entry, count, (whole - 1) as nat);
    }
}

} // verus!
