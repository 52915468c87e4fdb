//! Ordered maps keyed by country, side or formation.

use std::collections::{BTreeMap, BTreeSet};
use vstd::prelude::*;
use vstd::std_specs::btree::increasing_seq;
use vstd::std_specs::iter::IteratorSpec;
use crate::order::{
    lemma_push_contains, lemma_strictly_sorted_unique, sort_unique, strictly_sorted, Keyed,
};

verus! {

proof fn lemma_ascending(keys: Seq<u16>)
    requires
        increasing_seq(keys),
    ensures
        forall|i: int, j: int|
            #![trigger keys[i], keys[j]]
            0 <= i < j < keys.len() ==> keys[i] < keys[j],
{
    broadcast use vstd::std_specs::btree::group_btree_axioms;

    assert forall|i: int, j: int| #![trigger keys[i], keys[j]] 0 <= i < j
        < keys.len() implies keys[i] < keys[j] by {
        assert(vstd::std_specs::cmp::OrdSpec::cmp_spec(&keys[i], &keys[j]) is Less);
    }
}

/// The keys of a country map in ascending order.
pub fn country_keys<V>(map: &BTreeMap<u16, V>) -> (keys: Vec<u16>)
    ensures
        strictly_sorted(keys@),
        keys@.to_set() == map@.dom(),
        keys@.len() == map@.dom().len(),
{
    broadcast use vstd::std_specs::btree::group_btree_axioms;

    let mut keys: Vec<u16> = Vec::new();
    let items = map.iter();
    let ghost pairs = items.remaining();
    let ghost ordered = pairs.map_values(|kv: (&u16, &V)| *kv.0);
    proof {
        lemma_ascending(ordered);
    }
    for entry in it: items
        invariant
            it.seq() == pairs,
            keys@.len() == it.index(),
            ordered == pairs.map_values(|kv: (&u16, &V)| *kv.0),
            keys@ == ordered.take(it.index()),
    {
        keys.push(*entry.0);
        assert(keys@ =~= ordered.take(it.index() + 1));
    }
    proof {
        assert(keys@ =~= ordered);
        assert(strictly_sorted(keys@));
        assert(keys@.to_set() =~= map@.dom()) by {
            assert forall|key: u16| keys@.to_set().contains(key) <==> map@.dom().contains(key) by {
                if keys@.contains(key) {
                    let i = choose|i: int| 0 <= i < keys@.len() && keys@[i] == key;
                    assert(map@.contains_key(*pairs[i].0));
                }
                if map@.contains_key(key) {
                    assert(pairs.contains((&key, &map@[key])));
                    let i = choose|i: int| 0 <= i < pairs.len() && pairs[i] == (&key, &map@[key]);
                    assert(keys@[i] == key);
                }
            }
        }
    }
    keys
}

proof fn lemma_ascending_u64(keys: Seq<u64>)
    requires
        increasing_seq(keys),
    ensures
        forall|i: int, j: int|
            #![trigger keys[i], keys[j]]
            0 <= i < j < keys.len() ==> keys[i] < keys[j],
{
    broadcast use vstd::std_specs::btree::group_btree_axioms;

    assert forall|i: int, j: int| #![trigger keys[i], keys[j]] 0 <= i < j
        < keys.len() implies keys[i] < keys[j] by {
        assert(vstd::std_specs::cmp::OrdSpec::cmp_spec(&keys[i], &keys[j]) is Less);
    }
}

/// The keys of a formation map in ascending order.
pub fn formation_keys<V>(map: &BTreeMap<u64, V>) -> (keys: Vec<u64>)
    ensures
        strictly_sorted(keys@),
        keys@.to_set() == map@.dom(),
        keys@.len() == map@.dom().len(),
{
    broadcast use vstd::std_specs::btree::group_btree_axioms;

    let mut keys: Vec<u64> = Vec::new();
    let items = map.iter();
    let ghost pairs = items.remaining();
    let ghost ordered = pairs.map_values(|kv: (&u64, &V)| *kv.0);
    proof {
        lemma_ascending_u64(ordered);
    }
    for entry in it: items
        invariant
            it.seq() == pairs,
            keys@.len() == it.index(),
            ordered == pairs.map_values(|kv: (&u64, &V)| *kv.0),
            keys@ == ordered.take(it.index()),
    {
        keys.push(*entry.0);
        assert(keys@ =~= ordered.take(it.index() + 1));
    }
    proof {
        assert(keys@ =~= ordered);
        assert(strictly_sorted(keys@));
        assert(keys@.to_set() =~= map@.dom()) by {
            assert forall|key: u64| keys@.to_set().contains(key) <==> map@.dom().contains(key) by {
                if keys@.contains(key) {
                    let i = choose|i: int| 0 <= i < keys@.len() && keys@[i] == key;
                    assert(map@.contains_key(*pairs[i].0));
                }
                if map@.contains_key(key) {
                    assert(pairs.contains((&key, &map@[key])));
                    let i = choose|i: int| 0 <= i < pairs.len() && pairs[i] == (&key, &map@[key]);
                    assert(keys@[i] == key);
                }
            }
        }
    }
    keys
}

proof fn lemma_ascending_usize(keys: Seq<usize>)
    requires
        increasing_seq(keys),
    ensures
        forall|i: int, j: int|
            #![trigger keys[i], keys[j]]
            0 <= i < j < keys.len() ==> keys[i] < keys[j],
{
    broadcast use vstd::std_specs::btree::group_btree_axioms;

    assert forall|i: int, j: int| #![trigger keys[i], keys[j]] 0 <= i < j
        < keys.len() implies keys[i] < keys[j] by {
        assert(vstd::std_specs::cmp::OrdSpec::cmp_spec(&keys[i], &keys[j]) is Less);
    }
}

/// The keys of a side map in ascending order.
pub fn side_keys<V>(map: &BTreeMap<usize, V>) -> (keys: Vec<usize>)
    ensures
        strictly_sorted(keys@),
        keys@.to_set() == map@.dom(),
        keys@.len() == map@.dom().len(),
{
    broadcast use vstd::std_specs::btree::group_btree_axioms;

    let mut keys: Vec<usize> = Vec::new();
    let items = map.iter();
    let ghost pairs = items.remaining();
    let ghost ordered = pairs.map_values(|kv: (&usize, &V)| *kv.0);
    proof {
        lemma_ascending_usize(ordered);
    }
    for entry in it: items
        invariant
            it.seq() == pairs,
            keys@.len() == it.index(),
            ordered == pairs.map_values(|kv: (&usize, &V)| *kv.0),
            keys@ == ordered.take(it.index()),
    {
        keys.push(*entry.0);
        assert(keys@ =~= ordered.take(it.index() + 1));
    }
    proof {
        assert(keys@ =~= ordered);
        assert(strictly_sorted(keys@));
        assert(keys@.to_set() =~= map@.dom()) by {
            assert forall|key: usize| keys@.to_set().contains(key) <==> map@.dom().contains(key) by {
                if keys@.contains(key) {
                    let i = choose|i: int| 0 <= i < keys@.len() && keys@[i] == key;
                    assert(map@.contains_key(*pairs[i].0));
                }
                if map@.contains_key(key) {
                    assert(pairs.contains((&key, &map@[key])));
                    let i = choose|i: int| 0 <= i < pairs.len() && pairs[i] == (&key, &map@[key]);
                    assert(keys@[i] == key);
                }
            }
        }
    }
    keys
}

/// Both maps have the same countries.
pub fn same_countries<A, B>(left: &BTreeMap<u16, A>, right: &BTreeMap<u16, B>) -> (answer: bool)
    ensures
        answer == (left@.dom() == right@.dom()),
{
    broadcast use vstd::std_specs::btree::group_btree_axioms;

    let left_keys = country_keys(left);
    let right_keys = country_keys(right);
    same_ids(&left_keys, &right_keys)
}

/// Two ascending lists have the same members exactly when they are the same list.
pub fn same_ids(left: &Vec<u16>, right: &Vec<u16>) -> (answer: bool)
    requires
        strictly_sorted(left@),
        strictly_sorted(right@),
    ensures
        answer == (left@.to_set() == right@.to_set()),
        answer == (left@ == right@),
{
    let answer = equal_ids(left, right);
    proof {
        if left@.to_set() == right@.to_set() {
            assert forall|id: u16| left@.contains(id) <==> right@.contains(id) by {
                assert(left@.to_set().contains(id) <==> right@.to_set().contains(id));
            }
            lemma_strictly_sorted_unique(left@, right@);
        }
    }
    answer
}

/// Both lists hold the same in the same order.
pub fn equal_ids(left: &Vec<u16>, right: &Vec<u16>) -> (answer: bool)
    ensures
        answer == (left@ == right@),
{
    if left.len() != right.len() {
        return false;
    }
    let mut index: usize = 0;
    while index < left.len()
        invariant
            index <= left@.len(),
            left@.len() == right@.len(),
            forall|i: int| 0 <= i < index ==> left@[i] == right@[i],
        decreases left@.len() - index,
    {
        if left[index] != right[index] {
            return false;
        }
        index = index + 1;
    }
    assert(left@ =~= right@);
    true
}

/// The keys of a map in ascending order.
pub open spec fn ascending<T: Keyed>(keys: Set<T>) -> Seq<T> {
    choose|ordered: Seq<T>| strictly_sorted(ordered) && ordered.to_set() == keys
}

spec fn listed_below(keys: Set<u16>, count: nat) -> Seq<u16>
    decreases count,
{
    if count == 0 {
        Seq::empty()
    } else {
        let rest = listed_below(keys, (count - 1) as nat);
        if keys.contains((count - 1) as u16) {
            rest.push((count - 1) as u16)
        } else {
            rest
        }
    }
}

proof fn lemma_listed_below(keys: Set<u16>, count: nat)
    requires
        count <= 0x1_0000,
    ensures
        strictly_sorted(listed_below(keys, count)),
        forall|key: u16| #[trigger]
            listed_below(keys, count).contains(key) <==> keys.contains(key) && key < count,
    decreases count,
{
    if count > 0 {
        let rest = listed_below(keys, (count - 1) as nat);
        let last = (count - 1) as u16;
        lemma_listed_below(keys, (count - 1) as nat);
        assert forall|i: int| 0 <= i < rest.len() implies #[trigger] rest[i] < last by {
            assert(rest.contains(rest[i]));
        }
        assert forall|key: u16| #[trigger] listed_below(keys, count).contains(key)
            <==> keys.contains(key) && key < count by {
            lemma_push_contains(rest, last, key);
            assert(rest.contains(key) <==> keys.contains(key) && key < count - 1);
        }
    }
}

/// Every set of countries has an ascending order.
pub proof fn countries_can_be_ordered(keys: Set<u16>)
    ensures
        strictly_sorted(ascending(keys)),
        ascending(keys).to_set() == keys,
{
    let ordered = listed_below(keys, 0x1_0000);
    lemma_listed_below(keys, 0x1_0000);
    assert(ordered.to_set() =~= keys) by {
        assert forall|key: u16| ordered.to_set().contains(key) <==> keys.contains(key) by {
            assert(ordered.contains(key) <==> keys.contains(key));
        }
    }
    assert(strictly_sorted(ordered) && ordered.to_set() == keys);
}

/// There is only one ascending order.
pub proof fn lemma_only_ascending<T: Keyed>(ordered: Seq<T>)
    requires
        strictly_sorted(ordered),
    ensures
        ascending(ordered.to_set()) == ordered,
{
    let other = ascending(ordered.to_set());
    assert(strictly_sorted(other) && other.to_set() == ordered.to_set());
    assert forall|item: T| other.contains(item) <==> ordered.contains(item) by {
        assert(other.to_set().contains(item) == ordered.to_set().contains(item));
    }
    lemma_strictly_sorted_unique(other, ordered);
}

/// The keys of a country map in ascending order, and nothing else.
pub fn ordered_countries<V>(map: &BTreeMap<u16, V>) -> (keys: Vec<u16>)
    ensures
        keys@ == ascending(map@.dom()),
        strictly_sorted(keys@),
        keys@.len() == map@.dom().len(),
        forall|i: int| 0 <= i < keys@.len() ==> map@.contains_key(#[trigger] keys@[i]),
        forall|key: u16| #[trigger] map@.contains_key(key) ==> keys@.contains(key),
{
    let keys = country_keys(map);
    proof {
        lemma_only_ascending(keys@);
        assert forall|i: int| 0 <= i < keys@.len() implies map@.contains_key(
            #[trigger] keys@[i],
        ) by {
            assert(keys@.to_set().contains(keys@[i]));
        }
        assert forall|key: u16| #[trigger] map@.contains_key(key) implies keys@.contains(key) by {
            assert(keys@.to_set().contains(key));
        }
    }
    keys
}

/// The keys of a side map in ascending order, and nothing else.
pub fn ordered_sides<V>(map: &BTreeMap<usize, V>) -> (keys: Vec<usize>)
    ensures
        keys@ == ascending(map@.dom()),
        strictly_sorted(keys@),
        keys@.len() == map@.dom().len(),
        forall|i: int| 0 <= i < keys@.len() ==> map@.contains_key(#[trigger] keys@[i]),
        forall|key: usize| #[trigger] map@.contains_key(key) ==> keys@.contains(key),
{
    let keys = side_keys(map);
    proof {
        lemma_only_ascending(keys@);
        assert forall|i: int| 0 <= i < keys@.len() implies map@.contains_key(
            #[trigger] keys@[i],
        ) by {
            assert(keys@.to_set().contains(keys@[i]));
        }
        assert forall|key: usize| #[trigger] map@.contains_key(key) implies keys@.contains(key) by {
            assert(keys@.to_set().contains(key));
        }
    }
    keys
}

/// The members of a set of countries, in some order.
pub fn country_members(set: &BTreeSet<u16>) -> (members: Vec<u16>)
    ensures
        forall|member: u16| #[trigger] members@.contains(member) == set@.contains(member),
{
    broadcast use vstd::std_specs::btree::group_btree_axioms;

    let mut members: Vec<u16> = Vec::new();
    let items = set.iter();
    let ghost all = items.remaining();
    for entry in it: items
        invariant
            it.seq() == all,
            members@.len() == it.index(),
            members@ == all.unref().take(it.index()),
    {
        members.push(*entry);
        assert(members@ =~= all.unref().take(it.index() + 1));
    }
    proof {
        assert(members@ =~= all.unref());
        assert forall|member: u16| #[trigger] members@.contains(member) == set@.contains(
            member,
        ) by {
            assert(members@.to_set().contains(member) == set@.contains(member));
        }
    }
    members
}

/// The members of a set of units, in some order.
pub fn unit_members(set: &BTreeSet<u64>) -> (members: Vec<u64>)
    ensures
        forall|member: u64| #[trigger] members@.contains(member) == set@.contains(member),
{
    broadcast use vstd::std_specs::btree::group_btree_axioms;

    let mut members: Vec<u64> = Vec::new();
    let items = set.iter();
    let ghost all = items.remaining();
    for entry in it: items
        invariant
            it.seq() == all,
            members@.len() == it.index(),
            members@ == all.unref().take(it.index()),
    {
        members.push(*entry);
        assert(members@ =~= all.unref().take(it.index() + 1));
    }
    proof {
        assert(members@ =~= all.unref());
        assert forall|member: u64| #[trigger] members@.contains(member) == set@.contains(
            member,
        ) by {
            assert(members@.to_set().contains(member) == set@.contains(member));
        }
    }
    members
}

/// The members of a set of units in ascending order.
pub fn ordered_units(set: &BTreeSet<u64>) -> (members: Vec<u64>)
    ensures
        strictly_sorted(members@),
        members@ == ascending(set@),
        forall|member: u64| #[trigger] members@.contains(member) == set@.contains(member),
{
    let members = sort_unique(unit_members(set));
    proof {
        assert(members@.to_set() =~= set@) by {
            assert forall|member: u64| members@.to_set().contains(member) == set@.contains(
                member,
            ) by {
                assert(members@.contains(member) == set@.contains(member));
            }
        }
        lemma_only_ascending(members@);
    }
    members
}

} // verus!
