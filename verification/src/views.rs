//! Sequences of values that are known by what they show.

use vstd::prelude::*;

verus! {

/// How a value shows itself.
pub open spec fn shown<T: View>() -> spec_fn(T) -> T::V {
    |item: T| item@
}

/// What a sequence of values shows.
pub open spec fn views<T: View>(items: Seq<T>) -> Seq<T::V> {
    items.map_values(shown::<T>())
}

/// Values that can be copied as far as they show.
pub trait Replica: View + Sized {
    fn replica(&self) -> (copy: Self)
        ensures
            copy@ == self@,
    ;
}

pub fn replicas<T: Replica>(items: &Vec<T>) -> (copies: Vec<T>)
    ensures
        views(copies@) == views(items@),
{
    let mut copies: Vec<T> = Vec::new();
    let mut at: usize = 0;
    while at < items.len()
        invariant
            at <= items@.len(),
            copies@.len() == at,
            forall|i: int| 0 <= i < at ==> (#[trigger] copies@[i])@ == items@[i]@,
        decreases items@.len() - at,
    {
        copies.push(items[at].replica());
        at = at + 1;
    }
    proof {
        assert(views(copies@) =~= views(items@));
    }
    copies
}

pub proof fn lemma_views_push<T: View>(items: Seq<T>, item: T)
    ensures
        views(items.push(item)) == views(items).push(item@),
{
    assert(views(items.push(item)) =~= views(items).push(item@));
}

pub proof fn lemma_views_update<T: View>(items: Seq<T>, at: int, item: T)
    requires
        0 <= at < items.len(),
    ensures
        views(items.update(at, item)) == views(items).update(at, item@),
{
    assert(views(items.update(at, item)) =~= views(items).update(at, item@));
}

} // verus!
