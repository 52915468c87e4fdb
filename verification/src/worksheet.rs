//! Arithmetic on demand.
//!
//! The library decides; it does not add or multiply binary64 numbers. A computation that needs
//! the result of such an operation looks it up in a [`Worksheet`]. Where the result is not there
//! yet, the computation stops without having changed anything and names the [`Operation`]; the
//! caller evaluates it, records the result and runs the computation again. Computations over many
//! independent items gather everything they lack in one pass.
//!
//! Beside each computation stands a predicate on worksheets, named after what is supplied: a
//! worksheet of which it holds has all that the computation takes, and then the computation lacks
//! nothing.

use std::collections::BTreeMap;
use vstd::prelude::*;
use crate::scalar::{real_of, Real};

verus! {

/// One arithmetic operation. The result is the bit pattern of a number, except where an integer
/// is named.
#[derive(Clone, Copy, Debug, PartialEq, Eq, Structural)]
pub enum Operation {
    /// The number nearest to an integer.
    Integer(u64),
    Sum(Real, Real),
    Difference(Real, Real),
    Product(Real, Real),
    Quotient(Real, Real),
    /// The largest whole number not above.
    Floor(Real),
    /// The smallest whole number not below.
    Ceiling(Real),
    /// The first number raised to the second.
    Power(Real, Real),
    /// The largest integer not above, between zero and the largest 64-bit integer. The result is
    /// that integer.
    Whole(Real),
    /// The nearest whole number, halves away from zero.
    Round(Real),
    /// The square root.
    Root(Real),
    /// The length of a vector with two given components.
    Hypotenuse(Real, Real),
    /// The shorter way around the globe from one longitude to another, in degrees.
    LongitudeDelta(Real, Real),
    /// Great-circle distance in kilometres from one latitude and longitude to another.
    Distance(Real, Real, Real, Real),
    /// What is left of the first number after whole multiples of the second, with the sign of the
    /// first.
    Remainder(Real, Real),
    /// The integer towards zero, kept within 64 bits with a sign. The result is that integer in
    /// two's complement.
    Signed(Real),
    Sine(Real),
    Cosine(Real),
    /// The integer towards zero, modulo two to the 32nd. The result is that integer.
    Wrapped(Real),
    /// The nearest number of single precision.
    Single(Real),
}

#[derive(Clone, Copy, Debug, PartialEq, Eq, Structural)]
pub struct Entry {
    pub operation: Operation,
    pub result: u64,
}

/// Results of operations that the caller has evaluated.
pub struct Worksheet {
    entries: Vec<Entry>,
    /// Positions of entries by digest.
    index: BTreeMap<u64, Vec<usize>>,
}

pub open spec fn mixed(digest: u64, word: u64) -> u64 {
    (digest ^ word).wrapping_mul(0x0000_0100_0000_01b3)
}

fn mix(digest: u64, word: u64) -> (next: u64)
    ensures
        next == mixed(digest, word),
{
    (digest ^ word).wrapping_mul(0x0000_0100_0000_01b3)
}

/// A number that spreads operations over the index. Operations may share one.
pub open spec fn digest_of(operation: Operation) -> u64 {
    match operation {
        Operation::Integer(a) => mixed(1, a),
        Operation::Sum(a, b) => mixed(mixed(2, a.bits), b.bits),
        Operation::Difference(a, b) => mixed(mixed(3, a.bits), b.bits),
        Operation::Product(a, b) => mixed(mixed(4, a.bits), b.bits),
        Operation::Quotient(a, b) => mixed(mixed(5, a.bits), b.bits),
        Operation::Floor(a) => mixed(6, a.bits),
        Operation::Ceiling(a) => mixed(7, a.bits),
        Operation::Power(a, b) => mixed(mixed(8, a.bits), b.bits),
        Operation::Whole(a) => mixed(9, a.bits),
        Operation::Round(a) => mixed(10, a.bits),
        Operation::Root(a) => mixed(11, a.bits),
        Operation::Hypotenuse(a, b) => mixed(mixed(12, a.bits), b.bits),
        Operation::LongitudeDelta(a, b) => mixed(mixed(13, a.bits), b.bits),
        Operation::Distance(a, b, c, d) => mixed(
            mixed(mixed(mixed(14, a.bits), b.bits), c.bits),
            d.bits,
        ),
        Operation::Remainder(a, b) => mixed(mixed(15, a.bits), b.bits),
        Operation::Signed(a) => mixed(16, a.bits),
        Operation::Sine(a) => mixed(17, a.bits),
        Operation::Cosine(a) => mixed(18, a.bits),
        Operation::Wrapped(a) => mixed(19, a.bits),
        Operation::Single(a) => mixed(20, a.bits),
    }
}

fn digest(operation: Operation) -> (digest: u64)
    ensures
        digest == digest_of(operation),
{
    match operation {
        Operation::Integer(a) => mix(1, a),
        Operation::Sum(a, b) => mix(mix(2, a.bits), b.bits),
        Operation::Difference(a, b) => mix(mix(3, a.bits), b.bits),
        Operation::Product(a, b) => mix(mix(4, a.bits), b.bits),
        Operation::Quotient(a, b) => mix(mix(5, a.bits), b.bits),
        Operation::Floor(a) => mix(6, a.bits),
        Operation::Ceiling(a) => mix(7, a.bits),
        Operation::Power(a, b) => mix(mix(8, a.bits), b.bits),
        Operation::Whole(a) => mix(9, a.bits),
        Operation::Round(a) => mix(10, a.bits),
        Operation::Root(a) => mix(11, a.bits),
        Operation::Hypotenuse(a, b) => mix(mix(12, a.bits), b.bits),
        Operation::LongitudeDelta(a, b) => mix(mix(13, a.bits), b.bits),
        Operation::Distance(a, b, c, d) => mix(
            mix(mix(mix(14, a.bits), b.bits), c.bits),
            d.bits,
        ),
        Operation::Remainder(a, b) => mix(mix(15, a.bits), b.bits),
        Operation::Signed(a) => mix(16, a.bits),
        Operation::Sine(a) => mix(17, a.bits),
        Operation::Cosine(a) => mix(18, a.bits),
        Operation::Wrapped(a) => mix(19, a.bits),
        Operation::Single(a) => mix(20, a.bits),
    }
}

/// Every entry is found under its digest, and the index names no position that is not there.
pub closed spec fn indexes_all(entries: Seq<Entry>, index: Map<u64, Vec<usize>>) -> bool {
    &&& forall|i: int|
        #![trigger entries[i]]
        0 <= i < entries.len() ==> index.contains_key(digest_of(entries[i].operation))
            && index[digest_of(entries[i].operation)]@.contains(i as usize)
    &&& forall|key: u64, k: int|
        #![trigger index[key]@[k]]
        index.contains_key(key) && 0 <= k < index[key]@.len() ==> index[key]@[k] < entries.len()
}

pub closed spec fn one_result_each(entries: Seq<Entry>) -> bool {
    forall|i: int, j: int|
        #![trigger entries[i], entries[j]]
        0 <= i < j < entries.len() ==> entries[i].operation != entries[j].operation
}

pub closed spec fn results_of(entries: Seq<Entry>) -> Map<Operation, u64>
    decreases entries.len(),
{
    if entries.len() == 0 {
        Map::empty()
    } else {
        results_of(entries.drop_last()).insert(entries.last().operation, entries.last().result)
    }
}

proof fn lemma_results(entries: Seq<Entry>)
    requires
        one_result_each(entries),
    ensures
        forall|i: int|
            #![trigger entries[i]]
            0 <= i < entries.len() ==> results_of(entries).contains_key(entries[i].operation)
                && results_of(entries)[entries[i].operation] == entries[i].result,
        forall|operation: Operation| #[trigger]
            results_of(entries).contains_key(operation) ==> exists|i: int|
                0 <= i < entries.len() && (#[trigger] entries[i]).operation == operation,
    decreases entries.len(),
{
    if entries.len() > 0 {
        let shorter = entries.drop_last();
        assert(one_result_each(shorter)) by {
            assert forall|i: int, j: int| #![trigger shorter[i], shorter[j]] 0 <= i < j
                < shorter.len() implies shorter[i].operation != shorter[j].operation by {
                assert(entries[i].operation != entries[j].operation);
            }
        }
        lemma_results(shorter);
        assert forall|i: int| #![trigger entries[i]] 0 <= i < entries.len() implies results_of(
            entries,
        ).contains_key(entries[i].operation) && results_of(entries)[entries[i].operation]
            == entries[i].result by {
            if i < shorter.len() {
                assert(shorter[i] == entries[i]);
                assert(entries[i].operation != entries[entries.len() - 1].operation);
            }
        }
        assert forall|operation: Operation| #[trigger]
            results_of(entries).contains_key(operation) implies exists|i: int|
            0 <= i < entries.len() && (#[trigger] entries[i]).operation == operation by {
            if results_of(shorter).contains_key(operation) {
                let i = choose|i: int|
                    0 <= i < shorter.len() && (#[trigger] shorter[i]).operation == operation;
                assert(entries[i].operation == operation);
            } else {
                assert(entries[entries.len() - 1].operation == operation);
            }
        }
    }
}

impl View for Worksheet {
    type V = Map<Operation, u64>;

    closed spec fn view(&self) -> Map<Operation, u64> {
        results_of(self.entries@)
    }
}

impl Worksheet {
    #[verifier::type_invariant]
    spec fn consistent(self) -> bool {
        one_result_each(self.entries@) && indexes_all(self.entries@, self.index@)
    }

    pub fn new() -> (sheet: Worksheet)
        ensures
            sheet@ == Map::<Operation, u64>::empty(),
    {
        Worksheet { entries: Vec::new(), index: BTreeMap::new() }
    }

    fn position_of(&self, operation: Operation) -> (found: Option<usize>)
        ensures
            found matches Some(at) ==> at < self.entries@.len() && self.entries@[at as int].operation
                == operation,
            found is None ==> forall|i: int|
                0 <= i < self.entries@.len() ==> (#[trigger] self.entries@[i]).operation
                    != operation,
    {
        broadcast use vstd::std_specs::btree::group_btree_axioms;

        proof {
            use_type_invariant(self);
        }
        let key: u64 = digest(operation);
        match self.index.get(&key) {
            None => None,
            Some(bucket) => {
                let mut slot: usize = 0;
                while slot < bucket.len()
                    invariant
                        slot <= bucket@.len(),
                        one_result_each(self.entries@) && indexes_all(self.entries@, self.index@),
                        self.index@.contains_key(key) && self.index@[key] == *bucket,
                        forall|k: int|
                            0 <= k < slot ==> self.entries@[(#[trigger] bucket@[k]) as int].operation
                                != operation,
                    decreases bucket@.len() - slot,
                {
                    let at: usize = bucket[slot];
                    assert(self.index@[key]@[slot as int] == at);
                    if self.entries[at].operation == operation {
                        return Some(at);
                    }
                    slot = slot + 1;
                }
                proof {
                    assert forall|i: int| 0 <= i < self.entries@.len() implies (
                    #[trigger] self.entries@[i]).operation != operation by {
                        if self.entries@[i].operation == operation {
                            assert(bucket@.contains(i as usize));
                            let k = choose|k: int|
                                0 <= k < bucket@.len() && bucket@[k] == i as usize;
                            assert(self.entries@[bucket@[k] as int].operation != operation);
                            assert(self.entries@.len() == self.entries.len());
                        }
                    }
                }
                None
            },
        }
    }

    /// Write down a result. A result that is already there stays.
    pub fn record(&mut self, operation: Operation, result: u64)
        ensures
            final(self)@ == (if old(self)@.contains_key(operation) {
                old(self)@
            } else {
                old(self)@.insert(operation, result)
            }),
    {
        broadcast use vstd::std_specs::btree::group_btree_axioms;

        proof {
            use_type_invariant(&*self);
            lemma_results(self.entries@);
        }
        let known = self.position_of(operation);
        if known.is_none() {
            let mut sheet = Worksheet { entries: Vec::new(), index: BTreeMap::new() };
            core::mem::swap(self, &mut sheet);
            proof {
                use_type_invariant(&sheet);
            }
            let mut entries = sheet.entries;
            let mut index = sheet.index;
            let ghost before = entries@;
            let ghost old_index = index@;
            let at: usize = entries.len();
            let key: u64 = digest(operation);
            let mut bucket: Vec<usize> = match index.remove(&key) {
                Some(bucket) => bucket,
                None => Vec::new(),
            };
            let ghost old_bucket = bucket@;
            bucket.push(at);
            let ghost new_bucket = bucket;
            index.insert(key, bucket);
            entries.push(Entry { operation, result });
            proof {
                assert(index@ =~= old_index.insert(key, new_bucket));
                assert(entries@.drop_last() =~= before);
                assert forall|i: int, j: int| #![trigger entries@[i], entries@[j]] 0 <= i < j
                    < entries@.len() implies entries@[i].operation != entries@[j].operation by {
                    if j < before.len() {
                        assert(before[i].operation != before[j].operation);
                    } else {
                        assert(before[i].operation != operation);
                    }
                }
                assert(one_result_each(entries@));
                assert forall|i: int| #![trigger entries@[i]] 0 <= i < entries@.len() implies
                    index@.contains_key(digest_of(entries@[i].operation))
                    && index@[digest_of(entries@[i].operation)]@.contains(i as usize) by {
                    if i < before.len() {
                        assert(before[i] == entries@[i]);
                        let own = digest_of(before[i].operation);
                        assert(old_index[own]@.contains(i as usize));
                        if own == key {
                            let k = choose|k: int|
                                0 <= k < old_bucket.len() && old_bucket[k] == i as usize;
                            assert(new_bucket@[k] == i as usize);
                        }
                    } else {
                        assert(new_bucket@[old_bucket.len() as int] == at);
                    }
                }
                assert forall|other: u64, k: int| #![trigger index@[other]@[k]]
                    index@.contains_key(other) && 0 <= k < index@[other]@.len() implies
                    index@[other]@[k] < entries@.len() by {
                    if other != key {
                        assert(old_index[other]@[k] < before.len());
                    } else if k < old_bucket.len() {
                        assert(old_index[key]@[k] < before.len());
                    }
                }
                assert(indexes_all(entries@, index@));
            }
            let mut next = Worksheet { entries, index };
            core::mem::swap(self, &mut next);
        }
    }

    /// Start reading.
    pub fn reader(&self) -> (reader: Reader<'_>)
        ensures
            reader@ == self@,
            reader.complete(),
            reader.sound(),
    {
        Reader { sheet: self, missing: Vec::new() }
    }
}

/// Reads a worksheet and keeps track of what it lacks.
pub struct Reader<'a> {
    sheet: &'a Worksheet,
    missing: Vec<Operation>,
}

impl<'a> View for Reader<'a> {
    type V = Map<Operation, u64>;

    closed spec fn view(&self) -> Map<Operation, u64> {
        self.sheet@
    }
}

impl<'a> Reader<'a> {
    /// Nothing was lacking so far.
    pub closed spec fn complete(&self) -> bool {
        self.missing@.len() == 0
    }

    /// What is kept as lacking is lacking.
    pub closed spec fn sound(&self) -> bool {
        forall|i: int|
            #![trigger self.missing@[i]]
            0 <= i < self.missing@.len() ==> !self.sheet@.contains_key(self.missing@[i])
    }

    /// The recorded result, or the operation that has none.
    pub fn look_up(&mut self, operation: Operation) -> (answer: Result<u64, Operation>)
        ensures
            final(self)@ == old(self)@,
            final(self).complete() == old(self).complete(),
            final(self).sound() == old(self).sound(),
            answer matches Ok(result) ==> old(self)@.contains_key(operation)
                && old(self)@[operation] == result,
            answer matches Err(missing) ==> missing == operation && !old(self)@.contains_key(
                operation,
            ),
    {
        proof {
            use_type_invariant(self.sheet);
            lemma_results(self.sheet.entries@);
        }
        match self.sheet.position_of(operation) {
            Some(at) => Ok(self.sheet.entries[at].result),
            None => Err(operation),
        }
    }

    /// The recorded number.
    pub fn number(&mut self, operation: Operation) -> (answer: Result<Real, Operation>)
        ensures
            final(self)@ == old(self)@,
            final(self).complete() == old(self).complete(),
            final(self).sound() == old(self).sound(),
            answer matches Ok(result) ==> old(self)@.contains_key(operation) && result == number_at(
                old(self)@,
                operation,
            ),
            answer matches Err(missing) ==> missing == operation && !old(self)@.contains_key(
                operation,
            ),
    {
        match self.look_up(operation) {
            Ok(result) => Ok(Real::from_bits(result)),
            Err(missing) => Err(missing),
        }
    }

    /// The recorded result. Where there is none, the operation is noted and zero stands in; the
    /// result then counts for nothing.
    pub fn gather(&mut self, operation: Operation) -> (result: u64)
        requires
            old(self).sound(),
        ensures
            final(self)@ == old(self)@,
            final(self).sound(),
            final(self).complete() ==> result == old(self)@[operation],
            final(self).complete() <==> old(self).complete() && old(self)@.contains_key(operation),
    {
        match self.look_up(operation) {
            Ok(result) => result,
            Err(missing) => {
                self.missing.push(missing);
                0
            },
        }
    }

    /// The recorded number, gathered like [`Reader::gather`].
    pub fn gather_number(&mut self, operation: Operation) -> (result: Real)
        requires
            old(self).sound(),
        ensures
            final(self)@ == old(self)@,
            final(self).sound(),
            final(self).complete() ==> result == number_at(old(self)@, operation),
            final(self).complete() <==> old(self).complete() && old(self)@.contains_key(operation),
    {
        Real::from_bits(self.gather(operation))
    }

    /// The sum of two numbers, gathered.
    pub fn sum(&mut self, left: Real, right: Real) -> (result: Real)
        requires
            old(self).sound(),
        ensures
            final(self)@ == old(self)@,
            final(self).sound(),
            final(self).complete() ==> result == sum(old(self)@, left, right),
            final(self).complete() <==> old(self).complete() && old(self)@.contains_key(
                Operation::Sum(left, right),
            ),
    {
        self.gather_number(Operation::Sum(left, right))
    }

    /// The difference of two numbers, gathered.
    pub fn difference(&mut self, left: Real, right: Real) -> (result: Real)
        requires
            old(self).sound(),
        ensures
            final(self)@ == old(self)@,
            final(self).sound(),
            final(self).complete() ==> result == difference(old(self)@, left, right),
            final(self).complete() <==> old(self).complete() && old(self)@.contains_key(
                Operation::Difference(left, right),
            ),
    {
        self.gather_number(Operation::Difference(left, right))
    }

    /// The product of two numbers, gathered.
    pub fn product(&mut self, left: Real, right: Real) -> (result: Real)
        requires
            old(self).sound(),
        ensures
            final(self)@ == old(self)@,
            final(self).sound(),
            final(self).complete() ==> result == product(old(self)@, left, right),
            final(self).complete() <==> old(self).complete() && old(self)@.contains_key(
                Operation::Product(left, right),
            ),
    {
        self.gather_number(Operation::Product(left, right))
    }

    /// The quotient of two numbers, gathered.
    pub fn quotient(&mut self, left: Real, right: Real) -> (result: Real)
        requires
            old(self).sound(),
        ensures
            final(self)@ == old(self)@,
            final(self).sound(),
            final(self).complete() ==> result == quotient(old(self)@, left, right),
            final(self).complete() <==> old(self).complete() && old(self)@.contains_key(
                Operation::Quotient(left, right),
            ),
    {
        self.gather_number(Operation::Quotient(left, right))
    }

    /// The way from one longitude to another, gathered.
    pub fn longitude_delta(&mut self, left: Real, right: Real) -> (result: Real)
        requires
            old(self).sound(),
        ensures
            final(self)@ == old(self)@,
            final(self).sound(),
            final(self).complete() ==> result == longitude_delta(old(self)@, left, right),
            final(self).complete() <==> old(self).complete() && old(self)@.contains_key(
                Operation::LongitudeDelta(left, right),
            ),
    {
        self.gather_number(Operation::LongitudeDelta(left, right))
    }

    /// An integer as a number, gathered.
    pub fn integer(&mut self, value: u64) -> (result: Real)
        requires
            old(self).sound(),
        ensures
            final(self)@ == old(self)@,
            final(self).sound(),
            final(self).complete() ==> result == integer(old(self)@, value),
            final(self).complete() <==> old(self).complete() && old(self)@.contains_key(
                Operation::Integer(value),
            ),
    {
        self.gather_number(Operation::Integer(value))
    }

    /// Whether nothing was lacking.
    pub fn is_complete(&self) -> (answer: bool)
        ensures
            answer == self.complete(),
    {
        self.missing.len() == 0
    }

    /// Everything that was lacking.
    pub fn into_missing(self) -> (missing: Vec<Operation>)
        requires
            self.sound(),
        ensures
            self.complete() <==> missing@.len() == 0,
            all_missing(missing@, self@),
    {
        self.missing
    }
}

/// Why a computation did not come to an end.
pub enum Stop<E> {
    /// It failed.
    Failed(E),
    /// It lacks the results of these operations.
    Missing(Vec<Operation>),
}

/// None of the operations has a result.
pub open spec fn all_missing(missing: Seq<Operation>, results: Map<Operation, u64>) -> bool {
    forall|i: int|
        #![trigger missing[i]]
        0 <= i < missing.len() ==> !results.contains_key(missing[i])
}

/// The number that a worksheet holds for an operation.
pub open spec fn number_at(results: Map<Operation, u64>, operation: Operation) -> Real {
    real_of(results[operation])
}

pub open spec fn sum(results: Map<Operation, u64>, left: Real, right: Real) -> Real {
    number_at(results, Operation::Sum(left, right))
}

pub open spec fn difference(results: Map<Operation, u64>, left: Real, right: Real) -> Real {
    number_at(results, Operation::Difference(left, right))
}

pub open spec fn product(results: Map<Operation, u64>, left: Real, right: Real) -> Real {
    number_at(results, Operation::Product(left, right))
}

pub open spec fn quotient(results: Map<Operation, u64>, left: Real, right: Real) -> Real {
    number_at(results, Operation::Quotient(left, right))
}

pub open spec fn longitude_delta(results: Map<Operation, u64>, from: Real, to: Real) -> Real {
    number_at(results, Operation::LongitudeDelta(from, to))
}

pub open spec fn integer(results: Map<Operation, u64>, value: u64) -> Real {
    number_at(results, Operation::Integer(value))
}

} // verus!
