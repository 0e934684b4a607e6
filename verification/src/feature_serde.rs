//! The shape in which a set is written and read.
//!
//! A set is written as the sequence of its items, in declaration order, and
//! read back from a sequence of items. What carries the sequence (text,
//! bytes) is not decided here.

use vstd::prelude::*;
use crate::bits::bit;
use crate::flags::{item_bits, Flag, Flags, FlagsModel, FlagsRepr};
use crate::iter::Iter;

verus! {

/// What was found where a set was expected.
pub enum Encoded<I> {
    /// A sequence of items.
    Sequence(Vec<I>),
    /// A single value that is no sequence, such as a number.
    Scalar,
    /// A mapping from keys to values.
    Object,
}

/// Why a set could not be read.
#[derive(Clone, Copy, PartialEq, Eq, Structural, Debug)]
pub enum DecodeError {
    /// Something other than a sequence stood where the set was expected.
    ExpectedSequence,
}

/// Collects the items of a sequence into a set, one item at a time.
pub struct SetVisitor<T> {
    set: T,
}

impl<T: Flags> SetVisitor<T> {
    /// The set of the items seen so far.
    pub closed spec fn value(self) -> T {
        self.set
    }

    /// A visitor that has seen no item.
    pub fn new() -> (r: Self)
        ensures
            r.value() == T::spec_empty(),
            r.value().bits() == 0,
    {
        SetVisitor { set: T::empty() }
    }

    /// What the visitor reads, in words, for an error message.
    pub fn expecting(&self) -> (r: &'static str)
        ensures
            r@ == "a sequence of set items"@,
    {
        "a sequence of set items"
    }

    /// Takes the next item of the sequence.
    pub fn visit(&mut self, item: T::Item)
        ensures
            final(self).value() == old(self).value().spec_with(T::spec_from_item(item)),
            final(self).value().bits() == old(self).value().bits() | bit(item.position()),
    {
        let one = T::from_item(item);
        self.set.insert(one);
    }

    /// Takes all items of a sequence that was read as a whole.
    pub fn visit_seq(self, items: &[T::Item]) -> (r: T)
        ensures
            r.bits() == self.value().bits() | item_bits(items@),
            r == T::spec_from_bits(self.value().bits() | item_bits(items@)),
    {
        let rest = T::from_items(items);
        self.set.with(rest)
    }

    /// The set of all items seen.
    pub fn finish(self) -> (r: T)
        ensures
            r == self.value(),
    {
        self.set
    }
}

/// The sequence that stands for `set`: its items in declaration order, as
/// many as the set has.
pub fn serialize<T: Flags>(set: T) -> (r: Vec<T::Item>)
    ensures
        r@ == set.spec_items(),
        r@.len() == set.spec_len(),
{
    Iter::new(set).collect()
}

/// The set that a sequence of items stands for. Anything but a sequence is
/// refused.
pub fn deserialize<T: Flags>(input: Encoded<T::Item>) -> (r: Result<T, DecodeError>)
    ensures
        r.is_ok() <==> input is Sequence,
        r matches Ok(set) ==> input matches Encoded::Sequence(items) && set
            == T::spec_from_items(items@) && set.bits() == item_bits(items@),
        r matches Err(e) ==> e == DecodeError::ExpectedSequence,
{
    match input {
        Encoded::Sequence(items) => {
            let visitor = SetVisitor::<T>::new();
            let set = visitor.visit_seq(items.as_slice());
            proof {
                let m = item_bits(items@);
                assert(0u128 | m == m) by (bit_vector);
            }
            Ok(set)
        },
        Encoded::Scalar => Err(DecodeError::ExpectedSequence),
        Encoded::Object => Err(DecodeError::ExpectedSequence),
    }
}

} // verus!
