//! The set type and the item type of a domain of `N` items.

use vstd::prelude::*;
use vstd::std_specs::cmp::PartialEqSpecImpl;
use vstd::std_specs::convert::FromSpecImpl;
use crate::bits::{fits, mask_of_len, lemma_fits_basic};
use crate::flags::{Flag, Flags, FlagsModel, FlagsRepr};
use crate::iter::Iter;

verus! {

/// The item at one position of a domain of `N` items.
///
/// A domain has at most 128 items: where `N` is larger, the positions from
/// the 128th on have no item.
#[derive(Clone, Copy, Eq, PartialOrd, Ord, Hash, Debug)]
pub struct FlagItem<const N: usize> {
    offset: usize,
}

/// A set of items of a domain of `N` items, held as one bit pattern.
///
/// Its domain has `N` items, and 128 where `N` is larger.
#[derive(Clone, Copy, Eq, PartialOrd, Ord, Hash)]
pub struct FlagSet<const N: usize> {
    items: u128,
}

impl<const N: usize> FlagItem<N> {
    #[verifier::type_invariant]
    spec fn inv(self) -> bool {
        self.offset < N && self.offset < 128
    }

    /// The item at position `offset`, if the domain has one there.
    pub fn new(offset: usize) -> (r: Option<Self>)
        ensures
            r.is_some() <==> offset < N && offset < 128,
            r matches Some(item) ==> item.position() == offset,
            r matches Some(item) ==> item == FlagSet::<N>::spec_item_at(offset as nat),
    {
        if offset < N && offset < 128 {
            Some(FlagItem { offset })
        } else {
            None
        }
    }
}

impl<const N: usize> Flag for FlagItem<N> {
    closed spec fn position(self) -> nat {
        self.offset as nat
    }

    proof fn lemma_position_decides(self, other: Self) {
    }

    fn offset(self) -> (r: usize) {
        self.offset
    }
}

impl<const N: usize> PartialEq for FlagItem<N> {
    fn eq(&self, other: &Self) -> (r: bool) {
        self.offset == other.offset
    }
}

impl<const N: usize> PartialEqSpecImpl for FlagItem<N> {
    open spec fn obeys_eq_spec() -> bool {
        true
    }

    open spec fn eq_spec(&self, other: &Self) -> bool {
        self.position() == other.position()
    }
}

impl<const N: usize> FlagSet<N> {
    #[verifier::type_invariant]
    spec fn inv(self) -> bool {
        fits(self.items, Self::domain_len())
    }

    /// An iterator over the items of the set, which is left as it is.
    pub fn iter(&self) -> (r: Iter<Self>)
        ensures
            r.set() == *self,
            r.cursor() == 0,
            r.rest() == self.spec_items(),
            self.wf(),
    {
        Iter::new(*self)
    }

    /// An iterator over the items of the set.
    pub fn into_iter(self) -> (r: Iter<Self>)
        ensures
            r.set() == self,
            r.cursor() == 0,
            r.rest() == self.spec_items(),
            self.wf(),
    {
        Iter::new(self)
    }
}

impl<const N: usize> FlagsRepr for FlagSet<N> {
    type Item = FlagItem<N>;

    open spec fn domain_len() -> nat {
        if N <= 128 {
            N as nat
        } else {
            128
        }
    }

    closed spec fn bits(self) -> u128 {
        self.items
    }

    closed spec fn spec_from_bits(m: u128) -> Self {
        FlagSet { items: m }
    }

    closed spec fn spec_item_at(p: nat) -> FlagItem<N> {
        FlagItem { offset: p as usize }
    }

    proof fn lemma_domain_len() {
    }

    proof fn lemma_bits_decide(self, other: Self) {
    }

    proof fn lemma_from_bits(m: u128) {
    }

    proof fn lemma_item_at(p: nat) {
    }

    fn domain_size() -> (r: usize) {
        if N <= 128 {
            N
        } else {
            128
        }
    }

    fn to_bits(self) -> (r: u128) {
        proof {
            use_type_invariant(&self);
        }
        self.items
    }

    fn from_bits_truncate(m: u128) -> (r: Self) {
        proof {
            lemma_fits_basic(m, Self::domain_len());
        }
        FlagSet { items: m & mask_of_len(Self::domain_size()) }
    }

    fn item_code(item: FlagItem<N>) -> (r: u128) {
        proof {
            use_type_invariant(&item);
        }
        1u128 << item.offset
    }

    fn item_at(offset: usize) -> (r: Option<FlagItem<N>>) {
        FlagItem::new(offset)
    }
}

impl<const N: usize> Flags for FlagSet<N> {

}

impl<const N: usize> PartialEq for FlagSet<N> {
    fn eq(&self, other: &Self) -> (r: bool) {
        self.items == other.items
    }
}

impl<const N: usize> PartialEqSpecImpl for FlagSet<N> {
    open spec fn obeys_eq_spec() -> bool {
        true
    }

    open spec fn eq_spec(&self, other: &Self) -> bool {
        self.bits() == other.bits()
    }
}

impl<const N: usize> From<()> for FlagSet<N> {
    /// Nothing gives the empty set.
    fn from(unit: ()) -> (r: Self) {
        Self::empty()
    }
}

impl<const N: usize> FromSpecImpl<()> for FlagSet<N> {
    open spec fn obeys_from_spec() -> bool {
        true
    }

    open spec fn from_spec(unit: ()) -> Self {
        Self::spec_empty()
    }
}

impl<const N: usize> From<FlagItem<N>> for FlagSet<N> {
    /// An item gives the set that holds it alone.
    fn from(item: FlagItem<N>) -> (r: Self) {
        Self::from_item(item)
    }
}

impl<const N: usize> FromSpecImpl<FlagItem<N>> for FlagSet<N> {
    open spec fn obeys_from_spec() -> bool {
        true
    }

    open spec fn from_spec(item: FlagItem<N>) -> Self {
        Self::spec_from_item(item)
    }
}

impl<const N: usize> From<Option<FlagItem<N>>> for FlagSet<N> {
    /// An item that may be absent gives the set that holds it, or the empty
    /// set.
    fn from(item: Option<FlagItem<N>>) -> (r: Self) {
        match item {
            Some(item) => Self::from_item(item),
            None => Self::empty(),
        }
    }
}

impl<const N: usize> FromSpecImpl<Option<FlagItem<N>>> for FlagSet<N> {
    open spec fn obeys_from_spec() -> bool {
        true
    }

    open spec fn from_spec(item: Option<FlagItem<N>>) -> Self {
        match item {
            Some(item) => Self::spec_from_item(item),
            None => Self::spec_empty(),
        }
    }
}

impl<const N: usize> From<&[FlagItem<N>]> for FlagSet<N> {
    /// A slice of items gives the set of its items.
    fn from(items: &[FlagItem<N>]) -> (r: Self) {
        Self::from_items(items)
    }
}

impl<const N: usize> FromSpecImpl<&[FlagItem<N>]> for FlagSet<N> {
    open spec fn obeys_from_spec() -> bool {
        true
    }

    open spec fn from_spec(items: &[FlagItem<N>]) -> Self {
        Self::spec_from_items(items@)
    }
}

impl<const N: usize> From<Vec<FlagItem<N>>> for FlagSet<N> {
    /// A vector of items gives the set of its items.
    fn from(items: Vec<FlagItem<N>>) -> (r: Self) {
        Self::from_items(items.as_slice())
    }
}

impl<const N: usize> FromSpecImpl<Vec<FlagItem<N>>> for FlagSet<N> {
    open spec fn obeys_from_spec() -> bool {
        true
    }

    open spec fn from_spec(items: Vec<FlagItem<N>>) -> Self {
        Self::spec_from_items(items@)
    }
}

impl<const N: usize> From<&Vec<FlagItem<N>>> for FlagSet<N> {
    /// A vector of items gives the set of its items.
    fn from(items: &Vec<FlagItem<N>>) -> (r: Self) {
        Self::from_items(items.as_slice())
    }
}

impl<const N: usize> FromSpecImpl<&Vec<FlagItem<N>>> for FlagSet<N> {
    open spec fn obeys_from_spec() -> bool {
        true
    }

    open spec fn from_spec(items: &Vec<FlagItem<N>>) -> Self {
        Self::spec_from_items(items@)
    }
}

impl<const N: usize, const M: usize> From<[FlagItem<N>; M]> for FlagSet<N> {
    /// An array of items gives the set of its items.
    fn from(items: [FlagItem<N>; M]) -> (r: Self) {
        Self::from_items(items.as_slice())
    }
}

impl<const N: usize, const M: usize> FromSpecImpl<[FlagItem<N>; M]> for FlagSet<N> {
    open spec fn obeys_from_spec() -> bool {
        true
    }

    open spec fn from_spec(items: [FlagItem<N>; M]) -> Self {
        Self::spec_from_items(items@)
    }
}

impl<const N: usize, const M: usize> From<&[FlagItem<N>; M]> for FlagSet<N> {
    /// An array of items gives the set of its items.
    fn from(items: &[FlagItem<N>; M]) -> (r: Self) {
        Self::from_items(items.as_slice())
    }
}

impl<const N: usize, const M: usize> FromSpecImpl<&[FlagItem<N>; M]> for FlagSet<N> {
    open spec fn obeys_from_spec() -> bool {
        true
    }

    open spec fn from_spec(items: &[FlagItem<N>; M]) -> Self {
        Self::spec_from_items(items@)
    }
}

} // verus!
