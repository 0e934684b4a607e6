//! The item protocol and the set protocol.
//!
//! A domain is a closed list of items in declaration order. [`Flag`] is what
//! an item type offers, [`Flags`] what a set type offers. A set type supplies
//! five primitives; the whole algebra is defined on top of them, once, and
//! holds for every set type.

use vstd::prelude::*;
use crate::bits::{
    ascending, bit, count_ones, domain, fits, has_bit, low_mask, mask_of_len, members, or_all,
    popcount, lemma_clear_bit, lemma_domain_count, lemma_fits_basic, lemma_fits_bit,
    lemma_mask_closed, lemma_members_bit, lemma_members_count, lemma_members_decide,
    lemma_members_difference, lemma_members_fits, lemma_members_intersect,
    lemma_members_low_mask, lemma_members_overlap, lemma_members_subset, lemma_members_union,
    lemma_members_zero,
};

verus! {

/// An item of a closed domain.
pub trait Flag: Sized + Copy {
    /// The item's index in declaration order.
    spec fn position(self) -> nat;

    /// Items at the same position are the same item.
    proof fn lemma_position_decides(self, other: Self)
        requires
            self.position() == other.position(),
        ensures
            self == other,
    ;

    /// The item's index in declaration order.
    fn offset(self) -> (r: usize)
        ensures
            r == self.position(),
    ;
}

/// The bit pattern of a sequence of items: the codes of its items, or-ed
/// from the left, starting at zero.
pub open spec fn item_bits<I: Flag>(items: Seq<I>) -> u128
    decreases items.len(),
{
    if items.len() == 0 {
        0
    } else {
        item_bits(items.drop_last()) | bit(items.last().position())
    }
}

/// What a set type supplies: its bit pattern and the items of its domain.
pub trait FlagsRepr: Sized + Copy {
    /// The type of the items of the domain.
    type Item: Flag;

    /// The number of items of the domain.
    spec fn domain_len() -> nat;

    /// The pattern of the set: bit `i` is set when the item at position `i`
    /// is in the set.
    spec fn bits(self) -> u128;

    /// The set with the pattern `m`.
    spec fn spec_from_bits(m: u128) -> Self;

    /// The item at position `p`.
    spec fn spec_item_at(p: nat) -> Self::Item;

    /// A domain has at most 128 items.
    proof fn lemma_domain_len()
        ensures
            Self::domain_len() <= 128,
    ;

    /// Sets with the same pattern are the same set.
    proof fn lemma_bits_decide(self, other: Self)
        requires
            self.bits() == other.bits(),
        ensures
            self == other,
    ;

    /// A pattern within the domain is the pattern of its set.
    proof fn lemma_from_bits(m: u128)
        requires
            fits(m, Self::domain_len()),
        ensures
            Self::spec_from_bits(m).bits() == m,
    ;

    /// Each position of the domain has its item.
    proof fn lemma_item_at(p: nat)
        requires
            p < Self::domain_len(),
        ensures
            Self::spec_item_at(p).position() == p,
    ;

    /// The number of items of the domain.
    fn domain_size() -> (r: usize)
        ensures
            r == Self::domain_len(),
    ;

    /// The pattern of the set. It never leaves the domain.
    fn to_bits(self) -> (r: u128)
        ensures
            r == self.bits(),
            fits(r, Self::domain_len()),
    ;

    /// The set of the positions of `m` that lie in the domain.
    fn from_bits_truncate(m: u128) -> (r: Self)
        ensures
            r == Self::spec_from_bits(m & low_mask(Self::domain_len())),
            r.bits() == m & low_mask(Self::domain_len()),
    ;

    /// The code of `item`: the pattern with its position alone. Every item
    /// has its position in the domain.
    fn item_code(item: Self::Item) -> (r: u128)
        ensures
            r == bit(item.position()),
            item.position() < Self::domain_len(),
    ;

    /// The item at position `offset`, if the domain has one there.
    fn item_at(offset: usize) -> (r: Option<Self::Item>)
        ensures
            r.is_some() <==> offset < Self::domain_len(),
            r matches Some(item) ==> item == Self::spec_item_at(offset as nat),
    ;
}

/// The meaning of the operations of a set type, over its pattern.
pub trait FlagsModel: FlagsRepr {
    /// A set is well formed when its pattern stays within the domain.
    spec fn wf(self) -> bool;

    /// An item is well formed when its position lies in the domain.
    spec fn item_ok(item: Self::Item) -> bool;

    /// The positions of the items of the set.
    spec fn positions(self) -> Set<nat>;

    /// The set without items.
    spec fn spec_empty() -> Self;

    /// The set of all items of the domain.
    spec fn spec_full() -> Self;

    /// The set that holds `item` and nothing else.
    spec fn spec_from_item(item: Self::Item) -> Self;

    /// The set of the items of a sequence.
    spec fn spec_from_items(items: Seq<Self::Item>) -> Self;

    /// The patterns of a sequence of sets.
    spec fn patterns(sets: Seq<Self>) -> Seq<u128>;

    /// The union of the sets of a sequence.
    spec fn spec_from_sets(sets: Seq<Self>) -> Self;

    /// The number of items of the set: the population count of its pattern.
    spec fn spec_len(self) -> nat;

    /// Whether the set has no item.
    spec fn spec_is_empty(self) -> bool;

    /// Whether the set has every item of the domain.
    spec fn spec_is_full(self) -> bool;

    /// Whether every item of `other` is in the set.
    spec fn spec_contains(self, other: Self) -> bool;

    /// Whether some item is in both sets.
    spec fn spec_has_overlap(self, other: Self) -> bool;

    /// The items that are in both sets.
    spec fn spec_overlap(self, other: Self) -> Self;

    /// The items that are in either set.
    spec fn spec_with(self, other: Self) -> Self;

    /// The items of the set that are not in `other`.
    spec fn spec_without(self, other: Self) -> Self;

    /// The items of the domain that are not in the set.
    spec fn spec_missing(self) -> Self;

    /// The items of the set at position `from` and above, in declaration
    /// order.
    spec fn spec_items_from(self, from: nat) -> Seq<Self::Item>;

    /// The items of the set, in declaration order.
    spec fn spec_items(self) -> Seq<Self::Item>;
}

impl<S: FlagsRepr> FlagsModel for S {
    open spec fn wf(self) -> bool {
        fits(self.bits(), Self::domain_len())
    }

    open spec fn item_ok(item: Self::Item) -> bool {
        item.position() < Self::domain_len()
    }

    open spec fn positions(self) -> Set<nat> {
        members(self.bits())
    }

    open spec fn spec_empty() -> Self {
        Self::spec_from_bits(0)
    }

    open spec fn spec_full() -> Self {
        Self::spec_from_bits(low_mask(Self::domain_len()))
    }

    open spec fn spec_from_item(item: Self::Item) -> Self {
        Self::spec_from_bits(bit(item.position()))
    }

    open spec fn spec_from_items(items: Seq<Self::Item>) -> Self {
        Self::spec_from_bits(item_bits(items))
    }

    open spec fn patterns(sets: Seq<Self>) -> Seq<u128> {
        sets.map_values(|s: Self| s.bits())
    }

    open spec fn spec_from_sets(sets: Seq<Self>) -> Self {
        Self::spec_from_bits(or_all(Self::patterns(sets)))
    }

    open spec fn spec_len(self) -> nat {
        popcount(self.bits())
    }

    open spec fn spec_is_empty(self) -> bool {
        self.bits() == 0
    }

    open spec fn spec_is_full(self) -> bool {
        self.bits() == low_mask(Self::domain_len())
    }

    open spec fn spec_contains(self, other: Self) -> bool {
        self.bits() & other.bits() == other.bits()
    }

    open spec fn spec_has_overlap(self, other: Self) -> bool {
        self.bits() & other.bits() != 0
    }

    open spec fn spec_overlap(self, other: Self) -> Self {
        Self::spec_from_bits(self.bits() & other.bits())
    }

    open spec fn spec_with(self, other: Self) -> Self {
        Self::spec_from_bits(self.bits() | other.bits())
    }

    open spec fn spec_without(self, other: Self) -> Self {
        Self::spec_from_bits(self.bits() & !other.bits())
    }

    open spec fn spec_missing(self) -> Self {
        Self::spec_from_bits(low_mask(Self::domain_len()) & !self.bits())
    }

    open spec fn spec_items_from(self, from: nat) -> Seq<Self::Item> {
        ascending(self.bits(), from, Self::domain_len()).map_values(
            |p: nat| Self::spec_item_at(p),
        )
    }

    open spec fn spec_items(self) -> Seq<Self::Item> {
        self.spec_items_from(0)
    }
}

/// A set over a closed domain, held as one bit pattern.
pub trait Flags: FlagsRepr {
    /// The set with the pattern `m`, where `m` stays within the domain.
    fn try_from_bits(m: u128) -> (r: Option<Self>)
        ensures
            r.is_some() <==> fits(m, Self::domain_len()),
            r matches Some(s) ==> s == Self::spec_from_bits(m) && s.bits() == m,
    {
        proof {
            Self::lemma_domain_len();
            lemma_fits_basic(m, Self::domain_len());
        }
        let full = mask_of_len(Self::domain_size());
        if m & !full == 0 {
            Some(Self::from_bits_truncate(m))
        } else {
            None
        }
    }

    /// The set that holds `item` and nothing else.
    fn from_item(item: Self::Item) -> (r: Self)
        ensures
            r == Self::spec_from_item(item),
            r.bits() == bit(item.position()),
            r.positions() == Set::<nat>::empty().insert(item.position()),
            Self::item_ok(item),
            r.wf(),
    {
        let code = Self::item_code(item);
        proof {
            Self::lemma_domain_len();
            lemma_fits_bit(item.position(), Self::domain_len());
            lemma_fits_basic(code, Self::domain_len());
            lemma_members_bit(item.position());
        }
        Self::from_bits_truncate(code)
    }

    /// The set without items.
    fn empty() -> (r: Self)
        ensures
            r == Self::spec_empty(),
            r.bits() == 0,
            r.positions() == Set::<nat>::empty(),
            r.wf(),
    {
        proof {
            lemma_fits_basic(0, Self::domain_len());
            lemma_members_zero();
        }
        Self::from_bits_truncate(0)
    }

    /// The set of all items of the domain.
    fn full() -> (r: Self)
        ensures
            r == Self::spec_full(),
            r.bits() == low_mask(Self::domain_len()),
            r.positions() == domain(Self::domain_len()),
            r.wf(),
    {
        proof {
            Self::lemma_domain_len();
            lemma_members_low_mask(Self::domain_len());
            lemma_fits_basic(0, Self::domain_len());
            lemma_mask_closed(0, 0, low_mask(Self::domain_len()));
        }
        Self::from_bits_truncate(mask_of_len(Self::domain_size()))
    }

    /// All items of the domain, in declaration order.
    fn items() -> (r: Vec<Self::Item>)
        ensures
            r@.len() == Self::domain_len(),
            forall|i: int| 0 <= i < r@.len() ==> r@[i] == Self::spec_item_at(i as nat),
    {
        let n = Self::domain_size();
        let mut r: Vec<Self::Item> = Vec::new();
        let mut offset: usize = 0;
        while offset < n
            invariant
                offset <= n,
                n == Self::domain_len(),
                r@.len() == offset,
                forall|i: int| 0 <= i < r@.len() ==> r@[i] == Self::spec_item_at(i as nat),
            decreases n - offset,
        {
            match Self::item_at(offset) {
                Some(item) => {
                    r.push(item);
                },
                None => {},
            }
            offset = offset + 1;
        }
        r
    }

    /// The set of the items of a slice. An item that occurs twice counts
    /// once.
    fn from_items(items: &[Self::Item]) -> (r: Self)
        ensures
            r == Self::spec_from_items(items@),
            r.bits() == item_bits(items@),
            r.wf(),
    {
        let mut value: u128 = 0;
        let mut i: usize = 0;
        proof {
            lemma_fits_basic(0, Self::domain_len());
        }
        while i < items.len()
            invariant
                i <= items.len(),
                value == item_bits(items@.take(i as int)),
                fits(value, Self::domain_len()),
            decreases items.len() - i,
        {
            let one = Self::from_item(items[i]).to_bits();
            proof {
                assert(items@.take(i + 1).drop_last() == items@.take(i as int));
                assert(items@.take(i + 1).last() == items@[i as int]);
                lemma_mask_closed(value, one, low_mask(Self::domain_len()));
            }
            value = value | one;
            i = i + 1;
        }
        proof {
            assert(items@.take(i as int) == items@);
            lemma_fits_basic(value, Self::domain_len());
        }
        Self::from_bits_truncate(value)
    }

    /// The union of the sets of a slice.
    fn from_sets(sets: &[Self]) -> (r: Self)
        ensures
            r == Self::spec_from_sets(sets@),
            r.bits() == or_all(Self::patterns(sets@)),
            r.wf(),
    {
        let mut value: u128 = 0;
        let mut i: usize = 0;
        let ghost all = Self::patterns(sets@);
        proof {
            lemma_fits_basic(0, Self::domain_len());
        }
        while i < sets.len()
            invariant
                i <= sets.len(),
                all == Self::patterns(sets@),
                value == or_all(all.take(i as int)),
                fits(value, Self::domain_len()),
            decreases sets.len() - i,
        {
            let one = sets[i].to_bits();
            proof {
                assert(all.take(i + 1).drop_last() == all.take(i as int));
                assert(all.take(i + 1).last() == sets@[i as int].bits());
                lemma_mask_closed(value, one, low_mask(Self::domain_len()));
            }
            value = value | one;
            i = i + 1;
        }
        proof {
            assert(all.take(i as int) == all);
            lemma_fits_basic(value, Self::domain_len());
        }
        Self::from_bits_truncate(value)
    }

    /// The number of items of the set.
    fn len(self) -> (r: usize)
        ensures
            r == self.spec_len(),
            r == self.positions().len(),
            r <= Self::domain_len(),
    {
        let m = self.to_bits();
        proof {
            Self::lemma_domain_len();
            lemma_members_count(m);
            lemma_members_low_mask(Self::domain_len());
            lemma_members_fits(m, Self::domain_len());
            lemma_members_count(low_mask(Self::domain_len()));
            lemma_domain_count(Self::domain_len());
            vstd::set_lib::lemma_len_subset(members(m), domain(Self::domain_len()));
        }
        count_ones(m)
    }

    /// Whether the set has no item.
    fn is_empty(self) -> (r: bool)
        ensures
            r == self.spec_is_empty(),
            r == (self.positions() == Set::<nat>::empty()),
    {
        let m = self.to_bits();
        proof {
            lemma_members_zero();
            if members(m) == Set::<nat>::empty() {
                lemma_members_decide(m, 0);
            }
        }
        m == 0
    }

    /// Whether the set has every item of the domain.
    fn is_full(self) -> (r: bool)
        ensures
            r == self.spec_is_full(),
            r == (self.positions() == domain(Self::domain_len())),
    {
        let m = self.to_bits();
        proof {
            Self::lemma_domain_len();
            lemma_members_low_mask(Self::domain_len());
            if members(m) == domain(Self::domain_len()) {
                lemma_members_decide(m, low_mask(Self::domain_len()));
            }
        }
        m == mask_of_len(Self::domain_size())
    }

    /// Whether every item of `other` is in the set.
    fn contains(self, other: Self) -> (r: bool)
        ensures
            r == self.spec_contains(other),
            r == other.positions().subset_of(self.positions()),
    {
        let a = self.to_bits();
        let b = other.to_bits();
        proof {
            lemma_members_subset(a, b);
        }
        (a & b) == b
    }

    /// Whether some item is in both sets.
    fn has_overlap(self, other: Self) -> (r: bool)
        ensures
            r == self.spec_has_overlap(other),
            r == !self.positions().disjoint(other.positions()),
    {
        let a = self.to_bits();
        let b = other.to_bits();
        proof {
            lemma_members_overlap(a, b);
        }
        (a & b) != 0
    }

    /// The items that are in both sets.
    fn overlap(self, other: Self) -> (r: Self)
        ensures
            r == self.spec_overlap(other),
            r.bits() == self.bits() & other.bits(),
            r.positions() == self.positions().intersect(other.positions()),
            r.wf(),
    {
        let a = self.to_bits();
        let b = other.to_bits();
        proof {
            lemma_members_intersect(a, b);
            lemma_mask_closed(a, b, low_mask(Self::domain_len()));
        }
        Self::from_bits_truncate(a & b)
    }

    /// The items that are in either set.
    fn with(self, other: Self) -> (r: Self)
        ensures
            r == self.spec_with(other),
            r.bits() == self.bits() | other.bits(),
            r.positions() == self.positions().union(other.positions()),
            r.wf(),
    {
        let a = self.to_bits();
        let b = other.to_bits();
        proof {
            lemma_members_union(a, b);
            lemma_mask_closed(a, b, low_mask(Self::domain_len()));
        }
        Self::from_bits_truncate(a | b)
    }

    /// The items of the set that are not in `other`.
    fn without(self, other: Self) -> (r: Self)
        ensures
            r == self.spec_without(other),
            r.bits() == self.bits() & !other.bits(),
            r.positions() == self.positions().difference(other.positions()),
            r.wf(),
    {
        let a = self.to_bits();
        let b = other.to_bits();
        proof {
            lemma_members_difference(a, b);
            lemma_mask_closed(a, b, low_mask(Self::domain_len()));
        }
        Self::from_bits_truncate(a & !b)
    }

    /// The items of the domain that are not in the set.
    fn missing(self) -> (r: Self)
        ensures
            r == self.spec_missing(),
            r.bits() == low_mask(Self::domain_len()) & !self.bits(),
            r.positions() == domain(Self::domain_len()).difference(self.positions()),
            r.wf(),
    {
        let a = self.to_bits();
        proof {
            Self::lemma_domain_len();
            lemma_members_low_mask(Self::domain_len());
            lemma_members_difference(low_mask(Self::domain_len()), a);
            lemma_mask_closed(a, a, low_mask(Self::domain_len()));
        }
        Self::from_bits_truncate(mask_of_len(Self::domain_size()) & !a)
    }

    /// Replaces the set by the items of the domain that it lacks.
    fn invert(&mut self)
        ensures
            *final(self) == (*old(self)).spec_missing(),
            final(self).bits() == low_mask(Self::domain_len()) & !old(self).bits(),
            final(self).positions() == domain(Self::domain_len()).difference(
                old(self).positions(),
            ),
            final(self).wf(),
    {
        *self = (*self).missing();
    }

    /// Adds the items of `other` to the set.
    fn insert(&mut self, other: Self)
        ensures
            *final(self) == (*old(self)).spec_with(other),
            final(self).bits() == old(self).bits() | other.bits(),
            final(self).positions() == old(self).positions().union(other.positions()),
            final(self).wf(),
    {
        *self = (*self).with(other);
    }

    /// Removes the items of `other` from the set.
    fn remove(&mut self, other: Self)
        ensures
            *final(self) == (*old(self)).spec_without(other),
            final(self).bits() == old(self).bits() & !other.bits(),
            final(self).positions() == old(self).positions().difference(other.positions()),
            final(self).wf(),
    {
        *self = (*self).without(other);
    }

    /// Keeps the items of the set that are in `other` too.
    fn keep(&mut self, other: Self)
        ensures
            *final(self) == (*old(self)).spec_overlap(other),
            final(self).bits() == old(self).bits() & other.bits(),
            final(self).positions() == old(self).positions().intersect(other.positions()),
            final(self).wf(),
    {
        *self = (*self).overlap(other);
    }

    /// Keeps the items for which `is_retained` answers `true`. It is asked
    /// once for each item of the set, in declaration order.
    fn retain<F: Fn(Self::Item) -> bool>(&mut self, is_retained: F)
        requires
            forall|p: nat|
                p < Self::domain_len() && has_bit(old(self).bits(), p) ==> call_requires(
                    is_retained,
                    (Self::spec_item_at(p),),
                ),
        ensures
            final(self).wf(),
            forall|p: nat| has_bit(final(self).bits(), p) ==> has_bit(old(self).bits(), p),
            forall|p: nat|
                p < Self::domain_len() && has_bit(old(self).bits(), p) ==> call_ensures(
                    is_retained,
                    (Self::spec_item_at(p),),
                    has_bit(final(self).bits(), p),
                ),
    {
        let n = Self::domain_size();
        let start = (*self).to_bits();
        let mut value = start;
        let mut offset: usize = 0;
        proof {
            Self::lemma_domain_len();
        }
        while offset < n
            invariant
                offset <= n,
                n == Self::domain_len(),
                n <= 128,
                start == old(self).bits(),
                fits(start, Self::domain_len()),
                fits(value, Self::domain_len()),
                forall|p: nat|
                    p < Self::domain_len() && has_bit(start, p) ==> call_requires(
                        is_retained,
                        (Self::spec_item_at(p),),
                    ),
                forall|p: nat| has_bit(value, p) ==> has_bit(start, p),
                forall|p: nat| p >= offset && has_bit(start, p) ==> has_bit(value, p),
                forall|p: nat|
                    p < offset && has_bit(start, p) ==> call_ensures(
                        is_retained,
                        (Self::spec_item_at(p),),
                        has_bit(value, p),
                    ),
            decreases n - offset,
        {
            let code = 1u128 << offset;
            let ghost before = value;
            if value & code != 0 {
                match Self::item_at(offset) {
                    Some(item) => {
                        assert(has_bit(start, offset as nat));
                        let kept = is_retained(item);
                        if !kept {
                            proof {
                                lemma_fits_bit(offset as nat, Self::domain_len());
                                lemma_mask_closed(value, code, low_mask(Self::domain_len()));
                            }
                            value = value & !code;
                        }
                        proof {
                            lemma_clear_bit(before, offset as nat, offset as nat);
                            assert(has_bit(value, offset as nat) == kept);
                        }
                    },
                    None => {},
                }
            }
            proof {
                assert forall|p: nat| has_bit(value, p) == (has_bit(before, p) && (p
                    != offset as nat || value == before)) by {
                    lemma_clear_bit(before, offset as nat, p);
                }
            }
            offset = offset + 1;
        }
        proof {
            lemma_fits_basic(value, Self::domain_len());
        }
        *self = Self::from_bits_truncate(value);
    }

    /// The items of the set for which `is_retained` answers `true`.
    fn retained<F: Fn(Self::Item) -> bool>(self, is_retained: F) -> (r: Self)
        requires
            forall|p: nat|
                p < Self::domain_len() && has_bit(self.bits(), p) ==> call_requires(
                    is_retained,
                    (Self::spec_item_at(p),),
                ),
        ensures
            r.wf(),
            forall|p: nat| has_bit(r.bits(), p) ==> has_bit(self.bits(), p),
            forall|p: nat|
                p < Self::domain_len() && has_bit(self.bits(), p) ==> call_ensures(
                    is_retained,
                    (Self::spec_item_at(p),),
                    has_bit(r.bits(), p),
                ),
    {
        let mut r = self;
        r.retain(is_retained);
        r
    }
}

} // verus!
