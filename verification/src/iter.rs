//! Iteration over the items of a set, in declaration order.

use vstd::prelude::*;
use crate::bits::{ascending, fits, has_bit};
use crate::flags::{Flag, Flags, FlagsModel, FlagsRepr};
use crate::laws::law_iteration_order;

verus! {

/// An iterator over the items of a set.
///
/// It holds its own copy of the set: each iterator made from a set starts
/// at the first declared item, whatever became of an earlier one.
pub struct Iter<T: Flags> {
    items: T,
    bits: u128,
    offset: usize,
}

impl<T: Flags> Iter<T> {
    #[verifier::type_invariant]
    spec fn inv(self) -> bool {
        self.bits == self.items.bits() && fits(self.bits, T::domain_len())
    }

    /// The set that is iterated.
    pub closed spec fn set(self) -> T {
        self.items
    }

    /// The position at which the search for the next item starts.
    pub closed spec fn cursor(self) -> nat {
        self.offset as nat
    }

    /// The items that are still to come, in the order in which they come.
    pub open spec fn rest(self) -> Seq<T::Item> {
        self.set().spec_items_from(self.cursor())
    }

    /// An iterator over all items of `set`.
    pub fn new(set: T) -> (r: Self)
        ensures
            r.set() == set,
            r.cursor() == 0,
            r.rest() == set.spec_items(),
            set.wf(),
    {
        Iter { items: set, bits: set.to_bits(), offset: 0 }
    }

    /// The next item of the set, or `None` when there is no more.
    pub fn next(&mut self) -> (r: Option<T::Item>)
        ensures
            final(self).set() == old(self).set(),
            r.is_some() <==> old(self).rest().len() > 0,
            r matches Some(item) ==> item == old(self).rest()[0] && final(self).rest() == old(
                self,
            ).rest().skip(1) && final(self).cursor() == item.position() + 1,
            r.is_none() ==> final(self).rest().len() == 0,
    {
        proof {
            use_type_invariant(&*self);
            T::lemma_domain_len();
        }
        let n = T::domain_size();
        let bits = self.bits;
        let ghost m = bits;
        let ghost hi = T::domain_len();
        let ghost start = old(self).rest();
        while self.offset < n
            invariant
                n == hi,
                hi == T::domain_len(),
                hi <= 128,
                self.items == old(self).items,
                self.bits == old(self).bits,
                self.bits == self.items.bits(),
                fits(self.bits, T::domain_len()),
                m == bits,
                m == self.items.bits(),
                start == old(self).rest(),
                ascending(m, self.offset as nat, hi) == ascending(m, old(self).offset as nat, hi),
            decreases n - self.offset,
        {
            let p = self.offset;
            self.offset = self.offset + 1;
            if bits & (1u128 << p) != 0 {
                match T::item_at(p) {
                    Some(item) => {
                        proof {
                            let tail = ascending(m, (p + 1) as nat, hi);
                            let all = ascending(m, p as nat, hi);
                            assert(has_bit(m, p as nat));
                            assert(all == seq![p as nat] + tail);
                            assert(all[0] == p);
                            assert(all.skip(1) == tail);
                            assert(start == all.map_values(|q: nat| T::spec_item_at(q)));
                            assert(start[0] == T::spec_item_at(p as nat));
                            assert(start.skip(1) == tail.map_values(|q: nat| T::spec_item_at(q)));
                            T::lemma_item_at(p as nat);
                        }
                        return Some(item);
                    },
                    None => {},
                }
            } else {
                assert(!has_bit(m, p as nat));
            }
        }
        None
    }

    /// All items that are still to come, in the order in which they come.
    pub fn collect(self) -> (r: Vec<T::Item>)
        ensures
            r@ == self.rest(),
            self.set().wf(),
            self.cursor() == 0 ==> r@.len() == self.set().spec_len(),
    {
        proof {
            use_type_invariant(&self);
            law_iteration_order(self.items);
        }
        let mut it = self;
        let mut r: Vec<T::Item> = Vec::new();
        loop
            invariant
                r@ + it.rest() == self.rest(),
                self.set().wf(),
                self.cursor() == 0 ==> self.rest().len() == self.set().spec_len(),
            decreases it.rest().len(),
        {
            let ghost before = it;
            match it.next() {
                Some(item) => {
                    proof {
                        assert(before.rest() == seq![item] + it.rest());
                        assert(r@.push(item) + it.rest() == r@ + before.rest());
                    }
                    r.push(item);
                },
                None => {
                    proof {
                        assert(r@ + before.rest() == r@);
                    }
                    return r;
                },
            }
        }
    }
}

} // verus!
