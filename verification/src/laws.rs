//! The laws of the set algebra. They hold for every set type.

use vstd::prelude::*;
use crate::bits::{
    ascending, bit, has_bit, low_mask, lemma_ascending, lemma_ascending_grow,
    lemma_ascending_unique, lemma_fits_basic, lemma_fits_bit, lemma_low_mask_grow,
    lemma_count_fits, lemma_mask_closed, lemma_mask_laws, lemma_position_ops, lemma_set_bit,
    lemma_single_bit,
};
use crate::flags::{item_bits, Flag, Flags, FlagsModel, FlagsRepr};
use crate::iter::Iter;

verus! {

/// The result of each operation of the algebra stays within the domain and
/// has the pattern that the operation names.
pub proof fn lemma_operations<T: Flags>(a: T, b: T)
    requires
        a.wf(),
        b.wf(),
    ensures
        T::spec_empty().bits() == 0,
        T::spec_full().bits() == low_mask(T::domain_len()),
        a.spec_with(b).bits() == a.bits() | b.bits(),
        a.spec_overlap(b).bits() == a.bits() & b.bits(),
        a.spec_without(b).bits() == a.bits() & !b.bits(),
        a.spec_missing().bits() == low_mask(T::domain_len()) & !a.bits(),
        T::spec_empty().wf(),
        T::spec_full().wf(),
        a.spec_with(b).wf(),
        a.spec_overlap(b).wf(),
        a.spec_without(b).wf(),
        a.spec_missing().wf(),
{
    let f = low_mask(T::domain_len());
    lemma_mask_closed(a.bits(), b.bits(), f);
    lemma_fits_basic(0, T::domain_len());
    T::lemma_from_bits(0);
    T::lemma_from_bits(f);
    T::lemma_from_bits(a.bits() | b.bits());
    T::lemma_from_bits(a.bits() & b.bits());
    T::lemma_from_bits(a.bits() & !b.bits());
    T::lemma_from_bits(f & !a.bits());
}

/// What was added and taken away again leaves nothing that was not there:
/// `a.with(b).without(b)` is contained in `a`.
pub proof fn law_with_without<T: Flags>(a: T, b: T)
    requires
        a.wf(),
        b.wf(),
    ensures
        a.spec_contains(a.spec_with(b).spec_without(b)),
{
    lemma_operations(a, b);
    lemma_operations(a.spec_with(b), b);
    lemma_mask_laws(a.bits(), b.bits(), low_mask(T::domain_len()));
}

/// A set overlaps itself in all its items: `a.overlap(a) == a`.
pub proof fn law_overlap_self<T: Flags>(a: T)
    requires
        a.wf(),
    ensures
        a.spec_overlap(a) == a,
{
    lemma_operations(a, a);
    lemma_mask_laws(a.bits(), a.bits(), low_mask(T::domain_len()));
    a.spec_overlap(a).lemma_bits_decide(a);
}

/// What is missing from what is missing is the set itself:
/// `a.missing().missing() == a`.
pub proof fn law_missing_twice<T: Flags>(a: T)
    requires
        a.wf(),
    ensures
        a.spec_missing().spec_missing() == a,
{
    lemma_operations(a, a);
    lemma_operations(a.spec_missing(), a);
    lemma_mask_laws(a.bits(), a.bits(), low_mask(T::domain_len()));
    a.spec_missing().spec_missing().lemma_bits_decide(a);
}

/// The full set misses nothing: `FULL.missing() == EMPTY`.
pub proof fn law_full_missing<T: Flags>()
    ensures
        T::spec_full().spec_missing() == T::spec_empty(),
{
    let f = low_mask(T::domain_len());
    lemma_fits_basic(0, T::domain_len());
    T::lemma_from_bits(f);
    T::lemma_from_bits(0);
    lemma_mask_laws(0, 0, f);
    T::lemma_from_bits(f & !f);
    T::spec_full().spec_missing().lemma_bits_decide(T::spec_empty());
}

/// What is missing from a union is missing from both:
/// `a.with(b).missing() == a.missing().overlap(b.missing())`.
pub proof fn law_de_morgan<T: Flags>(a: T, b: T)
    requires
        a.wf(),
        b.wf(),
    ensures
        a.spec_with(b).spec_missing() == a.spec_missing().spec_overlap(b.spec_missing()),
{
    lemma_operations(a, b);
    lemma_operations(b, a);
    lemma_operations(a.spec_with(b), b);
    lemma_operations(a.spec_missing(), b.spec_missing());
    lemma_mask_laws(a.bits(), b.bits(), low_mask(T::domain_len()));
    a.spec_with(b).spec_missing().lemma_bits_decide(
        a.spec_missing().spec_overlap(b.spec_missing()),
    );
}

/// Every set contains itself, and the empty set contains the empty set
/// only: `a.contains(a)`, and `EMPTY.contains(a)` exactly when
/// `a.is_empty()`.
pub proof fn law_containment<T: Flags>(a: T)
    requires
        a.wf(),
    ensures
        a.spec_contains(a),
        T::spec_empty().spec_contains(a) <==> a.spec_is_empty(),
{
    lemma_operations(a, a);
    lemma_mask_laws(a.bits(), a.bits(), low_mask(T::domain_len()));
}

/// Sets are equal exactly when their patterns are.
pub proof fn law_equality<T: Flags>(a: T, b: T)
    ensures
        a == b <==> a.bits() == b.bits(),
{
    if a.bits() == b.bits() {
        a.lemma_bits_decide(b);
    }
}

/// The items of a set come in declaration order, each once, and an item
/// comes exactly when the set contains it.
pub proof fn law_iteration_order<T: Flags>(set: T)
    requires
        set.wf(),
    ensures
        set.spec_items().len() == set.spec_len(),
        forall|i: int, j: int|
            0 <= i < j < set.spec_items().len() ==> set.spec_items()[i].position()
                < set.spec_items()[j].position(),
        forall|i: int|
            0 <= i < set.spec_items().len() ==> T::item_ok(#[trigger] set.spec_items()[i])
                && set.spec_contains(T::spec_from_item(set.spec_items()[i])),
        forall|item: T::Item|
            T::item_ok(item) && set.spec_contains(T::spec_from_item(item))
                ==> set.spec_items().contains(item),
{
    let n = T::domain_len();
    let m = set.bits();
    let listed = ascending(m, 0, n);
    let items = set.spec_items();
    T::lemma_domain_len();
    lemma_ascending(m, 0, n);
    lemma_count_fits(m, n);
    assert forall|i: int| 0 <= i < items.len() implies (#[trigger] items[i]).position()
        == listed[i] && T::item_ok(items[i]) && set.spec_contains(T::spec_from_item(items[i])) by {
        T::lemma_item_at(listed[i]);
        lemma_contains_item::<T>(set, items[i]);
    }
    assert forall|item: T::Item|
        T::item_ok(item) && set.spec_contains(T::spec_from_item(item)) implies items.contains(
        item,
    ) by {
        let p = item.position();
        lemma_contains_item::<T>(set, item);
        assert(listed.contains(p));
        let i = choose|i: int| 0 <= i < listed.len() && listed[i] == p;
        T::lemma_item_at(p);
        items[i].lemma_position_decides(item);
    }
}

/// A set contains an item of the domain exactly when the position of the
/// item is set in its pattern.
pub proof fn lemma_contains_item<T: Flags>(set: T, item: T::Item)
    requires
        T::item_ok(item),
    ensures
        T::spec_from_item(item).bits() == bit(item.position()),
        T::spec_from_item(item).wf(),
        set.spec_contains(T::spec_from_item(item)) <==> has_bit(set.bits(), item.position()),
{
    let p = item.position();
    T::lemma_domain_len();
    lemma_fits_bit(p, T::domain_len());
    T::lemma_from_bits(bit(p));
    lemma_position_ops(set.bits(), bit(p), p as u128);
    lemma_single_bit(set.bits(), p as u128);
}

/// Two iterations over the same set give the same items in the same order,
/// whatever became of an earlier iteration.
pub proof fn law_iteration_repeats<T: Flags>(first: Iter<T>, second: Iter<T>)
    requires
        first.set() == second.set(),
        first.cursor() == 0,
        second.cursor() == 0,
    ensures
        first.rest() == second.rest(),
        first.rest() == first.set().spec_items(),
{
}

/// The set of two items lists them in declaration order, in whichever order
/// they were given, and an item that is given twice counts once.
pub proof fn law_from_items<T: Flags>(a: T::Item, b: T::Item)
    requires
        T::item_ok(a),
        T::item_ok(b),
        a.position() < b.position(),
    ensures
        T::spec_from_items(seq![a, b]).spec_items() == seq![a, b],
        T::spec_from_items(seq![b, a]).spec_items() == seq![a, b],
        T::spec_from_items(seq![a, a]) == T::spec_from_item(a),
        T::spec_from_items(seq![a]) == T::spec_from_item(a),
{
    let n = T::domain_len();
    let pa = a.position();
    let pb = b.position();
    T::lemma_domain_len();
    let ab = seq![a, b];
    let ba = seq![b, a];
    let aa = seq![a, a];
    let one = seq![a];
    assert(ab.drop_last() =~= seq![a]);
    assert(ba.drop_last() =~= seq![b]);
    assert(aa.drop_last() =~= seq![a]);
    assert(one.drop_last() =~= Seq::<T::Item>::empty());
    assert(seq![b].drop_last() =~= Seq::<T::Item>::empty());
    assert(item_bits(Seq::<T::Item>::empty()) == 0);
    assert(item_bits(one) == 0u128 | bit(pa));
    assert(item_bits(seq![b]) == 0u128 | bit(pb));
    assert(item_bits(ab) == (0u128 | bit(pa)) | bit(pb));
    assert(item_bits(ba) == (0u128 | bit(pb)) | bit(pa));
    assert(item_bits(aa) == (0u128 | bit(pa)) | bit(pa));
    let x = bit(pa);
    let y = bit(pb);
    assert((0u128 | x) | y == x | y && (0u128 | y) | x == x | y && (0u128 | x) | x == x && 0u128
        | x == x) by (bit_vector);
    let m = x | y;
    let s = seq![pa, pb];
    assert forall|p: nat| s.contains(p) <==> 0 <= p < n && has_bit(m, p) by {
        lemma_set_bit(x, pb, p);
        lemma_set_bit(0, pa, p);
        if p < 128 {
            lemma_position_ops(0, 0, p as u128);
        }
        if p == pa {
            assert(s[0] == p);
        }
        if p == pb {
            assert(s[1] == p);
        }
    }
    lemma_ascending_unique(m, 0, n, s);
    T::lemma_item_at(pa);
    T::lemma_item_at(pb);
    T::spec_item_at(pa).lemma_position_decides(a);
    T::spec_item_at(pb).lemma_position_decides(b);
    lemma_fits_bit(pa, n);
    lemma_fits_bit(pb, n);
    lemma_mask_closed(x, y, low_mask(n));
    T::lemma_from_bits(m);
    assert(s.map_values(|p: nat| T::spec_item_at(p)) =~= seq![a, b]);
}

/// Reading back what was written for a set gives the set: the set of the
/// items of `set` is `set`. An empty sequence gives the empty set.
pub proof fn law_round_trip<T: Flags>(set: T)
    requires
        set.wf(),
    ensures
        T::spec_from_items(set.spec_items()) == set,
        T::spec_from_items(Seq::<T::Item>::empty()) == T::spec_empty(),
{
    T::lemma_domain_len();
    lemma_items_bits::<T>(set.bits(), T::domain_len());
    lemma_fits_basic(set.bits(), T::domain_len());
    T::lemma_from_bits(set.bits());
    T::spec_from_items(set.spec_items()).lemma_bits_decide(set);
}

/// The items at the positions of a pattern below `k` have the pattern of
/// that part.
proof fn lemma_items_bits<T: Flags>(m: u128, k: nat)
    requires
        k <= T::domain_len(),
    ensures
        item_bits(ascending(m, 0, k).map_values(|p: nat| T::spec_item_at(p))) == m & low_mask(k),
    decreases k,
{
    T::lemma_domain_len();
    let f = |p: nat| T::spec_item_at(p);
    if k == 0 {
        lemma_low_mask_grow(m, 0);
        assert(ascending(m, 0, 0).map_values(f) =~= Seq::<T::Item>::empty());
    } else {
        let j = (k - 1) as nat;
        lemma_items_bits::<T>(m, j);
        lemma_ascending_grow(m, 0, j);
        lemma_low_mask_grow(m, j);
        let prev = ascending(m, 0, j).map_values(f);
        if has_bit(m, j) {
            let now = ascending(m, 0, k).map_values(f);
            assert(now =~= prev.push(T::spec_item_at(j)));
            assert(now.drop_last() =~= prev);
            T::lemma_item_at(j);
        }
    }
}

} // verus!
