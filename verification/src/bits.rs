//! Bit patterns as sets of positions: the model behind every set value.
//!
//! A pattern is a `u128`. Position `i` (counted from the least significant
//! bit) stands for the item declared at index `i`.

use vstd::prelude::*;

verus! {

/// The pattern with only position `i` set.
pub open spec fn bit(i: nat) -> u128
    recommends
        i < 128,
{
    1u128 << (i as u128)
}

/// Whether position `i` is set in `m`.
pub open spec fn has_bit(m: u128, i: nat) -> bool {
    i < 128 && m & bit(i) != 0
}

/// The pattern whose `n` lowest positions are set and no other.
pub open spec fn low_mask(n: nat) -> u128 {
    if n >= 128 {
        u128::MAX
    } else {
        !(u128::MAX << (n as u128))
    }
}

/// The positions that are set in `m`.
pub open spec fn members(m: u128) -> Set<nat> {
    Set::new(|i: nat| has_bit(m, i))
}

/// The positions below `k` that are set in `m`.
pub open spec fn members_below(m: u128, k: nat) -> Set<nat> {
    Set::new(|i: nat| i < k && has_bit(m, i))
}

/// How many positions below `k` are set in `m`.
pub open spec fn count_below(m: u128, k: nat) -> nat
    decreases k,
{
    if k == 0 {
        0
    } else {
        count_below(m, (k - 1) as nat) + if has_bit(m, (k - 1) as nat) {
            1nat
        } else {
            0nat
        }
    }
}

/// The population count of `m`.
pub open spec fn popcount(m: u128) -> nat {
    count_below(m, 128)
}

/// Whether `m` sets no position at or above `n`.
pub open spec fn fits(m: u128, n: nat) -> bool {
    m & !low_mask(n) == 0
}

/// The patterns of a sequence, or-ed from the left, starting at zero.
pub open spec fn or_all(patterns: Seq<u128>) -> u128
    decreases patterns.len(),
{
    if patterns.len() == 0 {
        0
    } else {
        or_all(patterns.drop_last()) | patterns.last()
    }
}

/// How the bitwise operators act on a single position.
pub proof fn lemma_position_ops(a: u128, b: u128, i: u128)
    by (bit_vector)
    requires
        i < 128,
    ensures
        (1u128 << i) != 0,
        ((a | b) & (1u128 << i) != 0) == ((a & (1u128 << i) != 0) || (b & (1u128 << i) != 0)),
        ((a & b) & (1u128 << i) != 0) == ((a & (1u128 << i) != 0) && (b & (1u128 << i) != 0)),
        ((a & !b) & (1u128 << i) != 0) == ((a & (1u128 << i) != 0) && !(b & (1u128 << i) != 0)),
        0u128 & (1u128 << i) == 0,
        (1u128 << i) & (1u128 << i) != 0,
        u128::MAX & (1u128 << i) != 0,
{
}

/// Two single-position patterns overlap only when the positions are the same.
pub proof fn lemma_position_distinct(i: u128, j: u128)
    by (bit_vector)
    requires
        i < 128,
        j < 128,
    ensures
        ((1u128 << i) & (1u128 << j) != 0) == (i == j),
        ((1u128 << i) == (1u128 << j)) == (i == j),
{
}

/// The positions of a low mask are exactly those below its length.
pub proof fn lemma_position_low_mask(n: u128, i: u128)
    by (bit_vector)
    requires
        n < 128,
        i < 128,
    ensures
        (!(u128::MAX << n) & (1u128 << i) != 0) == (i < n),
{
}

proof fn lemma_agree_step(a: u128, b: u128, k: u128)
    by (bit_vector)
    requires
        k < 128,
        a & !(u128::MAX << k) == b & !(u128::MAX << k),
        (a & (1u128 << k) != 0) == (b & (1u128 << k) != 0),
    ensures
        k < 127 ==> a & !(u128::MAX << ((k + 1) as u128)) == b & !(u128::MAX << ((k + 1) as u128)),
        k == 127 ==> a == b,
{
}

proof fn lemma_agree_base(a: u128, b: u128)
    by (bit_vector)
    ensures
        a & !(u128::MAX << 0u128) == b & !(u128::MAX << 0u128),
        a & u128::MAX == a,
{
}

proof fn lemma_agree_below(a: u128, b: u128, k: nat)
    requires
        k <= 128,
        forall|i: nat| i < k ==> has_bit(a, i) == has_bit(b, i),
    ensures
        a & low_mask(k) == b & low_mask(k),
    decreases k,
{
    if k == 0 {
        lemma_agree_base(a, b);
    } else {
        let j = (k - 1) as nat;
        lemma_agree_below(a, b, j);
        assert(has_bit(a, j) == has_bit(b, j));
        lemma_agree_step(a, b, j as u128);
        lemma_agree_base(a, a);
        lemma_agree_base(b, b);
    }
}

/// Two patterns with the same positions are the same pattern.
pub proof fn lemma_members_decide(a: u128, b: u128)
    requires
        members(a) == members(b),
    ensures
        a == b,
{
    assert forall|i: nat| i < 128 implies has_bit(a, i) == has_bit(b, i) by {
        assert(members(a).contains(i) == has_bit(a, i));
        assert(members(b).contains(i) == has_bit(b, i));
    }
    lemma_agree_below(a, b, 128);
    lemma_agree_base(a, a);
    lemma_agree_base(b, b);
}

/// The positions of a domain of `n` items.
pub open spec fn domain(n: nat) -> Set<nat> {
    Set::new(|i: nat| i < n)
}

/// The positions of a union are those of either operand.
pub proof fn lemma_members_union(a: u128, b: u128)
    ensures
        members(a | b) == members(a).union(members(b)),
{
    assert forall|i: nat| members(a | b).contains(i) == members(a).union(members(b)).contains(
        i,
    ) by {
        if i < 128 {
            lemma_position_ops(a, b, i as u128);
        }
    }
    assert(members(a | b) =~= members(a).union(members(b)));
}

/// The positions of an overlap are those of both operands.
pub proof fn lemma_members_intersect(a: u128, b: u128)
    ensures
        members(a & b) == members(a).intersect(members(b)),
{
    assert forall|i: nat| members(a & b).contains(i) == members(a).intersect(
        members(b),
    ).contains(i) by {
        if i < 128 {
            lemma_position_ops(a, b, i as u128);
        }
    }
    assert(members(a & b) =~= members(a).intersect(members(b)));
}

/// The positions of `a & !b` are those of `a` that `b` lacks.
pub proof fn lemma_members_difference(a: u128, b: u128)
    ensures
        members(a & !b) == members(a).difference(members(b)),
{
    assert forall|i: nat| members(a & !b).contains(i) == members(a).difference(
        members(b),
    ).contains(i) by {
        if i < 128 {
            lemma_position_ops(a, b, i as u128);
        }
    }
    assert(members(a & !b) =~= members(a).difference(members(b)));
}

/// The zero pattern has no position.
pub proof fn lemma_members_zero()
    ensures
        members(0) == Set::<nat>::empty(),
{
    assert forall|i: nat| !members(0).contains(i) by {
        if i < 128 {
            lemma_position_ops(0, 0, i as u128);
        }
    }
    assert(members(0) =~= Set::<nat>::empty());
}

/// A single-position pattern has that position and no other.
pub proof fn lemma_members_bit(i: nat)
    requires
        i < 128,
    ensures
        members(bit(i)) == Set::<nat>::empty().insert(i),
        bit(i) != 0,
{
    assert forall|j: nat| members(bit(i)).contains(j) == (j == i) by {
        if j < 128 {
            lemma_position_distinct(i as u128, j as u128);
        }
    }
    assert(members(bit(i)) =~= Set::<nat>::empty().insert(i));
    lemma_position_ops(0, 0, i as u128);
}

/// A low mask has exactly the positions of its domain.
pub proof fn lemma_members_low_mask(n: nat)
    requires
        n <= 128,
    ensures
        members(low_mask(n)) == domain(n),
{
    assert forall|i: nat| members(low_mask(n)).contains(i) == domain(n).contains(i) by {
        if i < 128 {
            if n < 128 {
                lemma_position_low_mask(n as u128, i as u128);
            } else {
                lemma_position_ops(0, 0, i as u128);
            }
        }
    }
    assert(members(low_mask(n)) =~= domain(n));
}

/// `a & b == b` says that every position of `b` is one of `a`.
pub proof fn lemma_members_subset(a: u128, b: u128)
    ensures
        (a & b == b) <==> members(b).subset_of(members(a)),
{
    lemma_members_intersect(a, b);
    if members(b).subset_of(members(a)) {
        assert(members(a).intersect(members(b)) =~= members(b));
        lemma_members_decide(a & b, b);
    }
    if a & b == b {
        assert forall|i: nat| members(b).contains(i) implies members(a).contains(i) by {
            assert(members(a).intersect(members(b)).contains(i));
        }
    }
}

/// `a & b != 0` says that `a` and `b` share a position.
pub proof fn lemma_members_overlap(a: u128, b: u128)
    ensures
        (a & b != 0) <==> !members(a).disjoint(members(b)),
{
    lemma_members_intersect(a, b);
    lemma_members_zero();
    if members(a).disjoint(members(b)) {
        assert(members(a).intersect(members(b)) =~= Set::<nat>::empty());
        lemma_members_decide(a & b, 0);
    }
    if a & b == 0 {
        assert forall|i: nat| !(members(a).contains(i) && members(b).contains(i)) by {
            assert(!members(a).intersect(members(b)).contains(i));
        }
    }
}

/// A pattern fits a domain exactly when all its positions lie in it.
pub proof fn lemma_members_fits(m: u128, n: nat)
    requires
        n <= 128,
    ensures
        fits(m, n) <==> members(m).subset_of(domain(n)),
{
    lemma_members_difference(m, low_mask(n));
    lemma_members_low_mask(n);
    lemma_members_zero();
    if members(m).subset_of(domain(n)) {
        assert(members(m).difference(domain(n)) =~= Set::<nat>::empty());
        lemma_members_decide(m & !low_mask(n), 0);
    }
    if fits(m, n) {
        assert forall|i: nat| members(m).contains(i) implies domain(n).contains(i) by {
            assert(!members(m).difference(domain(n)).contains(i));
        }
    }
}

proof fn lemma_count_below(m: u128, k: nat)
    ensures
        members_below(m, k).finite(),
        members_below(m, k).len() == count_below(m, k),
        count_below(m, k) <= k,
    decreases k,
{
    if k == 0 {
        assert(members_below(m, 0) =~= Set::<nat>::empty());
    } else {
        let j = (k - 1) as nat;
        lemma_count_below(m, j);
        if has_bit(m, j) {
            assert(members_below(m, k) =~= members_below(m, j).insert(j));
        } else {
            assert(members_below(m, k) =~= members_below(m, j));
        }
    }
}

/// The population count is the number of positions.
pub proof fn lemma_members_count(m: u128)
    ensures
        members(m).finite(),
        members(m).len() == popcount(m),
        popcount(m) <= 128,
{
    lemma_count_below(m, 128);
    assert(members_below(m, 128) =~= members(m));
}

/// Patterns within a mask stay within it under every operation of the
/// algebra. `f` is the mask of the domain.
pub proof fn lemma_mask_closed(a: u128, b: u128, f: u128)
    by (bit_vector)
    requires
        a & !f == 0,
        b & !f == 0,
    ensures
        (a | b) & !f == 0,
        (a & b) & !f == 0,
        (a & !b) & !f == 0,
        (f & !a) & !f == 0,
        0u128 & !f == 0,
        f & !f == 0,
        a & f == a,
        (a | b) & f == a | b,
        (a & b) & f == a & b,
        (a & !b) & f == a & !b,
        0u128 & f == 0,
        f & f == f,
        (f & !a) & f == f & !a,
{
}

/// Whatever the pattern, cutting it to a mask leaves a pattern within it.
pub proof fn lemma_mask_cut(m: u128, f: u128)
    by (bit_vector)
    ensures
        (m & f) & !f == 0,
        (m & !f == 0) ==> m & f == m,
        0u128 & !f == 0,
        f & !f == 0,
        m & !u128::MAX == 0,
{
}

/// The laws of the algebra on patterns within the mask `f` of a domain.
pub proof fn lemma_mask_laws(a: u128, b: u128, f: u128)
    by (bit_vector)
    requires
        a & !f == 0,
        b & !f == 0,
    ensures
        a & ((a | b) & !b) == (a | b) & !b,
        a & a == a,
        f & !(f & !a) == a,
        f & !f == 0,
        f & !(a | b) == (f & !a) & (f & !b),
        (0u128 & a == a) == (a == 0),
        a | a == a,
        a | 0 == a,
        0u128 | a == a,
        a | b == b | a,
{
}

/// Every pattern fits the widest domain, and the zero pattern fits all.
pub proof fn lemma_fits_basic(m: u128, n: nat)
    ensures
        fits(0, n),
        fits(low_mask(n), n),
        n >= 128 ==> fits(m, n),
        fits(m & low_mask(n), n),
        fits(m, n) ==> m & low_mask(n) == m,
{
    lemma_mask_cut(m, low_mask(n));
}

/// A single position fits a domain exactly when it lies in it.
pub proof fn lemma_fits_bit(i: nat, n: nat)
    requires
        i < 128,
    ensures
        fits(bit(i), n) <==> i < n,
{
    if n <= 128 {
        lemma_members_fits(bit(i), n);
        lemma_members_bit(i);
        let s = Set::<nat>::empty().insert(i);
        if i < n {
            assert(s.subset_of(domain(n)));
        } else {
            assert(s.contains(i));
        }
    } else {
        lemma_fits_basic(bit(i), n);
    }
}

/// Setting one position changes that position and no other.
pub proof fn lemma_set_bit(m: u128, i: nat, p: nat)
    requires
        i < 128,
    ensures
        has_bit(m | bit(i), p) == (has_bit(m, p) || p == i),
{
    if p < 128 {
        lemma_position_ops(m, bit(i), p as u128);
        lemma_position_distinct(i as u128, p as u128);
    }
}

/// Clearing one position changes that position and no other.
pub proof fn lemma_clear_bit(m: u128, i: nat, p: nat)
    requires
        i < 128,
    ensures
        has_bit(m & !bit(i), p) == (has_bit(m, p) && p != i),
{
    if p < 128 {
        lemma_position_ops(m, bit(i), p as u128);
        lemma_position_distinct(i as u128, p as u128);
    }
}

/// A domain of `n` items has `n` positions.
pub proof fn lemma_domain_count(n: nat)
    ensures
        domain(n).finite(),
        domain(n).len() == n,
    decreases n,
{
    if n == 0 {
        assert(domain(0) =~= Set::<nat>::empty());
    } else {
        lemma_domain_count((n - 1) as nat);
        assert(domain(n) =~= domain((n - 1) as nat).insert((n - 1) as nat));
    }
}

/// The positions from `lo` up to, not including, `hi` that are set in `m`,
/// in ascending order.
pub open spec fn ascending(m: u128, lo: nat, hi: nat) -> Seq<nat>
    decreases hi - lo,
{
    if lo >= hi {
        Seq::<nat>::empty()
    } else if has_bit(m, lo) {
        seq![lo] + ascending(m, lo + 1, hi)
    } else {
        ascending(m, lo + 1, hi)
    }
}

/// An ascending listing holds exactly the set positions of its range, each
/// once, the lower before the higher.
pub proof fn lemma_ascending(m: u128, lo: nat, hi: nat)
    ensures
        forall|p: nat| ascending(m, lo, hi).contains(p) <==> lo <= p < hi && has_bit(m, p),
        forall|i: int, j: int|
            0 <= i < j < ascending(m, lo, hi).len() ==> ascending(m, lo, hi)[i] < ascending(
                m,
                lo,
                hi,
            )[j],
        forall|i: int|
            0 <= i < ascending(m, lo, hi).len() ==> lo <= #[trigger] ascending(m, lo, hi)[i] < hi
                && has_bit(m, ascending(m, lo, hi)[i]),
        ascending(m, lo, hi).len() + count_below(m, lo) == count_below(m, if lo <= hi {
            hi
        } else {
            lo
        }),
    decreases hi - lo,
{
    let s = ascending(m, lo, hi);
    if lo >= hi {
    } else {
        let t = ascending(m, lo + 1, hi);
        lemma_ascending(m, lo + 1, hi);
        assert(count_below(m, lo + 1) == count_below(m, lo) + if has_bit(m, lo) {
            1nat
        } else {
            0nat
        });
        if has_bit(m, lo) {
            assert(s == seq![lo] + t);
            assert(s[0] == lo);
            assert forall|i: int| 1 <= i < s.len() implies s[i] == t[i - 1] by {}
            assert forall|p: nat| s.contains(p) <==> lo <= p < hi && has_bit(m, p) by {
                if s.contains(p) {
                    let i = choose|i: int| 0 <= i < s.len() && s[i] == p;
                    if i > 0 {
                        assert(t[i - 1] == p);
                        assert(t.contains(p));
                    }
                }
                if lo <= p < hi && has_bit(m, p) {
                    if p == lo {
                        assert(s[0] == p);
                    } else {
                        assert(t.contains(p));
                        let i = choose|i: int| 0 <= i < t.len() && t[i] == p;
                        assert(s[i + 1] == p);
                    }
                }
            }
            assert forall|i: int, j: int| 0 <= i < j < s.len() implies s[i] < s[j] by {
                assert(s[j] == t[j - 1]);
                if i > 0 {
                    assert(s[i] == t[i - 1]);
                }
            }
            assert forall|i: int| 0 <= i < s.len() implies lo <= #[trigger] s[i] < hi && has_bit(
                m,
                s[i],
            ) by {
                if i > 0 {
                    assert(s[i] == t[i - 1]);
                }
            }
        } else {
            assert(s == t);
            assert forall|p: nat| s.contains(p) <==> lo <= p < hi && has_bit(m, p) by {}
        }
    }
}

/// An ascending listing splits at any position of its range.
pub proof fn lemma_ascending_split(m: u128, lo: nat, mid: nat, hi: nat)
    requires
        lo <= mid <= hi,
    ensures
        ascending(m, lo, hi) == ascending(m, lo, mid) + ascending(m, mid, hi),
    decreases mid - lo,
{
    if lo < mid {
        lemma_ascending_split(m, lo + 1, mid, hi);
        if has_bit(m, lo) {
            assert(seq![lo] + (ascending(m, lo + 1, mid) + ascending(m, mid, hi)) =~= (seq![lo]
                + ascending(m, lo + 1, mid)) + ascending(m, mid, hi));
        }
    } else {
        assert(ascending(m, lo, mid) + ascending(m, mid, hi) =~= ascending(m, mid, hi));
    }
}

/// An ascending listing grows at its upper end by the position that is added
/// to its range, if that position is set.
pub proof fn lemma_ascending_grow(m: u128, lo: nat, hi: nat)
    requires
        lo <= hi,
    ensures
        ascending(m, lo, hi + 1) == if has_bit(m, hi) {
            ascending(m, lo, hi).push(hi)
        } else {
            ascending(m, lo, hi)
        },
{
    lemma_ascending_split(m, lo, hi, hi + 1);
    assert(ascending(m, hi + 1, hi + 1) =~= Seq::<nat>::empty());
    if has_bit(m, hi) {
        assert(ascending(m, hi, hi + 1) =~= seq![hi]);
        assert(ascending(m, lo, hi) + seq![hi] =~= ascending(m, lo, hi).push(hi));
    } else {
        assert(ascending(m, hi, hi + 1) =~= Seq::<nat>::empty());
        assert(ascending(m, lo, hi) + Seq::<nat>::empty() =~= ascending(m, lo, hi));
    }
}

/// A strictly ascending sequence that holds exactly the set positions of a
/// range is the ascending listing of that range.
pub proof fn lemma_ascending_unique(m: u128, lo: nat, hi: nat, s: Seq<nat>)
    requires
        forall|i: int, j: int| 0 <= i < j < s.len() ==> s[i] < s[j],
        forall|p: nat| s.contains(p) <==> lo <= p < hi && has_bit(m, p),
    ensures
        s == ascending(m, lo, hi),
    decreases hi - lo,
{
    if lo >= hi {
        if s.len() > 0 {
            assert(s.contains(s[0]));
        }
        assert(s =~= Seq::<nat>::empty());
    } else if has_bit(m, lo) {
        assert(s.contains(lo));
        let i = choose|i: int| 0 <= i < s.len() && s[i] == lo;
        if i > 0 {
            assert(s.contains(s[0]));
        }
        let t = s.skip(1);
        assert forall|p: nat| t.contains(p) <==> lo + 1 <= p < hi && has_bit(m, p) by {
            if t.contains(p) {
                let k = choose|k: int| 0 <= k < t.len() && t[k] == p;
                assert(s[k + 1] == p);
                assert(s.contains(p));
                assert(s[0] < s[k + 1]);
            }
            if lo + 1 <= p < hi && has_bit(m, p) {
                assert(s.contains(p));
                let k = choose|k: int| 0 <= k < s.len() && s[k] == p;
                assert(t[k - 1] == p);
            }
        }
        lemma_ascending_unique(m, lo + 1, hi, t);
        assert(s =~= seq![lo] + t);
    } else {
        assert forall|p: nat| s.contains(p) <==> lo + 1 <= p < hi && has_bit(m, p) by {}
        lemma_ascending_unique(m, lo + 1, hi, s);
    }
}

proof fn lemma_low_mask_step(m: u128, k: u128)
    by (bit_vector)
    requires
        k < 128,
    ensures
        (m & !(u128::MAX << k)) | (m & (1u128 << k)) == m & (if k == 127 {
            u128::MAX
        } else {
            !(u128::MAX << ((k + 1) as u128))
        }),
        m & (1u128 << k) != 0 ==> m & (1u128 << k) == (1u128 << k),
        m & !(u128::MAX << 0u128) == 0,
        (m & !(u128::MAX << k)) | 0 == m & !(u128::MAX << k),
{
}

/// The part of a pattern below position `k + 1` is its part below `k`
/// together with position `k`, where that is set.
pub proof fn lemma_low_mask_grow(m: u128, k: nat)
    requires
        k < 128,
    ensures
        m & low_mask(k + 1) == if has_bit(m, k) {
            (m & low_mask(k)) | bit(k)
        } else {
            m & low_mask(k)
        },
        m & low_mask(0) == 0,
{
    lemma_low_mask_step(m, k as u128);
}

/// A pattern holds a single-position pattern whole exactly when it has that
/// position.
pub proof fn lemma_single_bit(m: u128, i: u128)
    by (bit_vector)
    requires
        i < 128,
    ensures
        (m & (1u128 << i) == (1u128 << i)) == (m & (1u128 << i) != 0),
{
}

/// A pattern within a domain of `n` items has all its positions below `n`.
pub proof fn lemma_count_fits(m: u128, n: nat)
    requires
        n <= 128,
        fits(m, n),
    ensures
        count_below(m, n) == popcount(m),
        forall|p: nat| has_bit(m, p) ==> p < n,
{
    lemma_members_fits(m, n);
    assert forall|p: nat| has_bit(m, p) implies p < n by {
        assert(members(m).contains(p));
        assert(domain(n).contains(p));
    }
    lemma_count_above(m, n, 128);
}

proof fn lemma_count_above(m: u128, n: nat, k: nat)
    requires
        n <= k <= 128,
        forall|p: nat| has_bit(m, p) ==> p < n,
    ensures
        count_below(m, k) == count_below(m, n),
    decreases k - n,
{
    if n < k {
        lemma_count_above(m, n, (k - 1) as nat);
    }
}

/// Counts the positions set in `m`.
pub fn count_ones(m: u128) -> (r: usize)
    ensures
        r == popcount(m),
        r == members(m).len(),
        r <= 128,
{
    let mut r: usize = 0;
    let mut i: usize = 0;
    while i < 128
        invariant
            i <= 128,
            r == count_below(m, i as nat),
            r <= i,
        decreases 128 - i,
    {
        if m & (1u128 << i) != 0 {
            r = r + 1;
        }
        i = i + 1;
    }
    proof {
        lemma_members_count(m);
    }
    r
}

/// The low mask of a domain of `n` items.
pub fn mask_of_len(n: usize) -> (r: u128)
    requires
        n <= 128,
    ensures
        r == low_mask(n as nat),
{
    if n >= 128 {
        u128::MAX
    } else {
        !(u128::MAX << n)
    }
}

/// The code of the item at position `i`.
pub fn code_at(i: usize) -> (r: u128)
    requires
        i < 128,
    ensures
        r == bit(i as nat),
{
    1u128 << i
}

} // verus!
