//! The days of the week, with the two days of the weekend as a group.
//!
//! Seven items fit the narrowest representation, so a set of days is held
//! in eight bits.

use vstd::prelude::*;
use vstd::string::StringExecFns;
use crate::bits::{
    bit, has_bit, low_mask, members, popcount, lemma_members_decide, lemma_position_ops,
    lemma_set_bit,
};
use crate::builder::{repeated_at, undeclared_at, valid, well_posed, FlagnumContext};
use crate::flags::{Flag, Flags, FlagsModel, FlagsRepr};
use crate::layout::Layout;
use crate::parser::{FlagnumDecl, FlagnumEnum, Variant, WithAttrs};

verus! {

/// A day of the week.
#[derive(Clone, Copy, PartialEq, Eq, Structural, PartialOrd, Ord, Hash, Debug)]
pub enum Weekday {
    Monday,
    Tuesday,
    Wednesday,
    Thursday,
    Friday,
    /// Belongs to the group of the weekend.
    Saturday,
    /// Belongs to the group of the weekend.
    Sunday,
}

/// A set of days of the week.
#[derive(Clone, Copy, PartialEq, Eq, Structural, PartialOrd, Ord, Hash)]
pub struct Weekdays {
    items: u8,
}

impl Default for Weekday {
    fn default() -> (r: Self)
        ensures
            r == Weekday::Monday,
    {
        Weekday::Monday
    }
}

impl Flag for Weekday {
    open spec fn position(self) -> nat {
        match self {
            Weekday::Monday => 0,
            Weekday::Tuesday => 1,
            Weekday::Wednesday => 2,
            Weekday::Thursday => 3,
            Weekday::Friday => 4,
            Weekday::Saturday => 5,
            Weekday::Sunday => 6,
        }
    }

    proof fn lemma_position_decides(self, other: Self) {
    }

    fn offset(self) -> (r: usize) {
        match self {
            Weekday::Monday => 0,
            Weekday::Tuesday => 1,
            Weekday::Wednesday => 2,
            Weekday::Thursday => 3,
            Weekday::Friday => 4,
            Weekday::Saturday => 5,
            Weekday::Sunday => 6,
        }
    }
}

proof fn lemma_narrow(m: u128, items: u8)
    by (bit_vector)
    ensures
        items < 128 ==> (items as u128) & !(!(u128::MAX << 7u128)) == 0,
        m & !(!(u128::MAX << 7u128)) == 0 ==> (m as u8) as u128 == m && (m as u8) < 128,
        ((m & 0x7f) as u8) as u128 == m & !(u128::MAX << 7u128),
        ((m & 0x7f) as u8) < 128,
        !(u128::MAX << 7u128) == 0x7f,
        (0x60u8 as u128) == (1u128 << 5u128) | (1u128 << 6u128),
{
}

impl Weekdays {
    #[verifier::type_invariant]
    spec fn inv(self) -> bool {
        self.items < 128
    }

    /// The mask of the group of the weekend.
    pub open spec fn spec_weekend_bits() -> u128 {
        bit(5) | bit(6)
    }

    /// The group of the weekend: Saturday and Sunday.
    pub fn weekend() -> (r: Self)
        ensures
            r.bits() == Self::spec_weekend_bits(),
            r == Self::spec_from_bits(Self::spec_weekend_bits()),
    {
        proof {
            lemma_narrow(0, 0);
        }
        Weekdays { items: 0x60 }
    }

    /// The number of days of the set that are not of the weekend.
    pub fn non_weekend_len(self) -> (r: usize)
        ensures
            r == popcount(self.bits() & !Self::spec_weekend_bits()),
            r == self.spec_without(Self::spec_from_bits(Self::spec_weekend_bits())).spec_len(),
            r <= 7,
    {
        let rest = self.without(Self::weekend());
        rest.len()
    }
}

impl Default for Weekdays {
    fn default() -> (r: Self)
        ensures
            r == Self::spec_empty(),
    {
        Self::empty()
    }
}

impl FlagsRepr for Weekdays {
    type Item = Weekday;

    open spec fn domain_len() -> nat {
        7
    }

    closed spec fn bits(self) -> u128 {
        self.items as u128
    }

    closed spec fn spec_from_bits(m: u128) -> Self {
        Weekdays { items: m as u8 }
    }

    open spec fn spec_item_at(p: nat) -> Weekday {
        if p == 0 {
            Weekday::Monday
        } else if p == 1 {
            Weekday::Tuesday
        } else if p == 2 {
            Weekday::Wednesday
        } else if p == 3 {
            Weekday::Thursday
        } else if p == 4 {
            Weekday::Friday
        } else if p == 5 {
            Weekday::Saturday
        } else {
            Weekday::Sunday
        }
    }

    proof fn lemma_domain_len() {
    }

    proof fn lemma_bits_decide(self, other: Self) {
    }

    proof fn lemma_from_bits(m: u128) {
        lemma_narrow(m, 0);
    }

    proof fn lemma_item_at(p: nat) {
    }

    fn domain_size() -> (r: usize) {
        7
    }

    fn to_bits(self) -> (r: u128) {
        proof {
            use_type_invariant(&self);
            lemma_narrow(0, self.items);
        }
        self.items as u128
    }

    fn from_bits_truncate(m: u128) -> (r: Self) {
        proof {
            lemma_narrow(m, 0);
            lemma_narrow(m & low_mask(7), 0);
        }
        Weekdays { items: (m & 0x7f) as u8 }
    }

    fn item_code(item: Weekday) -> (r: u128) {
        1u128 << item.offset()
    }

    fn item_at(offset: usize) -> (r: Option<Weekday>) {
        if offset == 0 {
            Some(Weekday::Monday)
        } else if offset == 1 {
            Some(Weekday::Tuesday)
        } else if offset == 2 {
            Some(Weekday::Wednesday)
        } else if offset == 3 {
            Some(Weekday::Thursday)
        } else if offset == 4 {
            Some(Weekday::Friday)
        } else if offset == 5 {
            Some(Weekday::Saturday)
        } else if offset == 6 {
            Some(Weekday::Sunday)
        } else {
            None
        }
    }
}

impl Flags for Weekdays {

}

/// The names of the days, in the order of the week.
pub open spec fn day_names() -> Seq<Seq<char>> {
    seq![
        "Monday"@,
        "Tuesday"@,
        "Wednesday"@,
        "Thursday"@,
        "Friday"@,
        "Saturday"@,
        "Sunday"@,
    ]
}

/// One day as it is declared, tagged with the weekend or not.
fn day(name: &str, weekend: bool) -> (r: Variant)
    ensures
        r.name@ == name@,
        r.plain(),
        r.tags() == if weekend {
            seq!["WEEKEND"@]
        } else {
            Seq::<Seq<char>>::empty()
        },
{
    let mut groups: Vec<String> = Vec::new();
    if weekend {
        groups.push(String::from_str("WEEKEND"));
    }
    let r = Variant::unit(String::from_str(name), groups);
    proof {
        if weekend {
            assert(r.tags() =~= seq!["WEEKEND"@]);
        } else {
            assert(r.tags() =~= Seq::<Seq<char>>::empty());
        }
    }
    r
}

/// The declaration of the days of the week: seven items, the last two in
/// the group of the weekend.
pub fn declaration() -> (r: (FlagnumDecl, FlagnumEnum))
    ensures
        well_posed(r.1),
        valid(r.0, r.1),
        r.1.names() == day_names(),
        r.0.group_names() == seq!["WEEKEND"@],
        forall|i: int| 0 <= i < 5 ==> r.1.variants@[i].tags() == Seq::<Seq<char>>::empty(),
        forall|i: int| 5 <= i < 7 ==> r.1.variants@[i].tags() == seq!["WEEKEND"@],
{
    let mut groups: Vec<WithAttrs<String>> = Vec::new();
    groups.push(WithAttrs::bare(String::from_str("WEEKEND")));
    let decl = FlagnumDecl { set: WithAttrs::bare(String::from_str("Weekdays")), groups };
    let mut variants: Vec<Variant> = Vec::new();
    variants.push(day("Monday", false));
    variants.push(day("Tuesday", false));
    variants.push(day("Wednesday", false));
    variants.push(day("Thursday", false));
    variants.push(day("Friday", false));
    variants.push(day("Saturday", true));
    variants.push(day("Sunday", true));
    let body = FlagnumEnum { name: WithAttrs::bare(String::from_str("Weekday")), variants };
    proof {
        reveal_strlit("Monday");
        reveal_strlit("Tuesday");
        reveal_strlit("Wednesday");
        reveal_strlit("Thursday");
        reveal_strlit("Friday");
        reveal_strlit("Saturday");
        reveal_strlit("Sunday");
        let names = body.names();
        assert(names =~= day_names());
        assert(names[0].len() == 6 && names[0][0] == 'M');
        assert(names[1].len() == 7);
        assert(names[2].len() == 9);
        assert(names[3].len() == 8 && names[3][0] == 'T');
        assert(names[4].len() == 6 && names[4][0] == 'F');
        assert(names[5].len() == 8 && names[5][0] == 'S');
        assert(names[6].len() == 6 && names[6][0] == 'S');
        assert forall|j: int| !repeated_at(names, j) by {
            if 0 <= j < 7 && repeated_at(names, j) {
                let k = choose|k: int| 0 <= k < j && names[k] == names[j];
                assert(names[k].len() == names[j].len());
                assert(names[k][0] == names[j][0]);
            }
        }
        let declared = decl.group_names();
        assert(declared =~= seq!["WEEKEND"@]);
        assert forall|j: int| !repeated_at(declared, j) by {}
        assert forall|i: int, t: int| !undeclared_at(decl, body, i, t) by {
            if 0 <= i < 7 && 0 <= t < body.variants@[i].tags().len() {
                assert(declared[0] == "WEEKEND"@);
                assert(body.variants@[i].tags()[t] == "WEEKEND"@);
            }
        }
    }
    (decl, body)
}

/// The layout that the declaration of the days yields: eight bits, and for
/// the weekend the mask that [`Weekdays::weekend`] holds.
pub fn layout() -> (r: Layout)
    ensures
        r.wf(),
        r.names() == day_names(),
        r@.width == 8,
        r@.full_mask == low_mask(7),
        r@.groups.dom().contains("WEEKEND"@),
        r@.groups["WEEKEND"@] == Weekdays::spec_weekend_bits(),
{
    let (decl, body) = declaration();
    match FlagnumContext::new(decl, body) {
        Ok(ctx) => {
            proof {
                let spec = ctx@;
                let group = "WEEKEND"@;
                let mask = spec.group_mask(group);
                ctx.lemma_view_wf();
                spec.lemma_group_mask_below(group, 7);
                assert(ctx.decl().group_names()[0] == group);
                assert(spec.declared_groups.contains(group));
                let weekend = Weekdays::spec_weekend_bits();
                assert forall|p: nat| has_bit(mask, p) == has_bit(weekend, p) by {
                    lemma_set_bit(bit(5), 6, p);
                    lemma_set_bit(0, 5, p);
                    assert(0u128 | (1u128 << 5u128) == (1u128 << 5u128)) by (bit_vector);
                    if p < 128 {
                        lemma_position_ops(0, 0, p as u128);
                    }
                    if p < 7 {
                        let tags = ctx.body().variants@[p as int].tags();
                        assert(spec.tagged(p as int, group) <==> tags.contains(group));
                        if p >= 5 {
                            assert(tags[0] == group);
                        }
                    }
                }
                assert(members(mask) =~= members(weekend));
                lemma_members_decide(mask, weekend);
            }
            ctx.build()
        },
        Err(_) => vstd::pervasive::unreached(),
    }
}

} // verus!
