//! The layout of a domain: the code of each item, the mask of each group,
//! and the width that holds them.

use vstd::prelude::*;
use vstd::string::StringExecFns;
use crate::bits::{
    ascending, bit, domain, fits, has_bit, low_mask, mask_of_len, members, lemma_ascending_grow,
    lemma_fits_basic, lemma_fits_bit, lemma_mask_closed, lemma_members_fits, lemma_position_ops,
    lemma_set_bit,
};
use crate::builder::{distinct, repeated_at, undeclared_at, FlagnumContext};
use crate::flags::{Flag, Flags, FlagsModel, FlagsRepr};
use crate::repr::FlagnumRepr;

verus! {

/// A validated declaration.
pub struct ItemSpec {
    /// The names of the items, in declaration order.
    pub items: Seq<Seq<char>>,
    /// For each item, the groups that it belongs to.
    pub item_groups: Map<Seq<char>, Set<Seq<char>>>,
    /// The groups that are declared.
    pub declared_groups: Set<Seq<char>>,
}

/// What is derived from a validated declaration.
pub struct LayoutView {
    /// The number of bits of the representation.
    pub width: nat,
    /// The code of each item.
    pub codes: Map<Seq<char>, u128>,
    /// The mask of each group.
    pub groups: Map<Seq<char>, u128>,
    /// The mask of the whole domain.
    pub full_mask: u128,
}

/// A position at which `name` stands in `names`.
pub open spec fn position_of(names: Seq<Seq<char>>, name: Seq<char>) -> int {
    choose|i: int| 0 <= i < names.len() && names[i] == name
}

/// In a sequence of distinct names each name has one position.
pub proof fn lemma_position_of(names: Seq<Seq<char>>, i: int)
    requires
        distinct(names),
        0 <= i < names.len(),
    ensures
        position_of(names, names[i]) == i,
        names.contains(names[i]),
{
    let p = position_of(names, names[i]);
    assert(names[i] == names[i]);
    if p < i {
        assert(repeated_at(names, i));
    }
    if i < p {
        assert(repeated_at(names, p));
    }
}

impl ItemSpec {
    /// Between 1 and 128 items, no name twice, and every group that an item
    /// belongs to is declared.
    pub open spec fn wf(self) -> bool {
        &&& 1 <= self.items.len() <= 128
        &&& distinct(self.items)
        &&& forall|n: Seq<char>| self.item_groups.dom().contains(n) <==> self.items.contains(n)
        &&& forall|n: Seq<char>, g: Seq<char>|
            self.items.contains(n) && self.item_groups[n].contains(g)
                ==> self.declared_groups.contains(g)
    }

    /// Whether the item at position `i` belongs to `group`.
    pub open spec fn tagged(self, i: int, group: Seq<char>) -> bool {
        self.item_groups[self.items[i]].contains(group)
    }

    /// The codes of the members of `group` among the first `k` items, or-ed
    /// together.
    pub open spec fn group_mask_below(self, group: Seq<char>, k: nat) -> u128
        decreases k,
    {
        if k == 0 {
            0
        } else if self.tagged(k - 1, group) {
            self.group_mask_below(group, (k - 1) as nat) | bit((k - 1) as nat)
        } else {
            self.group_mask_below(group, (k - 1) as nat)
        }
    }

    /// The codes of the members of `group`, or-ed together.
    pub open spec fn group_mask(self, group: Seq<char>) -> u128 {
        self.group_mask_below(group, self.items.len())
    }

    /// A group mask has exactly the positions of the members of the group.
    pub proof fn lemma_group_mask_below(self, group: Seq<char>, k: nat)
        requires
            k <= 128,
        ensures
            forall|p: nat| #[trigger]
                has_bit(self.group_mask_below(group, k), p) <==> p < k && self.tagged(
                    p as int,
                    group,
                ),
            fits(self.group_mask_below(group, k), k),
        decreases k,
    {
        let m = self.group_mask_below(group, k);
        if k == 0 {
            assert forall|p: nat| !has_bit(0u128, p) by {
                if p < 128 {
                    lemma_position_ops(0, 0, p as u128);
                }
            }
            lemma_fits_basic(0, 0);
        } else {
            let j = (k - 1) as nat;
            let prev = self.group_mask_below(group, j);
            self.lemma_group_mask_below(group, j);
            lemma_members_fits(prev, j);
            lemma_members_fits(prev, k);
            assert(fits(prev, k)) by {
                assert(members(prev).subset_of(domain(k)));
            }
            assert forall|p: nat| #[trigger] has_bit(m, p) <==> p < k && self.tagged(p as int, group) by {
                assert(has_bit(prev, p) <==> p < j && self.tagged(p as int, group));
                if self.tagged(j as int, group) {
                    lemma_set_bit(prev, j, p);
                }
            }
            if self.tagged(j as int, group) {
                lemma_fits_bit(j, k);
                lemma_mask_closed(prev, bit(j), low_mask(k));
            }
        }
    }
}

/// The layout that belongs to a validated declaration.
pub open spec fn plan(spec: ItemSpec) -> LayoutView {
    LayoutView {
        width: match FlagnumRepr::spec_for_len(spec.items.len()) {
            Some(repr) => repr.spec_width(),
            None => 0,
        },
        codes: Map::new(
            |n: Seq<char>| spec.items.contains(n),
            |n: Seq<char>| bit(position_of(spec.items, n) as nat),
        ),
        groups: Map::new(
            |g: Seq<char>| spec.declared_groups.contains(g),
            |g: Seq<char>| spec.group_mask(g),
        ),
        full_mask: low_mask(spec.items.len()),
    }
}

impl FlagnumContext {
    /// The declaration as the validated domain that it describes.
    pub open spec fn view(self) -> ItemSpec {
        let names = self.body().names();
        ItemSpec {
            items: names,
            item_groups: Map::new(
                |n: Seq<char>| names.contains(n),
                |n: Seq<char>| self.body().variants@[position_of(names, n)].tags().to_set(),
            ),
            declared_groups: self.decl().group_names().to_set(),
        }
    }

    /// A well-formed context describes a well-formed domain.
    pub proof fn lemma_view_wf(self)
        requires
            self.wf(),
        ensures
            self@.wf(),
            forall|i: int, g: Seq<char>|
                0 <= i < self.body().variants@.len() ==> (self@.tagged(i, g)
                    <==> self.body().variants@[i].tags().contains(g)),
    {
        let names = self.body().names();
        let spec = self@;
        assert forall|n: Seq<char>, g: Seq<char>|
            spec.items.contains(n) && spec.item_groups[n].contains(g) implies spec.declared_groups.contains(
            g,
        ) by {
            let i = position_of(names, n);
            let tags = self.body().variants@[i].tags();
            assert(tags.contains(g));
            let t = choose|t: int| 0 <= t < tags.len() && tags[t] == g;
            assert(!undeclared_at(self.decl(), self.body(), i, t));
        }
        assert forall|i: int, g: Seq<char>| 0 <= i < self.body().variants@.len() implies (spec.tagged(
            i,
            g,
        ) <==> self.body().variants@[i].tags().contains(g)) by {
            lemma_position_of(names, i);
        }
    }
}

/// Whether `name` is one of `names`, and where.
fn find(names: &Vec<String>, name: &String) -> (r: Option<usize>)
    ensures
        r matches Some(i) ==> i < names@.len() && names@[i as int]@ == name@ && forall|k: int|
            0 <= k < i ==> names@[k]@ != name@,
        r.is_none() ==> forall|k: int| 0 <= k < names@.len() ==> names@[k]@ != name@,
{
    let mut k: usize = 0;
    while k < names.len()
        invariant
            k <= names@.len(),
            forall|q: int| 0 <= q < k ==> names@[q]@ != name@,
        decreases names@.len() - k,
    {
        if names[k] == *name {
            return Some(k);
        }
        k = k + 1;
    }
    None
}

/// The layout of a domain.
pub struct Layout {
    repr: FlagnumRepr,
    item_type: String,
    set_type: String,
    names: Vec<String>,
    group_names: Vec<String>,
    group_masks: Vec<u128>,
    full_mask: u128,
}

impl Layout {
    /// The names of the items, in declaration order.
    pub closed spec fn names(self) -> Seq<Seq<char>> {
        self.names@.map_values(|s: String| s@)
    }

    /// The names of the groups, in declaration order.
    pub closed spec fn group_names(self) -> Seq<Seq<char>> {
        self.group_names@.map_values(|s: String| s@)
    }

    /// The masks of the groups, in declaration order.
    pub closed spec fn group_masks(self) -> Seq<u128> {
        self.group_masks@
    }

    /// The mask of the whole domain.
    pub closed spec fn spec_full_mask(self) -> u128 {
        self.full_mask
    }

    /// The representation of the sets of the domain.
    pub closed spec fn spec_repr(self) -> FlagnumRepr {
        self.repr
    }

    /// The name of the item type.
    pub closed spec fn spec_item_type(self) -> Seq<char> {
        self.item_type@
    }

    /// The name of the set type.
    pub closed spec fn spec_set_type(self) -> Seq<char> {
        self.set_type@
    }

    /// Between 1 and 128 items with distinct names, distinct groups with a
    /// mask each that stays within the domain, the mask of the domain, and
    /// the narrowest representation that holds it.
    #[verifier::type_invariant]
    pub open spec fn wf(self) -> bool {
        &&& 1 <= self.names().len() <= 128
        &&& distinct(self.names())
        &&& distinct(self.group_names())
        &&& self.group_masks().len() == self.group_names().len()
        &&& forall|j: int|
            0 <= j < self.group_masks().len() ==> fits(
                #[trigger] self.group_masks()[j],
                self.names().len(),
            )
        &&& self.spec_full_mask() == low_mask(self.names().len())
        &&& Some(self.spec_repr()) == FlagnumRepr::spec_for_len(self.names().len())
    }

    /// The layout as width, codes, group masks and full mask.
    pub open spec fn view(self) -> LayoutView {
        LayoutView {
            width: self.spec_repr().spec_width(),
            codes: Map::new(
                |n: Seq<char>| self.names().contains(n),
                |n: Seq<char>| bit(position_of(self.names(), n) as nat),
            ),
            groups: Map::new(
                |g: Seq<char>| self.group_names().contains(g),
                |g: Seq<char>| self.group_masks()[position_of(self.group_names(), g)],
            ),
            full_mask: self.spec_full_mask(),
        }
    }

    /// The number of items of the domain.
    pub fn len(&self) -> (r: usize)
        ensures
            r == self.names().len(),
            1 <= r <= 128,
    {
        proof {
            use_type_invariant(self);
        }
        self.names.len()
    }

    /// The representation of the sets of the domain.
    pub fn repr(&self) -> (r: FlagnumRepr)
        ensures
            r == self.spec_repr(),
            Some(r) == FlagnumRepr::spec_for_len(self.names().len()),
    {
        proof {
            use_type_invariant(self);
        }
        self.repr
    }

    /// The number of bits of the representation.
    pub fn width(&self) -> (r: u32)
        ensures
            r == self@.width,
    {
        self.repr.width()
    }

    /// The mask of the whole domain.
    pub fn full_mask(&self) -> (r: u128)
        ensures
            r == self@.full_mask,
            r == low_mask(self.names().len()),
    {
        proof {
            use_type_invariant(self);
        }
        self.full_mask
    }

    /// The name of the item type.
    pub fn item_type(&self) -> (r: &str)
        ensures
            r@ == self.spec_item_type(),
    {
        self.item_type.as_str()
    }

    /// The name of the set type.
    pub fn set_type(&self) -> (r: &str)
        ensures
            r@ == self.spec_set_type(),
    {
        self.set_type.as_str()
    }

    /// The position of the item called `name`.
    pub fn position(&self, name: &str) -> (r: Option<usize>)
        ensures
            r.is_some() <==> self.names().contains(name@),
            r matches Some(i) ==> i < self.names().len() && self.names()[i as int] == name@ && i
                == position_of(self.names(), name@),
    {
        proof {
            use_type_invariant(self);
        }
        let owned = name.to_owned();
        let r = find(&self.names, &owned);
        proof {
            let names = self.names();
            assert(forall|k: int| 0 <= k < names.len() ==> names[k] == self.names@[k]@);
            match r {
                Some(i) => {
                    lemma_position_of(names, i as int);
                },
                None => {
                    if names.contains(name@) {
                        let k = choose|k: int| 0 <= k < names.len() && names[k] == name@;
                        assert(self.names@[k]@ == name@);
                    }
                },
            }
        }
        r
    }

    /// The name of the item at position `i`.
    pub fn name_at(&self, i: usize) -> (r: Option<&str>)
        ensures
            r.is_some() <==> i < self.names().len(),
            r matches Some(name) ==> name@ == self.names()[i as int],
    {
        if i < self.names.len() {
            Some(self.names[i].as_str())
        } else {
            None
        }
    }

    /// The code of the item called `name`.
    pub fn code(&self, name: &str) -> (r: Option<u128>)
        ensures
            r.is_some() <==> self@.codes.dom().contains(name@),
            r matches Some(code) ==> code == self@.codes[name@],
    {
        proof {
            use_type_invariant(self);
        }
        match self.position(name) {
            Some(i) => Some(1u128 << i),
            None => None,
        }
    }

    /// The number of groups of the domain.
    pub fn group_count(&self) -> (r: usize)
        ensures
            r == self.group_names().len(),
    {
        self.group_names.len()
    }

    /// The name of the group at position `j`.
    pub fn group_name_at(&self, j: usize) -> (r: Option<&str>)
        ensures
            r.is_some() <==> j < self.group_names().len(),
            r matches Some(name) ==> name@ == self.group_names()[j as int],
    {
        if j < self.group_names.len() {
            Some(self.group_names[j].as_str())
        } else {
            None
        }
    }

    /// The mask of the group at position `j`.
    pub fn group_mask_at(&self, j: usize) -> (r: Option<u128>)
        ensures
            r.is_some() <==> j < self.group_names().len(),
            r matches Some(mask) ==> mask == self.group_masks()[j as int] && fits(
                mask,
                self.names().len(),
            ),
    {
        proof {
            use_type_invariant(self);
        }
        if j < self.group_masks.len() {
            Some(self.group_masks[j])
        } else {
            None
        }
    }

    /// The mask of the group called `name`.
    pub fn group(&self, name: &str) -> (r: Option<u128>)
        ensures
            r.is_some() <==> self@.groups.dom().contains(name@),
            r matches Some(mask) ==> mask == self@.groups[name@] && fits(mask, self.names().len()),
    {
        proof {
            use_type_invariant(self);
        }
        let owned = name.to_owned();
        let r = find(&self.group_names, &owned);
        proof {
            let names = self.group_names();
            assert(forall|k: int| 0 <= k < names.len() ==> names[k] == self.group_names@[k]@);
            match r {
                Some(j) => {
                    lemma_position_of(names, j as int);
                },
                None => {
                    if names.contains(name@) {
                        let k = choose|k: int| 0 <= k < names.len() && names[k] == name@;
                        assert(self.group_names@[k]@ == name@);
                    }
                },
            }
        }
        match r {
            Some(j) => Some(self.group_masks[j]),
            None => None,
        }
    }
}

/// Whether `name` is one of `tags`.
fn tagged_with(tags: &Vec<String>, name: &String) -> (r: bool)
    ensures
        r == tags@.map_values(|g: String| g@).contains(name@),
{
    let r = find(tags, name);
    proof {
        let texts = tags@.map_values(|g: String| g@);
        assert(forall|k: int| 0 <= k < texts.len() ==> texts[k] == tags@[k]@);
        match r {
            Some(i) => {
                assert(texts[i as int] == name@);
            },
            None => {
                if texts.contains(name@) {
                    let k = choose|k: int| 0 <= k < texts.len() && texts[k] == name@;
                    assert(tags@[k]@ == name@);
                }
            },
        }
    }
    r.is_some()
}

impl FlagnumContext {
    /// Plans the layout of the domain: a code for each item by its position,
    /// the mask of each declared group, the mask of the whole domain, and
    /// the representation chosen for it.
    pub fn build(self) -> (r: Layout)
        ensures
            r.wf(),
            r@ == plan(self@),
            r.names() == self.body().names(),
            r.group_names() == self.decl().group_names(),
            forall|j: int|
                0 <= j < r.group_masks().len() ==> #[trigger] r.group_masks()[j]
                    == self@.group_mask(r.group_names()[j]),
            r.spec_repr() == self.repr(),
            r.spec_item_type() == self.body().name.value@,
            r.spec_set_type() == self.decl().set.value@,
    {
        proof {
            use_type_invariant(&self);
            self.lemma_parts();
            self.lemma_view_wf();
        }
        let ghost spec = self@;
        let ghost item_names = self.body.names();
        let ghost declared = self.decl.group_names();
        let n = self.body.variants.len();
        let mut names: Vec<String> = Vec::new();
        let mut i: usize = 0;
        while i < n
            invariant
                i <= n,
                n == self.body.variants@.len(),
                names@.len() == i,
                forall|k: int| 0 <= k < i ==> names@[k]@ == self.body.variants@[k].name@,
            decreases n - i,
        {
            names.push(self.body.variants[i].name.clone());
            i = i + 1;
        }
        let count = self.decl.groups.len();
        let mut group_names: Vec<String> = Vec::new();
        let mut group_masks: Vec<u128> = Vec::new();
        let mut j: usize = 0;
        while j < count
            invariant
                j <= count,
                count == self.decl.groups@.len(),
                n == self.body.variants@.len(),
                1 <= n <= 128,
                spec == self@,
                self.wf(),
                self.body() == self.body,
                self.decl() == self.decl,
                group_names@.len() == j,
                group_masks@.len() == j,
                forall|k: int| 0 <= k < j ==> group_names@[k]@ == self.decl.groups@[k].value@,
                forall|k: int|
                    0 <= k < j ==> #[trigger] group_masks@[k] == spec.group_mask(
                        self.decl.groups@[k].value@,
                    ),
                forall|k: int| 0 <= k < j ==> fits(#[trigger] group_masks@[k], n as nat),
                forall|i: int, g: Seq<char>|
                    0 <= i < self.body().variants@.len() ==> (spec.tagged(i, g)
                        <==> self.body().variants@[i].tags().contains(g)),
            decreases count - j,
        {
            let name = self.decl.groups[j].value.clone();
            let mut mask: u128 = 0;
            let mut i: usize = 0;
            while i < n
                invariant
                    i <= n,
                    n == self.body.variants@.len(),
                    1 <= n <= 128,
                    spec == self@,
                    self.body() == self.body,
                    j < self.decl.groups@.len(),
                    name@ == self.decl.groups@[j as int].value@,
                    mask == spec.group_mask_below(name@, i as nat),
                    forall|i: int, g: Seq<char>|
                        0 <= i < self.body().variants@.len() ==> (spec.tagged(i, g)
                            <==> self.body().variants@[i].tags().contains(g)),
                decreases n - i,
            {
                let member = tagged_with(&self.body.variants[i].groups, &name);
                proof {
                    assert(member == spec.tagged(i as int, name@));
                }
                if member {
                    mask = mask | (1u128 << i);
                }
                i = i + 1;
            }
            proof {
                spec.lemma_group_mask_below(name@, n as nat);
            }
            group_names.push(name);
            group_masks.push(mask);
            j = j + 1;
        }
        let full_mask = mask_of_len(n);
        proof {
            assert(names@.map_values(|s: String| s@) =~= item_names);
            assert(group_names@.map_values(|s: String| s@) =~= declared);
        }
        let r = Layout {
            repr: self.repr,
            item_type: self.body.name.value.clone(),
            set_type: self.decl.set.value.clone(),
            names,
            group_names,
            group_masks,
            full_mask,
        };
        proof {
            assert(r.names() =~= item_names);
            assert(r.group_names() =~= declared);
            assert(r@.codes =~= plan(spec).codes);
            assert forall|g: Seq<char>| r.group_names().contains(g) implies r.group_masks()[position_of(
                r.group_names(),
                g,
            )] == spec.group_mask(g) by {
                let p = position_of(r.group_names(), g);
                assert(r.group_masks()[p] == spec.group_mask(self.decl.groups@[p].value@));
            }
            assert(r@.groups =~= plan(spec).groups);
        }
        r
    }
}

/// The names of a listing, separated by a comma and a space.
pub open spec fn joined(names: Seq<Seq<char>>) -> Seq<char>
    decreases names.len(),
{
    if names.len() == 0 {
        Seq::<char>::empty()
    } else if names.len() == 1 {
        names[0]
    } else {
        joined(names.drop_last()) + ", "@ + names.last()
    }
}

/// A listing of names as text: the names between braces.
pub open spec fn rendered(names: Seq<Seq<char>>) -> Seq<char> {
    "{"@ + joined(names) + "}"@
}

impl Layout {
    /// The names of the items of the pattern `bits`, in declaration order.
    /// Positions beyond the domain have no name and are left out.
    pub open spec fn names_in(self, bits: u128) -> Seq<Seq<char>> {
        ascending(bits, 0, self.names().len()).map_values(|p: nat| self.names()[p as int])
    }

    /// The names of the items of the pattern `bits`, in declaration order.
    pub fn item_names(&self, bits: u128) -> (r: Vec<String>)
        ensures
            r@.map_values(|s: String| s@) == self.names_in(bits),
    {
        proof {
            use_type_invariant(self);
        }
        let n = self.names.len();
        let mut r: Vec<String> = Vec::new();
        let mut i: usize = 0;
        let ghost names = self.names();
        while i < n
            invariant
                i <= n,
                n == self.names@.len(),
                n <= 128,
                names == self.names(),
                r@.map_values(|s: String| s@) == ascending(bits, 0, i as nat).map_values(
                    |p: nat| names[p as int],
                ),
            decreases n - i,
        {
            let ghost before = r@.map_values(|s: String| s@);
            let ghost listed = ascending(bits, 0, i as nat);
            proof {
                lemma_ascending_grow(bits, 0, i as nat);
            }
            if bits & (1u128 << i) != 0 {
                r.push(self.names[i].clone());
                proof {
                    assert(names[i as int] == self.names@[i as int]@);
                    assert(r@.map_values(|s: String| s@) =~= before.push(names[i as int]));
                    assert(listed.push(i as nat).map_values(|p: nat| names[p as int])
                        =~= listed.map_values(|p: nat| names[p as int]).push(names[i as int]));
                }
            }
            i = i + 1;
        }
        r
    }

    /// The pattern `bits` as text: the names of its items, in declaration
    /// order, between braces. Neither the pattern as a number nor the name
    /// of the set type appears.
    pub fn render(&self, bits: u128) -> (r: String)
        ensures
            r@ == rendered(self.names_in(bits)),
    {
        let names = self.item_names(bits);
        let ghost texts = names@.map_values(|s: String| s@);
        let mut out = String::new();
        out.append("{");
        let mut k: usize = 0;
        proof {
            assert("{"@ + joined(texts.take(0)) =~= "{"@);
            assert(Seq::<char>::empty() + "{"@ =~= "{"@);
        }
        while k < names.len()
            invariant
                k <= names@.len(),
                texts == names@.map_values(|s: String| s@),
                out@ == "{"@ + joined(texts.take(k as int)),
            decreases names@.len() - k,
        {
            let ghost before = texts.take(k as int);
            let ghost after = texts.take(k + 1);
            proof {
                assert(after.drop_last() =~= before);
                assert(after.last() == names@[k as int]@);
            }
            if k > 0 {
                out.append(", ");
            }
            out.append(names[k].as_str());
            proof {
                if k == 0 {
                    assert(joined(before) =~= Seq::<char>::empty());
                    assert(joined(after) == after[0]);
                    assert("{"@ + joined(before) + names@[k as int]@ =~= "{"@ + joined(after));
                } else {
                    assert(("{"@ + joined(before)) + ", "@ + names@[k as int]@ =~= "{"@ + (joined(
                        before,
                    ) + ", "@ + names@[k as int]@));
                }
            }
            k = k + 1;
        }
        proof {
            assert(texts.take(k as int) =~= texts);
        }
        out.append("}");
        out
    }

    /// Whether the set type `T` has as many items as the layout.
    pub fn matches_type<T: Flags>(&self) -> (r: bool)
        ensures
            r == (T::domain_len() == self.names().len()),
    {
        T::domain_size() == self.names.len()
    }

    /// The set of the group called `name`, as a value of a set type with as
    /// many items as the layout.
    pub fn group_set<T: Flags>(&self, name: &str) -> (r: Option<T>)
        ensures
            r.is_some() <==> T::domain_len() == self.names().len() && self@.groups.dom().contains(
                name@,
            ),
            r matches Some(set) ==> set.bits() == self@.groups[name@] && set == T::spec_from_bits(
                self@.groups[name@],
            ),
    {
        if !self.matches_type::<T>() {
            return None;
        }
        match self.group(name) {
            Some(mask) => T::try_from_bits(mask),
            None => None,
        }
    }

    /// The item called `name`, as a value of the item type of a set type
    /// with as many items as the layout.
    pub fn item<T: Flags>(&self, name: &str) -> (r: Option<T::Item>)
        ensures
            r.is_some() <==> T::domain_len() == self.names().len() && self.names().contains(name@),
            r matches Some(item) ==> item == T::spec_item_at(
                position_of(self.names(), name@) as nat,
            ) && item.position() == position_of(self.names(), name@),
    {
        if !self.matches_type::<T>() {
            return None;
        }
        match self.position(name) {
            Some(i) => {
                proof {
                    T::lemma_item_at(i as nat);
                }
                T::item_at(i)
            },
            None => None,
        }
    }

    /// A set as text: the names of its items, in declaration order, between
    /// braces.
    pub fn render_set<T: Flags>(&self, set: T) -> (r: String)
        ensures
            r@ == rendered(self.names_in(set.bits())),
    {
        self.render(set.to_bits())
    }
}

impl Layout {
    /// Every pattern within the domain fits the chosen representation.
    pub proof fn lemma_width_holds(self, m: u128)
        requires
            self.wf(),
            fits(m, self.names().len()),
        ensures
            fits(m, self@.width),
            self.names().len() <= self@.width <= 128,
    {
        let n = self.names().len();
        let w = self@.width;
        lemma_members_fits(m, n);
        lemma_members_fits(m, w);
        assert(members(m).subset_of(domain(w))) by {
            assert forall|p: nat| members(m).contains(p) implies domain(
                w,
            ).contains(p) by {
                assert(domain(n).contains(p));
            }
        }
    }
}

} // verus!
