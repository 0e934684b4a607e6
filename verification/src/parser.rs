//! A declaration as it is handed over: the set type with its groups, and
//! the item type with its variants.

use vstd::prelude::*;

verus! {

/// A value together with the attributes written above it.
pub struct WithAttrs<T> {
    pub value: T,
    pub attrs: Vec<String>,
}

/// What is declared of the set type: its name and the names of its groups,
/// in the order in which they are written.
pub struct FlagnumDecl {
    pub set: WithAttrs<String>,
    pub groups: Vec<WithAttrs<String>>,
}

/// One variant of the item type as it is written.
pub struct Variant {
    /// The name of the item.
    pub name: String,
    /// The attributes of the variant other than its group tags.
    pub attrs: Vec<String>,
    /// The names of the groups that the item is tagged with.
    pub groups: Vec<String>,
    /// Whether the variant is given a numeric code of its own.
    pub has_discriminant: bool,
    /// Whether the variant is a bare name, without fields.
    pub is_unit: bool,
}

/// What is declared of the item type: its name and its variants, in the
/// order in which they are written.
pub struct FlagnumEnum {
    pub name: WithAttrs<String>,
    pub variants: Vec<Variant>,
}

impl<T> WithAttrs<T> {
    /// A value without attributes.
    pub fn bare(value: T) -> (r: Self)
        ensures
            r.value == value,
            r.attrs@.len() == 0,
    {
        WithAttrs { value, attrs: Vec::new() }
    }
}

impl Variant {
    /// A bare name without a code of its own, tagged with `groups`.
    pub fn unit(name: String, groups: Vec<String>) -> (r: Self)
        ensures
            r.name == name,
            r.groups == groups,
            r.attrs@.len() == 0,
            !r.has_discriminant,
            r.is_unit,
            r.plain(),
    {
        Variant { name, attrs: Vec::new(), groups, has_discriminant: false, is_unit: true }
    }

    /// Whether the variant is a bare name without a code of its own.
    pub open spec fn plain(self) -> bool {
        self.is_unit && !self.has_discriminant
    }

    /// The names of the groups that the item is tagged with.
    pub open spec fn tags(self) -> Seq<Seq<char>> {
        self.groups@.map_values(|g: String| g@)
    }
}

impl FlagnumDecl {
    /// The names of the declared groups, in the order of the declaration.
    pub open spec fn group_names(self) -> Seq<Seq<char>> {
        self.groups@.map_values(|g: WithAttrs<String>| g.value@)
    }
}

impl FlagnumEnum {
    /// The names of the items, in the order of the declaration.
    pub open spec fn names(self) -> Seq<Seq<char>> {
        self.variants@.map_values(|v: Variant| v.name@)
    }

    /// The number of items.
    pub open spec fn len(self) -> nat {
        self.variants@.len()
    }
}

} // verus!
