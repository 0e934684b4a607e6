//! Why a declaration yields no layout.

use vstd::prelude::*;

verus! {

/// A rule that a declaration breaks. Positions count from zero, in
/// declaration order.
#[derive(Clone, Copy, PartialEq, Eq, Structural, Debug, Hash)]
pub enum SpecError {
    /// The domain has `count` items, more than the 128 that fit.
    TooManyItems { count: usize },
    /// The item at position `item` is given a numeric code of its own.
    ExplicitCodeNotAllowed { item: usize },
    /// The item at position `item` is more than a bare name.
    UnsupportedItemShape { item: usize },
    /// The tag at position `tag` of the item at position `item` names a
    /// group that is not declared.
    UndeclaredGroup { item: usize, tag: usize },
    /// The group declared at position `group` was declared before.
    DuplicateGroupDeclaration { group: usize },
}

impl SpecError {
    /// The text of the message for each kind of error.
    pub open spec fn spec_message(self) -> Seq<char> {
        match self {
            SpecError::TooManyItems { .. } => "flagnum only supports enums with up to 128 variants"@,
            SpecError::ExplicitCodeNotAllowed { .. } => "flagnum enums cannot have explicit discriminant values"@,
            SpecError::UnsupportedItemShape { .. } => "flagnum enums can only contain unit variants"@,
            SpecError::UndeclaredGroup { .. } => "Undeclared flagnum group"@,
            SpecError::DuplicateGroupDeclaration { .. } => "Groups have already been declared for this flagnum enum"@,
        }
    }

    /// A message that says which rule is broken.
    pub fn message(&self) -> (r: &'static str)
        ensures
            r@ == self.spec_message(),
    {
        match self {
            SpecError::TooManyItems { .. } => "flagnum only supports enums with up to 128 variants",
            SpecError::ExplicitCodeNotAllowed { .. } => "flagnum enums cannot have explicit discriminant values",
            SpecError::UnsupportedItemShape { .. } => "flagnum enums can only contain unit variants",
            SpecError::UndeclaredGroup { .. } => "Undeclared flagnum group",
            SpecError::DuplicateGroupDeclaration { .. } => "Groups have already been declared for this flagnum enum",
        }
    }
}

} // verus!
