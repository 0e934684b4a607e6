//! The integer width that represents the sets of a domain.

use vstd::prelude::*;

verus! {

/// The unsigned integer type that holds one bit per item of a domain.
#[derive(Clone, Copy, PartialEq, Eq, Structural, Debug, Hash)]
pub enum FlagnumRepr {
    U8,
    U16,
    U32,
    U64,
    U128,
}

impl FlagnumRepr {
    /// The number of bits of the representation.
    pub open spec fn spec_width(self) -> nat {
        match self {
            FlagnumRepr::U8 => 8,
            FlagnumRepr::U16 => 16,
            FlagnumRepr::U32 => 32,
            FlagnumRepr::U64 => 64,
            FlagnumRepr::U128 => 128,
        }
    }

    /// The representation chosen for a domain of `len` items: the narrowest
    /// that has a bit for each, or none when even the widest has too few.
    pub open spec fn spec_for_len(len: nat) -> Option<FlagnumRepr> {
        if len <= 8 {
            Some(FlagnumRepr::U8)
        } else if len <= 16 {
            Some(FlagnumRepr::U16)
        } else if len <= 32 {
            Some(FlagnumRepr::U32)
        } else if len <= 64 {
            Some(FlagnumRepr::U64)
        } else if len <= 128 {
            Some(FlagnumRepr::U128)
        } else {
            None
        }
    }

    /// The name of the integer type as source text.
    pub open spec fn spec_name(self) -> Seq<char> {
        match self {
            FlagnumRepr::U8 => "u8"@,
            FlagnumRepr::U16 => "u16"@,
            FlagnumRepr::U32 => "u32"@,
            FlagnumRepr::U64 => "u64"@,
            FlagnumRepr::U128 => "u128"@,
        }
    }

    /// Selects the representation for a domain of `len` items.
    pub fn try_from_enum_len(len: usize) -> (r: Option<FlagnumRepr>)
        ensures
            r == Self::spec_for_len(len as nat),
            r.is_some() <==> len <= 128,
    {
        if len <= 8 {
            Some(FlagnumRepr::U8)
        } else if len <= 16 {
            Some(FlagnumRepr::U16)
        } else if len <= 32 {
            Some(FlagnumRepr::U32)
        } else if len <= 64 {
            Some(FlagnumRepr::U64)
        } else if len <= 128 {
            Some(FlagnumRepr::U128)
        } else {
            None
        }
    }

    /// The name of the integer type as source text.
    pub fn name(&self) -> (r: &'static str)
        ensures
            r@ == self.spec_name(),
    {
        match self {
            FlagnumRepr::U8 => "u8",
            FlagnumRepr::U16 => "u16",
            FlagnumRepr::U32 => "u32",
            FlagnumRepr::U64 => "u64",
            FlagnumRepr::U128 => "u128",
        }
    }

    /// The number of bits of the representation.
    pub fn width(&self) -> (r: u32)
        ensures
            r == self.spec_width(),
    {
        match self {
            FlagnumRepr::U8 => 8,
            FlagnumRepr::U16 => 16,
            FlagnumRepr::U32 => 32,
            FlagnumRepr::U64 => 64,
            FlagnumRepr::U128 => 128,
        }
    }

    /// The chosen representation has a bit for every item, and no narrower
    /// representation has.
    pub proof fn lemma_for_len_is_narrowest(len: nat, other: FlagnumRepr)
        requires
            len <= 128,
        ensures
            Self::spec_for_len(len) matches Some(r) && len <= r.spec_width() && (len
                <= other.spec_width() ==> r.spec_width() <= other.spec_width()),
    {
    }
}

} // verus!
