//! Compact sets over a closed, ordered domain of at most 128 named items.
//!
//! A domain is declared as an ordered list of item names with optional group
//! tags. From a declaration the crate derives a [`layout::Layout`]: one
//! power-of-two code per item, the narrowest integer width that holds them,
//! and one mask per declared group. Sets over a domain are single bit
//! patterns with a complete set algebra, see [`flags::Flags`].

pub mod bits;
pub mod repr;
pub mod error;
pub mod parser;
pub mod builder;
pub mod layout;
pub mod flags;
pub mod flagset;
pub mod iter;
pub mod feature_serde;
pub mod example;
pub mod laws;
