//! A domain written out by hand, as an example of what a set type is.

pub mod weekdays;
