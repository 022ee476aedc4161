//! Fixed-width typed bit-sets.
//!
//! Each `Bitfield` type wraps one unsigned integer of exactly its width and
//! offers boolean-set semantics: membership, union, intersection, difference,
//! symmetric difference, complement, positional access through a validated
//! index, iteration over bits and over set or unset positions, and conversion
//! between widths (lossless widening, fallible narrowing, and byte-aligned
//! combining and splitting).
//!
//! The specification model is a sequence of booleans, least significant bit
//! first: the view of a bit-set of width `W` is a `Seq<bool>` of length `W`
//! whose element `i` is bit `i`. All contracts are stated over that view.

pub mod bitfield128;
pub mod bitfield16;
pub mod bitfield32;
pub mod bitfield64;
pub mod bitfield8;
pub mod bitlogic;
pub mod bitops;
pub mod error;
pub mod index;
pub mod prelude;
