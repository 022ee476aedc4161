//! The conversion-failure taxonomy.
//!
//! Every fallible operation in the crate reports the same error value: a
//! pair of [`ConvTarget`]s naming the shape on each side of the conversion
//! that could not be performed.

use vstd::prelude::*;

verus! {

/// The shape on one side of a conversion: a bit-set (field) of a given
/// width, an index bounded by a given width, an enumeration with a given
/// number of variants, or a raw integer value.
#[derive(Copy, Clone, PartialEq, Eq, Structural, PartialOrd, Ord, Hash, Debug)]
pub enum ConvTarget {
    Field(usize),
    Index(usize),
    Enum(usize),
    Raw(usize),
}

/// A failed conversion, described by where the value came from and where it
/// was headed. It carries no recovery state: the caller may try another
/// width, mask bits first, or give up.
#[derive(Copy, Clone, PartialEq, Eq, Structural, PartialOrd, Ord, Hash, Debug)]
pub struct ConvError {
    pub from: ConvTarget,
    pub to: ConvTarget,
}

/// Shorthand for results whose error is a [`ConvError`].
pub type ConvResult<T> = Result<T, ConvError>;

impl ConvError {
    /// Constructs the error describing a failed conversion from `from`
    /// to `to`.
    pub fn new(from: ConvTarget, to: ConvTarget) -> (r: Self)
        ensures
            r == (ConvError { from, to }),
    {
        ConvError { from, to }
    }
}

} // verus!
