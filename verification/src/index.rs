//! The bounds-checked bit position shared by all bit-set widths.

use vstd::prelude::*;
use crate::error::{ConvError, ConvTarget};

verus! {

/// A validated bit position for a bit-set of width `W`.
///
/// The held value is always in `[0, W)`: construction from an out-of-range
/// integer fails with a typed error instead of truncating, so an `Index` in
/// hand addresses a real bit and shift or access through it cannot go out
/// of bounds. Immutable once constructed, ordered by position.
#[derive(Copy, Clone, PartialEq, Eq, PartialOrd, Ord, Hash, Debug)]
pub struct Index<const W: usize> {
    value: usize,
}

impl<const W: usize> Index<W> {
    /// The bit position this index addresses.
    pub closed spec fn spec_value(self) -> usize {
        self.value
    }

    #[verifier::type_invariant]
    spec fn type_inv(self) -> bool {
        self.value < W
    }

    /// Validated construction: succeeds exactly on positions below the
    /// width, and reports a raw-to-index conversion error otherwise.
    pub fn try_new(raw: usize) -> (r: Result<Self, ConvError>)
        ensures
            r matches Ok(i) ==> raw < W && i.spec_value() == raw,
            r matches Err(e) ==> raw >= W && e == (ConvError {
                from: ConvTarget::Raw(raw),
                to: ConvTarget::Index(W),
            }),
    {
        if raw < W {
            Ok(Index { value: raw })
        } else {
            Err(ConvError::new(ConvTarget::Raw(raw), ConvTarget::Index(W)))
        }
    }

    /// Construction from a position already known to be in range.
    pub(crate) fn from_valid(raw: usize) -> (r: Self)
        requires
            raw < W,
        ensures
            r.spec_value() == raw,
    {
        Index { value: raw }
    }

    /// The validated position, always below the width.
    pub fn value(&self) -> (r: usize)
        ensures
            r == self.spec_value(),
            r < W,
    {
        proof {
            use_type_invariant(self);
        }
        self.value
    }

    /// The smallest valid position: bit 0.
    pub fn min() -> (r: Self)
        requires
            0 < W,
        ensures
            r.spec_value() == 0,
    {
        Index { value: 0 }
    }

    /// The largest valid position: bit `W - 1`.
    pub fn max() -> (r: Self)
        requires
            0 < W,
        ensures
            r.spec_value() == W - 1,
    {
        Index { value: W - 1 }
    }
}

} // verus!
