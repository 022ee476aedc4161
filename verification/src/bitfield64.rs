//! Module containing [`Bitfield64`], the bit-set of width 64.

use vstd::prelude::*;
use crate::bitlogic::{
    all_set, all_unset, count_false, count_true, fits, one_hot, resized, seq_and, seq_diff,
    seq_not, seq_or, seq_shl, seq_shr, seq_xor,
};
use crate::bitops::{
    bit128, bit32, bit64, lemma_u128_bits, lemma_u32_bits, lemma_u64_bits,
    lemma_view128_concat, lemma_view128_fits, lemma_view128_narrow_64, lemma_view64_consts,
    lemma_view64_halves, lemma_view64_injective, lemma_view64_ops, lemma_view64_shifts,
    lemma_view64_update, lemma_view64_widen_128, view128, view32, view64,
};
use crate::error::{ConvError, ConvResult, ConvTarget};
use crate::index::Index;
use crate::bitfield32::Bitfield32;
use crate::bitfield128::Bitfield128;

verus! {

/// Bit-set of width 64.
///
/// Wraps exactly one `u64` as its sole state; every one of the 64 bits is
/// meaningful and no bit outside `[0, 64)` exists. Its view is the sequence
/// of those bits, least significant first.
#[derive(Copy, Clone, PartialEq, Eq, Structural, PartialOrd, Ord, Hash, Debug, Default)]
pub struct Bitfield64(u64);

impl View for Bitfield64 {
    type V = Seq<bool>;

    open spec fn view(&self) -> Seq<bool> {
        view64(self.spec_inner())
    }
}

impl Bitfield64 {
    /// The wrapped integer, as a spec-level value.
    pub closed spec fn spec_inner(self) -> u64 {
        self.0
    }

    /// Constructs the bit-set whose underlying integer is `n`.
    pub fn new(n: u64) -> (r: Self)
        ensures
            r.spec_inner() == n,
            r@ == view64(n),
    {
        Bitfield64(n)
    }

    /// Returns the inner representation, the canonical interchange value.
    pub fn into_inner(&self) -> (r: u64)
        ensures
            r == self.spec_inner(),
    {
        self.0
    }

    /// The empty set: every bit unset.
    pub fn none() -> (r: Self)
        ensures
            r@ == all_unset(64),
            r.spec_inner() == 0,
    {
        proof {
            lemma_view64_consts();
        }
        Bitfield64(0)
    }

    /// The full set: every bit set.
    pub fn all() -> (r: Self)
        ensures
            r@ == all_set(64),
            r.spec_inner() == u64::MAX,
    {
        proof {
            lemma_view64_consts();
        }
        Bitfield64(u64::MAX)
    }

    /// The multiplicative one: only bit 0 set, the base value for shifts.
    pub fn one() -> (r: Self)
        ensures
            r@ == one_hot(64, 0),
            r.spec_inner() == 1,
    {
        proof {
            lemma_view64_consts();
        }
        Bitfield64(1)
    }

    /// The singleton set holding exactly the given position.
    pub fn from_index(i: Index<64>) -> (r: Self)
        ensures
            r@ == one_hot(64, i.spec_value() as int),
    {
        let v = i.value();
        proof {
            lemma_view64_consts();
        }
        Bitfield64(1u64 << v)
    }

    /// Whether bit `i` is set.
    pub fn bit(&self, i: Index<64>) -> (r: bool)
        ensures
            r == self@[i.spec_value() as int],
    {
        let v = i.value();
        proof {
            assert(self@[v as int] == bit64(self.0, v));
        }
        (self.0 >> v) & 1 == 1
    }

    /// Writes bit `i` in place: the set afterwards differs from the old one
    /// at exactly that position, which now holds `value`.
    pub fn set_bit(&mut self, i: Index<64>, value: bool)
        ensures
            final(self)@ == old(self)@.update(i.spec_value() as int, value),
    {
        let v = i.value();
        proof {
            lemma_view64_update(self.0, v);
        }
        if value {
            self.0 = self.0 | (1u64 << v);
        } else {
            self.0 = self.0 & !(1u64 << v);
        }
    }

    /// Forces bit `i` to one in place.
    pub fn check_bit(&mut self, i: Index<64>)
        ensures
            final(self)@ == old(self)@.update(i.spec_value() as int, true),
    {
        self.set_bit(i, true);
    }

    /// Forces bit `i` to zero in place.
    pub fn uncheck_bit(&mut self, i: Index<64>)
        ensures
            final(self)@ == old(self)@.update(i.spec_value() as int, false),
    {
        self.set_bit(i, false);
    }

    /// Exact number of set bits, never above the width.
    pub fn count_ones(&self) -> (r: usize)
        ensures
            r == count_true(self@),
    {
        let mut c: usize = 0;
        let mut i: usize = 0;
        while i < 64
            invariant
                i <= 64,
                c <= i,
                c == count_true(self@.take(i as int)),
            decreases 64 - i,
        {
            proof {
                crate::bitlogic::lemma_count_true_take_succ(self@, i as int);
                assert(self@[i as int] == bit64(self.0, i));
            }
            if (self.0 >> i) & 1 == 1 {
                c = c + 1;
            }
            i = i + 1;
        }
        proof {
            crate::bitlogic::lemma_take_all(self@);
        }
        c
    }

    /// Exact number of unset bits, never above the width.
    pub fn count_zeros(&self) -> (r: usize)
        ensures
            r == count_false(self@),
    {
        let mut c: usize = 0;
        let mut i: usize = 0;
        while i < 64
            invariant
                i <= 64,
                c <= i,
                c == count_false(self@.take(i as int)),
            decreases 64 - i,
        {
            proof {
                crate::bitlogic::lemma_count_true_take_succ(self@, i as int);
                assert(self@[i as int] == bit64(self.0, i));
            }
            if !((self.0 >> i) & 1 == 1) {
                c = c + 1;
            }
            i = i + 1;
        }
        proof {
            crate::bitlogic::lemma_take_all(self@);
        }
        c
    }

    /// The complement: every bit flipped.
    pub fn complement(&self) -> (r: Self)
        ensures
            r@ == seq_not(self@),
    {
        proof {
            lemma_view64_ops(self.0, self.0);
        }
        Bitfield64(!self.0)
    }

    /// The intersection: bits set in both operands.
    pub fn intersection(&self, other: Self) -> (r: Self)
        ensures
            r@ == seq_and(self@, other@),
    {
        proof {
            lemma_view64_ops(self.0, other.0);
        }
        Bitfield64(self.0 & other.0)
    }

    /// The union: bits set in either operand.
    pub fn union(&self, other: Self) -> (r: Self)
        ensures
            r@ == seq_or(self@, other@),
    {
        proof {
            lemma_view64_ops(self.0, other.0);
        }
        Bitfield64(self.0 | other.0)
    }

    /// The difference: bits set in `self` but not in `other`.
    pub fn difference(&self, other: Self) -> (r: Self)
        ensures
            r@ == seq_diff(self@, other@),
    {
        proof {
            lemma_view64_ops(self.0, other.0);
        }
        Bitfield64(self.0 & !other.0)
    }

    /// The symmetric difference: bits set in exactly one operand.
    pub fn sym_difference(&self, other: Self) -> (r: Self)
        ensures
            r@ == seq_xor(self@, other@),
    {
        proof {
            lemma_view64_ops(self.0, other.0);
        }
        Bitfield64(self.0 ^ other.0)
    }

    /// Logical left shift by a validated amount: zero fill, no wraparound.
    pub fn shl(&self, i: Index<64>) -> (r: Self)
        ensures
            r@ == seq_shl(self@, i.spec_value() as int),
    {
        let v = i.value();
        proof {
            lemma_view64_shifts(self.0, v);
        }
        Bitfield64(self.0 << v)
    }

    /// Logical right shift by a validated amount: zero fill, no wraparound.
    pub fn shr(&self, i: Index<64>) -> (r: Self)
        ensures
            r@ == seq_shr(self@, i.spec_value() as int),
    {
        let v = i.value();
        proof {
            lemma_view64_shifts(self.0, v);
        }
        Bitfield64(self.0 >> v)
    }

    /// Builds a set from an ordered sequence of booleans: the `i`-th item
    /// decides bit `i`. Consumes at most 64 items; excess items are
    /// dropped by design, and missing ones leave their bits unset.
    pub fn from_bits(bits: &Vec<bool>) -> (r: Self)
        ensures
            r@ == resized(bits@, 64),
    {
        let mut acc: u64 = 0;
        let mut i: usize = 0;
        proof {
            lemma_u64_bits();
        }
        while i < 64 && i < bits.len()
            invariant
                i <= 64,
                forall|j: usize|
                    j < 64 ==> #[trigger] bit64(acc, j) == (j < i && j < bits@.len()
                        && bits@[j as int]),
            decreases 64 - i,
        {
            proof {
                lemma_u64_bits();
            }
            if bits[i] {
                acc = acc | (1u64 << i);
            }
            i = i + 1;
        }
        proof {
            assert(view64(acc) =~= resized(bits@, 64));
        }
        Bitfield64(acc)
    }

    /// A fresh left-to-right bit iterator over this set.
    pub fn bits(&self) -> (r: Bits64)
        ensures
            r@ == self@,
    {
        let r = Bits64 { field: *self, pos: 0 };
        proof {
            assert(r@ =~= self@);
        }
        r
    }

    /// A fresh iterator over the positions of set bits, ascending.
    pub fn ones(&self) -> (r: Ones64)
        ensures
            r.spec_field() == *self,
            r.spec_pos() == 0,
    {
        Ones64 { field: *self, pos: 0 }
    }

    /// A fresh iterator over the positions of unset bits, ascending.
    pub fn zeros(&self) -> (r: Zeros64)
        ensures
            r.spec_field() == *self,
            r.spec_pos() == 0,
    {
        Zeros64 { field: *self, pos: 0 }
    }

    /// Widens to 128 bits one bit at a time: the value is preserved and
    /// the added high bits are unset. Always succeeds.
    pub fn expand_128(&self) -> (r: Bitfield128)
        ensures
            r@ == resized(self@, 128),
    {
        let mut acc: u128 = 0;
        let mut i: usize = 0;
        proof {
            lemma_u128_bits();
        }
        while i < 64
            invariant
                i <= 64,
                forall|j: usize|
                    j < 128 ==> #[trigger] bit128(acc, j) == (j < i && bit64(self.spec_inner(),
                    j)),
            decreases 64 - i,
        {
            proof {
                lemma_u128_bits();
            }
            if (self.0 >> i) & 1 == 1 {
                acc = acc | (1u128 << i);
            }
            i = i + 1;
        }
        proof {
            assert(view128(acc) =~= resized(view64(self.0), 128));
        }
        Bitfield128::new(acc)
    }

    /// Widens to 128 bits in one move; agrees with [`Self::expand_128`] on
    /// every input, as both contracts pin the same view.
    pub fn expand_128_optimized(&self) -> (r: Bitfield128)
        ensures
            r@ == resized(self@, 128),
    {
        proof {
            lemma_view64_widen_128(self.0);
        }
        Bitfield128::new(self.0 as u128)
    }

    /// Concatenates two width-64 sets into one of width 128: `self`
    /// occupies the low 64 bits of the result, `other` the high 64.
    pub fn combine(&self, other: Self) -> (r: Bitfield128)
        ensures
            r@ == self@ + other@,
    {
        let mut acc: u128 = 0;
        let mut i: usize = 0;
        proof {
            lemma_u128_bits();
        }
        while i < 128
            invariant
                i <= 128,
                forall|j: usize|
                    j < 128 ==> #[trigger] bit128(acc, j) == (j < i && (if j < 64 {
                        bit64(self.spec_inner(), j)
                    } else {
                        bit64(other.spec_inner(), (j - 64) as usize)
                    })),
            decreases 128 - i,
        {
            proof {
                lemma_u128_bits();
            }
            let b = if i < 64 {
                (self.0 >> i) & 1 == 1
            } else {
                (other.0 >> (i - 64)) & 1 == 1
            };
            if b {
                acc = acc | (1u128 << i);
            }
            i = i + 1;
        }
        proof {
            assert(view128(acc) =~= view64(self.0) + view64(other.0));
        }
        Bitfield128::new(acc)
    }

    /// Concatenates by splicing whole halves at once; agrees with
    /// [`Self::combine`] on every input, as both contracts pin the same view.
    pub fn combine_optimized(&self, other: Self) -> (r: Bitfield128)
        ensures
            r@ == self@ + other@,
    {
        proof {
            lemma_view128_concat(self.0, other.0);
        }
        Bitfield128::new(((other.0 as u128) << 64) | (self.0 as u128))
    }

    /// Splits into the low and the high half, each of width 32; the
    /// total inverse of combining.
    pub fn split(&self) -> (r: (Bitfield32, Bitfield32))
        ensures
            r.0@ == self@.subrange(0, 32),
            r.1@ == self@.subrange(32, 64),
    {
        let mut lo: u32 = 0;
        let mut i: usize = 0;
        proof {
            lemma_u32_bits();
        }
        while i < 32
            invariant
                i <= 32,
                forall|j: usize|
                    j < 32 ==> #[trigger] bit32(lo, j) == (j < i && bit64(
                        self.spec_inner(),
                        j,
                    )),
            decreases 32 - i,
        {
            proof {
                lemma_u32_bits();
            }
            if (self.0 >> i) & 1 == 1 {
                lo = lo | (1u32 << i);
            }
            i = i + 1;
        }
        let mut hi: u32 = 0;
        let mut k: usize = 0;
        while k < 32
            invariant
                k <= 32,
                forall|j: usize|
                    j < 32 ==> #[trigger] bit32(hi, j) == (j < k && bit64(
                        self.spec_inner(),
                        (j + 32) as usize,
                    )),
            decreases 32 - k,
        {
            proof {
                lemma_u32_bits();
            }
            if (self.0 >> (k + 32)) & 1 == 1 {
                hi = hi | (1u32 << k);
            }
            k = k + 1;
        }
        proof {
            assert(view32(lo) =~= view64(self.0).subrange(0, 32));
            assert(view32(hi) =~= view64(self.0).subrange(32, 64));
        }
        (Bitfield32::new(lo), Bitfield32::new(hi))
    }

    /// Splits by truncation and one shift; agrees with [`Self::split`] on
    /// every input, as both contracts pin the same views.
    pub fn split_optimized(&self) -> (r: (Bitfield32, Bitfield32))
        ensures
            r.0@ == self@.subrange(0, 32),
            r.1@ == self@.subrange(32, 64),
    {
        proof {
            lemma_view64_halves(self.0);
        }
        (Bitfield32::new(self.0 as u32), Bitfield32::new((self.0 >> 32) as u32))
    }

    /// Fallible narrowing from width 128: succeeds exactly when every bit
    /// at position 64 or above is unset, keeping the low bits unchanged;
    /// reports a field-to-field conversion error otherwise.
    pub fn try_from_bitfield128(value: Bitfield128) -> (r: ConvResult<Self>)
        ensures
            r is Ok <==> fits(value@, 64),
            r matches Ok(x) ==> x@ == resized(value@, 64),
            r matches Err(e) ==> e == (ConvError {
                from: ConvTarget::Field(128),
                to: ConvTarget::Field(64),
            }),
    {
        let n = value.into_inner();
        proof {
            lemma_view128_fits(n, 64);
        }
        if n >> 64 == 0 {
            proof {
                lemma_view128_narrow_64(n);
            }
            Ok(Bitfield64::new(n as u64))
        } else {
            Err(ConvError::new(ConvTarget::Field(128), ConvTarget::Field(64)))
        }
    }

}

/// Left-to-right bit sequence over a [`Bitfield64`]: yields the 64 bits
/// in ascending index order, then stops. Restartable by building a fresh
/// iterator from the same set; its view is the sequence of bits not yet
/// yielded.
pub struct Bits64 {
    field: Bitfield64,
    pos: usize,
}

impl View for Bits64 {
    type V = Seq<bool>;

    closed spec fn view(&self) -> Seq<bool> {
        self.field@.skip(self.pos as int)
    }
}

impl Bits64 {
    #[verifier::type_invariant]
    spec fn type_inv(self) -> bool {
        self.pos <= 64
    }

    /// Yields the next bit, or nothing once all 64 have been produced.
    pub fn next(&mut self) -> (r: Option<bool>)
        ensures
            old(self)@.len() > 0 ==> r == Some(old(self)@[0]) && final(self)@ == old(
                self,
            )@.skip(1),
            old(self)@.len() == 0 ==> r == None::<bool> && final(self)@ == old(self)@,
    {
        proof {
            use_type_invariant(&*self);
        }
        if self.pos < 64 {
            let b = (self.field.0 >> self.pos) & 1 == 1;
            proof {
                assert(old(self)@[0] == self.field@[self.pos as int]);
                assert(self.field@[self.pos as int] == bit64(self.field.0, self.pos));
            }
            self.pos = self.pos + 1;
            proof {
                assert(self@ =~= old(self)@.skip(1));
            }
            Some(b)
        } else {
            None
        }
    }
}

/// Ascending positions of the set bits of a [`Bitfield64`]: each step
/// yields the least set position at or after the cursor, or nothing when
/// none remains. The empty set yields nothing at once.
pub struct Ones64 {
    field: Bitfield64,
    pos: usize,
}

impl Ones64 {
    #[verifier::type_invariant]
    spec fn type_inv(self) -> bool {
        self.pos <= 64
    }

    /// The set being walked.
    pub closed spec fn spec_field(self) -> Bitfield64 {
        self.field
    }

    /// The cursor: every set position below it has already been yielded.
    pub closed spec fn spec_pos(self) -> usize {
        self.pos
    }

    /// Yields the least set position at or after the cursor, if any.
    pub fn next(&mut self) -> (r: Option<Index<64>>)
        ensures
            final(self).spec_field() == old(self).spec_field(),
            r matches Some(ix) ==> old(self).spec_pos() <= ix.spec_value()
                && ix.spec_value() < 64
                && old(self).spec_field()@[ix.spec_value() as int]
                && final(self).spec_pos() == ix.spec_value() + 1
                && (forall|k: int|
                    old(self).spec_pos() <= k < ix.spec_value()
                        ==> !old(self).spec_field()@[k]),
            r is None ==> final(self).spec_pos() == 64 && (forall|k: int|
                old(self).spec_pos() <= k < 64 ==> !old(self).spec_field()@[k]),
    {
        proof {
            use_type_invariant(&*self);
        }
        let f = self.field;
        let mut p = self.pos;
        while p < 64 && !((f.0 >> p) & 1 == 1)
            invariant
                old(self).spec_pos() <= p <= 64,
                f == old(self).spec_field(),
                forall|k: int| old(self).spec_pos() <= k < p ==> !f@[k],
            decreases 64 - p,
        {
            proof {
                assert(f@[p as int] == bit64(f.0, p));
            }
            p = p + 1;
        }
        if p < 64 {
            proof {
                assert(f@[p as int] == bit64(f.0, p));
            }
            self.pos = p + 1;
            Some(Index::from_valid(p))
        } else {
            self.pos = 64;
            None
        }
    }
}

/// Ascending positions of the unset bits of a [`Bitfield64`]: each step
/// yields the least unset position at or after the cursor, or nothing when
/// none remains. The full set yields nothing at once.
pub struct Zeros64 {
    field: Bitfield64,
    pos: usize,
}

impl Zeros64 {
    #[verifier::type_invariant]
    spec fn type_inv(self) -> bool {
        self.pos <= 64
    }

    /// The set being walked.
    pub closed spec fn spec_field(self) -> Bitfield64 {
        self.field
    }

    /// The cursor: every unset position below it has already been yielded.
    pub closed spec fn spec_pos(self) -> usize {
        self.pos
    }

    /// Yields the least unset position at or after the cursor, if any.
    pub fn next(&mut self) -> (r: Option<Index<64>>)
        ensures
            final(self).spec_field() == old(self).spec_field(),
            r matches Some(ix) ==> old(self).spec_pos() <= ix.spec_value()
                && ix.spec_value() < 64
                && !old(self).spec_field()@[ix.spec_value() as int]
                && final(self).spec_pos() == ix.spec_value() + 1
                && (forall|k: int|
                    old(self).spec_pos() <= k < ix.spec_value()
                        ==> old(self).spec_field()@[k]),
            r is None ==> final(self).spec_pos() == 64 && (forall|k: int|
                old(self).spec_pos() <= k < 64 ==> old(self).spec_field()@[k]),
    {
        proof {
            use_type_invariant(&*self);
        }
        let f = self.field;
        let mut p = self.pos;
        while p < 64 && (f.0 >> p) & 1 == 1
            invariant
                old(self).spec_pos() <= p <= 64,
                f == old(self).spec_field(),
                forall|k: int| old(self).spec_pos() <= k < p ==> f@[k],
            decreases 64 - p,
        {
            proof {
                assert(f@[p as int] == bit64(f.0, p));
            }
            p = p + 1;
        }
        if p < 64 {
            proof {
                assert(f@[p as int] == bit64(f.0, p));
            }
            self.pos = p + 1;
            Some(Index::from_valid(p))
        } else {
            self.pos = 64;
            None
        }
    }
}

/// Two width-64 sets with the same view are the same value: the bit
/// sequence is a complete model of the set. Together with the conversion
/// contracts, which pin each result's view, this says the bit-by-bit and
/// the optimized conversion paths return identical values on every input.
pub proof fn lemma_view_injective(a: Bitfield64, b: Bitfield64)
    requires
        a@ == b@,
    ensures
        a == b,
{
    lemma_view64_injective(a.spec_inner(), b.spec_inner());
}

/// Rebuilding a set from its inner integer gives the set back:
/// with the contracts of `new` and `into_inner`, `new(x.into_inner()) == x`.
pub proof fn lemma_inner_roundtrip(x: Bitfield64, y: Bitfield64)
    requires
        y.spec_inner() == x.spec_inner(),
    ensures
        y == x,
{
}

/// Set and unset bits together account for every position:
/// `count_ones` and `count_zeros` always sum to 64.
pub proof fn lemma_count_invariant(x: Bitfield64)
    ensures
        count_true(x@) + count_false(x@) == 64,
{
    crate::bitlogic::lemma_count_split(x@);
}

/// Complementing twice gives the original set: with `complement`'s
/// contract, `x.complement().complement() == x`.
pub proof fn lemma_complement_involution(x: Bitfield64, c: Bitfield64, cc: Bitfield64)
    requires
        c@ == seq_not(x@),
        cc@ == seq_not(c@),
    ensures
        cc == x,
{
    crate::bitlogic::lemma_complement_involution(x@);
    lemma_view_injective(cc, x);
}

/// Absorption: intersecting a union with itself changes nothing, so
/// `x.union(y).intersection(x.union(y)) == x.union(y)`.
pub proof fn lemma_union_absorption(x: Bitfield64, y: Bitfield64, u: Bitfield64, r: Bitfield64)
    requires
        u@ == seq_or(x@, y@),
        r@ == seq_and(u@, u@),
    ensures
        r == u,
{
    crate::bitlogic::lemma_absorption(x@, y@);
    lemma_view_injective(r, u);
}

/// The difference is the intersection with the complement:
/// `x.difference(y) == x.intersection(y.complement())`.
pub proof fn lemma_difference_law(
    x: Bitfield64,
    y: Bitfield64,
    d: Bitfield64,
    c: Bitfield64,
    i: Bitfield64,
)
    requires
        d@ == seq_diff(x@, y@),
        c@ == seq_not(y@),
        i@ == seq_and(x@, c@),
    ensures
        d == i,
{
    crate::bitlogic::lemma_difference_as_intersection(x@, y@);
    lemma_view_injective(d, i);
}

/// De Morgan: the complement of a union is the intersection of the
/// complements.
pub proof fn lemma_de_morgan_union(x: Bitfield64, y: Bitfield64, a: Bitfield64, b: Bitfield64)
    requires
        a@ == seq_not(seq_or(x@, y@)),
        b@ == seq_and(seq_not(x@), seq_not(y@)),
    ensures
        a == b,
{
    crate::bitlogic::lemma_de_morgan_union(x@, y@);
    lemma_view_injective(a, b);
}

/// De Morgan: the complement of an intersection is the union of the
/// complements.
pub proof fn lemma_de_morgan_intersection(
    x: Bitfield64,
    y: Bitfield64,
    a: Bitfield64,
    b: Bitfield64,
)
    requires
        a@ == seq_not(seq_and(x@, y@)),
        b@ == seq_or(seq_not(x@), seq_not(y@)),
    ensures
        a == b,
{
    crate::bitlogic::lemma_de_morgan_intersection(x@, y@);
    lemma_view_injective(a, b);
}

/// A bit iterator agrees with positional access: after `k` bits have been
/// yielded, the head of what remains is exactly bit `k` of the set.
pub proof fn lemma_bit_iter_agreement(x: Bitfield64, k: int)
    requires
        0 <= k < 64,
    ensures
        x@.skip(k)[0] == x@[k],
{
}

/// Splitting a combined set gives both halves back: with the contracts of
/// `combine` and `split`, `split(combine(a, b)) == (a, b)`.
pub proof fn lemma_combine_split_roundtrip(
    a: Bitfield32,
    b: Bitfield32,
    c: Bitfield64,
    lo: Bitfield32,
    hi: Bitfield32,
)
    requires
        c@ == a@ + b@,
        lo@ == c@.subrange(0, 32),
        hi@ == c@.subrange(32, 64),
    ensures
        lo == a,
        hi == b,
{
    assert(lo@ =~= a@);
    assert(hi@ =~= b@);
    crate::bitfield32::lemma_view_injective(lo, a);
    crate::bitfield32::lemma_view_injective(hi, b);
}

/// Combining the two halves of a split gives the original set back: with
/// the contracts of `split` and `combine`, `combine(split(x)) == x`.
pub proof fn lemma_split_combine_roundtrip(
    c: Bitfield64,
    lo: Bitfield32,
    hi: Bitfield32,
    r: Bitfield64,
)
    requires
        lo@ == c@.subrange(0, 32),
        hi@ == c@.subrange(32, 64),
        r@ == lo@ + hi@,
    ensures
        r == c,
{
    assert(r@ =~= c@);
    lemma_view_injective(r, c);
}

} // verus!
