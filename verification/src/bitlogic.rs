//! Boolean-sequence model of fixed-width bit-sets.
//!
//! Every bit-set in this crate is viewed as a `Seq<bool>` whose element `i`
//! is bit `i` of the underlying integer, least significant bit first. The
//! spec functions here are the pointwise set operations on such sequences;
//! the proof functions are the algebraic laws those operations obey, stated
//! once, independent of any particular width.

use vstd::prelude::*;

verus! {

/// Pointwise negation: the complement of a bit-set.
pub open spec fn seq_not(s: Seq<bool>) -> Seq<bool> {
    Seq::new(s.len(), |i: int| !s[i])
}

/// Pointwise conjunction: the intersection of two bit-sets of equal width.
pub open spec fn seq_and(s: Seq<bool>, t: Seq<bool>) -> Seq<bool>
    recommends
        s.len() == t.len(),
{
    Seq::new(s.len(), |i: int| s[i] && t[i])
}

/// Pointwise disjunction: the union of two bit-sets of equal width.
pub open spec fn seq_or(s: Seq<bool>, t: Seq<bool>) -> Seq<bool>
    recommends
        s.len() == t.len(),
{
    Seq::new(s.len(), |i: int| s[i] || t[i])
}

/// Pointwise `a && !b`: the difference of two bit-sets of equal width.
pub open spec fn seq_diff(s: Seq<bool>, t: Seq<bool>) -> Seq<bool>
    recommends
        s.len() == t.len(),
{
    Seq::new(s.len(), |i: int| s[i] && !t[i])
}

/// Pointwise exclusive or: the symmetric difference of two bit-sets.
pub open spec fn seq_xor(s: Seq<bool>, t: Seq<bool>) -> Seq<bool>
    recommends
        s.len() == t.len(),
{
    Seq::new(s.len(), |i: int| s[i] != t[i])
}

/// The empty set of width `n`: every bit unset.
pub open spec fn all_unset(n: nat) -> Seq<bool> {
    Seq::new(n, |i: int| false)
}

/// The full set of width `n`: every bit set.
pub open spec fn all_set(n: nat) -> Seq<bool> {
    Seq::new(n, |i: int| true)
}

/// The singleton set of width `n` whose only member is position `j`.
pub open spec fn one_hot(n: nat, j: int) -> Seq<bool> {
    Seq::new(n, |i: int| i == j)
}

/// Logical left shift by `k` within a fixed width: bit `i` of the result is
/// bit `i - k` of the input; the low `k` positions fill with `false` and the
/// top `k` bits of the input fall off.
pub open spec fn seq_shl(s: Seq<bool>, k: int) -> Seq<bool>
    recommends
        0 <= k,
{
    Seq::new(s.len(), |i: int| k <= i && s[i - k])
}

/// Logical right shift by `k` within a fixed width: bit `i` of the result is
/// bit `i + k` of the input; the high `k` positions fill with `false`.
pub open spec fn seq_shr(s: Seq<bool>, k: int) -> Seq<bool>
    recommends
        0 <= k,
{
    Seq::new(s.len(), |i: int| i + k < s.len() && s[i + k])
}

/// Width change that keeps the low bits: positions below both `n` and the
/// original width are preserved, positions above the original width read as
/// unset. Widening is zero-extension; narrowing keeps the low `n` bits.
pub open spec fn resized(s: Seq<bool>, n: nat) -> Seq<bool> {
    Seq::new(n, |i: int| i < s.len() && s[i])
}

/// Every bit at position `n` or above is unset: the value fits in `n` bits,
/// so narrowing to width `n` loses nothing.
pub open spec fn fits(s: Seq<bool>, n: int) -> bool {
    forall|i: int| n <= i < s.len() ==> !s[i]
}

/// Number of set bits.
pub open spec fn count_true(s: Seq<bool>) -> nat
    decreases s.len(),
{
    if s.len() == 0 {
        0
    } else {
        count_true(s.drop_last()) + if s.last() {
            1nat
        } else {
            0nat
        }
    }
}

/// Number of unset bits.
pub open spec fn count_false(s: Seq<bool>) -> nat
    decreases s.len(),
{
    if s.len() == 0 {
        0
    } else {
        count_false(s.drop_last()) + if s.last() {
            0nat
        } else {
            1nat
        }
    }
}

/// Counting one more bit adds one to exactly one of the two counts.
pub proof fn lemma_count_true_take_succ(s: Seq<bool>, i: int)
    requires
        0 <= i < s.len(),
    ensures
        count_true(s.take(i + 1)) == count_true(s.take(i)) + if s[i] {
            1int
        } else {
            0int
        },
        count_false(s.take(i + 1)) == count_false(s.take(i)) + if s[i] {
            0int
        } else {
            1int
        },
{
    assert(s.take(i + 1).drop_last() =~= s.take(i));
    assert(s.take(i + 1).last() == s[i]);
}

/// A full prefix is the sequence itself.
pub proof fn lemma_take_all(s: Seq<bool>)
    ensures
        s.take(s.len() as int) == s,
{
    assert(s.take(s.len() as int) =~= s);
}

/// Set and unset bits together account for every position: the two
/// population counts always add up to the width.
pub proof fn lemma_count_split(s: Seq<bool>)
    ensures
        count_true(s) + count_false(s) == s.len(),
    decreases s.len(),
{
    if s.len() > 0 {
        lemma_count_split(s.drop_last());
    }
}

/// Complementing twice gives the original set back.
pub proof fn lemma_complement_involution(s: Seq<bool>)
    ensures
        seq_not(seq_not(s)) == s,
{
    assert(seq_not(seq_not(s)) =~= s);
}

/// Absorption: intersecting a union with itself changes nothing.
pub proof fn lemma_absorption(s: Seq<bool>, t: Seq<bool>)
    requires
        s.len() == t.len(),
    ensures
        seq_and(seq_or(s, t), seq_or(s, t)) == seq_or(s, t),
{
    assert(seq_and(seq_or(s, t), seq_or(s, t)) =~= seq_or(s, t));
}

/// The difference is the intersection with the complement.
pub proof fn lemma_difference_as_intersection(s: Seq<bool>, t: Seq<bool>)
    requires
        s.len() == t.len(),
    ensures
        seq_diff(s, t) == seq_and(s, seq_not(t)),
{
    assert(seq_diff(s, t) =~= seq_and(s, seq_not(t)));
}

/// De Morgan: the complement of a union is the intersection of the
/// complements.
pub proof fn lemma_de_morgan_union(s: Seq<bool>, t: Seq<bool>)
    requires
        s.len() == t.len(),
    ensures
        seq_not(seq_or(s, t)) == seq_and(seq_not(s), seq_not(t)),
{
    assert(seq_not(seq_or(s, t)) =~= seq_and(seq_not(s), seq_not(t)));
}

/// De Morgan: the complement of an intersection is the union of the
/// complements.
pub proof fn lemma_de_morgan_intersection(s: Seq<bool>, t: Seq<bool>)
    requires
        s.len() == t.len(),
    ensures
        seq_not(seq_and(s, t)) == seq_or(seq_not(s), seq_not(t)),
{
    assert(seq_not(seq_and(s, t)) =~= seq_or(seq_not(s), seq_not(t)));
}

} // verus!
