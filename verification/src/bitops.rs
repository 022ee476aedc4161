//! Bridge between unsigned integers and their boolean-sequence views.
//!
//! For each supported width there is a bit-lookup spec function, a view that
//! lays the bits out as a `Seq<bool>` (least significant bit first), one
//! bit-vector lemma giving the pointwise meaning of every bitwise operation,
//! and an injectivity lemma: a value is determined by its bits. A second
//! family of lemmas lifts those facts to the sequence level, and a third
//! relates the views of different widths to one another for the width
//! conversions (zero-extension, truncation, and byte-aligned concatenation).

use vstd::prelude::*;
use crate::bitlogic::{
    all_set, all_unset, fits, one_hot, resized, seq_and, seq_diff, seq_not, seq_or, seq_shl,
    seq_shr, seq_xor,
};

verus! {

/// Bit `i` of an 8-bit value; positions outside the width read as unset.
pub open spec fn bit8(n: u8, i: usize) -> bool {
    i < 8 && (n >> i) & 1 == 1
}

/// The bits of an 8-bit value, least significant first.
pub open spec fn view8(n: u8) -> Seq<bool> {
    Seq::new(8, |i: int| bit8(n, i as usize))
}

/// The mask that keeps the low `k` bits of an 8-bit value.
pub open spec fn low_mask8(k: usize) -> u8 {
    !((!0u8) << k)
}

/// Pointwise meaning of the 8-bit bitwise operations.
pub proof fn lemma_u8_bits()
    by (bit_vector)
    ensures
        forall|a: u8, b: u8, i: usize| #[trigger] bit8(a & b, i) == (bit8(a, i) && bit8(b, i)),
        forall|a: u8, b: u8, i: usize| #[trigger] bit8(a | b, i) == (bit8(a, i) || bit8(b, i)),
        forall|a: u8, b: u8, i: usize| #[trigger] bit8(a ^ b, i) == (bit8(a, i) != bit8(b, i)),
        forall|a: u8, i: usize| #[trigger] bit8(!a, i) == (i < 8 && !bit8(a, i)),
        forall|i: usize| !(#[trigger] bit8(0u8, i)),
        forall|i: usize| #[trigger] bit8(u8::MAX, i) == (i < 8),
        forall|j: usize, i: usize| j < 8 ==> #[trigger] bit8(1u8 << j, i) == (i == j),
        forall|i: usize| #[trigger] bit8(1u8, i) == (i == 0),
        forall|a: u8, k: usize, i: usize|
            k < 8 ==> #[trigger] bit8(a << k, i) == (k <= i && i < 8 && bit8(
                a,
                (i - k) as usize,
            )),
        forall|a: u8, k: usize, i: usize|
            k < 8 ==> #[trigger] bit8(a >> k, i) == (i + k < 8 && bit8(
                a,
                (i + k) as usize,
            )),
        forall|a: u8| #[trigger] (a & low_mask8(0)) == 0,
        forall|a: u8| #[trigger] (a & low_mask8(8)) == a,
{
}

/// One step of the induction behind injectivity: if two values agree on
/// their low `k` bits and on bit `k`, they agree on their low `k + 1` bits.
proof fn lemma_u8_mask_step(a: u8, b: u8, k: usize)
    by (bit_vector)
    requires
        k < 8,
        a & low_mask8(k) == b & low_mask8(k),
        bit8(a, k) == bit8(b, k),
    ensures
        a & low_mask8((k + 1) as usize) == b & low_mask8((k + 1) as usize),
{
}

proof fn lemma_u8_injective_rec(a: u8, b: u8, k: usize)
    requires
        k <= 8,
        forall|i: usize| i < 8 ==> bit8(a, i) == bit8(b, i),
        a & low_mask8(k) == b & low_mask8(k),
    ensures
        a == b,
    decreases 8 - k,
{
    if k < 8 {
        lemma_u8_mask_step(a, b, k);
        lemma_u8_injective_rec(a, b, (k + 1) as usize);
    } else {
        lemma_u8_bits();
        assert(a & low_mask8(8) == a);
        assert(b & low_mask8(8) == b);
    }
}

/// An 8-bit value is determined by its bits.
pub proof fn lemma_u8_injective(a: u8, b: u8)
    requires
        forall|i: usize| i < 8 ==> bit8(a, i) == bit8(b, i),
    ensures
        a == b,
{
    lemma_u8_bits();
    lemma_u8_injective_rec(a, b, 0);
}

/// Views are injective: equal bit sequences mean equal 8-bit values.
pub proof fn lemma_view8_injective(a: u8, b: u8)
    requires
        view8(a) == view8(b),
    ensures
        a == b,
{
    assert forall|i: usize| i < 8 implies bit8(a, i) == bit8(b, i) by {
        assert(view8(a)[i as int] == bit8(a, i));
        assert(view8(b)[i as int] == bit8(b, i));
        assert(view8(a)[i as int] == view8(b)[i as int]);
    }
    lemma_u8_injective(a, b);
}

/// The view of each boolean operation is the pointwise sequence operation.
pub proof fn lemma_view8_ops(a: u8, b: u8)
    ensures
        view8(a & b) == seq_and(view8(a), view8(b)),
        view8(a | b) == seq_or(view8(a), view8(b)),
        view8(a ^ b) == seq_xor(view8(a), view8(b)),
        view8(a & !b) == seq_diff(view8(a), view8(b)),
        view8(!a) == seq_not(view8(a)),
{
    lemma_u8_bits();
    assert(view8(a & b) =~= seq_and(view8(a), view8(b)));
    assert(view8(a | b) =~= seq_or(view8(a), view8(b)));
    assert(view8(a ^ b) =~= seq_xor(view8(a), view8(b)));
    assert(view8(a & !b) =~= seq_diff(view8(a), view8(b)));
    assert(view8(!a) =~= seq_not(view8(a)));
}

/// Setting or clearing one bit updates one position of the view.
pub proof fn lemma_view8_update(a: u8, j: usize)
    requires
        j < 8,
    ensures
        view8(a | (1u8 << j)) == view8(a).update(j as int, true),
        view8(a & !(1u8 << j)) == view8(a).update(j as int, false),
{
    lemma_u8_bits();
    assert(view8(a | (1u8 << j)) =~= view8(a).update(j as int, true));
    assert(view8(a & !(1u8 << j)) =~= view8(a).update(j as int, false));
}

/// The views of the logical shifts.
pub proof fn lemma_view8_shifts(a: u8, k: usize)
    requires
        k < 8,
    ensures
        view8(a << k) == seq_shl(view8(a), k as int),
        view8(a >> k) == seq_shr(view8(a), k as int),
{
    lemma_u8_bits();
    assert(view8(a << k) =~= seq_shl(view8(a), k as int));
    assert(view8(a >> k) =~= seq_shr(view8(a), k as int));
}

/// The views of the canonical constants: empty, full, and singleton sets.
pub proof fn lemma_view8_consts()
    ensures
        view8(0u8) == all_unset(8),
        view8(u8::MAX) == all_set(8),
        view8(1u8) == one_hot(8, 0),
        forall|j: usize| j < 8 ==> #[trigger] view8(1u8 << j) == one_hot(8, j as int),
{
    lemma_u8_bits();
    assert(view8(0u8) =~= all_unset(8));
    assert(view8(u8::MAX) =~= all_set(8));
    assert(view8(1u8) =~= one_hot(8, 0));
    assert forall|j: usize| j < 8 implies #[trigger] view8(1u8 << j) == one_hot(
        8,
        j as int,
    ) by {
        assert(view8(1u8 << j) =~= one_hot(8, j as int));
    }
}

/// Bit `i` of a 16-bit value; positions outside the width read as unset.
pub open spec fn bit16(n: u16, i: usize) -> bool {
    i < 16 && (n >> i) & 1 == 1
}

/// The bits of a 16-bit value, least significant first.
pub open spec fn view16(n: u16) -> Seq<bool> {
    Seq::new(16, |i: int| bit16(n, i as usize))
}

/// The mask that keeps the low `k` bits of a 16-bit value.
pub open spec fn low_mask16(k: usize) -> u16 {
    !((!0u16) << k)
}

/// Pointwise meaning of the 16-bit bitwise operations.
pub proof fn lemma_u16_bits()
    by (bit_vector)
    ensures
        forall|a: u16, b: u16, i: usize| #[trigger] bit16(a & b, i) == (bit16(a, i) && bit16(b, i)),
        forall|a: u16, b: u16, i: usize| #[trigger] bit16(a | b, i) == (bit16(a, i) || bit16(b, i)),
        forall|a: u16, b: u16, i: usize| #[trigger] bit16(a ^ b, i) == (bit16(a, i) != bit16(b, i)),
        forall|a: u16, i: usize| #[trigger] bit16(!a, i) == (i < 16 && !bit16(a, i)),
        forall|i: usize| !(#[trigger] bit16(0u16, i)),
        forall|i: usize| #[trigger] bit16(u16::MAX, i) == (i < 16),
        forall|j: usize, i: usize| j < 16 ==> #[trigger] bit16(1u16 << j, i) == (i == j),
        forall|i: usize| #[trigger] bit16(1u16, i) == (i == 0),
        forall|a: u16, k: usize, i: usize|
            k < 16 ==> #[trigger] bit16(a << k, i) == (k <= i && i < 16 && bit16(
                a,
                (i - k) as usize,
            )),
        forall|a: u16, k: usize, i: usize|
            k < 16 ==> #[trigger] bit16(a >> k, i) == (i + k < 16 && bit16(
                a,
                (i + k) as usize,
            )),
        forall|a: u16| #[trigger] (a & low_mask16(0)) == 0,
        forall|a: u16| #[trigger] (a & low_mask16(16)) == a,
{
}

/// One step of the induction behind injectivity: if two values agree on
/// their low `k` bits and on bit `k`, they agree on their low `k + 1` bits.
proof fn lemma_u16_mask_step(a: u16, b: u16, k: usize)
    by (bit_vector)
    requires
        k < 16,
        a & low_mask16(k) == b & low_mask16(k),
        bit16(a, k) == bit16(b, k),
    ensures
        a & low_mask16((k + 1) as usize) == b & low_mask16((k + 1) as usize),
{
}

proof fn lemma_u16_injective_rec(a: u16, b: u16, k: usize)
    requires
        k <= 16,
        forall|i: usize| i < 16 ==> bit16(a, i) == bit16(b, i),
        a & low_mask16(k) == b & low_mask16(k),
    ensures
        a == b,
    decreases 16 - k,
{
    if k < 16 {
        lemma_u16_mask_step(a, b, k);
        lemma_u16_injective_rec(a, b, (k + 1) as usize);
    } else {
        lemma_u16_bits();
        assert(a & low_mask16(16) == a);
        assert(b & low_mask16(16) == b);
    }
}

/// A 16-bit value is determined by its bits.
pub proof fn lemma_u16_injective(a: u16, b: u16)
    requires
        forall|i: usize| i < 16 ==> bit16(a, i) == bit16(b, i),
    ensures
        a == b,
{
    lemma_u16_bits();
    lemma_u16_injective_rec(a, b, 0);
}

/// Views are injective: equal bit sequences mean equal 16-bit values.
pub proof fn lemma_view16_injective(a: u16, b: u16)
    requires
        view16(a) == view16(b),
    ensures
        a == b,
{
    assert forall|i: usize| i < 16 implies bit16(a, i) == bit16(b, i) by {
        assert(view16(a)[i as int] == bit16(a, i));
        assert(view16(b)[i as int] == bit16(b, i));
        assert(view16(a)[i as int] == view16(b)[i as int]);
    }
    lemma_u16_injective(a, b);
}

/// The view of each boolean operation is the pointwise sequence operation.
pub proof fn lemma_view16_ops(a: u16, b: u16)
    ensures
        view16(a & b) == seq_and(view16(a), view16(b)),
        view16(a | b) == seq_or(view16(a), view16(b)),
        view16(a ^ b) == seq_xor(view16(a), view16(b)),
        view16(a & !b) == seq_diff(view16(a), view16(b)),
        view16(!a) == seq_not(view16(a)),
{
    lemma_u16_bits();
    assert(view16(a & b) =~= seq_and(view16(a), view16(b)));
    assert(view16(a | b) =~= seq_or(view16(a), view16(b)));
    assert(view16(a ^ b) =~= seq_xor(view16(a), view16(b)));
    assert(view16(a & !b) =~= seq_diff(view16(a), view16(b)));
    assert(view16(!a) =~= seq_not(view16(a)));
}

/// Setting or clearing one bit updates one position of the view.
pub proof fn lemma_view16_update(a: u16, j: usize)
    requires
        j < 16,
    ensures
        view16(a | (1u16 << j)) == view16(a).update(j as int, true),
        view16(a & !(1u16 << j)) == view16(a).update(j as int, false),
{
    lemma_u16_bits();
    assert(view16(a | (1u16 << j)) =~= view16(a).update(j as int, true));
    assert(view16(a & !(1u16 << j)) =~= view16(a).update(j as int, false));
}

/// The views of the logical shifts.
pub proof fn lemma_view16_shifts(a: u16, k: usize)
    requires
        k < 16,
    ensures
        view16(a << k) == seq_shl(view16(a), k as int),
        view16(a >> k) == seq_shr(view16(a), k as int),
{
    lemma_u16_bits();
    assert(view16(a << k) =~= seq_shl(view16(a), k as int));
    assert(view16(a >> k) =~= seq_shr(view16(a), k as int));
}

/// The views of the canonical constants: empty, full, and singleton sets.
pub proof fn lemma_view16_consts()
    ensures
        view16(0u16) == all_unset(16),
        view16(u16::MAX) == all_set(16),
        view16(1u16) == one_hot(16, 0),
        forall|j: usize| j < 16 ==> #[trigger] view16(1u16 << j) == one_hot(16, j as int),
{
    lemma_u16_bits();
    assert(view16(0u16) =~= all_unset(16));
    assert(view16(u16::MAX) =~= all_set(16));
    assert(view16(1u16) =~= one_hot(16, 0));
    assert forall|j: usize| j < 16 implies #[trigger] view16(1u16 << j) == one_hot(
        16,
        j as int,
    ) by {
        assert(view16(1u16 << j) =~= one_hot(16, j as int));
    }
}

/// A value fits in its low `k` bits exactly when shifting those away
/// leaves nothing.
pub proof fn lemma_view16_fits(b: u16, k: usize)
    requires
        k < 16,
    ensures
        fits(view16(b), k as int) <==> (b >> k) == 0,
{
    lemma_u16_bits();
    if b >> k == 0 {
        assert forall|i: int| k <= i < 16 implies !view16(b)[i] by {
            let j: usize = (i - k) as usize;
            assert(bit16(b >> k, j) == (j + k < 16 && bit16(b, (j + k) as usize)));
            assert(!bit16(0u16, j));
        }
    }
    if fits(view16(b), k as int) {
        assert forall|j: usize| j < 16 implies bit16(b >> k, j) == bit16(0u16, j) by {
            assert(bit16(b >> k, j) == (j + k < 16 && bit16(b, (j + k) as usize)));
            if j + k < 16 {
                assert(!view16(b)[(j + k) as int]);
            }
            assert(!bit16(0u16, j));
        }
        lemma_u16_injective(b >> k, 0u16);
    }
}

/// Bit `i` of a 32-bit value; positions outside the width read as unset.
pub open spec fn bit32(n: u32, i: usize) -> bool {
    i < 32 && (n >> i) & 1 == 1
}

/// The bits of a 32-bit value, least significant first.
pub open spec fn view32(n: u32) -> Seq<bool> {
    Seq::new(32, |i: int| bit32(n, i as usize))
}

/// The mask that keeps the low `k` bits of a 32-bit value.
pub open spec fn low_mask32(k: usize) -> u32 {
    !((!0u32) << k)
}

/// Pointwise meaning of the 32-bit bitwise operations.
pub proof fn lemma_u32_bits()
    by (bit_vector)
    ensures
        forall|a: u32, b: u32, i: usize| #[trigger] bit32(a & b, i) == (bit32(a, i) && bit32(b, i)),
        forall|a: u32, b: u32, i: usize| #[trigger] bit32(a | b, i) == (bit32(a, i) || bit32(b, i)),
        forall|a: u32, b: u32, i: usize| #[trigger] bit32(a ^ b, i) == (bit32(a, i) != bit32(b, i)),
        forall|a: u32, i: usize| #[trigger] bit32(!a, i) == (i < 32 && !bit32(a, i)),
        forall|i: usize| !(#[trigger] bit32(0u32, i)),
        forall|i: usize| #[trigger] bit32(u32::MAX, i) == (i < 32),
        forall|j: usize, i: usize| j < 32 ==> #[trigger] bit32(1u32 << j, i) == (i == j),
        forall|i: usize| #[trigger] bit32(1u32, i) == (i == 0),
        forall|a: u32, k: usize, i: usize|
            k < 32 ==> #[trigger] bit32(a << k, i) == (k <= i && i < 32 && bit32(
                a,
                (i - k) as usize,
            )),
        forall|a: u32, k: usize, i: usize|
            k < 32 ==> #[trigger] bit32(a >> k, i) == (i + k < 32 && bit32(
                a,
                (i + k) as usize,
            )),
        forall|a: u32| #[trigger] (a & low_mask32(0)) == 0,
        forall|a: u32| #[trigger] (a & low_mask32(32)) == a,
{
}

/// One step of the induction behind injectivity: if two values agree on
/// their low `k` bits and on bit `k`, they agree on their low `k + 1` bits.
proof fn lemma_u32_mask_step(a: u32, b: u32, k: usize)
    by (bit_vector)
    requires
        k < 32,
        a & low_mask32(k) == b & low_mask32(k),
        bit32(a, k) == bit32(b, k),
    ensures
        a & low_mask32((k + 1) as usize) == b & low_mask32((k + 1) as usize),
{
}

proof fn lemma_u32_injective_rec(a: u32, b: u32, k: usize)
    requires
        k <= 32,
        forall|i: usize| i < 32 ==> bit32(a, i) == bit32(b, i),
        a & low_mask32(k) == b & low_mask32(k),
    ensures
        a == b,
    decreases 32 - k,
{
    if k < 32 {
        lemma_u32_mask_step(a, b, k);
        lemma_u32_injective_rec(a, b, (k + 1) as usize);
    } else {
        lemma_u32_bits();
        assert(a & low_mask32(32) == a);
        assert(b & low_mask32(32) == b);
    }
}

/// A 32-bit value is determined by its bits.
pub proof fn lemma_u32_injective(a: u32, b: u32)
    requires
        forall|i: usize| i < 32 ==> bit32(a, i) == bit32(b, i),
    ensures
        a == b,
{
    lemma_u32_bits();
    lemma_u32_injective_rec(a, b, 0);
}

/// Views are injective: equal bit sequences mean equal 32-bit values.
pub proof fn lemma_view32_injective(a: u32, b: u32)
    requires
        view32(a) == view32(b),
    ensures
        a == b,
{
    assert forall|i: usize| i < 32 implies bit32(a, i) == bit32(b, i) by {
        assert(view32(a)[i as int] == bit32(a, i));
        assert(view32(b)[i as int] == bit32(b, i));
        assert(view32(a)[i as int] == view32(b)[i as int]);
    }
    lemma_u32_injective(a, b);
}

/// The view of each boolean operation is the pointwise sequence operation.
pub proof fn lemma_view32_ops(a: u32, b: u32)
    ensures
        view32(a & b) == seq_and(view32(a), view32(b)),
        view32(a | b) == seq_or(view32(a), view32(b)),
        view32(a ^ b) == seq_xor(view32(a), view32(b)),
        view32(a & !b) == seq_diff(view32(a), view32(b)),
        view32(!a) == seq_not(view32(a)),
{
    lemma_u32_bits();
    assert(view32(a & b) =~= seq_and(view32(a), view32(b)));
    assert(view32(a | b) =~= seq_or(view32(a), view32(b)));
    assert(view32(a ^ b) =~= seq_xor(view32(a), view32(b)));
    assert(view32(a & !b) =~= seq_diff(view32(a), view32(b)));
    assert(view32(!a) =~= seq_not(view32(a)));
}

/// Setting or clearing one bit updates one position of the view.
pub proof fn lemma_view32_update(a: u32, j: usize)
    requires
        j < 32,
    ensures
        view32(a | (1u32 << j)) == view32(a).update(j as int, true),
        view32(a & !(1u32 << j)) == view32(a).update(j as int, false),
{
    lemma_u32_bits();
    assert(view32(a | (1u32 << j)) =~= view32(a).update(j as int, true));
    assert(view32(a & !(1u32 << j)) =~= view32(a).update(j as int, false));
}

/// The views of the logical shifts.
pub proof fn lemma_view32_shifts(a: u32, k: usize)
    requires
        k < 32,
    ensures
        view32(a << k) == seq_shl(view32(a), k as int),
        view32(a >> k) == seq_shr(view32(a), k as int),
{
    lemma_u32_bits();
    assert(view32(a << k) =~= seq_shl(view32(a), k as int));
    assert(view32(a >> k) =~= seq_shr(view32(a), k as int));
}

/// The views of the canonical constants: empty, full, and singleton sets.
pub proof fn lemma_view32_consts()
    ensures
        view32(0u32) == all_unset(32),
        view32(u32::MAX) == all_set(32),
        view32(1u32) == one_hot(32, 0),
        forall|j: usize| j < 32 ==> #[trigger] view32(1u32 << j) == one_hot(32, j as int),
{
    lemma_u32_bits();
    assert(view32(0u32) =~= all_unset(32));
    assert(view32(u32::MAX) =~= all_set(32));
    assert(view32(1u32) =~= one_hot(32, 0));
    assert forall|j: usize| j < 32 implies #[trigger] view32(1u32 << j) == one_hot(
        32,
        j as int,
    ) by {
        assert(view32(1u32 << j) =~= one_hot(32, j as int));
    }
}

/// A value fits in its low `k` bits exactly when shifting those away
/// leaves nothing.
pub proof fn lemma_view32_fits(b: u32, k: usize)
    requires
        k < 32,
    ensures
        fits(view32(b), k as int) <==> (b >> k) == 0,
{
    lemma_u32_bits();
    if b >> k == 0 {
        assert forall|i: int| k <= i < 32 implies !view32(b)[i] by {
            let j: usize = (i - k) as usize;
            assert(bit32(b >> k, j) == (j + k < 32 && bit32(b, (j + k) as usize)));
            assert(!bit32(0u32, j));
        }
    }
    if fits(view32(b), k as int) {
        assert forall|j: usize| j < 32 implies bit32(b >> k, j) == bit32(0u32, j) by {
            assert(bit32(b >> k, j) == (j + k < 32 && bit32(b, (j + k) as usize)));
            if j + k < 32 {
                assert(!view32(b)[(j + k) as int]);
            }
            assert(!bit32(0u32, j));
        }
        lemma_u32_injective(b >> k, 0u32);
    }
}

/// Bit `i` of a 64-bit value; positions outside the width read as unset.
pub open spec fn bit64(n: u64, i: usize) -> bool {
    i < 64 && (n >> i) & 1 == 1
}

/// The bits of a 64-bit value, least significant first.
pub open spec fn view64(n: u64) -> Seq<bool> {
    Seq::new(64, |i: int| bit64(n, i as usize))
}

/// The mask that keeps the low `k` bits of a 64-bit value.
pub open spec fn low_mask64(k: usize) -> u64 {
    !((!0u64) << k)
}

/// Pointwise meaning of the 64-bit bitwise operations.
pub proof fn lemma_u64_bits()
    by (bit_vector)
    ensures
        forall|a: u64, b: u64, i: usize| #[trigger] bit64(a & b, i) == (bit64(a, i) && bit64(b, i)),
        forall|a: u64, b: u64, i: usize| #[trigger] bit64(a | b, i) == (bit64(a, i) || bit64(b, i)),
        forall|a: u64, b: u64, i: usize| #[trigger] bit64(a ^ b, i) == (bit64(a, i) != bit64(b, i)),
        forall|a: u64, i: usize| #[trigger] bit64(!a, i) == (i < 64 && !bit64(a, i)),
        forall|i: usize| !(#[trigger] bit64(0u64, i)),
        forall|i: usize| #[trigger] bit64(u64::MAX, i) == (i < 64),
        forall|j: usize, i: usize| j < 64 ==> #[trigger] bit64(1u64 << j, i) == (i == j),
        forall|i: usize| #[trigger] bit64(1u64, i) == (i == 0),
        forall|a: u64, k: usize, i: usize|
            k < 64 ==> #[trigger] bit64(a << k, i) == (k <= i && i < 64 && bit64(
                a,
                (i - k) as usize,
            )),
        forall|a: u64, k: usize, i: usize|
            k < 64 ==> #[trigger] bit64(a >> k, i) == (i + k < 64 && bit64(
                a,
                (i + k) as usize,
            )),
        forall|a: u64| #[trigger] (a & low_mask64(0)) == 0,
        forall|a: u64| #[trigger] (a & low_mask64(64)) == a,
{
}

/// One step of the induction behind injectivity: if two values agree on
/// their low `k` bits and on bit `k`, they agree on their low `k + 1` bits.
proof fn lemma_u64_mask_step(a: u64, b: u64, k: usize)
    by (bit_vector)
    requires
        k < 64,
        a & low_mask64(k) == b & low_mask64(k),
        bit64(a, k) == bit64(b, k),
    ensures
        a & low_mask64((k + 1) as usize) == b & low_mask64((k + 1) as usize),
{
}

proof fn lemma_u64_injective_rec(a: u64, b: u64, k: usize)
    requires
        k <= 64,
        forall|i: usize| i < 64 ==> bit64(a, i) == bit64(b, i),
        a & low_mask64(k) == b & low_mask64(k),
    ensures
        a == b,
    decreases 64 - k,
{
    if k < 64 {
        lemma_u64_mask_step(a, b, k);
        lemma_u64_injective_rec(a, b, (k + 1) as usize);
    } else {
        lemma_u64_bits();
        assert(a & low_mask64(64) == a);
        assert(b & low_mask64(64) == b);
    }
}

/// A 64-bit value is determined by its bits.
pub proof fn lemma_u64_injective(a: u64, b: u64)
    requires
        forall|i: usize| i < 64 ==> bit64(a, i) == bit64(b, i),
    ensures
        a == b,
{
    lemma_u64_bits();
    lemma_u64_injective_rec(a, b, 0);
}

/// Views are injective: equal bit sequences mean equal 64-bit values.
pub proof fn lemma_view64_injective(a: u64, b: u64)
    requires
        view64(a) == view64(b),
    ensures
        a == b,
{
    assert forall|i: usize| i < 64 implies bit64(a, i) == bit64(b, i) by {
        assert(view64(a)[i as int] == bit64(a, i));
        assert(view64(b)[i as int] == bit64(b, i));
        assert(view64(a)[i as int] == view64(b)[i as int]);
    }
    lemma_u64_injective(a, b);
}

/// The view of each boolean operation is the pointwise sequence operation.
pub proof fn lemma_view64_ops(a: u64, b: u64)
    ensures
        view64(a & b) == seq_and(view64(a), view64(b)),
        view64(a | b) == seq_or(view64(a), view64(b)),
        view64(a ^ b) == seq_xor(view64(a), view64(b)),
        view64(a & !b) == seq_diff(view64(a), view64(b)),
        view64(!a) == seq_not(view64(a)),
{
    lemma_u64_bits();
    assert(view64(a & b) =~= seq_and(view64(a), view64(b)));
    assert(view64(a | b) =~= seq_or(view64(a), view64(b)));
    assert(view64(a ^ b) =~= seq_xor(view64(a), view64(b)));
    assert(view64(a & !b) =~= seq_diff(view64(a), view64(b)));
    assert(view64(!a) =~= seq_not(view64(a)));
}

/// Setting or clearing one bit updates one position of the view.
pub proof fn lemma_view64_update(a: u64, j: usize)
    requires
        j < 64,
    ensures
        view64(a | (1u64 << j)) == view64(a).update(j as int, true),
        view64(a & !(1u64 << j)) == view64(a).update(j as int, false),
{
    lemma_u64_bits();
    assert(view64(a | (1u64 << j)) =~= view64(a).update(j as int, true));
    assert(view64(a & !(1u64 << j)) =~= view64(a).update(j as int, false));
}

/// The views of the logical shifts.
pub proof fn lemma_view64_shifts(a: u64, k: usize)
    requires
        k < 64,
    ensures
        view64(a << k) == seq_shl(view64(a), k as int),
        view64(a >> k) == seq_shr(view64(a), k as int),
{
    lemma_u64_bits();
    assert(view64(a << k) =~= seq_shl(view64(a), k as int));
    assert(view64(a >> k) =~= seq_shr(view64(a), k as int));
}

/// The views of the canonical constants: empty, full, and singleton sets.
pub proof fn lemma_view64_consts()
    ensures
        view64(0u64) == all_unset(64),
        view64(u64::MAX) == all_set(64),
        view64(1u64) == one_hot(64, 0),
        forall|j: usize| j < 64 ==> #[trigger] view64(1u64 << j) == one_hot(64, j as int),
{
    lemma_u64_bits();
    assert(view64(0u64) =~= all_unset(64));
    assert(view64(u64::MAX) =~= all_set(64));
    assert(view64(1u64) =~= one_hot(64, 0));
    assert forall|j: usize| j < 64 implies #[trigger] view64(1u64 << j) == one_hot(
        64,
        j as int,
    ) by {
        assert(view64(1u64 << j) =~= one_hot(64, j as int));
    }
}

/// A value fits in its low `k` bits exactly when shifting those away
/// leaves nothing.
pub proof fn lemma_view64_fits(b: u64, k: usize)
    requires
        k < 64,
    ensures
        fits(view64(b), k as int) <==> (b >> k) == 0,
{
    lemma_u64_bits();
    if b >> k == 0 {
        assert forall|i: int| k <= i < 64 implies !view64(b)[i] by {
            let j: usize = (i - k) as usize;
            assert(bit64(b >> k, j) == (j + k < 64 && bit64(b, (j + k) as usize)));
            assert(!bit64(0u64, j));
        }
    }
    if fits(view64(b), k as int) {
        assert forall|j: usize| j < 64 implies bit64(b >> k, j) == bit64(0u64, j) by {
            assert(bit64(b >> k, j) == (j + k < 64 && bit64(b, (j + k) as usize)));
            if j + k < 64 {
                assert(!view64(b)[(j + k) as int]);
            }
            assert(!bit64(0u64, j));
        }
        lemma_u64_injective(b >> k, 0u64);
    }
}

/// Bit `i` of a 128-bit value; positions outside the width read as unset.
pub open spec fn bit128(n: u128, i: usize) -> bool {
    i < 128 && (n >> i) & 1 == 1
}

/// The bits of a 128-bit value, least significant first.
pub open spec fn view128(n: u128) -> Seq<bool> {
    Seq::new(128, |i: int| bit128(n, i as usize))
}

/// The mask that keeps the low `k` bits of a 128-bit value.
pub open spec fn low_mask128(k: usize) -> u128 {
    !((!0u128) << k)
}

/// Pointwise meaning of the 128-bit bitwise operations.
pub proof fn lemma_u128_bits()
    by (bit_vector)
    ensures
        forall|a: u128, b: u128, i: usize| #[trigger] bit128(a & b, i) == (bit128(a, i) && bit128(b, i)),
        forall|a: u128, b: u128, i: usize| #[trigger] bit128(a | b, i) == (bit128(a, i) || bit128(b, i)),
        forall|a: u128, b: u128, i: usize| #[trigger] bit128(a ^ b, i) == (bit128(a, i) != bit128(b, i)),
        forall|a: u128, i: usize| #[trigger] bit128(!a, i) == (i < 128 && !bit128(a, i)),
        forall|i: usize| !(#[trigger] bit128(0u128, i)),
        forall|i: usize| #[trigger] bit128(u128::MAX, i) == (i < 128),
        forall|j: usize, i: usize| j < 128 ==> #[trigger] bit128(1u128 << j, i) == (i == j),
        forall|i: usize| #[trigger] bit128(1u128, i) == (i == 0),
        forall|a: u128, k: usize, i: usize|
            k < 128 ==> #[trigger] bit128(a << k, i) == (k <= i && i < 128 && bit128(
                a,
                (i - k) as usize,
            )),
        forall|a: u128, k: usize, i: usize|
            k < 128 ==> #[trigger] bit128(a >> k, i) == (i + k < 128 && bit128(
                a,
                (i + k) as usize,
            )),
        forall|a: u128| #[trigger] (a & low_mask128(0)) == 0,
        forall|a: u128| #[trigger] (a & low_mask128(128)) == a,
{
}

/// One step of the induction behind injectivity: if two values agree on
/// their low `k` bits and on bit `k`, they agree on their low `k + 1` bits.
proof fn lemma_u128_mask_step(a: u128, b: u128, k: usize)
    by (bit_vector)
    requires
        k < 128,
        a & low_mask128(k) == b & low_mask128(k),
        bit128(a, k) == bit128(b, k),
    ensures
        a & low_mask128((k + 1) as usize) == b & low_mask128((k + 1) as usize),
{
}

proof fn lemma_u128_injective_rec(a: u128, b: u128, k: usize)
    requires
        k <= 128,
        forall|i: usize| i < 128 ==> bit128(a, i) == bit128(b, i),
        a & low_mask128(k) == b & low_mask128(k),
    ensures
        a == b,
    decreases 128 - k,
{
    if k < 128 {
        lemma_u128_mask_step(a, b, k);
        lemma_u128_injective_rec(a, b, (k + 1) as usize);
    } else {
        lemma_u128_bits();
        assert(a & low_mask128(128) == a);
        assert(b & low_mask128(128) == b);
    }
}

/// A 128-bit value is determined by its bits.
pub proof fn lemma_u128_injective(a: u128, b: u128)
    requires
        forall|i: usize| i < 128 ==> bit128(a, i) == bit128(b, i),
    ensures
        a == b,
{
    lemma_u128_bits();
    lemma_u128_injective_rec(a, b, 0);
}

/// Views are injective: equal bit sequences mean equal 128-bit values.
pub proof fn lemma_view128_injective(a: u128, b: u128)
    requires
        view128(a) == view128(b),
    ensures
        a == b,
{
    assert forall|i: usize| i < 128 implies bit128(a, i) == bit128(b, i) by {
        assert(view128(a)[i as int] == bit128(a, i));
        assert(view128(b)[i as int] == bit128(b, i));
        assert(view128(a)[i as int] == view128(b)[i as int]);
    }
    lemma_u128_injective(a, b);
}

/// The view of each boolean operation is the pointwise sequence operation.
pub proof fn lemma_view128_ops(a: u128, b: u128)
    ensures
        view128(a & b) == seq_and(view128(a), view128(b)),
        view128(a | b) == seq_or(view128(a), view128(b)),
        view128(a ^ b) == seq_xor(view128(a), view128(b)),
        view128(a & !b) == seq_diff(view128(a), view128(b)),
        view128(!a) == seq_not(view128(a)),
{
    lemma_u128_bits();
    assert(view128(a & b) =~= seq_and(view128(a), view128(b)));
    assert(view128(a | b) =~= seq_or(view128(a), view128(b)));
    assert(view128(a ^ b) =~= seq_xor(view128(a), view128(b)));
    assert(view128(a & !b) =~= seq_diff(view128(a), view128(b)));
    assert(view128(!a) =~= seq_not(view128(a)));
}

/// Setting or clearing one bit updates one position of the view.
pub proof fn lemma_view128_update(a: u128, j: usize)
    requires
        j < 128,
    ensures
        view128(a | (1u128 << j)) == view128(a).update(j as int, true),
        view128(a & !(1u128 << j)) == view128(a).update(j as int, false),
{
    lemma_u128_bits();
    assert(view128(a | (1u128 << j)) =~= view128(a).update(j as int, true));
    assert(view128(a & !(1u128 << j)) =~= view128(a).update(j as int, false));
}

/// The views of the logical shifts.
pub proof fn lemma_view128_shifts(a: u128, k: usize)
    requires
        k < 128,
    ensures
        view128(a << k) == seq_shl(view128(a), k as int),
        view128(a >> k) == seq_shr(view128(a), k as int),
{
    lemma_u128_bits();
    assert(view128(a << k) =~= seq_shl(view128(a), k as int));
    assert(view128(a >> k) =~= seq_shr(view128(a), k as int));
}

/// The views of the canonical constants: empty, full, and singleton sets.
pub proof fn lemma_view128_consts()
    ensures
        view128(0u128) == all_unset(128),
        view128(u128::MAX) == all_set(128),
        view128(1u128) == one_hot(128, 0),
        forall|j: usize| j < 128 ==> #[trigger] view128(1u128 << j) == one_hot(128, j as int),
{
    lemma_u128_bits();
    assert(view128(0u128) =~= all_unset(128));
    assert(view128(u128::MAX) =~= all_set(128));
    assert(view128(1u128) =~= one_hot(128, 0));
    assert forall|j: usize| j < 128 implies #[trigger] view128(1u128 << j) == one_hot(
        128,
        j as int,
    ) by {
        assert(view128(1u128 << j) =~= one_hot(128, j as int));
    }
}

/// A value fits in its low `k` bits exactly when shifting those away
/// leaves nothing.
pub proof fn lemma_view128_fits(b: u128, k: usize)
    requires
        k < 128,
    ensures
        fits(view128(b), k as int) <==> (b >> k) == 0,
{
    lemma_u128_bits();
    if b >> k == 0 {
        assert forall|i: int| k <= i < 128 implies !view128(b)[i] by {
            let j: usize = (i - k) as usize;
            assert(bit128(b >> k, j) == (j + k < 128 && bit128(b, (j + k) as usize)));
            assert(!bit128(0u128, j));
        }
    }
    if fits(view128(b), k as int) {
        assert forall|j: usize| j < 128 implies bit128(b >> k, j) == bit128(0u128, j) by {
            assert(bit128(b >> k, j) == (j + k < 128 && bit128(b, (j + k) as usize)));
            if j + k < 128 {
                assert(!view128(b)[(j + k) as int]);
            }
            assert(!bit128(0u128, j));
        }
        lemma_u128_injective(b >> k, 0u128);
    }
}

/// How 8-bit and 16-bit values see each other's bits under casts.
pub proof fn lemma_u8_u16_casts()
    by (bit_vector)
    ensures
        forall|a: u8, i: usize| #[trigger] bit16(a as u16, i) == bit8(a, i),
        forall|b: u16, i: usize| #[trigger] bit8(b as u8, i) == (i < 8 && bit16(b, i)),
        forall|lo: u8, hi: u8, i: usize|
            #[trigger] bit16(((hi as u16) << 8) | (lo as u16), i) == (if i < 8 {
                bit8(lo, i)
            } else {
                bit8(hi, (i - 8) as usize)
            }),
        forall|b: u16, i: usize|
            i < 8 ==> #[trigger] bit8((b >> 8) as u8, i) == bit16(
                b,
                (i + 8) as usize,
            ),
{
}

/// Widening an 8-bit value to 16 bits zero-extends its view.
pub proof fn lemma_view8_widen_16(a: u8)
    ensures
        view16(a as u16) == resized(view8(a), 16),
{
    lemma_u8_u16_casts();
    assert(view16(a as u16) =~= resized(view8(a), 16));
}

/// Truncating a 16-bit value to 8 bits keeps the low part of its view.
pub proof fn lemma_view16_narrow_8(b: u16)
    ensures
        view8(b as u8) == resized(view16(b), 8),
{
    lemma_u8_u16_casts();
    assert(view8(b as u8) =~= resized(view16(b), 8));
}

/// Concatenation: the low half drives the low 8 bits, the high half the
/// rest, so the combined view is one view followed by the other.
pub proof fn lemma_view16_concat(lo: u8, hi: u8)
    ensures
        view16(((hi as u16) << 8) | (lo as u16)) == view8(lo) + view8(hi),
{
    lemma_u8_u16_casts();
    assert(view16(((hi as u16) << 8) | (lo as u16)) =~= view8(lo) + view8(hi));
}

/// Splitting: truncation takes the low half of the view, shifting then
/// truncating takes the high half.
pub proof fn lemma_view16_halves(b: u16)
    ensures
        view8(b as u8) == view16(b).subrange(0, 8),
        view8((b >> 8) as u8) == view16(b).subrange(8, 16),
{
    lemma_u8_u16_casts();
    assert(view8(b as u8) =~= view16(b).subrange(0, 8));
    assert(view8((b >> 8) as u8) =~= view16(b).subrange(8, 16));
}

/// How 8-bit and 32-bit values see each other's bits under casts.
pub proof fn lemma_u8_u32_casts()
    by (bit_vector)
    ensures
        forall|a: u8, i: usize| #[trigger] bit32(a as u32, i) == bit8(a, i),
        forall|b: u32, i: usize| #[trigger] bit8(b as u8, i) == (i < 8 && bit32(b, i)),
{
}

/// Widening an 8-bit value to 32 bits zero-extends its view.
pub proof fn lemma_view8_widen_32(a: u8)
    ensures
        view32(a as u32) == resized(view8(a), 32),
{
    lemma_u8_u32_casts();
    assert(view32(a as u32) =~= resized(view8(a), 32));
}

/// Truncating a 32-bit value to 8 bits keeps the low part of its view.
pub proof fn lemma_view32_narrow_8(b: u32)
    ensures
        view8(b as u8) == resized(view32(b), 8),
{
    lemma_u8_u32_casts();
    assert(view8(b as u8) =~= resized(view32(b), 8));
}

/// How 8-bit and 64-bit values see each other's bits under casts.
pub proof fn lemma_u8_u64_casts()
    by (bit_vector)
    ensures
        forall|a: u8, i: usize| #[trigger] bit64(a as u64, i) == bit8(a, i),
        forall|b: u64, i: usize| #[trigger] bit8(b as u8, i) == (i < 8 && bit64(b, i)),
{
}

/// Widening an 8-bit value to 64 bits zero-extends its view.
pub proof fn lemma_view8_widen_64(a: u8)
    ensures
        view64(a as u64) == resized(view8(a), 64),
{
    lemma_u8_u64_casts();
    assert(view64(a as u64) =~= resized(view8(a), 64));
}

/// Truncating a 64-bit value to 8 bits keeps the low part of its view.
pub proof fn lemma_view64_narrow_8(b: u64)
    ensures
        view8(b as u8) == resized(view64(b), 8),
{
    lemma_u8_u64_casts();
    assert(view8(b as u8) =~= resized(view64(b), 8));
}

/// How 8-bit and 128-bit values see each other's bits under casts.
pub proof fn lemma_u8_u128_casts()
    by (bit_vector)
    ensures
        forall|a: u8, i: usize| #[trigger] bit128(a as u128, i) == bit8(a, i),
        forall|b: u128, i: usize| #[trigger] bit8(b as u8, i) == (i < 8 && bit128(b, i)),
{
}

/// Widening an 8-bit value to 128 bits zero-extends its view.
pub proof fn lemma_view8_widen_128(a: u8)
    ensures
        view128(a as u128) == resized(view8(a), 128),
{
    lemma_u8_u128_casts();
    assert(view128(a as u128) =~= resized(view8(a), 128));
}

/// Truncating a 128-bit value to 8 bits keeps the low part of its view.
pub proof fn lemma_view128_narrow_8(b: u128)
    ensures
        view8(b as u8) == resized(view128(b), 8),
{
    lemma_u8_u128_casts();
    assert(view8(b as u8) =~= resized(view128(b), 8));
}

/// How 16-bit and 32-bit values see each other's bits under casts.
pub proof fn lemma_u16_u32_casts()
    by (bit_vector)
    ensures
        forall|a: u16, i: usize| #[trigger] bit32(a as u32, i) == bit16(a, i),
        forall|b: u32, i: usize| #[trigger] bit16(b as u16, i) == (i < 16 && bit32(b, i)),
        forall|lo: u16, hi: u16, i: usize|
            #[trigger] bit32(((hi as u32) << 16) | (lo as u32), i) == (if i < 16 {
                bit16(lo, i)
            } else {
                bit16(hi, (i - 16) as usize)
            }),
        forall|b: u32, i: usize|
            i < 16 ==> #[trigger] bit16((b >> 16) as u16, i) == bit32(
                b,
                (i + 16) as usize,
            ),
{
}

/// Widening a 16-bit value to 32 bits zero-extends its view.
pub proof fn lemma_view16_widen_32(a: u16)
    ensures
        view32(a as u32) == resized(view16(a), 32),
{
    lemma_u16_u32_casts();
    assert(view32(a as u32) =~= resized(view16(a), 32));
}

/// Truncating a 32-bit value to 16 bits keeps the low part of its view.
pub proof fn lemma_view32_narrow_16(b: u32)
    ensures
        view16(b as u16) == resized(view32(b), 16),
{
    lemma_u16_u32_casts();
    assert(view16(b as u16) =~= resized(view32(b), 16));
}

/// Concatenation: the low half drives the low 16 bits, the high half the
/// rest, so the combined view is one view followed by the other.
pub proof fn lemma_view32_concat(lo: u16, hi: u16)
    ensures
        view32(((hi as u32) << 16) | (lo as u32)) == view16(lo) + view16(hi),
{
    lemma_u16_u32_casts();
    assert(view32(((hi as u32) << 16) | (lo as u32)) =~= view16(lo) + view16(hi));
}

/// Splitting: truncation takes the low half of the view, shifting then
/// truncating takes the high half.
pub proof fn lemma_view32_halves(b: u32)
    ensures
        view16(b as u16) == view32(b).subrange(0, 16),
        view16((b >> 16) as u16) == view32(b).subrange(16, 32),
{
    lemma_u16_u32_casts();
    assert(view16(b as u16) =~= view32(b).subrange(0, 16));
    assert(view16((b >> 16) as u16) =~= view32(b).subrange(16, 32));
}

/// How 16-bit and 64-bit values see each other's bits under casts.
pub proof fn lemma_u16_u64_casts()
    by (bit_vector)
    ensures
        forall|a: u16, i: usize| #[trigger] bit64(a as u64, i) == bit16(a, i),
        forall|b: u64, i: usize| #[trigger] bit16(b as u16, i) == (i < 16 && bit64(b, i)),
{
}

/// Widening a 16-bit value to 64 bits zero-extends its view.
pub proof fn lemma_view16_widen_64(a: u16)
    ensures
        view64(a as u64) == resized(view16(a), 64),
{
    lemma_u16_u64_casts();
    assert(view64(a as u64) =~= resized(view16(a), 64));
}

/// Truncating a 64-bit value to 16 bits keeps the low part of its view.
pub proof fn lemma_view64_narrow_16(b: u64)
    ensures
        view16(b as u16) == resized(view64(b), 16),
{
    lemma_u16_u64_casts();
    assert(view16(b as u16) =~= resized(view64(b), 16));
}

/// How 16-bit and 128-bit values see each other's bits under casts.
pub proof fn lemma_u16_u128_casts()
    by (bit_vector)
    ensures
        forall|a: u16, i: usize| #[trigger] bit128(a as u128, i) == bit16(a, i),
        forall|b: u128, i: usize| #[trigger] bit16(b as u16, i) == (i < 16 && bit128(b, i)),
{
}

/// Widening a 16-bit value to 128 bits zero-extends its view.
pub proof fn lemma_view16_widen_128(a: u16)
    ensures
        view128(a as u128) == resized(view16(a), 128),
{
    lemma_u16_u128_casts();
    assert(view128(a as u128) =~= resized(view16(a), 128));
}

/// Truncating a 128-bit value to 16 bits keeps the low part of its view.
pub proof fn lemma_view128_narrow_16(b: u128)
    ensures
        view16(b as u16) == resized(view128(b), 16),
{
    lemma_u16_u128_casts();
    assert(view16(b as u16) =~= resized(view128(b), 16));
}

/// How 32-bit and 64-bit values see each other's bits under casts.
pub proof fn lemma_u32_u64_casts()
    by (bit_vector)
    ensures
        forall|a: u32, i: usize| #[trigger] bit64(a as u64, i) == bit32(a, i),
        forall|b: u64, i: usize| #[trigger] bit32(b as u32, i) == (i < 32 && bit64(b, i)),
        forall|lo: u32, hi: u32, i: usize|
            #[trigger] bit64(((hi as u64) << 32) | (lo as u64), i) == (if i < 32 {
                bit32(lo, i)
            } else {
                bit32(hi, (i - 32) as usize)
            }),
        forall|b: u64, i: usize|
            i < 32 ==> #[trigger] bit32((b >> 32) as u32, i) == bit64(
                b,
                (i + 32) as usize,
            ),
{
}

/// Widening a 32-bit value to 64 bits zero-extends its view.
pub proof fn lemma_view32_widen_64(a: u32)
    ensures
        view64(a as u64) == resized(view32(a), 64),
{
    lemma_u32_u64_casts();
    assert(view64(a as u64) =~= resized(view32(a), 64));
}

/// Truncating a 64-bit value to 32 bits keeps the low part of its view.
pub proof fn lemma_view64_narrow_32(b: u64)
    ensures
        view32(b as u32) == resized(view64(b), 32),
{
    lemma_u32_u64_casts();
    assert(view32(b as u32) =~= resized(view64(b), 32));
}

/// Concatenation: the low half drives the low 32 bits, the high half the
/// rest, so the combined view is one view followed by the other.
pub proof fn lemma_view64_concat(lo: u32, hi: u32)
    ensures
        view64(((hi as u64) << 32) | (lo as u64)) == view32(lo) + view32(hi),
{
    lemma_u32_u64_casts();
    assert(view64(((hi as u64) << 32) | (lo as u64)) =~= view32(lo) + view32(hi));
}

/// Splitting: truncation takes the low half of the view, shifting then
/// truncating takes the high half.
pub proof fn lemma_view64_halves(b: u64)
    ensures
        view32(b as u32) == view64(b).subrange(0, 32),
        view32((b >> 32) as u32) == view64(b).subrange(32, 64),
{
    lemma_u32_u64_casts();
    assert(view32(b as u32) =~= view64(b).subrange(0, 32));
    assert(view32((b >> 32) as u32) =~= view64(b).subrange(32, 64));
}

/// How 32-bit and 128-bit values see each other's bits under casts.
pub proof fn lemma_u32_u128_casts()
    by (bit_vector)
    ensures
        forall|a: u32, i: usize| #[trigger] bit128(a as u128, i) == bit32(a, i),
        forall|b: u128, i: usize| #[trigger] bit32(b as u32, i) == (i < 32 && bit128(b, i)),
{
}

/// Widening a 32-bit value to 128 bits zero-extends its view.
pub proof fn lemma_view32_widen_128(a: u32)
    ensures
        view128(a as u128) == resized(view32(a), 128),
{
    lemma_u32_u128_casts();
    assert(view128(a as u128) =~= resized(view32(a), 128));
}

/// Truncating a 128-bit value to 32 bits keeps the low part of its view.
pub proof fn lemma_view128_narrow_32(b: u128)
    ensures
        view32(b as u32) == resized(view128(b), 32),
{
    lemma_u32_u128_casts();
    assert(view32(b as u32) =~= resized(view128(b), 32));
}

/// How 64-bit and 128-bit values see each other's bits under casts.
pub proof fn lemma_u64_u128_casts()
    by (bit_vector)
    ensures
        forall|a: u64, i: usize| #[trigger] bit128(a as u128, i) == bit64(a, i),
        forall|b: u128, i: usize| #[trigger] bit64(b as u64, i) == (i < 64 && bit128(b, i)),
        forall|lo: u64, hi: u64, i: usize|
            #[trigger] bit128(((hi as u128) << 64) | (lo as u128), i) == (if i < 64 {
                bit64(lo, i)
            } else {
                bit64(hi, (i - 64) as usize)
            }),
        forall|b: u128, i: usize|
            i < 64 ==> #[trigger] bit64((b >> 64) as u64, i) == bit128(
                b,
                (i + 64) as usize,
            ),
{
}

/// Widening a 64-bit value to 128 bits zero-extends its view.
pub proof fn lemma_view64_widen_128(a: u64)
    ensures
        view128(a as u128) == resized(view64(a), 128),
{
    lemma_u64_u128_casts();
    assert(view128(a as u128) =~= resized(view64(a), 128));
}

/// Truncating a 128-bit value to 64 bits keeps the low part of its view.
pub proof fn lemma_view128_narrow_64(b: u128)
    ensures
        view64(b as u64) == resized(view128(b), 64),
{
    lemma_u64_u128_casts();
    assert(view64(b as u64) =~= resized(view128(b), 64));
}

/// Concatenation: the low half drives the low 64 bits, the high half the
/// rest, so the combined view is one view followed by the other.
pub proof fn lemma_view128_concat(lo: u64, hi: u64)
    ensures
        view128(((hi as u128) << 64) | (lo as u128)) == view64(lo) + view64(hi),
{
    lemma_u64_u128_casts();
    assert(view128(((hi as u128) << 64) | (lo as u128)) =~= view64(lo) + view64(hi));
}

/// Splitting: truncation takes the low half of the view, shifting then
/// truncating takes the high half.
pub proof fn lemma_view128_halves(b: u128)
    ensures
        view64(b as u64) == view128(b).subrange(0, 64),
        view64((b >> 64) as u64) == view128(b).subrange(64, 128),
{
    lemma_u64_u128_casts();
    assert(view64(b as u64) =~= view128(b).subrange(0, 64));
    assert(view64((b >> 64) as u64) =~= view128(b).subrange(64, 128));
}

} // verus!
