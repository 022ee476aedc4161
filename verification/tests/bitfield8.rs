use bitworks::bitfield128::Bitfield128;
use bitworks::bitfield16::Bitfield16;
use bitworks::bitfield32::Bitfield32;
use bitworks::bitfield64::Bitfield64;
use bitworks::bitfield8::Bitfield8;
use bitworks::index::Index;

fn idx(i: usize) -> Index<8> {
    Index::try_new(i).unwrap()
}

fn assert_send<T: Send>() {}

fn assert_sync<T: Sync>() {}

#[test]
fn bitfield8_construction() {
    let mut bitfield = Bitfield8::none();
    bitfield.set_bit(idx(0), true);
    bitfield.check_bit(idx(1));
    bitfield.uncheck_bit(idx(0));

    assert_eq!(bitfield, Bitfield8::new(0b00000010));
}

#[test]
fn bitfield8_conversion_from_integer() {
    let bitfield = Bitfield8::new(0b10101010);

    assert_eq!(bitfield.into_inner(), 0b10101010);
}

#[test]
fn bitfield8_conversion_from_index() {
    let bitfield = Bitfield8::from_index(Index::<8>::min());

    assert_eq!(bitfield.into_inner(), 1);
}

#[test]
fn into_inner() {
    let bitfield = Bitfield8::new(0b10101010);

    assert_eq!(bitfield.into_inner(), 0b10101010);
}

#[test]
fn bitfield8_bit_set_to_true() {
    let mut bitfield = Bitfield8::new(0b10101010);

    bitfield.set_bit(idx(6), true);

    assert_eq!(bitfield.into_inner(), 0b11101010);
}

#[test]
fn bitfield8_bit_set_to_false() {
    let mut bitfield = Bitfield8::new(0b10101010);

    bitfield.set_bit(idx(7), false);

    assert_eq!(bitfield.into_inner(), 0b00101010);
}

#[test]
fn bit() {
    let bitfield = Bitfield8::new(0b10101010);

    assert_eq!(bitfield.bit(idx(0)), false);
    assert_eq!(bitfield.bit(idx(1)), true);
}

#[test]
fn bitfield8_bit_check() {
    let mut bitfield = Bitfield8::new(0b10101010);

    bitfield.check_bit(idx(6));

    assert_eq!(bitfield.into_inner(), 0b11101010);
}

#[test]
fn bitfield8_bit_uncheck() {
    let mut bitfield = Bitfield8::new(0b10101010);

    bitfield.uncheck_bit(idx(7));

    assert_eq!(bitfield.into_inner(), 0b00101010);
}

#[test]
fn bit_ref() {
    let bitfield = Bitfield8::new(0b10101010);

    assert_eq!(bitfield.bit(idx(0)), false);
    assert_eq!(bitfield.bit(idx(1)), true);
}

#[test]
fn bit_mut() {
    let mut bitfield = Bitfield8::new(0b10101010);

    assert_eq!(bitfield.bit(idx(0)), false);
    assert_eq!(bitfield.bit(idx(1)), true);

    bitfield.set_bit(idx(0), true);
    bitfield.set_bit(idx(1), false);

    assert_eq!(bitfield.bit(idx(0)), true);
    assert_eq!(bitfield.bit(idx(1)), false);
}

#[test]
fn count_ones() {
    let bitfield = Bitfield8::new(0b11100000);

    assert_eq!(bitfield.count_ones(), 3);
}

#[test]
fn count_zeros() {
    let bitfield = Bitfield8::new(0b11100000);

    assert_eq!(bitfield.count_zeros(), 5);
}

#[test]
fn bitfield8_shl() {
    let bitfield = Bitfield8::new(0b00000001);

    assert_eq!(bitfield.shl(idx(1)), Bitfield8::new(0b00000010));

    let mut bitfield = Bitfield8::new(0b00000001);
    bitfield = bitfield.shl(idx(1));

    assert_eq!(bitfield, Bitfield8::new(0b00000010));
}

#[test]
fn bitfield8_shr() {
    let bitfield = Bitfield8::new(0b00000010);

    assert_eq!(bitfield.shr(idx(1)), Bitfield8::new(0b00000001));

    let mut bitfield = Bitfield8::new(0b00000010);
    bitfield = bitfield.shr(idx(1));

    assert_eq!(bitfield, Bitfield8::new(0b00000001));
}

#[test]
fn bitfield8_not() {
    let a = Bitfield8::new(0b11110000);

    assert_eq!(a.complement(), Bitfield8::new(0b00001111));
}

#[test]
fn bitfield8_bit_and() {
    let a = Bitfield8::new(0b11110000);
    let b = Bitfield8::new(0b11001100);

    assert_eq!(a.intersection(b), Bitfield8::new(0b11000000));

    let mut a = Bitfield8::new(0b11110000);
    let b = Bitfield8::new(0b11001100);
    a = a.intersection(b);

    assert_eq!(a, Bitfield8::new(0b11000000));
}

#[test]
fn bitfield8_bit_or() {
    let a = Bitfield8::new(0b11110000);
    let b = Bitfield8::new(0b11001100);

    assert_eq!(a.union(b), Bitfield8::new(0b11111100));

    let mut a = Bitfield8::new(0b11110000);
    let b = Bitfield8::new(0b11001100);
    a = a.union(b);

    assert_eq!(a, Bitfield8::new(0b11111100));
}

#[test]
fn bitfield8_bit_xor() {
    let a = Bitfield8::new(0b11110000);
    let b = Bitfield8::new(0b11001100);

    assert_eq!(a.sym_difference(b), Bitfield8::new(0b00111100));

    let mut a = Bitfield8::new(0b11110000);
    let b = Bitfield8::new(0b11001100);
    a = a.sym_difference(b);

    assert_eq!(a, Bitfield8::new(0b00111100));
}

#[test]
fn bitfield8_complement() {
    let a = Bitfield8::new(0b11110000);

    assert_eq!(a.complement(), Bitfield8::new(0b00001111));
}

#[test]
fn bitfield8_intersection() {
    let a = Bitfield8::new(0b11110000);
    let b = Bitfield8::new(0b11001100);

    assert_eq!(a.intersection(b), Bitfield8::new(0b11000000));
}

#[test]
fn bitfield8_union() {
    let a = Bitfield8::new(0b11110000);
    let b = Bitfield8::new(0b11001100);

    assert_eq!(a.union(b), Bitfield8::new(0b11111100));
}

#[test]
fn bitfield8_difference() {
    let a = Bitfield8::new(0b11110000);
    let b = Bitfield8::new(0b11001100);

    assert_eq!(a.difference(b), Bitfield8::new(0b00110000));
}

#[test]
fn bitfield8_sym_difference() {
    let a = Bitfield8::new(0b11110000);
    let b = Bitfield8::new(0b11001100);

    assert_eq!(a.sym_difference(b), Bitfield8::new(0b00111100));
}

#[test]
fn bits() {
    let bitfield = Bitfield8::new(0b11110000);
    let mut iter = bitfield.bits();

    assert_eq!(iter.next(), Some(false));
    assert_eq!(iter.next(), Some(false));
    assert_eq!(iter.next(), Some(false));
    assert_eq!(iter.next(), Some(false));
    assert_eq!(iter.next(), Some(true));
    assert_eq!(iter.next(), Some(true));
    assert_eq!(iter.next(), Some(true));
    assert_eq!(iter.next(), Some(true));
    assert_eq!(iter.next(), None);
}

#[test]
fn bits_ref() {
    let bitfield = Bitfield8::new(0b11110000);
    let mut iter = bitfield.bits();

    assert_eq!(iter.next(), Some(false));
    assert_eq!(iter.next(), Some(false));
    assert_eq!(iter.next(), Some(false));
    assert_eq!(iter.next(), Some(false));
    assert_eq!(iter.next(), Some(true));
    assert_eq!(iter.next(), Some(true));
    assert_eq!(iter.next(), Some(true));
    assert_eq!(iter.next(), Some(true));
    assert_eq!(iter.next(), None);
}

#[test]
fn bits_mut() {
    let mut bitfield = Bitfield8::new(0b11110000);

    let mut iter = bitfield.bits();

    assert_eq!(iter.next(), Some(false));
    assert_eq!(iter.next(), Some(false));
    assert_eq!(iter.next(), Some(false));
    assert_eq!(iter.next(), Some(false));
    assert_eq!(iter.next(), Some(true));
    assert_eq!(iter.next(), Some(true));
    assert_eq!(iter.next(), Some(true));
    assert_eq!(iter.next(), Some(true));
    assert_eq!(iter.next(), None);
    drop(iter);

    for i in 0..8 {
        let position = idx(i);
        let old = bitfield.bit(position);
        bitfield.set_bit(position, !old);
    }

    let mut iter = bitfield.bits();

    assert_eq!(iter.next(), Some(true));
    assert_eq!(iter.next(), Some(true));
    assert_eq!(iter.next(), Some(true));
    assert_eq!(iter.next(), Some(true));
    assert_eq!(iter.next(), Some(false));
    assert_eq!(iter.next(), Some(false));
    assert_eq!(iter.next(), Some(false));
    assert_eq!(iter.next(), Some(false));
    assert_eq!(iter.next(), None);
}

#[test]
fn collect_from_bits() {
    let a = Bitfield8::new(0b11110000);
    let mut iter = a.bits();
    let mut collected = Vec::new();
    while let Some(b) = iter.next() {
        collected.push(b);
    }
    let b = Bitfield8::from_bits(&collected);

    assert_eq!(b, Bitfield8::new(0b11110000));

    let arr = [true, false, true, false, true, false, true, false];
    // Reversed so that the same visual representation comes out: the first
    // consumed boolean lands in bit 0, the least significant position.
    let reversed: Vec<bool> = arr.into_iter().rev().collect();
    let bitfield = Bitfield8::from_bits(&reversed);

    assert_eq!(bitfield, Bitfield8::new(0b10101010));
}

#[test]
fn ones() {
    let bitfield = Bitfield8::new(0b11110000);
    let mut iter = bitfield.ones();

    assert_eq!(iter.next(), Some(idx(4)));
    assert_eq!(iter.next(), Some(idx(5)));
    assert_eq!(iter.next(), Some(idx(6)));
    assert_eq!(iter.next(), Some(idx(7)));
    assert_eq!(iter.next(), None);
}

#[test]
fn zeros() {
    let bitfield = Bitfield8::new(0b11110000);
    let mut iter = bitfield.zeros();

    assert_eq!(iter.next(), Some(idx(0)));
    assert_eq!(iter.next(), Some(idx(1)));
    assert_eq!(iter.next(), Some(idx(2)));
    assert_eq!(iter.next(), Some(idx(3)));
    assert_eq!(iter.next(), None);
}

#[test]
fn from_slice_bool() {
    // Same index order
    let slice = vec![true, false, true, false, true, false, true, false];
    let bitfield = Bitfield8::from_bits(&slice);

    assert_eq!(bitfield, Bitfield8::new(0b01010101));
}

#[test]
fn bitfield8_test_send() {
    assert_send::<Bitfield8>();
}

#[test]
fn bitfield8_test_sync() {
    assert_sync::<Bitfield8>();
}

#[test]
fn expand() {
    let bitfield1 = Bitfield8::new(0b00011011);
    let bitfield2: Bitfield16 = bitfield1.expand_16();

    assert_eq!(bitfield2, Bitfield16::new(0b00011011));

    let bitfield1 = Bitfield8::new(0b00011011);
    let bitfield2: Bitfield32 = bitfield1.expand_32();

    assert_eq!(bitfield2, Bitfield32::new(0b00011011));

    let bitfield1 = Bitfield8::new(0b00011011);
    let bitfield2: Bitfield64 = bitfield1.expand_64();

    assert_eq!(bitfield2, Bitfield64::new(0b00011011));

    let bitfield1 = Bitfield8::new(0b00011011);
    let bitfield2: Bitfield128 = bitfield1.expand_128();

    assert_eq!(bitfield2, Bitfield128::new(0b00011011));
}

#[test]
fn fast_expand() {
    let bitfield1 = Bitfield8::new(0b00011011);
    let bitfield2: Bitfield16 = bitfield1.expand_16_optimized();

    assert_eq!(bitfield2, Bitfield16::new(0b00011011));

    let bitfield1 = Bitfield8::new(0b00011011);
    let bitfield2: Bitfield32 = bitfield1.expand_32_optimized();

    assert_eq!(bitfield2, Bitfield32::new(0b00011011));

    let bitfield1 = Bitfield8::new(0b00011011);
    let bitfield2: Bitfield64 = bitfield1.expand_64_optimized();

    assert_eq!(bitfield2, Bitfield64::new(0b00011011));

    let bitfield1 = Bitfield8::new(0b00011011);
    let bitfield2: Bitfield128 = bitfield1.expand_128_optimized();

    assert_eq!(bitfield2, Bitfield128::new(0b00011011));
}

#[test]
fn combine() {
    let bitfield1 = Bitfield8::new(0b00011011);
    let bitfield2 = Bitfield8::new(0b11101000);

    let bitfield3: Bitfield16 = bitfield1.combine(bitfield2);

    assert_eq!(bitfield3, Bitfield16::new(0b1110100000011011));
}

#[test]
fn split() {
    let bitfield1 = Bitfield16::new(0b1110100000011011);
    let (bitfield2, bitfield3) = bitfield1.split();

    assert_eq!(bitfield2, Bitfield8::new(0b00011011));
    assert_eq!(bitfield3, Bitfield8::new(0b11101000));
}

#[test]
fn fast_combine() {
    let bitfield1 = Bitfield8::new(0b00011011);
    let bitfield2 = Bitfield8::new(0b11101000);

    let bitfield3: Bitfield16 = bitfield1.combine_optimized(bitfield2);

    assert_eq!(bitfield3, Bitfield16::new(0b1110100000011011));
}

#[test]
fn fast_split() {
    let bitfield1 = Bitfield16::new(0b1110100000011011);
    let (bitfield2, bitfield3) = bitfield1.split_optimized();

    assert_eq!(bitfield2, Bitfield8::new(0b00011011));
    assert_eq!(bitfield3, Bitfield8::new(0b11101000));
}
