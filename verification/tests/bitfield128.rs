use bitworks::bitfield128::Bitfield128;
use bitworks::index::Index;

fn idx(i: usize) -> Index<128> {
    Index::try_new(i).unwrap()
}

fn assert_send<T: Send>() {}

fn assert_sync<T: Sync>() {}

#[test]
fn bitfield128_construction() {
    let mut bitfield = Bitfield128::none();
    bitfield.set_bit(idx(0), true);
    bitfield.check_bit(idx(1));
    bitfield.uncheck_bit(idx(0));

    assert_eq!(bitfield, Bitfield128::new(0b00000010));
}

#[test]
fn bitfield128_conversion_from_integer() {
    let bitfield = Bitfield128::new(0b10101010);

    assert_eq!(bitfield.into_inner(), 0b10101010);
}

#[test]
fn bitfield128_conversion_from_index() {
    let bitfield = Bitfield128::from_index(Index::<128>::min());

    assert_eq!(bitfield.into_inner(), 1);
}

#[test]
fn value() {
    let bitfield = Bitfield128::new(0b10101010);

    assert_eq!(bitfield.into_inner(), 0b10101010);
}

#[test]
fn bitfield128_bit_set_to_true() {
    let mut bitfield = Bitfield128::new(0b10101010);

    bitfield.set_bit(idx(6), true);

    assert_eq!(bitfield.into_inner(), 0b11101010);
}

#[test]
fn bitfield128_bit_set_to_false() {
    let mut bitfield = Bitfield128::new(0b10101010);

    bitfield.set_bit(idx(7), false);

    assert_eq!(bitfield.into_inner(), 0b00101010);
}

#[test]
fn get_bit() {
    let bitfield = Bitfield128::new(0b10101010);

    assert_eq!(bitfield.bit(idx(0)), false);
    assert_eq!(bitfield.bit(idx(1)), true);
}

#[test]
fn bitfield128_bit_check() {
    let mut bitfield = Bitfield128::new(0b10101010);

    bitfield.check_bit(idx(6));

    assert_eq!(bitfield.into_inner(), 0b11101010);
}

#[test]
fn bitfield128_bit_uncheck() {
    let mut bitfield = Bitfield128::new(0b10101010);

    bitfield.uncheck_bit(idx(7));

    assert_eq!(bitfield.into_inner(), 0b00101010);
}

#[test]
fn count_set() {
    let bitfield = Bitfield128::new(0b11100000);

    assert_eq!(bitfield.count_ones(), 3);
}

#[test]
fn count_unset() {
    let bitfield = Bitfield128::new(0b11100000);

    assert_eq!(bitfield.count_zeros(), 125);
}

#[test]
fn bitfield128_shl() {
    let bitfield = Bitfield128::new(0b00000001);

    assert_eq!(bitfield.shl(idx(1)), Bitfield128::new(0b00000010));

    let mut bitfield = Bitfield128::new(0b00000001);
    bitfield = bitfield.shl(idx(1));

    assert_eq!(bitfield, Bitfield128::new(0b00000010));
}

#[test]
fn bitfield128_shr() {
    let bitfield = Bitfield128::new(0b00000010);

    assert_eq!(bitfield.shr(idx(1)), Bitfield128::new(0b00000001));

    let mut bitfield = Bitfield128::new(0b00000010);
    bitfield = bitfield.shr(idx(1));

    assert_eq!(bitfield, Bitfield128::new(0b00000001));
}

#[test]
fn bitfield128_not() {
    let a = Bitfield128::none();

    assert_eq!(a.complement(), Bitfield128::all());
}

#[test]
fn bitfield128_bit_and() {
    let a = Bitfield128::new(0b11110000);
    let b = Bitfield128::new(0b11001100);

    assert_eq!(a.intersection(b), Bitfield128::new(0b11000000));

    let mut a = Bitfield128::new(0b11110000);
    let b = Bitfield128::new(0b11001100);
    a = a.intersection(b);

    assert_eq!(a, Bitfield128::new(0b11000000));
}

#[test]
fn bitfield128_bit_or() {
    let a = Bitfield128::new(0b11110000);
    let b = Bitfield128::new(0b11001100);

    assert_eq!(a.union(b), Bitfield128::new(0b11111100));

    let mut a = Bitfield128::new(0b11110000);
    let b = Bitfield128::new(0b11001100);
    a = a.union(b);

    assert_eq!(a, Bitfield128::new(0b11111100));
}

#[test]
fn bitfield128_bit_xor() {
    let a = Bitfield128::new(0b11110000);
    let b = Bitfield128::new(0b11001100);

    assert_eq!(a.sym_difference(b), Bitfield128::new(0b00111100));

    let mut a = Bitfield128::new(0b11110000);
    let b = Bitfield128::new(0b11001100);
    a = a.sym_difference(b);

    assert_eq!(a, Bitfield128::new(0b00111100));
}

#[test]
fn bitfield128_complement() {
    let a = Bitfield128::none();

    assert_eq!(a.complement(), Bitfield128::all());
}

#[test]
fn bitfield128_intersection() {
    let a = Bitfield128::new(0b11110000);
    let b = Bitfield128::new(0b11001100);

    assert_eq!(a.intersection(b), Bitfield128::new(0b11000000));
}

#[test]
fn bitfield128_union() {
    let a = Bitfield128::new(0b11110000);
    let b = Bitfield128::new(0b11001100);

    assert_eq!(a.union(b), Bitfield128::new(0b11111100));
}

#[test]
fn bitfield128_difference() {
    let a = Bitfield128::new(0b11110000);
    let b = Bitfield128::new(0b11001100);

    assert_eq!(a.difference(b), Bitfield128::new(0b00110000));
}

#[test]
fn bitfield128_sym_difference() {
    let a = Bitfield128::new(0b11110000);
    let b = Bitfield128::new(0b11001100);

    assert_eq!(a.sym_difference(b), Bitfield128::new(0b00111100));
}

#[test]
fn bit_iter() {
    let bitfield = Bitfield128::new(0b11110000);
    let mut bit_iter = bitfield.bits();

    assert_eq!(bit_iter.next(), Some(false));
    assert_eq!(bit_iter.next(), Some(false));
    assert_eq!(bit_iter.next(), Some(false));
    assert_eq!(bit_iter.next(), Some(false));
    assert_eq!(bit_iter.next(), Some(true));
    assert_eq!(bit_iter.next(), Some(true));
    assert_eq!(bit_iter.next(), Some(true));
    assert_eq!(bit_iter.next(), Some(true));

    for _ in 8..128 {
        assert_eq!(bit_iter.next(), Some(false));
    }

    assert_eq!(bit_iter.next(), None);
}

#[test]
fn collect_from_bit_iter() {
    let a = Bitfield128::new(0b11110000);
    let mut bit_iter = a.bits();
    let mut collected = Vec::new();
    while let Some(b) = bit_iter.next() {
        collected.push(b);
    }
    let b = Bitfield128::from_bits(&collected);

    assert_eq!(b, Bitfield128::new(0b11110000));

    let arr = [true, false, true, false, true, false, true, false];
    // Reversed so that the same visual representation comes out: the first
    // consumed boolean lands in bit 0, the least significant position.
    let reversed: Vec<bool> = arr.into_iter().rev().collect();
    let bitfield = Bitfield128::from_bits(&reversed);

    assert_eq!(bitfield, Bitfield128::new(0b10101010));
}

#[test]
fn set_pos_iter() {
    let bitfield = Bitfield128::new(0b11110000);
    let mut set_pos_iter = bitfield.ones();

    assert_eq!(set_pos_iter.next(), Some(idx(4)));
    assert_eq!(set_pos_iter.next(), Some(idx(5)));
    assert_eq!(set_pos_iter.next(), Some(idx(6)));
    assert_eq!(set_pos_iter.next(), Some(idx(7)));
    assert_eq!(set_pos_iter.next(), None);
}

#[test]
fn unset_pos_iter() {
    let bitfield = Bitfield128::new(0b11110000);
    let mut unset_pos_iter = bitfield.zeros();

    assert_eq!(unset_pos_iter.next(), Some(idx(0)));
    assert_eq!(unset_pos_iter.next(), Some(idx(1)));
    assert_eq!(unset_pos_iter.next(), Some(idx(2)));
    assert_eq!(unset_pos_iter.next(), Some(idx(3)));

    for i in 8..128 {
        assert_eq!(unset_pos_iter.next(), Some(idx(i)));
    }

    assert_eq!(unset_pos_iter.next(), None);
}

#[test]
fn from_slice() {
    // Same index order
    let slice = vec![true, false, true, false, true, false, true, false];
    let bitfield = Bitfield128::from_bits(&slice);

    assert_eq!(bitfield, Bitfield128::new(0b01010101));
}

#[test]
fn bitfield128_test_send() {
    assert_send::<Bitfield128>();
}

#[test]
fn bitfield128_test_sync() {
    assert_sync::<Bitfield128>();
}
