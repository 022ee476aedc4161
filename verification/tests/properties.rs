use bitworks::bitfield128::Bitfield128;
use bitworks::bitfield16::Bitfield16;
use bitworks::bitfield32::Bitfield32;
use bitworks::bitfield64::Bitfield64;
use bitworks::bitfield8::Bitfield8;
use bitworks::error::{ConvError, ConvTarget};
use bitworks::index::Index;

fn idx8(i: usize) -> Index<8> {
    Index::try_new(i).unwrap()
}

#[test]
fn inner_roundtrip_all_widths() {
    let x8 = Bitfield8::new(0b01011100);
    assert_eq!(Bitfield8::new(x8.into_inner()), x8);
    let x16 = Bitfield16::new(0xBEEF);
    assert_eq!(Bitfield16::new(x16.into_inner()), x16);
    let x32 = Bitfield32::new(0xDEAD_BEEF);
    assert_eq!(Bitfield32::new(x32.into_inner()), x32);
    let x64 = Bitfield64::new(0xDEAD_BEEF_0123_4567);
    assert_eq!(Bitfield64::new(x64.into_inner()), x64);
    let x128 = Bitfield128::new(0xDEAD_BEEF_0123_4567_89AB_CDEF_FEDC_BA98);
    assert_eq!(Bitfield128::new(x128.into_inner()), x128);
}

#[test]
fn combine_split_roundtrip() {
    let samples: [(u8, u8); 4] = [(0, 0), (0xFF, 0x00), (0b00011011, 0b11101000), (0x5A, 0xA5)];
    for (lo, hi) in samples {
        let a = Bitfield8::new(lo);
        let b = Bitfield8::new(hi);
        let c = a.combine(b);
        assert_eq!(c.split(), (a, b));
        assert_eq!(c.split_optimized(), (a, b));
        let (lo2, hi2) = c.split();
        assert_eq!(lo2.combine(hi2), c);
    }
}

#[test]
fn bit_iterator_agrees_with_get() {
    let x = Bitfield8::new(0b10010110);
    let mut iter = x.bits();
    for i in 0..8 {
        assert_eq!(iter.next(), Some(x.bit(idx8(i))));
    }
    assert_eq!(iter.next(), None);
}

#[test]
fn set_algebra_laws() {
    let values: [u8; 4] = [0b11110000, 0b11001100, 0x00, 0xFF];
    for a in values {
        for b in values {
            let x = Bitfield8::new(a);
            let y = Bitfield8::new(b);
            let u = x.union(y);
            assert_eq!(u.intersection(u), u);
            assert_eq!(x.complement().complement(), x);
            assert_eq!(x.difference(y), x.intersection(y.complement()));
            assert_eq!(
                x.union(y).complement(),
                x.complement().intersection(y.complement())
            );
            assert_eq!(
                x.intersection(y).complement(),
                x.complement().union(y.complement())
            );
        }
    }
}

#[test]
fn conversion_paths_agree() {
    let samples: [u8; 5] = [0x00, 0x01, 0b00011011, 0xAA, 0xFF];
    for n in samples {
        let x = Bitfield8::new(n);
        assert_eq!(x.expand_16(), x.expand_16_optimized());
        assert_eq!(x.expand_32(), x.expand_32_optimized());
        assert_eq!(x.expand_64(), x.expand_64_optimized());
        assert_eq!(x.expand_128(), x.expand_128_optimized());
        for m in samples {
            let y = Bitfield8::new(m);
            assert_eq!(x.combine(y), x.combine_optimized(y));
        }
    }
    let wide: [u16; 4] = [0x0000, 0x00FF, 0xFF00, 0b1110100000011011];
    for n in wide {
        let c = Bitfield16::new(n);
        assert_eq!(c.split(), c.split_optimized());
        assert_eq!(c.expand_32(), c.expand_32_optimized());
    }
}

#[test]
fn boolean_input_truncates() {
    let ten = vec![
        true, false, true, false, true, false, true, false, true, true,
    ];
    let eight = vec![true, false, true, false, true, false, true, false];
    let from_ten = Bitfield8::from_bits(&ten);
    let from_eight = Bitfield8::from_bits(&eight);
    assert_eq!(from_ten, from_eight);
    assert_eq!(from_ten, Bitfield8::new(0b01010101));
}

#[test]
fn narrowing_failure_and_success() {
    let too_wide = Bitfield16::new(0x0100);
    assert_eq!(
        Bitfield8::try_from_bitfield16(too_wide),
        Err(ConvError::new(ConvTarget::Field(16), ConvTarget::Field(8)))
    );

    let fitting = Bitfield16::new(0x00FF);
    assert_eq!(
        Bitfield8::try_from_bitfield16(fitting),
        Ok(Bitfield8::new(0xFF))
    );
}

#[test]
fn narrowing_other_widths() {
    assert_eq!(
        Bitfield16::try_from_bitfield32(Bitfield32::new(0x0001_0000)),
        Err(ConvError::new(ConvTarget::Field(32), ConvTarget::Field(16)))
    );
    assert_eq!(
        Bitfield16::try_from_bitfield32(Bitfield32::new(0xABCD)),
        Ok(Bitfield16::new(0xABCD))
    );
    assert_eq!(
        Bitfield8::try_from_bitfield128(Bitfield128::new(1u128 << 127)),
        Err(ConvError::new(ConvTarget::Field(128), ConvTarget::Field(8)))
    );
    assert_eq!(
        Bitfield32::try_from_bitfield64(Bitfield64::new(0x1234_5678)),
        Ok(Bitfield32::new(0x1234_5678))
    );
    assert_eq!(
        Bitfield64::try_from_bitfield128(Bitfield128::new(u64::MAX as u128 + 1)),
        Err(ConvError::new(ConvTarget::Field(128), ConvTarget::Field(64)))
    );
}

#[test]
fn combine_example() {
    let low = Bitfield8::new(0b00011011);
    let high = Bitfield8::new(0b11101000);
    let combined = low.combine(high);
    assert_eq!(combined, Bitfield16::new(0b1110100000011011));
    assert_eq!(combined.split(), (low, high));
}

#[test]
fn count_invariant_all_widths() {
    let x8 = Bitfield8::new(0b10010110);
    assert_eq!(x8.count_ones() + x8.count_zeros(), 8);
    let x16 = Bitfield16::new(0xF0F0);
    assert_eq!(x16.count_ones() + x16.count_zeros(), 16);
    let x32 = Bitfield32::new(0x1234_5678);
    assert_eq!(x32.count_ones() + x32.count_zeros(), 32);
    let x64 = Bitfield64::new(u64::MAX);
    assert_eq!(x64.count_ones() + x64.count_zeros(), 64);
    let x128 = Bitfield128::new(0);
    assert_eq!(x128.count_ones() + x128.count_zeros(), 128);
}

#[test]
fn index_bounds() {
    assert!(Index::<8>::try_new(7).is_ok());
    assert_eq!(
        Index::<8>::try_new(8),
        Err(ConvError::new(ConvTarget::Raw(8), ConvTarget::Index(8)))
    );
    assert_eq!(Index::<8>::min().value(), 0);
    assert_eq!(Index::<8>::max().value(), 7);
    assert_eq!(Index::<128>::max().value(), 127);
    assert!(Index::<8>::min() < Index::<8>::max());
}

#[test]
fn index_error_value() {
    let error = Index::<16>::try_new(31).unwrap_err();
    assert_eq!(
        error,
        ConvError::new(ConvTarget::Raw(31), ConvTarget::Index(16))
    );
}

#[test]
fn canonical_constants() {
    assert_eq!(Bitfield8::none().into_inner(), 0);
    assert_eq!(Bitfield8::all().into_inner(), u8::MAX);
    assert_eq!(Bitfield8::one().into_inner(), 1);
    assert_eq!(Bitfield128::none().into_inner(), 0);
    assert_eq!(Bitfield128::all().into_inner(), u128::MAX);
    assert_eq!(Bitfield128::one().into_inner(), 1);
    assert_eq!(Bitfield64::all().count_ones(), 64);
}

#[test]
fn empty_and_full_iterators() {
    let mut no_ones = Bitfield8::none().ones();
    assert_eq!(no_ones.next(), None);

    let mut no_zeros = Bitfield8::all().zeros();
    assert_eq!(no_zeros.next(), None);

    let mut all_ones = Bitfield8::all().ones();
    for i in 0..8 {
        assert_eq!(all_ones.next(), Some(idx8(i)));
    }
    assert_eq!(all_ones.next(), None);
}

#[test]
fn from_bits_empty_and_short() {
    let empty: Vec<bool> = Vec::new();
    assert_eq!(Bitfield8::from_bits(&empty), Bitfield8::none());

    let short = vec![true, true];
    assert_eq!(Bitfield8::from_bits(&short), Bitfield8::new(0b00000011));
}

#[test]
fn shift_edges() {
    let x = Bitfield8::new(0b00000001);
    assert_eq!(x.shl(Index::<8>::max()), Bitfield8::new(0b10000000));
    assert_eq!(x.shl(Index::<8>::min()), x);
    let y = Bitfield8::new(0b10000000);
    assert_eq!(y.shr(Index::<8>::max()), Bitfield8::new(0b00000001));
    let z = Bitfield8::new(0b11000000);
    assert_eq!(z.shl(idx8(2)), Bitfield8::new(0b00000000));
}

#[test]
fn middle_width_operations() {
    let a = Bitfield32::new(0xF0F0_0000);
    let b = Bitfield32::new(0xFF00_0000);
    assert_eq!(a.union(b), Bitfield32::new(0xFFF0_0000));
    assert_eq!(a.intersection(b), Bitfield32::new(0xF000_0000));
    assert_eq!(a.sym_difference(b), Bitfield32::new(0x0FF0_0000));
    assert_eq!(a.complement(), Bitfield32::new(0x0F0F_FFFF));

    let c = Bitfield64::new(1);
    let shifted = c.shl(Index::<64>::try_new(63).unwrap());
    assert_eq!(shifted.into_inner(), 1u64 << 63);

    let d = Bitfield32::new(0xABCD_EF01);
    let (lo, hi) = d.split();
    assert_eq!(lo, Bitfield16::new(0xEF01));
    assert_eq!(hi, Bitfield16::new(0xABCD));
    assert_eq!(lo.combine(hi), d);

    let e = Bitfield64::new(0x1122_3344_5566_7788);
    let (lo64, hi64) = e.split_optimized();
    assert_eq!(lo64, Bitfield32::new(0x5566_7788));
    assert_eq!(hi64, Bitfield32::new(0x1122_3344));
    assert_eq!(lo64.combine_optimized(hi64), e);

    let f = Bitfield128::new(0x1111_2222_3333_4444_5555_6666_7777_8888);
    let (lo128, hi128) = f.split();
    assert_eq!(lo128, Bitfield64::new(0x5555_6666_7777_8888));
    assert_eq!(hi128, Bitfield64::new(0x1111_2222_3333_4444));
}

#[test]
fn from_index_singletons() {
    assert_eq!(Bitfield8::from_index(idx8(3)).into_inner(), 0b00001000);
    assert_eq!(
        Bitfield128::from_index(Index::<128>::max()).into_inner(),
        1u128 << 127
    );
}
