use bitkit::accel::{pdep_u32, pdep_u64, pext_u32, pext_u64};
use bitkit::format::grouped_binary;
use bitkit::prelude::{BitError, Flags, IntoBitRange};
use bitkit::{align, bytes, explain, morton};

#[test]
fn alignment() {
    assert!(align::is_power_of_two(64));
    assert_eq!(align::is_aligned(16, 8), Ok(true));
    assert_eq!(align::is_aligned(0, 6), Err(BitError::AlignmentNotPowerOfTwo));
    assert_eq!(align::down(13, 8), Ok(8));
    assert_eq!(align::up(13, 8), Ok(16));
    assert_eq!(align::up(usize::MAX, 8), Err(BitError::Overflow));
    assert_eq!(align::padding(13, 8), Ok(3));
}

#[test]
fn flags_generic() {
    const A: u32 = 0b001;
    const B: u32 = 0b010;
    let mut f = Flags::<u32>::empty();
    f.enable(A | B);
    assert!(f.has(A));
    assert!(f.has_all(A | B));
    assert!(f.has_any(A | 0xFF00));
    f.disable(A);
    assert!(!f.has(A));
    assert_eq!(Flags::<u32>::all().bits(), u32::MAX);
    let raw: u32 = Flags::<u32>::from_bits(0xAB).into();
    assert_eq!(raw, 0xAB);
}

#[test]
fn bytes_mod() {
    let buf = [0x12, 0x34, 0x56, 0x78];
    assert_eq!(bytes::read_u16_be(&buf).unwrap(), 0x1234);
    assert_eq!(bytes::read_u16_le(&buf).unwrap(), 0x3412);
    assert_eq!(bytes::read_u32_be(&buf).unwrap(), 0x12345678);
    assert_eq!(bytes::read_u8(&buf).unwrap(), 0x12);
    assert_eq!(bytes::read_u32_be(&buf[..3]), Err(BitError::InsufficientBytes));

    let mut out = [0u8; 8];
    bytes::write_u64_be(&mut out, 0x0102_0304_0506_0708).unwrap();
    assert_eq!(out, [1, 2, 3, 4, 5, 6, 7, 8]);
    let mut tiny = [0u8; 2];
    assert_eq!(bytes::write_u32_be(&mut tiny, 0), Err(BitError::InsufficientBytes));
}

#[test]
fn error_display() {
    assert!(BitError::IndexOutOfRange.to_string().contains("index"));
    assert!(BitError::UnderflowFromZero.to_string().contains("zero"));
}

#[test]
fn explanations() {
    assert_eq!(explain::isolate_lowest_set_bit().formula, "x & -x");
}

#[test]
fn gather_scatter_u32_round_trip() {
    let v = 0xCAFE_BABEu32;
    let mask = 0xF0F0_F0F0u32;

    let g = pext_u32(v, mask);
    assert_eq!(g.count_ones(), (v & mask).count_ones());
    let s = pdep_u32(g, mask);
    assert_eq!(s, v & mask);
}

#[test]
fn gather_scatter_u64_round_trip() {
    let v = 0xCAFE_BABE_DEAD_BEEFu64;
    let mask = 0x5555_AAAA_5555_AAAAu64;
    let g = pext_u64(v, mask);
    assert_eq!(g.count_ones(), (v & mask).count_ones());
    assert_eq!(pdep_u64(g, mask), v & mask);
}

#[test]
fn morton_via_scatter() {
    let x = 0b1011u32;
    let y = 0b1100u32;
    let x_mask = 0x5555_5555u32;
    let y_mask = 0xAAAA_AAAAu32;
    let m = pdep_u32(x, x_mask) | pdep_u32(y, y_mask);
    assert_eq!(pext_u32(m, x_mask), x);
    assert_eq!(pext_u32(m, y_mask), y);
}

#[test]
fn morton_2d_and_3d() {
    for (x, y) in [(0u16, 0u16), (1, 0), (0, 1), (1234, 5678), (u16::MAX, u16::MAX)] {
        let z = morton::encode_2d(x, y);
        assert_eq!(morton::decode_2d(z), (x, y));
    }
    let (x, y) = (0xABCDu16, 0x1234u16);
    let z = morton::encode_2d(x, y);
    let manual: u32 = (0..16u32).fold(0, |acc, i| {
        acc | (((x as u32 >> i) & 1) << (2 * i)) | (((y as u32 >> i) & 1) << (2 * i + 1))
    });
    assert_eq!(z, manual);

    let zw = morton::encode_2d_u64(0xDEAD_BEEFu32, 0xCAFE_BABEu32);
    assert_eq!(morton::decode_2d_u64(zw), (0xDEAD_BEEF, 0xCAFE_BABE));

    for (x, y, z) in [(0u16, 0u16, 0u16), (1023, 0, 0), (0, 1023, 0), (0, 0, 1023), (511, 512, 513)] {
        let m = morton::encode_3d(x, y, z);
        assert_eq!(morton::decode_3d(m), (x, y, z));
    }
}

#[test]
fn morton_known_values() {
    assert_eq!(morton::encode_2d(1234, 5678), 37247404);
    assert_eq!(morton::decode_2d(37247404), (1234, 5678));
    assert_eq!(morton::encode_2d(1, 0), 1);
    assert_eq!(morton::encode_2d(0, 1), 2);
    assert_eq!(morton::encode_3d(1, 1, 1), 7);
    assert_eq!(morton::encode_3d(1024 + 1, 0, 0), 1);
    assert_eq!(morton::decode_2d(u32::MAX), (u16::MAX, u16::MAX));
    assert_eq!(morton::decode_3d(u32::MAX), (1023, 1023, 1023));
}

#[test]
fn pext_pdep_values() {
    assert_eq!(pext_u32(0b1011_0110, 0b1111_0000), 0b1011);
    assert_eq!(pdep_u32(0b1011, 0b1111_0000), 0b1011_0000);
    assert_eq!(pext_u32(u32::MAX, 0), 0);
    assert_eq!(pdep_u32(u32::MAX, u32::MAX), u32::MAX);
    assert_eq!(pext_u64(u64::MAX, u64::MAX), u64::MAX);
    assert_eq!(pdep_u64(0b101, 0x8000_0000_0000_0001 | 0x100), 0x8000_0000_0000_0001);
}

#[test]
fn alignment_edges() {
    assert_eq!(align::is_aligned(5, 0), Err(BitError::AlignmentZero));
    assert_eq!(align::down(5, 0), Err(BitError::AlignmentZero));
    assert_eq!(align::up(5, 3), Err(BitError::AlignmentNotPowerOfTwo));
    assert_eq!(align::padding(16, 8), Ok(0));
    assert_eq!(align::up(16, 8), Ok(16));
    assert_eq!(align::up(0, 1), Ok(0));
    assert!(!align::is_power_of_two(0));
    assert!(!align::is_power_of_two(6));
    assert!(align::is_power_of_two(1));
}

#[test]
fn bytes_round_trips_and_le() {
    let mut out = [0xEEu8; 18];
    bytes::write_u128_le(&mut out, 0x0102_0304_0506_0708_090A_0B0C_0D0E_0F10).unwrap();
    assert_eq!(out[0], 0x10);
    assert_eq!(out[15], 0x01);
    assert_eq!(out[16], 0xEE);
    assert_eq!(bytes::read_u128_le(&out).unwrap(), 0x0102_0304_0506_0708_090A_0B0C_0D0E_0F10);
    let mut w = [0u8; 4];
    bytes::write_u32_le(&mut w, 0xDEAD_BEEF).unwrap();
    assert_eq!(w, [0xEF, 0xBE, 0xAD, 0xDE]);
    assert_eq!(bytes::read_u32_le(&w).unwrap(), 0xDEAD_BEEF);
    assert_eq!(bytes::read_u64_le(&w), Err(BitError::InsufficientBytes));
    let mut one = [0u8; 1];
    bytes::write_u8(&mut one, 9).unwrap();
    assert_eq!(one, [9]);
    let mut none: [u8; 0] = [];
    assert_eq!(bytes::write_u8(&mut none, 1), Err(BitError::InsufficientBytes));
    assert_eq!(bytes::read_u8(&none), Err(BitError::InsufficientBytes));
    bytes::write_u16_le(&mut w, 0xABCD).unwrap();
    assert_eq!(w, [0xCD, 0xAB, 0xAD, 0xDE]);
    assert_eq!(bytes::read_u16_be(&w).unwrap(), 0xCDAB);
}

#[test]
fn flags_all_widths() {
    let f = Flags::<u8>::empty().with(0b101).toggled(0b001).without(0b100);
    assert_eq!(f.bits(), 0);
    assert!(Flags::<u8>::from_bits(7).has(0));
    assert!(!Flags::<u16>::from_bits(0b10).has_any(0b01));
    assert_eq!(Flags::<u64>::all().bits(), u64::MAX);
    assert_eq!(Flags::<u128>::all().bits(), u128::MAX);
    let mut g = Flags::<usize>::from(3usize);
    g.toggle(1);
    assert_eq!(usize::from(g), 2);
}

#[test]
fn bit_ranges_and_errors() {
    assert_eq!((2u32..5u32).into_bit_range(), (2, 5));
    assert_eq!((5u32, 3u32).into_bit_range(), (5, 3));
    assert_eq!(BitError::Overflow.to_string(), "arithmetic overflow");
    assert_eq!(BitError::InsufficientBytes.to_string(), "byte slice too short");
}

#[test]
fn grouped_rendering() {
    assert_eq!(grouped_binary(0b1011_0000u32, 4).to_string(), "0000_0000_0000_0000_0000_0000_1011_0000");
    assert_eq!(grouped_binary(0xA5u8, 4).to_string(), "1010_0101");
    assert_eq!(grouped_binary(0xA5u8, 0).to_string(), "10100101");
    assert_eq!(grouped_binary(5u16, 3).to_string(), "0_000_000_000_000_101");
    assert_eq!(grouped_binary(1usize, 64).to_string().len(), usize::BITS as usize);
}

#[test]
fn explanation_table() {
    let e = explain::align_up();
    assert_eq!(e.name, "align::up");
    assert_eq!(e.caveats.len(), 1);
    assert!(explain::align_down().caveats.is_empty());
    assert_eq!(explain::submasks().formula, "s_{n+1} = (s_n - 1) & mask, s_0 = mask");
}

#[test]
fn gather_keeps_masked_bit_count_in_low_bits() {
    let cases: [(u32, u32); 5] = [
        (0xDEAD_BEEF, 0x0F0F_0F0F),
        (0xFFFF_FFFF, 0x8000_0001),
        (0x1234_5678, 0),
        (0, 0xFFFF_FFFF),
        (0xA5A5_A5A5, 0xFFFF_0000),
    ];
    for (x, m) in cases {
        let g = pext_u32(x, m);
        assert_eq!(g.count_ones(), (x & m).count_ones());
        if m.count_ones() < 32 {
            assert_eq!(g >> m.count_ones(), 0);
        }
        assert_eq!(pdep_u32(x, m) & !m, 0);
    }
    let (x, m) = (0x0123_4567_89AB_CDEFu64, 0xF0F0_0000_FFFF_0001u64);
    assert_eq!(pext_u64(x, m).count_ones(), (x & m).count_ones());
    assert_eq!(pext_u64(x, m) >> m.count_ones(), 0);
    assert_eq!(pdep_u64(x, m) & !m, 0);
}

#[test]
fn morton_3d_round_trips_ten_bit_coordinates() {
    for (x, y, z) in [(0u16, 0u16, 0u16), (1023, 1023, 1023), (1, 512, 77), (1000, 3, 999)] {
        assert_eq!(morton::decode_3d(morton::encode_3d(x, y, z)), (x, y, z));
    }
    assert_eq!(morton::encode_3d(1023, 1023, 1023), 0x3FFF_FFFF);
}

#[test]
fn morton_3d_keys_decode_and_reencode_to_low_30_bits() {
    assert_eq!(morton::encode_3d(1024, 0, 0), 0);
    assert_eq!(morton::encode_3d(1, 0, 0), 1);
    assert_eq!(morton::encode_3d(0, 1, 0), 2);
    assert_eq!(morton::encode_3d(0, 0, 1), 4);
    assert_eq!(morton::encode_3d(0xFFFF, 0, 0), morton::encode_3d(0x3FF, 0, 0));
    for w in [0u32, 1, 0xFFFF_FFFF, 0xC000_0000, 0x1234_5678, 0xDEAD_BEEF, 0x3FFF_FFFF] {
        let (x, y, z) = morton::decode_3d(w);
        assert!(x < 1024 && y < 1024 && z < 1024);
        assert_eq!(morton::encode_3d(x, y, z), w & 0x3FFF_FFFF);
    }
    let k = morton::encode_3d(0b10_0000_0001, 0b1, 0b10);
    for i in 0..10u32 {
        assert_eq!((k >> (3 * i)) & 1, ((0b10_0000_0001u32) >> i) & 1);
        assert_eq!((k >> (3 * i + 1)) & 1, (0b1u32 >> i) & 1);
        assert_eq!((k >> (3 * i + 2)) & 1, (0b10u32 >> i) & 1);
    }
}
