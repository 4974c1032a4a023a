//! Tests of the `bit32` operations.
use shingetsu::bit32::{
    arshift, band, bnot, bor, btest, bxor, byteswap, countlz, countrz, extract, from_integer,
    lrotate, lshift, replace, rrotate, rshift,
};

#[test]
fn logic_operations() {
    assert_eq!(band(&[1, 3]), 1);
    assert_eq!(band(&[0xFF, 0x0F]), 0x0F);
    assert_eq!(band(&[]), 0xFFFF_FFFF);
    assert_eq!(band(&[0xA, 0xC, 0xF]), 0x8);
    assert_eq!(band(&[from_integer(-1), 0xFFFF]), 0xFFFF);
    assert_eq!(bor(&[1, 2, 4]), 7);
    assert_eq!(bxor(&[5, 3]), 6);
    assert_eq!(bnot(0), 0xFFFF_FFFF);
    assert!(btest(&[6, 3]));
    assert!(!btest(&[4, 3]));
}

#[test]
fn shifts() {
    assert_eq!(lshift(1, 4), 16);
    assert_eq!(lshift(16, -4), 1);
    assert_eq!(rshift(0xFF, 4), 0xF);
    assert_eq!(lshift(1, 32), 0);
    assert_eq!(arshift(0x8000_0000, 4), 0xF800_0000);
    assert_eq!(arshift(0x8000_0000, 40), 0xFFFF_FFFF);
    assert_eq!(arshift(0x4000_0000, 40), 0);
    assert_eq!(lrotate(0x8000_0001, 1), 3);
    assert_eq!(rrotate(3, 1), 0x8000_0001);
    assert_eq!(lrotate(5, -33), rrotate(5, 33));
}

#[test]
fn fields_and_counts() {
    assert_eq!(extract(0xABCD, 4, Some(8)).unwrap(), 0xBC);
    assert_eq!(extract(0x8000_0000, 31, None).unwrap(), 1);
    assert_eq!(replace(0, 0xF, 4, Some(4)).unwrap(), 0xF0);
    assert_eq!(replace(0xFFFF_FFFF, 0, 0, Some(32)).unwrap(), 0);
    assert!(extract(1, -1, None).is_err());
    assert!(extract(1, 30, Some(3)).is_err());
    assert!(replace(1, 1, 0, Some(0)).is_err());
    assert_eq!(countlz(1), 31);
    assert_eq!(countlz(0), 32);
    assert_eq!(countrz(8), 3);
    assert_eq!(countrz(0), 32);
    assert_eq!(byteswap(0x1122_3344), 0x4433_2211);
}

#[test]
fn replace_keeps_bits_outside_the_field() {
    assert_eq!(replace(0xFFFF_FFFF, 0, 4, Some(8)).unwrap(), 0xFFFF_F00F);
    assert_eq!(replace(0x1234_5678, 0xAB, 8, Some(8)).unwrap(), 0x1234_AB78);
}
