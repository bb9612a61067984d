use cap9_kernel::word::{Address, Word};

fn word(n: u128) -> Word {
    let mut bytes = [0u8; 32];
    bytes[16..].copy_from_slice(&n.to_be_bytes());
    Word { bytes }
}

#[test]
fn from_u32_is_big_endian_in_the_last_four_bytes() {
    let w = Word::from_u32(0x0102_0304);
    let mut want = [0u8; 32];
    want[28] = 1;
    want[29] = 2;
    want[30] = 3;
    want[31] = 4;
    assert_eq!(w.bytes, want);
    assert_eq!(Word::from_u32(0), Word::zero());
    assert_eq!(Word::from_u32(u32::MAX), word(0xffff_ffff));
    assert_eq!(Word::from_u32(7), word(7));
}

#[test]
fn zero_word_and_zero_address() {
    assert_eq!(Word::zero().bytes, [0u8; 32]);
    assert!(Word::zero().is_zero());
    assert!(!word(1).is_zero());
    assert!(!word(1 << 100).is_zero());
    assert_eq!(Address::zero().bytes, [0u8; 20]);
    assert!(Address::zero().is_zero());
    let mut bytes = [0u8; 20];
    bytes[19] = 1;
    assert!(!Address { bytes }.is_zero());
    bytes = [0u8; 20];
    bytes[0] = 0x80;
    assert!(!Address { bytes }.is_zero());
}

#[test]
fn words_are_ordered_as_numbers() {
    assert!(word(0).at_most(&word(0)));
    assert!(word(0).at_most(&word(1)));
    assert!(!word(1).at_most(&word(0)));
    assert!(word(255).at_most(&word(256)));
    assert!(!word(256).at_most(&word(255)));
    assert!(word(0x00ff_ffff).at_most(&word(0x0100_0000)));
    let mut top = [0u8; 32];
    top[0] = 1;
    let top = Word { bytes: top };
    assert!(word(u128::MAX).at_most(&top));
    assert!(!top.at_most(&word(u128::MAX)));
    assert!(top.at_most(&top));
}

#[test]
fn same_compares_all_bytes() {
    assert!(word(5).same(&word(5)));
    assert!(!word(5).same(&word(6)));
    let mut a = [0u8; 20];
    a[3] = 9;
    assert!(Address { bytes: a }.same(&Address { bytes: a }));
    assert!(!Address { bytes: a }.same(&Address::zero()));
}

#[test]
fn to_byte_accepts_only_numbers_below_256() {
    assert_eq!(word(0).to_byte(), Some(0));
    assert_eq!(word(255).to_byte(), Some(255));
    assert_eq!(word(256).to_byte(), None);
    assert_eq!(word(256 + 7).to_byte(), None);
    let mut top = [0u8; 32];
    top[0] = 1;
    top[31] = 3;
    assert_eq!(Word { bytes: top }.to_byte(), None);
}
