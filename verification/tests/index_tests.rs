use lnpbp_bip32::error::Bip32Error;
use lnpbp_bip32::index::{Child, ChildIndex, HardenedIndex, UnhardenedIndex, HARDENED_INDEX_BOUNDARY};

#[test]
fn unhardened_from_index_bounds() {
    assert_eq!(UnhardenedIndex::from_index(5).unwrap().index(), Some(5));
    assert_eq!(
        UnhardenedIndex::from_index(HARDENED_INDEX_BOUNDARY),
        Err(Bip32Error::InvalidChildNumber(HARDENED_INDEX_BOUNDARY))
    );
    assert_eq!(UnhardenedIndex::from_index(HARDENED_INDEX_BOUNDARY - 1).unwrap().index(), Some(0x7fff_ffff));
}

#[test]
fn hardened_from_index_folds_offset() {
    assert_eq!(HardenedIndex::from_index(7).unwrap().index(), Some(7));
    assert_eq!(HardenedIndex::from_index(HARDENED_INDEX_BOUNDARY + 7).unwrap().index(), Some(7));
    assert!(HardenedIndex::zero().is_hardened());
    assert!(!UnhardenedIndex::one().is_hardened());
    assert_eq!(HardenedIndex::one().index(), Some(1));
}

#[test]
fn increment_and_decrement() {
    let mut i = UnhardenedIndex::from_index(3).unwrap();
    assert_eq!(i.try_increment(), Ok(4));
    assert_eq!(i.try_decrement(), Ok(3));
    assert_eq!(i.index(), Some(3));
    let mut z = UnhardenedIndex::zero();
    assert_eq!(z.try_decrement(), Err(Bip32Error::InvalidChildNumber(0)));
    assert_eq!(z.index(), Some(0));
    let mut top = UnhardenedIndex::from_index(HARDENED_INDEX_BOUNDARY - 1).unwrap();
    assert_eq!(top.incremented(), Err(Bip32Error::InvalidChildNumber(HARDENED_INDEX_BOUNDARY)));
    assert_eq!(top.try_increment(), Err(Bip32Error::InvalidChildNumber(HARDENED_INDEX_BOUNDARY)));
    assert_eq!(top, UnhardenedIndex::from_index(2147483647u32).unwrap());
    let mut htop = HardenedIndex::from_index(HARDENED_INDEX_BOUNDARY - 1).unwrap();
    assert_eq!(htop.try_increment(), Ok(HARDENED_INDEX_BOUNDARY));
    assert_eq!(htop.index(), Some(HARDENED_INDEX_BOUNDARY));
    assert_eq!(htop.try_increment(), Err(Bip32Error::InvalidChildNumber(HARDENED_INDEX_BOUNDARY)));
    assert_eq!(htop.incremented(), Err(Bip32Error::InvalidChildNumber(HARDENED_INDEX_BOUNDARY)));
    assert_eq!(htop.index(), Some(HARDENED_INDEX_BOUNDARY));
    assert_eq!(htop.try_decrement(), Ok(HARDENED_INDEX_BOUNDARY - 1));
    assert_eq!(HardenedIndex::from_index(9).unwrap().decremented().unwrap().index(), Some(8));
}

#[test]
fn unhardened_text_roundtrip() {
    let i = UnhardenedIndex::from_index(1234).unwrap();
    assert_eq!(i.to_string(), "1234");
    assert_eq!(UnhardenedIndex::from_str("1234"), Ok(i));
    assert_eq!(UnhardenedIndex::from_str("+17").unwrap().index(), Some(17));
    assert_eq!(UnhardenedIndex::from_str("-1"), Err(Bip32Error::InvalidChildNumberFormat));
    assert_eq!(UnhardenedIndex::from_str(""), Err(Bip32Error::InvalidChildNumberFormat));
    assert_eq!(UnhardenedIndex::from_str("4294967296"), Err(Bip32Error::InvalidChildNumberFormat));
    assert_eq!(UnhardenedIndex::from_str("2147483648"), Err(Bip32Error::InvalidChildNumber(2147483648)));
}

#[test]
fn hardened_text_roundtrip() {
    let h = HardenedIndex::from_index(44).unwrap();
    assert_eq!(h.to_string(), "44'");
    assert_eq!(h.to_string_alternate(), "44h");
    assert_eq!(HardenedIndex::from_str("44'"), Ok(h));
    assert_eq!(HardenedIndex::from_str("44h"), Ok(h));
    assert_eq!(HardenedIndex::from_str("44"), Err(Bip32Error::InvalidChildNumberFormat));
    assert_eq!(HardenedIndex::from_str("x'"), Err(Bip32Error::InvalidChildNumberFormat));
    assert_eq!(HardenedIndex::from_str("2147483648'"), Err(Bip32Error::InvalidChildNumber(2147483648)));
}

#[test]
fn child_number_conversions() {
    let u = UnhardenedIndex::from_index(2).unwrap();
    assert_eq!(u.child_number(), Child::Normal { index: 2 });
    assert_eq!(UnhardenedIndex::try_from_child_number(Child::Normal { index: 2 }), Ok(u));
    assert_eq!(
        UnhardenedIndex::try_from_child_number(Child::Hardened { index: 2 }),
        Err(Bip32Error::InvalidChildNumberFormat)
    );
    let h = HardenedIndex::from_index(2).unwrap();
    assert_eq!(h.child_number(), Child::Hardened { index: 2 });
    assert_eq!(HardenedIndex::try_from_child_number(Child::Hardened { index: 2 }), Ok(h));
    assert_eq!(
        UnhardenedIndex::try_from_child_number(Child::Normal { index: HARDENED_INDEX_BOUNDARY }),
        Err(Bip32Error::InvalidChildNumber(HARDENED_INDEX_BOUNDARY))
    );
    let big = HardenedIndex::try_from_child_number(Child::Hardened { index: HARDENED_INDEX_BOUNDARY + 5 }).unwrap();
    assert_eq!(big.index(), Some(HARDENED_INDEX_BOUNDARY + 5));
    assert_eq!(u32::from(big), HARDENED_INDEX_BOUNDARY + 5);
    assert_eq!(HardenedIndex::try_from_child_number(big.child_number()), Ok(big));
    assert_eq!(UnhardenedIndex::try_from_child_number(u.child_number()), Ok(u));
    assert_eq!(UnhardenedIndex::default().index(), Some(0));
    assert_eq!(u32::from(h), 2);
    assert_eq!(u32::from(UnhardenedIndex::from(7u8)), 7);
    assert_eq!(u32::from(HardenedIndex::from(300u16)), 300);
}

#[test]
fn bip32_error_messages() {
    assert_eq!(
        Bip32Error::InvalidChildNumber(5).to_string(),
        "child number 5 is invalid (not within [0, 2^31 - 1])"
    );
    assert_eq!(Bip32Error::InvalidChildNumberFormat.to_string(), "invalid child number format");
    assert_eq!(Bip32Error::InvalidDerivationPathFormat.to_string(), "invalid derivation path format");
    assert_eq!(
        Bip32Error::UnknownVersion([4, 136, 178, 30]).to_string(),
        "unknown version magic bytes: [4, 136, 178, 30]"
    );
}
