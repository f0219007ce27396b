use lnpbp_bip32::range::DerivationRange;
use std::cmp::Ordering;

#[test]
fn range_count_and_bounds() {
    let r = DerivationRange::new(3, 9);
    assert_eq!(r.count(), 7);
    assert_eq!(r.start(), 3);
    assert_eq!(r.end(), 9);
    assert_eq!(DerivationRange::new(5, 5).count(), 1);
    assert_eq!(DerivationRange::new(0, u32::MAX - 1).count(), u32::MAX);
}

#[test]
fn range_text() {
    assert_eq!(DerivationRange::new(5, 5).to_string(), "5");
    assert_eq!(DerivationRange::new(1, 20).to_string(), "1-20");
    assert_eq!(DerivationRange::new(9, 2).to_string(), "9-2");
}

#[test]
fn range_strict_encoding() {
    let r = DerivationRange::new(0x0102_0304, 7);
    let bytes = r.to_strict_bytes();
    assert_eq!(bytes, vec![4, 3, 2, 1, 7, 0, 0, 0]);
    assert_eq!(DerivationRange::from_strict_bytes(&bytes), Some(r));
    assert_eq!(DerivationRange::from_strict_bytes(&bytes[..7]), None);
}

#[test]
fn range_order_is_by_start_then_end() {
    assert!(DerivationRange::new(1, 9) < DerivationRange::new(2, 0));
    assert!(DerivationRange::new(1, 2) < DerivationRange::new(1, 3));
}

#[test]
fn range_partial_cmp() {
    assert_eq!(DerivationRange::new(1, 2).partial_cmp(&DerivationRange::new(0, 9)), Some(Ordering::Greater));
    assert_eq!(DerivationRange::new(0, 5).partial_cmp(&DerivationRange::new(0, 7)), Some(Ordering::Less));
    assert_eq!(DerivationRange::new(3, 4).partial_cmp(&DerivationRange::new(3, 4)), Some(Ordering::Equal));
    assert!(DerivationRange::new(4, 0) > DerivationRange::new(3, 9));
}
