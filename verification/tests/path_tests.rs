use std::str::FromStr;

use bitcoin::util::bip32::{ChildNumber, DerivationPath};
use lnpbp_bip32::path::{DerivationPathMaster, HardenedNormalSplit};

#[test]
fn master_path_is_master() {
    let m = <DerivationPath as DerivationPathMaster>::master();
    assert!(DerivationPathMaster::is_master(&m));
    assert_eq!(m, DerivationPath::from_str("m").unwrap());
    let p = DerivationPath::from_str("m/1").unwrap();
    assert!(!DerivationPathMaster::is_master(&p));
}

#[test]
fn split_keeps_trailing_normal_steps() {
    let p = DerivationPath::from_str("m/1'/2/3").unwrap();
    let (branch, terminal) = p.hardened_normal_split();
    assert_eq!(branch, DerivationPath::from_str("m/1'").unwrap());
    assert_eq!(terminal, vec![2, 3]);
}

#[test]
fn split_of_mixed_path() {
    let p = DerivationPath::from_str("m/4/5'/6/7'/8").unwrap();
    let (branch, terminal) = p.hardened_normal_split();
    assert_eq!(branch, DerivationPath::from_str("m/4/5'/6/7'").unwrap());
    assert_eq!(terminal, vec![8]);
    let all_normal = DerivationPath::from_str("m/0/1").unwrap();
    let (branch, terminal) = all_normal.hardened_normal_split();
    assert!(DerivationPathMaster::is_master(&branch));
    assert_eq!(terminal, vec![0, 1]);
    let ends_hardened = DerivationPath::from_str("m/0/1h").unwrap();
    let (branch, terminal) = ends_hardened.hardened_normal_split();
    assert_eq!(branch, ends_hardened);
    assert!(terminal.is_empty());
    let joined: Vec<ChildNumber> = branch.into_iter().cloned().collect();
    assert_eq!(joined.len(), 2);
}
