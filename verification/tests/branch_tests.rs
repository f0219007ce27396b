use lnpbp_bip32::branch::{BranchStep, XpubRef};
use lnpbp_bip32::error::Bip32Error;
use lnpbp_bip32::index::{ChildIndex, HardenedIndex, UnhardenedIndex};
use lnpbp_bip32::template::DerivationStep;

const XPUB: &str = "xpub661MyMwAqRbcFtXgS5sYJABqqG9YLmC4Q1Rdap9gSE8NqtwybGhePY2gZ29ESFjqJoCu1Rupje8YtGqsefD265TMg7usUDFdp6W1EGMcet8";

#[test]
fn xpub_ref_kinds() {
    assert_eq!(XpubRef::from_str(""), Ok(XpubRef::Absent));
    assert_eq!(XpubRef::from_str("== \t"), Ok(XpubRef::Absent));
    let f = XpubRef::from_str("=3442193e").unwrap();
    assert!(matches!(f, XpubRef::Fingerprint(_)));
    assert_eq!(f.to_string(), "=[3442193e]");
    assert_eq!(XpubRef::from_str("3442193E").unwrap().to_string(), "=[3442193e]");
    let id = XpubRef::from_str("3442193e1bb70916e914552172cd4e2dbc9df811").unwrap();
    assert!(matches!(id, XpubRef::XpubIdentifier(_)));
    assert_eq!(id.to_string(), "=[3442193e1bb70916e914552172cd4e2dbc9df811]");
    let x = XpubRef::from_str(XPUB).unwrap();
    assert_eq!(x.to_string(), format!("=[{}]", XPUB));
    match x {
        XpubRef::Xpub(k) => assert_eq!(k.fingerprint().to_string(), "3442193e"),
        _ => panic!("an extended key"),
    }
    assert!(matches!(XpubRef::from_str("zzz"), Err(Bip32Error::Base58(_))));
    assert_eq!(XpubRef::Absent.to_string(), "");
}

#[test]
fn branch_steps() {
    assert_eq!(BranchStep::zero_hardened(), BranchStep::Hardened { index: 0, xpub_ref: None });
    assert_eq!(BranchStep::one_hardened(), BranchStep::Hardened { index: 1, xpub_ref: None });
    let h = HardenedIndex::from_index(3).unwrap();
    let r = XpubRef::from_str("3442193e").unwrap();
    let s = BranchStep::with_xpub(h, r.clone());
    assert_eq!(s.xpub_ref(), Some(&r));
    assert_eq!(BranchStep::zero_hardened().xpub_ref(), None);
    assert_eq!(BranchStep::from(UnhardenedIndex::from(4u8)), BranchStep::Normal(4));
    assert_eq!(BranchStep::from(h), BranchStep::Hardened { index: 3, xpub_ref: None });
    assert_eq!(BranchStep::from(9u16).xpub_ref(), None);
}

#[test]
fn derivation_step_text() {
    assert_eq!(DerivationStep::Normal(3).to_string(), "3");
    assert_eq!(DerivationStep::Hardened(3).to_string(), "3'");
    assert_eq!(DerivationStep::WildcardNormal.to_string(), "*");
    assert_eq!(DerivationStep::WildcardHardened.to_string(), "*'");
}

#[test]
fn fingerprint_text_reads_back() {
    let x = match XpubRef::from_str(XPUB).unwrap() {
        XpubRef::Xpub(k) => k,
        _ => panic!("an extended key"),
    };
    let f = x.fingerprint();
    assert_eq!(XpubRef::from_str(&f.to_string()), Ok(XpubRef::Fingerprint(f)));
}
