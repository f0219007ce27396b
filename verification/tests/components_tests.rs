use lnpbp_bip32::branch::XpubRef;
use lnpbp_bip32::components::{ComponentsParseError, DerivationComponents};
use lnpbp_bip32::index::{ChildIndex, UnhardenedIndex};

const MASTER: &str = "xpub661MyMwAqRbcFW31YEwpkMuc5THy2PSt5bDMsktWQcFF8syAmRUapSCGu8ED9W6oDMSgv6Zz8idoc4a6mr8BDzTJY47LJhkJ8UB7WEGuduB";
const CHILD0: &str = "xpub69H7F5d8KSRgmmdJg2KhpAK8SR3DjMwAdkxj3ZuxV27CprR9LgpeyGmXUbC6wb7ERfvrnKZjXoUmmDznezpbZb7ap6r1D3tgFxHmwMkQTPH";

fn parse(s: &str) -> Result<DerivationComponents, ComponentsParseError> {
    DerivationComponents::try_from_str(s).expect("no panic on this text")
}

#[test]
fn parses_terminal_only() {
    let text = format!("[{}]/0/*", MASTER);
    let c = parse(&text).unwrap();
    assert_eq!(c.master_xpub, c.branch_xpub);
    assert_eq!(c.terminal_path, vec![0]);
    assert!(c.index_ranges.is_none());
    assert_eq!(c.count(), u32::MAX);
    assert_eq!(c.to_string(), text);
    assert_eq!(c.branch_xpub.to_string(), MASTER);
    assert_eq!(c.index_ranges_string(), "");
}

#[test]
fn parses_ranges() {
    let c = parse(&format!("[{}]/7/1-3,5", MASTER)).unwrap();
    let ranges = c.index_ranges.clone().unwrap();
    assert_eq!(ranges.len(), 2);
    assert_eq!((ranges[0].start(), ranges[0].end()), (1, 3));
    assert_eq!((ranges[1].start(), ranges[1].end()), (5, 5));
    assert_eq!(c.count(), 4);
    assert_eq!(c.index_ranges_string(), "1-3,5");
    assert_eq!(c.to_string(), format!("[{}]/7/1-3,5", MASTER));
    assert_eq!(c.to_string_alternate(), "[bd16bee5]//7/1-3,5");
}

#[test]
fn third_range_bound_is_ignored() {
    let c = parse(&format!("[{}]/7/1-2-3,4", MASTER)).unwrap();
    let ranges = c.index_ranges.unwrap();
    assert_eq!((ranges[0].start(), ranges[0].end()), (1, 2));
    assert_eq!((ranges[1].start(), ranges[1].end()), (4, 4));
}

#[test]
fn parses_branch_part() {
    let c = parse(&format!("[{}]/0=[{}]/3/*", MASTER, CHILD0)).unwrap();
    assert_eq!(c.master_xpub.to_string(), MASTER);
    assert_eq!(c.branch_xpub.to_string(), CHILD0);
    assert_eq!(c.branch_path.to_string(), "m/0");
    assert_eq!(c.terminal_path, vec![3]);
    assert_eq!(c.derivation_path().to_string(), "m/0/3");
    assert_eq!(c.to_string(), format!("[{}]/0=[{}]/3/*", MASTER, CHILD0));
}

#[test]
fn branch_outside_grammar_is_ignored() {
    let c = parse(&format!("[{}]/0/1/2=[{}]/3", MASTER, CHILD0)).unwrap();
    assert_eq!(c.master_xpub.to_string(), CHILD0);
    assert_eq!(c.branch_path.to_string(), "m");
}

#[test]
fn refuses_hardened_terminal() {
    let e = parse(&format!("[{}]/0h", MASTER)).unwrap_err();
    assert_eq!(e.0, "Terminal derivation path must not contain hardened keys");
}

#[test]
fn refuses_wrong_composition() {
    assert_eq!(parse("garbage").unwrap_err().0, "Wrong composition of derivation components data");
    assert_eq!(parse(&format!("[{}]0", MASTER)).unwrap_err().0, "Wrong composition of derivation components data");
    assert_eq!(
        parse("a=b=c").unwrap_err().0,
        "Derivation components string must contain at most two parts separated by `=`"
    );
}

#[test]
fn refuses_concatenated_steps() {
    let e = parse(&format!("[{}]/1'2", MASTER)).unwrap_err();
    assert_eq!(e.0, "invalid child number format");
}

#[test]
fn range_bound_overflow_is_refused_by_try() {
    assert!(DerivationComponents::try_from_str(&format!("[{}]/0/9999999999", MASTER)).is_none());
    assert!(DerivationComponents::try_from_str(&format!("[{}]/0/1-9999999999-0", MASTER)).is_none());
    assert!(DerivationComponents::try_from_str(&format!("[{}]/0/1-2-9999999999", MASTER)).is_some());
}

#[test]
fn derives_children() {
    let c = parse(&format!("[{}]/0", MASTER)).unwrap();
    let child = c.try_child(5).unwrap();
    let bytes = child.as_bytes().to_vec();
    assert_eq!(bytes[4], 2);
    let parent = match XpubRef::from_str(CHILD0).unwrap() {
        XpubRef::Xpub(x) => x,
        _ => panic!("an extended key"),
    };
    assert_eq!(bytes[5..9].to_vec(), parent.fingerprint().to_bytes().to_vec());
    let key = c.derive_public_key(UnhardenedIndex::from(5u8));
    assert_eq!(key.as_bytes().to_vec(), bytes[45..78].to_vec());
    assert_eq!(c.child(5), child);
}

#[test]
fn ranges_text_reads_back() {
    let c = parse(&format!("[{}]/2/0-4,9,12-13", MASTER)).unwrap();
    let text = c.index_ranges_string();
    assert_eq!(text, "0-4,9,12-13");
    let again = parse(&format!("[{}]/2/{}", MASTER, text)).unwrap();
    assert_eq!(again.index_ranges, c.index_ranges);
    assert_eq!(again.count(), 8);
}

#[test]
fn single_part_has_branch_as_master() {
    let c = parse(&format!("[{}]/4", MASTER)).unwrap();
    assert_eq!(c.master_xpub, c.branch_xpub);
    assert_eq!(c.branch_path.to_string(), "m");
    assert_eq!(c.to_string(), format!("[{}]/4/*", MASTER));
    let copy = c.clone();
    assert_eq!(copy, c);
    assert_eq!(copy.branch_path, c.branch_path);
}

#[test]
fn bad_key_checksum_is_refused_with_the_reader_message() {
    let mut bad = MASTER.to_string();
    bad.pop();
    bad.push('C');
    let e = parse(&format!("[{}]/0", bad)).unwrap_err();
    assert!(!e.0.is_empty());
    assert_ne!(e.0, "Wrong composition of derivation components data");
    let ok = DerivationComponents::from_str(&format!("[{}]/0/3-4", MASTER)).unwrap();
    assert_eq!(ok.count(), 2);
}

#[test]
fn read_components_have_one_terminal_index() {
    let c = parse(&format!("[{}]/2147483647/0,5-6", MASTER)).unwrap();
    assert_eq!(c.terminal_path, vec![2147483647]);
    assert_eq!(c.index_ranges.unwrap().len(), 2);
    let e = parse(&format!("[{}]/2147483648", MASTER)).unwrap_err();
    assert_eq!(e.0, "child number 2147483648 is invalid (not within [0, 2^31 - 1])");
}

#[test]
fn star_range_reads_as_no_range() {
    let with_star = parse(&format!("[{}]/9/*", MASTER)).unwrap();
    let without = parse(&format!("[{}]/9", MASTER)).unwrap();
    assert_eq!(with_star, without);
    assert!(without.index_ranges.is_none());
    assert_eq!(
        parse("[not a key]/9/*").unwrap_err(),
        parse("[not a key]/9").unwrap_err()
    );
}

#[test]
fn derived_public_key_is_the_childs() {
    let c = parse(&format!("[{}]/1", MASTER)).unwrap();
    let i = UnhardenedIndex::from_index(3).unwrap();
    let key = c.try_derive_public_key(i).unwrap();
    assert_eq!(key, c.child(3).public_key());
    assert_eq!(c.derive_public_key(i), key);
    assert_eq!(c.try_child(3).unwrap().as_bytes()[4], 2);
}

#[test]
fn too_many_parts_message_needs_more_than_one_separator() {
    let many = parse(&format!("[{}]/0=[{}]/1=[{}]/2", MASTER, MASTER, CHILD0)).unwrap_err();
    assert_eq!(many.0, "Derivation components string must contain at most two parts separated by `=`");
    let two = parse(&format!("[{}]/0=[{}]/1'", MASTER, CHILD0)).unwrap_err();
    assert_eq!(two.0, "Terminal derivation path must not contain hardened keys");
}

#[test]
fn text_form_reads_back() {
    for text in [
        format!("[{}]/0=[{}]/3/1-2,7", MASTER, CHILD0),
        format!("[{}]/5/*", MASTER),
        format!("[{}]/0h=[{}]/2147483647/9", MASTER, CHILD0),
    ] {
        let c = parse(&text).unwrap();
        assert_eq!(parse(&c.to_string()).unwrap(), c);
    }
}
