//! References to extended public keys and the steps of a derivation branch.

use vstd::prelude::*;

use crate::btc::{
    fingerprint_from_str, hex_bytes_spec, xpub_from_str, xpub_from_str_result,
    xpub_identifier_from_str, xpub_text,
};
use crate::error::Bip32Error;
use crate::index::{HardenedIndex, UnhardenedIndex};
use crate::text::{chars_to_string, hex_char, hex_lower, lemma_hex_lower_shape, lemma_hex_roundtrip, push_str, str_to_chars};
use crate::xpub::{Fingerprint, Xpub, XpubIdentifier};
use vstd::std_specs::convert::FromSpecImpl;

verus! {

/// Whether `c` has the Unicode `White_Space` property, as
/// `char::is_whitespace` tells.
pub open spec fn is_whitespace_spec(c: char) -> bool {
    ('\u{9}' <= c && c <= '\u{d}') || c == ' ' || c == '\u{85}' || c == '\u{a0}' || c
        == '\u{1680}' || ('\u{2000}' <= c && c <= '\u{200a}') || c == '\u{2028}' || c
        == '\u{2029}' || c == '\u{202f}' || c == '\u{205f}' || c == '\u{3000}'
}

/// `char::is_whitespace`.
pub fn is_whitespace(c: char) -> (r: bool)
    ensures
        r == is_whitespace_spec(c),
{
    ('\u{9}' <= c && c <= '\u{d}') || c == ' ' || c == '\u{85}' || c == '\u{a0}' || c
        == '\u{1680}' || ('\u{2000}' <= c && c <= '\u{200a}') || c == '\u{2028}' || c
        == '\u{2029}' || c == '\u{202f}' || c == '\u{205f}' || c == '\u{3000}'
}

/// `s` without its leading characters `c`, as `str::trim_start_matches`
/// gives it.
pub open spec fn strip_leading(s: Seq<char>, c: char) -> Seq<char>
    decreases s.len(),
{
    if s.len() > 0 && s[0] == c {
        strip_leading(s.drop_first(), c)
    } else {
        s
    }
}

/// Whether `s` trims to the empty string (`s.trim() == ""`).
pub open spec fn blank(s: Seq<char>) -> bool {
    forall|i: int| 0 <= i < s.len() ==> #[trigger] is_whitespace_spec(s[i])
}

/// The view of a reference to an extended public key.
pub enum XpubRefView {
    Absent,
    Fingerprint(Seq<u8>),
    XpubIdentifier(Seq<u8>),
    Xpub(Seq<u8>),
}

/// A reference to an extended public key: none, its fingerprint, its
/// identifier, or the key itself.
#[derive(Clone, PartialEq, Eq, Hash, Debug, PartialOrd, Ord)]
pub enum XpubRef {
    Absent,
    Fingerprint(Fingerprint),
    XpubIdentifier(XpubIdentifier),
    Xpub(Xpub),
}

impl View for XpubRef {
    type V = XpubRefView;

    open spec fn view(&self) -> XpubRefView {
        match self {
            XpubRef::Absent => XpubRefView::Absent,
            XpubRef::Fingerprint(f) => XpubRefView::Fingerprint(f@),
            XpubRef::XpubIdentifier(id) => XpubRefView::XpubIdentifier(id@),
            XpubRef::Xpub(x) => XpubRefView::Xpub(x@),
        }
    }
}

/// What `XpubRef::from_str` returns: after leading `=` are dropped, blank
/// text is no reference, else the first of a fingerprint, an identifier and
/// an extended public key that the text reads as; if it is none of them, the
/// error of reading an extended public key.
pub open spec fn xpub_ref_from_str_spec(s: Seq<char>) -> Result<XpubRefView, Bip32Error> {
    let t = strip_leading(s, '=');
    if blank(t) {
        Ok(XpubRefView::Absent)
    } else if hex_bytes_spec(t, 4) is Some {
        Ok(XpubRefView::Fingerprint(hex_bytes_spec(t, 4)->0))
    } else if hex_bytes_spec(t, 20) is Some {
        Ok(XpubRefView::XpubIdentifier(hex_bytes_spec(t, 20)->0))
    } else {
        match xpub_from_str_result(t) {
            Ok(d) => Ok(XpubRefView::Xpub(d)),
            Err(e) => Err(e),
        }
    }
}

/// The text form of a reference: empty for none, else `=[` and the
/// fingerprint, identifier (both in lower-case hexadecimal) or key, and `]`.
pub open spec fn xpub_ref_text(r: XpubRefView) -> Seq<char> {
    match r {
        XpubRefView::Absent => Seq::empty(),
        XpubRefView::Fingerprint(f) => "=["@ + hex_lower(f) + "]"@,
        XpubRefView::XpubIdentifier(id) => "=["@ + hex_lower(id) + "]"@,
        XpubRefView::Xpub(d) => "=["@ + xpub_text(d) + "]"@,
    }
}

impl XpubRef {
    /// Reads a reference: leading `=` are skipped; blank text is no
    /// reference; otherwise a fingerprint, an identifier or an extended
    /// public key, tried in that order.
    pub fn from_str(s: &str) -> (r: Result<XpubRef, Bip32Error>)
        ensures
            match r {
                Ok(x) => xpub_ref_from_str_spec(s@) == Ok::<XpubRefView, Bip32Error>(x@),
                Err(e) => xpub_ref_from_str_spec(s@) == Err::<XpubRefView, Bip32Error>(e),
            },
    {
        let chars = str_to_chars(s);
        let n = chars.len();
        let mut start: usize = 0;
        assert(chars@.skip(0) =~= chars@);
        while start < n && chars[start] == '='
            invariant
                start <= n,
                n == chars@.len(),
                chars@ == s@,
                strip_leading(s@, '=') == strip_leading(chars@.skip(start as int), '='),
            decreases n - start,
        {
            proof {
                assert(chars@.skip(start as int).drop_first() =~= chars@.skip(start + 1));
            }
            start = start + 1;
        }
        let t = s.substring_char(start, n);
        proof {
            assert(t@ =~= chars@.skip(start as int));
            if start < n {
                assert(chars@.skip(start as int)[0] == chars@[start as int]);
            }
            assert(strip_leading(s@, '=') == t@);
        }
        let mut blank_so_far = true;
        let mut i: usize = start;
        while i < n
            invariant
                start <= i <= n,
                n == chars@.len(),
                t@ == chars@.skip(start as int),
                blank_so_far == (forall|j: int| 0 <= j < i - start ==> #[trigger] is_whitespace_spec(t@[j])),
            decreases n - i,
        {
            if !is_whitespace(chars[i]) {
                blank_so_far = false;
            }
            assert(t@[i - start] == chars@[i as int]);
            i = i + 1;
        }
        if blank_so_far {
            return Ok(XpubRef::Absent);
        }
        if let Some(bytes) = fingerprint_from_str(t) {
            return Ok(XpubRef::Fingerprint(Fingerprint::new(bytes)));
        }
        if let Some(bytes) = xpub_identifier_from_str(t) {
            return Ok(XpubRef::XpubIdentifier(XpubIdentifier::new(bytes)));
        }
        match xpub_from_str(t) {
            Ok(data) => Ok(XpubRef::Xpub(Xpub::from_bytes(data))),
            Err(e) => Err(e),
        }
    }

    /// The text form: empty for no reference, else `=[...]`.
    pub fn to_string(&self) -> (r: String)
        ensures
            r@ == xpub_ref_text(self@),
    {
        let mut v: Vec<char> = Vec::new();
        match self {
            XpubRef::Absent => {},
            XpubRef::Fingerprint(f) => {
                push_str(&mut v, "=[");
                push_str(&mut v, f.to_string().as_str());
                push_str(&mut v, "]");
            },
            XpubRef::XpubIdentifier(id) => {
                push_str(&mut v, "=[");
                push_str(&mut v, id.to_string().as_str());
                push_str(&mut v, "]");
            },
            XpubRef::Xpub(x) => {
                push_str(&mut v, "=[");
                push_str(&mut v, x.to_string().as_str());
                push_str(&mut v, "]");
            },
        }
        assert(v@ =~= xpub_ref_text(self@));
        chars_to_string(v.as_slice())
    }
}

/// Law: the hexadecimal text of a fingerprint, as its `to_string` writes
/// it, reads back as a reference by that fingerprint.
pub proof fn law_fingerprint_text_roundtrip(f: Seq<u8>)
    requires
        f.len() == 4,
    ensures
        xpub_ref_from_str_spec(hex_lower(f)) == Ok::<XpubRefView, Bip32Error>(XpubRefView::Fingerprint(f)),
{
    lemma_hex_lower_shape(f);
    lemma_hex_roundtrip(f);
    let h = hex_lower(f);
    assert(h[0] == hex_char(f[0] as nat / 16));
    assert(h[0] != '=');
    assert(strip_leading(h, '=') == h);
    assert(!is_whitespace_spec(h[0]));
}

/// Law: the hexadecimal text of an identifier reads back as a reference by
/// that identifier.
pub proof fn law_identifier_text_roundtrip(id: Seq<u8>)
    requires
        id.len() == 20,
    ensures
        xpub_ref_from_str_spec(hex_lower(id)) == Ok::<XpubRefView, Bip32Error>(XpubRefView::XpubIdentifier(id)),
{
    lemma_hex_lower_shape(id);
    lemma_hex_roundtrip(id);
    let h = hex_lower(id);
    assert(h[0] == hex_char(id[0] as nat / 16));
    assert(h[0] != '=');
    assert(strip_leading(h, '=') == h);
    assert(!is_whitespace_spec(h[0]));
}

/// Law: leading `=` do not change how a reference reads, and blank text
/// reads as no reference.
pub proof fn law_xpub_ref_leading_eq_and_blank(s: Seq<char>)
    ensures
        xpub_ref_from_str_spec(seq!['='] + s) == xpub_ref_from_str_spec(s),
        blank(s) && (s.len() == 0 || s[0] != '=') ==> xpub_ref_from_str_spec(s) == Ok::<XpubRefView, Bip32Error>(
            XpubRefView::Absent,
        ),
{
    let t = seq!['='] + s;
    assert(t.drop_first() =~= s);
    assert(t[0] == '=');
    assert(strip_leading(t, '=') == strip_leading(s, '='));
}

/// A step of a derivation branch: an unhardened index, or a hardened index
/// with, possibly, a reference to the extended public key it leads to.
#[derive(Clone, PartialEq, Eq, PartialOrd, Ord, Hash, Debug)]
pub enum BranchStep {
    Normal(u32),
    Hardened { index: u32, xpub_ref: Option<XpubRef> },
}

impl BranchStep {
    /// The hardened step 0, with no key reference.
    pub fn zero_hardened() -> (r: Self)
        ensures
            r == (BranchStep::Hardened { index: 0, xpub_ref: None }),
    {
        BranchStep::Hardened { index: 0, xpub_ref: None }
    }

    /// The hardened step 1, with no key reference.
    pub fn one_hardened() -> (r: Self)
        ensures
            r == (BranchStep::Hardened { index: 1, xpub_ref: None }),
    {
        BranchStep::Hardened { index: 1, xpub_ref: None }
    }

    /// The hardened step of `hardened` with the key reference `xpub`.
    pub fn with_xpub(hardened: HardenedIndex, xpub: XpubRef) -> (r: Self)
        ensures
            r == (BranchStep::Hardened { index: hardened@, xpub_ref: Some(xpub) }),
    {
        BranchStep::Hardened { index: u32::from(hardened), xpub_ref: Some(xpub) }
    }

    /// The key reference of a hardened step that has one.
    pub fn xpub_ref(&self) -> (r: Option<&XpubRef>)
        ensures
            r == match self {
                BranchStep::Hardened { xpub_ref: Some(x), .. } => Some(x),
                _ => None::<&XpubRef>,
            },
    {
        match self {
            BranchStep::Hardened { xpub_ref: Some(xpub), .. } => Some(xpub),
            _ => None,
        }
    }
}

impl From<u8> for BranchStep {
    fn from(v: u8) -> (r: Self) {
        BranchStep::Normal(v as u32)
    }
}

impl FromSpecImpl<u8> for BranchStep {
    open spec fn obeys_from_spec() -> bool {
        true
    }

    open spec fn from_spec(v: u8) -> Self {
        BranchStep::Normal(v as u32)
    }
}

impl From<u16> for BranchStep {
    fn from(v: u16) -> (r: Self) {
        BranchStep::Normal(v as u32)
    }
}

impl FromSpecImpl<u16> for BranchStep {
    open spec fn obeys_from_spec() -> bool {
        true
    }

    open spec fn from_spec(v: u16) -> Self {
        BranchStep::Normal(v as u32)
    }
}

impl From<UnhardenedIndex> for BranchStep {
    fn from(v: UnhardenedIndex) -> (r: Self) {
        BranchStep::Normal(u32::from(v))
    }
}

impl FromSpecImpl<UnhardenedIndex> for BranchStep {
    open spec fn obeys_from_spec() -> bool {
        true
    }

    open spec fn from_spec(v: UnhardenedIndex) -> Self {
        BranchStep::Normal(v@)
    }
}

impl From<HardenedIndex> for BranchStep {
    fn from(v: HardenedIndex) -> (r: Self) {
        BranchStep::Hardened { index: u32::from(v), xpub_ref: None }
    }
}

impl FromSpecImpl<HardenedIndex> for BranchStep {
    open spec fn obeys_from_spec() -> bool {
        true
    }

    open spec fn from_spec(v: HardenedIndex) -> Self {
        BranchStep::Hardened { index: v@, xpub_ref: None }
    }
}

} // verus!
