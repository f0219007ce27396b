//! Extended public keys, their fingerprints and identifiers, held as the
//! bytes that BIP32 defines for them.

use vstd::prelude::*;

use crate::btc::{xpub_decodes, xpub_fingerprint, xpub_fingerprint_of, xpub_text, xpub_to_string};
use crate::text::{chars_to_string, hex_lower, push_hex_lower};

verus! {

/// A BIP32 extended public key, held as its 78-byte BIP32 serialization
/// (version, depth, parent fingerprint, child number, chain code, compressed
/// public key), which `bitcoin`'s `ExtendedPubKey::decode` accepts.
#[derive(PartialEq, Eq, Hash, Debug, PartialOrd, Ord)]
pub struct Xpub {
    data: Vec<u8>,
}

impl View for Xpub {
    type V = Seq<u8>;

    closed spec fn view(&self) -> Seq<u8> {
        self.data@
    }
}

impl Clone for Xpub {
    fn clone(&self) -> (r: Self)
        ensures
            r@ == self@,
    {
        proof {
            use_type_invariant(self);
        }
        let data = self.data.clone();
        assert(data@ =~= self.data@);
        Xpub { data }
    }
}

/// The depth of the key with serialization `data`: its byte 4.
pub open spec fn xpub_depth(data: Seq<u8>) -> u8 {
    data[4]
}

/// The compressed public key of the key with serialization `data`: its
/// bytes 45 to 78.
pub open spec fn xpub_public_key(data: Seq<u8>) -> Seq<u8> {
    data.subrange(45, 78)
}

/// Law: the public key of a serialization is its last 33 bytes, after the
/// 13 bytes of version, depth, parent fingerprint and child number and the
/// 32 bytes of chain code.
pub proof fn law_public_key_is_last(data: Seq<u8>)
    requires
        data.len() == 78,
    ensures
        xpub_public_key(data).len() == 33,
        xpub_public_key(data) == data.skip(78 - 33),
        data == data.take(45) + xpub_public_key(data),
        xpub_depth(data) == data[4],
{
    assert(xpub_public_key(data) =~= data.skip(78 - 33));
    assert(data =~= data.take(45) + xpub_public_key(data));
}

/// Bytes that are the serialization of an extended public key.
pub open spec fn xpub_bytes(data: Seq<u8>) -> bool {
    data.len() == 78 && xpub_decodes(data)
}

impl Xpub {
    /// The serialization is that of an extended public key.
    #[verifier::type_invariant]
    spec fn well_formed(self) -> bool {
        xpub_bytes(self.data@)
    }

    /// The key whose serialization is `data`.
    pub(crate) fn from_bytes(data: Vec<u8>) -> (r: Self)
        requires
            xpub_bytes(data@),
        ensures
            r@ == data@,
    {
        Xpub { data }
    }

    /// The serialization of the key.
    pub fn as_bytes(&self) -> (r: &[u8])
        ensures
            r@ == self@,
            xpub_bytes(r@),
    {
        proof {
            use_type_invariant(self);
        }
        self.data.as_slice()
    }

    /// Whether two keys are the same key (same serialization).
    pub fn same_key(&self, other: &Xpub) -> (r: bool)
        ensures
            r == (self@ == other@),
    {
        proof {
            use_type_invariant(self);
            use_type_invariant(other);
        }
        let a = self.data.as_slice();
        let b = other.data.as_slice();
        let mut i: usize = 0;
        while i < 78
            invariant
                i <= 78,
                a@.len() == 78,
                b@.len() == 78,
                a@ == self@,
                b@ == other@,
                forall|j: int| 0 <= j < i ==> a@[j] == b@[j],
            decreases 78 - i,
        {
            if a[i] != b[i] {
                return false;
            }
            i = i + 1;
        }
        assert(a@ =~= b@);
        true
    }

    /// The text form of the key, as `bitcoin`'s `ExtendedPubKey` writes it
    /// (Base58Check of the serialization).
    pub fn to_string(&self) -> (r: String)
        ensures
            r@ == xpub_text(self@),
    {
        xpub_to_string(self.as_bytes())
    }

    /// The fingerprint of the key: the first four bytes of the HASH160 of
    /// its public key.
    pub fn fingerprint(&self) -> (r: Fingerprint)
        ensures
            r@ == xpub_fingerprint(self@),
    {
        let f = xpub_fingerprint_of(self.as_bytes());
        Fingerprint { bytes: f }
    }

    /// The public key: bytes 45 to 78 of the serialization.
    pub fn public_key(&self) -> (r: PublicKey)
        ensures
            r@ == xpub_public_key(self@),
    {
        proof {
            use_type_invariant(self);
        }
        let mut key: Vec<u8> = Vec::new();
        let mut i: usize = 45;
        while i < 78
            invariant
                45 <= i <= 78,
                self.data@.len() == 78,
                key@ == self.data@.subrange(45, i as int),
            decreases 78 - i,
        {
            key.push(self.data[i]);
            i = i + 1;
            assert(key@ =~= self.data@.subrange(45, i as int));
        }
        PublicKey { key }
    }
}

/// A compressed public key, held as its 33-byte SEC serialization.
#[derive(Clone, PartialEq, Eq, Hash, Debug, PartialOrd, Ord)]
pub struct PublicKey {
    key: Vec<u8>,
}

impl View for PublicKey {
    type V = Seq<u8>;

    closed spec fn view(&self) -> Seq<u8> {
        self.key@
    }
}

impl PublicKey {
    /// The serialization of the key.
    pub fn as_bytes(&self) -> (r: &[u8])
        ensures
            r@ == self@,
    {
        self.key.as_slice()
    }
}

/// The fingerprint of an extended key: four bytes.
#[derive(Clone, Copy, PartialEq, Eq, Hash, Debug, PartialOrd, Ord, Default)]
pub struct Fingerprint {
    bytes: [u8; 4],
}

impl View for Fingerprint {
    type V = Seq<u8>;

    closed spec fn view(&self) -> Seq<u8> {
        self.bytes@
    }
}

impl Fingerprint {
    /// The fingerprint made of `bytes`.
    pub fn new(bytes: [u8; 4]) -> (r: Self)
        ensures
            r@ == bytes@,
    {
        Fingerprint { bytes }
    }

    /// Every fingerprint has four bytes.
    pub broadcast proof fn lemma_len(f: Fingerprint)
        ensures
            #[trigger] f@.len() == 4,
    {
    }

    /// The bytes of the fingerprint.
    pub fn to_bytes(&self) -> (r: [u8; 4])
        ensures
            r@ == self@,
    {
        self.bytes
    }

    /// The text form: lower-case hexadecimal.
    pub fn to_string(&self) -> (r: String)
        ensures
            r@ == hex_lower(self@),
    {
        let mut v: Vec<char> = Vec::new();
        push_hex_lower(&mut v, self.bytes.as_slice());
        assert(v@ =~= hex_lower(self@));
        chars_to_string(v.as_slice())
    }
}

/// The identifier of an extended public key: the HASH160 of its public
/// key, twenty bytes.
#[derive(Clone, Copy, PartialEq, Eq, Hash, Debug, PartialOrd, Ord, Default)]
pub struct XpubIdentifier {
    bytes: [u8; 20],
}

impl View for XpubIdentifier {
    type V = Seq<u8>;

    closed spec fn view(&self) -> Seq<u8> {
        self.bytes@
    }
}

impl XpubIdentifier {
    /// The identifier made of `bytes`.
    pub fn new(bytes: [u8; 20]) -> (r: Self)
        ensures
            r@ == bytes@,
    {
        XpubIdentifier { bytes }
    }

    /// Every identifier has twenty bytes.
    pub broadcast proof fn lemma_len(id: XpubIdentifier)
        ensures
            #[trigger] id@.len() == 20,
    {
    }

    /// The bytes of the identifier.
    pub fn to_bytes(&self) -> (r: [u8; 20])
        ensures
            r@ == self@,
    {
        self.bytes
    }

    /// The text form: lower-case hexadecimal.
    pub fn to_string(&self) -> (r: String)
        ensures
            r@ == hex_lower(self@),
    {
        let mut v: Vec<char> = Vec::new();
        push_hex_lower(&mut v, self.bytes.as_slice());
        assert(v@ =~= hex_lower(self@));
        chars_to_string(v.as_slice())
    }
}

} // verus!
