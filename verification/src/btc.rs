//! The calls into the `bitcoin` crate, with what their source shows of them.

use std::str::FromStr;


use bitcoin::util::bip32;
use bitcoin::util::bip32::Error as BtcError;
use vstd::prelude::*;

use crate::error::Bip32Error;
use crate::index::{child_number_from_str_spec, Child};
use crate::path::{path_from_str_spec, path_text};
use crate::text::hex_decode;

verus! {

/// `bitcoin::util::bip32::ChildNumber::from_str`, with its result carried into
/// this library's `Child` and `Bip32Error`. The source refuses with
/// `InvalidChildNumber` an index at or above 2^31 and with
/// `InvalidChildNumberFormat` a text that `u32::from_str` does not read.
#[verifier::external_body]
pub(crate) fn child_number_from_str(s: &str) -> (r: Result<Child, Bip32Error>)
    ensures
        r == child_number_from_str_spec(s@),
{
    match bip32::ChildNumber::from_str(s) {
        Ok(bip32::ChildNumber::Normal { index }) => Ok(Child::Normal { index }),
        Ok(bip32::ChildNumber::Hardened { index }) => Ok(Child::Hardened { index }),
        Err(BtcError::InvalidChildNumber(index)) => Err(Bip32Error::InvalidChildNumber(index)),
        Err(_) => Err(Bip32Error::InvalidChildNumberFormat),
    }
}

} // verus!

verus! {

#[verifier::external_type_specification]
#[verifier::external_body]
pub struct ExChildNumber(bip32::ChildNumber);

#[verifier::external_type_specification]
#[verifier::external_body]
pub struct ExDerivationPath(bip32::DerivationPath);

/// The child numbers that a `bitcoin` `DerivationPath` holds, in order.
pub uninterp spec fn path_children(path: bip32::DerivationPath) -> Seq<Child>;

/// `DerivationPath::from(Vec<ChildNumber>)`: the path holding exactly these
/// child numbers.
#[verifier::external_body]
pub(crate) fn path_from_children(children: Vec<Child>) -> (r: bip32::DerivationPath)
    ensures
        path_children(r) == children@,
{
    let steps: Vec<bip32::ChildNumber> = children.into_iter().map(|c| match c {
        Child::Normal { index } => bip32::ChildNumber::Normal { index },
        Child::Hardened { index } => bip32::ChildNumber::Hardened { index },
    }).collect();
    bip32::DerivationPath::from(steps)
}

/// `DerivationPath::as_ref`: the child numbers of the path, in order.
#[verifier::external_body]
pub(crate) fn path_children_of(path: &bip32::DerivationPath) -> (r: Vec<Child>)
    ensures
        r@ == path_children(*path),
{
    path.as_ref().iter().map(|c| match *c {
        bip32::ChildNumber::Normal { index } => Child::Normal { index },
        bip32::ChildNumber::Hardened { index } => Child::Hardened { index },
    }).collect()
}

/// `Clone` of `bitcoin::util::bip32::DerivationPath`: the same steps.
#[verifier::external_body]
pub(crate) fn path_clone(path: &bip32::DerivationPath) -> (r: bip32::DerivationPath)
    ensures
        path_children(r) == path_children(*path),
{
    path.clone()
}

/// The length of `DerivationPath::into_iter`: the number of steps of the path.
#[verifier::external_body]
pub(crate) fn path_len(path: &bip32::DerivationPath) -> (r: usize)
    ensures
        r == path_children(*path).len(),
{
    path.into_iter().len()
}

} // verus!

verus! {

/// Whether `bitcoin`'s `ExtendedPubKey::decode` accepts these bytes.
pub uninterp spec fn xpub_decodes(data: Seq<u8>) -> bool;

/// The text that `bitcoin`'s `Display` of `ExtendedPubKey` writes for the key
/// with this serialization.
pub uninterp spec fn xpub_text(data: Seq<u8>) -> Seq<char>;

/// What `bitcoin`'s `ExtendedPubKey::fingerprint` returns for the key with this
/// serialization.
pub uninterp spec fn xpub_fingerprint(data: Seq<u8>) -> Seq<u8>;

/// `Display` of `bitcoin::util::bip32::ExtendedPubKey`, on the key decoded
/// from `data` (which is claimed to decode); the text is named, not stated.
#[verifier::external_body]
pub(crate) fn xpub_to_string(data: &[u8]) -> (r: String)
    requires
        data@.len() == 78,
        xpub_decodes(data@),
    ensures
        r@ == xpub_text(data@),
{
    bip32::ExtendedPubKey::decode(data).expect("the serialization decodes").to_string()
}

/// `bitcoin::util::bip32::ExtendedPubKey::fingerprint` on the key decoded from
/// `data`; claimed: four bytes, otherwise named, not stated.
#[verifier::external_body]
pub(crate) fn xpub_fingerprint_of(data: &[u8]) -> (r: [u8; 4])
    requires
        data@.len() == 78,
        xpub_decodes(data@),
    ensures
        r@ == xpub_fingerprint(data@),
{
    let fingerprint = bip32::ExtendedPubKey::decode(data).expect("the serialization decodes").fingerprint();
    let mut bytes = [0u8; 4];
    bytes.copy_from_slice(&fingerprint[..]);
    bytes
}

} // verus!

verus! {

/// What `bitcoin`'s `ExtendedPubKey::from_str` returns for the text: the
/// serialization of the key read, or the error.
pub uninterp spec fn xpub_from_str_result(s: Seq<char>) -> Result<Seq<u8>, Bip32Error>;

/// `bitcoin::util::bip32::ExtendedPubKey::from_str` (Base58Check text of a
/// 78-byte serialization), its key carried as its serialization and its error
/// variant for variant. Claimed beyond the name: a key read has a
/// serialization that decodes again.
#[verifier::external_body]
pub(crate) fn xpub_from_str(s: &str) -> (r: Result<Vec<u8>, Bip32Error>)
    ensures
        match r {
            Ok(d) => xpub_from_str_result(s@) == Ok::<Seq<u8>, Bip32Error>(d@) && d@.len() == 78
                && xpub_decodes(d@),
            Err(e) => xpub_from_str_result(s@) == Err::<Seq<u8>, Bip32Error>(e),
        },
{
    match bip32::ExtendedPubKey::from_str(s) {
        Ok(xpub) => Ok(xpub.encode().to_vec()),
        Err(BtcError::CannotDeriveFromHardenedKey) => Err(Bip32Error::CannotDeriveFromHardenedKey),
        Err(BtcError::Ecdsa(e)) => Err(Bip32Error::Ecdsa(e.to_string())),
        Err(BtcError::InvalidChildNumber(n)) => Err(Bip32Error::InvalidChildNumber(n)),
        Err(BtcError::RngError(m)) => Err(Bip32Error::RngError(m)),
        Err(BtcError::InvalidChildNumberFormat) => Err(Bip32Error::InvalidChildNumberFormat),
        Err(BtcError::InvalidDerivationPathFormat) => Err(Bip32Error::InvalidDerivationPathFormat),
        Err(BtcError::UnknownVersion(v)) => Err(Bip32Error::UnknownVersion(v)),
        Err(BtcError::WrongExtendedKeyLength(n)) => Err(Bip32Error::WrongExtendedKeyLength(n)),
        Err(BtcError::Base58(e)) => Err(Bip32Error::Base58(e.to_string())),
    }
}

/// What `bitcoin`'s `ExtendedPubKey::derive_pub` returns for the key with this
/// serialization and these steps: the serialization of the derived key, or
/// `None` for an error.
pub uninterp spec fn xpub_derive(data: Seq<u8>, path: Seq<Child>) -> Option<Seq<u8>>;

/// `bitcoin::util::bip32::ExtendedPubKey::derive_pub` on the key decoded from
/// `data` (which is claimed to decode) along `path`. Each step adds one to the
/// key's depth (byte 4 of the serialization) as a `u8`, so the key's depth and
/// the number of steps must not pass 255. Claimed beyond the name: a derived
/// key has a serialization that decodes again.
#[verifier::external_body]
pub(crate) fn xpub_derive_pub(data: &[u8], path: &bip32::DerivationPath) -> (r: Option<Vec<u8>>)
    requires
        data@.len() == 78,
        xpub_decodes(data@),
        data@[4] + path_children(*path).len() <= 255,
    ensures
        match r {
            Some(d) => xpub_derive(data@, path_children(*path)) == Some(d@) && d@.len() == 78
                && xpub_decodes(d@),
            None => xpub_derive(data@, path_children(*path)) is None,
        },
{
    let secp = bitcoin::secp256k1::Secp256k1::verification_only();
    let xpub = bip32::ExtendedPubKey::decode(data).expect("the serialization decodes");
    xpub.derive_pub(&secp, path).ok().map(|child| child.encode().to_vec())
}

/// `bitcoin::util::bip32::DerivationPath::into_child`: the path with one more
/// step.
#[verifier::external_body]
pub(crate) fn path_into_child(path: bip32::DerivationPath, child: Child) -> (r: bip32::DerivationPath)
    ensures
        path_children(r) == path_children(path).push(child),
{
    path.into_child(match child {
        Child::Normal { index } => bip32::ChildNumber::Normal { index },
        Child::Hardened { index } => bip32::ChildNumber::Hardened { index },
    })
}

/// `bitcoin::util::bip32::DerivationPath::extend`: the steps of `path`
/// followed by those of `tail`.
#[verifier::external_body]
pub(crate) fn path_extend(path: &bip32::DerivationPath, tail: &bip32::DerivationPath) -> (r: bip32::DerivationPath)
    ensures
        path_children(r) == path_children(*path) + path_children(*tail),
{
    path.extend(tail)
}

} // verus!

verus! {

/// Hexadecimal text of exactly `n` bytes, decoded as `bitcoin_hashes`'
/// `FromHex` decodes it; `None` for any other length or a character that is
/// no hexadecimal digit.
pub open spec fn hex_bytes_spec(s: Seq<char>, n: nat) -> Option<Seq<u8>> {
    if s.len() == 2 * n {
        hex_decode(s)
    } else {
        None
    }
}

/// `bitcoin::util::bip32::Fingerprint::from_str`: four bytes as eight
/// hexadecimal digits of either case, first digit the high nibble.
#[verifier::external_body]
pub(crate) fn fingerprint_from_str(s: &str) -> (r: Option<[u8; 4]>)
    ensures
        r is Some <==> hex_bytes_spec(s@, 4) is Some,
        r matches Some(b) ==> b@ == hex_bytes_spec(s@, 4)->0,
{
    bip32::Fingerprint::from_str(s).ok().map(|f| {
        let mut bytes = [0u8; 4];
        bytes.copy_from_slice(&f[..]);
        bytes
    })
}

/// `bitcoin::XpubIdentifier::from_str`: twenty bytes as forty hexadecimal
/// digits of either case, in order (this hash type is not shown reversed).
#[verifier::external_body]
pub(crate) fn xpub_identifier_from_str(s: &str) -> (r: Option<[u8; 20]>)
    ensures
        r is Some <==> hex_bytes_spec(s@, 20) is Some,
        r matches Some(b) ==> b@ == hex_bytes_spec(s@, 20)->0,
{
    bitcoin::XpubIdentifier::from_str(s).ok().map(|id| bitcoin::hashes::Hash::into_inner(id))
}

} // verus!

verus! {

/// `bitcoin::util::bip32::DerivationPath::from_str`: the text is split at
/// `/`, the first part must be `m` (else `InvalidDerivationPathFormat`) and
/// each further part is read by `ChildNumber::from_str`, whose first error is
/// returned.
#[verifier::external_body]
pub(crate) fn path_from_str(s: &str) -> (r: Result<bip32::DerivationPath, Bip32Error>)
    ensures
        match r {
            Ok(p) => path_from_str_spec(s@) == Ok::<Seq<Child>, Bip32Error>(path_children(p)),
            Err(e) => path_from_str_spec(s@) == Err::<Seq<Child>, Bip32Error>(e),
        },
{
    match bip32::DerivationPath::from_str(s) {
        Ok(path) => Ok(path),
        Err(BtcError::InvalidChildNumber(index)) => Err(Bip32Error::InvalidChildNumber(index)),
        Err(BtcError::InvalidDerivationPathFormat) => Err(Bip32Error::InvalidDerivationPathFormat),
        Err(_) => Err(Bip32Error::InvalidChildNumberFormat),
    }
}

/// `Display` of `bitcoin::util::bip32::DerivationPath`: `m`, then `/` and
/// each step, an unhardened one as its index and a hardened one as its
/// index followed by `'`.
#[verifier::external_body]
pub(crate) fn path_to_string(path: &bip32::DerivationPath) -> (r: String)
    ensures
        r@ == path_text(path_children(*path)),
{
    path.to_string()
}

} // verus!
