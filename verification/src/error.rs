//! Errors of BIP32 index and path handling.

use vstd::prelude::*;

use crate::text::{chars_to_string, decimal, push_decimal, push_str};

verus! {

/// A BIP32 error, variant for variant the error of the `bitcoin` crate's
/// `bip32` module; the errors of other libraries that it wraps are held by
/// their message.
#[derive(Clone, PartialEq, Eq, Debug)]
pub enum Bip32Error {
    /// A pk->pk derivation was attempted on a hardened key
    CannotDeriveFromHardenedKey,
    /// A secp256k1 error occurred (its message)
    Ecdsa(String),
    /// A child number was provided that was out of range
    InvalidChildNumber(u32),
    /// Error creating a master seed
    RngError(String),
    /// Invalid child number format.
    InvalidChildNumberFormat,
    /// Invalid derivation path format.
    InvalidDerivationPathFormat,
    /// Unknown version magic bytes
    UnknownVersion([u8; 4]),
    /// Encoded extended key data has wrong length
    WrongExtendedKeyLength(usize),
    /// Base58 encoding error (its message)
    Base58(String),
}

/// `{:?}` of a byte array: `[a, b, c, d]`.
pub open spec fn byte_list_text(b: Seq<u8>) -> Seq<char> {
    "["@ + decimal(b[0] as nat) + ", "@ + decimal(b[1] as nat) + ", "@ + decimal(b[2] as nat)
        + ", "@ + decimal(b[3] as nat) + "]"@
}

/// The message of an error, as its `Display` writes it.
pub open spec fn bip32_error_text(e: Bip32Error) -> Seq<char> {
    match e {
        Bip32Error::CannotDeriveFromHardenedKey => "cannot derive hardened key from public key"@,
        Bip32Error::Ecdsa(m) => m@,
        Bip32Error::InvalidChildNumber(n) => "child number "@ + decimal(n as nat)
            + " is invalid (not within [0, 2^31 - 1])"@,
        Bip32Error::RngError(m) => "rng error "@ + m@,
        Bip32Error::InvalidChildNumberFormat => "invalid child number format"@,
        Bip32Error::InvalidDerivationPathFormat => "invalid derivation path format"@,
        Bip32Error::UnknownVersion(v) => "unknown version magic bytes: "@ + byte_list_text(v@),
        Bip32Error::WrongExtendedKeyLength(n) => "encoded extended key data has wrong length "@
            + decimal(n as nat),
        Bip32Error::Base58(m) => "base58 encoding error: "@ + m@,
    }
}

impl Bip32Error {
    /// The message of the error (its `Display` form).
    pub fn to_string(&self) -> (r: String)
        ensures
            r@ == bip32_error_text(*self),
    {
        let mut v: Vec<char> = Vec::new();
        match self {
            Bip32Error::CannotDeriveFromHardenedKey => {
                push_str(&mut v, "cannot derive hardened key from public key");
            },
            Bip32Error::Ecdsa(m) => {
                push_str(&mut v, m.as_str());
            },
            Bip32Error::InvalidChildNumber(n) => {
                push_str(&mut v, "child number ");
                push_decimal(&mut v, *n as u64);
                push_str(&mut v, " is invalid (not within [0, 2^31 - 1])");
            },
            Bip32Error::RngError(m) => {
                push_str(&mut v, "rng error ");
                push_str(&mut v, m.as_str());
            },
            Bip32Error::InvalidChildNumberFormat => {
                push_str(&mut v, "invalid child number format");
            },
            Bip32Error::InvalidDerivationPathFormat => {
                push_str(&mut v, "invalid derivation path format");
            },
            Bip32Error::UnknownVersion(b) => {
                push_str(&mut v, "unknown version magic bytes: ");
                push_str(&mut v, "[");
                push_decimal(&mut v, b[0] as u64);
                push_str(&mut v, ", ");
                push_decimal(&mut v, b[1] as u64);
                push_str(&mut v, ", ");
                push_decimal(&mut v, b[2] as u64);
                push_str(&mut v, ", ");
                push_decimal(&mut v, b[3] as u64);
                push_str(&mut v, "]");
            },
            Bip32Error::WrongExtendedKeyLength(n) => {
                push_str(&mut v, "encoded extended key data has wrong length ");
                push_decimal(&mut v, *n as u64);
            },
            Bip32Error::Base58(m) => {
                push_str(&mut v, "base58 encoding error: ");
                push_str(&mut v, m.as_str());
            },
        }
        chars_to_string(v.as_slice())
    }
}

} // verus!
