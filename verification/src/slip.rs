//! The call into the `slip132` crate.

use vstd::prelude::*;

use bitcoin::util::bip32::ExtendedPubKey;
use slip132::FromSlip132;

use crate::btc::xpub_decodes;

verus! {

/// What `slip132`'s `ExtendedPubKey::from_slip132_str` returns for the text:
/// the serialization of the key read, or the message of the error.
pub uninterp spec fn slip132_xpub(s: Seq<char>) -> Result<Seq<u8>, Seq<char>>;

/// `slip132::FromSlip132::from_slip132_str` for `ExtendedPubKey`: Base58Check
/// text of an extended public key with any SLIP-132 version prefix (xpub,
/// ypub, zpub, tpub, upub, vpub...), read as a plain xpub or tpub. The key is
/// carried as its serialization and the error as its message. The source
/// slices the first four decoded bytes without checking that there are four,
/// so the text must not be too short for that (twenty characters, not
/// starting with `1`, decode to more). Claimed beyond the name: a key read has
/// a serialization that decodes again.
#[verifier::external_body]
pub(crate) fn xpub_from_slip132_str(s: &str) -> (r: Result<Vec<u8>, String>)
    requires
        s@.len() >= 20,
        s@[0] != '1',
    ensures
        match r {
            Ok(d) => slip132_xpub(s@) == Ok::<Seq<u8>, Seq<char>>(d@) && d@.len() == 78 && xpub_decodes(d@),
            Err(m) => slip132_xpub(s@) == Err::<Seq<u8>, Seq<char>>(m@),
        },
{
    match ExtendedPubKey::from_slip132_str(s) {
        Ok(xpub) => Ok(xpub.encode().to_vec()),
        Err(err) => Err(err.to_string()),
    }
}

} // verus!
