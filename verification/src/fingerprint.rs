//! Content fingerprints: the SHA-256 digest of a file's full byte content,
//! reported as lowercase hexadecimal text.
use vstd::prelude::*;

use crate::hexcode::{bytes_to_hex, hex_of};
use crate::strconv::chars_to_string;

verus! {

/// The SHA-256 digest of a byte string.
pub uninterp spec fn sha256_of(bytes: Seq<u8>) -> Seq<u8>;

/// Relies on `sha2::Sha256` through `Digest::digest`: the digest depends on
/// the input bytes alone and is 32 bytes long.
#[verifier::external_body]
fn sha256_digest(bytes: &Vec<u8>) -> (r: Vec<u8>)
    ensures
        r@ == sha256_of(bytes@),
        r@.len() == 32,
{
    <sha2::Sha256 as sha2::Digest>::digest(bytes.as_slice()).to_vec()
}

/// The fingerprint of a byte content: its SHA-256 digest in lowercase
/// hexadecimal, always 64 characters.
pub fn fingerprint_hex(bytes: &Vec<u8>) -> (r: String)
    ensures
        r@ == hex_of(sha256_of(bytes@)),
        r@.len() == 64,
{
    let digest = sha256_digest(bytes);
    let hex = bytes_to_hex(&digest);
    chars_to_string(hex)
}

} // verus!
