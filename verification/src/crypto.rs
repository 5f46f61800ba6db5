//! The cryptographic primitives the codecs rest on. Each outside call sits
//! behind one trusted wrapper; what a call returns is named by an
//! uninterpreted spec function of its inputs where no short statement exists.
use vstd::prelude::*;

use base64::Engine;
use ed25519_dalek::Signer;
use hmac::{KeyInit, Mac, SimpleHmac};
use sha3::Sha3_256;

verus! {

/// The 32-byte HMAC-SHA3-256 tag of `msg` under `key`.
pub uninterp spec fn hmac_sha3_256_of(key: Seq<u8>, msg: Seq<u8>) -> Seq<u8>;

/// The URL-safe unpadded base64 encoding of `b`.
pub uninterp spec fn b64url_of(b: Seq<u8>) -> Seq<char>;

/// The 64-byte Ed25519 signature of `msg` under the secret seed `seed`
/// (Ed25519 signing is deterministic in the seed and the message).
pub uninterp spec fn ed25519_sig_of(seed: Seq<u8>, msg: Seq<u8>) -> Seq<u8>;

/// Whether `sig` is a signature of `msg` that strict Ed25519 verification
/// accepts under the public key `pk`.
pub uninterp spec fn ed25519_valid(pk: Seq<u8>, msg: Seq<u8>, sig: Seq<u8>) -> bool;

/// The 32-byte public verifying key derived from the secret seed.
pub uninterp spec fn ed25519_pub_of(seed: Seq<u8>) -> Seq<u8>;

/// Relies on `SimpleHmac::<Sha3_256>` of the hmac crate: a 32-byte keyed MAC
/// over the bytes fed to `update`; keys of any length are accepted.
#[verifier::external_body]
pub fn mac_256(key: &[u8], add: &[u8]) -> (r: [u8; 32])
    ensures
        r@ == hmac_sha3_256_of(key@, add@),
{
    let mut mac = SimpleHmac::<Sha3_256>::new_from_slice(key).expect("HMAC can take key of any size");
    mac.update(add);
    mac.finalize().into_bytes().into()
}

/// Relies on `SimpleHmac::<Sha3_256>` of the hmac crate: successive `update`
/// calls MAC the concatenation of their arguments.
#[verifier::external_body]
pub fn mac_256_2(key: &[u8], add1: &[u8], add2: &[u8]) -> (r: [u8; 32])
    ensures
        r@ == hmac_sha3_256_of(key@, add1@ + add2@),
{
    let mut mac = SimpleHmac::<Sha3_256>::new_from_slice(key).expect("HMAC can take key of any size");
    mac.update(add1);
    mac.update(add2);
    mac.finalize().into_bytes().into()
}

/// Relies on `Engine::encode` with `URL_SAFE_NO_PAD` of the base64 crate.
#[verifier::external_body]
pub(crate) fn b64url_encode(data: &[u8]) -> (r: String)
    ensures
        r@ == b64url_of(data@),
{
    base64::engine::general_purpose::URL_SAFE_NO_PAD.encode(data)
}

/// Relies on `Engine::decode` with `URL_SAFE_NO_PAD` of the base64 crate: it
/// rejects padding and non-zero trailing bits, so exactly the strings that
/// `Engine::encode` produces decode, and each to its unique preimage.
#[verifier::external_body]
pub(crate) fn b64url_decode(s: &str) -> (r: Option<Vec<u8>>)
    ensures
        r matches Some(b) ==> b64url_of(b@) == s@,
        r matches Some(b) ==> forall|x: Seq<u8>| b64url_of(x) == s@ ==> x == b@,
        forall|x: Seq<u8>| s@ == b64url_of(x) ==> r is Some,
{
    base64::engine::general_purpose::URL_SAFE_NO_PAD.decode(s).ok()
}

/// Relies on `SigningKey::from_bytes` and `Signer::sign` of ed25519-dalek:
/// deterministic 64-byte signature from the 32-byte seed and the message. A
/// produced signature passes the crate's own strict verification under the
/// verifying key derived from the seed.
#[verifier::external_body]
pub(crate) fn ed25519_sign(seed: &[u8; 32], msg: &[u8]) -> (r: Vec<u8>)
    ensures
        r@ == ed25519_sig_of(seed@, msg@),
        r@.len() == 64,
        ed25519_valid(ed25519_pub_of(seed@), msg@, r@),
{
    let key = ed25519_dalek::SigningKey::from_bytes(seed);
    key.sign(msg).to_bytes().to_vec()
}

/// Relies on `VerifyingKey::from_bytes`, `Signature::from_slice` and
/// `VerifyingKey::verify_strict` of ed25519-dalek: strict verification is a
/// deterministic function of key bytes, message and signature bytes, and a
/// malformed key or signature never verifies.
#[verifier::external_body]
pub(crate) fn ed25519_verify(pk: &[u8; 32], msg: &[u8], sig: &[u8]) -> (r: bool)
    ensures
        r == ed25519_valid(pk@, msg@, sig@),
{
    match (
        ed25519_dalek::VerifyingKey::from_bytes(pk),
        ed25519_dalek::Signature::from_slice(sig),
    ) {
        (Ok(key), Ok(signature)) => key.verify_strict(msg, &signature).is_ok(),
        _ => false,
    }
}

/// Relies on `TryFrom<&[u8]> for [u8; 32]` of std: a 32-byte slice converts
/// to the array with the same bytes.
#[verifier::external_body]
pub(crate) fn bytes_to_array32(b: &[u8]) -> (r: [u8; 32])
    requires
        b@.len() == 32,
    ensures
        r@ == b@,
{
    let mut out = [0u8; 32];
    out.copy_from_slice(b);
    out
}

/// What stripping the voucher prefix leaves of `s`.
pub open spec fn spec_strip_prize_prefix(s: Seq<char>) -> Seq<char> {
    if s.len() >= 6 && s.take(6) == "PRIZE:"@ {
        s.skip(6)
    } else {
        s
    }
}

/// Relies on `str::strip_prefix` of std: removes the prefix when present,
/// otherwise hands the string back unchanged.
#[verifier::external_body]
pub(crate) fn strip_prize_prefix(s: &str) -> (r: &str)
    ensures
        r@ == spec_strip_prize_prefix(s@),
{
    s.strip_prefix("PRIZE:").unwrap_or(s)
}

} // verus!
