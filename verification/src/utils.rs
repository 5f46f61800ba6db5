//! The pool's own challenge codec. Its token frames the encoded timestamp
//! and the tag as two byte strings, unlike the library codec's bare integer;
//! both tokens carry the same truncated MAC.
use vstd::prelude::*;

use crate::account::bytes_eq;
use crate::cbor::{
    cbor_uint, lemma_parse_uint_of_encoding, lemma_parse_uint_sound, parse_bytes, parse_head,
    parse_uint, push_array_head, push_bytes, push_uint, spec_parse_uint,
};
use crate::codec::{
    lemma_pair_parts_sound, lemma_pair_token_parts, mac16, mac_output, spec_pair_parts,
    spec_pair_token, CborEncode, CodecError,
};
use crate::crypto::mac_256_2;

verus! {

/// A compact challenge token: the pair token of the encoded timestamp and
/// the 16-byte tag.
pub open spec fn spec_compact_token(payload: Seq<u8>, key: Seq<u8>, ts: u64) -> Seq<u8> {
    spec_pair_token(cbor_uint(ts), mac16(key, payload + cbor_uint(ts)))
}

/// Whether `token` is a compact challenge token for `payload` under `key`
/// whose embedded timestamp has not fallen below `floor`.
pub open spec fn spec_compact_accepts(
    payload: Seq<u8>,
    key: Seq<u8>,
    floor: u64,
    token: Seq<u8>,
) -> bool {
    exists|ts: u64| #![auto] ts >= floor && token == spec_compact_token(payload, key, ts)
}

/// The timestamp and tag a well-shaped compact token carries.
pub open spec fn spec_compact_parts(token: Seq<u8>) -> Option<(u64, Seq<u8>)> {
    match spec_pair_parts(token) {
        Some((a, tag)) => match spec_parse_uint(a) {
            Some((ts, n)) => if n == a.len() {
                Some((ts, tag))
            } else {
                None
            },
            None => None,
        },
        None => None,
    }
}

/// A compact token parses back to exactly its timestamp and tag.
pub proof fn lemma_compact_token_parts(payload: Seq<u8>, key: Seq<u8>, ts: u64)
    ensures
        spec_compact_parts(spec_compact_token(payload, key, ts)) == Some(
            (ts, mac16(key, payload + cbor_uint(ts))),
        ),
{
    lemma_pair_token_parts(cbor_uint(ts), mac16(key, payload + cbor_uint(ts)));
    assert(cbor_uint(ts) =~= cbor_uint(ts) + Seq::<u8>::empty());
    lemma_parse_uint_of_encoding(ts, Seq::<u8>::empty());
}

/// A token is accepted for `payload` under `key` against `floor` exactly when
/// it is well-shaped, its timestamp is at least `floor`, and its tag is the
/// truncated MAC of the payload and that timestamp.
pub proof fn lemma_compact_accepts_iff(payload: Seq<u8>, key: Seq<u8>, floor: u64, tok: Seq<u8>)
    ensures
        spec_compact_accepts(payload, key, floor, tok) <==> (match spec_compact_parts(tok) {
            Some((ts, tag)) => ts >= floor && tag == mac16(key, payload + cbor_uint(ts)),
            None => false,
        }),
{
    if spec_compact_accepts(payload, key, floor, tok) {
        let ts = choose|ts: u64| ts >= floor && tok == spec_compact_token(payload, key, ts);
        lemma_compact_token_parts(payload, key, ts);
    }
    match spec_compact_parts(tok) {
        Some((ts, tag)) => {
            if ts >= floor && tag == mac16(key, payload + cbor_uint(ts)) {
                lemma_pair_parts_sound(tok);
                let (a, b) = spec_pair_parts(tok)->Some_0;
                lemma_parse_uint_sound(a);
                assert(a.take(a.len() as int) =~= a);
                assert(tok == spec_compact_token(payload, key, ts));
            }
        },
        None => {},
    }
}

/// Generating a compact challenge and verifying it against the timestamp it
/// was issued at (or any earlier floor) succeeds.
pub proof fn lemma_compact_roundtrip(payload: Seq<u8>, key: Seq<u8>, ts: u64, floor: u64)
    requires
        floor <= ts,
    ensures
        spec_compact_accepts(payload, key, floor, spec_compact_token(payload, key, ts)),
{
    assert(ts >= floor && spec_compact_token(payload, key, ts) == spec_compact_token(
        payload,
        key,
        ts,
    ));
}

/// Checking a compact challenge against a floor later than its timestamp
/// fails: the token embeds its timestamp injectively.
pub proof fn lemma_compact_expired(payload: Seq<u8>, key: Seq<u8>, ts: u64, floor: u64)
    requires
        floor > ts,
    ensures
        !spec_compact_accepts(payload, key, floor, spec_compact_token(payload, key, ts)),
{
    lemma_compact_accepts_iff(payload, key, floor, spec_compact_token(payload, key, ts));
    lemma_compact_token_parts(payload, key, ts);
}

/// A generator and verifier of compact time-boxed authenticated tokens.
pub trait Challenge: CborEncode {
    /// Issues a token binding this payload and `timestamp` under `key`.
    fn challenge(&self, key: &[u8], timestamp: u64) -> (r: Vec<u8>)
        ensures
            r@ == spec_compact_token(self.spec_cbor(), key@, timestamp),
    ;

    /// Accepts exactly the tokens for this payload under this key whose
    /// embedded timestamp is at least `expire_at`; a well-shaped but stale
    /// token is reported as expired, everything else as invalid.
    fn verify(&self, key: &[u8], expire_at: u64, challenge: &[u8]) -> (r: Result<(), CodecError>)
        ensures
            r is Ok <==> spec_compact_accepts(self.spec_cbor(), key@, expire_at, challenge@),
            r == Err::<(), CodecError>(CodecError::Expired) <==> (match spec_compact_parts(
                challenge@,
            ) {
                Some((ts, tag)) => ts < expire_at,
                None => false,
            }),
    ;
}

impl<T: CborEncode> Challenge for T {
    fn challenge(&self, key: &[u8], timestamp: u64) -> (r: Vec<u8>) {
        let data = self.to_cbor();
        let mut ts_enc: Vec<u8> = Vec::new();
        push_uint(&mut ts_enc, timestamp);
        let full = mac_256_2(key, data.as_slice(), ts_enc.as_slice());
        let tag = crate::codec::tag_take(&full, 16);
        let mut out: Vec<u8> = Vec::new();
        push_array_head(&mut out, 2);
        push_bytes(&mut out, ts_enc.as_slice());
        push_bytes(&mut out, tag.as_slice());
        assert(out@ =~= spec_compact_token(self.spec_cbor(), key@, timestamp));
        out
    }

    fn verify(&self, key: &[u8], expire_at: u64, challenge: &[u8]) -> (r: Result<(), CodecError>) {
        let ghost tok = challenge@;
        let ghost payload = self.spec_cbor();
        proof {
            lemma_compact_accepts_iff(payload, key@, expire_at, tok);
        }
        let head = match parse_head(challenge, 0) {
            Some(t) => t,
            None => {
                return Err(CodecError::Invalid);
            },
        };
        if !(head.0 == 4 && head.1 == 2) {
            return Err(CodecError::Invalid);
        }
        let (ts_enc, p2) = match parse_bytes(challenge, head.2) {
            Some(t) => t,
            None => {
                return Err(CodecError::Invalid);
            },
        };
        let (tag, p3) = match parse_bytes(challenge, p2) {
            Some(t) => t,
            None => {
                assert(tok.skip(p2 as int) == tok.skip(head.2 as int + (p2 - head.2)));
                return Err(CodecError::Invalid);
            },
        };
        assert(tok.skip(p2 as int) == tok.skip(head.2 as int + (p2 - head.2)));
        if p3 != challenge.len() {
            return Err(CodecError::Invalid);
        }
        assert(spec_pair_parts(tok) == Some((ts_enc@, tag@)));
        let (ts, n) = match parse_uint(ts_enc.as_slice(), 0) {
            Some(t) => t,
            None => {
                return Err(CodecError::Invalid);
            },
        };
        if n != ts_enc.len() {
            return Err(CodecError::Invalid);
        }
        assert(spec_compact_parts(tok) == Some((ts, tag@)));
        if ts < expire_at {
            return Err(CodecError::Expired);
        }
        let data = self.to_cbor();
        let full = mac_256_2(key, data.as_slice(), ts_enc.as_slice());
        proof {
            lemma_parse_uint_sound(ts_enc@);
            assert(ts_enc@.take(ts_enc@.len() as int) =~= ts_enc@);
            assert(full@ == mac_output(key@, payload + cbor_uint(ts)));
        }
        let expect = crate::codec::tag_take(&full, 16);
        if bytes_eq(tag.as_slice(), expect.as_slice()) {
            Ok(())
        } else {
            Err(CodecError::Invalid)
        }
    }
}

} // verus!
