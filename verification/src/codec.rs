//! The authenticated codecs: time-boxed challenges, subject-bindable
//! cryptograms and asymmetrically signed messages. Every token is canonical
//! CBOR around a payload's pinned encoding, authenticated with a truncated
//! HMAC-SHA3-256 tag or an Ed25519 signature.
use vstd::prelude::*;

use crate::account::{bytes_eq, Account};
use crate::cbor::{
    cbor_bytes, cbor_head, cbor_uint, lemma_parse_bytes_of_encoding, lemma_parse_bytes_sound,
    lemma_parse_head_of_encoding, lemma_parse_head_sound, lemma_parse_uint_of_encoding,
    lemma_parse_uint_sound, parse_bytes, parse_head, parse_uint, push_array_head, push_bytes,
    push_uint, spec_parse_bytes, spec_parse_head, spec_parse_uint,
};
use crate::crypto::{
    b64url_decode, b64url_encode, b64url_of, bytes_to_array32, ed25519_sig_of, ed25519_sign,
    ed25519_valid, ed25519_verify, hmac_sha3_256_of, mac_256, mac_256_2,
};

verus! {

/// Why a token was rejected. Everything malformed or mismatched maps to
/// `Invalid`, so a caller learns nothing about where checking failed; only
/// staleness is reported apart.
#[derive(Clone, Copy, Debug, PartialEq, Eq, Structural)]
pub enum CodecError {
    Invalid,
    Expired,
}

/// Reads a 32-byte value, such as a key or a seed, from its URL-safe
/// unpadded base64 form: exactly the encodings of 32-byte strings are
/// accepted.
pub fn bytes32_from_base64(s: &str) -> (r: Result<[u8; 32], CodecError>)
    ensures
        r matches Ok(a) ==> s@ == b64url_of(a@),
        forall|b: Seq<u8>| b.len() == 32 && s@ == b64url_of(b) ==> r is Ok,
        r matches Err(e) ==> e == CodecError::Invalid,
{
    match b64url_decode(s) {
        Some(bytes) => {
            if bytes.len() == 32 {
                Ok(bytes_to_array32(bytes.as_slice()))
            } else {
                Err(CodecError::Invalid)
            }
        },
        None => Err(CodecError::Invalid),
    }
}

/// A payload with a pinned, canonical CBOR encoding.
pub trait CborEncode: Sized {
    /// The canonical encoding of this value.
    spec fn spec_cbor(&self) -> Seq<u8>;

    /// Produces exactly the canonical encoding.
    fn to_cbor(&self) -> (r: Vec<u8>)
        ensures
            r@ == self.spec_cbor(),
    ;
}

/// A payload whose canonical encoding can be read back: decoding succeeds on
/// an encoding of some value, and only returns values the input encodes.
pub trait CborDecode: CborEncode {
    fn from_cbor(data: &[u8]) -> (r: Option<Self>)
        ensures
            r matches Some(v) ==> v.spec_cbor() == data@,
            (exists|v: Self| data@ == v.spec_cbor()) ==> r is Some,
    ;
}

impl CborEncode for Vec<u8> {
    open spec fn spec_cbor(&self) -> Seq<u8> {
        cbor_bytes(self@)
    }

    fn to_cbor(&self) -> (r: Vec<u8>) {
        let mut out: Vec<u8> = Vec::new();
        push_bytes(&mut out, self.as_slice());
        assert(out@ =~= self.spec_cbor());
        out
    }
}

/// The MAC as a 32-byte string. The wrappers pin `hmac_sha3_256_of` to 32
/// bytes at every call; this totalization keeps the length fixed in every
/// spec context as well.
pub open spec fn mac_output(key: Seq<u8>, msg: Seq<u8>) -> Seq<u8> {
    if hmac_sha3_256_of(key, msg).len() == 32 {
        hmac_sha3_256_of(key, msg)
    } else {
        Seq::new(32, |i: int| 0u8)
    }
}

/// The first 16 bytes of the 32-byte MAC: the challenge tag.
pub open spec fn mac16(key: Seq<u8>, msg: Seq<u8>) -> Seq<u8> {
    mac_output(key, msg).take(16)
}

/// The first 8 bytes of the 32-byte MAC, keyed over the payload alone or over
/// the payload followed by the subject's bytes: the cryptogram tag.
pub open spec fn mac8(key: Seq<u8>, data: Seq<u8>, subj: Option<Seq<u8>>) -> Seq<u8> {
    match subj {
        Some(s) => mac_output(key, data + s).take(8),
        None => mac_output(key, data).take(8),
    }
}

/// The byte view of an optional subject identity.
pub open spec fn spec_subject(subject: Option<&Account>) -> Option<Seq<u8>> {
    match subject {
        Some(a) => Some(a@),
        None => None,
    }
}

/// A challenge token: the CBOR array `[timestamp, tag]`.
pub open spec fn spec_challenge_token(payload: Seq<u8>, key: Seq<u8>, ts: u64) -> Seq<u8> {
    cbor_head(4, 2) + cbor_uint(ts) + cbor_bytes(mac16(key, payload + cbor_uint(ts)))
}

/// Whether `token` is a challenge token for `payload` under `key` whose
/// embedded timestamp has not fallen below `floor`.
pub open spec fn spec_challenge_accepts(
    payload: Seq<u8>,
    key: Seq<u8>,
    floor: u64,
    token: Seq<u8>,
) -> bool {
    exists|ts: u64| #![auto] ts >= floor && token == spec_challenge_token(payload, key, ts)
}

/// The timestamp and tag a well-shaped challenge token carries, whether or
/// not the tag matches.
pub open spec fn spec_challenge_parts(token: Seq<u8>) -> Option<(u64, Seq<u8>)> {
    match spec_parse_head(token) {
        Some((m, c, n1)) => if m == 4 && c == 2 {
            match spec_parse_uint(token.skip(n1)) {
                Some((ts, n2)) => match spec_parse_bytes(token.skip(n1 + n2)) {
                    Some((tag, n3)) => if n1 + n2 + n3 == token.len() {
                        Some((ts, tag))
                    } else {
                        None
                    },
                    None => None,
                },
                None => None,
            }
        } else {
            None
        },
        None => None,
    }
}

/// A well-shaped challenge token is exactly the concatenation of its parts.
pub proof fn lemma_challenge_parts_sound(tok: Seq<u8>)
    requires
        spec_challenge_parts(tok) is Some,
    ensures
        ({
            let (ts, tag) = spec_challenge_parts(tok)->Some_0;
            tok == cbor_head(4, 2) + cbor_uint(ts) + cbor_bytes(tag)
        }),
{
    let (m, c, n1) = spec_parse_head(tok)->Some_0;
    lemma_parse_head_sound(tok);
    let (ts, n2) = spec_parse_uint(tok.skip(n1))->Some_0;
    lemma_parse_uint_sound(tok.skip(n1));
    let (tag, n3) = spec_parse_bytes(tok.skip(n1 + n2))->Some_0;
    lemma_parse_bytes_sound(tok.skip(n1 + n2));
    assert(cbor_head(4, 2).len() == 1);
    assert(tok =~= cbor_head(4, 2) + cbor_uint(ts) + cbor_bytes(tag));
}

/// A token is accepted for `payload` under `key` against `floor` exactly when
/// it is well-shaped, its timestamp is at least `floor`, and its tag is the
/// truncated MAC of the payload and that timestamp.
pub proof fn lemma_challenge_accepts_iff(payload: Seq<u8>, key: Seq<u8>, floor: u64, tok: Seq<u8>)
    ensures
        spec_challenge_accepts(payload, key, floor, tok) <==> (match spec_challenge_parts(tok) {
            Some((ts, tag)) => ts >= floor && tag == mac16(key, payload + cbor_uint(ts)),
            None => false,
        }),
{
    if spec_challenge_accepts(payload, key, floor, tok) {
        let ts = choose|ts: u64|
            ts >= floor && tok == spec_challenge_token(payload, key, ts);
        lemma_challenge_token_parts(payload, key, ts);
    }
    match spec_challenge_parts(tok) {
        Some((ts, tag)) => {
            if ts >= floor && tag == mac16(key, payload + cbor_uint(ts)) {
                lemma_challenge_parts_sound(tok);
                assert(tok == spec_challenge_token(payload, key, ts));
            }
        },
        None => {},
    }
}

/// A challenge token parses back to exactly its timestamp and tag.
pub proof fn lemma_challenge_token_parts(payload: Seq<u8>, key: Seq<u8>, ts: u64)
    ensures
        spec_challenge_parts(spec_challenge_token(payload, key, ts)) == Some(
            (ts, mac16(key, payload + cbor_uint(ts))),
        ),
{
    let a = cbor_head(4, 2);
    let b = cbor_uint(ts);
    let tag = mac16(key, payload + cbor_uint(ts));
    let c = cbor_bytes(tag);
    let tok = spec_challenge_token(payload, key, ts);
    assert(tok =~= a + (b + c));
    lemma_parse_head_of_encoding(4, 2, b + c);
    assert(a =~= cbor_head(4, 2));
    let n1 = a.len() as int;
    assert(tok.skip(n1) =~= b + c);
    lemma_parse_uint_of_encoding(ts, c);
    let n2 = b.len() as int;
    assert(tok.skip(n1 + n2) =~= c);
    assert(c =~= cbor_bytes(tag) + Seq::<u8>::empty());
    lemma_parse_bytes_of_encoding(tag, Seq::<u8>::empty());
    assert(spec_parse_bytes(tok.skip(n1 + n2)) == Some((tag, c.len() as int)));
    assert(n1 + n2 + c.len() == tok.len());
}

/// Two challenge-token readings of one byte string agree, so a token pins its
/// timestamp: a fresh reading of a stale token cannot exist.
pub proof fn lemma_challenge_token_injective(
    p1: Seq<u8>,
    key1: Seq<u8>,
    ts1: u64,
    p2: Seq<u8>,
    key2: Seq<u8>,
    ts2: u64,
)
    requires
        spec_challenge_token(p1, key1, ts1) == spec_challenge_token(p2, key2, ts2),
    ensures
        ts1 == ts2,
        mac16(key1, p1 + cbor_uint(ts1)) == mac16(key2, p2 + cbor_uint(ts2)),
{
    lemma_challenge_token_parts(p1, key1, ts1);
    lemma_challenge_token_parts(p2, key2, ts2);
}

/// Generating a challenge and verifying it against the timestamp it was
/// issued at (or any earlier floor) succeeds.
pub proof fn lemma_challenge_roundtrip(payload: Seq<u8>, key: Seq<u8>, ts: u64, floor: u64)
    requires
        floor <= ts,
    ensures
        spec_challenge_accepts(payload, key, floor, spec_challenge_token(payload, key, ts)),
{
    assert(ts >= floor && spec_challenge_token(payload, key, ts) == spec_challenge_token(
        payload,
        key,
        ts,
    ));
}

/// Checking a challenge against a floor later than its timestamp fails: the
/// token embeds its timestamp injectively, so it cannot pass as fresher.
pub proof fn lemma_challenge_expired(payload: Seq<u8>, key: Seq<u8>, ts: u64, floor: u64)
    requires
        floor > ts,
    ensures
        !spec_challenge_accepts(payload, key, floor, spec_challenge_token(payload, key, ts)),
{
    let tok = spec_challenge_token(payload, key, ts);
    assert forall|ts2: u64| #![auto] ts2 >= floor implies tok != spec_challenge_token(
        payload,
        key,
        ts2,
    ) by {
        if tok == spec_challenge_token(payload, key, ts2) {
            lemma_challenge_token_injective(payload, key, ts, payload, key, ts2);
        }
    }
}

/// A pair token: the CBOR array `[data, tag]` of two byte strings. It is the
/// outer frame of cryptograms and of signed messages.
pub open spec fn spec_pair_token(a: Seq<u8>, b: Seq<u8>) -> Seq<u8> {
    cbor_head(4, 2) + cbor_bytes(a) + cbor_bytes(b)
}

/// The two byte strings a well-shaped pair token carries.
pub open spec fn spec_pair_parts(tok: Seq<u8>) -> Option<(Seq<u8>, Seq<u8>)> {
    match spec_parse_head(tok) {
        Some((m, c, n1)) => if m == 4 && c == 2 {
            match spec_parse_bytes(tok.skip(n1)) {
                Some((a, n2)) => match spec_parse_bytes(tok.skip(n1 + n2)) {
                    Some((b, n3)) => if n1 + n2 + n3 == tok.len() {
                        Some((a, b))
                    } else {
                        None
                    },
                    None => None,
                },
                None => None,
            }
        } else {
            None
        },
        None => None,
    }
}

/// A pair token parses back to exactly its two parts.
pub proof fn lemma_pair_token_parts(a: Seq<u8>, b: Seq<u8>)
    requires
        a.len() <= u64::MAX,
        b.len() <= u64::MAX,
    ensures
        spec_pair_parts(spec_pair_token(a, b)) == Some((a, b)),
{
    let h = cbor_head(4, 2);
    let ia = cbor_bytes(a);
    let ib = cbor_bytes(b);
    let tok = spec_pair_token(a, b);
    assert(tok =~= h + (ia + ib));
    lemma_parse_head_of_encoding(4, 2, ia + ib);
    let n1 = h.len() as int;
    assert(tok.skip(n1) =~= ia + ib);
    lemma_parse_bytes_of_encoding(a, ib);
    let n2 = ia.len() as int;
    assert(tok.skip(n1 + n2) =~= ib);
    assert(ib =~= cbor_bytes(b) + Seq::<u8>::empty());
    lemma_parse_bytes_of_encoding(b, Seq::<u8>::empty());
    assert(spec_parse_bytes(tok.skip(n1 + n2)) == Some((b, ib.len() as int)));
    assert(n1 + n2 + ib.len() == tok.len());
}

/// A well-shaped pair token is exactly the concatenation of its parts.
pub proof fn lemma_pair_parts_sound(tok: Seq<u8>)
    requires
        spec_pair_parts(tok) is Some,
    ensures
        ({
            let (a, b) = spec_pair_parts(tok)->Some_0;
            &&& tok == spec_pair_token(a, b)
            &&& a.len() <= u64::MAX
            &&& b.len() <= u64::MAX
        }),
{
    let (m, c, n1) = spec_parse_head(tok)->Some_0;
    lemma_parse_head_sound(tok);
    let (a, n2) = spec_parse_bytes(tok.skip(n1))->Some_0;
    lemma_parse_bytes_sound(tok.skip(n1));
    let (b, n3) = spec_parse_bytes(tok.skip(n1 + n2))->Some_0;
    lemma_parse_bytes_sound(tok.skip(n1 + n2));
    assert(cbor_head(4, 2).len() == 1);
    assert(tok =~= cbor_head(4, 2) + cbor_bytes(a) + cbor_bytes(b));
}

/// A cryptogram: the pair token of the payload's canonical encoding and the
/// 8-byte MAC tag, optionally bound to a subject.
pub open spec fn spec_cryptogram_token(data: Seq<u8>, key: Seq<u8>, subj: Option<Seq<u8>>) -> Seq<
    u8,
> {
    spec_pair_token(data, mac8(key, data, subj))
}

/// One byte string read as a cryptogram in two ways binds the same payload
/// both times, and both readings carry the same tag: so a voucher can be
/// taken for a second subject or key only where the two truncated MACs
/// collide.
pub proof fn lemma_cryptogram_subject_binding(
    data1: Seq<u8>,
    key1: Seq<u8>,
    s1: Option<Seq<u8>>,
    data2: Seq<u8>,
    key2: Seq<u8>,
    s2: Option<Seq<u8>>,
)
    requires
        data1.len() <= u64::MAX,
        data2.len() <= u64::MAX,
        spec_cryptogram_token(data1, key1, s1) == spec_cryptogram_token(data2, key2, s2),
    ensures
        data1 == data2,
        mac8(key1, data1, s1) == mac8(key2, data2, s2),
{
    lemma_pair_token_parts(data1, mac8(key1, data1, s1));
    lemma_pair_token_parts(data2, mac8(key2, data2, s2));
}

/// Copies the first `n` bytes of a 32-byte tag.
pub(crate) fn tag_take(a: &[u8; 32], n: usize) -> (r: Vec<u8>)
    requires
        n <= 32,
    ensures
        r@ == a@.take(n as int),
{
    let mut out: Vec<u8> = Vec::new();
    let mut i: usize = 0;
    while i < n
        invariant
            i <= n <= 32,
            a@.len() == 32,
            out@ == a@.take(i as int),
        decreases n - i,
    {
        out.push(a[i]);
        assert(out@ =~= a@.take(i + 1));
        i = i + 1;
    }
    out
}

/// A generator and verifier of compact time-boxed authenticated tokens.
pub trait Challenge: CborEncode {
    /// Issues a token binding this payload and `timestamp` under `key`.
    fn challenge(&self, key: &[u8], timestamp: u64) -> (r: Vec<u8>)
        ensures
            r@ == spec_challenge_token(self.spec_cbor(), key@, timestamp),
    ;

    /// Accepts exactly the tokens for this payload under this key whose
    /// embedded timestamp is at least `expire_at`; a well-shaped but stale
    /// token is reported as expired, everything else as invalid.
    fn verify(&self, key: &[u8], expire_at: u64, challenge: &[u8]) -> (r: Result<(), CodecError>)
        ensures
            r is Ok <==> spec_challenge_accepts(self.spec_cbor(), key@, expire_at, challenge@),
            r == Err::<(), CodecError>(CodecError::Expired) <==> (match spec_challenge_parts(
                challenge@,
            ) {
                Some((ts, tag)) => ts < expire_at,
                None => false,
            }),
    ;
}

impl<T: CborEncode> Challenge for T {
    fn challenge(&self, key: &[u8], timestamp: u64) -> (r: Vec<u8>) {
        let data = self.to_cbor();
        let mut ts_enc: Vec<u8> = Vec::new();
        push_uint(&mut ts_enc, timestamp);
        let full = mac_256_2(key, data.as_slice(), ts_enc.as_slice());
        let tag = tag_take(&full, 16);
        let mut out: Vec<u8> = Vec::new();
        push_array_head(&mut out, 2);
        push_uint(&mut out, timestamp);
        push_bytes(&mut out, tag.as_slice());
        assert(out@ =~= spec_challenge_token(self.spec_cbor(), key@, timestamp));
        out
    }

    fn verify(&self, key: &[u8], expire_at: u64, challenge: &[u8]) -> (r: Result<(), CodecError>) {
        let ghost tok = challenge@;
        let ghost payload = self.spec_cbor();
        proof {
            lemma_challenge_accepts_iff(payload, key@, expire_at, tok);
        }
        let head = match parse_head(challenge, 0) {
            Some(t) => t,
            None => {
                return Err(CodecError::Invalid);
            },
        };
        if !(head.0 == 4 && head.1 == 2) {
            return Err(CodecError::Invalid);
        }
        let (ts, p2) = match parse_uint(challenge, head.2) {
            Some(t) => t,
            None => {
                return Err(CodecError::Invalid);
            },
        };
        let (tag, p3) = match parse_bytes(challenge, p2) {
            Some(t) => t,
            None => {
                assert(tok.skip(p2 as int) == tok.skip(head.2 as int + (p2 - head.2)));
                return Err(CodecError::Invalid);
            },
        };
        assert(tok.skip(p2 as int) == tok.skip(head.2 as int + (p2 - head.2)));
        if p3 != challenge.len() {
            return Err(CodecError::Invalid);
        }
        assert(spec_challenge_parts(tok) == Some((ts, tag@)));
        if ts < expire_at {
            return Err(CodecError::Expired);
        }
        let data = self.to_cbor();
        let mut ts_enc: Vec<u8> = Vec::new();
        push_uint(&mut ts_enc, ts);
        let full = mac_256_2(key, data.as_slice(), ts_enc.as_slice());
        assert(full@ == mac_output(key@, payload + cbor_uint(ts)));
        let expect = tag_take(&full, 16);
        if bytes_eq(tag.as_slice(), expect.as_slice()) {
            Ok(())
        } else {
            Err(CodecError::Invalid)
        }
    }
}

/// An encoder and decoder of authenticated, optionally subject-bound tokens.
pub trait Cryptogram: CborDecode {
    /// Encodes this payload under `key`, bound to `subject` when one is
    /// given, as a base64 string.
    fn encode(&self, key: &[u8], subject: Option<&Account>) -> (r: String)
        ensures
            r@ == b64url_of(
                spec_cryptogram_token(self.spec_cbor(), key@, spec_subject(subject)),
            ),
    ;

    /// Decodes a cryptogram under `key` and `subject`. A returned value is
    /// one whose encoding under exactly this key and subject the input is;
    /// an input that is such an encoding of some value is accepted. All
    /// failures are reported uniformly.
    fn decode(key: &[u8], subject: Option<&Account>, cryptogram: &str) -> (r: Result<
        Self,
        CodecError,
    >)
        ensures
            r matches Ok(v) ==> cryptogram@ == b64url_of(
                spec_cryptogram_token(v.spec_cbor(), key@, spec_subject(subject)),
            ),
            r matches Ok(v) ==> forall|d: Seq<u8>|
                b64url_of(d) == cryptogram@ ==> d == spec_cryptogram_token(
                    v.spec_cbor(),
                    key@,
                    spec_subject(subject),
                ),
            forall|p: Seq<u8>|
                p.len() <= u64::MAX && cryptogram@ == b64url_of(
                    #[trigger] spec_cryptogram_token(p, key@, spec_subject(subject)),
                ) && (exists|v: Self| p == v.spec_cbor()) ==> r is Ok,
            r matches Err(e) ==> e == CodecError::Invalid,
    ;
}

impl<T: CborDecode> Cryptogram for T {
    fn encode(&self, key: &[u8], subject: Option<&Account>) -> (r: String) {
        let data = self.to_cbor();
        let full = match subject {
            Some(a) => mac_256_2(key, data.as_slice(), a.bytes.as_slice()),
            None => mac_256(key, data.as_slice()),
        };
        assert(full@ == mac_output(
            key@,
            match spec_subject(subject) {
                Some(s) => self.spec_cbor() + s,
                None => self.spec_cbor(),
            },
        ));
        let tag = tag_take(&full, 8);
        let mut tok: Vec<u8> = Vec::new();
        push_array_head(&mut tok, 2);
        push_bytes(&mut tok, data.as_slice());
        push_bytes(&mut tok, tag.as_slice());
        assert(tok@ =~= spec_cryptogram_token(self.spec_cbor(), key@, spec_subject(subject)));
        b64url_encode(tok.as_slice())
    }

    fn decode(key: &[u8], subject: Option<&Account>, cryptogram: &str) -> (r: Result<
        Self,
        CodecError,
    >) {
        let ghost subj = spec_subject(subject);
        proof {
            assert forall|p: Seq<u8>| p.len() <= u64::MAX implies #[trigger] spec_pair_parts(
                spec_cryptogram_token(p, key@, subj),
            ) == Some((p, mac8(key@, p, subj))) by {
                lemma_pair_token_parts(p, mac8(key@, p, subj));
            }
        }
        let bytes = match b64url_decode(cryptogram) {
            Some(b) => b,
            None => {
                return Err(CodecError::Invalid);
            },
        };
        let ghost tok = bytes@;
        let t = bytes.as_slice();
        let head = match parse_head(t, 0) {
            Some(h) => h,
            None => {
                return Err(CodecError::Invalid);
            },
        };
        if !(head.0 == 4 && head.1 == 2) {
            return Err(CodecError::Invalid);
        }
        let (data, p2) = match parse_bytes(t, head.2) {
            Some(d) => d,
            None => {
                return Err(CodecError::Invalid);
            },
        };
        let (tag, p3) = match parse_bytes(t, p2) {
            Some(d) => d,
            None => {
                assert(tok.skip(p2 as int) == tok.skip(head.2 as int + (p2 - head.2)));
                return Err(CodecError::Invalid);
            },
        };
        assert(tok.skip(p2 as int) == tok.skip(head.2 as int + (p2 - head.2)));
        if p3 != bytes.len() {
            return Err(CodecError::Invalid);
        }
        assert(spec_pair_parts(tok) == Some((data@, tag@)));
        let full = match subject {
            Some(a) => mac_256_2(key, data.as_slice(), a.bytes.as_slice()),
            None => mac_256(key, data.as_slice()),
        };
        assert(full@ == mac_output(
            key@,
            match subj {
                Some(s) => data@ + s,
                None => data@,
            },
        ));
        let expect = tag_take(&full, 8);
        if !bytes_eq(tag.as_slice(), expect.as_slice()) {
            return Err(CodecError::Invalid);
        }
        match Self::from_cbor(data.as_slice()) {
            Some(v) => {
                proof {
                    lemma_pair_parts_sound(tok);
                }
                Ok(v)
            },
            None => Err(CodecError::Invalid),
        }
    }
}

/// A signer and verifier of asymmetrically signed messages: the issuer signs
/// with a secret seed, anyone holding the public key can verify.
pub trait Ed25519Message: CborDecode {
    /// Signs this payload with the 32-byte secret seed, as a base64 string.
    /// The embedded signature verifies under the seed's derived public key.
    fn sign_to(&self, key: &[u8; 32]) -> (r: String)
        ensures
            r@ == b64url_of(
                spec_pair_token(self.spec_cbor(), ed25519_sig_of(key@, self.spec_cbor())),
            ),
            ed25519_valid(
                crate::crypto::ed25519_pub_of(key@),
                self.spec_cbor(),
                ed25519_sig_of(key@, self.spec_cbor()),
            ),
    ;

    /// Decodes a signed message under the 32-byte public key. A returned
    /// value came with a signature of its encoding that strict verification
    /// accepts; an input carrying such a signature of some value's encoding
    /// is accepted.
    fn verify_from(key: &[u8; 32], msg: &str) -> (r: Result<Self, CodecError>)
        ensures
            r is Ok ==> (r->Ok_0).spec_cbor().len() <= u64::MAX,
            r is Ok ==> exists|sig: Seq<u8>|
                sig.len() <= u64::MAX && msg@ == b64url_of(
                    #[trigger] spec_pair_token((r->Ok_0).spec_cbor(), sig),
                ) && ed25519_valid(key@, (r->Ok_0).spec_cbor(), sig),
            r is Ok ==> forall|p2: Seq<u8>, sig2: Seq<u8>|
                p2.len() <= u64::MAX && sig2.len() <= u64::MAX && msg@ == b64url_of(
                    #[trigger] spec_pair_token(p2, sig2),
                ) ==> p2 == (r->Ok_0).spec_cbor() && ed25519_valid(key@, p2, sig2),
            forall|p: Seq<u8>, sig: Seq<u8>|
                p.len() <= u64::MAX && sig.len() <= u64::MAX && msg@ == b64url_of(
                    #[trigger] spec_pair_token(p, sig),
                ) && ed25519_valid(key@, p, sig) && (exists|v: Self| p == v.spec_cbor())
                    ==> r is Ok,
            r matches Err(e) ==> e == CodecError::Invalid,
    ;
}

impl<T: CborDecode> Ed25519Message for T {
    fn sign_to(&self, key: &[u8; 32]) -> (r: String) {
        let data = self.to_cbor();
        let sig = ed25519_sign(key, data.as_slice());
        let mut tok: Vec<u8> = Vec::new();
        push_array_head(&mut tok, 2);
        push_bytes(&mut tok, data.as_slice());
        push_bytes(&mut tok, sig.as_slice());
        assert(tok@ =~= spec_pair_token(self.spec_cbor(), ed25519_sig_of(key@, self.spec_cbor())));
        b64url_encode(tok.as_slice())
    }

    #[verifier::rlimit(50)]
    fn verify_from(key: &[u8; 32], msg: &str) -> (r: Result<Self, CodecError>) {
        proof {
            assert forall|p: Seq<u8>, sig: Seq<u8>|
                p.len() <= u64::MAX && sig.len() <= u64::MAX implies #[trigger] spec_pair_parts(
                spec_pair_token(p, sig),
            ) == Some((p, sig)) by {
                lemma_pair_token_parts(p, sig);
            }
        }
        let bytes = match b64url_decode(msg) {
            Some(b) => b,
            None => {
                return Err(CodecError::Invalid);
            },
        };
        let ghost tok = bytes@;
        let t = bytes.as_slice();
        let head = match parse_head(t, 0) {
            Some(h) => h,
            None => {
                return Err(CodecError::Invalid);
            },
        };
        if !(head.0 == 4 && head.1 == 2) {
            return Err(CodecError::Invalid);
        }
        let (data, p2) = match parse_bytes(t, head.2) {
            Some(d) => d,
            None => {
                return Err(CodecError::Invalid);
            },
        };
        let (sig, p3) = match parse_bytes(t, p2) {
            Some(d) => d,
            None => {
                assert(tok.skip(p2 as int) == tok.skip(head.2 as int + (p2 - head.2)));
                return Err(CodecError::Invalid);
            },
        };
        assert(tok.skip(p2 as int) == tok.skip(head.2 as int + (p2 - head.2)));
        if p3 != bytes.len() {
            return Err(CodecError::Invalid);
        }
        assert(spec_pair_parts(tok) == Some((data@, sig@)));
        if !ed25519_verify(key, data.as_slice(), sig.as_slice()) {
            return Err(CodecError::Invalid);
        }
        match Self::from_cbor(data.as_slice()) {
            Some(v) => {
                let out: Result<Self, CodecError> = Ok(v);
                proof {
                    lemma_pair_parts_sound(tok);
                    assert(sig@.len() <= u64::MAX && msg@ == b64url_of(
                        spec_pair_token((out->Ok_0).spec_cbor(), sig@),
                    ) && ed25519_valid(key@, (out->Ok_0).spec_cbor(), sig@));
                    assert forall|p2: Seq<u8>, sig2: Seq<u8>|
                        p2.len() <= u64::MAX && sig2.len() <= u64::MAX && msg@ == b64url_of(
                            #[trigger] spec_pair_token(p2, sig2),
                        ) implies p2 == (out->Ok_0).spec_cbor() && ed25519_valid(
                        key@,
                        p2,
                        sig2,
                    ) by {
                        lemma_pair_token_parts(p2, sig2);
                        assert(spec_pair_token(p2, sig2) == tok);
                    }
                }
                out
            },
            None => Err(CodecError::Invalid),
        }
    }
}

} // verus!
