//! The signed payloads the orchestrator issues and checks: the
//! human-verification challenge code and the external-identity challenge
//! state.
use vstd::prelude::*;

use crate::account::{bytes_eq, Account};
use crate::cbor::{
    cbor_bytes, cbor_head, cbor_uint, lemma_concat_split, lemma_parse_bytes_of_encoding,
    lemma_parse_bytes_sound, lemma_parse_head_of_encoding, lemma_parse_head_sound,
    lemma_parse_uint_of_encoding, lemma_parse_uint_sound, lemma_skip_skip, parse_bytes,
    parse_head, parse_uint, push_array_head, push_bytes, push_uint, spec_parse_bytes,
    spec_parse_head, spec_parse_uint,
};
use crate::codec::{spec_challenge_token, CborDecode, CborEncode, Challenge};
use crate::crypto::{b64url_encode, b64url_of};

verus! {

/// The lowercase text of a human-verification challenge.
pub struct ChallengeCode {
    pub code: Vec<u8>,
}

impl CborEncode for ChallengeCode {
    open spec fn spec_cbor(&self) -> Seq<u8> {
        cbor_bytes(self.code@)
    }

    fn to_cbor(&self) -> (r: Vec<u8>) {
        let mut out: Vec<u8> = Vec::new();
        push_bytes(&mut out, self.code.as_slice());
        assert(out@ =~= self.spec_cbor());
        out
    }
}

impl ChallengeCode {
    /// The signed, base64 form of this code's challenge token at `now_sec`.
    pub fn sign_to_base64(&self, secret: &[u8], now_sec: u64) -> (r: String)
        ensures
            r@ == b64url_of(spec_challenge_token(self.spec_cbor(), secret@, now_sec)),
    {
        let tok = self.challenge(secret, now_sec);
        b64url_encode(tok.as_slice())
    }
}

/// An external-identity linkage: the account it binds to, the external user
/// id, and the timestamp it expires at.
pub struct ChallengeState {
    pub account: Account,
    pub id: Vec<u8>,
    pub expire_at: u64,
}

impl ChallengeState {
    /// Valid for `caller` at `now_sec`: bound to that very account and not
    /// yet expired.
    pub open spec fn spec_is_valid(&self, caller: Seq<u8>, now_sec: u64) -> bool {
        self.account@ == caller && self.expire_at >= now_sec
    }

    pub fn is_valid(&self, caller: &Account, now_sec: u64) -> (r: bool)
        ensures
            r == self.spec_is_valid(caller@, now_sec),
    {
        self.account.same(caller) && self.expire_at >= now_sec
    }
}

/// The parse of each field of an encoded challenge state.
proof fn lemma_challenge_state_parse(v: ChallengeState)
    ensures
        ({
            let s = v.spec_cbor();
            let l0 = cbor_bytes(v.account@).len() as int;
            let l1 = cbor_bytes(v.id@).len() as int;
            let l2 = cbor_uint(v.expire_at).len() as int;
            &&& spec_parse_head(s) == Some((4u8, 3u64, 1int))
            &&& spec_parse_bytes(s.skip(1)) == Some((v.account@, l0))
            &&& spec_parse_bytes(s.skip(1 + l0)) == Some((v.id@, l1))
            &&& spec_parse_uint(s.skip(1 + l0 + l1)) == Some((v.expire_at, l2))
            &&& 1 + l0 + l1 + l2 == s.len()
        }),
{
    vstd::std_specs::vec::axiom_spec_len(&v.account.bytes);
    vstd::std_specs::vec::axiom_spec_len(&v.id);
    let s = v.spec_cbor();
    let i0 = cbor_bytes(v.account@);
    let i1 = cbor_bytes(v.id@);
    let i2 = cbor_uint(v.expire_at);
    let l0 = i0.len() as int;
    let l1 = i1.len() as int;
    let r1 = i1 + i2;
    lemma_parse_head_of_encoding(4, 3, i0 + r1);
    lemma_concat_split(cbor_head(4, 3), i0 + r1);
    assert(s.skip(1) == i0 + r1);
    lemma_parse_bytes_of_encoding(v.account@, r1);
    lemma_concat_split(i0, r1);
    lemma_skip_skip(s, 1, l0);
    assert(s.skip(1 + l0) == r1);
    lemma_parse_bytes_of_encoding(v.id@, i2);
    lemma_concat_split(i1, i2);
    lemma_skip_skip(s, 1 + l0, l1);
    assert(s.skip(1 + l0 + l1) == i2);
    assert(i2 =~= i2 + Seq::<u8>::empty());
    lemma_parse_uint_of_encoding(v.expire_at, Seq::<u8>::empty());
}

/// Two states with one encoding agree in everything their validity and
/// identity binding read.
pub proof fn lemma_challenge_state_cbor_views(a: ChallengeState, b: ChallengeState)
    requires
        a.spec_cbor() == b.spec_cbor(),
    ensures
        a.account@ == b.account@,
        a.id@ == b.id@,
        a.expire_at == b.expire_at,
{
    lemma_challenge_state_parse(a);
    lemma_challenge_state_parse(b);
}

impl CborEncode for ChallengeState {
    open spec fn spec_cbor(&self) -> Seq<u8> {
        cbor_head(4, 3) + (cbor_bytes(self.account@) + (cbor_bytes(self.id@) + cbor_uint(
            self.expire_at,
        )))
    }

    fn to_cbor(&self) -> (r: Vec<u8>) {
        let mut out: Vec<u8> = Vec::new();
        push_array_head(&mut out, 3);
        push_bytes(&mut out, self.account.bytes.as_slice());
        push_bytes(&mut out, self.id.as_slice());
        push_uint(&mut out, self.expire_at);
        assert(out@ =~= self.spec_cbor());
        out
    }
}

impl CborDecode for ChallengeState {
    #[verifier::rlimit(100)]
    fn from_cbor(data: &[u8]) -> (r: Option<ChallengeState>) {
        let ghost s = data@;
        proof {
            if exists|v: ChallengeState| data@ == v.spec_cbor() {
                let v = choose|v: ChallengeState| data@ == v.spec_cbor();
                lemma_challenge_state_parse(v);
            }
        }
        let head = match parse_head(data, 0) {
            Some(h) => h,
            None => {
                return None;
            },
        };
        if !(head.0 == 4 && head.1 == 3) {
            return None;
        }
        let (acc, p1) = match parse_bytes(data, head.2) {
            Some(t) => t,
            None => {
                return None;
            },
        };
        proof {
            lemma_skip_skip(s, head.2 as int, p1 - head.2);
        }
        let (id, p2) = match parse_bytes(data, p1) {
            Some(t) => t,
            None => {
                return None;
            },
        };
        proof {
            lemma_skip_skip(s, p1 as int, p2 - p1);
        }
        let (expire_at, _p3) = match parse_uint(data, p2) {
            Some(t) => t,
            None => {
                return None;
            },
        };
        let out = ChallengeState { account: Account { bytes: acc }, id, expire_at };
        let enc = out.to_cbor();
        if bytes_eq(enc.as_slice(), data) {
            Some(out)
        } else {
            None
        }
    }
}

} // verus!
