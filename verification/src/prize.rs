//! The reward voucher payload and its pinned canonical encoding.
use vstd::prelude::*;

use crate::cbor::{
    cbor_head, cbor_uint, lemma_concat_split, lemma_parse_head_of_encoding,
    lemma_parse_head_sound, lemma_parse_uint_of_encoding, lemma_parse_uint_sound, lemma_skip_skip,
    parse_head, parse_uint, push_array_head, push_uint, spec_parse_head,
    spec_parse_uint,
};
use crate::account::bytes_eq;
use crate::codec::{CborDecode, CborEncode};

verus! {

/// A reward voucher: issuer lucky code (0 means no referral attribution),
/// issue time in seconds, expiry offset from the issue time in minutes,
/// claimable amount in whole tokens (0 means pure eligibility signaling), and
/// how many accounts may redeem it when it is not subject-bound.
#[derive(Clone, Copy, Debug, PartialEq, Eq, Structural)]
pub struct Prize(pub u32, pub u32, pub u16, pub u32, pub u16);

impl Prize {
    /// Whether the voucher has not yet expired at `now_sec`.
    pub open spec fn spec_valid(&self, now_sec: u64) -> bool {
        self.1 as u64 + self.2 as u64 * 60 >= now_sec
    }

    /// Expiry check for a voucher decoded with the caller as subject; the
    /// subject-bound decode already proves that the system issued it.
    pub fn is_valid_system(&self, now_sec: u64) -> (r: bool)
        ensures
            r == self.spec_valid(now_sec),
    {
        self.is_valid(now_sec)
    }

    /// Expiry check for a voucher decoded without a subject.
    pub fn is_valid(&self, now_sec: u64) -> (r: bool)
        ensures
            r == self.spec_valid(now_sec),
    {
        (self.1 as u64) + (self.2 as u64) * 60 >= now_sec
    }
}

/// The parse of each field of an encoded voucher, for the round-trip proofs.
proof fn lemma_prize_parse(v: Prize)
    ensures
        ({
            let s = v.spec_cbor();
            let l0 = cbor_uint(v.0 as u64).len() as int;
            let l1 = cbor_uint(v.1 as u64).len() as int;
            let l2 = cbor_uint(v.2 as u64).len() as int;
            let l3 = cbor_uint(v.3 as u64).len() as int;
            let l4 = cbor_uint(v.4 as u64).len() as int;
            &&& spec_parse_head(s) == Some((4u8, 5u64, 1int))
            &&& spec_parse_uint(s.skip(1)) == Some((v.0 as u64, l0))
            &&& spec_parse_uint(s.skip(1 + l0)) == Some((v.1 as u64, l1))
            &&& spec_parse_uint(s.skip(1 + l0 + l1)) == Some((v.2 as u64, l2))
            &&& spec_parse_uint(s.skip(1 + l0 + l1 + l2)) == Some((v.3 as u64, l3))
            &&& spec_parse_uint(s.skip(1 + l0 + l1 + l2 + l3)) == Some((v.4 as u64, l4))
            &&& 1 + l0 + l1 + l2 + l3 + l4 == s.len()
        }),
{
    let s = v.spec_cbor();
    let i0 = cbor_uint(v.0 as u64);
    let i1 = cbor_uint(v.1 as u64);
    let i2 = cbor_uint(v.2 as u64);
    let i3 = cbor_uint(v.3 as u64);
    let i4 = cbor_uint(v.4 as u64);
    let l0 = i0.len() as int;
    let l1 = i1.len() as int;
    let l2 = i2.len() as int;
    let l3 = i3.len() as int;
    let r1 = i1 + (i2 + (i3 + i4));
    let r2 = i2 + (i3 + i4);
    let r3 = i3 + i4;
    lemma_parse_head_of_encoding(4, 5, i0 + r1);
    lemma_concat_split(cbor_head(4, 5), i0 + r1);
    assert(s.skip(1) == i0 + r1);
    lemma_parse_uint_of_encoding(v.0 as u64, r1);
    lemma_concat_split(i0, r1);
    lemma_skip_skip(s, 1, l0);
    assert(s.skip(1 + l0) == r1);
    lemma_parse_uint_of_encoding(v.1 as u64, r2);
    lemma_concat_split(i1, r2);
    lemma_skip_skip(s, 1 + l0, l1);
    assert(s.skip(1 + l0 + l1) == r2);
    lemma_parse_uint_of_encoding(v.2 as u64, r3);
    lemma_concat_split(i2, r3);
    lemma_skip_skip(s, 1 + l0 + l1, l2);
    assert(s.skip(1 + l0 + l1 + l2) == r3);
    lemma_parse_uint_of_encoding(v.3 as u64, i4);
    lemma_concat_split(i3, i4);
    lemma_skip_skip(s, 1 + l0 + l1 + l2, l3);
    assert(s.skip(1 + l0 + l1 + l2 + l3) == i4);
    assert(i4 =~= i4 + Seq::<u8>::empty());
    lemma_parse_uint_of_encoding(v.4 as u64, Seq::<u8>::empty());
}

/// A voucher's encoding is short: at most the array head and five maximal
/// integer items.
pub proof fn lemma_prize_cbor_len(p: Prize)
    ensures
        p.spec_cbor().len() <= 46,
{
    assert(cbor_uint(p.0 as u64).len() <= 9);
    assert(cbor_uint(p.1 as u64).len() <= 9);
    assert(cbor_uint(p.2 as u64).len() <= 9);
    assert(cbor_uint(p.3 as u64).len() <= 9);
    assert(cbor_uint(p.4 as u64).len() <= 9);
    assert(cbor_head(4, 5).len() == 1);
}

/// No two distinct vouchers share an encoding.
pub proof fn lemma_prize_cbor_injective(a: Prize, b: Prize)
    requires
        a.spec_cbor() == b.spec_cbor(),
    ensures
        a == b,
{
    lemma_prize_parse(a);
    lemma_prize_parse(b);
}

impl CborEncode for Prize {
    open spec fn spec_cbor(&self) -> Seq<u8> {
        cbor_head(4, 5) + (cbor_uint(self.0 as u64) + (cbor_uint(self.1 as u64) + (cbor_uint(
            self.2 as u64,
        ) + (cbor_uint(self.3 as u64) + cbor_uint(self.4 as u64)))))
    }

    fn to_cbor(&self) -> (r: Vec<u8>) {
        let mut out: Vec<u8> = Vec::new();
        push_array_head(&mut out, 5);
        push_uint(&mut out, self.0 as u64);
        push_uint(&mut out, self.1 as u64);
        push_uint(&mut out, self.2 as u64);
        push_uint(&mut out, self.3 as u64);
        push_uint(&mut out, self.4 as u64);
        assert(out@ =~= self.spec_cbor());
        out
    }
}

impl CborDecode for Prize {
    #[verifier::rlimit(100)]
    fn from_cbor(data: &[u8]) -> (r: Option<Prize>) {
        let ghost s = data@;
        proof {
            if exists|v: Prize| data@ == v.spec_cbor() {
                let v = choose|v: Prize| data@ == v.spec_cbor();
                lemma_prize_parse(v);
            }
        }
        let head = match parse_head(data, 0) {
            Some(h) => h,
            None => {
                return None;
            },
        };
        if !(head.0 == 4 && head.1 == 5) {
            return None;
        }
        let (f0, p1) = match parse_uint(data, head.2) {
            Some(t) => t,
            None => {
                return None;
            },
        };
        proof {
            lemma_skip_skip(s, head.2 as int, p1 - head.2);
        }
        let (f1, p2) = match parse_uint(data, p1) {
            Some(t) => t,
            None => {
                return None;
            },
        };
        proof {
            lemma_skip_skip(s, p1 as int, p2 - p1);
        }
        let (f2, p3) = match parse_uint(data, p2) {
            Some(t) => t,
            None => {
                return None;
            },
        };
        proof {
            lemma_skip_skip(s, p2 as int, p3 - p2);
        }
        let (f3, p4) = match parse_uint(data, p3) {
            Some(t) => t,
            None => {
                return None;
            },
        };
        proof {
            lemma_skip_skip(s, p3 as int, p4 - p3);
        }
        let (f4, _p5) = match parse_uint(data, p4) {
            Some(t) => t,
            None => {
                return None;
            },
        };
        if !(f0 <= u32::MAX as u64 && f1 <= u32::MAX as u64 && f2 <= u16::MAX as u64 && f3
            <= u32::MAX as u64 && f4 <= u16::MAX as u64) {
            return None;
        }
        let out = Prize(f0 as u32, f1 as u32, f2 as u16, f3 as u32, f4 as u16);
        let enc = out.to_cbor();
        if bytes_eq(enc.as_slice(), data) {
            Some(out)
        } else {
            None
        }
    }
}

} // verus!
