//! Canonical CBOR, restricted to the shapes the cryptograms use: unsigned
//! integers, byte strings and arrays. Every value has exactly one encoding
//! (shortest-form heads), and the parser accepts exactly those encodings,
//! so decoding is a two-sided inverse of encoding.
use vstd::prelude::*;

verus! {

/// Big-endian bytes of the low 16 bits of `v`.
pub open spec fn be2(v: u64) -> Seq<u8> {
    seq![(v >> 8) as u8, v as u8]
}

/// Big-endian bytes of the low 32 bits of `v`.
pub open spec fn be4(v: u64) -> Seq<u8> {
    seq![(v >> 24) as u8, (v >> 16) as u8, (v >> 8) as u8, v as u8]
}

/// Big-endian bytes of `v`.
pub open spec fn be8(v: u64) -> Seq<u8> {
    seq![
        (v >> 56) as u8,
        (v >> 48) as u8,
        (v >> 40) as u8,
        (v >> 32) as u8,
        (v >> 24) as u8,
        (v >> 16) as u8,
        (v >> 8) as u8,
        v as u8,
    ]
}

/// The canonical (shortest-form) CBOR head for major type `m` and value `v`.
/// For major 0 this is the whole item; for majors 2 and 4 the payload follows.
pub open spec fn cbor_head(m: u8, v: u64) -> Seq<u8> {
    if v < 24 {
        seq![((m as int) * 32 + (v as int)) as u8]
    } else if v < 0x100 {
        seq![((m as int) * 32 + 24) as u8, v as u8]
    } else if v < 0x10000 {
        seq![((m as int) * 32 + 25) as u8] + be2(v)
    } else if v < 0x1_0000_0000 {
        seq![((m as int) * 32 + 26) as u8] + be4(v)
    } else {
        seq![((m as int) * 32 + 27) as u8] + be8(v)
    }
}

/// A whole CBOR byte-string item.
pub open spec fn cbor_bytes(b: Seq<u8>) -> Seq<u8> {
    cbor_head(2, b.len() as u64) + b
}

/// A whole CBOR unsigned-integer item.
pub open spec fn cbor_uint(v: u64) -> Seq<u8> {
    cbor_head(0, v)
}

/// Strict parser for a canonical head: returns major type, value and the
/// number of bytes consumed. Rejects non-shortest forms and the head forms
/// the codecs never produce (indefinite lengths, reserved additional info).
pub open spec fn spec_parse_head(s: Seq<u8>) -> Option<(u8, u64, int)> {
    if s.len() < 1 {
        None
    } else {
        let m = s[0] / 32;
        let ai = s[0] % 32;
        if ai < 24 {
            Some((m, ai as u64, 1))
        } else if ai == 24 {
            if s.len() >= 2 && s[1] >= 24 {
                Some((m, s[1] as u64, 2))
            } else {
                None
            }
        } else if ai == 25 {
            if s.len() >= 3 {
                let v = ((s[1] as u64) << 8) | (s[2] as u64);
                if v >= 0x100 {
                    Some((m, v, 3))
                } else {
                    None
                }
            } else {
                None
            }
        } else if ai == 26 {
            if s.len() >= 5 {
                let v = ((s[1] as u64) << 24) | ((s[2] as u64) << 16) | ((s[3] as u64) << 8)
                    | (s[4] as u64);
                if v >= 0x10000 {
                    Some((m, v, 5))
                } else {
                    None
                }
            } else {
                None
            }
        } else if ai == 27 {
            if s.len() >= 9 {
                let v = ((s[1] as u64) << 56) | ((s[2] as u64) << 48) | ((s[3] as u64) << 40)
                    | ((s[4] as u64) << 32) | ((s[5] as u64) << 24) | ((s[6] as u64) << 16)
                    | ((s[7] as u64) << 8) | (s[8] as u64);
                if v >= 0x1_0000_0000 {
                    Some((m, v, 9))
                } else {
                    None
                }
            } else {
                None
            }
        } else {
            None
        }
    }
}

/// Parsing an encoded head, followed by anything, recovers exactly the major
/// type, the value and the head's length.
pub proof fn lemma_parse_head_of_encoding(m: u8, v: u64, rest: Seq<u8>)
    requires
        m < 8,
    ensures
        spec_parse_head(cbor_head(m, v) + rest) == Some((m, v, cbor_head(m, v).len() as int)),
{
    let s = cbor_head(m, v) + rest;
    if v < 24 {
        let b = ((m as int) * 32 + (v as int)) as u8;
        assert(s[0] == b);
        vstd::arithmetic::div_mod::lemma_fundamental_div_mod_converse(
            b as int,
            32,
            m as int,
            v as int,
        );
    } else if v < 0x100 {
        let b = ((m as int) * 32 + 24) as u8;
        assert(s[0] == b && s[1] == v as u8);
        vstd::arithmetic::div_mod::lemma_fundamental_div_mod_converse(b as int, 32, m as int, 24);
        assert(v as u8 >= 24 && (v as u8) as u64 == v) by (bit_vector)
            requires
                24 <= v < 0x100,
        ;
    } else if v < 0x10000 {
        let b = ((m as int) * 32 + 25) as u8;
        assert(s[0] == b && s[1] == (v >> 8) as u8 && s[2] == v as u8);
        vstd::arithmetic::div_mod::lemma_fundamental_div_mod_converse(b as int, 32, m as int, 25);
        assert((((v >> 8) as u8 as u64) << 8) | (v as u8 as u64) == v && v >= 0x100)
            by (bit_vector)
            requires
                0x100 <= v < 0x10000,
        ;
    } else if v < 0x1_0000_0000 {
        let b = ((m as int) * 32 + 26) as u8;
        assert(s[0] == b && s[1] == (v >> 24) as u8 && s[2] == (v >> 16) as u8 && s[3] == (v
            >> 8) as u8 && s[4] == v as u8);
        vstd::arithmetic::div_mod::lemma_fundamental_div_mod_converse(b as int, 32, m as int, 26);
        assert((((v >> 24) as u8 as u64) << 24) | (((v >> 16) as u8 as u64) << 16) | (((v
            >> 8) as u8 as u64) << 8) | (v as u8 as u64) == v && v >= 0x10000) by (bit_vector)
            requires
                0x10000 <= v < 0x1_0000_0000,
        ;
    } else {
        let b = ((m as int) * 32 + 27) as u8;
        assert(s[0] == b && s[1] == (v >> 56) as u8 && s[2] == (v >> 48) as u8 && s[3] == (v
            >> 40) as u8 && s[4] == (v >> 32) as u8 && s[5] == (v >> 24) as u8 && s[6] == (v
            >> 16) as u8 && s[7] == (v >> 8) as u8 && s[8] == v as u8);
        vstd::arithmetic::div_mod::lemma_fundamental_div_mod_converse(b as int, 32, m as int, 27);
        assert((((v >> 56) as u8 as u64) << 56) | (((v >> 48) as u8 as u64) << 48) | (((v
            >> 40) as u8 as u64) << 40) | (((v >> 32) as u8 as u64) << 32) | (((v
            >> 24) as u8 as u64) << 24) | (((v >> 16) as u8 as u64) << 16) | (((v
            >> 8) as u8 as u64) << 8) | (v as u8 as u64) == v && v >= 0x1_0000_0000)
            by (bit_vector)
            requires
                v >= 0x1_0000_0000,
        ;
    }
}

/// A successful head parse consumed exactly the canonical encoding of what it
/// returned: the head is a prefix code.
pub proof fn lemma_parse_head_sound(s: Seq<u8>)
    requires
        spec_parse_head(s) is Some,
    ensures
        ({
            let (m, v, n) = spec_parse_head(s)->Some_0;
            &&& m < 8
            &&& 0 < n <= s.len()
            &&& n == cbor_head(m, v).len()
            &&& s.take(n) =~= cbor_head(m, v)
        }),
{
    let (m, v, n) = spec_parse_head(s)->Some_0;
    let b = s[0];
    let ai = b % 32;
    vstd::arithmetic::div_mod::lemma_fundamental_div_mod(b as int, 32);
    assert(b / 32 < 8 && b % 32 < 32) by (bit_vector);
    if ai < 24 {
        assert(s.take(n) =~= cbor_head(m, v));
    } else if ai == 24 {
        let b1 = s[1];
        assert(v < 0x100 && !(v < 24)) by (bit_vector)
            requires
                v == b1 as u64 && b1 >= 24,
        ;
        assert(s.take(n) =~= cbor_head(m, v));
    } else if ai == 25 {
        let b1 = s[1];
        let b2 = s[2];
        assert(v < 0x10000 && (v >> 8) as u8 == b1 && v as u8 == b2) by (bit_vector)
            requires
                v == ((b1 as u64) << 8) | (b2 as u64),
        ;
        assert(s.take(n) =~= cbor_head(m, v));
    } else if ai == 26 {
        let b1 = s[1];
        let b2 = s[2];
        let b3 = s[3];
        let b4 = s[4];
        assert(v < 0x1_0000_0000 && (v >> 24) as u8 == b1 && (v >> 16) as u8 == b2 && (v
            >> 8) as u8 == b3 && v as u8 == b4) by (bit_vector)
            requires
                v == ((b1 as u64) << 24) | ((b2 as u64) << 16) | ((b3 as u64) << 8) | (b4 as u64),
        ;
        assert(s.take(n) =~= cbor_head(m, v));
    } else {
        let b1 = s[1];
        let b2 = s[2];
        let b3 = s[3];
        let b4 = s[4];
        let b5 = s[5];
        let b6 = s[6];
        let b7 = s[7];
        let b8 = s[8];
        assert((v >> 56) as u8 == b1 && (v >> 48) as u8 == b2 && (v >> 40) as u8 == b3 && (v
            >> 32) as u8 == b4 && (v >> 24) as u8 == b5 && (v >> 16) as u8 == b6 && (v
            >> 8) as u8 == b7 && v as u8 == b8) by (bit_vector)
            requires
                v == ((b1 as u64) << 56) | ((b2 as u64) << 48) | ((b3 as u64) << 40) | ((b4 as u64)
                    << 32) | ((b5 as u64) << 24) | ((b6 as u64) << 16) | ((b7 as u64) << 8) | (
                b8 as u64),
        ;
        assert(s.take(n) =~= cbor_head(m, v));
    }
}

/// Splitting a concatenation at the length of its left part.
pub proof fn lemma_concat_split(a: Seq<u8>, b: Seq<u8>)
    ensures
        (a + b).skip(a.len() as int) =~= b,
        (a + b).take(a.len() as int) =~= a,
{
}

/// Two skips compose into one.
pub proof fn lemma_skip_skip(s: Seq<u8>, a: int, b: int)
    requires
        0 <= a,
        0 <= b,
        a + b <= s.len(),
    ensures
        s.skip(a).skip(b) == s.skip(a + b),
{
    assert(s.skip(a).skip(b) =~= s.skip(a + b));
}


/// Appends the canonical head for `(m, v)` to `out`.
pub fn push_head(out: &mut Vec<u8>, m: u8, v: u64)
    requires
        m < 8,
    ensures
        final(out)@ == old(out)@ + cbor_head(m, v),
{
    let mt: u8 = m * 32;
    if v < 24 {
        out.push(mt + (v as u8));
        assert(out@ =~= old(out)@ + cbor_head(m, v));
    } else if v < 0x100 {
        out.push(mt + 24);
        out.push(v as u8);
        assert(out@ =~= old(out)@ + cbor_head(m, v));
    } else if v < 0x10000 {
        out.push(mt + 25);
        out.push((v >> 8) as u8);
        out.push(v as u8);
        assert(out@ =~= old(out)@ + cbor_head(m, v));
    } else if v < 0x1_0000_0000 {
        out.push(mt + 26);
        out.push((v >> 24) as u8);
        out.push((v >> 16) as u8);
        out.push((v >> 8) as u8);
        out.push(v as u8);
        assert(out@ =~= old(out)@ + cbor_head(m, v));
    } else {
        out.push(mt + 27);
        out.push((v >> 56) as u8);
        out.push((v >> 48) as u8);
        out.push((v >> 40) as u8);
        out.push((v >> 32) as u8);
        out.push((v >> 24) as u8);
        out.push((v >> 16) as u8);
        out.push((v >> 8) as u8);
        out.push(v as u8);
        assert(out@ =~= old(out)@ + cbor_head(m, v));
    }
}

/// Appends a whole unsigned-integer item.
pub fn push_uint(out: &mut Vec<u8>, v: u64)
    ensures
        final(out)@ == old(out)@ + cbor_uint(v),
{
    push_head(out, 0, v);
}

/// Appends a whole byte-string item.
pub fn push_bytes(out: &mut Vec<u8>, b: &[u8])
    ensures
        final(out)@ == old(out)@ + cbor_bytes(b@),
{
    let len = b.len();
    assert(b@.len() <= u64::MAX);
    let ghost mid = out@ + cbor_head(2, b@.len() as u64);
    push_head(out, 2, len as u64);
    let mut k: usize = 0;
    while k < b.len()
        invariant
            k <= b@.len(),
            out@ == mid + b@.take(k as int),
        decreases b@.len() - k,
    {
        out.push(b[k]);
        assert(out@ =~= mid + b@.take(k + 1));
        k = k + 1;
    }
    assert(b@.take(b@.len() as int) =~= b@);
    assert(out@ =~= old(out)@ + cbor_bytes(b@));
}

/// Appends the head of an array of `count` items; the items follow.
pub fn push_array_head(out: &mut Vec<u8>, count: u64)
    ensures
        final(out)@ == old(out)@ + cbor_head(4, count),
{
    push_head(out, 4, count);
}

/// Parses a canonical head at offset `i`, mirroring `spec_parse_head`.
pub fn parse_head(data: &[u8], i: usize) -> (r: Option<(u8, u64, usize)>)
    requires
        i <= data@.len(),
    ensures
        match r {
            Some(t) => {
                &&& spec_parse_head(data@.skip(i as int)) == Some((t.0, t.1, t.2 - i))
                &&& i < t.2 <= data@.len()
                &&& t.0 < 8
            },
            None => spec_parse_head(data@.skip(i as int)) is None,
        },
{
    let ghost s = data@.skip(i as int);
    if i >= data.len() {
        return None;
    }
    let b = data[i];
    assert(s[0] == b);
    let m = b / 32;
    let ai = b % 32;
    assert(m < 8) by (bit_vector)
        requires
            m == b / 32,
    ;
    if ai < 24 {
        Some((m, ai as u64, i + 1))
    } else if ai == 24 {
        if data.len() - i >= 2 && data[i + 1] >= 24 {
            assert(s[1] == data@[i + 1]);
            Some((m, data[i + 1] as u64, i + 2))
        } else {
            None
        }
    } else if ai == 25 {
        if data.len() - i >= 3 {
            assert(s[1] == data@[i + 1] && s[2] == data@[i + 2]);
            let v = ((data[i + 1] as u64) << 8) | (data[i + 2] as u64);
            if v >= 0x100 {
                Some((m, v, i + 3))
            } else {
                None
            }
        } else {
            None
        }
    } else if ai == 26 {
        if data.len() - i >= 5 {
            assert(s[1] == data@[i + 1] && s[2] == data@[i + 2] && s[3] == data@[i + 3] && s[4]
                == data@[i + 4]);
            let v = ((data[i + 1] as u64) << 24) | ((data[i + 2] as u64) << 16) | ((data[i
                + 3] as u64) << 8) | (data[i + 4] as u64);
            if v >= 0x10000 {
                Some((m, v, i + 5))
            } else {
                None
            }
        } else {
            None
        }
    } else if ai == 27 {
        if data.len() - i >= 9 {
            assert(s[1] == data@[i + 1] && s[2] == data@[i + 2] && s[3] == data@[i + 3] && s[4]
                == data@[i + 4] && s[5] == data@[i + 5] && s[6] == data@[i + 6] && s[7] == data@[i
                + 7] && s[8] == data@[i + 8]);
            let v = ((data[i + 1] as u64) << 56) | ((data[i + 2] as u64) << 48) | ((data[i
                + 3] as u64) << 40) | ((data[i + 4] as u64) << 32) | ((data[i + 5] as u64) << 24)
                | ((data[i + 6] as u64) << 16) | ((data[i + 7] as u64) << 8) | (data[i
                + 8] as u64);
            if v >= 0x1_0000_0000 {
                Some((m, v, i + 9))
            } else {
                None
            }
        } else {
            None
        }
    } else {
        None
    }
}

/// Strict parse of a whole unsigned-integer item.
pub open spec fn spec_parse_uint(s: Seq<u8>) -> Option<(u64, int)> {
    match spec_parse_head(s) {
        Some((m, v, n)) => if m == 0 {
            Some((v, n))
        } else {
            None
        },
        None => None,
    }
}

/// Strict parse of a whole byte-string item: the bytes and the total length.
pub open spec fn spec_parse_bytes(s: Seq<u8>) -> Option<(Seq<u8>, int)> {
    match spec_parse_head(s) {
        Some((m, v, n)) => if m == 2 && n + v <= s.len() {
            Some((s.subrange(n, n + v), n + v))
        } else {
            None
        },
        None => None,
    }
}

/// The byte-string parse accepts exactly the item encodings.
pub proof fn lemma_parse_bytes_of_encoding(b: Seq<u8>, rest: Seq<u8>)
    requires
        b.len() <= u64::MAX,
    ensures
        spec_parse_bytes(cbor_bytes(b) + rest) == Some((b, cbor_bytes(b).len() as int)),
{
    let s = cbor_bytes(b) + rest;
    let h = cbor_head(2, b.len() as u64);
    assert(s =~= h + (b + rest));
    lemma_parse_head_of_encoding(2, b.len() as u64, b + rest);
    let n = h.len() as int;
    assert(s.subrange(n, n + b.len()) =~= b);
}

/// The integer parse accepts exactly the item encodings.
pub proof fn lemma_parse_uint_of_encoding(v: u64, rest: Seq<u8>)
    ensures
        spec_parse_uint(cbor_uint(v) + rest) == Some((v, cbor_uint(v).len() as int)),
{
    lemma_parse_head_of_encoding(0, v, rest);
}

/// A successful byte-string parse consumed exactly the canonical encoding.
pub proof fn lemma_parse_bytes_sound(s: Seq<u8>)
    requires
        spec_parse_bytes(s) is Some,
    ensures
        ({
            let (b, n) = spec_parse_bytes(s)->Some_0;
            &&& 0 < n <= s.len()
            &&& n == cbor_bytes(b).len()
            &&& b.len() <= u64::MAX
            &&& s.take(n) =~= cbor_bytes(b)
        }),
{
    lemma_parse_head_sound(s);
    let (m, v, h) = spec_parse_head(s)->Some_0;
    let (b, n) = spec_parse_bytes(s)->Some_0;
    assert(b.len() == v);
    assert(s.take(n) =~= cbor_head(2, v) + b);
}

/// A successful integer parse consumed exactly the canonical encoding.
pub proof fn lemma_parse_uint_sound(s: Seq<u8>)
    requires
        spec_parse_uint(s) is Some,
    ensures
        ({
            let (v, n) = spec_parse_uint(s)->Some_0;
            &&& 0 < n <= s.len()
            &&& n == cbor_uint(v).len()
            &&& s.take(n) =~= cbor_uint(v)
        }),
{
    lemma_parse_head_sound(s);
}

/// Parses a whole unsigned-integer item at offset `i`.
pub fn parse_uint(data: &[u8], i: usize) -> (r: Option<(u64, usize)>)
    requires
        i <= data@.len(),
    ensures
        match r {
            Some(t) => {
                &&& spec_parse_uint(data@.skip(i as int)) == Some((t.0, t.1 - i))
                &&& i < t.1 <= data@.len()
            },
            None => spec_parse_uint(data@.skip(i as int)) is None,
        },
{
    match parse_head(data, i) {
        Some((m, v, n)) => if m == 0 {
            Some((v, n))
        } else {
            None
        },
        None => None,
    }
}

/// Parses a whole byte-string item at offset `i` and copies the bytes out.
pub fn parse_bytes(data: &[u8], i: usize) -> (r: Option<(Vec<u8>, usize)>)
    requires
        i <= data@.len(),
    ensures
        match r {
            Some(t) => {
                &&& spec_parse_bytes(data@.skip(i as int)) == Some((t.0@, t.1 - i))
                &&& i <= t.1 <= data@.len()
            },
            None => spec_parse_bytes(data@.skip(i as int)) is None,
        },
{
    let ghost s = data@.skip(i as int);
    match parse_head(data, i) {
        Some((m, v, n)) => {
            if m != 2 {
                return None;
            }
            if v > (data.len() - n) as u64 {
                assert(spec_parse_bytes(s) is None);
                return None;
            }
            let end: usize = n + (v as usize);
            let mut out: Vec<u8> = Vec::new();
            let mut k: usize = n;
            while k < end
                invariant
                    n <= k <= end <= data@.len(),
                    out@ == data@.subrange(n as int, k as int),
                decreases end - k,
            {
                out.push(data[k]);
                assert(out@ =~= data@.subrange(n as int, k + 1));
                k = k + 1;
            }
            assert(out@ =~= s.subrange(n - i, n - i + v));
            Some((out, end))
        },
        None => None,
    }
}

} // verus!
