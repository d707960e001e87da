//! Base64 codec for the digest values carried in a `Digest` header.
//!
//! Decoding is tolerant of unpadded input and rejects any byte outside the
//! base64 alphabet; encoding always pads to a multiple of four characters.

use vstd::prelude::*;

verus! {

/// Whether `b` is a character of the base64 alphabet (`A-Z a-z 0-9 + /`).
pub open spec fn is_d(b: u8) -> bool {
    (65 <= b && b <= 90) || (97 <= b && b <= 122) || (48 <= b && b <= 57) || b == 43 || b == 47
}

/// The six-bit value of an alphabet character (meaningless outside `is_d`).
pub open spec fn d(b: u8) -> u8 {
    if 65 <= b && b <= 90 {
        (b - 65) as u8
    } else if 97 <= b && b <= 122 {
        (b - 71) as u8
    } else if 48 <= b && b <= 57 {
        (b + 4) as u8
    } else if b == 43 {
        62
    } else {
        63
    }
}

/// The alphabet character of a six-bit value.
pub open spec fn ec(v: u8) -> u8 {
    if v < 26 {
        (65 + v) as u8
    } else if v < 52 {
        (71 + v) as u8
    } else if v < 62 {
        (v - 4) as u8
    } else if v == 62 {
        43
    } else {
        47
    }
}

/// First decoded byte of a group.
pub open spec fn byte0(a: u8, b: u8) -> u8 {
    (d(a) << 2) | (d(b) >> 4)
}

/// Second decoded byte of a group.
pub open spec fn byte1(b: u8, c: u8) -> u8 {
    ((d(b) & 15) << 4) | (d(c) >> 2)
}

/// Third decoded byte of a group.
pub open spec fn byte2(c: u8, e: u8) -> u8 {
    ((d(c) & 3) << 6) | d(e)
}

pub open spec fn decode_tail2(a: u8, b: u8) -> Option<Seq<u8>> {
    if is_d(a) && is_d(b) {
        Some(seq![byte0(a, b)])
    } else {
        None
    }
}

pub open spec fn decode_tail3(a: u8, b: u8, c: u8) -> Option<Seq<u8>> {
    if is_d(a) && is_d(b) && is_d(c) {
        Some(seq![byte0(a, b), byte1(b, c)])
    } else {
        None
    }
}

pub open spec fn decode_group(a: u8, b: u8, c: u8, e: u8) -> Option<Seq<u8>> {
    if is_d(a) && is_d(b) && is_d(c) && is_d(e) {
        Some(seq![byte0(a, b), byte1(b, c), byte2(c, e)])
    } else {
        None
    }
}

/// The final four characters: `=` padding is admitted here and only here.
pub open spec fn decode_last4(a: u8, b: u8, c: u8, e: u8) -> Option<Seq<u8>> {
    if e == 61 {
        if c == 61 {
            decode_tail2(a, b)
        } else {
            decode_tail3(a, b, c)
        }
    } else {
        decode_group(a, b, c, e)
    }
}

/// Base64 decoding of a whole character sequence: `None` on any malformed
/// input, otherwise the decoded bytes.
pub open spec fn spec_decode(s: Seq<u8>) -> Option<Seq<u8>>
    decreases s.len(),
{
    if s.len() == 0 {
        Some(Seq::empty())
    } else if s.len() == 1 {
        None
    } else if s.len() == 2 {
        decode_tail2(s[0], s[1])
    } else if s.len() == 3 {
        decode_tail3(s[0], s[1], s[2])
    } else if s.len() == 4 {
        decode_last4(s[0], s[1], s[2], s[3])
    } else {
        match decode_group(s[0], s[1], s[2], s[3]) {
            None => None,
            Some(head) => match spec_decode(s.skip(4)) {
                None => None,
                Some(t) => Some(head + t),
            },
        }
    }
}

/// Base64 encoding, padded with `=` to full four-character groups.
pub open spec fn spec_encode(s: Seq<u8>) -> Seq<u8>
    decreases s.len(),
{
    if s.len() == 0 {
        Seq::empty()
    } else if s.len() == 1 {
        seq![ec(s[0] >> 2), ec((s[0] & 3) << 4), 61u8, 61u8]
    } else if s.len() == 2 {
        seq![ec(s[0] >> 2), ec(((s[0] & 3) << 4) | (s[1] >> 4)), ec((s[1] & 15) << 2), 61u8]
    } else {
        seq![
            ec(s[0] >> 2),
            ec(((s[0] & 3) << 4) | (s[1] >> 4)),
            ec(((s[1] & 15) << 2) | (s[2] >> 6)),
            ec(s[2] & 63),
        ] + spec_encode(s.skip(3))
    }
}

/// Prepend `a` to a decode result.
pub open spec fn opt_prepend(a: Seq<u8>, r: Option<Seq<u8>>) -> Option<Seq<u8>> {
    match r {
        Some(t) => Some(a + t),
        None => None,
    }
}

proof fn lemma_opt_prepend_empty(r: Option<Seq<u8>>)
    ensures
        opt_prepend(Seq::empty(), r) == r,
{
    match r {
        Some(t) => {
            assert(Seq::empty() + t =~= t);
        },
        None => {},
    }
}

proof fn lemma_opt_prepend_assoc(a: Seq<u8>, b: Seq<u8>, r: Option<Seq<u8>>)
    ensures
        opt_prepend(a, opt_prepend(b, r)) == opt_prepend(a + b, r),
{
    match r {
        Some(t) => {
            assert(a + (b + t) =~= (a + b) + t);
        },
        None => {},
    }
}

/// The value of an alphabet character, or `None` outside the alphabet.
fn digit_val(b: u8) -> (r: Option<u8>)
    ensures
        match r {
            Some(v) => is_d(b) && v == d(b) && v < 64,
            None => !is_d(b),
        },
{
    if 65 <= b && b <= 90 {
        Some(b - 65)
    } else if 97 <= b && b <= 122 {
        Some(b - 71)
    } else if 48 <= b && b <= 57 {
        Some(b + 4)
    } else if b == 43 {
        Some(62)
    } else if b == 47 {
        Some(63)
    } else {
        None
    }
}

/// The alphabet character of a six-bit value.
fn encode_char(v: u8) -> (r: u8)
    requires
        v < 64,
    ensures
        r == ec(v),
{
    if v < 26 {
        65 + v
    } else if v < 52 {
        71 + v
    } else if v < 62 {
        v - 4
    } else if v == 62 {
        43
    } else {
        47
    }
}

/// Decodes base64 `s`; `None` exactly where `spec_decode` rejects.
pub fn b64_decode(s: &Vec<u8>) -> (r: Option<Vec<u8>>)
    ensures
        match r {
            Some(v) => spec_decode(s@) == Some(v@),
            None => spec_decode(s@) == None::<Seq<u8>>,
        },
{
    let mut out: Vec<u8> = Vec::new();
    let mut i: usize = 0;
    proof {
        lemma_opt_prepend_empty(spec_decode(s@));
        assert(s@.skip(0) =~= s@);
    }
    while s.len() - i > 4
        invariant
            i <= s.len(),
            spec_decode(s@) == opt_prepend(out@, spec_decode(s@.skip(i as int))),
        decreases s.len() - i,
    {
        let ghost rem = s@.skip(i as int);
        let va = digit_val(s[i]);
        let vb = digit_val(s[i + 1]);
        let vc = digit_val(s[i + 2]);
        let ve = digit_val(s[i + 3]);
        match (va, vb, vc, ve) {
            (Some(va), Some(vb), Some(vc), Some(ve)) => {
                let ghost out0 = out@;
                out.push((va << 2) | (vb >> 4));
                out.push(((vb & 15) << 4) | (vc >> 2));
                out.push(((vc & 3) << 6) | ve);
                proof {
                    let head = seq![byte0(rem[0], rem[1]), byte1(rem[1], rem[2]), byte2(rem[2], rem[3])];
                    assert(out@ =~= out0 + head);
                    assert(spec_decode(rem) == opt_prepend(head, spec_decode(rem.skip(4))));
                    lemma_opt_prepend_assoc(out0, head, spec_decode(rem.skip(4)));
                    assert(rem.skip(4) =~= s@.skip(i + 4));
                }
                i += 4;
            },
            _ => {
                proof {
                    assert(spec_decode(rem) == None::<Seq<u8>>);
                }
                return None;
            },
        }
    }
    let ghost rem = s@.skip(i as int);
    let n = s.len() - i;
    if n == 0 {
        proof {
            assert(rem =~= Seq::<u8>::empty());
            assert(out@ + Seq::<u8>::empty() =~= out@);
        }
        return Some(out);
    }
    if n == 1 {
        return None;
    }
    let a = s[i];
    let b = s[i + 1];
    if n == 2 {
        match (digit_val(a), digit_val(b)) {
            (Some(va), Some(vb)) => {
                let ghost out0 = out@;
                out.push((va << 2) | (vb >> 4));
                proof {
                    assert(out@ =~= out0 + seq![byte0(a, b)]);
                }
                return Some(out);
            },
            _ => {
                return None;
            },
        }
    }
    let c = s[i + 2];
    if n == 3 {
        match (digit_val(a), digit_val(b), digit_val(c)) {
            (Some(va), Some(vb), Some(vc)) => {
                let ghost out0 = out@;
                out.push((va << 2) | (vb >> 4));
                out.push(((vb & 15) << 4) | (vc >> 2));
                proof {
                    assert(out@ =~= out0 + seq![byte0(a, b), byte1(b, c)]);
                }
                return Some(out);
            },
            _ => {
                return None;
            },
        }
    }
    let e = s[i + 3];
    if e == 61 {
        if c == 61 {
            match (digit_val(a), digit_val(b)) {
                (Some(va), Some(vb)) => {
                    let ghost out0 = out@;
                    out.push((va << 2) | (vb >> 4));
                    proof {
                        assert(out@ =~= out0 + seq![byte0(a, b)]);
                    }
                    Some(out)
                },
                _ => None,
            }
        } else {
            match (digit_val(a), digit_val(b), digit_val(c)) {
                (Some(va), Some(vb), Some(vc)) => {
                    let ghost out0 = out@;
                    out.push((va << 2) | (vb >> 4));
                    out.push(((vb & 15) << 4) | (vc >> 2));
                    proof {
                        assert(out@ =~= out0 + seq![byte0(a, b), byte1(b, c)]);
                    }
                    Some(out)
                },
                _ => None,
            }
        }
    } else {
        match (digit_val(a), digit_val(b), digit_val(c), digit_val(e)) {
            (Some(va), Some(vb), Some(vc), Some(ve)) => {
                let ghost out0 = out@;
                out.push((va << 2) | (vb >> 4));
                out.push(((vb & 15) << 4) | (vc >> 2));
                out.push(((vc & 3) << 6) | ve);
                proof {
                    assert(out@ =~= out0 + seq![byte0(a, b), byte1(b, c), byte2(c, e)]);
                }
                Some(out)
            },
            _ => None,
        }
    }
}

/// Encodes `s` as padded base64.
pub fn b64_encode(s: &Vec<u8>) -> (r: Vec<u8>)
    ensures
        r@ == spec_encode(s@),
{
    let mut out: Vec<u8> = Vec::new();
    let mut i: usize = 0;
    proof {
        assert(s@.skip(0) =~= s@);
        assert(Seq::<u8>::empty() + spec_encode(s@) =~= spec_encode(s@));
    }
    while s.len() - i >= 3
        invariant
            i <= s.len(),
            out@ + spec_encode(s@.skip(i as int)) == spec_encode(s@),
        decreases s.len() - i,
    {
        let ghost rem = s@.skip(i as int);
        let b0 = s[i];
        let b1 = s[i + 1];
        let b2 = s[i + 2];
        let ghost out0 = out@;
        proof {
            assert(b0 >> 2 < 64 && ((b0 & 3) << 4) | (b1 >> 4) < 64 && ((b1 & 15) << 2) | (b2 >> 6)
                < 64 && b2 & 63 < 64) by (bit_vector);
        }
        out.push(encode_char(b0 >> 2));
        out.push(encode_char(((b0 & 3) << 4) | (b1 >> 4)));
        out.push(encode_char(((b1 & 15) << 2) | (b2 >> 6)));
        out.push(encode_char(b2 & 63));
        proof {
            let head = seq![
                ec(rem[0] >> 2),
                ec(((rem[0] & 3) << 4) | (rem[1] >> 4)),
                ec(((rem[1] & 15) << 2) | (rem[2] >> 6)),
                ec(rem[2] & 63),
            ];
            assert(out@ =~= out0 + head);
            assert(spec_encode(rem) == head + spec_encode(rem.skip(3)));
            assert(rem.skip(3) =~= s@.skip(i + 3));
            assert(out0 + (head + spec_encode(rem.skip(3))) =~= (out0 + head) + spec_encode(
                rem.skip(3),
            ));
        }
        i += 3;
    }
    let ghost rem = s@.skip(i as int);
    let n = s.len() - i;
    if n == 1 {
        let b0 = s[i];
        let ghost out0 = out@;
        proof {
            assert(b0 >> 2 < 64 && (b0 & 3) << 4 < 64) by (bit_vector);
        }
        out.push(encode_char(b0 >> 2));
        out.push(encode_char((b0 & 3) << 4));
        out.push(61);
        out.push(61);
        proof {
            assert(out@ =~= out0 + seq![ec(rem[0] >> 2), ec((rem[0] & 3) << 4), 61u8, 61u8]);
        }
    } else if n == 2 {
        let b0 = s[i];
        let b1 = s[i + 1];
        let ghost out0 = out@;
        proof {
            assert(b0 >> 2 < 64 && ((b0 & 3) << 4) | (b1 >> 4) < 64 && (b1 & 15) << 2 < 64)
                by (bit_vector);
        }
        out.push(encode_char(b0 >> 2));
        out.push(encode_char(((b0 & 3) << 4) | (b1 >> 4)));
        out.push(encode_char((b1 & 15) << 2));
        out.push(61);
        proof {
            assert(out@ =~= out0 + seq![
                ec(rem[0] >> 2),
                ec(((rem[0] & 3) << 4) | (rem[1] >> 4)),
                ec((rem[1] & 15) << 2),
                61u8,
            ]);
        }
    } else {
        proof {
            assert(rem =~= Seq::<u8>::empty());
            assert(out@ + Seq::<u8>::empty() =~= out@);
        }
    }
    out
}

/// Every six-bit value encodes to an alphabet character, never to `=`,
/// and decodes back to itself.
pub proof fn lemma_digit_roundtrip(v: u8)
    ensures
        is_d(ec(v)),
        ec(v) != 61,
        v < 64 ==> d(ec(v)) == v,
{
}

proof fn lemma_unpack1(b0: u8)
    ensures
        (((b0 >> 2) << 2) | (((b0 & 3) << 4) >> 4)) == b0,
        b0 >> 2 < 64,
        (b0 & 3) << 4 < 64,
{
    assert((((b0 >> 2) << 2) | (((b0 & 3) << 4) >> 4)) == b0 && b0 >> 2 < 64 && (b0 & 3) << 4 < 64)
        by (bit_vector);
}

proof fn lemma_unpack2(b0: u8, b1: u8)
    ensures
        (((b0 >> 2) << 2) | ((((b0 & 3) << 4) | (b1 >> 4)) >> 4)) == b0,
        ((((((b0 & 3) << 4) | (b1 >> 4)) & 15) << 4) | (((b1 & 15) << 2) >> 2)) == b1,
        b0 >> 2 < 64,
        ((b0 & 3) << 4) | (b1 >> 4) < 64,
        (b1 & 15) << 2 < 64,
{
    assert((((b0 >> 2) << 2) | ((((b0 & 3) << 4) | (b1 >> 4)) >> 4)) == b0 && ((((((b0 & 3) << 4) | (
    b1 >> 4)) & 15) << 4) | (((b1 & 15) << 2) >> 2)) == b1 && b0 >> 2 < 64 && ((b0 & 3) << 4) | (b1
        >> 4) < 64 && (b1 & 15) << 2 < 64) by (bit_vector);
}

proof fn lemma_unpack3(b0: u8, b1: u8, b2: u8)
    ensures
        (((b0 >> 2) << 2) | ((((b0 & 3) << 4) | (b1 >> 4)) >> 4)) == b0,
        ((((((b0 & 3) << 4) | (b1 >> 4)) & 15) << 4) | ((((b1 & 15) << 2) | (b2 >> 6)) >> 2)) == b1,
        ((((((b1 & 15) << 2) | (b2 >> 6)) & 3) << 6) | (b2 & 63)) == b2,
        b0 >> 2 < 64,
        ((b0 & 3) << 4) | (b1 >> 4) < 64,
        ((b1 & 15) << 2) | (b2 >> 6) < 64,
        b2 & 63 < 64,
{
    assert((((b0 >> 2) << 2) | ((((b0 & 3) << 4) | (b1 >> 4)) >> 4)) == b0 && ((((((b0 & 3) << 4) | (
    b1 >> 4)) & 15) << 4) | ((((b1 & 15) << 2) | (b2 >> 6)) >> 2)) == b1 && ((((((b1 & 15) << 2) | (
    b2 >> 6)) & 3) << 6) | (b2 & 63)) == b2 && b0 >> 2 < 64 && ((b0 & 3) << 4) | (b1 >> 4) < 64 && ((
    b1 & 15) << 2) | (b2 >> 6) < 64 && b2 & 63 < 64) by (bit_vector);
}

/// The encoded form is nonempty whenever the input is, in whole groups of four.
pub proof fn lemma_encode_len(s: Seq<u8>)
    ensures
        s.len() == 0 ==> spec_encode(s).len() == 0,
        s.len() > 0 ==> spec_encode(s).len() >= 4,
    decreases s.len(),
{
    if s.len() >= 3 {
        lemma_encode_len(s.skip(3));
    }
}

/// Every character of an encoding is in the alphabet or is `=` padding.
pub proof fn lemma_encode_chars(s: Seq<u8>)
    ensures
        forall|j: int|
            0 <= j < spec_encode(s).len() ==> is_d(spec_encode(s)[j]) || spec_encode(s)[j] == 61,
    decreases s.len(),
{
    if s.len() == 0 {
    } else if s.len() == 1 {
        lemma_digit_roundtrip(s[0] >> 2);
        lemma_digit_roundtrip((s[0] & 3) << 4);
    } else if s.len() == 2 {
        lemma_digit_roundtrip(s[0] >> 2);
        lemma_digit_roundtrip(((s[0] & 3) << 4) | (s[1] >> 4));
        lemma_digit_roundtrip((s[1] & 15) << 2);
    } else {
        lemma_digit_roundtrip(s[0] >> 2);
        lemma_digit_roundtrip(((s[0] & 3) << 4) | (s[1] >> 4));
        lemma_digit_roundtrip(((s[1] & 15) << 2) | (s[2] >> 6));
        lemma_digit_roundtrip(s[2] & 63);
        lemma_encode_chars(s.skip(3));
        assert forall|j: int|
            0 <= j < spec_encode(s).len() implies is_d(spec_encode(s)[j]) || spec_encode(s)[j] == 61 by {
            if j >= 4 {
                assert(spec_encode(s)[j] == spec_encode(s.skip(3))[j - 4]);
            }
        }
    }
}

/// Decoding is a left inverse of encoding: every byte sequence survives a
/// round trip through the codec.
pub proof fn lemma_decode_encode(b: Seq<u8>)
    ensures
        spec_decode(spec_encode(b)) == Some(b),
    decreases b.len(),
{
    let e = spec_encode(b);
    if b.len() == 0 {
        assert(Seq::<u8>::empty() =~= b);
    } else if b.len() == 1 {
        let v0 = b[0] >> 2;
        let v1 = (b[0] & 3) << 4;
        lemma_unpack1(b[0]);
        lemma_digit_roundtrip(v0);
        lemma_digit_roundtrip(v1);
        assert(e.len() == 4);
        assert(byte0(ec(v0), ec(v1)) == b[0]);
        assert(seq![b[0]] =~= b);
    } else if b.len() == 2 {
        let v0 = b[0] >> 2;
        let v1 = ((b[0] & 3) << 4) | (b[1] >> 4);
        let v2 = (b[1] & 15) << 2;
        lemma_unpack2(b[0], b[1]);
        lemma_digit_roundtrip(v0);
        lemma_digit_roundtrip(v1);
        lemma_digit_roundtrip(v2);
        assert(e.len() == 4);
        assert(byte0(ec(v0), ec(v1)) == b[0]);
        assert(byte1(ec(v1), ec(v2)) == b[1]);
        assert(seq![b[0], b[1]] =~= b);
    } else {
        let v0 = b[0] >> 2;
        let v1 = ((b[0] & 3) << 4) | (b[1] >> 4);
        let v2 = ((b[1] & 15) << 2) | (b[2] >> 6);
        let v3 = b[2] & 63;
        lemma_unpack3(b[0], b[1], b[2]);
        lemma_digit_roundtrip(v0);
        lemma_digit_roundtrip(v1);
        lemma_digit_roundtrip(v2);
        lemma_digit_roundtrip(v3);
        assert(byte0(ec(v0), ec(v1)) == b[0]);
        assert(byte1(ec(v1), ec(v2)) == b[1]);
        assert(byte2(ec(v2), ec(v3)) == b[2]);
        let rest = spec_encode(b.skip(3));
        lemma_encode_len(b.skip(3));
        if b.len() == 3 {
            assert(e.len() == 4);
            assert(seq![b[0], b[1], b[2]] =~= b);
        } else {
            assert(e.len() >= 8);
            lemma_decode_encode(b.skip(3));
            assert(e.skip(4) =~= rest);
            assert(seq![b[0], b[1], b[2]] + b.skip(3) =~= b);
        }
    }
}

} // verus!
