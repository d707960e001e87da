//! The `Digest` header codec: grammar of a comma-separated list of
//! `algorithm=base64value` pairs, tolerant of whitespace and of case
//! variance in algorithm names.
//!
//! A segment whose value fails to decode is dropped on its own; the header
//! fails to parse only when it is empty or when every segment is malformed.

use vstd::prelude::*;

use crate::b64::{b64_decode, b64_encode, lemma_decode_encode, lemma_encode_chars, spec_decode,
    spec_encode, is_d};
use crate::util::{ascii_lower, find_byte, find_from, is_ws, lemma_ascii_lower_idempotent,
    lemma_find_byte_char, lemma_trim_nows, subvec, to_lower, trim, trim_vec};

verus! {

/// An algorithm name as carried by a header: the two names the verifier can
/// recompute, or any other token, preserved rather than dropped.
#[derive(Clone, Debug, PartialEq, Eq)]
pub enum AlgorithmTag {
    Sha256,
    Sha512,
    Unsupported(Vec<u8>),
}

/// Mathematical image of `AlgorithmTag`.
pub enum TagView {
    Sha256,
    Sha512,
    Unsupported(Seq<u8>),
}

impl View for AlgorithmTag {
    type V = TagView;

    open spec fn view(&self) -> TagView {
        match self {
            AlgorithmTag::Sha256 => TagView::Sha256,
            AlgorithmTag::Sha512 => TagView::Sha512,
            AlgorithmTag::Unsupported(name) => TagView::Unsupported(name@),
        }
    }
}

/// One parsed pair of a `Digest` header: the algorithm tag and the decoded
/// digest bytes the sender asserted.
#[derive(Clone, Debug, PartialEq, Eq)]
pub struct DigestPart {
    pub algorithm: AlgorithmTag,
    pub encoded_value: Vec<u8>,
}

/// Mathematical image of `DigestPart`.
pub struct SpecPart {
    pub alg: TagView,
    pub value: Seq<u8>,
}

impl View for DigestPart {
    type V = SpecPart;

    open spec fn view(&self) -> SpecPart {
        SpecPart { alg: self.algorithm@, value: self.encoded_value@ }
    }
}

/// The images of a sequence of parsed parts.
pub open spec fn parts_view(ps: Seq<DigestPart>) -> Seq<SpecPart> {
    ps.map_values(|p: DigestPart| p@)
}

/// Why a header value failed to parse: it was absent or empty, or no
/// segment of it was well-formed.
#[derive(Clone, Copy, Debug, PartialEq, Eq, Structural)]
pub enum ParseError {
    Empty,
    NoValidParts,
}

/// The bytes of the token `sha-256`.
pub open spec fn sha256_token() -> Seq<u8> {
    seq![115u8, 104u8, 97u8, 45u8, 50u8, 53u8, 54u8]
}

/// The bytes of the token `sha-512`.
pub open spec fn sha512_token() -> Seq<u8> {
    seq![115u8, 104u8, 97u8, 45u8, 53u8, 49u8, 50u8]
}

/// Case-insensitive classification of an algorithm token.
pub open spec fn tag_of(tok: Seq<u8>) -> TagView {
    if ascii_lower(tok) == sha256_token() {
        TagView::Sha256
    } else if ascii_lower(tok) == sha512_token() {
        TagView::Sha512
    } else {
        TagView::Unsupported(tok)
    }
}

/// One segment of the header: algorithm token before the first `=`, base64
/// value after it, whitespace trimmed on both sides. `None` where the
/// segment is malformed.
pub open spec fn parse_segment(seg: Seq<u8>) -> Option<SpecPart> {
    let i = find_byte(seg, 61) as int;
    if i >= seg.len() {
        None
    } else {
        let tok = trim(seg.take(i));
        let val = trim(seg.skip(i + 1));
        if tok.len() == 0 {
            None
        } else {
            match spec_decode(val) {
                None => None,
                Some(bytes) => Some(SpecPart { alg: tag_of(tok), value: bytes }),
            }
        }
    }
}

/// All well-formed parts of the comma-separated header value, in order.
pub open spec fn spec_parse_parts(s: Seq<u8>) -> Seq<SpecPart>
    decreases s.len(),
{
    let i = find_byte(s, 44) as int;
    let head = match parse_segment(s.take(i)) {
        Some(p) => seq![p],
        None => Seq::empty(),
    };
    if i >= s.len() {
        head
    } else {
        head + spec_parse_parts(s.skip(i + 1))
    }
}

/// The parse of a whole header value: empty input and input with no valid
/// segment are the two failures; success carries a non-empty part list.
pub open spec fn spec_parse(s: Seq<u8>) -> Result<Seq<SpecPart>, ParseError> {
    if s.len() == 0 {
        Err(ParseError::Empty)
    } else {
        let ps = spec_parse_parts(s);
        if ps.len() == 0 {
            Err(ParseError::NoValidParts)
        } else {
            Ok(ps)
        }
    }
}

/// Classifies a token, case-insensitively, against the known names.
pub fn classify_token(tok: Vec<u8>) -> (t: AlgorithmTag)
    ensures
        t@ == tag_of(tok@),
{
    let l = to_lower(&tok);
    proof {
        assert(sha256_token().len() == 7 && sha256_token()[0] == 115 && sha256_token()[1] == 104
            && sha256_token()[2] == 97 && sha256_token()[3] == 45 && sha256_token()[4] == 50
            && sha256_token()[5] == 53 && sha256_token()[6] == 54);
        assert(sha512_token().len() == 7 && sha512_token()[0] == 115 && sha512_token()[1] == 104
            && sha512_token()[2] == 97 && sha512_token()[3] == 45 && sha512_token()[4] == 53
            && sha512_token()[5] == 49 && sha512_token()[6] == 50);
    }
    if l.len() == 7 && l[0] == 115 && l[1] == 104 && l[2] == 97 && l[3] == 45 {
        if l[4] == 50 && l[5] == 53 && l[6] == 54 {
            proof {
                assert(l@ =~= sha256_token());
            }
            return AlgorithmTag::Sha256;
        }
        if l[4] == 53 && l[5] == 49 && l[6] == 50 {
            proof {
                assert(l@ =~= sha512_token());
            }
            return AlgorithmTag::Sha512;
        }
    }
    proof {
        if l@ == sha256_token() || l@ == sha512_token() {
            assert(false);
        }
    }
    AlgorithmTag::Unsupported(tok)
}

/// Parses one comma-free segment of the header value.
pub fn parse_segment_vec(seg: &Vec<u8>) -> (r: Option<DigestPart>)
    ensures
        match r {
            Some(p) => parse_segment(seg@) == Some(p@),
            None => parse_segment(seg@) == None::<SpecPart>,
        },
{
    let i = find_from(seg, 0, 61);
    proof {
        assert(seg@.skip(0) =~= seg@);
    }
    if i == seg.len() {
        return None;
    }
    let tok_raw = subvec(seg, 0, i);
    let tok = trim_vec(&tok_raw);
    let val_raw = subvec(seg, i + 1, seg.len());
    let val = trim_vec(&val_raw);
    proof {
        assert(seg@.subrange(0, i as int) =~= seg@.take(i as int));
        assert(seg@.subrange(i + 1, seg@.len() as int) =~= seg@.skip(i + 1));
    }
    if tok.len() == 0 {
        return None;
    }
    match b64_decode(&val) {
        None => None,
        Some(bytes) => Some(DigestPart { algorithm: classify_token(tok), encoded_value: bytes }),
    }
}

/// Parses a whole `Digest` header value into its well-formed parts.
///
/// Fails with `ParseError::Empty` on an empty value and with
/// `ParseError::NoValidParts` when every segment is malformed; a success
/// always carries at least one part.
pub fn parse_digest_header(h: &Vec<u8>) -> (r: Result<Vec<DigestPart>, ParseError>)
    ensures
        match r {
            Ok(parts) => parts@.len() > 0 && spec_parse(h@) == Ok::<Seq<SpecPart>, ParseError>(
                parts_view(parts@),
            ),
            Err(e) => spec_parse(h@) == Err::<Seq<SpecPart>, ParseError>(e),
        },
{
    if h.len() == 0 {
        return Err(ParseError::Empty);
    }
    let mut acc: Vec<DigestPart> = Vec::new();
    let mut pos: usize = 0;
    let mut done = false;
    proof {
        assert(h@.skip(0) =~= h@);
        assert(parts_view(acc@) =~= Seq::<SpecPart>::empty());
        assert(Seq::<SpecPart>::empty() + spec_parse_parts(h@) =~= spec_parse_parts(h@));
    }
    while !done
        invariant
            pos <= h@.len(),
            !done ==> spec_parse_parts(h@) == parts_view(acc@) + spec_parse_parts(
                h@.skip(pos as int),
            ),
            done ==> spec_parse_parts(h@) == parts_view(acc@),
        decreases h@.len() - pos + (if done { 0int } else { 1int }),
    {
        let ghost rem = h@.skip(pos as int);
        let ghost acc0 = acc@;
        let i = find_from(h, pos, 44);
        let seg = subvec(h, pos, i);
        proof {
            assert(seg@ =~= rem.take(i - pos));
        }
        let ghost head = match parse_segment(seg@) {
            Some(p) => seq![p],
            None => Seq::<SpecPart>::empty(),
        };
        match parse_segment_vec(&seg) {
            Some(p) => {
                let ghost pv = p@;
                acc.push(p);
                proof {
                    assert(parts_view(acc@) =~= parts_view(acc0) + head);
                }
            },
            None => {
                proof {
                    assert(parts_view(acc@) =~= parts_view(acc0) + head);
                }
            },
        }
        if i == h.len() {
            done = true;
            proof {
                assert(spec_parse_parts(rem) == head);
            }
        } else {
            proof {
                assert(spec_parse_parts(rem) == head + spec_parse_parts(rem.skip(i - pos + 1)));
                assert(rem.skip(i - pos + 1) =~= h@.skip(i + 1));
                assert((parts_view(acc0) + head) + spec_parse_parts(h@.skip(i + 1)) =~= parts_view(
                    acc0,
                ) + (head + spec_parse_parts(h@.skip(i + 1))));
            }
            pos = i + 1;
        }
    }
    if acc.len() == 0 {
        proof {
            assert(parts_view(acc@) =~= Seq::<SpecPart>::empty());
        }
        Err(ParseError::NoValidParts)
    } else {
        proof {
            assert(parts_view(acc@).len() == acc@.len());
        }
        Ok(acc)
    }
}

/// The canonical token of an algorithm tag.
pub open spec fn token_bytes(t: TagView) -> Seq<u8> {
    match t {
        TagView::Sha256 => sha256_token(),
        TagView::Sha512 => sha512_token(),
        TagView::Unsupported(name) => name,
    }
}

/// A single `algorithm=base64value` header value for `digest`.
pub open spec fn spec_header_value(t: TagView, digest: Seq<u8>) -> Seq<u8> {
    token_bytes(t) + seq![61u8] + spec_encode(digest)
}

/// Serializes one digest as a `Digest` header value, the form the outbound
/// signing side produces.
pub fn make_header_value(alg: &AlgorithmTag, digest: &Vec<u8>) -> (r: Vec<u8>)
    ensures
        r@ == spec_header_value(alg@, digest@),
{
    let mut out: Vec<u8> = Vec::new();
    match alg {
        AlgorithmTag::Sha256 => {
            out.push(115);
            out.push(104);
            out.push(97);
            out.push(45);
            out.push(50);
            out.push(53);
            out.push(54);
            proof {
                assert(out@ =~= token_bytes(alg@));
            }
        },
        AlgorithmTag::Sha512 => {
            out.push(115);
            out.push(104);
            out.push(97);
            out.push(45);
            out.push(53);
            out.push(49);
            out.push(50);
            proof {
                assert(out@ =~= token_bytes(alg@));
            }
        },
        AlgorithmTag::Unsupported(name) => {
            let mut i: usize = 0;
            while i < name.len()
                invariant
                    i <= name@.len(),
                    out@ == name@.take(i as int),
                decreases name@.len() - i,
            {
                out.push(name[i]);
                proof {
                    assert(out@ =~= name@.take(i + 1));
                }
                i += 1;
            }
            proof {
                assert(out@ =~= token_bytes(alg@));
            }
        },
    }
    let ghost tokb = out@;
    out.push(61);
    let e = b64_encode(digest);
    let mut i: usize = 0;
    while i < e.len()
        invariant
            i <= e@.len(),
            out@ == tokb + seq![61u8] + e@.take(i as int),
        decreases e@.len() - i,
    {
        out.push(e[i]);
        proof {
            assert(out@ =~= tokb + seq![61u8] + e@.take(i + 1));
        }
        i += 1;
    }
    proof {
        assert(out@ =~= tokb + seq![61u8] + e@);
        assert(e@.take(0int) =~= Seq::<u8>::empty());
        assert(tokb + seq![61u8] + e@.take(0int) =~= tokb.push(61u8));
    }
    out
}

/// A whole header value for a sequence of parts, the parts separated by
/// a comma and a space.
pub open spec fn spec_serialize(parts: Seq<SpecPart>) -> Seq<u8>
    decreases parts.len(),
{
    if parts.len() == 0 {
        Seq::empty()
    } else if parts.len() == 1 {
        spec_header_value(parts[0].alg, parts[0].value)
    } else {
        spec_header_value(parts[0].alg, parts[0].value) + seq![44u8, 32u8] + spec_serialize(
            parts.drop_first(),
        )
    }
}

/// What follows an already-serialized prefix: nothing, or a separator and
/// the remaining parts.
pub open spec fn spec_serialize_tail(parts: Seq<SpecPart>) -> Seq<u8> {
    if parts.len() == 0 {
        Seq::empty()
    } else {
        seq![44u8, 32u8] + spec_serialize(parts)
    }
}

/// Serializes a sequence of parts as one `Digest` header value.
pub fn serialize_parts(parts: &Vec<DigestPart>) -> (r: Vec<u8>)
    ensures
        r@ == spec_serialize(parts_view(parts@)),
{
    let ghost pv = parts_view(parts@);
    if parts.len() == 0 {
        proof {
            assert(pv =~= Seq::<SpecPart>::empty());
        }
        return Vec::new();
    }
    let first = &parts[0];
    proof {
        assert(pv[0] == parts@[0]@);
    }
    let mut out = make_header_value(&first.algorithm, &first.encoded_value);
    proof {
        if pv.len() > 1 {
            assert(pv.drop_first() =~= pv.skip(1));
        } else {
            assert(pv.skip(1) =~= Seq::<SpecPart>::empty());
            assert(out@ + Seq::<u8>::empty() =~= out@);
        }
    }
    let mut i: usize = 1;
    while i < parts.len()
        invariant
            1 <= i <= parts@.len(),
            pv == parts_view(parts@),
            pv.len() == parts@.len(),
            spec_serialize(pv) == out@ + spec_serialize_tail(pv.skip(i as int)),
        decreases parts@.len() - i,
    {
        let ghost out0 = out@;
        let ghost rem = pv.skip(i as int);
        let p = &parts[i];
        proof {
            assert(rem[0] == parts@[i as int]@);
        }
        out.push(44);
        out.push(32);
        let piece = make_header_value(&p.algorithm, &p.encoded_value);
        crate::util::extend_bytes(&mut out, &piece);
        proof {
            assert(out@ =~= out0 + seq![44u8, 32u8] + piece@);
            if rem.len() > 1 {
                assert(rem.drop_first() =~= pv.skip(i + 1));
                assert(out0 + (seq![44u8, 32u8] + (piece@ + (seq![44u8, 32u8] + spec_serialize(
                    pv.skip(i + 1),
                )))) =~= (out0 + seq![44u8, 32u8] + piece@) + (seq![44u8, 32u8] + spec_serialize(
                    pv.skip(i + 1),
                )));
            } else {
                assert(pv.skip(i + 1) =~= Seq::<SpecPart>::empty());
                assert(out0 + (seq![44u8, 32u8] + piece@) =~= out@);
                assert(out@ + Seq::<u8>::empty() =~= out@);
            }
        }
        i += 1;
    }
    proof {
        assert(pv.skip(i as int) =~= Seq::<SpecPart>::empty());
        assert(out@ + Seq::<u8>::empty() =~= out@);
    }
    out
}

/// Algorithm names are matched case-insensitively: a token and its
/// lower-cased form classify to the same supported algorithm.
pub proof fn lemma_case_insensitivity(tok: Seq<u8>)
    ensures
        tag_of(tok) is Sha256 <==> tag_of(ascii_lower(tok)) is Sha256,
        tag_of(tok) is Sha512 <==> tag_of(ascii_lower(tok)) is Sha512,
{
    lemma_ascii_lower_idempotent(tok);
}

/// Serializing a digest under a supported algorithm and parsing the result
/// back yields exactly that one part.
pub proof fn lemma_parse_header_value(t: TagView, digest: Seq<u8>)
    requires
        t is Sha256 || t is Sha512,
    ensures
        spec_parse(spec_header_value(t, digest)) == Ok::<Seq<SpecPart>, ParseError>(
            seq![SpecPart { alg: t, value: digest }],
        ),
{
    let tokb = token_bytes(t);
    let e = spec_encode(digest);
    let h = spec_header_value(t, digest);
    lemma_encode_chars(digest);
    assert(sha256_token().len() == 7 && sha256_token()[0] == 115 && sha256_token()[1] == 104
        && sha256_token()[2] == 97 && sha256_token()[3] == 45 && sha256_token()[4] == 50
        && sha256_token()[5] == 53 && sha256_token()[6] == 54);
    assert(sha512_token().len() == 7 && sha512_token()[0] == 115 && sha512_token()[1] == 104
        && sha512_token()[2] == 97 && sha512_token()[3] == 45 && sha512_token()[4] == 53
        && sha512_token()[5] == 49 && sha512_token()[6] == 50);
    assert(forall|j: int| 0 <= j < tokb.len() ==> tokb[j] != 44 && tokb[j] != 61 && !is_ws(
        tokb[j],
    ));
    assert(h.len() == tokb.len() + 1 + e.len());
    assert(forall|j: int| 0 <= j < tokb.len() ==> h[j] == tokb[j]);
    assert(h[tokb.len() as int] == 61);
    assert(forall|j: int| 0 <= j < e.len() ==> h[tokb.len() + 1 + j] == e[j]);
    assert(forall|j: int| 0 <= j < e.len() ==> is_d(e[j]) || e[j] == 61);
    assert(forall|b: u8| is_d(b) ==> b != 44 && !is_ws(b));
    // no comma anywhere in the header value
    assert(forall|j: int| 0 <= j < h.len() ==> h[j] != 44);
    lemma_find_byte_char(h, 44, h.len() as int);
    assert(h.take(h.len() as int) =~= h);
    assert(spec_parse_parts(h) == match parse_segment(h) {
        Some(p) => seq![p],
        None => Seq::<SpecPart>::empty(),
    });
    // the first `=` stands right after the token
    lemma_find_byte_char(h, 61, tokb.len() as int);
    assert(h.take(tokb.len() as int) =~= tokb);
    assert(h.skip(tokb.len() + 1 as int) =~= e);
    lemma_trim_nows(tokb);
    lemma_trim_nows(e);
    lemma_decode_encode(digest);
    // the canonical token is already lower-case and classifies to itself
    assert(ascii_lower(tokb) =~= tokb);
    if t is Sha256 {
        assert(tag_of(tokb) == TagView::Sha256);
    } else {
        assert(ascii_lower(tokb) != sha256_token()) by {
            assert(tokb[4] == 53 && sha256_token()[4] == 50);
        }
        assert(tag_of(tokb) == TagView::Sha512);
    }
    assert(parse_segment(h) == Some(SpecPart { alg: t, value: digest }));
    assert(h.len() > 0);
}

} // verus!
