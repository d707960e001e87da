//! Digest verification: recomputes the supported hashes over the body and
//! compares them against the parts parsed from the header.
//!
//! Matching policy is OR across parts: any supported-algorithm part whose
//! decoded value equals the recomputed digest proves integrity. A header
//! whose parts all name unsupported algorithms is reported distinctly from
//! one whose digests fail to match.

use vstd::prelude::*;

use sha2::Digest;

use crate::codec::{AlgorithmTag, DigestPart, ParseError, SpecPart, TagView, lemma_parse_header_value,
    parts_view, spec_header_value, spec_parse};
use crate::util::bytes_eq;

verus! {

/// The SHA-256 digest of a byte sequence, named but not defined here.
pub uninterp spec fn sha256_of(data: Seq<u8>) -> Seq<u8>;

/// The SHA-512 digest of a byte sequence, named but not defined here.
pub uninterp spec fn sha512_of(data: Seq<u8>) -> Seq<u8>;

/// Relies on `sha2::Sha256::digest`: the digest depends on the input bytes
/// alone and is 32 bytes long.
#[verifier::external_body]
fn sha256(data: &Vec<u8>) -> (r: Vec<u8>)
    ensures
        r@ == sha256_of(data@),
        r@.len() == 32,
{
    sha2::Sha256::digest(data.as_slice()).to_vec()
}

/// Relies on `sha2::Sha512::digest`: the digest depends on the input bytes
/// alone and is 64 bytes long.
#[verifier::external_body]
fn sha512(data: &Vec<u8>) -> (r: Vec<u8>)
    ensures
        r@ == sha512_of(data@),
        r@.len() == 64,
{
    sha2::Sha512::digest(data.as_slice()).to_vec()
}

/// Which of the known algorithms this verifier is configured to compute.
#[derive(Clone, Copy, Debug, PartialEq, Eq, Structural)]
pub struct SupportedAlgorithms {
    pub sha256: bool,
    pub sha512: bool,
}

impl SupportedAlgorithms {
    /// Every known algorithm enabled.
    pub fn all() -> (r: Self)
        ensures
            r == (SupportedAlgorithms { sha256: true, sha512: true }),
    {
        SupportedAlgorithms { sha256: true, sha512: true }
    }
}

/// How a request fared against its `Digest` header.
#[derive(Clone, Copy, Debug, PartialEq, Eq, Structural)]
pub enum VerificationOutcome {
    Verified,
    MissingHeader,
    MalformedHeader,
    Mismatch,
    NoSupportedAlgorithm,
}

/// Whether the verifier can recompute digests under `t`.
pub open spec fn is_supported(t: TagView, sup: SupportedAlgorithms) -> bool {
    match t {
        TagView::Sha256 => sup.sha256,
        TagView::Sha512 => sup.sha512,
        TagView::Unsupported(_) => false,
    }
}

/// The digest the verifier computes for a supported tag.
pub open spec fn spec_digest(t: TagView, body: Seq<u8>) -> Seq<u8> {
    match t {
        TagView::Sha256 => sha256_of(body),
        TagView::Sha512 => sha512_of(body),
        TagView::Unsupported(_) => Seq::empty(),
    }
}

/// Whether one part's algorithm is supported.
pub open spec fn part_supported(p: SpecPart, sup: SupportedAlgorithms) -> bool {
    is_supported(p.alg, sup)
}

/// Whether one part proves integrity against the computed digests: its
/// algorithm is supported and its value equals that digest, byte for byte.
pub open spec fn part_matches(d256: Seq<u8>, d512: Seq<u8>, sup: SupportedAlgorithms, p: SpecPart) -> bool {
    match p.alg {
        TagView::Sha256 => sup.sha256 && p.value == d256,
        TagView::Sha512 => sup.sha512 && p.value == d512,
        TagView::Unsupported(_) => false,
    }
}

/// The verification outcome over already-computed digests: no supported part
/// at all is reported as such; otherwise any single match suffices.
pub open spec fn spec_outcome(d256: Seq<u8>, d512: Seq<u8>, parts: Seq<SpecPart>, sup: SupportedAlgorithms) -> VerificationOutcome {
    if !(exists|i: int| 0 <= i < parts.len() && #[trigger] part_supported(parts[i], sup)) {
        VerificationOutcome::NoSupportedAlgorithm
    } else if exists|i: int| 0 <= i < parts.len() && #[trigger] part_matches(d256, d512, sup, parts[i]) {
        VerificationOutcome::Verified
    } else {
        VerificationOutcome::Mismatch
    }
}

/// The verification outcome of a body against parsed parts.
pub open spec fn spec_verify(body: Seq<u8>, parts: Seq<SpecPart>, sup: SupportedAlgorithms) -> VerificationOutcome {
    spec_outcome(sha256_of(body), sha512_of(body), parts, sup)
}

/// Decides the outcome once the digests are in hand; the comparison is
/// exact-length and exact-byte.
pub fn outcome_for_digests(d256: &Vec<u8>, d512: &Vec<u8>, parts: &Vec<DigestPart>, sup: &SupportedAlgorithms) -> (r: VerificationOutcome)
    ensures
        r == spec_outcome(d256@, d512@, parts_view(parts@), *sup),
{
    let ghost pv = parts_view(parts@);
    let mut any_supported = false;
    let mut k: usize = 0;
    while k < parts.len()
        invariant
            k <= parts@.len(),
            pv == parts_view(parts@),
            pv.len() == parts@.len(),
            any_supported == (exists|i: int| 0 <= i < k && #[trigger] part_supported(pv[i], *sup)),
            forall|i: int| 0 <= i < k ==> !(#[trigger] part_matches(d256@, d512@, *sup, pv[i])),
        decreases parts@.len() - k,
    {
        let p = &parts[k];
        proof {
            assert(pv[k as int] == p@);
        }
        match &p.algorithm {
            AlgorithmTag::Sha256 => {
                if sup.sha256 {
                    if bytes_eq(&p.encoded_value, d256) {
                        proof {
                            assert(part_matches(d256@, d512@, *sup, pv[k as int]));
                            assert(part_supported(pv[k as int], *sup));
                        }
                        return VerificationOutcome::Verified;
                    }
                    any_supported = true;
                    proof {
                        assert(part_supported(pv[k as int], *sup));
                    }
                }
            },
            AlgorithmTag::Sha512 => {
                if sup.sha512 {
                    if bytes_eq(&p.encoded_value, d512) {
                        proof {
                            assert(part_matches(d256@, d512@, *sup, pv[k as int]));
                            assert(part_supported(pv[k as int], *sup));
                        }
                        return VerificationOutcome::Verified;
                    }
                    any_supported = true;
                    proof {
                        assert(part_supported(pv[k as int], *sup));
                    }
                }
            },
            AlgorithmTag::Unsupported(_) => {},
        }
        k += 1;
    }
    if any_supported {
        VerificationOutcome::Mismatch
    } else {
        VerificationOutcome::NoSupportedAlgorithm
    }
}

/// Verifies body bytes against parsed header parts: computes the supported
/// digests over the body and compares each supported part against its own.
pub fn verify(body: &Vec<u8>, parts: &Vec<DigestPart>, sup: &SupportedAlgorithms) -> (r: VerificationOutcome)
    ensures
        r == spec_verify(body@, parts_view(parts@), *sup),
{
    let d256 = sha256(body);
    let d512 = sha512(body);
    outcome_for_digests(&d256, &d512, parts, sup)
}

/// Computes the digest of `body` under a known algorithm, the value the
/// outbound signing side would put in a header; `None` for an unsupported tag.
pub fn compute_digest(alg: &AlgorithmTag, body: &Vec<u8>) -> (r: Option<Vec<u8>>)
    ensures
        alg@ is Sha256 ==> (r matches Some(v) && v@ == sha256_of(body@)),
        alg@ is Sha512 ==> (r matches Some(v) && v@ == sha512_of(body@)),
        alg@ is Unsupported ==> r is None,
{
    match alg {
        AlgorithmTag::Sha256 => Some(sha256(body)),
        AlgorithmTag::Sha512 => Some(sha512(body)),
        AlgorithmTag::Unsupported(_) => None,
    }
}

/// OR semantics across parts: one matching supported part settles the
/// outcome as `Verified`, whatever else the header carries.
pub proof fn lemma_any_match_suffices(d256: Seq<u8>, d512: Seq<u8>, parts: Seq<SpecPart>, sup: SupportedAlgorithms, i: int)
    requires
        0 <= i < parts.len(),
        part_matches(d256, d512, sup, parts[i]),
    ensures
        spec_outcome(d256, d512, parts, sup) == VerificationOutcome::Verified,
{
    assert(part_supported(parts[i], sup));
}

/// A header whose parts all name unsupported algorithms yields
/// `NoSupportedAlgorithm`, never `Mismatch`.
pub proof fn lemma_unsupported_only(d256: Seq<u8>, d512: Seq<u8>, parts: Seq<SpecPart>, sup: SupportedAlgorithms)
    requires
        forall|i: int| 0 <= i < parts.len() ==> !(#[trigger] part_supported(parts[i], sup)),
    ensures
        spec_outcome(d256, d512, parts, sup) == VerificationOutcome::NoSupportedAlgorithm,
{
}

/// Tamper detection, as far as byte comparison carries it: when at least one
/// part is supported but every supported part's value differs from the
/// digest computed over the (possibly altered) body, the outcome is
/// `Mismatch` — the comparison is exact, never a partial-prefix acceptance.
pub proof fn lemma_mismatch(d256: Seq<u8>, d512: Seq<u8>, parts: Seq<SpecPart>, sup: SupportedAlgorithms)
    requires
        exists|i: int| 0 <= i < parts.len() && #[trigger] part_supported(parts[i], sup),
        forall|i: int| 0 <= i < parts.len() ==> !(#[trigger] part_matches(d256, d512, sup, parts[i])),
    ensures
        spec_outcome(d256, d512, parts, sup) == VerificationOutcome::Mismatch,
{
}

/// Round trip: computing a digest of a body under a supported algorithm,
/// serializing it as a header value, parsing that header back and verifying
/// it against the same body always yields `Verified`.
pub proof fn lemma_round_trip(t: TagView, body: Seq<u8>, sup: SupportedAlgorithms)
    requires
        is_supported(t, sup),
    ensures
        ({
            let header = spec_header_value(t, spec_digest(t, body));
            &&& spec_parse(header) == Ok::<Seq<SpecPart>, ParseError>(
                seq![SpecPart { alg: t, value: spec_digest(t, body) }],
            )
            &&& spec_verify(body, seq![SpecPart { alg: t, value: spec_digest(t, body) }], sup)
                == VerificationOutcome::Verified
        }),
{
    lemma_parse_header_value(t, spec_digest(t, body));
    let p = SpecPart { alg: t, value: spec_digest(t, body) };
    assert(part_matches(sha256_of(body), sha512_of(body), sup, p));
    lemma_any_match_suffices(sha256_of(body), sha512_of(body), seq![p], sup, 0);
}

} // verus!
