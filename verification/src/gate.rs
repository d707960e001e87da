//! The pipeline stage: per request, short-circuit on a missing or empty
//! header before any body byte is read, otherwise buffer, parse, verify,
//! and either forward the buffered body or reject with a terminal response.
//!
//! The decision itself is a pure function of the header and the buffered
//! bytes; the host glue drives the stream and interprets the decision once.

use vstd::prelude::*;

use crate::buffer::BufferedBody;
use crate::codec::{parse_digest_header, spec_parse};
use crate::verify::{SupportedAlgorithms, VerificationOutcome, spec_verify};

verus! {

/// Why a request was rejected: the non-`Verified` verification outcomes,
/// plus the two failures that arise around body buffering.
#[derive(Clone, Copy, Debug, PartialEq, Eq, Structural)]
pub enum RejectKind {
    MissingHeader,
    MalformedHeader,
    Mismatch,
    NoSupportedAlgorithm,
    BodyTooLarge,
    BodyRead,
}

/// A terminal rejection response: a wire status and the failure class it
/// was mapped from, so diagnostics can tell the causes apart even where
/// status codes coincide.
#[derive(Clone, Copy, Debug, PartialEq, Eq, Structural)]
pub struct RejectionResponse {
    pub status: u16,
    pub kind: RejectKind,
}

/// The status code each failure class maps to.
pub open spec fn spec_status(k: RejectKind) -> u16 {
    match k {
        RejectKind::MissingHeader => 406,
        RejectKind::MalformedHeader => 400,
        RejectKind::Mismatch => 401,
        RejectKind::NoSupportedAlgorithm => 401,
        RejectKind::BodyTooLarge => 413,
        RejectKind::BodyRead => 500,
    }
}

/// The response each failure class maps to.
pub open spec fn spec_response(k: RejectKind) -> RejectionResponse {
    RejectionResponse { status: spec_status(k), kind: k }
}

/// The single exhaustive mapping from failure class to rejection response.
pub fn response_for(kind: RejectKind) -> (r: RejectionResponse)
    ensures
        r == spec_response(kind),
{
    match kind {
        RejectKind::MissingHeader => RejectionResponse { status: 406, kind },
        RejectKind::MalformedHeader => RejectionResponse { status: 400, kind },
        RejectKind::Mismatch => RejectionResponse { status: 401, kind },
        RejectKind::NoSupportedAlgorithm => RejectionResponse { status: 401, kind },
        RejectKind::BodyTooLarge => RejectionResponse { status: 413, kind },
        RejectKind::BodyRead => RejectionResponse { status: 500, kind },
    }
}

/// The message of the failure class.
pub open spec fn spec_message(k: RejectKind) -> Seq<char> {
    match k {
        RejectKind::MissingHeader => "digest header required"@,
        RejectKind::MalformedHeader => "malformed digest header"@,
        RejectKind::Mismatch => "digest does not match body"@,
        RejectKind::NoSupportedAlgorithm => "no supported digest algorithm"@,
        RejectKind::BodyTooLarge => "request body too large"@,
        RejectKind::BodyRead => "failed to read request body"@,
    }
}

impl RejectionResponse {
    /// A short human-readable description of the cause.
    pub fn message(&self) -> (m: &'static str)
        ensures
            m@ == spec_message(self.kind),
    {
        match self.kind {
            RejectKind::MissingHeader => "digest header required",
            RejectKind::MalformedHeader => "malformed digest header",
            RejectKind::Mismatch => "digest does not match body",
            RejectKind::NoSupportedAlgorithm => "no supported digest algorithm",
            RejectKind::BodyTooLarge => "request body too large",
            RejectKind::BodyRead => "failed to read request body",
        }
    }
}

/// What to do before the body is touched: read it, or answer already.
#[derive(Clone, Copy, Debug, PartialEq, Eq, Structural)]
pub enum HeaderPlan {
    NeedBody,
    ShortCircuit(RejectionResponse),
}

/// What happens to a request after verification: the pipeline continues
/// with the buffered body as the new request body, or stops with a
/// terminal response.
pub enum GateDecision {
    Forward(BufferedBody),
    Reject(RejectionResponse),
}

/// The shape of a decision, with the forwarded bytes abstracted away.
pub enum DecisionView {
    Forward,
    Reject(RejectKind),
}

/// Whether `n` exceeds an optional limit.
pub open spec fn over_limit(limit: Option<usize>, n: nat) -> bool {
    match limit {
        Some(m) => n > m,
        None => false,
    }
}

/// The image of an optional header value.
pub open spec fn opt_bytes(h: Option<Vec<u8>>) -> Option<Seq<u8>> {
    match h {
        None => None,
        Some(v) => Some(v@),
    }
}

/// The pre-body step: an absent header, an empty header value, and a
/// declared length over the limit all short-circuit before any body byte
/// is read.
pub open spec fn spec_plan(h: Option<Seq<u8>>, declared: Option<usize>, limit: Option<usize>) -> HeaderPlan {
    match h {
        None => HeaderPlan::ShortCircuit(spec_response(RejectKind::MissingHeader)),
        Some(s) => if s.len() == 0 {
            HeaderPlan::ShortCircuit(spec_response(RejectKind::MalformedHeader))
        } else if declared matches Some(n) && over_limit(limit, n as nat) {
            HeaderPlan::ShortCircuit(spec_response(RejectKind::BodyTooLarge))
        } else {
            HeaderPlan::NeedBody
        },
    }
}

/// The post-body step: over-long bodies are rejected, then the header is
/// parsed and the body verified; exactly one outcome drives the branch.
pub open spec fn spec_decide(sup: SupportedAlgorithms, limit: Option<usize>, h: Seq<u8>, body: Seq<u8>) -> DecisionView {
    if over_limit(limit, body.len()) {
        DecisionView::Reject(RejectKind::BodyTooLarge)
    } else {
        match spec_parse(h) {
            Err(_) => DecisionView::Reject(RejectKind::MalformedHeader),
            Ok(parts) => match spec_verify(body, parts, sup) {
                VerificationOutcome::Verified => DecisionView::Forward,
                VerificationOutcome::NoSupportedAlgorithm => DecisionView::Reject(
                    RejectKind::NoSupportedAlgorithm,
                ),
                _ => DecisionView::Reject(RejectKind::Mismatch),
            },
        }
    }
}

/// The verification stage around an inner pipeline stage `S`.
///
/// The stage holds its configuration — which algorithms it recomputes and an
/// optional maximum body size — and decides, per request, whether the inner
/// stage sees the request at all.
pub struct VerifyDigest<S> {
    inner: S,
    supported: SupportedAlgorithms,
    max_body: Option<usize>,
}

impl<S> VerifyDigest<S> {
    /// The configured algorithm set.
    pub closed spec fn spec_supported(&self) -> SupportedAlgorithms {
        self.supported
    }

    /// The configured maximum body size, if any.
    pub closed spec fn spec_max_body(&self) -> Option<usize> {
        self.max_body
    }

    /// The wrapped inner stage.
    pub closed spec fn spec_inner(&self) -> S {
        self.inner
    }

    /// Wraps `inner`: every known algorithm enabled, no body size limit.
    pub fn new(inner: S) -> (r: VerifyDigest<S>)
        ensures
            r.spec_supported() == (SupportedAlgorithms { sha256: true, sha512: true }),
            r.spec_max_body() is None,
            r.spec_inner() == inner,
    {
        VerifyDigest { inner, supported: SupportedAlgorithms::all(), max_body: None }
    }

    /// The same stage with a maximum body size: larger bodies are rejected
    /// before they are buffered in full.
    pub fn with_max_body(self, limit: usize) -> (r: VerifyDigest<S>)
        ensures
            r.spec_supported() == self.spec_supported(),
            r.spec_max_body() == Some(limit),
            r.spec_inner() == self.spec_inner(),
    {
        VerifyDigest { inner: self.inner, supported: self.supported, max_body: Some(limit) }
    }

    /// The same stage with another algorithm set.
    pub fn with_supported(self, supported: SupportedAlgorithms) -> (r: VerifyDigest<S>)
        ensures
            r.spec_supported() == supported,
            r.spec_max_body() == self.spec_max_body(),
            r.spec_inner() == self.spec_inner(),
    {
        VerifyDigest { inner: self.inner, supported, max_body: self.max_body }
    }

    /// Borrows the inner stage.
    pub fn get_ref(&self) -> (r: &S)
        ensures
            *r == self.spec_inner(),
    {
        &self.inner
    }

    /// Unwraps the inner stage.
    pub fn into_inner(self) -> (r: S)
        ensures
            r == self.spec_inner(),
    {
        self.inner
    }

    /// Decides from the header alone whether the body must be read at all:
    /// a missing or empty `Digest` header, or a declared length over the
    /// limit, short-circuits with zero body bytes read.
    pub fn plan(&self, header: &Option<Vec<u8>>, declared_len: &Option<usize>) -> (r: HeaderPlan)
        ensures
            r == spec_plan(opt_bytes(*header), *declared_len, self.spec_max_body()),
    {
        match header {
            None => HeaderPlan::ShortCircuit(response_for(RejectKind::MissingHeader)),
            Some(h) => {
                if h.len() == 0 {
                    return HeaderPlan::ShortCircuit(response_for(RejectKind::MalformedHeader));
                }
                if let Some(n) = declared_len {
                    if let Some(m) = &self.max_body {
                        if *n > *m {
                            return HeaderPlan::ShortCircuit(
                                response_for(RejectKind::BodyTooLarge),
                            );
                        }
                    }
                }
                HeaderPlan::NeedBody
            },
        }
    }

    /// Decides the fate of a request whose body has been buffered: forward
    /// the buffered body downstream, or reject with the response mapped
    /// from the failure class.
    pub fn decide(&self, header: &Vec<u8>, body: Vec<u8>) -> (r: GateDecision)
        ensures
            ({
                let dv = spec_decide(self.spec_supported(), self.spec_max_body(), header@, body@);
                match r {
                    GateDecision::Forward(bb) => dv == DecisionView::Forward && bb@ == body@,
                    GateDecision::Reject(resp) => dv == DecisionView::Reject(resp.kind) && resp
                        == spec_response(resp.kind),
                }
            }),
    {
        if let Some(m) = &self.max_body {
            if body.len() > *m {
                return GateDecision::Reject(response_for(RejectKind::BodyTooLarge));
            }
        }
        match parse_digest_header(header) {
            Err(_) => GateDecision::Reject(response_for(RejectKind::MalformedHeader)),
            Ok(parts) => match crate::verify::verify(&body, &parts, &self.supported) {
                VerificationOutcome::Verified => GateDecision::Forward(BufferedBody::from_bytes(body)),
                VerificationOutcome::NoSupportedAlgorithm => GateDecision::Reject(
                    response_for(RejectKind::NoSupportedAlgorithm),
                ),
                _ => GateDecision::Reject(response_for(RejectKind::Mismatch)),
            },
        }
    }
}

/// Builds the verification stage around an inner pipeline stage.
pub struct VerifyDigestLayer;

impl VerifyDigestLayer {
    /// Wraps `inner` in a `VerifyDigest` stage with the default
    /// configuration.
    pub fn layer<S>(&self, inner: S) -> (r: VerifyDigest<S>)
        ensures
            r.spec_supported() == (SupportedAlgorithms { sha256: true, sha512: true }),
            r.spec_max_body() is None,
            r.spec_inner() == inner,
    {
        VerifyDigest::new(inner)
    }
}

/// The error a failed verification surfaces to the host pipeline.
#[derive(Clone, Copy, Debug, PartialEq, Eq, Structural)]
pub struct VerifyDigestError;

impl Default for VerifyDigestError {
    fn default() -> (r: Self)
        ensures
            r == VerifyDigestError,
    {
        VerifyDigestError
    }
}

impl VerifyDigestError {
    /// A short human-readable description.
    pub fn message(&self) -> (m: &'static str)
        ensures
            m@ == "Digest verification failed"@,
    {
        "Digest verification failed"
    }
}

} // verus!
