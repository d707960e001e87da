use verify_digest::buffer::BufferedBody;
use verify_digest::codec::{make_header_value, AlgorithmTag};
use verify_digest::gate::{GateDecision, HeaderPlan, RejectKind, response_for};
use verify_digest::verify::{compute_digest, SupportedAlgorithms};
use verify_digest::{VerifyDigest, VerifyDigestError, VerifyDigestLayer};

#[test]
fn missing_header_short_circuits_before_any_body_read() {
    let gate = VerifyDigest::new(());
    match gate.plan(&None, &None) {
        HeaderPlan::ShortCircuit(resp) => {
            assert_eq!(resp.status, 406);
            assert_eq!(resp.kind, RejectKind::MissingHeader);
        }
        HeaderPlan::NeedBody => panic!("a missing header must not require the body"),
    }
}

#[test]
fn empty_header_short_circuits_before_any_body_read() {
    let gate = VerifyDigest::new(());
    match gate.plan(&Some(Vec::new()), &None) {
        HeaderPlan::ShortCircuit(resp) => {
            assert_eq!(resp.status, 400);
            assert_eq!(resp.kind, RejectKind::MalformedHeader);
        }
        HeaderPlan::NeedBody => panic!("an empty header must not require the body"),
    }
}

#[test]
fn present_header_requires_the_body() {
    let gate = VerifyDigest::new(());
    assert!(matches!(gate.plan(&Some(b"sha-256=AA==".to_vec()), &None), HeaderPlan::NeedBody));
}

#[test]
fn declared_oversize_body_is_rejected_before_buffering() {
    let gate = VerifyDigest::new(()).with_max_body(8);
    match gate.plan(&Some(b"sha-256=AA==".to_vec()), &Some(9)) {
        HeaderPlan::ShortCircuit(resp) => {
            assert_eq!(resp.status, 413);
            assert_eq!(resp.kind, RejectKind::BodyTooLarge);
        }
        HeaderPlan::NeedBody => panic!("an oversized declared length must short-circuit"),
    }
    assert!(matches!(gate.plan(&Some(b"sha-256=AA==".to_vec()), &Some(8)), HeaderPlan::NeedBody));
}

#[test]
fn verified_request_forwards_the_buffered_bytes_unchanged() {
    let gate = VerifyDigest::new(());
    let body = b"hello world".to_vec();
    let digest = compute_digest(&AlgorithmTag::Sha256, &body).unwrap();
    let header = make_header_value(&AlgorithmTag::Sha256, &digest);
    match gate.decide(&header, body.clone()) {
        GateDecision::Forward(buffered) => assert_eq!(buffered.into_bytes(), body),
        GateDecision::Reject(resp) => panic!("verified request rejected: {}", resp.message()),
    }
}

#[test]
fn mismatching_digest_is_rejected() {
    let gate = VerifyDigest::new(());
    let digest = compute_digest(&AlgorithmTag::Sha256, &b"original".to_vec()).unwrap();
    let header = make_header_value(&AlgorithmTag::Sha256, &digest);
    match gate.decide(&header, b"tampered".to_vec()) {
        GateDecision::Reject(resp) => {
            assert_eq!(resp.status, 401);
            assert_eq!(resp.kind, RejectKind::Mismatch);
            assert_eq!(resp.message(), "digest does not match body");
        }
        GateDecision::Forward(_) => panic!("a mismatching digest must not forward"),
    }
}

#[test]
fn malformed_header_is_rejected() {
    let gate = VerifyDigest::new(());
    match gate.decide(&b"no pairs here".to_vec(), b"body".to_vec()) {
        GateDecision::Reject(resp) => assert_eq!(resp.kind, RejectKind::MalformedHeader),
        GateDecision::Forward(_) => panic!("a malformed header must not forward"),
    }
}

#[test]
fn unsupported_algorithms_are_rejected_distinctly() {
    let gate = VerifyDigest::new(());
    match gate.decide(&b"md5=AA==".to_vec(), b"body".to_vec()) {
        GateDecision::Reject(resp) => {
            assert_eq!(resp.kind, RejectKind::NoSupportedAlgorithm);
            assert_eq!(resp.message(), "no supported digest algorithm");
        }
        GateDecision::Forward(_) => panic!("an unverifiable digest must not forward"),
    }
}

#[test]
fn oversize_buffered_body_is_rejected() {
    let gate = VerifyDigest::new(()).with_max_body(4);
    let body = b"too long".to_vec();
    let digest = compute_digest(&AlgorithmTag::Sha256, &body).unwrap();
    let header = make_header_value(&AlgorithmTag::Sha256, &digest);
    match gate.decide(&header, body) {
        GateDecision::Reject(resp) => assert_eq!(resp.kind, RejectKind::BodyTooLarge),
        GateDecision::Forward(_) => panic!("an oversized body must not forward"),
    }
}

#[test]
fn disabled_algorithms_reject_as_unsupported() {
    let gate = VerifyDigest::new(()).with_supported(SupportedAlgorithms { sha256: false, sha512: true });
    let body = b"body".to_vec();
    let digest = compute_digest(&AlgorithmTag::Sha256, &body).unwrap();
    let header = make_header_value(&AlgorithmTag::Sha256, &digest);
    match gate.decide(&header, body) {
        GateDecision::Reject(resp) => assert_eq!(resp.kind, RejectKind::NoSupportedAlgorithm),
        GateDecision::Forward(_) => panic!("a disabled algorithm must not verify"),
    }
}

#[test]
fn every_failure_class_keeps_its_status() {
    assert_eq!(response_for(RejectKind::MissingHeader).status, 406);
    assert_eq!(response_for(RejectKind::MalformedHeader).status, 400);
    assert_eq!(response_for(RejectKind::Mismatch).status, 401);
    assert_eq!(response_for(RejectKind::NoSupportedAlgorithm).status, 401);
    assert_eq!(response_for(RejectKind::BodyTooLarge).status, 413);
    assert_eq!(response_for(RejectKind::BodyRead).status, 500);
    assert_eq!(response_for(RejectKind::BodyRead).message(), "failed to read request body");
}

#[test]
fn layer_wraps_and_unwraps_the_inner_stage() {
    let gate = VerifyDigestLayer.layer(7u32);
    assert_eq!(*gate.get_ref(), 7u32);
    assert_eq!(gate.into_inner(), 7u32);
}

#[test]
fn error_message_names_the_failure() {
    assert_eq!(VerifyDigestError::default().message(), "Digest verification failed");
}

#[test]
fn forwarded_body_replays_identically() {
    // A verified request's buffered body, buffered once more downstream,
    // is byte-identical.
    let gate = VerifyDigest::new(());
    let body = b"replayable".to_vec();
    let digest = compute_digest(&AlgorithmTag::Sha512, &body).unwrap();
    let header = make_header_value(&AlgorithmTag::Sha512, &digest);
    match gate.decide(&header, body.clone()) {
        GateDecision::Forward(buffered) => {
            let again: BufferedBody = buffered.rebuffer();
            assert_eq!(again.into_bytes(), body);
        }
        GateDecision::Reject(_) => panic!("verified request rejected"),
    }
}
