use verify_digest::codec::{make_header_value, parse_digest_header, AlgorithmTag};
use verify_digest::verify::{compute_digest, verify, SupportedAlgorithms, VerificationOutcome};

fn hex(s: &str) -> Vec<u8> {
    let chars: Vec<u8> = s.bytes().collect();
    chars
        .chunks(2)
        .map(|pair| {
            let v = |c: u8| match c {
                b'0'..=b'9' => c - b'0',
                b'a'..=b'f' => c - b'a' + 10,
                _ => panic!("not a hex digit"),
            };
            (v(pair[0]) << 4) | v(pair[1])
        })
        .collect()
}

#[test]
fn sha256_known_vector() {
    let d = compute_digest(&AlgorithmTag::Sha256, &b"abc".to_vec()).unwrap();
    assert_eq!(d, hex("ba7816bf8f01cfea414140de5dae2223b00361a396177a9cb410ff61f20015ad"));
}

#[test]
fn sha512_known_vector() {
    let d = compute_digest(&AlgorithmTag::Sha512, &b"abc".to_vec()).unwrap();
    assert_eq!(
        d,
        hex(
            "ddaf35a193617abacc417349ae20413112e6fa4e89a97ea20a9eeee64b55d39a\
             2192992a274fc1a836ba3c23a3feebbd454d4423643ce80e2a9ac94fa54ca49f"
        )
    );
}

#[test]
fn unsupported_tag_computes_nothing() {
    assert!(compute_digest(&AlgorithmTag::Unsupported(b"md5".to_vec()), &b"abc".to_vec()).is_none());
}

#[test]
fn round_trip_sha256() {
    let body = b"hello world".to_vec();
    let digest = compute_digest(&AlgorithmTag::Sha256, &body).unwrap();
    let header = make_header_value(&AlgorithmTag::Sha256, &digest);
    let parts = parse_digest_header(&header).unwrap();
    assert_eq!(verify(&body, &parts, &SupportedAlgorithms::all()), VerificationOutcome::Verified);
}

#[test]
fn round_trip_sha512() {
    let body = b"hello world".to_vec();
    let digest = compute_digest(&AlgorithmTag::Sha512, &body).unwrap();
    let header = make_header_value(&AlgorithmTag::Sha512, &digest);
    let parts = parse_digest_header(&header).unwrap();
    assert_eq!(verify(&body, &parts, &SupportedAlgorithms::all()), VerificationOutcome::Verified);
}

#[test]
fn round_trip_empty_body() {
    let body = Vec::new();
    let digest = compute_digest(&AlgorithmTag::Sha256, &body).unwrap();
    let header = make_header_value(&AlgorithmTag::Sha256, &digest);
    let parts = parse_digest_header(&header).unwrap();
    assert_eq!(verify(&body, &parts, &SupportedAlgorithms::all()), VerificationOutcome::Verified);
}

#[test]
fn any_matching_part_suffices() {
    // A correct sha-256 digest next to a wrong sha-512 digest: OR semantics.
    let body = b"payload".to_vec();
    let good = compute_digest(&AlgorithmTag::Sha256, &body).unwrap();
    let mut header = make_header_value(&AlgorithmTag::Sha256, &good);
    header.extend_from_slice(b", ");
    let wrong = vec![0u8; 64];
    header.extend_from_slice(&make_header_value(&AlgorithmTag::Sha512, &wrong));
    let parts = parse_digest_header(&header).unwrap();
    assert_eq!(parts.len(), 2);
    assert_eq!(verify(&body, &parts, &SupportedAlgorithms::all()), VerificationOutcome::Verified);
}

#[test]
fn unsupported_only_is_not_a_mismatch() {
    let parts = parse_digest_header(&b"md5=AA==, crc32=AA==".to_vec()).unwrap();
    assert_eq!(parts.len(), 2);
    assert_eq!(
        verify(&b"body".to_vec(), &parts, &SupportedAlgorithms::all()),
        VerificationOutcome::NoSupportedAlgorithm
    );
}

#[test]
fn disabled_algorithm_counts_as_unsupported() {
    let body = b"body".to_vec();
    let digest = compute_digest(&AlgorithmTag::Sha256, &body).unwrap();
    let header = make_header_value(&AlgorithmTag::Sha256, &digest);
    let parts = parse_digest_header(&header).unwrap();
    let only_sha512 = SupportedAlgorithms { sha256: false, sha512: true };
    assert_eq!(verify(&body, &parts, &only_sha512), VerificationOutcome::NoSupportedAlgorithm);
}

#[test]
fn tampering_with_any_byte_is_detected() {
    let body = b"a short message".to_vec();
    let digest = compute_digest(&AlgorithmTag::Sha256, &body).unwrap();
    let header = make_header_value(&AlgorithmTag::Sha256, &digest);
    let parts = parse_digest_header(&header).unwrap();
    for i in 0..body.len() {
        let mut tampered = body.clone();
        tampered[i] ^= 0x01;
        assert_eq!(
            verify(&tampered, &parts, &SupportedAlgorithms::all()),
            VerificationOutcome::Mismatch
        );
    }
}

#[test]
fn corrupt_part_is_dropped_and_valid_part_verifies() {
    let body = b"tolerated".to_vec();
    let digest = compute_digest(&AlgorithmTag::Sha256, &body).unwrap();
    let mut header = b"sha-256=not-base64!!, ".to_vec();
    header.extend_from_slice(&make_header_value(&AlgorithmTag::Sha256, &digest));
    let parts = parse_digest_header(&header).unwrap();
    assert_eq!(parts.len(), 1);
    assert_eq!(verify(&body, &parts, &SupportedAlgorithms::all()), VerificationOutcome::Verified);
}

#[test]
fn truncated_digest_does_not_match() {
    // Exact-length comparison: a correct digest cut short must not verify.
    let body = b"body".to_vec();
    let mut digest = compute_digest(&AlgorithmTag::Sha256, &body).unwrap();
    digest.truncate(16);
    let header = make_header_value(&AlgorithmTag::Sha256, &digest);
    let parts = parse_digest_header(&header).unwrap();
    assert_eq!(verify(&body, &parts, &SupportedAlgorithms::all()), VerificationOutcome::Mismatch);
}
