use verify_digest::codec::{make_header_value, parse_digest_header, serialize_parts, AlgorithmTag,
    DigestPart, ParseError};
use verify_digest::b64::{b64_decode, b64_encode};

#[test]
fn parse_single_part() {
    // "AAEC" is the unpadded base64 of the bytes 0, 1, 2.
    let parts = parse_digest_header(&b"sha-256=AAEC".to_vec()).unwrap();
    assert_eq!(parts.len(), 1);
    assert!(matches!(parts[0].algorithm, AlgorithmTag::Sha256));
    assert_eq!(parts[0].encoded_value, vec![0u8, 1, 2]);
}

#[test]
fn parse_tolerates_whitespace() {
    let parts = parse_digest_header(&b" sha-256 = AAEC , sha-512=AA== ".to_vec()).unwrap();
    assert_eq!(parts.len(), 2);
    assert!(matches!(parts[0].algorithm, AlgorithmTag::Sha256));
    assert_eq!(parts[0].encoded_value, vec![0u8, 1, 2]);
    assert!(matches!(parts[1].algorithm, AlgorithmTag::Sha512));
    assert_eq!(parts[1].encoded_value, vec![0u8]);
}

#[test]
fn parse_case_insensitive_tokens() {
    for header in [&b"SHA-256=AA=="[..], b"Sha-256=AA==", b"sha-256=AA=="] {
        let parts = parse_digest_header(&header.to_vec()).unwrap();
        assert_eq!(parts.len(), 1);
        assert!(matches!(parts[0].algorithm, AlgorithmTag::Sha256));
    }
    let parts = parse_digest_header(&b"SHA-512=AA==".to_vec()).unwrap();
    assert!(matches!(parts[0].algorithm, AlgorithmTag::Sha512));
}

#[test]
fn parse_no_hyphen_token_is_unsupported() {
    let parts = parse_digest_header(&b"sha256=AA==".to_vec()).unwrap();
    assert_eq!(parts.len(), 1);
    match &parts[0].algorithm {
        AlgorithmTag::Unsupported(name) => assert_eq!(name, &b"sha256".to_vec()),
        _ => panic!("token without hyphen must not classify as a known algorithm"),
    }
}

#[test]
fn parse_drops_only_the_corrupt_part() {
    let parts = parse_digest_header(&b"sha-256=not-base64!!, sha-256=AAEC".to_vec()).unwrap();
    assert_eq!(parts.len(), 1);
    assert!(matches!(parts[0].algorithm, AlgorithmTag::Sha256));
    assert_eq!(parts[0].encoded_value, vec![0u8, 1, 2]);
}

#[test]
fn parse_preserves_unknown_algorithms() {
    let parts = parse_digest_header(&b"md5=AA==, sha-256=AAEC".to_vec()).unwrap();
    assert_eq!(parts.len(), 2);
    match &parts[0].algorithm {
        AlgorithmTag::Unsupported(name) => assert_eq!(name, &b"md5".to_vec()),
        _ => panic!("unknown token must be preserved as unsupported"),
    }
}

#[test]
fn parse_empty_header_fails_empty() {
    assert_eq!(parse_digest_header(&Vec::new()), Err(ParseError::Empty));
}

#[test]
fn parse_all_malformed_fails_no_valid_parts() {
    assert_eq!(parse_digest_header(&b"foo, bar".to_vec()), Err(ParseError::NoValidParts));
    assert_eq!(parse_digest_header(&b"=AA==".to_vec()), Err(ParseError::NoValidParts));
    assert_eq!(parse_digest_header(&b"sha-256".to_vec()), Err(ParseError::NoValidParts));
    assert_eq!(parse_digest_header(&b"sha-256=!!!!".to_vec()), Err(ParseError::NoValidParts));
}

#[test]
fn header_value_round_trips_through_parse() {
    let digest = vec![0u8, 1, 2];
    let header = make_header_value(&AlgorithmTag::Sha256, &digest);
    assert_eq!(header, b"sha-256=AAEC".to_vec());
    let parts = parse_digest_header(&header).unwrap();
    assert_eq!(parts.len(), 1);
    assert!(matches!(parts[0].algorithm, AlgorithmTag::Sha256));
    assert_eq!(parts[0].encoded_value, digest);
}

#[test]
fn serialize_joins_parts_and_parses_back() {
    let parts = vec![
        DigestPart { algorithm: AlgorithmTag::Sha256, encoded_value: vec![0u8, 1, 2] },
        DigestPart { algorithm: AlgorithmTag::Sha512, encoded_value: vec![0u8] },
    ];
    let header = serialize_parts(&parts);
    assert_eq!(header, b"sha-256=AAEC, sha-512=AA==".to_vec());
    let reparsed = parse_digest_header(&header).unwrap();
    assert_eq!(reparsed, parts);
    assert_eq!(serialize_parts(&Vec::new()), Vec::<u8>::new());
}

#[test]
fn base64_encode_pads_to_groups_of_four() {
    assert_eq!(b64_encode(&Vec::new()), Vec::<u8>::new());
    assert_eq!(b64_encode(&vec![0u8]), b"AA==".to_vec());
    assert_eq!(b64_encode(&vec![0u8, 1]), b"AAE=".to_vec());
    assert_eq!(b64_encode(&vec![0u8, 1, 2]), b"AAEC".to_vec());
    assert_eq!(b64_encode(&b"hello".to_vec()), b"aGVsbG8=".to_vec());
}

#[test]
fn base64_decode_accepts_padded_and_unpadded() {
    assert_eq!(b64_decode(&Vec::new()), Some(Vec::new()));
    assert_eq!(b64_decode(&b"AA==".to_vec()), Some(vec![0u8]));
    assert_eq!(b64_decode(&b"AA".to_vec()), Some(vec![0u8]));
    assert_eq!(b64_decode(&b"AAEC".to_vec()), Some(vec![0u8, 1, 2]));
    assert_eq!(b64_decode(&b"aGVsbG8=".to_vec()), Some(b"hello".to_vec()));
}

#[test]
fn base64_decode_rejects_malformed_input() {
    assert_eq!(b64_decode(&b"A".to_vec()), None);
    assert_eq!(b64_decode(&b"====".to_vec()), None);
    assert_eq!(b64_decode(&b"not-base64!!".to_vec()), None);
    assert_eq!(b64_decode(&b"AA=A".to_vec()), None);
}

#[test]
fn base64_round_trips_every_small_buffer() {
    for len in 0..32usize {
        let bytes: Vec<u8> = (0..len as u8).map(|b| b.wrapping_mul(37).wrapping_add(11)).collect();
        let encoded = b64_encode(&bytes);
        assert_eq!(b64_decode(&encoded), Some(bytes));
    }
}
