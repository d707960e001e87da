use verify_digest::buffer::BufferedBody;

#[test]
fn zero_chunks_yield_the_empty_buffer() {
    let body = BufferedBody::from_chunks(&Vec::new());
    assert_eq!(body.len(), 0);
    assert_eq!(body.into_bytes(), Vec::<u8>::new());
}

#[test]
fn a_single_chunk_is_kept_as_is() {
    let body = BufferedBody::from_chunks(&vec![b"only".to_vec()]);
    assert_eq!(body.as_bytes(), &b"only".to_vec());
}

#[test]
fn chunks_are_concatenated_in_arrival_order() {
    let chunks = vec![b"he".to_vec(), Vec::new(), b"llo ".to_vec(), b"world".to_vec()];
    let body = BufferedBody::from_chunks(&chunks);
    assert_eq!(body.len(), 11);
    assert_eq!(body.into_bytes(), b"hello world".to_vec());
}

#[test]
fn buffering_twice_returns_the_identical_bytes() {
    let chunks = vec![b"first".to_vec(), b" second".to_vec()];
    let once = BufferedBody::from_chunks(&chunks);
    let twice = once.rebuffer();
    assert_eq!(twice.as_bytes(), &b"first second".to_vec());
    let thrice = twice.rebuffer();
    assert_eq!(thrice.into_bytes(), b"first second".to_vec());
}

#[test]
fn collect_moves_a_single_chunk_and_joins_many() {
    let one = BufferedBody::collect(vec![b"single".to_vec()]);
    assert_eq!(one.into_bytes(), b"single".to_vec());
    let many = BufferedBody::collect(vec![b"a".to_vec(), b"b".to_vec(), b"c".to_vec()]);
    assert_eq!(many.into_bytes(), b"abc".to_vec());
    let none = BufferedBody::collect(Vec::new());
    assert_eq!(none.len(), 0);
}

#[test]
fn from_bytes_and_into_bytes_are_inverse() {
    let body = BufferedBody::from_bytes(b"bytes".to_vec());
    assert_eq!(body.len(), 5);
    assert_eq!(body.into_bytes(), b"bytes".to_vec());
}
