use hype::body::{Body, Next};
use hype::shared_body::SharedBody;

#[test]
fn clones_share_length_and_content() {
    let body = SharedBody::new(Body::new());
    let reader = body.clone();
    body.set_content_length(6);
    assert!(!reader.complete());
    let mut stream = Body::new().content_stream();
    assert_eq!(body.append(b"foo").unwrap(), false);
    assert_eq!(reader.next_content(&mut stream), Next::Item(b"foo".to_vec()));
    assert_eq!(reader.next_content(&mut stream), Next::Pending);
    assert_eq!(body.append(b"bar").unwrap(), true);
    assert!(reader.complete());
    assert_eq!(reader.try_content(), b"foobar".to_vec());
    assert_eq!(reader.next_content(&mut stream), Next::Item(b"bar".to_vec()));
    assert_eq!(reader.next_content(&mut stream), Next::End);
}

#[test]
fn clones_share_chunks() {
    let mut b = Body::new();
    b.set_chunked();
    let body = SharedBody::new(b);
    let reader = body.clone();
    assert!(reader.chunked());
    let mut b2 = Body::new();
    b2.set_chunked();
    let stream = b2.raw_stream();
    let mut chunks = match stream {
        hype::body::BodyStream::Chunks(c) => c,
        _ => panic!("expected a chunk stream"),
    };
    body.push_chunk(b"abc".to_vec());
    assert_eq!(reader.next_chunk(&mut chunks), Next::Item(b"3\r\nabc\r\n".to_vec()));
    assert_eq!(reader.next_chunk(&mut chunks), Next::Pending);
    assert!(body.end_chunked());
    assert!(!reader.end_chunked());
    assert_eq!(reader.next_chunk(&mut chunks), Next::Item(b"0\r\n\r\n".to_vec()));
    assert_eq!(reader.next_chunk(&mut chunks), Next::End);
    assert_eq!(reader.snapshot().try_content(), b"abc".to_vec());
}
