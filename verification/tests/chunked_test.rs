use hype::body::{Body, Next};
use hype::parser::ResponseParser;

fn wire_of(body: &Body) -> Vec<u8> {
    let mut out = Vec::new();
    let mut stream = body.raw_stream();
    loop {
        match stream.next(body) {
            Next::Item(bytes) => out.extend(bytes),
            Next::End => break,
            Next::Pending => panic!("body is not complete"),
        }
    }
    out
}

#[test]
fn raw_stream_frames_chunks() {
    let mut body = Body::new();
    body.set_chunked();
    body.push_chunk(b"foobar".to_vec());
    body.end_chunked();
    assert_eq!(wire_of(&body), b"6\r\nfoobar\r\n0\r\n\r\n".to_vec());
}

#[test]
fn written_chunks_parse_back() {
    let mut body = Body::new();
    body.set_chunked();
    body.push_chunk(b"hello ".to_vec());
    body.push_chunk(vec![b'x'; 300]);
    body.push_chunk(b"!".to_vec());
    body.end_chunked();

    let mut text = b"HTTP/1.1 200 OK\r\nTransfer-Encoding: chunked\r\n\r\n".to_vec();
    text.extend(wire_of(&body));
    let mut parser = ResponseParser::new();
    assert_eq!(parser.parse_buf(&text), Ok(()));
    assert!(parser.is_complete());
    let expected = format!("hello {}!", "x".repeat(300));
    assert_eq!(parser.get_message().response().body(), expected);
}

#[test]
fn content_stream_returns_growing_content_in_order() {
    let mut body = Body::new();
    body.set_content_length(6);
    body.append(b"foo").unwrap();
    let mut stream = body.content_stream();
    assert_eq!(stream.next(&body), Next::Item(b"foo".to_vec()));
    assert_eq!(stream.next(&body), Next::Pending);
    body.append(b"bar").unwrap();
    assert_eq!(stream.next(&body), Next::Item(b"bar".to_vec()));
    assert_eq!(stream.next(&body), Next::End);
}

#[test]
fn chunk_stream_returns_chunks_in_order() {
    let mut body = Body::new();
    body.set_chunked();
    body.push_chunk(b"a".to_vec());
    let mut stream = body.chunk_stream();
    assert_eq!(stream.next(&body), Next::Item(b"a".to_vec()));
    assert_eq!(stream.next(&body), Next::Pending);
    body.push_chunk(b"bc".to_vec());
    body.end_chunked();
    assert_eq!(stream.next(&body), Next::Item(b"bc".to_vec()));
    assert_eq!(stream.next(&body), Next::End);
}
