use hype::message::Message;
use hype::parser;
use hype::parser::{ParseError, Parser, RequestParser, State};
use hype::request::{Method, Request};
use hype::response::Response;

fn parse(buf: &str, start_state: parser::State) -> (Option<Message>, Result<(), ParseError>) {
    println!("Parsing buffer:\n{}", buf);
    let mut parser = Parser::new(start_state);
    let result1 = parser.parse_buf(String::from(buf).as_bytes());
    if result1 == Ok(()) {
        (Some(parser.get_message()), result1)
    } else {
        (None, result1)
    }
}

fn parse_request(buf: &str) -> (Option<Request>, Result<(), ParseError>) {
    let (message, r1) = parse(buf, parser::State::StartRequest);
    return (message.map(|m| m.request().clone()), r1);
}

fn parse_response(buf: &str) -> (Option<Response>, Result<(), ParseError>) {
    let (message, r1) = parse(buf, parser::State::StartResponse);
    return (message.map(|m| m.response().clone()), r1);
}

fn assert_parse_request_result(buf: &str, parse_buf_result: Result<(), ParseError>) -> Option<Request> {
    let (request, result1) = parse_request(buf);
    assert_eq!(result1, parse_buf_result);
    request
}

fn assert_parse_response_result(
    buf: &str,
    parse_buf_result: Result<(), ParseError>,
) -> Option<Response> {
    let (response, result1) = parse_response(buf);
    assert_eq!(result1, parse_buf_result);
    response
}

fn assert_parse_ok(buf: &str) -> Option<Request> {
    assert_parse_request_result(buf, Ok(()))
}

fn assert_parse_response_ok(buf: &str) -> Option<Response> {
    assert_parse_response_result(buf, Ok(()))
}

#[test]
fn parser_test_it_works() {
    let request = assert_parse_ok(
        r##"POST / HTTP/1.1
Host: localhost:4000
Content-Length: 20

{"merchantID": "00"}"##,
    );

    assert!(request.is_some());
    let request = request.unwrap();
    assert_eq!(request.method(), Method::POST);
}

#[test]
fn it_works_response() {
    let response = assert_parse_response_ok(
        r##"HTTP/1.1 200 OK
Host: localhost:4000
Set-Cookie: foo=bar
Content-Length: 20

{"merchantID": "00"}"##,
    );

    assert!(response.is_some());
    let response = response.unwrap();
    assert_eq!(response.status().code, 200);
}

#[test]
fn newline_prefixes() {
    assert_parse_ok(
        r##"

POST / HTTP/1.1
Host: localhost:4000
Content-Length: 20

{"merchantID": "00"}"##,
    );
}

#[test]
fn get_request() {
    let request = assert_parse_ok("GET / HTTP/1.1\n");
    assert!(request.is_some());
    let request = request.unwrap();
    assert_eq!(request.method(), Method::GET);

    if let Some(url) = &request.url() {
        assert_eq!(url.path(), "/");
    } else {
        assert!(&request.url().is_some())
    }
    assert_eq!(request.version(), "HTTP/1.1");
}

#[test]
fn invalid_method() {
    assert_parse_request_result(
        "BIT / HTTP/1.1\n",
        Err(ParseError::InvalidMethod("BIT".into())),
    );
}

#[test]
fn post_params() {
    let r = r##"POST / HTTP/1.1
Host: localhost:4000
Content-Type: application/x-www-form-urlencoded
Content-Length: 23

merchantID=2003&foo=bar"##;

    let request = assert_parse_ok(r);
    assert!(request.is_some());
    let post_params = request.unwrap().post_params();
    assert!(post_params.is_some());

    let post_params = post_params.unwrap();
    assert_eq!(post_params.get("merchantID").unwrap(), &"2003".to_string());
    assert_eq!(post_params.get("foo").unwrap(), &"bar".to_string());
}

#[test]
fn query_params() {
    let r = r##"GET /admin?user=foo&action=delete HTTP/1.1
Host: localhost:4000
Content-Type: application/x-www-form-urlencoded"##;

    let request = assert_parse_ok(r);
    assert!(request.is_some());

    let request = request.unwrap();
    assert!(request.url().is_some());
    let query_params = request.query_params();
    assert!(query_params.is_some());

    let query_params = query_params.unwrap();
    assert_eq!(query_params.get("user").unwrap(), &"foo".to_string());
    assert_eq!(query_params.get("action").unwrap(), &"delete".to_string());
}

#[test]
fn cookies() {
    let r = r##"GET /admin?user=foo&action=delete HTTP/1.1
Host: localhost:4000
Cookie: ID=mo; foo=bar; domain=boo.com
Content-Type: application/x-www-form-urlencoded"##;

    let request = assert_parse_ok(r);
    assert!(request.is_some());

    let request = request.unwrap();
    let cookies = request.cookies();
    assert!(cookies.is_some());

    let cookies = cookies.unwrap();
    assert_eq!(cookies.get("ID").unwrap(), &"mo");
    assert_eq!(cookies.get("foo").unwrap(), &"bar");
}

#[test]
fn chunked_body() {
    let response = assert_parse_response_ok(
        r##"HTTP/1.1 200 OK
Host: localhost:4000
Set-Cookie: foo=bar
Transfer-Encoding: chunked

5
12345
A
1234567890
0

"##,
    );

    assert!(response.is_some());
    let response = response.unwrap();
    assert_eq!(response.status().code, 200);
    assert_eq!(response.body(), "123451234567890");
}

#[test]
fn chunked_body1() {
    let response = assert_parse_response_ok(
        r##"HTTP/1.1 200 OK
Host: localhost:4000
Set-Cookie: foo=bar
Transfer-Encoding: chunked

0
"##,
    );

    assert!(response.is_some());
    let response = response.unwrap();
    assert_eq!(response.status().code, 200);
    assert_eq!(response.body(), "");
}

#[test]
fn parse_in_pieces_matches_whole() {
    let text = "POST /x HTTP/1.1\r\nContent-Length: 5\r\n\r\nhello";
    let mut whole = RequestParser::new();
    assert_eq!(whole.parse_buf(text.as_bytes()), Ok(()));
    assert!(whole.is_complete());

    let mut pieces = RequestParser::new();
    let (a, b) = text.as_bytes().split_at(17);
    assert_eq!(pieces.parse_buf(a), Ok(()));
    assert!(!pieces.is_complete());
    assert_eq!(pieces.parse_buf(b), Ok(()));
    assert!(pieces.is_complete());
    assert_eq!(
        pieces.get_message().request().body_text(),
        whole.get_message().request().body_text()
    );
    assert_eq!(whole.get_message().request().body_text(), "hello");
}

#[test]
fn complete_parser_ignores_more_input() {
    let mut p = RequestParser::new();
    assert_eq!(p.parse_buf(b"GET / HTTP/1.1\n\n"), Ok(()));
    assert!(p.is_complete());
    assert_eq!(p.parse_buf(b"garbage"), Ok(()));
    assert!(p.is_complete());
}

#[test]
fn bad_header_line() {
    let (_, r) = parse_request("GET / HTTP/1.1\nnocolon\n");
    assert_eq!(r, Err(ParseError::BadHeaderLine("nocolon".into())));
}

#[test]
fn bad_method_line() {
    let (_, r) = parse_request("GET /\n");
    assert_eq!(r, Err(ParseError::BadMethodLine("GET /".into())));
}

#[test]
fn bad_status_line() {
    let (_, r) = parse_response("HTTP/1.1\n");
    assert_eq!(r, Err(ParseError::BadStatusLine("HTTP/1.1".into())));
}

#[test]
fn chunk_size_not_hex() {
    let (_, r) = parse_response("HTTP/1.1 200 OK\nTransfer-Encoding: chunked\n\nzz\n");
    assert_eq!(r, Err(ParseError::NonNumericChunkSize));
}

#[test]
fn unexpected_state_in_body_chunk_line() {
    let mut p = Parser::new(State::InChunkComplete);
    assert_eq!(p.parse_buf(b"x"), Ok(()));
    assert_eq!(p.parse_buf(b"\n"), Ok(()));
}

#[test]
fn invalid_state_transition() {
    let mut p = Parser::new(State::InChunkedBodyContent);
    assert_eq!(
        p.parse_buf(b"\n"),
        Ok(())
    );
    let mut q = Parser::new(State::InMethod);
    assert_eq!(q.parse_buf(b"GET / HTTP/1.1\n"), Ok(()));
    let mut r = Parser::new(State::StartResponse);
    assert_eq!(r.parse_buf(b"HTTP/1.1 404 Not Found\n\n"), Ok(()));
    assert_eq!(r.get_message().response().status().code, 404);
    assert_eq!(r.get_message().response().status().text, "Not Found");
}

#[test]
fn invalid_utf8_line_is_refused_by_try() {
    let mut p = RequestParser::new();
    assert_eq!(p.try_parse_buf(b"GET / HTTP/1.1\nX: \xff\n"), None);
}

#[test]
fn eof_in_wrong_state() {
    let mut p = Parser::new(State::InChunkedBodyContent);
    let _ = p.parse_buf(b"a");
    let mut q = Parser::new(State::EndChunkedBody);
    assert_eq!(q.try_parse_buf(b"\n"), None);
}

#[test]
fn whole_request_cut_anywhere_parses_the_same() {
    let buf = "POST /a/b?x=1 HTTP/1.1\r\nHost: h\r\nContent-Length: 5\r\n\r\nhello";
    let bytes = buf.as_bytes();
    let mut whole = RequestParser::new();
    assert_eq!(whole.parse_buf(bytes), Ok(()));
    assert!(whole.is_complete());
    let expected = format!("{:?}", whole.get_message());
    for k in 0..=bytes.len() {
        let mut p = RequestParser::new();
        assert_eq!(p.parse_buf(&bytes[..k]), Ok(()));
        assert_eq!(p.parse_buf(&bytes[k..]), Ok(()));
        assert!(p.is_complete());
        assert_eq!(format!("{:?}", p.get_message()), expected);
    }
}

#[test]
fn parser_reports_a_sized_body_under_way() {
    let mut p = hype::parser::ResponseParser::new();
    assert_eq!(p.parse_buf(b"HTTP/1.1 200 OK\r\nContent-Length: 6\r\n\r\nfoo"), Ok(()));
    assert!(p.in_sized_body());
    assert!(!p.is_complete());
    assert_eq!(p.body_so_far(), (b"foo".to_vec(), 6));
}
