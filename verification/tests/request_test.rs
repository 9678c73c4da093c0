use hype::request::{Method, Request};

#[test]
fn request_test_it_works_with_body() {
    let mut request = Request::new("http://localhost:8080");
    request.set_method(Method::GET);
    request.set_path("/foobar");
    request.push_header("Host", "localhost:8080");
    assert_eq!(
        request.serialize(),
        "GET /foobar HTTP/1.1\r
host: localhost:8080\r
"
    );
}

#[test]
fn request_test_it_works_with_cookies() {
    let mut request = Request::new("http://localhost:8080");
    request.set_method(Method::GET);
    request.set_path("/foobar");
    request.push_header("Cookie", "foo=bar; id=blah");
    assert_eq!(
        request.serialize(),
        "GET /foobar HTTP/1.1\r
cookie: foo=bar; id=blah\r
"
    );
}

#[test]
fn request_from_text() {
    let request = Request::from("GET /a?x=1 HTTP/1.1\nHost: h\n\n").unwrap();
    assert_eq!(request.method(), Method::GET);
    assert_eq!(request.abs_path(), "/a");
    assert_eq!(request.query_params().unwrap().get("x").unwrap(), "1");
    assert_eq!(request.host().unwrap(), "h");
}

#[test]
fn request_from_bad_text() {
    let request = Request::from("BIT / HTTP/1.1\n");
    assert_eq!(request.unwrap_err(), "could not parse buffer");
}

#[test]
fn method_names_round_trip() {
    for m in [Method::GET, Method::POST, Method::PUT, Method::HEAD, Method::OPTIONS, Method::CONNECT,
        Method::DELETE, Method::TRACE, Method::PATCH]
    {
        assert_eq!(Method::from_name(m.as_str()), Some(m));
    }
    assert_eq!(Method::from_name("get"), None);
}
