use hype::conntrack::{ConnId, ConnState};
use hype::handler::{Action, Error};
use hype::handlers::file::{file_response, not_found_text, File};
use hype::handlers::redirect::Redirect;
use hype::handlers::rewriter::Rewriter;
use hype::handlers::status::{NotFoundHandler, Status};
use hype::handlers::web::Web;
use hype::middleware::{Stack, StackStep};
use hype::request::Request;
use hype::status;

#[test]
fn status_handler_response() {
    let h = Status::new(status::from(status::OK), "hello world!\n");
    assert_eq!(
        h.response_text(),
        "HTTP/1.1 200 OK\r\ncontent-length: 13\r\n\r\nhello world!\n"
    );
    assert!(NotFoundHandler().response_text().starts_with("HTTP/1.1 404 Not Found\r\n"));
}

#[test]
fn redirect_response() {
    let r = Redirect::new("https://example.com/");
    assert_eq!(
        r.response_text(),
        "HTTP/1.1 301 Moved Permanently\r\nlocation: https://example.com/\r\n\r\n"
    );
}

#[test]
fn trailing_slashes() {
    let r = r##"POST /foo/bar HTTP/1.1
Host: localhost:4000
Content-Type: application/x-www-form-urlencoded
Content-Length: 23

merchantID=2003&foo=bar"##;

    let rewriter = Rewriter::new("(.*)([^/]$)", "$1$2/").unwrap();
    let request = Request::from(r).unwrap();
    let mut stream: Vec<u8> = vec![];

    rewriter.handle(&request, &mut stream).unwrap();
    println!("{:?}", String::from_utf8_lossy(&stream));

    assert_eq!(
        std::str::from_utf8(&stream).unwrap(),
        "HTTP/1.1 301 Moved Permanently\r\nLocation: /foo/bar/\r\n\r\n"
    );
}

#[test]
fn trailing_slashes_nop() {
    let r = r##"POST /foo/bar/ HTTP/1.1
Host: localhost:4000
Content-Type: application/x-www-form-urlencoded
Content-Length: 23

merchantID=2003&foo=bar"##;

    let rewriter = Rewriter::new("(.*)([^/]$)", "$1$2/").unwrap();
    let request = Request::from(r).unwrap();
    let mut stream: Vec<u8> = vec![];

    rewriter.handle(&request, &mut stream).unwrap();
    println!("{:?}", String::from_utf8_lossy(&stream));

    assert_eq!(std::str::from_utf8(&stream).unwrap(), "");
}

#[test]
fn rewriter_response_text() {
    let rewriter = Rewriter::new("(.*)([^/]$)", "$1$2/").unwrap();
    assert_eq!(
        rewriter.response_text("/foo/bar").unwrap(),
        "HTTP/1.1 301 Moved Permanently\r\nLocation: /foo/bar/\r\n\r\n"
    );
    assert!(rewriter.response_text("/foo/bar/").is_none());
}

#[test]
fn rewriter_bad_regex() {
    assert_eq!(Rewriter::new("(", "x").err().unwrap(), "bad regex: (");
}

#[test]
fn file_paths_and_types() {
    let f = File::new("/srv");
    assert_eq!(f.fs_path("/a/b.txt"), "/srv/a/b.txt");
    assert_eq!(f.fs_path(""), "/srv");
    assert_eq!(f.fs_path("//etc"), "/etc");
    assert_eq!(f.content_type("/srv/a.png"), "image/png");
    assert_eq!(f.content_type("/srv/a.js"), "txt");
    assert_eq!(f.content_type("/srv/README"), "text/plain");
}

#[test]
fn file_listing() {
    let f = File::new("/srv");
    let names = vec!["a.txt".to_string()];
    let text = f.dir_listing("/srv/sub", "files", &names);
    assert!(text.starts_with("HTTP/1.1 200 OK\r\ncontent-type: text/html\r\n"));
    assert!(text.ends_with("<ul>\n  <li><a href='/sub/a.txt'>a.txt</a></li>\n<ul>\n"));
}

#[test]
fn file_responses() {
    assert_eq!(
        file_response(status::OK, "text/plain", "hi"),
        "HTTP/1.1 200 OK\r\ncontent-type: text/plain\r\ncontent-length: 2\r\n\r\nhi"
    );
    assert!(not_found_text("could not open file")
        .ends_with("\r\n\r\n404 NOT FOUND - Failed(\"could not open file\")"));
}

#[test]
fn web_index_and_hosts() {
    let mut w = Web::new("/www");
    assert_eq!(w.index_candidates("/www/d"), vec!["/www/d/index.html", "/www/d/index.htm"]);
    w.set_index("main.html".to_string());
    assert_eq!(w.index_candidates("/www/d/"), vec!["/www/d/main.html"]);
    assert_eq!(w.content_type("/www/x.svg"), "image/svg+xml");
    assert!(!w.host_known("a.com"));
}

#[test]
fn handler_error_messages() {
    assert_eq!(Error::Failed("x".into()).message(), "Handler error: Failed: x");
    assert_eq!(
        Error::Status(status::from(status::NOT_FOUND)).message(),
        "Handler error: Failed(404): Not Found"
    );
}

#[test]
fn stack_steps() {
    let s: Stack<u8> = Stack::new().push(1).push(2);
    assert!(matches!(s.first_step(), StackStep::Call(0)));
    assert!(matches!(s.next_step(0, Ok(Action::Next)), StackStep::Call(1)));
    assert!(matches!(s.next_step(1, Ok(Action::Next)), StackStep::Finish(Ok(Action::Next))));
    assert!(matches!(s.next_step(0, Ok(Action::Done)), StackStep::Finish(Ok(Action::Done))));
    assert!(matches!(s.next_step(0, Err(Error::Failed("e".into()))), StackStep::Finish(Err(_))));
    let empty: Stack<u8> = Stack::new();
    assert!(matches!(empty.first_step(), StackStep::Finish(Ok(Action::Done))));
}

#[test]
fn conn_state_counts_requests() {
    let mut st = ConnState::new();
    st.set_keepalive_max(2);
    assert!(!st.inc_request_count());
    assert!(!st.inc_request_count());
    assert!(st.inc_request_count());
    assert_eq!(st.request_count, 3);
    let id = ConnId::random();
    assert_eq!(id.as_str().len(), 16);
    assert!(id.as_str().chars().all(|c| c.is_ascii_alphanumeric()));
}
