use hype::conntrack::ConnState;
use hype::headers::Headers;
use hype::request::Request;
use hype::router::Matcher;
use hype::server::{
    base_url_for, checked_connection_directives, connection_directives, dispatch,
    no_route_response, on_request, request_path, ConnAction, ConnSetting, Dispatch,
};

#[test]
fn base_url_is_http_address_and_port() {
    assert_eq!(base_url_for("127.0.0.1", 4000), "http://127.0.0.1:4000");
}

#[test]
fn keep_alive_directives() {
    let mut h = Headers::new();
    h.set("Connection", "Keep-Alive");
    h.set("Keep-Alive", "timeout=10, max=5");
    let d = connection_directives(&h);
    assert!(!d.close);
    assert_eq!(
        d.settings,
        vec![ConnSetting::KeepAliveTimeout(10), ConnSetting::KeepAliveMax(5)]
    );
}

#[test]
fn keep_alive_defaults_for_bad_numbers() {
    let mut h = Headers::new();
    h.set("Connection", "keep-alive");
    h.set("Keep-Alive", "timeout=soon, other=1, max=x");
    let d = connection_directives(&h);
    assert_eq!(
        d.settings,
        vec![ConnSetting::KeepAliveTimeout(60), ConnSetting::KeepAliveMax(100)]
    );
}

#[test]
fn close_directive() {
    let mut h = Headers::new();
    h.set("Connection", "close");
    let d = connection_directives(&h);
    assert!(d.close);
    assert!(d.settings.is_empty());
}

#[test]
fn unreadable_keep_alive_is_refused() {
    let mut h = Headers::new();
    h.set("Connection", "keep-alive");
    h.set("Keep-Alive", "timeout");
    assert!(checked_connection_directives(&h).is_none());
    let mut g = Headers::new();
    g.set("Connection", "close");
    g.set("Keep-Alive", "timeout");
    assert!(checked_connection_directives(&g).unwrap().close);
}

#[test]
fn dispatch_takes_first_matching_route() {
    let matchers = vec![Matcher::new("/a"), Matcher::new("/a/b"), Matcher::new("/")];
    match dispatch(&matchers, false, "/a/b/c") {
        Dispatch::Route(i, m) => {
            assert_eq!(i, 0);
            assert_eq!(m, "/a");
        }
        _ => panic!("expected a route"),
    }
    assert!(matches!(dispatch(&matchers[..2], true, "/z"), Dispatch::Default));
    assert!(matches!(dispatch(&matchers[..2], false, "/z"), Dispatch::NotFound));
}

#[test]
fn request_path_of_request() {
    let mut r = Request::new("http://localhost");
    assert_eq!(request_path(&r), "/__bad_path__");
    r.set_path("/p");
    assert_eq!(request_path(&r), "/p");
}

#[test]
fn no_route_text() {
    assert_eq!(
        no_route_response(),
        "HTTP/1.1 404 Not Found\r\ncontent-type: text/plain\r\ncontent-length: 34\r\n\r\nHype: no route handlers installed."
    );
}

#[test]
fn connection_steps_keep_alive_max_and_close() {
    let mut state = ConnState::new();
    let mut h = Headers::new();
    h.set("Connection", "keep-alive");
    h.set("Keep-Alive", "timeout=7, max=2");
    match on_request(&mut state, &h) {
        Some(ConnAction::Serve { close_after, timeouts }) => {
            assert!(!close_after);
            assert_eq!(timeouts, vec![7]);
        }
        other => panic!("unexpected {:?}", other),
    }
    assert_eq!(state.keepalive_timeout, Some(7));
    assert_eq!(state.keepalive_max, Some(2));
    assert_eq!(state.request_count, 1);

    let plain = Headers::new();
    assert!(matches!(
        on_request(&mut state, &plain),
        Some(ConnAction::Serve { close_after: false, .. })
    ));
    assert!(matches!(on_request(&mut state, &plain), Some(ConnAction::Close)));
    assert_eq!(state.request_count, 3);

    let mut fresh = ConnState::new();
    let mut c = Headers::new();
    c.set("Connection", "Close");
    assert!(matches!(
        on_request(&mut fresh, &c),
        Some(ConnAction::Serve { close_after: true, .. })
    ));

    let mut bad = Headers::new();
    bad.set("Connection", "keep-alive");
    bad.set("Keep-Alive", "timeout");
    assert!(on_request(&mut ConnState::new(), &bad).is_none());
}
