use hype::lb::backend::HttpBackend;
use hype::lb::http::Http;
use hype::lb::picker::{Picker, PickerError, RRPicker, RandomPicker, WeightedRRPicker};
use hype::request::Request;

#[test]
fn rr_picks_in_order() {
    let mut p = RRPicker::new();
    let picks: Vec<usize> = (0..7).map(|_| p.pick_backend(3).unwrap()).collect();
    assert_eq!(picks, vec![0, 1, 2, 0, 1, 2, 0]);
}

#[test]
fn weighted_rr_picks_by_weight() {
    let mut p = WeightedRRPicker::new(vec![2, 1, 3]);
    let picks: Vec<usize> = (0..12).map(|_| p.pick_backend(3).unwrap()).collect();
    assert_eq!(picks, vec![0, 0, 1, 2, 2, 2, 0, 0, 1, 2, 2, 2]);
}

#[test]
fn weighted_rr_inconsistent_length() {
    let mut p = WeightedRRPicker::new(vec![1, 1]);
    match p.pick_backend(3) {
        Err(e) => {
            assert!(matches!(e, PickerError::InconsistentLength(3, 2)));
            assert_eq!(e.message(), "Picker: inconsistent number of backends 3 vs 2");
        }
        Ok(_) => panic!("expected an error"),
    }
}

#[test]
fn random_picks_in_range() {
    let mut p = RandomPicker::new();
    for _ in 0..100 {
        assert!(p.pick_backend(5).unwrap() < 5);
    }
}

#[test]
fn http_rewrites_headers_and_picks() {
    let backends = vec![HttpBackend::new("localhost:1"), HttpBackend::new("localhost:2")];
    let mut lb = Http::new(backends, RRPicker::new());
    lb.rewrite_header("Host", "example.com");
    lb.rewrite_header("Host", "example.org");
    let mut req = Request::new("http://localhost");
    req.set_path("/x");
    req.push_header("Host", "localhost");
    let (i, r) = lb.route_request(&req).unwrap();
    assert_eq!(i, 0);
    assert_eq!(r.headers().get_first("host").unwrap(), "example.org");
    let (j, _) = lb.route_request(&req).unwrap();
    assert_eq!(j, 1);
    assert_eq!(lb.get_backends().len(), 2);
}

#[test]
fn http_forward_reports_picker_errors() {
    let lb: Http<HttpBackend, RRPicker> = Http::new(vec![HttpBackend::new("a:1")], RRPicker::new());
    let req = Request::new("http://localhost");
    let e = lb.forward(Err(PickerError::InconsistentLength(1, 2)), &req).unwrap_err();
    assert_eq!(
        e.message(),
        "internal error: could not pick backend: Picker: inconsistent number of backends 1 vs 2"
    );
    let e = lb.forward(Ok(5), &req).unwrap_err();
    assert_eq!(e.message(), "internal error: picker returned invalid index: 5, num backends: 1");
}

#[test]
fn backend_client_settings() {
    let mut b = HttpBackend::new("example.com:443");
    assert!(!b.client().enable_tls);
    b.enable_tls("example.com");
    let c = b.client();
    assert!(c.enable_tls);
    assert_eq!(c.tls_server_name, "example.com");
    assert_eq!(c.address, "example.com:443");
}

#[test]
fn balancer_spreads_requests_by_policy() {
    let backends = || -> Vec<HttpBackend> {
        (1..=4).map(|i| HttpBackend::new(format!("localhost:{}", i))).collect()
    };
    let req = Request::new("http://localhost");

    let mut rr = Http::new(backends(), RRPicker::new());
    let mut counts = vec![0; 4];
    for _ in 0..20 {
        let (i, _) = rr.route_request(&req).unwrap();
        counts[i] += 1;
    }
    assert_eq!(counts, vec![5, 5, 5, 5]);

    let mut wrr = Http::new(backends(), WeightedRRPicker::new(vec![3, 2, 1, 4]));
    let mut counts = vec![0; 4];
    for _ in 0..20 {
        let (i, _) = wrr.route_request(&req).unwrap();
        counts[i] += 1;
    }
    assert_eq!(counts, vec![6, 4, 2, 8]);
}
